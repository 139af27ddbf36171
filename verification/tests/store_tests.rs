use rxscan::fingerprint::{init_database_from_str, search, AppFingerError};
use rxscan::models::Banner;

#[test]
fn load_from_str_once() {
    let mut store = None;
    let content = "header line without tab\nSwagger\tBody=\"Swagger UI\"\r\nNginx\tHeader=\"nginx\"\n";
    init_database_from_str(&mut store, content).unwrap();
    assert_eq!(store.as_ref().map(|d| d.len()), Some(2));
    let err = init_database_from_str(&mut store, content).unwrap_err();
    assert_eq!(err.message(), "Database already initialized");
    assert_eq!(store.as_ref().map(|d| d.len()), Some(2));

    let mut b = Banner::new();
    b.body = Some("Swagger UI".to_string());
    assert_eq!(search(store.as_ref(), &b), vec!["2_Swagger"]);
}

#[test]
fn load_from_str_errors() {
    let mut store = None;
    let err = init_database_from_str(&mut store, "").unwrap_err();
    assert_eq!(err.message(), "No valid fingerprints found in database");
    let err = init_database_from_str(&mut store, "A\tBody=\"x\"\nbroken line\n").unwrap_err();
    assert_eq!(err.message(), "Invalid line format at line 2: broken line");
    assert_eq!(err.to_string(), "应用指纹转换异常: Invalid line format at line 2: broken line");
    let err = init_database_from_str(&mut store, "A\tBody=\"x\"\nB\tServer=\"y\"").unwrap_err();
    assert_eq!(err.message(), "未知的HTTP Banner关键字: Server");
    assert!(store.is_none());
    let e = AppFingerError::new("m");
    assert_eq!(e.message(), "m");
}

#[test]
fn load_from_str_first_line_errors_are_not_reported() {
    let mut store = None;
    init_database_from_str(&mut store, "H\tServer=\"x\"\nA\tBody=\"x\"").unwrap();
    assert_eq!(store.map(|d| d.len()), Some(1));
}
