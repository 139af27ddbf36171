use rxscan::bullet::app_fp::{FingerPrint, Param};
use rxscan::bullet::{
    assemble_database, get_fingerprint_count, init_database_reader, is_initialized,
    parse_database_line, search,
};
use rxscan::models::{valid_keywords_lower, Banner};

fn banner_with_body(body: &str) -> Banner {
    let mut b = Banner::new();
    b.body = Some(body.to_string());
    b
}

#[test]
fn validate_expr_test() {
    let expr = r#"Body="Swagger UI" || Body="/swagger-ui.css" || Body="swagger-ui-bundle.js" || Body="swagger-ui-standalone-preset.js""#;
    let result = FingerPrint::validate_expr(expr);
    println!("校验结果: {:?}", result.as_ref().map_err(|e| e.to_string()));
    assert_eq!(result.unwrap(), true);
}

#[test]
fn validate_expr_rejects_stray_text() {
    let err = FingerPrint::validate_expr(r#"Body="a" or Body="b""#).unwrap_err();
    assert_eq!(err.message(), r#"未知表达式字符串: Body="a" or Body="b""#);
}

#[test]
fn validate_syntax_checks_skeleton() {
    assert_eq!(FingerPrint::validate_syntax("(${1} || ${2}) && ${3}").unwrap(), true);
    let err = FingerPrint::validate_syntax("${1} || x").unwrap_err();
    assert_eq!(err.message(), "未知布尔表达式字符串:   x");
    assert!(FingerPrint::validate_syntax("${1} ||").unwrap_err().message().starts_with("语法错误: "));
}

#[test]
fn banner_fields() {
    let mut b = Banner::new();
    assert_eq!(b.get_field("Title"), None);
    b.title = Some("Welcome".to_string());
    b.port = Some("8080".to_string());
    assert_eq!(b.get_field("Title"), Some("Welcome"));
    assert_eq!(b.get_field("Port"), Some("8080"));
    assert_eq!(b.get_field("title"), None);
    assert_eq!(b.get_field("Server"), None);
    assert_eq!(valid_keywords_lower().len(), 9);
}

#[test]
fn param_new_and_display() {
    let p = Param::new(r#"Body="Swagger UI""#).unwrap();
    assert_eq!(p.to_string(), "Param(Body,Swagger UI,=)");
    let p = Param::new(r#"BODY != "x""#).unwrap();
    assert_eq!(p.to_string(), "Param(BODY,x,!=)");
    let p = Param::new(r#"title~="^ab""#).unwrap();
    assert_eq!(p.to_string(), "Param(title,^ab,~=)");
    let p = Param::new(r#"Cert=="c\[quota\]d""#).unwrap();
    assert_eq!(p.to_string(), "Param(Cert,c\"d,==)");
}

#[test]
fn param_new_errors() {
    assert_eq!(
        Param::new("nothing here").unwrap_err().message(),
        "未知的参数表达式: nothing here"
    );
    assert_eq!(
        Param::new(r#"Server="nginx""#).unwrap_err().message(),
        "未知的HTTP Banner关键字: Server"
    );
    assert_eq!(
        Param::new(r#"Body~"x""#).unwrap_err().message(),
        "未知的表达式类型: ~"
    );
}

#[test]
fn param_operators_match() {
    let b = banner_with_body("hello swagger world");
    assert!(Param::new(r#"Body="swagger""#).unwrap().matches(&b));
    assert!(!Param::new(r#"Body!="swagger""#).unwrap().matches(&b));
    assert!(Param::new(r#"Body~="sw.gger""#).unwrap().matches(&b));
    assert!(!Param::new(r#"Body~="(""#).unwrap().matches(&b));
    assert!(!Param::new(r#"Body=="swagger""#).unwrap().matches(&b));
    assert!(Param::new(r#"Body=="hello swagger world""#).unwrap().matches(&b));
    // a keyword that is valid in lower case but not a banner field name
    assert!(!Param::new(r#"body="swagger""#).unwrap().matches(&b));
    // an unset field matches nothing, not even `!=`
    assert!(!Param::new(r#"Title!="swagger""#).unwrap().matches(&b));
}

#[test]
fn fingerprint_new_and_matches() {
    let fp = FingerPrint::new(
        &7,
        "Swagger",
        r#"  Body="Swagger UI" || Body="/swagger-ui.css"  "#,
    )
    .unwrap();
    assert_eq!(fp.logical_expr(), "${1} || ${2}");
    assert_eq!(
        fp.to_string(),
        r#"FingerPrint[7,Swagger,Param(Body,Swagger UI,=)Param(Body,/swagger-ui.css,=),  Body="Swagger UI" || Body="/swagger-ui.css"  ,${1} || ${2}]"#
    );
    assert_eq!(fp.matches(&banner_with_body("<title>Swagger UI</title>")), Some("7_Swagger".to_string()));
    assert_eq!(fp.matches(&banner_with_body("nothing")), None);
}

#[test]
fn fingerprint_precedence_and_negation() {
    let fp = FingerPrint::new(&1, "App", r#"(Body="a" || Body="b") && Title!="404""#).unwrap();
    assert_eq!(fp.logical_expr(), "(${1} || ${2}) && ${3}");
    let mut b = banner_with_body("b");
    b.title = Some("home".to_string());
    assert_eq!(fp.matches(&b), Some("1_App".to_string()));
    b.title = Some("404".to_string());
    assert_eq!(fp.matches(&b), None);
}

#[test]
fn fingerprint_escaped_quote() {
    let fp = FingerPrint::new(&3, "Q", r#"Body="say \"hi\"""#).unwrap();
    assert_eq!(fp.matches(&banner_with_body(r#"they say "hi" here"#)), Some("3_Q".to_string()));
}

#[test]
fn fingerprint_new_errors() {
    let err = FingerPrint::new(&1, "X", r#"Body="a" + Body="b""#).unwrap_err();
    assert_eq!(err.message(), r#"未知表达式字符串: Body="a" + Body="b""#);
    assert_eq!(err.to_string(), r#"AppFingerError = 未知表达式字符串: Body="a" + Body="b""#);
    let err = FingerPrint::new(&1, "X", r#"Server="nginx""#).unwrap_err();
    assert_eq!(err.message(), "未知的HTTP Banner关键字: Server");
}

#[test]
fn fingerprint_with_broken_skeleton_still_loads_but_never_matches() {
    let fp = FingerPrint::new(&2, "Broken", r#"Body="a" ||"#).unwrap();
    assert_eq!(fp.logical_expr(), "${1} ||");
    assert!(FingerPrint::validate_syntax(fp.logical_expr()).is_err());
    assert_eq!(fp.matches(&banner_with_body("a")), None);
}

#[test]
fn database_lines() {
    assert!(parse_database_line(1, "   ").is_none());
    assert!(parse_database_line(1, "# comment").is_none());
    assert!(parse_database_line(1, "no tab here").is_none());
    let fp = parse_database_line(4, "  Nginx\tHeader=\"nginx\"  ").unwrap().unwrap();
    assert_eq!(fp.matches(&{
        let mut b = Banner::new();
        b.header = Some("Server: nginx".to_string());
        b
    }), Some("4_Nginx".to_string()));
}

#[test]
fn database_load_and_search() {
    let lines: Vec<String> = vec![
        "# fingerprints".to_string(),
        "Swagger\tBody=\"Swagger UI\"".to_string(),
        "".to_string(),
        "Swagger\tBody=\"swagger-ui.css\"".to_string(),
        "Nginx\tHeader=\"nginx\"".to_string(),
    ];
    let db = init_database_reader(&lines).unwrap();
    assert_eq!(db.len(), 3);
    assert!(is_initialized(Some(&db)));
    assert_eq!(get_fingerprint_count(Some(&db)), 3);
    assert_eq!(get_fingerprint_count(None), 0);
    assert!(!is_initialized(None));

    let mut b = banner_with_body("Swagger UI swagger-ui.css");
    b.header = Some("nginx".to_string());
    assert_eq!(search(Some(&db), &b), vec!["2_Swagger", "4_Swagger", "5_Nginx"]);
    assert_eq!(search(None, &b), Vec::<String>::new());
}

#[test]
fn search_reports_each_product_once() {
    let lines: Vec<String> = vec![
        "A\tBody=\"x\"".to_string(),
        "A\tBody=\"x\"".to_string(),
    ];
    let a = init_database_reader(&lines).unwrap();
    let mut db = a.clone();
    db.extend(a.into_iter());
    let b = banner_with_body("x");
    assert_eq!(search(Some(&db), &b), vec!["1_A", "2_A"]);
}

#[test]
fn database_load_errors() {
    let lines: Vec<String> = vec![
        "Good\tBody=\"x\"".to_string(),
        "Bad\tServer=\"x\"".to_string(),
        "Worse\tBody=\"x\" ??".to_string(),
    ];
    let err = init_database_reader(&lines).unwrap_err();
    assert_eq!(
        err.message(),
        "加载过程中错误的指纹个数[2],最后的错误信息: AppFingerError = 未知表达式字符串: Body=\"x\" ??"
    );
    let err = init_database_reader(&vec!["# only a comment".to_string()]).unwrap_err();
    assert_eq!(err.message(), "未成功识别加载任何应用指纹");
    let err = assemble_database(Vec::new()).unwrap_err();
    assert_eq!(err.message(), "未成功识别加载任何应用指纹");
}
