use rxscan::command::port::{parse_ports, PortError};

#[test]
fn test_parse_ports() {
    let ports = parse_ports("80,443,8080").unwrap();
    assert_eq!(ports, vec![80, 443, 8080]);

    let ports = parse_ports("1-3").unwrap();
    assert_eq!(ports, vec![1, 2, 3]);

    let ports = parse_ports("80,443,1000-1002").unwrap();
    assert_eq!(ports, vec![80, 443, 1000, 1001, 1002]);
}

#[test]
fn parse_ports_sorts_and_dedups() {
    let ports = parse_ports("443,80,79-81,80").unwrap();
    assert_eq!(ports, vec![79, 80, 81, 443]);
}

#[test]
fn parse_ports_full_range() {
    let ports = parse_ports("1-65535").unwrap();
    assert_eq!(ports.len(), 65535);
    assert_eq!(ports[0], 1);
    assert_eq!(ports[65534], 65535);
}

#[test]
fn parse_ports_reversed_range_is_empty() {
    assert_eq!(parse_ports("5-3").unwrap(), Vec::<u16>::new());
}

#[test]
fn parse_ports_part_with_two_dashes_is_ignored() {
    assert_eq!(parse_ports("1-2-3,7").unwrap(), vec![7]);
}

#[test]
fn parse_ports_plus_sign() {
    assert_eq!(parse_ports("+22").unwrap(), vec![22]);
}

#[test]
fn parse_ports_errors() {
    assert_eq!(parse_ports("").unwrap_err(), PortError::Empty);
    assert_eq!(parse_ports("80,,443").unwrap_err(), PortError::Empty);
    assert_eq!(parse_ports("8o").unwrap_err(), PortError::InvalidDigit);
    assert_eq!(parse_ports("-").unwrap_err(), PortError::Empty);
    assert_eq!(parse_ports("+").unwrap_err(), PortError::InvalidDigit);
    assert_eq!(parse_ports("65536").unwrap_err(), PortError::PosOverflow);
    assert_eq!(parse_ports("1-70000").unwrap_err(), PortError::PosOverflow);
    assert_eq!(parse_ports("99999x").unwrap_err(), PortError::PosOverflow);
    assert_eq!(
        PortError::InvalidDigit.message(),
        "invalid digit found in string"
    );
}
