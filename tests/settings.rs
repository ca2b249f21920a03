use arcdb::config::{parse_u8_text, u8_text, Config};

#[test]
fn defaults() {
    let c = Config::defaults();
    assert_eq!(c.bind_address, "127.0.0.1");
    assert_eq!(c.port, "7878");
    assert_eq!(c.cache_write_through, 1);
    assert!(c.debug);
}

#[test]
fn get_is_case_insensitive() {
    let c = Config::defaults();
    assert_eq!(c.get("PORT").as_deref(), Some("7878"));
    assert_eq!(c.get("Bind_Address").as_deref(), Some("127.0.0.1"));
    assert_eq!(c.get("debug").as_deref(), Some("true"));
    assert_eq!(c.get("cache_write_through").as_deref(), Some("1"));
    assert!(c.get("unknown").is_none());
}

#[test]
fn debug_false_renders_false() {
    let mut c = Config::defaults();
    c.debug = false;
    assert_eq!(c.get("debug").as_deref(), Some("false"));
}

#[test]
fn lines_change_settings() {
    let lines = vec![
        "# a comment",
        "BIND_ADDRESS 0.0.0.0",
        "port 9000 trailing",
        "cache_write_through 0",
        "lonely",
        "",
        "unknown_key value",
        "debug false",
    ];
    let c = Config::from_lines(&lines).ok().unwrap();
    assert_eq!(c.bind_address, "0.0.0.0");
    assert_eq!(c.port, "9000");
    assert_eq!(c.cache_write_through, 0);
    assert!(c.debug);
}

#[test]
fn comment_must_start_the_line() {
    let c = Config::from_lines(&vec!["#port 1", " #port 2"]).ok().unwrap();
    assert_eq!(c.port, "7878");
    let c = Config::from_lines(&vec!["#port 1", " port 2"]).ok().unwrap();
    assert_eq!(c.port, "2");
}

#[test]
fn bad_number_is_an_error() {
    assert!(Config::from_lines(&vec!["cache_write_through 256"]).is_err());
    assert!(Config::from_lines(&vec!["cache_write_through x", "port 1"]).is_err());
    let mut c = Config::defaults();
    let e = c.apply_line("cache_write_through -1").err().unwrap();
    assert_eq!(e.to_string(), "Invalid configuration");
    assert_eq!(c.cache_write_through, 1);
}

#[test]
fn byte_numbers_parse() {
    assert_eq!(parse_u8_text("0"), Some(0));
    assert_eq!(parse_u8_text("255"), Some(255));
    assert_eq!(parse_u8_text("+7"), Some(7));
    assert_eq!(parse_u8_text("007"), Some(7));
    assert_eq!(parse_u8_text("256"), None);
    assert_eq!(parse_u8_text("99999999999"), None);
    assert_eq!(parse_u8_text(""), None);
    assert_eq!(parse_u8_text("+"), None);
    assert_eq!(parse_u8_text("1a"), None);
    assert_eq!(parse_u8_text("-0"), None);
}

#[test]
fn byte_numbers_print() {
    assert_eq!(u8_text(0), "0");
    assert_eq!(u8_text(9), "9");
    assert_eq!(u8_text(10), "10");
    assert_eq!(u8_text(42), "42");
    assert_eq!(u8_text(100), "100");
    assert_eq!(u8_text(255), "255");
}
