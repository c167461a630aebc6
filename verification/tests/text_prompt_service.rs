use ddns_route53::prompt::{parse_ttl, record_set, ttl_label, validate_required, DEFAULT_TTL};
use ddns_route53::service::{
    directory_creation_error, file_write_error, has_visible_output, should_enable_service, unit_path,
    validate, ServiceError,
};
use ddns_route53::text::{char_is_whitespace, i64_to_decimal, parse_i64, split_trimmed, trimmed, u64_to_decimal};

#[test]
fn whitespace_matches_char_is_whitespace() {
    for code in 0u32..0x3100 {
        if let Some(c) = char::from_u32(code) {
            assert_eq!(char_is_whitespace(c), c.is_whitespace(), "{:x}", code);
        }
    }
    assert!(!char_is_whitespace('\u{10ffff}'));
}

#[test]
fn trimmed_matches_str_trim() {
    for s in ["", "   ", " a ", "\t\nab c\r\n", "\u{3000}x\u{a0}", "x", "é ", " \u{200b}"] {
        assert_eq!(trimmed(s), s.trim());
    }
}

#[test]
fn record_set_splits_on_commas_and_trims() {
    assert_eq!(
        record_set(" home.example.com , b.example.com,,c "),
        vec!["home.example.com", "b.example.com", "", "c"]
    );
    assert_eq!(record_set(""), vec![""]);
    assert_eq!(record_set("a,"), vec!["a", ""]);
    assert_eq!(record_set("single.example.com"), vec!["single.example.com"]);
}

#[test]
fn split_trimmed_matches_std() {
    for s in ["a,b", " x ,y ,, z", ",", "ü , ß", "no separators"] {
        let expected: Vec<String> = s.split(",").map(|p| p.trim().to_string()).collect();
        assert_eq!(split_trimmed(s, ','), expected);
    }
}

#[test]
fn required_field_refuses_empty_answer() {
    assert_eq!(validate_required(""), Err("This is a required field.".to_string()));
    assert_eq!(validate_required("Z123"), Ok(()));
    assert_eq!(validate_required(" "), Ok(()));
}

#[test]
fn ttl_parses_like_i64_from_str() {
    for s in [
        "300", "-5", "+7", "0", "-0", "00012", "9223372036854775807", "9223372036854775808",
        "-9223372036854775808", "-9223372036854775809", "", "-", "+", "12a", " 1", "1 ", "+-1",
        "99999999999999999999999", "٣",
    ] {
        assert_eq!(parse_ttl(s), s.parse::<i64>().ok(), "{:?}", s);
    }
    assert_eq!(parse_ttl("300"), Some(300));
    assert_eq!(parse_i64("-9223372036854775808"), Some(i64::MIN));
    assert_eq!(DEFAULT_TTL, 300);
}

#[test]
fn decimal_rendering_matches_to_string() {
    for n in [0u64, 7, 10, 99, 100, 1234567890, u64::MAX] {
        assert_eq!(u64_to_decimal(n), n.to_string());
    }
    for n in [0i64, -1, 5, -10, 300, i64::MAX, i64::MIN] {
        assert_eq!(i64_to_decimal(n), n.to_string());
    }
}

#[test]
fn ttl_text_parses_back() {
    for n in [0i64, 1, -1, 300, 86400, i64::MAX, i64::MIN] {
        assert_eq!(parse_ttl(&i64_to_decimal(n)), Some(n));
    }
}

#[test]
fn ttl_label_shows_the_number() {
    assert_eq!(ttl_label(300), "TTL: 300");
    assert_eq!(ttl_label(-1), "TTL: -1");
}

#[test]
fn systemd_detection() {
    assert_eq!(validate(Ok("systemd\n".to_string())), Ok(()));
    assert_eq!(validate(Ok("  systemd".to_string())), Ok(()));
    assert_eq!(validate(Ok("init\n".to_string())), Err(ServiceError::SystemdNotFound));
    assert_eq!(validate(Ok("systemd-x".to_string())), Err(ServiceError::SystemdNotFound));
    assert_eq!(
        validate(Err("No such file".to_string())),
        Err(ServiceError::Unknown("No such file".to_string()))
    );
}

#[test]
fn service_error_messages() {
    assert_eq!(ServiceError::PermissionError.message(), "permission denied - have you tried sudo?");
    assert_eq!(ServiceError::SystemdNotFound.message(), "systemd is required to write service files");
    assert_eq!(ServiceError::FileWrite("disk".to_string()).message(), "failed to write file");
    assert_eq!(ServiceError::DirectoryCreation("x".to_string()).message(), "failed to create directory");
    assert_eq!(ServiceError::Unknown("boom".to_string()).message(), "unknown error: boom");
}

#[test]
fn io_failures_are_classified() {
    assert_eq!(file_write_error(true, "denied".to_string()), ServiceError::PermissionError);
    assert_eq!(file_write_error(false, "full".to_string()), ServiceError::FileWrite("full".to_string()));
    assert_eq!(directory_creation_error(true, "denied".to_string()), ServiceError::PermissionError);
    assert_eq!(
        directory_creation_error(false, "ro".to_string()),
        ServiceError::DirectoryCreation("ro".to_string())
    );
}

#[test]
fn unit_paths() {
    assert_eq!(unit_path("ddns.service"), "/etc/systemd/system/ddns.service");
    assert_eq!(unit_path("ddns.timer"), "/etc/systemd/system/ddns.timer");
    assert_eq!(unit_path("/tmp/x.timer"), "/tmp/x.timer");
    assert_eq!(
        unit_path("ddns.timer"),
        std::path::Path::new("/etc/systemd/system").join("ddns.timer").to_str().unwrap()
    );
}

#[test]
fn enabling_is_offered_unless_every_unit_failed_for_systemd_or_write() {
    let ok: Result<(), Vec<ServiceError>> = Ok(());
    assert!(should_enable_service(&vec![Ok(()), Ok(())]));
    assert!(!should_enable_service(&vec![
        Err(vec![ServiceError::SystemdNotFound]),
        Err(vec![ServiceError::FileWrite("x".to_string())]),
    ]));
    assert!(should_enable_service(&vec![Err(vec![ServiceError::SystemdNotFound]), ok]));
    assert!(should_enable_service(&vec![
        Err(vec![ServiceError::PermissionError]),
        Err(vec![ServiceError::SystemdNotFound]),
    ]));
    assert!(should_enable_service(&vec![Err(vec![]), Err(vec![ServiceError::SystemdNotFound])]));
    assert!(!should_enable_service(&vec![
        Err(vec![ServiceError::Unknown("a".to_string()), ServiceError::SystemdNotFound]),
        Err(vec![ServiceError::PermissionError, ServiceError::FileWrite("b".to_string())]),
    ]));
    assert!(!should_enable_service(&vec![]));
}

#[test]
fn visible_output() {
    assert!(!has_visible_output(""));
    assert!(!has_visible_output(" \n\t"));
    assert!(has_visible_output("  error: unit not found\n"));
}

#[test]
fn trimming_twice_is_trimming_once() {
    for s in ["  a b  ", "\u{2028}x", "", "y\u{85}"] {
        let once = trimmed(s);
        assert_eq!(trimmed(&once), once);
    }
}

#[test]
fn record_set_has_one_record_per_comma_plus_one() {
    let input = " a , b,\tc ,, ";
    let records = record_set(input);
    assert_eq!(records.len(), input.matches(',').count() + 1);
    for r in &records {
        assert!(!r.contains(','));
        assert_eq!(r.trim(), r.as_str());
    }
}
