use popo_cli::{textwrap_wrap, wrap, Date, PopoError, Scraper};

#[test]
fn test_textwrap_wrap_greedy() {
    assert_eq!(
        textwrap_wrap("hello world foo", 11),
        vec!["hello world".to_string(), "foo".to_string()]
    );
    assert_eq!(
        textwrap_wrap("a bb ccc", 3),
        vec!["a".to_string(), "bb".to_string(), "ccc".to_string()]
    );
}

#[test]
fn test_textwrap_wrap_edge_cases() {
    assert_eq!(textwrap_wrap("", 10), Vec::<String>::new());
    assert_eq!(textwrap_wrap("   ", 10), Vec::<String>::new());
    // A word longer than the width stands on its own line.
    assert_eq!(textwrap_wrap("aaaa", 2), vec!["aaaa".to_string()]);
    assert_eq!(
        textwrap_wrap("aaaa bb", 2),
        vec!["aaaa".to_string(), "bb".to_string()]
    );
}

#[test]
fn test_wrap_delegates() {
    assert_eq!(
        wrap("uno dos tres", 7),
        vec!["uno dos".to_string(), "tres".to_string()]
    );
}

#[test]
fn test_date_error_messages() {
    match Scraper::parse_spanish_date("15 de Eneroo de 2024") {
        Err(PopoError::Parse(msg)) => assert_eq!(msg, "Invalid month: Eneroo"),
        _ => panic!("expected a parse error"),
    }
    match Scraper::parse_spanish_date("xx de Enero de 2024") {
        Err(PopoError::Parse(msg)) => assert_eq!(msg, "Invalid day: xx"),
        _ => panic!("expected a parse error"),
    }
    match Scraper::parse_spanish_date("15 de Enero de 20x4") {
        Err(PopoError::Parse(msg)) => assert_eq!(msg, "Invalid year: 20x4"),
        _ => panic!("expected a parse error"),
    }
    match Scraper::parse_spanish_date("solo tres palabras") {
        Err(PopoError::Parse(msg)) => {
            assert_eq!(msg, "Invalid date format: solo tres palabras")
        }
        _ => panic!("expected a parse error"),
    }
    match Scraper::parse_spanish_date("31 de Abril de 2024") {
        Err(PopoError::Parse(msg)) => assert_eq!(msg, "Invalid date: 2024-4-31"),
        _ => panic!("expected a parse error"),
    }
}

#[test]
fn test_date_to_iso_string() {
    let d = Date::from_ymd_opt(2025, 10, 6).unwrap();
    assert_eq!(d.to_iso_string(), "2025-10-06");
    let d = Date::from_ymd_opt(45, 1, 31).unwrap();
    assert_eq!(d.to_iso_string(), "0045-01-31");
}

#[test]
fn test_from_ymd_opt_validity() {
    assert!(Date::from_ymd_opt(2024, 2, 29).is_some());
    assert!(Date::from_ymd_opt(2023, 2, 29).is_none());
    assert!(Date::from_ymd_opt(1900, 2, 29).is_none());
    assert!(Date::from_ymd_opt(2000, 2, 29).is_some());
    assert!(Date::from_ymd_opt(2024, 0, 1).is_none());
    assert!(Date::from_ymd_opt(2024, 13, 1).is_none());
    assert!(Date::from_ymd_opt(2024, 4, 31).is_none());
    assert!(Date::from_ymd_opt(2024, 4, 30).is_some());
}

#[test]
fn test_error_kind_and_message() {
    let err = PopoError::Network("connection reset".to_string());
    assert_eq!(err.kind_name(), "network");
    assert_eq!(err.message(), "connection reset");
    let err = PopoError::NotFound(Date::from_ymd_opt(2024, 5, 1).unwrap());
    assert_eq!(err.kind_name(), "not found");
    assert_eq!(err.message(), "2024-05-01");
    let err = PopoError::Selector("h4".to_string());
    assert_eq!(err.kind_name(), "selector");
    assert_eq!(err.message(), "h4");
}
