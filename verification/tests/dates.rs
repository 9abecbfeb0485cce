use silver_tasks::date::{format_date_display, format_date_iso, parse_date, Date};

#[test]
fn test_parse_date_dd_mm_yyyy() {
    let date = parse_date("15.02.2026").unwrap();
    assert_eq!(date.year(), 2026);
    assert_eq!(date.month(), 2);
    assert_eq!(date.day(), 15);
}

#[test]
fn test_parse_date_yyyy_mm_dd() {
    let date = parse_date("2026-02-15").unwrap();
    assert_eq!(date.year(), 2026);
    assert_eq!(date.month(), 2);
    assert_eq!(date.day(), 15);
}

#[test]
fn test_parse_date_dd_slash_mm_yyyy() {
    let date = parse_date("15/02/2026").unwrap();
    assert_eq!(date.year(), 2026);
    assert_eq!(date.month(), 2);
    assert_eq!(date.day(), 15);
}

#[test]
fn test_parse_date_invalid() {
    assert!(parse_date("2026-99-99").is_err());
}

#[test]
fn parse_date_rejects_other_shapes() {
    assert!(parse_date("").is_err());
    assert!(parse_date("15.02.26").is_err());
    assert!(parse_date("2026/02/15").is_err());
    assert!(parse_date("15-02-2026").is_err());
    assert!(parse_date("15.02.2026 ").is_err());
    assert!(parse_date("aa.bb.cccc").is_err());
    assert!(parse_date("00.01.2026").is_err());
    assert!(parse_date("01.00.2026").is_err());
    assert!(parse_date("32.01.2026").is_err());
}

#[test]
fn parse_date_knows_month_lengths() {
    assert!(parse_date("31.01.2026").is_ok());
    assert!(parse_date("31.04.2026").is_err());
    assert!(parse_date("30.04.2026").is_ok());
    assert!(parse_date("29.02.2024").is_ok());
    assert!(parse_date("29.02.2023").is_err());
    assert!(parse_date("29.02.2000").is_ok());
    assert!(parse_date("29.02.1900").is_err());
}

#[test]
fn date_round_trips_through_both_renderings() {
    let samples = [
        Date { year: 2026, month: 2, day: 15 },
        Date { year: 2024, month: 2, day: 29 },
        Date { year: 0, month: 1, day: 1 },
        Date { year: 9999, month: 12, day: 31 },
    ];
    for d in samples.iter() {
        assert_eq!(parse_date(&format_date_iso(d)).unwrap(), *d);
        assert_eq!(parse_date(&format_date_display(d)).unwrap(), *d);
    }
}

#[test]
fn date_renders_zero_padded() {
    let d = Date { year: 987, month: 3, day: 5 };
    assert_eq!(format_date_display(&d), "05.03.0987");
    assert_eq!(format_date_iso(&d), "0987-03-05");
}
