use lib::num::{parse_usize_exec, u64_text, usize_text};
use lib::terminal::{clamp_term_size, date_format, format_saved_time, parse_size_pair, term_size};

#[test]
fn numbers_parse_like_std() {
    assert_eq!(parse_usize_exec("42"), Some(42));
    assert_eq!(parse_usize_exec("+7"), Some(7));
    assert_eq!(parse_usize_exec(""), None);
    assert_eq!(parse_usize_exec("+"), None);
    assert_eq!(parse_usize_exec("-1"), None);
    assert_eq!(parse_usize_exec("1a"), None);
    assert_eq!(parse_usize_exec("99999999999999999999999"), None);
}

#[test]
fn decimal_text_round_trip() {
    for n in [0usize, 7, 10, 12345, usize::MAX] {
        assert_eq!(usize_text(n), n.to_string());
        assert_eq!(parse_usize_exec(&usize_text(n)), Some(n));
    }
    assert_eq!(u64_text(86400), "86400");
}

#[test]
fn size_pair_reads_two_words() {
    assert_eq!(parse_size_pair("24 80\n"), Some((24, 80)));
    assert_eq!(parse_size_pair("  24\t 80 extra"), Some((24, 80)));
    assert_eq!(parse_size_pair("24"), None);
    assert_eq!(parse_size_pair("x 80"), None);
    assert_eq!(parse_size_pair(""), None);
}

#[test]
fn term_size_is_clamped() {
    assert_eq!(clamp_term_size((5, 20)), (10, 40));
    assert_eq!(clamp_term_size((50, 200)), (50, 200));
}

#[test]
fn term_size_takes_first_source() {
    assert_eq!(term_size(Some("40"), Some("120"), Some("1 1"), None, None), (40, 120));
    assert_eq!(term_size(Some("x"), Some("120"), Some("30 90"), None, None), (30, 90));
    assert_eq!(term_size(None, None, Some("bad"), Some("25 100"), Some("1 1")), (25, 100));
    assert_eq!(term_size(None, None, None, None, Some("5 5")), (10, 40));
    assert_eq!(term_size(None, None, None, None, None), (30, 100));
}

#[test]
fn saved_time_labels() {
    assert_eq!(date_format(60), "+%H:%M");
    assert_eq!(date_format(90000), "+%b %d");
    assert_eq!(format_saved_time(" 12:30\n", 60), "12:30");
    assert_eq!(format_saved_time("", 3 * 3600 + 5 * 60 + 9), "03:05 ago");
    assert_eq!(format_saved_time("", 12 * 3600), "12:00 ago");
    assert_eq!(format_saved_time("", 3 * 86400 + 5), "3d ago");
}
