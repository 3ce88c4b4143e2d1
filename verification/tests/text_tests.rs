use lib::strs::{byte_len, chars_bounded, push_char};
use lib::text::{
    char_width, plain_truncate, strip_ansi, text_width, truncates_cleanly_exec, try_visible_truncate,
    visible_truncate_ansi,
};
use lib::util::{hex_decode, hex_encode, session_display_name};

#[test]
fn char_width_of_kinds() {
    assert_eq!(char_width('a'), 1);
    assert_eq!(char_width('中'), 2);
    assert_eq!(char_width('\u{1f916}'), 2);
    assert_eq!(char_width('\u{0301}'), 0);
    assert_eq!(char_width('\n'), 0);
    assert_eq!(char_width('\u{200d}'), 0);
}

#[test]
fn text_width_skips_escapes() {
    assert_eq!(text_width("\x1b[31mab\x1b[0m"), 2);
    assert_eq!(text_width("中文"), 4);
    assert_eq!(text_width(""), 0);
}

#[test]
fn strip_ansi_removes_sequences() {
    assert_eq!(strip_ansi("\x1b[1;31mred\x1b[0m!"), "red!");
    assert_eq!(strip_ansi("plain"), "plain");
}

#[test]
fn plain_truncate_cuts_at_cells() {
    assert_eq!(plain_truncate("a\tb", 2), "a ");
    assert_eq!(plain_truncate("中文字", 5), "中文");
    assert_eq!(plain_truncate("abc", 10), "abc");
    assert_eq!(plain_truncate("a\x07b", 2), "ab");
}

#[test]
fn visible_truncate_keeps_colours() {
    assert_eq!(visible_truncate_ansi("\x1b[31mhello", 3), "\x1b[31mhel\x1b[0m");
    assert_eq!(visible_truncate_ansi("ab", 5), "ab\x1b[0m");
}

#[test]
fn visible_truncate_drops_other_escapes() {
    assert_eq!(visible_truncate_ansi("\x1b]0;title\x07ok", 5), "ok\x1b[0m");
    assert_eq!(visible_truncate_ansi("\x1b[2Jx", 5), "x\x1b[0m");
    assert_eq!(visible_truncate_ansi("\x1b(Bx", 5), "x\x1b[0m");
    assert_eq!(visible_truncate_ansi("\x1bPpayload\x1b\\y", 5), "y\x1b[0m");
}

#[test]
fn visible_truncate_stops_before_wide_char() {
    assert_eq!(visible_truncate_ansi("a中", 2), "a\x1b[0m");
}

#[test]
fn escape_before_multibyte_char_cannot_be_cut() {
    assert_eq!(try_visible_truncate("\x1bé", 5), None);
    assert_eq!(try_visible_truncate("\x1b(é", 5), None);
    assert!(!truncates_cleanly_exec("\x1bé", 5));
    assert!(truncates_cleanly_exec("\x1bé", 0));
    assert_eq!(try_visible_truncate("\x1bé", 0), Some("\x1b[0m".to_string()));
}

#[test]
fn display_names_spell_out_special_parts() {
    assert_eq!(session_display_name("work/__float"), "work/◫ float");
    assert_eq!(session_display_name("__agents"), "󰚩 agents");
    assert_eq!(session_display_name("a/b"), "a/b");
    assert_eq!(session_display_name(""), "");
}

#[test]
fn hex_encodes_bytes() {
    assert_eq!(hex_encode("ab"), "6162");
    assert_eq!(hex_encode("é"), "c3a9");
    assert_eq!(hex_encode(""), "");
}

#[test]
fn hex_decodes_pairs() {
    assert_eq!(hex_decode("6162"), "ab");
    assert_eq!(hex_decode("C3A9"), "é");
    assert_eq!(hex_decode("zz61"), "a");
    assert_eq!(hex_decode("616"), "a");
}

#[test]
fn hex_decode_replaces_invalid_utf8() {
    assert_eq!(hex_decode("ff"), "\u{fffd}");
    assert_eq!(hex_decode("61ff62"), "a\u{fffd}b");
}

#[test]
fn hex_round_trip() {
    for s in ["", "a", "work/__float", "é中🤖", "tab\there"] {
        assert_eq!(hex_decode(&hex_encode(s)), s);
    }
}

#[test]
fn byte_len_counts_bytes() {
    assert_eq!(byte_len("é"), 2);
    assert_eq!(byte_len("abc"), 3);
    assert_eq!(chars_bounded("é中").len(), 2);
}

#[test]
fn push_char_appends() {
    let mut s = String::from("a");
    push_char(&mut s, 'é');
    assert_eq!(s, "aé");
}
