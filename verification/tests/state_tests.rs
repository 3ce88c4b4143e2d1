use lib::state::{
    cache_dir, cursor_contents, cursor_path, expanded_state_contents, parse_cursor_key,
    parse_expanded_state, parse_watchlist, state_path, watchlist_contents, watchlist_path,
};
use lib::store::{ExpandedState, LabelMap, StrSet};

#[test]
fn cache_dir_prefers_xdg() {
    assert_eq!(cache_dir(Some("/x"), Some("/home/u")), Some("/x/tmux-overview".to_string()));
    assert_eq!(cache_dir(None, Some("/home/u")), Some("/home/u/.cache/tmux-overview".to_string()));
    assert_eq!(cache_dir(None, Some("/home/u/")), Some("/home/u/.cache/tmux-overview".to_string()));
    assert_eq!(cache_dir(None, None), None);
}

#[test]
fn state_files_live_in_cache_dir() {
    assert_eq!(state_path(Some("/c"), None), Some("/c/tmux-overview/expanded.tsv".to_string()));
    assert_eq!(watchlist_path(Some("/c"), None), Some("/c/tmux-overview/watchlist.tsv".to_string()));
    assert_eq!(cursor_path(Some("/c"), None), Some("/c/tmux-overview/cursor".to_string()));
    assert_eq!(cursor_path(None, None), None);
}

#[test]
fn expanded_state_reads_flags() {
    let st = parse_expanded_state("a\t1\nb\t0\nc\ttrue\n\tignored\nnoflag\n");
    assert_eq!(st.get("a"), Some(true));
    assert_eq!(st.get("b"), Some(false));
    assert_eq!(st.get("c"), Some(true));
    assert_eq!(st.get("noflag"), None);
    assert_eq!(st.get(""), None);
    assert!(st.is_expanded("unknown"));
    assert!(!st.is_expanded("b"));
}

#[test]
fn expanded_state_later_lines_win() {
    let st = parse_expanded_state("a\t1\na\t0\n");
    assert_eq!(st.get("a"), Some(false));
}

#[test]
fn expanded_state_written_sorted() {
    let mut st = ExpandedState::new();
    st.insert("b".to_string(), false);
    st.insert("a".to_string(), true);
    assert_eq!(expanded_state_contents(&st), "a\t1\nb\t0\n");
}

#[test]
fn expanded_state_round_trip() {
    let mut st = ExpandedState::new();
    st.insert("work".to_string(), false);
    st.insert("work/sub".to_string(), true);
    let back = parse_expanded_state(&expanded_state_contents(&st));
    assert_eq!(back.entries(), st.entries());
}

#[test]
fn watchlist_reads_trimmed_ids() {
    let w = parse_watchlist("  @2 \n\n@1\n");
    assert_eq!(w.members(), vec!["@1".to_string(), "@2".to_string()]);
    assert!(w.contains("@1"));
    assert!(!w.contains("@3"));
}

#[test]
fn watchlist_round_trip() {
    let mut w = StrSet::new();
    w.insert("@7".to_string());
    w.insert("@3".to_string());
    assert_eq!(watchlist_contents(&w), "@3\n@7\n");
    assert_eq!(parse_watchlist(&watchlist_contents(&w)).members(), w.members());
}

#[test]
fn cursor_key_round_trip() {
    assert_eq!(cursor_contents("session\t$1"), "session\t$1\n");
    assert_eq!(parse_cursor_key(&cursor_contents("session\t$1")), Some("session\t$1".to_string()));
    assert_eq!(parse_cursor_key("  \n"), None);
}

#[test]
fn label_map_keeps_first_labels() {
    let mut m = LabelMap::new();
    m.add("@1".to_string(), vec!["vim".to_string()]);
    assert_eq!(m.labels_for("@1"), vec!["vim".to_string()]);
    assert!(m.labels_for("@2").is_empty());
}
