use vstd::prelude::*;
use crate::store::{ExpandedState, StrSet, item_views, keys_of, strictly_sorted};
use crate::strs::{
    eq_str, is_ws, trim_end, trim_start, first_index, is_empty_str, lemma_first_index_at, lines, lines_from, lit, pair_views,
    push_char, push_str, split_lines, split_once, split_once_char, strip_cr, trim, trimmed, views,
};

verus! {

/// `PathBuf::join` for a path written as text: an absolute `comp` replaces
/// `base`; otherwise a `/` separates them unless `base` is empty or already
/// ends with one.
pub open spec fn path_join(base: Seq<char>, comp: Seq<char>) -> Seq<char> {
    if comp.len() > 0 && comp[0] == '/' {
        comp
    } else if base.len() == 0 || base.last() == '/' {
        base + comp
    } else {
        base + seq!['/'] + comp
    }
}

pub fn join_path(base: &str, comp: &str) -> (r: String)
    ensures
        r@ == path_join(base@, comp@),
{
    let c = crate::strs::chars_of(comp);
    if c.len() > 0 && c[0] == '/' {
        return lit(comp);
    }
    let b = crate::strs::chars_of(base);
    let mut out = lit(base);
    if !(b.len() == 0 || b[b.len() - 1] == '/') {
        push_char(&mut out, '/');
    }
    push_str(&mut out, comp);
    out
}

pub open spec fn opt_str(o: Option<&str>) -> Option<Seq<char>> {
    match o {
        Some(s) => Some(s@),
        None => None,
    }
}

pub open spec fn opt_string(o: Option<String>) -> Option<Seq<char>> {
    match o {
        Some(s) => Some(s@),
        None => None,
    }
}

/// The cache directory: `$XDG_CACHE_HOME`, else `$HOME/.cache`, with
/// `tmux-overview` below it; none when neither variable is set.
pub open spec fn spec_cache_dir(xdg_cache_home: Option<Seq<char>>, home: Option<Seq<char>>) -> Option<
    Seq<char>,
> {
    let base = match xdg_cache_home {
        Some(x) => Some(x),
        None => match home {
            Some(h) => Some(path_join(h, ".cache"@)),
            None => None,
        },
    };
    match base {
        Some(b) => Some(path_join(b, "tmux-overview"@)),
        None => None,
    }
}

pub open spec fn in_cache_dir(
    xdg_cache_home: Option<Seq<char>>,
    home: Option<Seq<char>>,
    file: Seq<char>,
) -> Option<Seq<char>> {
    match spec_cache_dir(xdg_cache_home, home) {
        Some(d) => Some(path_join(d, file)),
        None => None,
    }
}

/// The cache directory, from the values of `XDG_CACHE_HOME` and `HOME`.
pub fn cache_dir(xdg_cache_home: Option<&str>, home: Option<&str>) -> (r: Option<String>)
    ensures
        opt_string(r) == spec_cache_dir(opt_str(xdg_cache_home), opt_str(home)),
{
    let base = match xdg_cache_home {
        Some(x) => lit(x),
        None => match home {
            Some(h) => join_path(h, ".cache"),
            None => {
                return None;
            },
        },
    };
    Some(join_path(base.as_str(), "tmux-overview"))
}

fn cache_file(xdg_cache_home: Option<&str>, home: Option<&str>, file: &str) -> (r: Option<String>)
    ensures
        opt_string(r) == in_cache_dir(opt_str(xdg_cache_home), opt_str(home), file@),
{
    match cache_dir(xdg_cache_home, home) {
        Some(d) => Some(join_path(d.as_str(), file)),
        None => None,
    }
}

/// Where the fold state is kept.
pub fn state_path(xdg_cache_home: Option<&str>, home: Option<&str>) -> (r: Option<String>)
    ensures
        opt_string(r) == in_cache_dir(opt_str(xdg_cache_home), opt_str(home), "expanded.tsv"@),
{
    cache_file(xdg_cache_home, home, "expanded.tsv")
}

/// Where the watch list is kept.
pub fn watchlist_path(xdg_cache_home: Option<&str>, home: Option<&str>) -> (r: Option<String>)
    ensures
        opt_string(r) == in_cache_dir(opt_str(xdg_cache_home), opt_str(home), "watchlist.tsv"@),
{
    cache_file(xdg_cache_home, home, "watchlist.tsv")
}

/// Where the key of the selected row is kept.
pub fn cursor_path(xdg_cache_home: Option<&str>, home: Option<&str>) -> (r: Option<String>)
    ensures
        opt_string(r) == in_cache_dir(opt_str(xdg_cache_home), opt_str(home), "cursor"@),
{
    cache_file(xdg_cache_home, home, "cursor")
}

// ---------------------------------------------------------------------------
// fold state file: one `name<TAB>1|0` line per session
/// The fold state after reading one line: `name<TAB>value` records `name` as
/// open when the value is `1` or `true`; lines without a tab or with an empty
/// name change nothing.
pub open spec fn expanded_line(m: Map<Seq<char>, bool>, line: Seq<char>) -> Map<Seq<char>, bool> {
    match split_once(line, '\t') {
        Some((name, value)) => if name.len() > 0 {
            m.insert(name, value == "1"@ || value == "true"@)
        } else {
            m
        },
        None => m,
    }
}

pub open spec fn expanded_from_lines(ls: Seq<Seq<char>>) -> Map<Seq<char>, bool>
    decreases ls.len(),
{
    if ls.len() == 0 {
        Map::empty()
    } else {
        expanded_line(expanded_from_lines(ls.drop_last()), ls.last())
    }
}

pub open spec fn spec_parse_expanded(contents: Seq<char>) -> Map<Seq<char>, bool> {
    expanded_from_lines(lines(contents))
}

/// Reads the fold state file.
pub fn parse_expanded_state(contents: &str) -> (r: ExpandedState)
    ensures
        r@ == spec_parse_expanded(contents@),
{
    let ls = split_lines(contents);
    let mut state = ExpandedState::new();
    let mut i: usize = 0;
    while i < ls.len()
        invariant
            i <= ls@.len(),
            views(ls@) == lines(contents@),
            state@ == expanded_from_lines(views(ls@).take(i as int)),
        decreases ls.len() - i,
    {
        assert(views(ls@).take(i + 1).drop_last() =~= views(ls@).take(i as int));
        let line = &ls[i];
        match split_once_char(line.as_str(), '\t') {
            Some((name, value)) => {
                if !is_empty_str(name.as_str()) {
                    let on = eq_str(value.as_str(), "1") || eq_str(value.as_str(), "true");
                    state.insert(name, on);
                }
            },
            None => {},
        }
        i += 1;
    }
    assert(views(ls@).take(ls@.len() as int) =~= views(ls@));
    state
}

pub open spec fn flag_text(value: bool) -> Seq<char> {
    if value {
        "1"@
    } else {
        "0"@
    }
}

pub open spec fn expanded_text(es: Seq<(Seq<char>, bool)>) -> Seq<char>
    decreases es.len(),
{
    if es.len() == 0 {
        Seq::empty()
    } else {
        expanded_text(es.drop_last()) + es.last().0 + seq!['\t'] + flag_text(es.last().1) + seq![
            '\n',
        ]
    }
}

pub open spec fn entry_views(s: Seq<(String, bool)>) -> Seq<(Seq<char>, bool)> {
    s.map_values(|e: (String, bool)| (e.0@, e.1))
}

pub open spec fn entry_keys(es: Seq<(Seq<char>, bool)>) -> Seq<Seq<char>> {
    es.map_values(|e: (Seq<char>, bool)| e.0)
}

/// `es` lists the entries of `m`, by increasing name.
pub open spec fn lists_in_order(es: Seq<(Seq<char>, bool)>, m: Map<Seq<char>, bool>) -> bool {
    &&& strictly_sorted(entry_keys(es))
    &&& forall|i: int| 0 <= i < es.len() ==> m.contains_key(#[trigger] es[i].0) && m[es[i].0] == es[i].1
    &&& forall|k: Seq<char>| m.contains_key(k) ==> exists|i: int| 0 <= i < es.len() && es[i].0 == k
}

/// `text` is the fold state file written for `m`: one `name<TAB>1|0` line per
/// session, by increasing name.
pub open spec fn is_expanded_text(m: Map<Seq<char>, bool>, text: Seq<char>) -> bool {
    exists|es: Seq<(Seq<char>, bool)>| lists_in_order(es, m) && text == expanded_text(es)
}

/// The fold state file for `state`.
pub fn expanded_state_contents(state: &ExpandedState) -> (r: String)
    ensures
        is_expanded_text(state@, r@),
{
    let entries = state.entries();
    let ghost es = entry_views(entries@);
    let mut out = String::new();
    let mut i: usize = 0;
    while i < entries.len()
        invariant
            i <= entries@.len(),
            es == entry_views(entries@),
            out@ == expanded_text(es.take(i as int)),
        decreases entries.len() - i,
    {
        assert(es.take(i + 1).drop_last() =~= es.take(i as int));
        push_str(&mut out, entries[i].0.as_str());
        push_char(&mut out, '\t');
        if entries[i].1 {
            push_str(&mut out, "1");
        } else {
            push_str(&mut out, "0");
        }
        push_char(&mut out, '\n');
        i += 1;
    }
    proof {
        assert(es.take(entries@.len() as int) =~= es);
        assert(entry_keys(es) =~= keys_of(entries@));
        assert forall|k: Seq<char>| state@.contains_key(k) implies exists|i: int|
            0 <= i < es.len() && es[i].0 == k by {
            let j = choose|j: int| 0 <= j < entries@.len() && entries@[j].0@ == k;
            assert(es[j].0 == k);
        }
        assert forall|i: int| 0 <= i < es.len() implies state@.contains_key(#[trigger] es[i].0)
            && state@[es[i].0] == es[i].1 by {
            assert(es[i].0 == entries@[i].0@);
        }
        assert(lists_in_order(es, state@));
    }
    out
}

// ---------------------------------------------------------------------------
// watch list file: one window id per line
pub open spec fn watchlist_from_lines(ls: Seq<Seq<char>>) -> Set<Seq<char>>
    decreases ls.len(),
{
    if ls.len() == 0 {
        Set::empty()
    } else {
        let rest = watchlist_from_lines(ls.drop_last());
        let id = trim(ls.last());
        if id.len() > 0 {
            rest.insert(id)
        } else {
            rest
        }
    }
}

/// The watch list in a file: its lines, trimmed, the empty ones left out.
pub open spec fn spec_parse_watchlist(contents: Seq<char>) -> Set<Seq<char>> {
    watchlist_from_lines(lines(contents))
}

/// Reads the watch list file.
pub fn parse_watchlist(contents: &str) -> (r: StrSet)
    ensures
        r@ == spec_parse_watchlist(contents@),
{
    let ls = split_lines(contents);
    let mut set = StrSet::new();
    let mut i: usize = 0;
    while i < ls.len()
        invariant
            i <= ls@.len(),
            views(ls@) == lines(contents@),
            set@ == watchlist_from_lines(views(ls@).take(i as int)),
        decreases ls.len() - i,
    {
        assert(views(ls@).take(i + 1).drop_last() =~= views(ls@).take(i as int));
        let id = trimmed(ls[i].as_str());
        if !is_empty_str(id.as_str()) {
            set.insert(id);
        }
        i += 1;
    }
    assert(views(ls@).take(ls@.len() as int) =~= views(ls@));
    set
}

pub open spec fn watchlist_text(ids: Seq<Seq<char>>) -> Seq<char>
    decreases ids.len(),
{
    if ids.len() == 0 {
        Seq::empty()
    } else {
        watchlist_text(ids.drop_last()) + ids.last() + seq!['\n']
    }
}

/// `text` is the watch list file written for `set`: one id per line, by
/// increasing id.
pub open spec fn is_watchlist_text(set: Set<Seq<char>>, text: Seq<char>) -> bool {
    exists|ids: Seq<Seq<char>>|
        strictly_sorted(ids) && (forall|k: Seq<char>| set.contains(k) <==> ids.contains(k)) && text
            == watchlist_text(ids)
}

/// The watch list file for `set`.
pub fn watchlist_contents(set: &StrSet) -> (r: String)
    ensures
        is_watchlist_text(set@, r@),
{
    let ids = set.members();
    let ghost iv = item_views(ids@);
    let mut out = String::new();
    let mut i: usize = 0;
    while i < ids.len()
        invariant
            i <= ids@.len(),
            iv == item_views(ids@),
            out@ == watchlist_text(iv.take(i as int)),
        decreases ids.len() - i,
    {
        assert(iv.take(i + 1).drop_last() =~= iv.take(i as int));
        push_str(&mut out, ids[i].as_str());
        push_char(&mut out, '\n');
        i += 1;
    }
    proof {
        assert(iv.take(ids@.len() as int) =~= iv);
        assert forall|k: Seq<char>| set@.contains(k) <==> iv.contains(k) by {
            if set@.contains(k) {
                let j = choose|j: int| 0 <= j < ids@.len() && ids@[j]@ == k;
                assert(iv[j] == k);
            }
            if iv.contains(k) {
                let j = choose|j: int| 0 <= j < iv.len() && iv[j] == k;
                assert(ids@[j]@ == k);
            }
        }
    }
    out
}

// ---------------------------------------------------------------------------
// cursor file: the key of the selected row
pub open spec fn spec_parse_cursor(contents: Seq<char>) -> Option<Seq<char>> {
    if trim(contents).len() == 0 {
        None
    } else {
        Some(trim(contents))
    }
}

/// Reads the cursor file: its trimmed text, unless empty.
pub fn parse_cursor_key(contents: &str) -> (r: Option<String>)
    ensures
        opt_string(r) == spec_parse_cursor(contents@),
{
    let key = trimmed(contents);
    if is_empty_str(key.as_str()) {
        None
    } else {
        Some(key)
    }
}

/// The cursor file for `key`.
pub fn cursor_contents(key: &str) -> (r: String)
    ensures
        r@ == key@ + seq!['\n'],
{
    let mut out = lit(key);
    push_char(&mut out, '\n');
    out
}


// ---------------------------------------------------------------------------
// reading back what was written
pub proof fn lemma_lines_from_concat(x: Seq<char>, y: Seq<char>, cur: Seq<char>)
    requires
        x.len() > 0,
        x.last() == '\n',
    ensures
        lines_from(x + y, cur) == lines_from(x, cur) + lines_from(y, Seq::empty()),
    decreases x.len(),
{
    let xy = x + y;
    assert(xy.drop_first() =~= x.drop_first() + y);
    if x[0] == '\n' {
        if x.len() == 1 {
            assert(x.drop_first() =~= Seq::<char>::empty());
            assert(x.drop_first() + y =~= y);
            assert(lines_from(x.drop_first(), Seq::empty()) =~= Seq::<Seq<char>>::empty());
            assert(lines_from(x, cur) =~= seq![strip_cr(cur)]);
        } else {
            lemma_lines_from_concat(x.drop_first(), y, Seq::empty());
            assert(lines_from(x, cur) == seq![strip_cr(cur)] + lines_from(
                x.drop_first(),
                Seq::empty(),
            ));
            assert(lines_from(xy, cur) == seq![strip_cr(cur)] + lines_from(
                x.drop_first() + y,
                Seq::empty(),
            ));
            assert(seq![strip_cr(cur)] + (lines_from(x.drop_first(), Seq::empty()) + lines_from(
                y,
                Seq::empty(),
            )) =~= seq![strip_cr(cur)] + lines_from(x.drop_first(), Seq::empty()) + lines_from(
                y,
                Seq::empty(),
            ));
        }
    } else {
        lemma_lines_from_concat(x.drop_first(), y, cur.push(x[0]));
    }
}

pub proof fn lemma_single_line(a: Seq<char>, cur: Seq<char>)
    requires
        forall|i: int| 0 <= i < a.len() ==> a[i] != '\n',
    ensures
        lines_from(a + seq!['\n'], cur) == seq![strip_cr(cur + a)],
    decreases a.len(),
{
    let t = a + seq!['\n'];
    if a.len() == 0 {
        assert(t.drop_first() =~= Seq::<char>::empty());
        assert(cur + a =~= cur);
        assert(t[0] == '\n');
        let e = lines_from(t.drop_first(), Seq::empty());
        assert(e =~= Seq::<Seq<char>>::empty());
        assert(seq![strip_cr(cur)] + e =~= seq![strip_cr(cur)]);
    } else {
        assert(t.drop_first() =~= a.drop_first() + seq!['\n']);
        assert(t[0] == a[0]);
        assert forall|i: int| 0 <= i < a.drop_first().len() implies a.drop_first()[i] != '\n' by {
            assert(a.drop_first()[i] == a[i + 1]);
        }
        lemma_single_line(a.drop_first(), cur.push(a[0]));
        assert(cur.push(a[0]) + a.drop_first() =~= cur + a);
    }
}

pub open spec fn expanded_line_text(e: (Seq<char>, bool)) -> Seq<char> {
    e.0 + seq!['\t'] + flag_text(e.1)
}

pub open spec fn clean_name(k: Seq<char>) -> bool {
    k.len() > 0 && !k.contains('\t') && !k.contains('\n')
}

proof fn lemma_expanded_text_lines(es: Seq<(Seq<char>, bool)>)
    requires
        forall|i: int| 0 <= i < es.len() ==> clean_name(#[trigger] es[i].0),
    ensures
        lines(expanded_text(es)) == es.map_values(|e: (Seq<char>, bool)| expanded_line_text(e)),
        es.len() > 0 ==> expanded_text(es).len() > 0 && expanded_text(es).last() == '\n',
    decreases es.len(),
{
    reveal_strlit("1");
    reveal_strlit("0");
    if es.len() > 0 {
        let prev = es.drop_last();
        let e = es.last();
        let l = expanded_line_text(e);
        lemma_expanded_text_lines(prev);
        assert forall|i: int| 0 <= i < l.len() implies l[i] != '\n' by {
            if i < e.0.len() {
                assert(l[i] == e.0[i]);
                assert(clean_name(es[es.len() - 1].0));
            }
        }
        lemma_single_line(l, Seq::empty());
        assert(Seq::<char>::empty() + l =~= l);
        assert(strip_cr(l) == l);
        let t = expanded_text(es);
        assert(t =~= expanded_text(prev) + (l + seq!['\n']));
        if prev.len() > 0 {
            lemma_lines_from_concat(expanded_text(prev), l + seq!['\n'], Seq::empty());
        } else {
            assert(expanded_text(prev) + (l + seq!['\n']) =~= l + seq!['\n']);
        }
        assert(es.map_values(|e: (Seq<char>, bool)| expanded_line_text(e)) =~= prev.map_values(
            |e: (Seq<char>, bool)| expanded_line_text(e),
        ).push(l));
    }
}

pub open spec fn map_of(es: Seq<(Seq<char>, bool)>) -> Map<Seq<char>, bool>
    decreases es.len(),
{
    if es.len() == 0 {
        Map::empty()
    } else {
        map_of(es.drop_last()).insert(es.last().0, es.last().1)
    }
}

proof fn lemma_expanded_fold(es: Seq<(Seq<char>, bool)>)
    requires
        forall|i: int| 0 <= i < es.len() ==> clean_name(#[trigger] es[i].0),
    ensures
        expanded_from_lines(es.map_values(|e: (Seq<char>, bool)| expanded_line_text(e)))
            == map_of(es),
    decreases es.len(),
{
    reveal_strlit("1");
    reveal_strlit("0");
    reveal_strlit("true");
    if es.len() > 0 {
        let prev = es.drop_last();
        let ls = es.map_values(|e: (Seq<char>, bool)| expanded_line_text(e));
        assert(ls.drop_last() =~= prev.map_values(|e: (Seq<char>, bool)| expanded_line_text(e)));
        lemma_expanded_fold(prev);
        let e = es.last();
        let l = expanded_line_text(e);
        assert(clean_name(es[es.len() - 1].0));
        assert forall|j: int| 0 <= j < e.0.len() implies l[j] != '\t' by {
            assert(l[j] == e.0[j]);
        }
        lemma_first_index_at(l, '\t', e.0.len() as int);
        assert(l.subrange(0, e.0.len() as int) =~= e.0);
        assert(l.subrange(e.0.len() as int + 1, l.len() as int) =~= flag_text(e.1));
        assert(ls.last() == l);
        assert(split_once(l, '\t') == Some((e.0, flag_text(e.1))));
        assert((flag_text(e.1) == "1"@ || flag_text(e.1) == "true"@) == e.1) by {
            if !e.1 {
                assert(flag_text(e.1)[0] != "1"@[0]);
                assert(flag_text(e.1).len() != "true"@.len());
            }
        }
        assert(e.0.len() > 0);
    }
}

proof fn lemma_map_of(es: Seq<(Seq<char>, bool)>)
    requires
        strictly_sorted(entry_keys(es)),
    ensures
        forall|k: Seq<char>|
            map_of(es).contains_key(k) <==> exists|i: int| 0 <= i < es.len() && es[i].0 == k,
        forall|i: int| 0 <= i < es.len() ==> map_of(es)[#[trigger] es[i].0] == es[i].1,
    decreases es.len(),
{
    if es.len() > 0 {
        let prev = es.drop_last();
        assert(entry_keys(prev) =~= entry_keys(es).drop_last());
        lemma_map_of(prev);
        let n = es.len() - 1;
        assert forall|k: Seq<char>|
            map_of(es).contains_key(k) <==> exists|i: int| 0 <= i < es.len() && es[i].0 == k by {
            if map_of(es).contains_key(k) && k != es[n].0 {
                assert(map_of(prev).contains_key(k));
                let i = choose|i: int| 0 <= i < prev.len() && prev[i].0 == k;
                assert(prev[i] == es[i]);
                assert(es[i].0 == k);
            }
            if exists|i: int| 0 <= i < es.len() && es[i].0 == k {
                let i = choose|i: int| 0 <= i < es.len() && es[i].0 == k;
                if i < n {
                    assert(prev[i] == es[i]);
                    assert(prev[i].0 == k);
                    assert(map_of(prev).contains_key(k));
                }
            }
        }
        assert forall|i: int| 0 <= i < es.len() implies map_of(es)[#[trigger] es[i].0] == es[i].1 by {
            if i < n {
                assert(entry_keys(es)[i] == es[i].0);
                assert(entry_keys(es)[n] == es[n].0);
                crate::store::lemma_sorted_distinct(entry_keys(es), i, n);
                assert(prev[i] == es[i]);
            }
        }
    }
}

/// Reading the fold state file gives back the fold state it was written for,
/// when every recorded name is non-empty and holds no tab and no line break.
pub proof fn law_expanded_state_round_trip(m: Map<Seq<char>, bool>, text: Seq<char>)
    requires
        forall|k: Seq<char>| m.contains_key(k) ==> clean_name(k),
        is_expanded_text(m, text),
    ensures
        spec_parse_expanded(text) == m,
{
    let es = choose|es: Seq<(Seq<char>, bool)>| lists_in_order(es, m) && text == expanded_text(es);
    assert forall|i: int| 0 <= i < es.len() implies clean_name(#[trigger] es[i].0) by {
        assert(m.contains_key(es[i].0));
    }
    lemma_expanded_text_lines(es);
    lemma_expanded_fold(es);
    lemma_map_of(es);
    assert forall|k: Seq<char>| #[trigger] map_of(es).contains_key(k) == m.contains_key(k) by {
        if m.contains_key(k) {
            let i = choose|i: int| 0 <= i < es.len() && es[i].0 == k;
        }
        if map_of(es).contains_key(k) {
            let i = choose|i: int| 0 <= i < es.len() && es[i].0 == k;
            assert(m.contains_key(es[i].0));
        }
    }
    assert forall|k: Seq<char>| #[trigger] map_of(es).contains_key(k) implies map_of(es)[k]
        == m[k] by {
        let i = choose|i: int| 0 <= i < es.len() && es[i].0 == k;
        assert(m.contains_key(es[i].0));
    }
    assert(map_of(es) =~= m);
}


proof fn lemma_trim_start_len(s: Seq<char>)
    ensures
        trim_start(s).len() <= s.len(),
    decreases s.len(),
{
    if s.len() > 0 && is_ws(s[0]) {
        lemma_trim_start_len(s.drop_first());
    }
}

proof fn lemma_trim_end_len(s: Seq<char>)
    ensures
        trim_end(s).len() <= s.len(),
    decreases s.len(),
{
    if s.len() > 0 && is_ws(s.last()) {
        lemma_trim_end_len(s.drop_last());
    }
}

/// A non-empty string that trimming leaves alone starts and ends with a
/// character that is not white space.
proof fn lemma_trimmed_ends(k: Seq<char>)
    requires
        trim(k) == k,
        k.len() > 0,
    ensures
        !is_ws(k[0]),
        !is_ws(k.last()),
        trim_start(k) == k,
        trim_end(k) == k,
{
    lemma_trim_start_len(k);
    if is_ws(k[0]) {
        lemma_trim_start_len(k.drop_first());
        lemma_trim_end_len(trim_start(k));
        assert(false);
    }
    assert(trim_start(k) == k);
    if is_ws(k.last()) {
        lemma_trim_end_len(k.drop_last());
        assert(false);
    }
}

/// A watch list entry that the file keeps as it is: non-empty, on one line,
/// without surrounding white space.
pub open spec fn clean_id(k: Seq<char>) -> bool {
    k.len() > 0 && !k.contains('\n') && trim(k) == k
}

proof fn lemma_watchlist_text_lines(ids: Seq<Seq<char>>)
    requires
        forall|i: int| 0 <= i < ids.len() ==> clean_id(#[trigger] ids[i]),
    ensures
        lines(watchlist_text(ids)) == ids,
        ids.len() > 0 ==> watchlist_text(ids).len() > 0 && watchlist_text(ids).last() == '\n',
    decreases ids.len(),
{
    if ids.len() > 0 {
        let prev = ids.drop_last();
        let l = ids.last();
        assert(clean_id(ids[ids.len() - 1]));
        assert forall|i: int| 0 <= i < prev.len() implies clean_id(#[trigger] prev[i]) by {
            assert(prev[i] == ids[i]);
        }
        lemma_watchlist_text_lines(prev);
        assert forall|i: int| 0 <= i < l.len() implies l[i] != '\n' by {
            if l[i] == '\n' {
                assert(l.contains('\n'));
            }
        }
        lemma_single_line(l, Seq::empty());
        assert(Seq::<char>::empty() + l =~= l);
        lemma_trimmed_ends(l);
        assert(strip_cr(l) == l);
        if prev.len() > 0 {
            lemma_lines_from_concat(watchlist_text(prev), l + seq!['\n'], Seq::empty());
            assert(watchlist_text(ids) =~= watchlist_text(prev) + (l + seq!['\n']));
        } else {
            assert(watchlist_text(ids) =~= l + seq!['\n']);
        }
        assert(ids =~= prev.push(l));
    }
}

proof fn lemma_watchlist_fold(ids: Seq<Seq<char>>)
    requires
        forall|i: int| 0 <= i < ids.len() ==> clean_id(#[trigger] ids[i]),
    ensures
        forall|k: Seq<char>| watchlist_from_lines(ids).contains(k) <==> ids.contains(k),
    decreases ids.len(),
{
    if ids.len() > 0 {
        let prev = ids.drop_last();
        assert forall|i: int| 0 <= i < prev.len() implies clean_id(#[trigger] prev[i]) by {
            assert(prev[i] == ids[i]);
        }
        lemma_watchlist_fold(prev);
        assert(clean_id(ids[ids.len() - 1]));
        assert forall|k: Seq<char>| watchlist_from_lines(ids).contains(k) <==> ids.contains(k) by {
            if prev.contains(k) {
                let i = choose|i: int| 0 <= i < prev.len() && prev[i] == k;
                assert(ids[i] == k);
            }
            if ids.contains(k) && k != ids.last() {
                let i = choose|i: int| 0 <= i < ids.len() && ids[i] == k;
                assert(i != ids.len() - 1);
                assert(prev[i] == k);
            }
            if k == ids.last() {
                assert(ids[ids.len() - 1] == k);
            }
        }
    }
}

/// Reading the watch list file gives back the watch list it was written for,
/// when every id is non-empty, on one line and without surrounding white
/// space.
pub proof fn law_watchlist_round_trip(set: Set<Seq<char>>, text: Seq<char>)
    requires
        forall|k: Seq<char>| set.contains(k) ==> clean_id(k),
        is_watchlist_text(set, text),
    ensures
        spec_parse_watchlist(text) == set,
{
    let ids = choose|ids: Seq<Seq<char>>|
        strictly_sorted(ids) && (forall|k: Seq<char>| set.contains(k) <==> ids.contains(k)) && text
            == watchlist_text(ids);
    assert forall|i: int| 0 <= i < ids.len() implies clean_id(#[trigger] ids[i]) by {
        assert(ids.contains(ids[i]));
    }
    lemma_watchlist_text_lines(ids);
    lemma_watchlist_fold(ids);
    assert(spec_parse_watchlist(text) =~= set);
}

/// Reading the cursor file gives back the key it was written for, when the
/// key is non-empty and has no surrounding white space.
pub proof fn law_cursor_round_trip(key: Seq<char>)
    requires
        key.len() > 0,
        trim(key) == key,
    ensures
        spec_parse_cursor(key + seq!['\n']) == Some(key),
{
    lemma_trimmed_ends(key);
    let t = key + seq!['\n'];
    assert(t[0] == key[0]);
    assert(trim_start(t) == t);
    assert(t.last() == '\n');
    assert(t.drop_last() =~= key);
    assert(trim_end(t) == trim_end(key));
}

} // verus!
