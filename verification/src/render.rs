use vstd::prelude::*;
use crate::model::{Modal, ModalV, Row, RowV};
use crate::num::{decimal, usize_text};
use crate::rows::expanded_flag;
use crate::store::ExpandedState;
use crate::strs::{
    concat, copy_string, copy_strings, is_empty_str, lit, push_char, push_spaces, push_str, spaces,
    views,
};
use crate::text::{
    opt_text, spec_plain_truncate, spec_strip_ansi, spec_text_width, spec_visible_truncate,
    plain_truncate, strip_ansi, text_width, truncates_cleanly_exec, try_visible_truncate,
};

verus! {

// ---------------------------------------------------------------------------
// the parts of a row
pub open spec fn spec_session_expanded(r: RowV, ex: Map<Seq<char>, bool>) -> bool {
    match r {
        RowV::Session(s) => expanded_flag(ex, s.name),
        _ => false,
    }
}

/// Whether a row is a session whose windows are listed.
pub fn session_expanded(row: &Row, expanded: &ExpandedState) -> (r: bool)
    ensures
        r == spec_session_expanded(row@, expanded@),
{
    match row {
        Row::Session(s) => expanded.is_expanded(s.name.as_str()),
        _ => false,
    }
}

pub open spec fn accent() -> Seq<char> {
    "\x1b[38;2;255;100;150m"@
}

pub open spec fn bold_text() -> Seq<char> {
    "\x1b[1;38;5;252m"@
}

/// What a row shows: its item text, the labels of its panes, and whether it
/// is a window.
pub open spec fn spec_row_parts(r: RowV, ex: Map<Seq<char>, bool>) -> (Seq<char>, Seq<Seq<char>>, bool) {
    match r {
        RowV::Session(s) => {
            let arrow = if spec_session_expanded(r, ex) {
                "▾"@
            } else {
                "▸"@
            };
            let name = if s.current {
                accent() + s.name + bold_text()
            } else {
                s.name
            };
            let name = match s.saved_label {
                Some(l) => name + "\x1b[38;5;240m 󰆓 "@ + l + bold_text(),
                None => name,
            };
            (arrow + "  "@ + name, Seq::empty(), false)
        },
        RowV::Window(w) => window_parts(w),
        RowV::WatchWindow(w) => window_parts(w),
        RowV::SavedSession(s) => (
            "󰆓  "@ + s.name,
            seq![s.saved_label + " · "@ + decimal(s.windows.len()) + " windows"@],
            false,
        ),
        RowV::WatchHeader => ("watched"@, Seq::empty(), false),
    }
}

pub open spec fn window_parts(w: crate::model::WindowV) -> (Seq<char>, Seq<Seq<char>>, bool) {
    (
        "   "@ + (if w.active {
            "●"@
        } else {
            "○"@
        }) + "  "@ + w.index + ": "@ + w.name,
        w.pane_labels,
        true,
    )
}

/// A window's item is indented three cells, shows a filled dot `●` when the
/// window is active and a hollow dot `○` when it is not, then two spaces,
/// its index, `: ` and its name; its pane labels follow it, and it is drawn
/// as a window. A watched window shows the same.
pub proof fn law_window_item(w: crate::model::WindowV, ex: Map<Seq<char>, bool>)
    ensures
        spec_row_parts(RowV::Window(w), ex) == spec_row_parts(RowV::WatchWindow(w), ex),
        spec_row_parts(RowV::Window(w), ex) == (
            seq![' ', ' ', ' ', if w.active {
                '\u{25cf}'
            } else {
                '\u{25cb}'
            }, ' ', ' '] + w.index + seq![':', ' '] + w.name,
            w.pane_labels,
            true,
        ),
{
    reveal_strlit("   ");
    reveal_strlit("●");
    reveal_strlit("○");
    reveal_strlit("  ");
    reveal_strlit(": ");
    let dot = if w.active {
        '\u{25cf}'
    } else {
        '\u{25cb}'
    };
    assert(spec_row_parts(RowV::Window(w), ex).0 =~= seq![' ', ' ', ' ', dot, ' ', ' '] + w.index + seq![
        ':',
        ' ',
    ] + w.name);
}

fn window_parts_exec(w: &crate::model::Window) -> (r: (String, Vec<String>, bool))
    ensures
        (r.0@, views(r.1@), r.2) == window_parts(w@),
{
    let mut item = lit("   ");
    push_str(
        &mut item,
        if w.active {
            "●"
        } else {
            "○"
        },
    );
    push_str(&mut item, "  ");
    push_str(&mut item, w.index.as_str());
    push_str(&mut item, ": ");
    push_str(&mut item, w.name.as_str());
    (item, copy_strings(&w.pane_labels), true)
}

pub fn row_parts(row: &Row, expanded: &ExpandedState) -> (r: (String, Vec<String>, bool))
    ensures
        (r.0@, views(r.1@), r.2) == spec_row_parts(row@, expanded@),
{
    match row {
        Row::Session(s) => {
            let arrow = if session_expanded(row, expanded) {
                "▾"
            } else {
                "▸"
            };
            let mut name = if s.current {
                let mut n = lit("\x1b[38;2;255;100;150m");
                push_str(&mut n, s.name.as_str());
                push_str(&mut n, "\x1b[1;38;5;252m");
                n
            } else {
                copy_string(&s.name)
            };
            match &s.saved_label {
                Some(l) => {
                    push_str(&mut name, "\x1b[38;5;240m 󰆓 ");
                    push_str(&mut name, l.as_str());
                    push_str(&mut name, "\x1b[1;38;5;252m");
                },
                None => {},
            }
            let mut item = concat(arrow, "  ");
            push_str(&mut item, name.as_str());
            (item, Vec::new(), false)
        },
        Row::Window(w) => window_parts_exec(w),
        Row::WatchWindow(w) => window_parts_exec(w),
        Row::SavedSession(s) => {
            let mut label = concat(s.saved_label.as_str(), " · ");
            let count = usize_text(s.windows.len());
            push_str(&mut label, count.as_str());
            push_str(&mut label, " windows");
            let mut labels: Vec<String> = Vec::new();
            labels.push(label);
            assert(views(labels@) =~= seq![label@]);
            (concat("󰆓  ", s.name.as_str()), labels, false)
        },
        Row::WatchHeader => (lit("watched"), Vec::new(), false),
    }
}

/// The widest item of the rows (24 when there are none), kept between 20
/// cells and what the screen leaves beside the statistics.
pub open spec fn spec_item_width(rows: Seq<RowV>, ex: Map<Seq<char>, bool>, screen_width: nat) -> nat {
    let widest = if rows.len() == 0 {
        24
    } else {
        widest_item(rows, ex)
    };
    let max_allowed: nat = if screen_width >= 44 {
        (screen_width - 24) as nat
    } else {
        20
    };
    if widest < 20 {
        20
    } else if widest > max_allowed {
        max_allowed
    } else {
        widest
    }
}

pub open spec fn widest_item(rows: Seq<RowV>, ex: Map<Seq<char>, bool>) -> nat
    decreases rows.len(),
{
    if rows.len() == 0 {
        0
    } else {
        let rest = widest_item(rows.drop_last(), ex);
        let w = spec_text_width(spec_row_parts(rows.last(), ex).0);
        if w > rest {
            w
        } else {
            rest
        }
    }
}

pub fn compute_item_width(rows: &[Row], expanded: &ExpandedState, screen_width: usize) -> (r: usize)
    ensures
        r == spec_item_width(crate::model::row_views(rows@), expanded@, screen_width as nat),
{
    let ghost rv = crate::model::row_views(rows@);
    let mut widest: usize = 0;
    let mut i: usize = 0;
    while i < rows.len()
        invariant
            i <= rows@.len(),
            rv == crate::model::row_views(rows@),
            widest == widest_item(rv.take(i as int), expanded@),
        decreases rows.len() - i,
    {
        assert(rv.take(i + 1).drop_last() =~= rv.take(i as int));
        assert(rv.take(i + 1).last() == rows@[i as int]@);
        let (item, _, _) = row_parts(&rows[i], expanded);
        let w = text_width(item.as_str());
        if w > widest {
            widest = w;
        }
        i += 1;
    }
    assert(rv.take(i as int) =~= rv);
    if rows.len() == 0 {
        widest = 24;
    }
    let max_allowed = if screen_width >= 44 {
        screen_width - 24
    } else {
        20
    };
    if widest < 20 {
        20
    } else if widest > max_allowed {
        max_allowed
    } else {
        widest
    }
}

// ---------------------------------------------------------------------------
// pane labels beside a window
pub open spec fn label_sep() -> Seq<char> {
    " \x1b[38;5;238m│\x1b[38;5;244m "@
}

pub open spec fn label_cell(l: Seq<char>) -> Option<Seq<char>> {
    match spec_visible_truncate(l, 18) {
        Some(c) => Some(
            c + spaces(
                if spec_text_width(c) < 18 {
                    (18 - spec_text_width(c)) as nat
                } else {
                    0
                },
            ),
        ),
        None => None,
    }
}

/// Each label cut to 18 cells and padded to them, joined by dividers; none
/// where a cut would panic.
pub open spec fn spec_pane_columns(labels: Seq<Seq<char>>) -> Option<Seq<char>>
    decreases labels.len(),
{
    if labels.len() == 0 {
        Some(Seq::empty())
    } else {
        match (spec_pane_columns(labels.drop_last()), label_cell(labels.last())) {
            (Some(a), Some(c)) => Some(
                if labels.len() == 1 {
                    c
                } else {
                    a + label_sep() + c
                },
            ),
            _ => None,
        }
    }
}

proof fn lemma_label_sep()
    ensures
        crate::text::width_from(label_sep(), false) == 3,
        !crate::text::escape_open_after(label_sep(), false),
{
    reveal_strlit(" \x1b[38;5;238m│\x1b[38;5;244m ");
    let p1 = seq!['[', '3', '8', ';', '5', ';', '2', '3', '8'];
    let p2 = seq!['[', '3', '8', ';', '5', ';', '2', '4', '4'];
    assert(label_sep() =~= seq![' '] + (crate::text::sgr(p1) + (seq!['│'] + (crate::text::sgr(p2) + seq![' ']))));
    crate::text::lemma_sgr(p1);
    crate::text::lemma_sgr(p2);
    let sp = seq![' '];
    assert(sp.drop_first() =~= Seq::<char>::empty());
    assert(sp[0] == ' ' && crate::text::spec_char_width(' ') == 1);
    assert(!crate::text::escape_open_after(Seq::<char>::empty(), false));
    assert(crate::text::width_from(Seq::<char>::empty(), false) == 0);
    assert(!crate::text::escape_open_after(sp, false));
    assert(crate::text::width_from(sp, false) == 1);
    let bar = seq!['│'];
    assert(bar.drop_first() =~= Seq::<char>::empty());
    assert(!crate::text::escape_open_after(bar, false));
    assert(crate::text::width_from(bar, false) == 1);
    crate::text::lemma_closed_concat(crate::text::sgr(p2), sp);
    crate::text::lemma_closed_concat(bar, crate::text::sgr(p2) + sp);
    crate::text::lemma_closed_concat(crate::text::sgr(p1), bar + (crate::text::sgr(p2) + sp));
    crate::text::lemma_closed_concat(sp, crate::text::sgr(p1) + (bar + (crate::text::sgr(p2) + sp)));
}

/// The pane labels line up in columns: each takes 18 cells and the dividers
/// 3, so `n` labels take `21 * n - 3` cells.
pub proof fn law_pane_columns_width(labels: Seq<Seq<char>>)
    ensures
        spec_pane_columns(labels) matches Some(t) ==> {
            &&& spec_text_width(t) == (if labels.len() == 0 {
                0
            } else {
                21 * labels.len() - 3
            })
            &&& !crate::text::escape_open_after(t, false)
        },
    decreases labels.len(),
{
    if labels.len() > 0 {
        law_pane_columns_width(labels.drop_last());
        crate::text::lemma_padded_cut(labels.last(), 18);
        if let (Some(a), Some(c)) = (spec_pane_columns(labels.drop_last()), label_cell(labels.last())) {
            if labels.len() > 1 {
                lemma_label_sep();
                crate::text::lemma_closed_concat(a, label_sep());
                crate::text::lemma_closed_concat(a + label_sep(), c);
            }
        }
    }
}

pub fn try_pane_columns(labels: &[String]) -> (r: Option<String>)
    ensures
        opt_text(r) == spec_pane_columns(views(labels@)),
{
    let ghost lv = views(labels@);
    let mut out = String::new();
    let mut i: usize = 0;
    assert(lv.take(0) =~= Seq::<Seq<char>>::empty());
    while i < labels.len()
        invariant
            i <= labels@.len(),
            lv == views(labels@),
            spec_pane_columns(lv.take(i as int)) == Some(out@),
        decreases labels.len() - i,
    {
        assert(lv.take(i + 1).drop_last() =~= lv.take(i as int));
        assert(lv.take(i + 1).last() == labels@[i as int]@);
        match try_visible_truncate(labels[i].as_str(), 18) {
            Some(c) => {
                let w = text_width(c.as_str());
                let mut cell = c;
                push_spaces(
                    &mut cell,
                    if w < 18 {
                        18 - w
                    } else {
                        0
                    },
                );
                if i > 0 {
                    push_str(&mut out, " \x1b[38;5;238m│\x1b[38;5;244m ");
                    push_str(&mut out, cell.as_str());
                } else {
                    out = cell;
                }
            },
            None => {
                proof {
                    lemma_columns_none(lv, (i + 1) as nat);
                }
                return None;
            },
        }
        i += 1;
    }
    assert(lv.take(i as int) =~= lv);
    Some(out)
}

proof fn lemma_columns_none(lv: Seq<Seq<char>>, k: nat)
    requires
        k <= lv.len(),
        spec_pane_columns(lv.take(k as int)) is None,
    ensures
        spec_pane_columns(lv) is None,
    decreases lv.len() - k,
{
    if k < lv.len() {
        assert(lv.take(k as int + 1).drop_last() =~= lv.take(k as int));
        lemma_columns_none(lv, k + 1);
    } else {
        assert(lv.take(k as int) =~= lv);
    }
}

/// The pane labels of a window row, side by side.
pub fn pane_columns(labels: &[String]) -> (r: String)
    requires
        spec_pane_columns(views(labels@)) is Some,
    ensures
        spec_pane_columns(views(labels@)) == Some(r@),
{
    match try_pane_columns(labels) {
        Some(s) => s,
        None => String::new(),
    }
}

// ---------------------------------------------------------------------------
// modals
pub open spec fn spec_help_modal() -> ModalV {
    ModalV::Info {
        title: "tmux overview help"@,
        lines: seq![
            "enter switch/restore"@,
            "j/k or arrows move"@,
            "g/G first/last"@,
            "h/l or arrows fold/unfold"@,
            "space toggle session fold"@,
            "v preview, +/- resize"@,
            "r rename, R reload"@,
            "S save layout"@,
            "K kill session"@,
            "D delete row"@,
            "c default path"@,
            "q quit"@,
        ],
    }
}

/// The help shown by `?`.
pub fn help_modal() -> (r: Modal)
    ensures
        r@ == spec_help_modal(),
{
    let lines = crate::strs::to_strings(
        &[
            "enter switch/restore",
            "j/k or arrows move",
            "g/G first/last",
            "h/l or arrows fold/unfold",
            "space toggle session fold",
            "v preview, +/- resize",
            "r rename, R reload",
            "S save layout",
            "K kill session",
            "D delete row",
            "c default path",
            "q quit",
        ],
    );
    assert(views(lines@) =~= seq![
        "enter switch/restore"@,
        "j/k or arrows move"@,
        "g/G first/last"@,
        "h/l or arrows fold/unfold"@,
        "space toggle session fold"@,
        "v preview, +/- resize"@,
        "r rename, R reload"@,
        "S save layout"@,
        "K kill session"@,
        "D delete row"@,
        "c default path"@,
        "q quit"@,
    ]);
    let r = Modal::Info { title: lit("tmux overview help"), lines };
    r
}

/// The lines of an open modal: its title, a blank line, then what it holds
/// and the keys it takes.
pub open spec fn spec_modal_lines(m: ModalV) -> Option<Seq<Seq<char>>> {
    match m {
        ModalV::Closed => None,
        ModalV::Confirm { title, .. } => Some(
            seq![title, Seq::empty(), "y/enter confirm    n/esc cancel"@],
        ),
        ModalV::Input { title, value, .. } => Some(
            seq![
                title,
                Seq::empty(),
                "> "@ + value + "█"@,
                Seq::empty(),
                "enter apply    esc cancel"@,
            ],
        ),
        ModalV::Info { title, lines } => Some(
            seq![title, Seq::empty()] + lines + seq![Seq::empty(), "enter/space/q/esc close"@],
        ),
    }
}

pub open spec fn opt_lines(o: Option<Vec<String>>) -> Option<Seq<Seq<char>>> {
    match o {
        Some(v) => Some(views(v@)),
        None => None,
    }
}

pub fn modal_lines(modal: &Modal) -> (r: Option<Vec<String>>)
    ensures
        opt_lines(r) == spec_modal_lines(modal@),
{
    match modal {
        Modal::Closed => None,
        Modal::Confirm { title, .. } => {
            let v = crate::strs::to_strings(&[title.as_str(), "", "y/enter confirm    n/esc cancel"]);
            proof {
                reveal_strlit("");
                assert(""@ =~= Seq::<char>::empty());
            }
            assert(views(v@) =~= seq![title@, ""@, "y/enter confirm    n/esc cancel"@]);
            Some(v)
        },
        Modal::Input { title, value, .. } => {
            let mut prompt = concat("> ", value.as_str());
            push_str(&mut prompt, "█");
            let v = crate::strs::to_strings(
                &[title.as_str(), "", prompt.as_str(), "", "enter apply    esc cancel"],
            );
            proof {
                reveal_strlit("");
                assert(""@ =~= Seq::<char>::empty());
            }
            assert(views(v@) =~= seq![title@, ""@, prompt@, ""@, "enter apply    esc cancel"@]);
            Some(v)
        },
        Modal::Info { title, lines } => {
            let mut v: Vec<String> = Vec::new();
            v.push(copy_string(title));
            v.push(String::new());
            let ghost head = views(v@);
            assert(head =~= seq![title@, Seq::empty()]);
            let mut i: usize = 0;
            while i < lines.len()
                invariant
                    i <= lines@.len(),
                    views(v@) == head + views(lines@).take(i as int),
                decreases lines.len() - i,
            {
                let ghost before = views(v@);
                v.push(copy_string(&lines[i]));
                assert(views(v@) =~= before.push(lines@[i as int]@));
                assert(views(lines@).take(i + 1) =~= views(lines@).take(i as int).push(lines@[i as int]@));
                i += 1;
            }
            assert(views(lines@).take(i as int) =~= views(lines@));
            let ghost mid = views(v@);
            v.push(String::new());
            v.push(lit("enter/space/q/esc close"));
            assert(views(v@) =~= mid + seq![Seq::empty(), "enter/space/q/esc close"@]);
            Some(v)
        },
    }
}

/// `n` horizontal box lines.
pub open spec fn rule(n: nat) -> Seq<char> {
    Seq::new(n, |_i: int| '─')
}

fn push_rule(s: &mut String, n: usize)
    ensures
        final(s)@ == old(s)@ + rule(n as nat),
{
    let mut i: usize = 0;
    while i < n
        invariant
            i <= n,
            s@ == old(s)@ + rule(i as nat),
        decreases n - i,
    {
        push_char(s, '─');
        i += 1;
        assert(s@ =~= old(s)@ + rule(i as nat));
    }
}

/// The escape sequence that moves the cursor to line `y`, column `x`.
pub open spec fn cursor_to(y: nat, x: nat) -> Seq<char> {
    "\x1b["@ + decimal(y) + ";"@ + decimal(x) + "H"@
}

fn push_cursor(s: &mut String, y: usize, x: usize)
    ensures
        final(s)@ == old(s)@ + cursor_to(y as nat, x as nat),
{
    push_str(s, "\x1b[");
    push_str(s, usize_text(y).as_str());
    push_str(s, ";");
    push_str(s, usize_text(x).as_str());
    push_str(s, "H");
    assert(s@ =~= old(s)@ + cursor_to(y as nat, x as nat));
}

pub open spec fn widest_line(ls: Seq<Seq<char>>) -> nat
    decreases ls.len(),
{
    if ls.len() == 0 {
        0
    } else {
        let rest = widest_line(ls.drop_last());
        let w = spec_text_width(ls.last());
        if w > rest {
            w
        } else {
            rest
        }
    }
}

pub open spec fn sat_sub(a: nat, b: nat) -> nat {
    if a >= b {
        (a - b) as nat
    } else {
        0
    }
}

/// The box geometry of a modal of lines `ls` on a `term_h` by `term_w`
/// terminal: width, height, and the top left corner (1-based).
pub open spec fn modal_box(ls: Seq<Seq<char>>, term_h: nat, term_w: nat) -> (nat, nat, nat, nat) {
    let widest = if ls.len() == 0 {
        20
    } else {
        widest_line(ls)
    };
    let content_w = if widest > 32 {
        widest
    } else {
        32
    };
    let limit = if sat_sub(term_w, 4) > 20 {
        sat_sub(term_w, 4)
    } else {
        20
    };
    let box_w = if content_w + 4 < limit {
        content_w + 4
    } else {
        limit
    };
    let box_h = ls.len() + 2;
    (box_w as nat, box_h as nat, sat_sub(term_w, box_w as nat) / 2 + 1, sat_sub(term_h, box_h as nat) / 2 + 1)
}

/// Line `i` of the modal box: title in the accent colour, the rest in light
/// grey, each cut and padded to the inner width.
pub open spec fn modal_line(l: Seq<char>, i: int, inner: nat) -> Seq<char> {
    let clipped = spec_plain_truncate(l, inner);
    let w = spec_text_width(clipped);
    "\x1b[49m\x1b[38;5;244m│ "@ + (if i == 0 {
        accent()
    } else {
        "\x1b[38;5;252m"@
    }) + clipped + spaces(sat_sub(inner, w)) + "\x1b[38;5;244m │\x1b[0m"@
}

pub open spec fn modal_body(ls: Seq<Seq<char>>, x: nat, y: nat, inner: nat, n: nat) -> Seq<char>
    decreases n,
{
    if n == 0 {
        Seq::empty()
    } else {
        modal_body(ls, x, y, inner, (n - 1) as nat) + cursor_to(y + n, x) + modal_line(
            ls[n - 1],
            n - 1,
            inner,
        )
    }
}

/// What drawing a modal adds to the frame: a box centred on the terminal
/// with the modal's lines inside; nothing when no modal is open.
pub open spec fn spec_draw_modal(m: ModalV, term_h: nat, term_w: nat) -> Seq<char> {
    match spec_modal_lines(m) {
        None => Seq::empty(),
        Some(ls) => {
            let (box_w, box_h, x, y) = modal_box(ls, term_h, term_w);
            "\x1b[0m"@ + cursor_to(y, x) + "\x1b[49m\x1b[38;5;244m┌"@ + rule(sat_sub(box_w, 2))
                + "┐\x1b[0m"@ + modal_body(ls, x, y, sat_sub(box_w, 4), ls.len()) + cursor_to(
                (y + box_h - 1) as nat,
                x,
            ) + "\x1b[49m\x1b[38;5;244m└"@ + rule(sat_sub(box_w, 2)) + "┘\x1b[0m"@
        },
    }
}

/// The modal's box fits the integers: its widest line can be widened by
/// the border, and its lines counted below the centre of the terminal.
pub open spec fn modal_in_range(m: ModalV, term_h: nat) -> bool {
    match spec_modal_lines(m) {
        None => true,
        Some(ls) => widest_line(ls) + 4 <= usize::MAX && ls.len() + term_h / 2 + 3 <= usize::MAX,
    }
}

proof fn lemma_widest_bound(ls: Seq<Seq<char>>, i: int)
    requires
        0 <= i < ls.len(),
    ensures
        spec_text_width(ls[i]) <= widest_line(ls),
    decreases ls.len(),
{
    if i < ls.len() - 1 {
        lemma_widest_bound(ls.drop_last(), i);
    }
}

fn modal_geometry(lines: &Vec<String>, term_h: usize, term_w: usize) -> (r: (usize, usize, usize, usize))
    requires
        widest_line(views(lines@)) + 4 <= usize::MAX,
        lines@.len() + term_h / 2 + 3 <= usize::MAX,
    ensures
        (r.0 as nat, r.1 as nat, r.2 as nat, r.3 as nat) == modal_box(views(lines@), term_h as nat, term_w as nat),
        r.1 == lines@.len() + 2,
        r.3 <= term_h / 2 + 1,
{
    let ghost lv = views(lines@);
    let mut widest: usize = 0;
    let mut k: usize = 0;
    while k < lines.len()
        invariant
            k <= lines@.len(),
            lv == views(lines@),
            widest == widest_line(lv.take(k as int)),
            widest <= widest_line(lv),
        decreases lines.len() - k,
    {
        assert(lv.take(k + 1).drop_last() =~= lv.take(k as int));
        assert(lv.take(k + 1).last() == lines@[k as int]@);
        let w = text_width(lines[k].as_str());
        proof {
            lemma_widest_bound(lv, k as int);
            assert(lv[k as int] == lines@[k as int]@);
        }
        if w > widest {
            widest = w;
        }
        k += 1;
    }
    assert(lv.take(k as int) =~= lv);
    if lines.len() == 0 {
        widest = 20;
    }
    let content_w = if widest > 32 {
        widest
    } else {
        32
    };
    let tw4 = if term_w >= 4 {
        term_w - 4
    } else {
        0
    };
    let limit = if tw4 > 20 {
        tw4
    } else {
        20
    };
    let box_w = if content_w + 4 < limit {
        content_w + 4
    } else {
        limit
    };
    let box_h = lines.len() + 2;
    let x = (if term_w >= box_w {
        term_w - box_w
    } else {
        0
    }) / 2 + 1;
    let y = (if term_h >= box_h {
        term_h - box_h
    } else {
        0
    }) / 2 + 1;
    (box_w, box_h, x, y)
}

fn modal_line_exec(l: &str, i: usize, inner: usize) -> (r: String)
    ensures
        r@ == modal_line(l@, i as int, inner as nat),
{
    let mut out = lit("\x1b[49m\x1b[38;5;244m│ ");
    if i == 0 {
        push_str(&mut out, "\x1b[38;2;255;100;150m");
    } else {
        push_str(&mut out, "\x1b[38;5;252m");
    }
    let clipped = plain_truncate(l, inner);
    let w = text_width(clipped.as_str());
    push_str(&mut out, clipped.as_str());
    push_spaces(
        &mut out,
        if inner >= w {
            inner - w
        } else {
            0
        },
    );
    push_str(&mut out, "\x1b[38;5;244m │\x1b[0m");
    out
}

fn push_modal_body(out: &mut String, lines: &Vec<String>, x: usize, y: usize, inner: usize)
    requires
        y + lines@.len() + 1 <= usize::MAX,
    ensures
        final(out)@ == old(out)@ + modal_body(views(lines@), x as nat, y as nat, inner as nat, lines@.len()),
{
    let ghost lv = views(lines@);
    let ghost head = out@;
    let mut i: usize = 0;
    assert(head + modal_body(lv, x as nat, y as nat, inner as nat, 0) =~= head);
    while i < lines.len()
        invariant
            i <= lines@.len(),
            lv == views(lines@),
            y + lines@.len() + 1 <= usize::MAX,
            head == old(out)@,
            out@ == head + modal_body(lv, x as nat, y as nat, inner as nat, i as nat),
        decreases lines.len() - i,
    {
        let ghost prev = modal_body(lv, x as nat, y as nat, inner as nat, i as nat);
        push_cursor(out, y + i + 1, x);
        let ghost c = cursor_to((y + i + 1) as nat, x as nat);
        let line = modal_line_exec(lines[i].as_str(), i, inner);
        assert(lv[i as int] == lines@[i as int]@);
        push_str(out, line.as_str());
        proof {
            vstd::seq_lib::lemma_concat_associative(head, prev, c);
            vstd::seq_lib::lemma_concat_associative(head, prev + c, line@);
        }
        i += 1;
    }
}

fn modal_top(x: usize, y: usize, bw2: usize) -> (r: String)
    ensures
        r@ == "\x1b[0m"@ + cursor_to(y as nat, x as nat) + "\x1b[49m\x1b[38;5;244m┌"@ + rule(bw2 as nat)
            + "┐\x1b[0m"@,
{
    let mut out = lit("\x1b[0m");
    push_cursor(&mut out, y, x);
    push_str(&mut out, "\x1b[49m\x1b[38;5;244m┌");
    push_rule(&mut out, bw2);
    push_str(&mut out, "┐\x1b[0m");
    out
}

fn modal_bottom(x: usize, y: usize, bw2: usize) -> (r: String)
    ensures
        r@ == cursor_to(y as nat, x as nat) + "\x1b[49m\x1b[38;5;244m└"@ + rule(bw2 as nat) + "┘\x1b[0m"@,
{
    let mut out = String::new();
    push_cursor(&mut out, y, x);
    assert(out@ =~= cursor_to(y as nat, x as nat));
    push_str(&mut out, "\x1b[49m\x1b[38;5;244m└");
    push_rule(&mut out, bw2);
    push_str(&mut out, "┘\x1b[0m");
    out
}

pub fn draw_modal(out: &mut String, modal: &Modal, term_h: usize, term_w: usize)
    requires
        modal_in_range(modal@, term_h as nat),
    ensures
        final(out)@ == old(out)@ + spec_draw_modal(modal@, term_h as nat, term_w as nat),
{
    let lines = match modal_lines(modal) {
        Some(l) => l,
        None => {
            assert(out@ =~= old(out)@ + Seq::<char>::empty());
            return;
        },
    };
    let ghost lv = views(lines@);
    let (box_w, box_h, x, y) = modal_geometry(&lines, term_h, term_w);
    let bw2 = if box_w >= 2 {
        box_w - 2
    } else {
        0
    };
    let inner = if box_w >= 4 {
        box_w - 4
    } else {
        0
    };
    let top = modal_top(x, y, bw2);
    let mut body = String::new();
    push_modal_body(&mut body, &lines, x, y, inner);
    let bottom = modal_bottom(x, y + box_h - 1, bw2);
    let ghost a = out@;
    push_str(out, top.as_str());
    push_str(out, body.as_str());
    push_str(out, bottom.as_str());
    proof {
        assert(body@ =~= modal_body(lv, x as nat, y as nat, inner as nat, lv.len()));
        vstd::seq_lib::lemma_concat_associative(a, top@, body@);
        vstd::seq_lib::lemma_concat_associative(a, top@ + body@, bottom@);
        assert(top@ + body@ + bottom@ =~= spec_draw_modal(modal@, term_h as nat, term_w as nat));
    }
}

// ---------------------------------------------------------------------------
// a row of the list
/// The statistics cells of a row, worked out by the caller from the
/// processes of the session or window: the CPU and memory texts, and
/// whether each is high.
#[derive(Clone, Debug, PartialEq, Eq)]
pub struct StatCells {
    pub cpu: String,
    pub mem: String,
    pub cpu_high: bool,
    pub mem_high: bool,
}

pub struct StatCellsV {
    pub cpu: Seq<char>,
    pub mem: Seq<char>,
    pub cpu_high: bool,
    pub mem_high: bool,
}

impl View for StatCells {
    type V = StatCellsV;

    open spec fn view(&self) -> StatCellsV {
        StatCellsV { cpu: self.cpu@, mem: self.mem@, cpu_high: self.cpu_high, mem_high: self.mem_high }
    }
}

pub open spec fn cells_views(v: Seq<StatCells>) -> Seq<StatCellsV> {
    v.map_values(|c: StatCells| c@)
}

/// `s` right-aligned in `n` characters.
pub open spec fn right_align(s: Seq<char>, n: nat) -> Seq<char> {
    if s.len() < n {
        spaces((n - s.len()) as nat) + s
    } else {
        s
    }
}

pub open spec fn stat_colour(high: bool) -> Seq<char> {
    if high {
        accent()
    } else {
        "\x1b[38;5;240m"@
    }
}

/// Only sessions and windows show statistics.
pub open spec fn has_stats(r: RowV) -> bool {
    r is Session || r is Window || r is WatchWindow
}

/// The statistics of a row: CPU right-aligned in 7 characters, memory in 6,
/// each in the accent colour when the row is a window and the value is high.
pub open spec fn stats_text(r: RowV, c: StatCellsV, is_window: bool) -> Seq<char> {
    let cpu = if has_stats(r) {
        c.cpu
    } else {
        Seq::empty()
    };
    let mem = if has_stats(r) {
        c.mem
    } else {
        Seq::empty()
    };
    stat_colour(is_window && c.cpu_high) + right_align(cpu, 7) + " "@ + stat_colour(is_window && c.mem_high)
        + right_align(mem, 6)
}

/// The text of a row: its item cut and padded to `item_width`, its
/// statistics, then its pane labels; none where a cut would panic.
pub open spec fn spec_row_text(r: RowV, ex: Map<Seq<char>, bool>, item_width: nat, c: StatCellsV) -> Option<
    Seq<char>,
> {
    let (item, labels, is_window) = spec_row_parts(r, ex);
    let w = spec_text_width(item);
    let vis = if w < item_width {
        w
    } else {
        item_width
    };
    match spec_visible_truncate(item, item_width) {
        None => None,
        Some(t) => {
            let head = t + spaces(sat_sub(item_width, vis)) + "  "@ + stats_text(r, c, is_window);
            if labels.len() == 0 {
                Some(head)
            } else {
                match spec_pane_columns(labels) {
                    Some(cols) => Some(head + "\x1b[38;5;244m   "@ + cols),
                    None => None,
                }
            }
        },
    }
}

fn push_right_aligned(out: &mut String, s: &str, n: usize)
    ensures
        final(out)@ == old(out)@ + right_align(s@, n as nat),
{
    let len = crate::strs::chars_of(s).len();
    if len < n {
        push_spaces(out, n - len);
    }
    push_str(out, s);
    assert(out@ =~= old(out)@ + right_align(s@, n as nat));
}

fn stats_exec(row: &Row, cells: &StatCells, is_window: bool) -> (r: String)
    ensures
        r@ == stats_text(row@, cells@, is_window),
{
    let stats_on = match row {
        Row::Session(_) => true,
        Row::Window(_) => true,
        Row::WatchWindow(_) => true,
        _ => false,
    };
    let mut out = lit(
        if is_window && cells.cpu_high {
            "\x1b[38;2;255;100;150m"
        } else {
            "\x1b[38;5;240m"
        },
    );
    proof {
        reveal_strlit("");
        assert(""@ =~= Seq::<char>::empty());
    }
    push_right_aligned(
        &mut out,
        if stats_on {
            cells.cpu.as_str()
        } else {
            ""
        },
        7,
    );
    push_str(&mut out, " ");
    push_str(
        &mut out,
        if is_window && cells.mem_high {
            "\x1b[38;2;255;100;150m"
        } else {
            "\x1b[38;5;240m"
        },
    );
    push_right_aligned(
        &mut out,
        if stats_on {
            cells.mem.as_str()
        } else {
            ""
        },
        6,
    );
    out
}

pub fn try_row_text(row: &Row, expanded: &ExpandedState, item_width: usize, cells: &StatCells) -> (r:
    Option<String>)
    ensures
        opt_text(r) == spec_row_text(row@, expanded@, item_width as nat, cells@),
{
    let (item, labels, is_window) = row_parts(row, expanded);
    let w = text_width(item.as_str());
    let vis = if w < item_width {
        w
    } else {
        item_width
    };
    let mut out = match try_visible_truncate(item.as_str(), item_width) {
        Some(t) => t,
        None => return None,
    };
    push_spaces(&mut out, item_width - vis);
    push_str(&mut out, "  ");
    let stats = stats_exec(row, cells, is_window);
    push_str(&mut out, stats.as_str());
    if labels.len() == 0 {
        return Some(out);
    }
    match try_pane_columns(labels.as_slice()) {
        Some(cols) => {
            push_str(&mut out, "\x1b[38;5;244m   ");
            push_str(&mut out, cols.as_str());
            Some(out)
        },
        None => None,
    }
}

/// The text of a row of the list (see `spec_row_text`).
pub fn row_text(row: &Row, expanded: &ExpandedState, item_width: usize, cells: &StatCells) -> (r: String)
    requires
        spec_row_text(row@, expanded@, item_width as nat, cells@) is Some,
    ensures
        spec_row_text(row@, expanded@, item_width as nat, cells@) == Some(r@),
{
    match try_row_text(row, expanded, item_width, cells) {
        Some(t) => t,
        None => String::new(),
    }
}

// ---------------------------------------------------------------------------
// the whole screen
/// How the screen is divided: the lines of the list and of the preview, the
/// width of the help column on the right and of the list.
#[derive(Clone, Copy, Debug, PartialEq, Eq)]
pub struct FrameLayout {
    pub body_h: usize,
    pub preview_h: usize,
    pub list_h: usize,
    pub side_w: usize,
    pub left_w: usize,
}

/// One line is kept free; the preview takes `percent` of the rest (at least
/// 3 lines, leaving the list 4), one line divides them; a terminal at least
/// 80 wide gives a fifth of its width to the help column.
pub open spec fn spec_frame_layout(h: nat, w: nat, percent: nat, show_preview: bool) -> FrameLayout {
    let body_h: nat = if sat_sub(h, 1) > 8 {
        sat_sub(h, 1)
    } else {
        8
    };
    let ph = body_h * percent / 100;
    let ph: nat = if ph > 3 {
        ph as nat
    } else {
        3
    };
    let cap: nat = if sat_sub(body_h, 4) > 3 {
        sat_sub(body_h, 4)
    } else {
        3
    };
    let preview_h: nat = if show_preview {
        if ph < cap {
            ph
        } else {
            cap
        }
    } else {
        0
    };
    let sep_h: nat = if show_preview {
        1
    } else {
        0
    };
    let list_h: nat = if sat_sub(body_h, preview_h + sep_h) > 1 {
        sat_sub(body_h, preview_h + sep_h)
    } else {
        1
    };
    let side_w: nat = if w >= 80 {
        w / 5
    } else {
        0
    };
    let delim_w: nat = if side_w > 0 {
        1
    } else {
        0
    };
    let left_w: nat = if sat_sub(w, side_w + delim_w) > 20 {
        sat_sub(w, side_w + delim_w)
    } else {
        20
    };
    FrameLayout {
        body_h: body_h as usize,
        preview_h: preview_h as usize,
        list_h: list_h as usize,
        side_w: side_w as usize,
        left_w: left_w as usize,
    }
}

/// The screen arithmetic stays within `usize` (it overflows, and panics,
/// otherwise).
pub open spec fn frame_in_range(h: nat, percent: nat) -> bool {
    (if sat_sub(h, 1) > 8 {
        sat_sub(h, 1)
    } else {
        8
    }) * percent <= usize::MAX
}

pub fn frame_layout(h: usize, w: usize, percent: usize, show_preview: bool) -> (r: FrameLayout)
    requires
        frame_in_range(h as nat, percent as nat),
    ensures
        r == spec_frame_layout(h as nat, w as nat, percent as nat, show_preview),
{
    let h1 = if h >= 1 {
        h - 1
    } else {
        0
    };
    let body_h = if h1 > 8 {
        h1
    } else {
        8
    };
    let mut ph = body_h * percent / 100;
    if ph < 3 {
        ph = 3;
    }
    let b4 = if body_h >= 4 {
        body_h - 4
    } else {
        0
    };
    let cap = if b4 > 3 {
        b4
    } else {
        3
    };
    let preview_h = if show_preview {
        if ph < cap {
            ph
        } else {
            cap
        }
    } else {
        0
    };
    let sep_h: usize = if show_preview {
        1
    } else {
        0
    };
    let rest = if body_h >= preview_h + sep_h {
        body_h - (preview_h + sep_h)
    } else {
        0
    };
    let list_h = if rest > 1 {
        rest
    } else {
        1
    };
    let side_w = if w >= 80 {
        w / 5
    } else {
        0
    };
    let delim_w: usize = if side_w > 0 {
        1
    } else {
        0
    };
    let lw = if w >= side_w + delim_w {
        w - (side_w + delim_w)
    } else {
        0
    };
    let left_w = if lw > 20 {
        lw
    } else {
        20
    };
    FrameLayout { body_h, preview_h, list_h, side_w, left_w }
}

/// The help column: title, totals, refresh interval, the last message, then
/// the keys.
pub open spec fn help_lines(total: Seq<char>, interval: nat, message: Seq<char>) -> Seq<Seq<char>> {
    seq![
        "tmux overview"@,
        "total "@ + total,
        "stats "@ + decimal(interval) + "s"@,
        message,
        Seq::empty(),
        "enter switch"@,
        "j/k move"@,
        "h/l fold"@,
        "+/- resize"@,
        "v preview"@,
        "r rename"@,
        "R reload"@,
        "S save layout"@,
        "K kill session"@,
        "D delete row"@,
        "c path"@,
        "? help"@,
        "q quit"@,
    ]
}

fn help_lines_exec(total: &str, interval: usize, message: &str) -> (r: Vec<String>)
    ensures
        views(r@) == help_lines(total@, interval as nat, message@),
{
    let t = concat("total ", total);
    let mut st = concat("stats ", usize_text(interval).as_str());
    push_str(&mut st, "s");
    let r = crate::strs::to_strings(
        &[
            "tmux overview",
            t.as_str(),
            st.as_str(),
            message,
            "",
            "enter switch",
            "j/k move",
            "h/l fold",
            "+/- resize",
            "v preview",
            "r rename",
            "R reload",
            "S save layout",
            "K kill session",
            "D delete row",
            "c path",
            "? help",
            "q quit",
        ],
    );
    proof {
        reveal_strlit("");
        assert(""@ =~= Seq::<char>::empty());
    }
    assert(views(r@) =~= help_lines(total@, interval as nat, message@));
    r
}

pub open spec fn selected_style() -> Seq<char> {
    "\x1b[48;2;255;100;150m\x1b[38;2;0;0;0m "@
}

/// The colour a row starts in when it is not selected.
pub open spec fn row_prefix(r: RowV) -> Seq<char> {
    match r {
        RowV::Session(_) => "\x1b[1;38;5;252m "@,
        RowV::Window(_) => "\x1b[38;5;244m "@,
        RowV::WatchWindow(_) => "\x1b[38;5;244m "@,
        _ => "\x1b[38;5;240m "@,
    }
}

/// The list part of screen line `line_idx`, showing row `idx`.
pub open spec fn list_cell(
    rows: Seq<RowV>,
    ex: Map<Seq<char>, bool>,
    cells: Seq<StatCellsV>,
    selected: nat,
    idx: nat,
    line_idx: nat,
    left_w: nat,
    item_width: nat,
) -> Option<Seq<char>> {
    if rows.len() == 0 && line_idx == 0 {
        Some(" no sessions"@ + spaces(sat_sub(left_w, 12)))
    } else if idx < rows.len() {
        match spec_row_text(rows[idx as int], ex, item_width, cells[idx as int]) {
            None => None,
            Some(text) => {
                let content_w = sat_sub(left_w, 1);
                if idx == selected {
                    let plain = spec_plain_truncate(spec_strip_ansi(text), content_w);
                    Some(
                        selected_style() + plain + spaces(sat_sub(content_w, spec_text_width(plain)))
                            + "\x1b[0m"@,
                    )
                } else {
                    match spec_visible_truncate(text, content_w) {
                        None => None,
                        Some(t) => {
                            let tw = spec_text_width(text);
                            Some(
                                row_prefix(rows[idx as int]) + t + spaces(
                                    sat_sub(
                                        content_w,
                                        if tw < content_w {
                                            tw
                                        } else {
                                            content_w
                                        },
                                    ),
                                ) + "\x1b[0m"@,
                            )
                        },
                    }
                }
            },
        }
    } else {
        Some(spaces(left_w))
    }
}

/// The help column part of screen line `line_idx`.
pub open spec fn side_cell(help: Seq<Seq<char>>, line_idx: nat, side_w: nat) -> Seq<char> {
    if side_w > 0 {
        "\x1b[38;5;238m│\x1b[0m"@ + (if line_idx == 0 {
            accent() + " "@
        } else {
            "\x1b[38;5;244m "@
        }) + spec_plain_truncate(
            if line_idx < help.len() {
                help[line_idx as int]
            } else {
                Seq::empty()
            },
            sat_sub(side_w, 1),
        ) + "\x1b[0m"@
    } else {
        Seq::empty()
    }
}

pub open spec fn list_lines(
    rows: Seq<RowV>,
    ex: Map<Seq<char>, bool>,
    cells: Seq<StatCellsV>,
    selected: nat,
    offset: nat,
    left_w: nat,
    item_width: nat,
    help: Seq<Seq<char>>,
    side_w: nat,
    n: nat,
) -> Option<Seq<char>>
    decreases n,
{
    if n == 0 {
        Some(Seq::empty())
    } else {
        match (
            list_lines(rows, ex, cells, selected, offset, left_w, item_width, help, side_w, (n - 1) as nat),
            list_cell(rows, ex, cells, selected, (offset + n - 1) as nat, (n - 1) as nat, left_w, item_width),
        ) {
            (Some(a), Some(c)) => Some(a + c + side_cell(help, (n - 1) as nat, side_w) + "\x1b[K\r\n"@),
            _ => None,
        }
    }
}

pub open spec fn preview_label(percent: nat, side_w: nat) -> Seq<char> {
    if side_w == 0 {
        " preview "@ + decimal(percent) + "% · ? help "@
    } else {
        " preview "@ + decimal(percent) + "% "@
    }
}

/// `n` cleared lines.
pub open spec fn blank_lines(n: nat) -> Seq<char>
    decreases n,
{
    if n == 0 {
        Seq::empty()
    } else {
        blank_lines((n - 1) as nat) + "\x1b[K\r\n"@
    }
}

/// The preview lines, each cut to `w` cells; none where a cut would panic.
pub open spec fn preview_text(ls: Seq<Seq<char>>, w: nat) -> Option<Seq<char>>
    decreases ls.len(),
{
    if ls.len() == 0 {
        Some(Seq::empty())
    } else {
        match (preview_text(ls.drop_last(), w), spec_visible_truncate(ls.last(), w)) {
            (Some(a), Some(t)) => Some(a + t + "\x1b[K\r\n"@),
            _ => None,
        }
    }
}

/// The preview: a divider with its label centred, then the preview of the
/// selected row at the bottom of `preview_h` lines.
pub open spec fn preview_block(
    has_selection: bool,
    preview: Seq<Seq<char>>,
    preview_h: nat,
    w: nat,
    percent: nat,
    side_w: nat,
) -> Option<Seq<char>> {
    let label = preview_label(percent, side_w);
    let tw = spec_text_width(label);
    let lw = if tw < w {
        tw
    } else {
        w
    };
    let left = sat_sub(w, lw) / 2;
    let right = sat_sub(w, left + lw);
    let bar = "\x1b[38;5;238m"@ + rule(left) + "\x1b[38;5;244m"@ + spec_plain_truncate(label, sat_sub(w, left))
        + "\x1b[38;5;238m"@ + rule(right) + "\x1b[0m\r\n"@;
    let lines = if has_selection {
        preview
    } else {
        Seq::empty()
    };
    let shown = if lines.len() > preview_h {
        lines.take(preview_h as int)
    } else {
        lines
    };
    match preview_text(shown, w) {
        Some(t) => Some(bar + blank_lines(sat_sub(preview_h, lines.len())) + t),
        None => None,
    }
}

/// The first row shown: the list scrolls just far enough for the selected
/// row to be on its last line.
pub open spec fn list_offset(selected: nat, list_h: nat) -> nat {
    if selected >= list_h {
        (selected + 1 - list_h) as nat
    } else {
        0
    }
}

/// The list, the separator line and the preview fill the screen body (one
/// line less than the terminal, and at least eight) exactly, the list keeps
/// at least three lines, and the list, the divider and the help column span
/// the terminal's width (at least twenty columns).
pub proof fn law_frame_fills_screen(h: nat, w: nat, percent: nat, show_preview: bool)
    requires
        h <= usize::MAX,
        w <= usize::MAX,
    ensures
        ({
            let f = spec_frame_layout(h, w, percent, show_preview);
            &&& f.body_h == (if h >= 10 { h - 1 } else { 8 })
            &&& f.list_h + f.preview_h + (if show_preview { 1int } else { 0 }) == f.body_h
            &&& f.list_h >= 3
            &&& (show_preview ==> f.preview_h >= 3)
            &&& (w >= 20 ==> f.side_w + (if f.side_w > 0 { 1int } else { 0 }) + f.left_w == w)
        }),
{
}

/// The selected row is always on the screen: the list starts at or above it
/// and ends below it.
pub proof fn law_selected_row_shown(selected: nat, h: nat, w: nat, percent: nat, show_preview: bool)
    requires
        h <= usize::MAX,
        w <= usize::MAX,
    ensures
        ({
            let lh = spec_frame_layout(h, w, percent, show_preview).list_h as nat;
            list_offset(selected, lh) <= selected < list_offset(selected, lh) + lh
        }),
{
    law_frame_fills_screen(h, w, percent, show_preview);
}

/// The item column is never narrower than twenty cells, and leaves room for
/// the statistics (24 cells) on screens wide enough for both.
pub proof fn law_item_width_bounded(rows: Seq<RowV>, ex: Map<Seq<char>, bool>, screen_width: nat)
    ensures
        20 <= spec_item_width(rows, ex, screen_width),
        spec_item_width(rows, ex, screen_width) <= (if screen_width >= 44 {
            screen_width - 24
        } else {
            20
        }),
{
}

/// The whole screen: the list of rows (scrolled so that the selection is
/// visible) with the help column beside it, the preview below it when shown,
/// and the open modal over everything; none where cutting a text would
/// panic. `cells` are the statistics of the rows, `total` the statistics of
/// all sessions, `preview` what the selected row previews.
pub open spec fn spec_render(
    rows: Seq<RowV>,
    selected: nat,
    ex: Map<Seq<char>, bool>,
    percent: nat,
    show_preview: bool,
    interval: nat,
    message: Seq<char>,
    modal: ModalV,
    h: nat,
    w: nat,
    cells: Seq<StatCellsV>,
    total: Seq<char>,
    preview: Seq<Seq<char>>,
) -> Option<Seq<char>> {
    let lay = spec_frame_layout(h, w, percent, show_preview);
    let item_width = spec_item_width(rows, ex, sat_sub(lay.left_w as nat, 2));
    let help = help_lines(total, interval, message);
    let offset = list_offset(selected, lay.list_h as nat);
    match list_lines(
        rows,
        ex,
        cells,
        selected,
        offset,
        lay.left_w as nat,
        item_width,
        help,
        lay.side_w as nat,
        lay.list_h as nat,
    ) {
        None => None,
        Some(body) => {
            let pv = if show_preview {
                preview_block(selected < rows.len(), preview, lay.preview_h as nat, w, percent, lay.side_w as nat)
            } else {
                Some(Seq::empty())
            };
            match pv {
                None => None,
                Some(p) => Some("\x1b[H\x1b[2J"@ + body + p + spec_draw_modal(modal, h, w)),
            }
        },
    }
}

fn list_cell_exec(
    rows: &[Row],
    expanded: &ExpandedState,
    cells: &[StatCells],
    selected: usize,
    idx: usize,
    line_idx: usize,
    left_w: usize,
    item_width: usize,
) -> (r: Option<String>)
    requires
        cells@.len() == rows@.len(),
    ensures
        opt_text(r) == list_cell(
            crate::model::row_views(rows@),
            expanded@,
            cells_views(cells@),
            selected as nat,
            idx as nat,
            line_idx as nat,
            left_w as nat,
            item_width as nat,
        ),
{
    if rows.len() == 0 && line_idx == 0 {
        let mut out = lit(" no sessions");
        push_spaces(
            &mut out,
            if left_w >= 12 {
                left_w - 12
            } else {
                0
            },
        );
        return Some(out);
    }
    if idx >= rows.len() {
        let mut out = String::new();
        push_spaces(&mut out, left_w);
        assert(out@ =~= spaces(left_w as nat));
        return Some(out);
    }
    assert(crate::model::row_views(rows@)[idx as int] == rows@[idx as int]@);
    assert(cells_views(cells@)[idx as int] == cells@[idx as int]@);
    let text = match try_row_text(&rows[idx], expanded, item_width, &cells[idx]) {
        Some(t) => t,
        None => return None,
    };
    let content_w = if left_w >= 1 {
        left_w - 1
    } else {
        0
    };
    if idx == selected {
        let plain = plain_truncate(strip_ansi(text.as_str()).as_str(), content_w);
        let pw = text_width(plain.as_str());
        let mut out = lit("\x1b[48;2;255;100;150m\x1b[38;2;0;0;0m ");
        push_str(&mut out, plain.as_str());
        push_spaces(
            &mut out,
            if content_w >= pw {
                content_w - pw
            } else {
                0
            },
        );
        push_str(&mut out, "\x1b[0m");
        Some(out)
    } else {
        let t = match try_visible_truncate(text.as_str(), content_w) {
            Some(t) => t,
            None => return None,
        };
        let tw = text_width(text.as_str());
        let vis = if tw < content_w {
            tw
        } else {
            content_w
        };
        let mut out = lit(
            match &rows[idx] {
                Row::Session(_) => "\x1b[1;38;5;252m ",
                Row::Window(_) => "\x1b[38;5;244m ",
                Row::WatchWindow(_) => "\x1b[38;5;244m ",
                _ => "\x1b[38;5;240m ",
            },
        );
        push_str(&mut out, t.as_str());
        push_spaces(&mut out, content_w - vis);
        push_str(&mut out, "\x1b[0m");
        Some(out)
    }
}

fn side_cell_exec(help: &Vec<String>, line_idx: usize, side_w: usize) -> (r: String)
    ensures
        r@ == side_cell(views(help@), line_idx as nat, side_w as nat),
{
    if side_w == 0 {
        return String::new();
    }
    let mut out = lit("\x1b[38;5;238m│\x1b[0m");
    if line_idx == 0 {
        push_str(&mut out, "\x1b[38;2;255;100;150m");
        push_str(&mut out, " ");
    } else {
        push_str(&mut out, "\x1b[38;5;244m ");
    }
    let line: &str = if line_idx < help.len() {
        help[line_idx].as_str()
    } else {
        ""
    };
    proof {
        reveal_strlit("");
        assert(""@ =~= Seq::<char>::empty());
        if line_idx < help.len() {
            assert(views(help@)[line_idx as int] == help@[line_idx as int]@);
        }
        assert(line@ == (if line_idx < views(help@).len() {
            views(help@)[line_idx as int]
        } else {
            Seq::<char>::empty()
        }));
    }
    let cut = plain_truncate(line, side_w - 1);
    push_str(&mut out, cut.as_str());
    push_str(&mut out, "\x1b[0m");
    assert(out@ =~= side_cell(views(help@), line_idx as nat, side_w as nat));
    out
}

proof fn lemma_list_lines_none(
    rows: Seq<RowV>,
    ex: Map<Seq<char>, bool>,
    cells: Seq<StatCellsV>,
    selected: nat,
    offset: nat,
    left_w: nat,
    item_width: nat,
    help: Seq<Seq<char>>,
    side_w: nat,
    k: nat,
    n: nat,
)
    requires
        k <= n,
        list_lines(rows, ex, cells, selected, offset, left_w, item_width, help, side_w, k) is None,
    ensures
        list_lines(rows, ex, cells, selected, offset, left_w, item_width, help, side_w, n) is None,
    decreases n - k,
{
    if k < n {
        lemma_list_lines_none(rows, ex, cells, selected, offset, left_w, item_width, help, side_w, k, (n - 1) as nat);
    }
}

fn list_lines_exec(
    rows: &[Row],
    expanded: &ExpandedState,
    cells: &[StatCells],
    selected: usize,
    offset: usize,
    left_w: usize,
    item_width: usize,
    help: &Vec<String>,
    side_w: usize,
    list_h: usize,
) -> (r: Option<String>)
    requires
        cells@.len() == rows@.len(),
        offset + list_h <= usize::MAX,
    ensures
        opt_text(r) == list_lines(
            crate::model::row_views(rows@),
            expanded@,
            cells_views(cells@),
            selected as nat,
            offset as nat,
            left_w as nat,
            item_width as nat,
            views(help@),
            side_w as nat,
            list_h as nat,
        ),
{
    let ghost rv = crate::model::row_views(rows@);
    let ghost cv = cells_views(cells@);
    let ghost hv = views(help@);
    let mut body = String::new();
    let mut line_idx: usize = 0;
    while line_idx < list_h
        invariant
            line_idx <= list_h,
            offset + list_h <= usize::MAX,
            cells@.len() == rows@.len(),
            rv == crate::model::row_views(rows@),
            cv == cells_views(cells@),
            hv == views(help@),
            list_lines(
                rv,
                expanded@,
                cv,
                selected as nat,
                offset as nat,
                left_w as nat,
                item_width as nat,
                hv,
                side_w as nat,
                line_idx as nat,
            ) == Some(body@),
        decreases list_h - line_idx,
    {
        let idx = offset + line_idx;
        match list_cell_exec(rows, expanded, cells, selected, idx, line_idx, left_w, item_width) {
            Some(c) => {
                push_str(&mut body, c.as_str());
                let side = side_cell_exec(help, line_idx, side_w);
                push_str(&mut body, side.as_str());
                push_str(&mut body, "\x1b[K\r\n");
            },
            None => {
                proof {
                    lemma_list_lines_none(
                        rv,
                        expanded@,
                        cv,
                        selected as nat,
                        offset as nat,
                        left_w as nat,
                        item_width as nat,
                        hv,
                        side_w as nat,
                        (line_idx + 1) as nat,
                        list_h as nat,
                    );
                }
                return None;
            },
        }
        line_idx += 1;
    }
    Some(body)
}

fn preview_block_exec(
    has_selection: bool,
    preview: &[String],
    preview_h: usize,
    w: usize,
    percent: usize,
    side_w: usize,
) -> (r: Option<String>)
    ensures
        opt_text(r) == preview_block(has_selection, views(preview@), preview_h as nat, w as nat, percent as nat, side_w as nat),
{
    let mut label = concat(" preview ", usize_text(percent).as_str());
    if side_w == 0 {
        push_str(&mut label, "% · ? help ");
    } else {
        push_str(&mut label, "% ");
    }
    let tw = text_width(label.as_str());
    let lw = if tw < w {
        tw
    } else {
        w
    };
    let left = (w - lw) / 2;
    let right = if w >= left + lw {
        w - (left + lw)
    } else {
        0
    };
    let mut out = lit("\x1b[38;5;238m");
    push_rule(&mut out, left);
    push_str(&mut out, "\x1b[38;5;244m");
    push_str(&mut out, plain_truncate(label.as_str(), w - left).as_str());
    push_str(&mut out, "\x1b[38;5;238m");
    push_rule(&mut out, right);
    push_str(&mut out, "\x1b[0m\r\n");
    let ghost pv = views(preview@);
    let n = if has_selection {
        preview.len()
    } else {
        0
    };
    let ghost lines = if has_selection {
        pv
    } else {
        Seq::<Seq<char>>::empty()
    };
    let pad = if preview_h >= n {
        preview_h - n
    } else {
        0
    };
    let ghost bar = out@;
    let mut k: usize = 0;
    while k < pad
        invariant
            k <= pad,
            out@ == bar + blank_lines(k as nat),
        decreases pad - k,
    {
        push_str(&mut out, "\x1b[K\r\n");
        k += 1;
    }
    let shown_n = if n > preview_h {
        preview_h
    } else {
        n
    };
    let ghost shown = if lines.len() > preview_h {
        lines.take(preview_h as int)
    } else {
        lines
    };
    assert(shown =~= lines.take(shown_n as int));
    let ghost padded = out@;
    let mut text = String::new();
    let mut i: usize = 0;
    while i < shown_n
        invariant
            i <= shown_n <= n,
            n == lines.len(),
            pv == views(preview@),
            lines == (if has_selection {
                pv
            } else {
                Seq::<Seq<char>>::empty()
            }),
            preview_text(lines.take(i as int), w as nat) == Some(text@),
            shown == lines.take(shown_n as int),
            shown == (if lines.len() > preview_h {
                lines.take(preview_h as int)
            } else {
                lines
            }),
        decreases shown_n - i,
    {
        assert(lines.take(i + 1).drop_last() =~= lines.take(i as int));
        assert(lines[i as int] == preview@[i as int]@);
        assert(lines.take(i + 1).last() == lines[i as int]);
        match try_visible_truncate(preview[i].as_str(), w) {
            Some(t) => {
                push_str(&mut text, t.as_str());
                push_str(&mut text, "\x1b[K\r\n");
            },
            None => {
                proof {
                    assert(lines.take(shown_n as int).take(i + 1) =~= lines.take(i + 1));
                    lemma_preview_text_none(lines.take(shown_n as int), w as nat, (i + 1) as nat);
                }
                return None;
            },
        }
        i += 1;
    }
    push_str(&mut out, text.as_str());
    Some(out)
}

proof fn lemma_preview_text_none(ls: Seq<Seq<char>>, w: nat, k: nat)
    requires
        k <= ls.len(),
        preview_text(ls.take(k as int), w) is None,
    ensures
        preview_text(ls, w) is None,
    decreases ls.len() - k,
{
    if k < ls.len() {
        assert(ls.take(k as int + 1).drop_last() =~= ls.take(k as int));
        lemma_preview_text_none(ls, w, k + 1);
    } else {
        assert(ls.take(k as int) =~= ls);
    }
}

/// The screen (see `spec_render`), or nothing where cutting a text would
/// panic.
#[verifier::rlimit(50)]
pub fn try_render(
    rows: &[Row],
    selected: usize,
    expanded: &ExpandedState,
    preview_percent: usize,
    show_preview: bool,
    stats_interval_secs: usize,
    message: &str,
    modal: &Modal,
    term_h: usize,
    term_w: usize,
    cells: &[StatCells],
    total: &str,
    preview: &[String],
) -> (r: Option<String>)
    requires
        selected < usize::MAX,
        cells@.len() == rows@.len(),
        frame_in_range(term_h as nat, preview_percent as nat),
        modal_in_range(modal@, term_h as nat),
    ensures
        opt_text(r) == spec_render(
            crate::model::row_views(rows@),
            selected as nat,
            expanded@,
            preview_percent as nat,
            show_preview,
            stats_interval_secs as nat,
            message@,
            modal@,
            term_h as nat,
            term_w as nat,
            cells_views(cells@),
            total@,
            views(preview@),
        ),
{
    let lay = frame_layout(term_h, term_w, preview_percent, show_preview);
    let item_width = compute_item_width(
        rows,
        expanded,
        if lay.left_w >= 2 {
            lay.left_w - 2
        } else {
            0
        },
    );
    let help = help_lines_exec(total, stats_interval_secs, message);
    let offset = if selected >= lay.list_h {
        selected - lay.list_h + 1
    } else {
        0
    };
    assert(offset + lay.list_h <= usize::MAX);
    let mut out = lit("\x1b[H\x1b[2J");
    let body = match list_lines_exec(
        rows,
        expanded,
        cells,
        selected,
        offset,
        lay.left_w,
        item_width,
        &help,
        lay.side_w,
        lay.list_h,
    ) {
        Some(b) => b,
        None => return None,
    };
    let pv = if show_preview {
        match preview_block_exec(
            selected < rows.len(),
            preview,
            lay.preview_h,
            term_w,
            preview_percent,
            lay.side_w,
        ) {
            Some(p) => p,
            None => return None,
        }
    } else {
        String::new()
    };
    push_str(&mut out, body.as_str());
    push_str(&mut out, pv.as_str());
    let ghost before_modal = out@;
    draw_modal(&mut out, modal, term_h, term_w);
    Some(out)
}

/// Draws the whole screen (see `spec_render`).
pub fn render(
    rows: &[Row],
    selected: usize,
    expanded: &ExpandedState,
    preview_percent: usize,
    show_preview: bool,
    stats_interval_secs: usize,
    message: &str,
    modal: &Modal,
    term_h: usize,
    term_w: usize,
    cells: &[StatCells],
    total: &str,
    preview: &[String],
) -> (r: String)
    requires
        selected < usize::MAX,
        cells@.len() == rows@.len(),
        frame_in_range(term_h as nat, preview_percent as nat),
        modal_in_range(modal@, term_h as nat),
        spec_render(
            crate::model::row_views(rows@),
            selected as nat,
            expanded@,
            preview_percent as nat,
            show_preview,
            stats_interval_secs as nat,
            message@,
            modal@,
            term_h as nat,
            term_w as nat,
            cells_views(cells@),
            total@,
            views(preview@),
        ) is Some,
    ensures
        spec_render(
            crate::model::row_views(rows@),
            selected as nat,
            expanded@,
            preview_percent as nat,
            show_preview,
            stats_interval_secs as nat,
            message@,
            modal@,
            term_h as nat,
            term_w as nat,
            cells_views(cells@),
            total@,
            views(preview@),
        ) == Some(r@),
{
    match try_render(
        rows,
        selected,
        expanded,
        preview_percent,
        show_preview,
        stats_interval_secs,
        message,
        modal,
        term_h,
        term_w,
        cells,
        total,
        preview,
    ) {
        Some(s) => s,
        None => String::new(),
    }
}

} // verus!
