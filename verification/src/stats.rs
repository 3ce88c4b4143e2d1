use vstd::prelude::*;
use crate::num::{parse_usize, parse_usize_exec};
use crate::sort::{order_of, seq_views, sorted_stably, stable_sort, Sortable};
use crate::store::{LabelMap, StrSet};
use crate::strs::{copy_string, eq_str, is_empty_str, lines, split, split_char, split_lines, trim, trimmed, views};

verus! {

// ---------------------------------------------------------------------------
// the labels of the panes of each window
/// A pane of the `list-panes -a` listing: its window, index and label.
#[derive(Clone, Debug, PartialEq, Eq)]
pub struct PaneLabel {
    pub window: String,
    pub index: usize,
    pub label: String,
}

pub struct PaneLabelV {
    pub window: Seq<char>,
    pub index: nat,
    pub label: Seq<char>,
}

impl View for PaneLabel {
    type V = PaneLabelV;

    open spec fn view(&self) -> PaneLabelV {
        PaneLabelV { window: self.window@, index: self.index as nat, label: self.label@ }
    }
}

impl Sortable for PaneLabel {
    /// By pane index.
    open spec fn precedes(a: PaneLabelV, b: PaneLabelV) -> bool {
        a.index < b.index
    }

    fn sorts_before(&self, other: &Self) -> (r: bool) {
        self.index < other.index
    }
}

/// The pane a line of the listing (window id, pane index, command, title,
/// short host name) describes: it is labelled by its title unless that is
/// empty or only the host name, then by its command; an unreadable index
/// counts as 0.
pub open spec fn pane_label_of(line: Seq<char>) -> Option<PaneLabelV> {
    let p = split(line, '\t');
    if p.len() < 5 {
        None
    } else {
        let title = trim(p[3]);
        let host = trim(p[4]);
        Some(
            PaneLabelV {
                window: p[0],
                index: match parse_usize(p[1]) {
                    Some(n) => n,
                    None => 0,
                },
                label: if title.len() > 0 && title != host {
                    title
                } else {
                    p[2]
                },
            },
        )
    }
}

pub open spec fn pane_labels_of(ls: Seq<Seq<char>>) -> Seq<PaneLabelV>
    decreases ls.len(),
{
    if ls.len() == 0 {
        Seq::empty()
    } else {
        let rest = pane_labels_of(ls.drop_last());
        match pane_label_of(ls.last()) {
            Some(p) => rest.push(p),
            None => rest,
        }
    }
}

/// The panes of window `w`, in listing order.
pub open spec fn panes_of_window(ps: Seq<PaneLabelV>, w: Seq<char>) -> Seq<PaneLabelV>
    decreases ps.len(),
{
    if ps.len() == 0 {
        Seq::empty()
    } else {
        let rest = panes_of_window(ps.drop_last(), w);
        if ps.last().window == w {
            rest.push(ps.last())
        } else {
            rest
        }
    }
}

pub open spec fn labels_in_order(ps: Seq<PaneLabelV>) -> Seq<Seq<char>> {
    ps.map_values(|p: PaneLabelV| p.label)
}

/// For every window listed, the labels of its panes by pane index.
pub open spec fn spec_window_labels(panes_raw: Seq<char>) -> Map<Seq<char>, Seq<Seq<char>>> {
    let ps = pane_labels_of(lines(panes_raw));
    Map::new(
        |w: Seq<char>| exists|i: int| 0 <= i < ps.len() && (#[trigger] ps[i]).window == w,
        |w: Seq<char>| labels_in_order(sorted_stably(panes_of_window(ps, w), order_of::<PaneLabel>())),
    )
}

fn parse_pane_labels(panes_raw: &str) -> (r: Vec<PaneLabel>)
    ensures
        seq_views(r@) == pane_labels_of(lines(panes_raw@)),
{
    let ls = split_lines(panes_raw);
    let ghost lv = views(ls@);
    let mut out: Vec<PaneLabel> = Vec::new();
    let mut k: usize = 0;
    while k < ls.len()
        invariant
            k <= ls@.len(),
            lv == views(ls@),
            lv == lines(panes_raw@),
            seq_views(out@) == pane_labels_of(lv.take(k as int)),
        decreases ls.len() - k,
    {
        assert(lv.take(k + 1).drop_last() =~= lv.take(k as int));
        assert(lv.take(k + 1).last() == ls@[k as int]@);
        let parts = split_char(ls[k].as_str(), '\t');
        let ghost sp = split(ls@[k as int]@, '\t');
        assert(views(parts@) == sp);
        if parts.len() >= 5 {
            assert(parts@[0]@ == sp[0] && parts@[1]@ == sp[1] && parts@[2]@ == sp[2]);
            assert(parts@[3]@ == sp[3] && parts@[4]@ == sp[4]);
            let title = trimmed(parts[3].as_str());
            let host = trimmed(parts[4].as_str());
            let label = if !is_empty_str(title.as_str()) && !eq_str(title.as_str(), host.as_str()) {
                title
            } else {
                copy_string(&parts[2])
            };
            let index = match parse_usize_exec(parts[1].as_str()) {
                Some(n) => n,
                None => 0,
            };
            let p = PaneLabel { window: copy_string(&parts[0]), index, label };
            let ghost before = seq_views(out@);
            out.push(p);
            assert(seq_views(out@) =~= before.push(p@));
        }
        k += 1;
    }
    assert(lv.take(k as int) =~= lv);
    out
}

fn panes_of_window_exec(ps: &Vec<PaneLabel>, w: &str) -> (r: Vec<PaneLabel>)
    ensures
        seq_views(r@) == panes_of_window(seq_views(ps@), w@),
{
    let ghost pv = seq_views(ps@);
    let mut out: Vec<PaneLabel> = Vec::new();
    let mut k: usize = 0;
    while k < ps.len()
        invariant
            k <= ps@.len(),
            pv == seq_views(ps@),
            seq_views(out@) == panes_of_window(pv.take(k as int), w@),
        decreases ps.len() - k,
    {
        assert(pv.take(k + 1).drop_last() =~= pv.take(k as int));
        assert(pv.take(k + 1).last() == ps@[k as int]@);
        if eq_str(ps[k].window.as_str(), w) {
            let p = PaneLabel { window: copy_string(&ps[k].window), index: ps[k].index, label: copy_string(&ps[k].label) };
            let ghost before = seq_views(out@);
            out.push(p);
            assert(seq_views(out@) =~= before.push(p@));
        }
        k += 1;
    }
    assert(pv.take(k as int) =~= pv);
    out
}

/// The labels of the panes of every window, from tmux's `list-panes -a`
/// listing (window id, pane index, command, title, short host name).
pub fn collect_window_labels(panes_raw: &str) -> (r: LabelMap)
    ensures
        r@ == spec_window_labels(panes_raw@),
{
    let ps = parse_pane_labels(panes_raw);
    let ghost pv = seq_views(ps@);
    let mut seen = StrSet::new();
    let mut labels = LabelMap::new();
    let mut k: usize = 0;
    while k < ps.len()
        invariant
            k <= ps@.len(),
            pv == seq_views(ps@),
            pv == pane_labels_of(lines(panes_raw@)),
            forall|w: Seq<char>| seen@.contains(w) <==> exists|i: int| 0 <= i < k && (#[trigger] pv[i]).window == w,
            labels@.dom() == seen@,
            forall|w: Seq<char>| #[trigger] labels@.contains_key(w) ==> labels@[w] == labels_in_order(
                sorted_stably(panes_of_window(pv, w), order_of::<PaneLabel>()),
            ),
        decreases ps.len() - k,
    {
        assert(pv[k as int] == ps@[k as int]@);
        let w = ps[k].window.as_str();
        if !seen.contains(w) {
            let mine = panes_of_window_exec(&ps, w);
            let sorted = stable_sort(mine);
            let mut names: Vec<String> = Vec::new();
            let mut j: usize = 0;
            while j < sorted.len()
                invariant
                    j <= sorted@.len(),
                    views(names@) == labels_in_order(seq_views(sorted@).take(j as int)),
                decreases sorted.len() - j,
            {
                let ghost before = views(names@);
                names.push(copy_string(&sorted[j].label));
                assert(views(names@) =~= before.push(sorted@[j as int].label@));
                assert(seq_views(sorted@)[j as int] == sorted@[j as int]@);
                assert(views(names@) =~= labels_in_order(seq_views(sorted@).take(j + 1)));
                j += 1;
            }
            assert(seq_views(sorted@).take(j as int) =~= seq_views(sorted@));
            labels.add(copy_string(&ps[k].window), names);
            seen.insert(copy_string(&ps[k].window));
            assert(labels@.dom() =~= seen@);
        }
        proof {
            assert forall|x: Seq<char>| seen@.contains(x) <==> exists|i: int| 0 <= i < k + 1 && (#[trigger] pv[i]).window == x by {
                if seen@.contains(x) && !(exists|i: int| 0 <= i < k && (#[trigger] pv[i]).window == x) {
                    assert(pv[k as int].window == x);
                }
            }
        }
        k += 1;
    }
    proof {
        let m = spec_window_labels(panes_raw@);
        assert forall|x: Seq<char>| labels@.contains_key(x) <==> m.contains_key(x) by {}
        assert(labels@ =~= m);
    }
    labels
}

} // verus!
