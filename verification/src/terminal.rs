use vstd::prelude::*;
use crate::num::{decimal, parse_usize, parse_usize_exec, u64_text};
use crate::strs::{chars_of, is_ws, is_whitespace, lit, push_char, push_str, trim, trimmed};

verus! {

// ---------------------------------------------------------------------------
// the size of the terminal
/// `str::split_whitespace`: the runs of non-whitespace characters, `cur`
/// being the run read so far.
pub open spec fn words_from(s: Seq<char>, cur: Seq<char>) -> Seq<Seq<char>>
    decreases s.len(),
{
    if s.len() == 0 {
        if cur.len() > 0 {
            seq![cur]
        } else {
            Seq::empty()
        }
    } else if is_ws(s[0]) {
        (if cur.len() > 0 {
            seq![cur]
        } else {
            Seq::empty()
        }) + words_from(s.drop_first(), Seq::empty())
    } else {
        words_from(s.drop_first(), cur.push(s[0]))
    }
}

pub open spec fn words(s: Seq<char>) -> Seq<Seq<char>> {
    words_from(s, Seq::empty())
}

/// Two numbers, rows then columns, as the first two words of `s`.
pub open spec fn spec_parse_size_pair(s: Seq<char>) -> Option<(nat, nat)> {
    let w = words(s);
    if w.len() >= 2 && parse_usize(w[0]) is Some && parse_usize(w[1]) is Some {
        Some((parse_usize(w[0]).unwrap(), parse_usize(w[1]).unwrap()))
    } else {
        None
    }
}

fn first_words(s: &str) -> (r: (Option<String>, Option<String>))
    ensures
        crate::state::opt_string(r.0) == (if words(s@).len() > 0 {
            Some(words(s@)[0])
        } else {
            None::<Seq<char>>
        }),
        crate::state::opt_string(r.1) == (if words(s@).len() > 1 {
            Some(words(s@)[1])
        } else {
            None::<Seq<char>>
        }),
{
    let v = chars_of(s);
    let mut found: Vec<String> = Vec::new();
    let mut cur = String::new();
    let mut i: usize = 0;
    assert(v@.skip(0) =~= v@);
    assert(crate::strs::views(found@) + words(v@) =~= words(v@));
    while i < v.len()
        invariant
            i <= v@.len(),
            v@ == s@,
            crate::strs::views(found@) + words_from(v@.skip(i as int), cur@) == words(v@),
        decreases v.len() - i,
    {
        let c = v[i];
        assert(v@.skip(i as int).drop_first() =~= v@.skip(i + 1));
        if is_whitespace(c) {
            if !crate::strs::is_empty_str(cur.as_str()) {
                let ghost before = crate::strs::views(found@);
                let piece = cur;
                let ghost pv = piece@;
                found.push(piece);
                cur = String::new();
                assert(crate::strs::views(found@) =~= before.push(pv));
                assert(before + (seq![pv] + words_from(v@.skip(i + 1), Seq::empty())) =~= crate::strs::views(
                    found@,
                ) + words_from(v@.skip(i + 1), cur@));
            } else {
                assert(cur@.len() == 0);
                assert(Seq::<Seq<char>>::empty() + words_from(v@.skip(i + 1), Seq::empty()) =~= words_from(
                    v@.skip(i + 1),
                    Seq::empty(),
                ));
                assert(cur@ =~= Seq::<char>::empty());
            }
        } else {
            push_char(&mut cur, c);
        }
        i += 1;
    }
    if !crate::strs::is_empty_str(cur.as_str()) {
        let ghost before = crate::strs::views(found@);
        let piece = cur;
        let ghost pv = piece@;
        found.push(piece);
        assert(crate::strs::views(found@) =~= before.push(pv));
        assert(before + seq![pv] =~= crate::strs::views(found@));
    } else {
        assert(crate::strs::views(found@) + Seq::<Seq<char>>::empty() =~= crate::strs::views(found@));
    }
    assert(crate::strs::views(found@) == words(s@));
    let a = if found.len() > 0 {
        Some(crate::strs::copy_string(&found[0]))
    } else {
        None
    };
    let b = if found.len() > 1 {
        Some(crate::strs::copy_string(&found[1]))
    } else {
        None
    };
    (a, b)
}

pub fn parse_size_pair(s: &str) -> (r: Option<(usize, usize)>)
    ensures
        match r {
            Some((a, b)) => spec_parse_size_pair(s@) == Some((a as nat, b as nat)),
            None => spec_parse_size_pair(s@) is None,
        },
{
    let (a, b) = first_words(s);
    let a = match a {
        Some(x) => x,
        None => return None,
    };
    let a = match parse_usize_exec(a.as_str()) {
        Some(n) => n,
        None => return None,
    };
    let b = match b {
        Some(x) => x,
        None => return None,
    };
    match parse_usize_exec(b.as_str()) {
        Some(m) => Some((a, m)),
        None => None,
    }
}

/// At least 10 rows and 40 columns.
pub fn clamp_term_size(size: (usize, usize)) -> (r: (usize, usize))
    ensures
        r.0 == (if size.0 > 10 {
            size.0
        } else {
            10
        }),
        r.1 == (if size.1 > 40 {
            size.1
        } else {
            40
        }),
{
    let (rows, cols) = size;
    (
        if rows > 10 {
            rows
        } else {
            10
        },
        if cols > 40 {
            cols
        } else {
            40
        },
    )
}

pub open spec fn clamped(size: (nat, nat)) -> (nat, nat) {
    (
        if size.0 > 10 {
            size.0
        } else {
            10
        },
        if size.1 > 40 {
            size.1
        } else {
            40
        },
    )
}

pub open spec fn opt_size(o: Option<Seq<char>>) -> Option<(nat, nat)> {
    match o {
        Some(s) => spec_parse_size_pair(s),
        None => None,
    }
}

/// The terminal size, from the first source that gives one: the
/// `TMUX_OVERVIEW_HEIGHT` and `TMUX_OVERVIEW_WIDTH` variables, the popup
/// size tmux reports, `stty size`, the client size tmux reports; else 30 by
/// 100. Each source's text is what it printed, none when it failed.
pub open spec fn spec_term_size(
    env_h: Option<Seq<char>>,
    env_w: Option<Seq<char>>,
    popup: Option<Seq<char>>,
    stty: Option<Seq<char>>,
    client: Option<Seq<char>>,
) -> (nat, nat) {
    let from_env = match (env_h, env_w) {
        (Some(h), Some(w)) => match (parse_usize(h), parse_usize(w)) {
            (Some(r), Some(c)) => Some((r, c)),
            _ => None,
        },
        _ => None,
    };
    match from_env {
        Some(sz) => clamped(sz),
        None => match opt_size(popup) {
            Some(sz) => clamped(sz),
            None => match opt_size(stty) {
                Some(sz) => clamped(sz),
                None => match opt_size(client) {
                    Some(sz) => clamped(sz),
                    None => (30, 100),
                },
            },
        },
    }
}

fn size_of(o: Option<&str>) -> (r: Option<(usize, usize)>)
    ensures
        match r {
            Some((a, b)) => opt_size(crate::state::opt_str(o)) == Some((a as nat, b as nat)),
            None => opt_size(crate::state::opt_str(o)) is None,
        },
{
    match o {
        Some(s) => parse_size_pair(s),
        None => None,
    }
}

pub fn term_size(
    env_h: Option<&str>,
    env_w: Option<&str>,
    popup: Option<&str>,
    stty: Option<&str>,
    client: Option<&str>,
) -> (r: (usize, usize))
    ensures
        (r.0 as nat, r.1 as nat) == spec_term_size(
            crate::state::opt_str(env_h),
            crate::state::opt_str(env_w),
            crate::state::opt_str(popup),
            crate::state::opt_str(stty),
            crate::state::opt_str(client),
        ),
{
    if let (Some(h), Some(w)) = (env_h, env_w) {
        if let (Some(r), Some(c)) = (parse_usize_exec(h), parse_usize_exec(w)) {
            return clamp_term_size((r, c));
        }
    }
    if let Some(sz) = size_of(popup) {
        return clamp_term_size(sz);
    }
    if let Some(sz) = size_of(stty) {
        return clamp_term_size(sz);
    }
    if let Some(sz) = size_of(client) {
        return clamp_term_size(sz);
    }
    (30, 100)
}

// ---------------------------------------------------------------------------
// when a layout was saved
/// Within a day the time of day is shown, otherwise the date.
pub open spec fn spec_date_format(elapsed_secs: nat) -> Seq<char> {
    if elapsed_secs < 86400 {
        "+%H:%M"@
    } else {
        "+%b %d"@
    }
}

/// The `date` format for a layout saved `elapsed_secs` ago.
pub fn date_format(elapsed_secs: u64) -> (r: &'static str)
    ensures
        r@ == spec_date_format(elapsed_secs as nat),
{
    if elapsed_secs < 86400 {
        "+%H:%M"
    } else {
        "+%b %d"
    }
}

/// `n` with at least two digits.
pub open spec fn two_digits(n: nat) -> Seq<char> {
    if n < 10 {
        "0"@ + decimal(n)
    } else {
        decimal(n)
    }
}

/// How long ago a layout was saved, when `date` gives nothing: hours and
/// minutes within a day, else days.
pub open spec fn spec_elapsed_label(elapsed_secs: nat) -> Seq<char> {
    if elapsed_secs < 86400 {
        two_digits(elapsed_secs / 3600) + ":"@ + two_digits((elapsed_secs % 3600) / 60) + " ago"@
    } else {
        decimal(elapsed_secs / 86400) + "d ago"@
    }
}

fn push_two_digits(s: &mut String, n: u64)
    ensures
        final(s)@ == old(s)@ + two_digits(n as nat),
{
    if n < 10 {
        push_str(s, "0");
    }
    push_str(s, u64_text(n).as_str());
    assert(s@ =~= old(s)@ + two_digits(n as nat));
}

/// The label of a layout saved `elapsed_secs` ago: what `date` printed for
/// it (trimmed), else the elapsed time.
pub open spec fn spec_saved_time_label(date_output: Seq<char>, elapsed_secs: nat) -> Seq<char> {
    if trim(date_output).len() > 0 {
        trim(date_output)
    } else {
        spec_elapsed_label(elapsed_secs)
    }
}

pub fn format_saved_time(date_output: &str, elapsed_secs: u64) -> (r: String)
    ensures
        r@ == spec_saved_time_label(date_output@, elapsed_secs as nat),
{
    let out = trimmed(date_output);
    if !crate::strs::is_empty_str(out.as_str()) {
        return out;
    }
    if elapsed_secs < 86400 {
        let mut s = String::new();
        push_two_digits(&mut s, elapsed_secs / 3600);
        push_str(&mut s, ":");
        push_two_digits(&mut s, (elapsed_secs % 3600) / 60);
        push_str(&mut s, " ago");
        assert(s@ =~= spec_elapsed_label(elapsed_secs as nat));
        s
    } else {
        let mut s = u64_text(elapsed_secs / 86400);
        push_str(&mut s, "d ago");
        s
    }
}

} // verus!
