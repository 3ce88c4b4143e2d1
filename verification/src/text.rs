use vstd::prelude::*;
use crate::strs::{chars_bounded, chars_of, push_char, push_range, push_str};

verus! {

/// `char::is_control`: the characters of general category Cc.
pub open spec fn is_control_char(c: char) -> bool {
    (c as u32) <= 0x1f || (0x7f <= (c as u32) && (c as u32) <= 0x9f)
}

/// Terminal cell width of one character, as the overview measures it.
pub open spec fn spec_char_width(c: char) -> nat {
    let u = c as u32;
    if is_control_char(c) || (0x0300 <= u && u <= 0x036f) || (0x1ab0 <= u && u <= 0x1aff)
        || (0x1dc0 <= u && u <= 0x1dff) || (0x20d0 <= u && u <= 0x20ff) || (0xfe00 <= u && u
        <= 0xfe0f) || u == 0x200d {
        0
    } else if (0x1100 <= u && u <= 0x115f) || (0x2329 <= u && u <= 0x232a) || (0x2e80 <= u && u
        <= 0xa4cf) || (0xac00 <= u && u <= 0xd7a3) || (0xf900 <= u && u <= 0xfaff) || (0xfe10
        <= u && u <= 0xfe19) || (0xfe30 <= u && u <= 0xfe6f) || (0xff00 <= u && u <= 0xff60)
        || (0xffe0 <= u && u <= 0xffe6) || (0x1f000 <= u && u <= 0x1faff) {
        2
    } else {
        1
    }
}

pub fn is_control(c: char) -> (r: bool)
    ensures
        r == is_control_char(c),
{
    let u = c as u32;
    u <= 0x1f || (0x7f <= u && u <= 0x9f)
}

/// Cell width of `ch`: 0 for control and combining characters, 2 for wide
/// East Asian and emoji ranges, 1 otherwise.
pub fn char_width(ch: char) -> (w: usize)
    ensures
        w == spec_char_width(ch),
{
    let c = ch as u32;
    if is_control(ch) || (0x0300 <= c && c <= 0x036f) || (0x1ab0 <= c && c <= 0x1aff) || (0x1dc0
        <= c && c <= 0x1dff) || (0x20d0 <= c && c <= 0x20ff) || (0xfe00 <= c && c <= 0xfe0f) || c
        == 0x200d {
        0
    } else if (0x1100 <= c && c <= 0x115f) || (0x2329 <= c && c <= 0x232a) || (0x2e80 <= c && c
        <= 0xa4cf) || (0xac00 <= c && c <= 0xd7a3) || (0xf900 <= c && c <= 0xfaff) || (0xfe10 <= c
        && c <= 0xfe19) || (0xfe30 <= c && c <= 0xfe6f) || (0xff00 <= c && c <= 0xff60) || (0xffe0
        <= c && c <= 0xffe6) || (0x1f000 <= c && c <= 0x1faff) {
        2
    } else {
        1
    }
}


pub open spec fn is_ascii_alpha(c: char) -> bool {
    ('a' <= c && c <= 'z') || ('A' <= c && c <= 'Z')
}

/// A character that ends an escape sequence for `text_width` and `strip_ansi`.
pub open spec fn ends_escape(c: char) -> bool {
    is_ascii_alpha(c) || c == 'm'
}

/// Display width of `s` from its front, `in_escape` telling whether an escape
/// sequence is open. An escape sequence runs from ESC up to and including the
/// first ASCII letter; it has no width. A tab counts as one cell.
pub open spec fn width_from(s: Seq<char>, in_escape: bool) -> nat
    decreases s.len(),
{
    if s.len() == 0 {
        0
    } else {
        let c = s[0];
        if in_escape {
            width_from(s.drop_first(), !ends_escape(c))
        } else if c == '\x1b' {
            width_from(s.drop_first(), true)
        } else if c == '\t' {
            1 + width_from(s.drop_first(), false)
        } else {
            spec_char_width(c) + width_from(s.drop_first(), false)
        }
    }
}

pub open spec fn spec_text_width(s: Seq<char>) -> nat {
    width_from(s, false)
}

/// The characters of `s` outside escape sequences.
pub open spec fn stripped_from(s: Seq<char>, in_escape: bool) -> Seq<char>
    decreases s.len(),
{
    if s.len() == 0 {
        Seq::empty()
    } else {
        let c = s[0];
        if in_escape {
            stripped_from(s.drop_first(), !ends_escape(c))
        } else if c == '\x1b' {
            stripped_from(s.drop_first(), true)
        } else {
            seq![c] + stripped_from(s.drop_first(), false)
        }
    }
}

pub open spec fn spec_strip_ansi(s: Seq<char>) -> Seq<char> {
    stripped_from(s, false)
}

pub proof fn lemma_width_bound(s: Seq<char>, e: bool)
    ensures
        width_from(s, e) <= 2 * s.len(),
    decreases s.len(),
{
    if s.len() > 0 {
        lemma_width_bound(s.drop_first(), !ends_escape(s[0]));
        lemma_width_bound(s.drop_first(), true);
        lemma_width_bound(s.drop_first(), false);
    }
}

/// No character is wider than its UTF-8 encoding is long, so no text is
/// wider than its length in bytes.
proof fn lemma_width_le_bytes(s: Seq<char>, e: bool)
    ensures
        width_from(s, e) <= vstd::utf8::encode_utf8(s).len(),
    decreases s.len(),
{
    if s.len() > 0 {
        let c = s[0];
        let u = c as u32;
        lemma_width_le_bytes(s.drop_first(), !ends_escape(c));
        lemma_width_le_bytes(s.drop_first(), true);
        lemma_width_le_bytes(s.drop_first(), false);
        assert(vstd::utf8::encode_scalar(u).len() >= 1);
        if spec_char_width(c) == 2 {
            assert(!vstd::utf8::has_width_1_encoding(u) && !vstd::utf8::has_width_2_encoding(u));
            assert(vstd::utf8::encode_scalar(u).len() >= 3);
        }
    }
}

fn is_alpha(c: char) -> (r: bool)
    ensures
        r == is_ascii_alpha(c),
{
    ('a' <= c && c <= 'z') || ('A' <= c && c <= 'Z')
}

/// Display width of `s`: escape sequences count nothing, a tab one cell,
/// every other character its `char_width`.
pub fn text_width(s: &str) -> (w: usize)
    ensures
        w == spec_text_width(s@),
{
    let v = chars_bounded(s);
    proof {
        lemma_width_le_bytes(v@, false);
    }
    let mut width: usize = 0;
    let mut esc = false;
    let mut i: usize = 0;
    assert(v@.skip(0) =~= v@);
    while i < v.len()
        invariant
            i <= v@.len(),
            spec_text_width(v@) <= usize::MAX,
            width + width_from(v@.skip(i as int), esc) == spec_text_width(v@),
            v@ == s@,
        decreases v.len() - i,
    {
        let c = v[i];
        proof {
            assert(v@.skip(i as int).drop_first() =~= v@.skip(i + 1));
        }
        if esc {
            esc = !(is_alpha(c) || c == 'm');
        } else if c == '\x1b' {
            esc = true;
        } else if c == '\t' {
            width += 1;
        } else {
            width += char_width(c);
        }
        i += 1;
    }
    proof {
        assert(v@.skip(i as int).len() == 0);
    }
    width
}

/// `s` without its escape sequences.
pub fn strip_ansi(s: &str) -> (r: String)
    ensures
        r@ == spec_strip_ansi(s@),
{
    let v = chars_of(s);
    let mut out = String::new();
    let mut esc = false;
    let mut i: usize = 0;
    assert(v@.skip(0) =~= v@);
    assert(out@ + spec_strip_ansi(v@) =~= spec_strip_ansi(v@));
    while i < v.len()
        invariant
            i <= v@.len(),
            out@ + stripped_from(v@.skip(i as int), esc) == spec_strip_ansi(v@),
            v@ == s@,
        decreases v.len() - i,
    {
        let c = v[i];
        proof {
            assert(v@.skip(i as int).drop_first() =~= v@.skip(i + 1));
        }
        if esc {
            esc = !(is_alpha(c) || c == 'm');
        } else if c == '\x1b' {
            esc = true;
        } else {
            let ghost before = out@;
            push_char(&mut out, c);
            proof {
                assert(before + (seq![c] + stripped_from(v@.skip(i + 1), false)) =~= out@
                    + stripped_from(v@.skip(i + 1), false));
            }
        }
        i += 1;
    }
    proof {
        assert(v@.skip(i as int).len() == 0);
        assert(out@ + Seq::<char>::empty() =~= out@);
    }
    out
}


/// A tab is shown as a space.
pub open spec fn display_char(c: char) -> char {
    if c == '\t' {
        ' '
    } else {
        c
    }
}

/// The characters `plain_truncate` keeps from `s`, `width` cells being used
/// already: control characters are dropped, and the copy stops before the
/// first character that would pass `max` cells.
pub open spec fn plain_from(s: Seq<char>, width: nat, max: nat) -> Seq<char>
    decreases s.len(),
{
    if s.len() == 0 {
        Seq::empty()
    } else {
        let d = display_char(s[0]);
        let cw = spec_char_width(d);
        if cw == 0 && is_control_char(d) {
            plain_from(s.drop_first(), width, max)
        } else if width + cw > max {
            Seq::empty()
        } else {
            seq![d] + plain_from(s.drop_first(), width + cw, max)
        }
    }
}

pub open spec fn spec_plain_truncate(s: Seq<char>, max: nat) -> Seq<char> {
    plain_from(s, 0, max)
}

/// The longest prefix of `s` (tabs shown as spaces, control characters
/// dropped) that fits in `max` cells.
pub fn plain_truncate(s: &str, max: usize) -> (r: String)
    ensures
        r@ == spec_plain_truncate(s@, max as nat),
{
    let v = chars_bounded(s);
    let mut out = String::new();
    let mut width: usize = 0;
    let mut i: usize = 0;
    assert(v@.skip(0) =~= v@);
    assert(out@ + spec_plain_truncate(v@, max as nat) =~= spec_plain_truncate(v@, max as nat));
    while i < v.len()
        invariant
            i <= v@.len(),
            width <= max,
            out@ + plain_from(v@.skip(i as int), width as nat, max as nat) == spec_plain_truncate(
                v@,
                max as nat,
            ),
            v@ == s@,
        decreases v.len() - i,
    {
        let ch = v[i];
        proof {
            assert(v@.skip(i as int).drop_first() =~= v@.skip(i + 1));
        }
        let d = if ch == '\t' {
            ' '
        } else {
            ch
        };
        let cw = char_width(d);
        if cw == 0 && is_control(d) {
            i += 1;
        } else if cw > max - width {
            assert(out@ + Seq::<char>::empty() =~= out@);
            return out;
        } else {
            let ghost before = out@;
            push_char(&mut out, d);
            proof {
                assert(before + (seq![d] + plain_from(v@.skip(i + 1), (width + cw) as nat, max as nat))
                    =~= out@ + plain_from(v@.skip(i + 1), (width + cw) as nat, max as nat));
            }
            width += cw;
            i += 1;
        }
    }
    proof {
        assert(v@.skip(i as int).len() == 0);
        assert(out@ + Seq::<char>::empty() =~= out@);
    }
    out
}

/// Where the ANSI filter of `visible_truncate_ansi` stands: reading text, inside
/// a control sequence `ESC [` that began at `start`, inside a string control
/// (OSC when `osc`), or about to skip a single byte.
pub enum ScanMode {
    Text,
    Csi { start: int },
    StrControl { osc: bool },
    SkipByte,
}

pub open spec fn prepend(p: Seq<char>, r: Option<Seq<char>>) -> Option<Seq<char>> {
    match r {
        Some(x) => Some(p + x),
        None => None,
    }
}

pub open spec fn is_string_control_intro(c: char) -> bool {
    c == ']' || c == 'P' || c == '_' || c == '^' || c == 'X'
}

pub open spec fn is_charset_intro(c: char) -> bool {
    c == '(' || c == ')' || c == '*' || c == '+' || c == '-' || c == '.' || c == '/'
}

pub open spec fn is_csi_final(c: char) -> bool {
    0x40 <= (c as u32) && (c as u32) <= 0x7e
}

/// What `visible_truncate_ansi` emits from position `i` of `s` on, in scan
/// state `mode`, `visible` cells being used of `max`; `None` where the
/// byte-wise scan would stop inside a multi-byte character and then slice the
/// string there, which panics.
pub open spec fn ansi_from(s: Seq<char>, i: int, mode: ScanMode, visible: nat, max: nat) -> Option<
    Seq<char>,
>
    decreases s.len() - i,
{
    if i < 0 || i >= s.len() {
        Some(Seq::empty())
    } else {
        match mode {
            ScanMode::Text => {
                let c = s[i];
                if c == '\x1b' {
                    if i + 1 >= s.len() {
                        Some(Seq::empty())
                    } else {
                        let n = s[i + 1];
                        if n == '[' {
                            ansi_from(s, i + 2, ScanMode::Csi { start: i }, visible, max)
                        } else if is_string_control_intro(n) {
                            ansi_from(s, i + 2, ScanMode::StrControl { osc: n == ']' }, visible, max)
                        } else if is_charset_intro(n) {
                            ansi_from(s, i + 2, ScanMode::SkipByte, visible, max)
                        } else {
                            ansi_from(s, i + 1, ScanMode::SkipByte, visible, max)
                        }
                    }
                } else if visible >= max {
                    Some(Seq::empty())
                } else {
                    let d = display_char(c);
                    let cw = spec_char_width(d);
                    if cw == 0 && is_control_char(d) {
                        ansi_from(s, i + 1, ScanMode::Text, visible, max)
                    } else if visible + cw > max {
                        Some(Seq::empty())
                    } else {
                        prepend(seq![d], ansi_from(s, i + 1, ScanMode::Text, visible + cw, max))
                    }
                }
            },
            ScanMode::Csi { start } => {
                let b = s[i];
                if is_csi_final(b) {
                    if b == 'm' {
                        prepend(
                            s.subrange(start, i + 1),
                            ansi_from(s, i + 1, ScanMode::Text, visible, max),
                        )
                    } else {
                        ansi_from(s, i + 1, ScanMode::Text, visible, max)
                    }
                } else {
                    ansi_from(s, i + 1, ScanMode::Csi { start }, visible, max)
                }
            },
            ScanMode::StrControl { osc } => {
                if osc && s[i] == '\x07' {
                    ansi_from(s, i + 1, ScanMode::Text, visible, max)
                } else if s[i] == '\x1b' && i + 1 < s.len() && s[i + 1] == '\\' {
                    ansi_from(s, i + 2, ScanMode::Text, visible, max)
                } else {
                    ansi_from(s, i + 1, ScanMode::StrControl { osc }, visible, max)
                }
            },
            ScanMode::SkipByte => {
                if (s[i] as u32) < 0x80 {
                    ansi_from(s, i + 1, ScanMode::Text, visible, max)
                } else if visible >= max {
                    Some(Seq::empty())
                } else {
                    None
                }
            },
        }
    }
}

pub open spec fn reset_sgr() -> Seq<char> {
    "\x1b[0m"@
}

/// `s` cut to `max` visible cells, with only its SGR sequences (`ESC [ ... m`)
/// kept, followed by a reset; `None` where cutting would panic.
pub open spec fn spec_visible_truncate(s: Seq<char>, max: nat) -> Option<Seq<char>> {
    match ansi_from(s, 0, ScanMode::Text, 0, max) {
        Some(o) => Some(o + reset_sgr()),
        None => None,
    }
}

/// `visible_truncate_ansi` does not panic on `s` with limit `max`: the
/// byte-wise scan never has to skip a single byte of a multi-byte character
/// while cells remain.
pub open spec fn truncates_cleanly(s: Seq<char>, max: nat) -> bool {
    ansi_from(s, 0, ScanMode::Text, 0, max) is Some
}

fn is_string_control_intro_exec(c: char) -> (r: bool)
    ensures
        r == is_string_control_intro(c),
{
    c == ']' || c == 'P' || c == '_' || c == '^' || c == 'X'
}

fn is_charset_intro_exec(c: char) -> (r: bool)
    ensures
        r == is_charset_intro(c),
{
    c == '(' || c == ')' || c == '*' || c == '+' || c == '-' || c == '.' || c == '/'
}

pub open spec fn opt_text(o: Option<String>) -> Option<Seq<char>> {
    match o {
        Some(s) => Some(s@),
        None => None,
    }
}

/// The cut of `visible_truncate_ansi`, or nothing on the inputs on which
/// that scan would slice into a multi-byte character.
pub fn try_visible_truncate(s: &str, max: usize) -> (r: Option<String>)
    ensures
        opt_text(r) == spec_visible_truncate(s@, max as nat),
{
    let v = chars_bounded(s);
    let ghost full = ansi_from(v@, 0, ScanMode::Text, 0, max as nat);
    let mut out = String::new();
    let mut i: usize = 0;
    let mut visible: usize = 0;
    let mut done = false;
    assert(prepend(out@, full) == full) by {
        assert(out@ + full.unwrap() =~= full.unwrap());
    }
    assert(out@ + Seq::<char>::empty() =~= out@);
    while i < v.len() && !done
        invariant
            i <= v@.len(),
            visible <= max,
            v@ == s@,
            full == ansi_from(v@, 0, ScanMode::Text, 0, max as nat),
            !done ==> full == prepend(
                out@,
                ansi_from(v@, i as int, ScanMode::Text, visible as nat, max as nat),
            ),
            done ==> full == Some(out@),
        decreases v.len() - i, if done {
            0int
        } else {
            1int
        },
    {
        let ghost here = ansi_from(v@, i as int, ScanMode::Text, visible as nat, max as nat);
        assert(out@ + Seq::<char>::empty() =~= out@);
        if v[i] == '\x1b' {
            if i + 1 >= v.len() {
                assert(here == Some(Seq::<char>::empty()));
                done = true;
            } else {
                let n = v[i + 1];
                if n == '[' {
                    let start = i;
                    let mut j = i + 2;
                    let mut found = false;
                    assert(here == ansi_from(
                        v@,
                        j as int,
                        ScanMode::Csi { start: start as int },
                        visible as nat,
                        max as nat,
                    ));
                    while j < v.len() && !found
                        invariant
                            start + 2 <= j <= v@.len(),
                            start == i,
                            visible <= max,
                            !found ==> full == prepend(
                                out@,
                                ansi_from(
                                    v@,
                                    j as int,
                                    ScanMode::Csi { start: start as int },
                                    visible as nat,
                                    max as nat,
                                ),
                            ),
                            found ==> full == prepend(
                                out@,
                                ansi_from(v@, j as int, ScanMode::Text, visible as nat, max as nat),
                            ),
                        decreases v.len() - j,
                    {
                        let b = v[j];
                        if 0x40 <= (b as u32) && (b as u32) <= 0x7e {
                            if b == 'm' {
                                let ghost before = out@;
                                push_range(&mut out, &v, start, j + 1);
                                proof {
                                    let rest = ansi_from(
                                        v@,
                                        j + 1,
                                        ScanMode::Text,
                                        visible as nat,
                                        max as nat,
                                    );
                                    if rest is Some {
                                        assert(before + (v@.subrange(start as int, j + 1)
                                            + rest.unwrap()) =~= out@ + rest.unwrap());
                                    }
                                }
                            }
                            found = true;
                        }
                        j += 1;
                    }
                    if !found {
                        assert(ansi_from(
                            v@,
                            j as int,
                            ScanMode::Csi { start: start as int },
                            visible as nat,
                            max as nat,
                        ) == ansi_from(v@, j as int, ScanMode::Text, visible as nat, max as nat));
                    }
                    i = j;
                } else if is_string_control_intro_exec(n) {
                    let osc = n == ']';
                    let mut j = i + 2;
                    let mut found = false;
                    assert(here == ansi_from(
                        v@,
                        j as int,
                        ScanMode::StrControl { osc },
                        visible as nat,
                        max as nat,
                    ));
                    while j < v.len() && !found
                        invariant
                            i + 2 <= j <= v@.len(),
                            visible <= max,
                            !found ==> full == prepend(
                                out@,
                                ansi_from(
                                    v@,
                                    j as int,
                                    ScanMode::StrControl { osc },
                                    visible as nat,
                                    max as nat,
                                ),
                            ),
                            found ==> full == prepend(
                                out@,
                                ansi_from(v@, j as int, ScanMode::Text, visible as nat, max as nat),
                            ),
                        decreases v.len() - j,
                    {
                        if osc && v[j] == '\x07' {
                            j += 1;
                            found = true;
                        } else if v[j] == '\x1b' && j + 1 < v.len() && v[j + 1] == '\\' {
                            j += 2;
                            found = true;
                        } else {
                            j += 1;
                        }
                    }
                    if !found {
                        assert(ansi_from(
                            v@,
                            j as int,
                            ScanMode::StrControl { osc },
                            visible as nat,
                            max as nat,
                        ) == ansi_from(v@, j as int, ScanMode::Text, visible as nat, max as nat));
                    }
                    i = j;
                } else {
                    let k = if is_charset_intro_exec(n) {
                        i + 2
                    } else {
                        i + 1
                    };
                    assert(here == ansi_from(
                        v@,
                        k as int,
                        ScanMode::SkipByte,
                        visible as nat,
                        max as nat,
                    ));
                    if k >= v.len() {
                        i = v.len();
                    } else if (v[k] as u32) < 0x80 {
                        i = k + 1;
                    } else if visible >= max {
                        assert(here == Some(Seq::<char>::empty()));
                        done = true;
                    } else {
                        assert(here is None);
                        return None;
                    }
                }
            }
        } else {
            if visible >= max {
                assert(here == Some(Seq::<char>::empty()));
                done = true;
            } else {
                let ch = v[i];
                let d = if ch == '\t' {
                    ' '
                } else {
                    ch
                };
                let cw = char_width(d);
                if cw == 0 && is_control(d) {
                    i += 1;
                } else if cw > max - visible {
                    assert(here == Some(Seq::<char>::empty()));
                    done = true;
                } else {
                    let ghost before = out@;
                    push_char(&mut out, d);
                    proof {
                        let rest = ansi_from(
                            v@,
                            i + 1,
                            ScanMode::Text,
                            (visible + cw) as nat,
                            max as nat,
                        );
                        if rest is Some {
                            assert(before + (seq![d] + rest.unwrap()) =~= out@ + rest.unwrap());
                        }
                    }
                    visible += cw;
                    i += 1;
                }
            }
        }
    }
    proof {
        if !done {
            assert(out@ + Seq::<char>::empty() =~= out@);
        }
    }
    push_str(&mut out, "\x1b[0m");
    Some(out)
}

/// Whether `visible_truncate_ansi` can cut `s` to `max` cells.
pub fn truncates_cleanly_exec(s: &str, max: usize) -> (r: bool)
    ensures
        r == truncates_cleanly(s@, max as nat),
{
    try_visible_truncate(s, max).is_some()
}

/// Cuts `s` to at most `max` visible cells. SGR colour sequences are kept;
/// every other escape sequence (cursor movement, OSC titles, DCS payloads,
/// character set selection) is dropped; a reset `ESC [0m` ends the result.
pub fn visible_truncate_ansi(s: &str, max: usize) -> (r: String)
    requires
        truncates_cleanly(s@, max as nat),
    ensures
        spec_visible_truncate(s@, max as nat) == Some(r@),
{
    match try_visible_truncate(s, max) {
        Some(r) => r,
        None => String::new(),
    }
}

// ---------------------------------------------------------------------------
// what the cuts keep
proof fn lemma_width_cons(c: char, t: Seq<char>)
    requires
        c != '\x1b',
    ensures
        width_from(seq![c] + t, false) == (if c == '\t' {
            1
        } else {
            spec_char_width(c)
        }) + width_from(t, false),
{
    assert((seq![c] + t)[0] == c);
    assert((seq![c] + t).drop_first() =~= t);
}

proof fn lemma_stripped_width(s: Seq<char>, e: bool)
    ensures
        width_from(stripped_from(s, e), false) == width_from(s, e),
    decreases s.len(),
{
    if s.len() > 0 {
        let c = s[0];
        if e {
            lemma_stripped_width(s.drop_first(), !ends_escape(c));
        } else if c == '\x1b' {
            lemma_stripped_width(s.drop_first(), true);
        } else {
            lemma_stripped_width(s.drop_first(), false);
            lemma_width_cons(c, stripped_from(s.drop_first(), false));
        }
    }
}

/// Removing the escape sequences does not change how wide a text shows.
pub proof fn law_strip_keeps_width(s: Seq<char>)
    ensures
        spec_text_width(spec_strip_ansi(s)) == spec_text_width(s),
{
    lemma_stripped_width(s, false);
}

proof fn lemma_plain_fits(s: Seq<char>, width: nat, max: nat)
    requires
        width <= max,
    ensures
        width + width_from(plain_from(s, width, max), false) <= max,
    decreases s.len(),
{
    if s.len() > 0 {
        let d = display_char(s[0]);
        let cw = spec_char_width(d);
        if cw == 0 && is_control_char(d) {
            lemma_plain_fits(s.drop_first(), width, max);
        } else if width + cw <= max {
            lemma_plain_fits(s.drop_first(), width + cw, max);
            lemma_width_cons(d, plain_from(s.drop_first(), width + cw, max));
        }
    }
}

/// `plain_truncate` never gives more than `max` cells.
pub proof fn law_plain_truncate_fits(s: Seq<char>, max: nat)
    ensures
        spec_text_width(spec_plain_truncate(s, max)) <= max,
{
    lemma_plain_fits(s, 0, max);
}

/// An SGR sequence (`ESC`, then characters none of which ends an escape,
/// then `m`) has no width.
proof fn lemma_escape_width(p: Seq<char>, x: Seq<char>)
    requires
        forall|k: int| 0 <= k < p.len() ==> !ends_escape(#[trigger] p[k]),
    ensures
        width_from(p + seq!['m'] + x, true) == width_from(x, false),
    decreases p.len(),
{
    if p.len() == 0 {
        assert((p + seq!['m'] + x)[0] == 'm');
        assert((p + seq!['m'] + x).drop_first() =~= x);
    } else {
        assert((p + seq!['m'] + x)[0] == p[0]);
        assert((p + seq!['m'] + x).drop_first() =~= p.drop_first() + seq!['m'] + x);
        lemma_escape_width(p.drop_first(), x);
    }
}

/// Where `ansi_from` is in a CSI sequence begun at `start`, everything read
/// of it so far leaves the escape open.
pub open spec fn csi_open(s: Seq<char>, i: int, mode: ScanMode) -> bool {
    match mode {
        ScanMode::Csi { start } => {
            &&& 0 <= start
            &&& start + 2 <= i <= s.len()
            &&& s[start] == '\x1b'
            &&& forall|k: int| start < k < i ==> !ends_escape(#[trigger] s[k])
        },
        _ => true,
    }
}

proof fn lemma_ansi_fits(s: Seq<char>, i: int, mode: ScanMode, visible: nat, max: nat, t: Seq<char>)
    requires
        visible <= max,
        0 <= i,
        csi_open(s, i, mode),
    ensures
        ansi_from(s, i, mode, visible, max) matches Some(o) ==> visible + width_from(o + t, false)
            <= max + width_from(t, false),
    decreases s.len() - i,
{
    if i < s.len() {
        match mode {
            ScanMode::Text => {
                let c = s[i];
                if c == '\x1b' {
                    if i + 1 < s.len() {
                        let n = s[i + 1];
                        if n == '[' {
                            lemma_ansi_fits(s, i + 2, ScanMode::Csi { start: i }, visible, max, t);
                        } else if is_string_control_intro(n) {
                            lemma_ansi_fits(s, i + 2, ScanMode::StrControl { osc: n == ']' }, visible, max, t);
                        } else if is_charset_intro(n) {
                            lemma_ansi_fits(s, i + 2, ScanMode::SkipByte, visible, max, t);
                        } else {
                            lemma_ansi_fits(s, i + 1, ScanMode::SkipByte, visible, max, t);
                        }
                    }
                } else if visible < max {
                    let d = display_char(c);
                    let cw = spec_char_width(d);
                    if cw == 0 && is_control_char(d) {
                        lemma_ansi_fits(s, i + 1, ScanMode::Text, visible, max, t);
                    } else if visible + cw <= max {
                        lemma_ansi_fits(s, i + 1, ScanMode::Text, visible + cw, max, t);
                        if let Some(o) = ansi_from(s, i + 1, ScanMode::Text, visible + cw, max) {
                            assert(seq![d] + o + t =~= seq![d] + (o + t));
                            lemma_width_cons(d, o + t);
                        }
                    }
                }
            },
            ScanMode::Csi { start } => {
                let b = s[i];
                if is_csi_final(b) {
                    lemma_ansi_fits(s, i + 1, ScanMode::Text, visible, max, t);
                    if b == 'm' {
                        if let Some(o) = ansi_from(s, i + 1, ScanMode::Text, visible, max) {
                            let p = s.subrange(start + 1, i);
                            assert forall|k: int| 0 <= k < p.len() implies !ends_escape(#[trigger] p[k]) by {
                                assert(p[k] == s[start + 1 + k]);
                            }
                            lemma_escape_width(p, o + t);
                            assert(s.subrange(start, i + 1) + o + t =~= seq!['\x1b'] + (p + seq!['m'] + (o
                                + t)));
                            assert((seq!['\x1b'] + (p + seq!['m'] + (o + t)))[0] == '\x1b');
                            assert((seq!['\x1b'] + (p + seq!['m'] + (o + t))).drop_first() =~= p + seq!['m']
                                + (o + t));
                        }
                    }
                } else {
                    assert(!ends_escape(b));
                    lemma_ansi_fits(s, i + 1, ScanMode::Csi { start }, visible, max, t);
                }
            },
            ScanMode::StrControl { osc } => {
                if osc && s[i] == '\x07' {
                    lemma_ansi_fits(s, i + 1, ScanMode::Text, visible, max, t);
                } else if s[i] == '\x1b' && i + 1 < s.len() && s[i + 1] == '\\' {
                    lemma_ansi_fits(s, i + 2, ScanMode::Text, visible, max, t);
                } else {
                    lemma_ansi_fits(s, i + 1, ScanMode::StrControl { osc }, visible, max, t);
                }
            },
            ScanMode::SkipByte => {
                if (s[i] as u32) < 0x80 {
                    lemma_ansi_fits(s, i + 1, ScanMode::Text, visible, max, t);
                }
            },
        }
    }
}

/// The cut of `visible_truncate_ansi` never shows more than `max` cells:
/// the colour sequences it keeps and the closing reset have no width.
pub proof fn law_visible_truncate_fits(s: Seq<char>, max: nat)
    ensures
        spec_visible_truncate(s, max) matches Some(o) ==> spec_text_width(o) <= max,
{
    let t = reset_sgr();
    lemma_ansi_fits(s, 0, ScanMode::Text, 0, max, t);
    reveal_strlit("\x1b[0m");
    let t3 = seq!['m'];
    let t2 = seq!['0', 'm'];
    let t1 = seq!['[', '0', 'm'];
    assert(t3.drop_first() =~= Seq::<char>::empty());
    assert(t3[0] == 'm' && ends_escape('m'));
    assert(width_from(Seq::<char>::empty(), false) == 0);
    assert(width_from(t3, true) == 0);
    assert(t2.drop_first() =~= t3);
    assert(width_from(t2, true) == 0);
    assert(t1.drop_first() =~= t2);
    assert(width_from(t1, true) == 0);
    assert(t.drop_first() =~= t1);
    assert(width_from(t, false) == 0);
}

/// Whether an escape sequence is still open after `s`, read from state `e`.
pub open spec fn escape_open_after(s: Seq<char>, e: bool) -> bool
    decreases s.len(),
{
    if s.len() == 0 {
        e
    } else if e {
        escape_open_after(s.drop_first(), !ends_escape(s[0]))
    } else {
        escape_open_after(s.drop_first(), s[0] == '\x1b')
    }
}

/// The width of two texts one after the other.
pub proof fn lemma_width_concat(a: Seq<char>, b: Seq<char>, e: bool)
    ensures
        width_from(a + b, e) == width_from(a, e) + width_from(b, escape_open_after(a, e)),
    decreases a.len(),
{
    if a.len() == 0 {
        assert(a + b =~= b);
    } else {
        assert((a + b)[0] == a[0]);
        assert((a + b).drop_first() =~= a.drop_first() + b);
        lemma_width_concat(a.drop_first(), b, !ends_escape(a[0]));
        lemma_width_concat(a.drop_first(), b, a[0] == '\x1b');
        lemma_width_concat(a.drop_first(), b, false);
    }
}

/// `n` spaces are `n` cells wide.
pub proof fn lemma_spaces_width(n: nat)
    ensures
        width_from(crate::strs::spaces(n), false) == n,
    decreases n,
{
    if n > 0 {
        lemma_spaces_width((n - 1) as nat);
        assert(crate::strs::spaces(n).drop_first() =~= crate::strs::spaces((n - 1) as nat));
    }
}

/// No escape sequence is open after a text that ends with the reset.
pub proof fn lemma_reset_closes(o: Seq<char>, e: bool)
    ensures
        !escape_open_after(o + reset_sgr(), e),
    decreases o.len(),
{
    reveal_strlit("\x1b[0m");
    let t = reset_sgr();
    if o.len() == 0 {
        assert(o + t =~= t);
        let t1 = seq!['[', '0', 'm'];
        let t2 = seq!['0', 'm'];
        let t3 = seq!['m'];
        assert(t.drop_first() =~= t1);
        assert(t1.drop_first() =~= t2);
        assert(t2.drop_first() =~= t3);
        assert(t3.drop_first() =~= Seq::<char>::empty());
        assert(t3[0] == 'm' && ends_escape('m'));
        assert(!escape_open_after(Seq::<char>::empty(), false));
        assert(!escape_open_after(t3, true));
        assert(escape_open_after(t2, true) == escape_open_after(t3, true));
        assert(escape_open_after(t1, true) == escape_open_after(t2, true));
        assert(escape_open_after(t, e) == escape_open_after(t1, true));
    } else {
        assert((o + t)[0] == o[0]);
        assert((o + t).drop_first() =~= o.drop_first() + t);
        lemma_reset_closes(o.drop_first(), !ends_escape(o[0]));
        lemma_reset_closes(o.drop_first(), o[0] == '\x1b');
    }
}

/// Reading `a` then `b` leaves the escape state that reading `b` leaves
/// from where `a` left off.
pub proof fn lemma_open_concat(a: Seq<char>, b: Seq<char>, e: bool)
    ensures
        escape_open_after(a + b, e) == escape_open_after(b, escape_open_after(a, e)),
    decreases a.len(),
{
    if a.len() == 0 {
        assert(a + b =~= b);
    } else {
        assert((a + b)[0] == a[0]);
        assert((a + b).drop_first() =~= a.drop_first() + b);
        lemma_open_concat(a.drop_first(), b, !ends_escape(a[0]));
        lemma_open_concat(a.drop_first(), b, a[0] == '\x1b');
    }
}

/// After a text that closes its escape sequences, widths add up.
pub proof fn lemma_closed_concat(a: Seq<char>, b: Seq<char>)
    requires
        !escape_open_after(a, false),
    ensures
        width_from(a + b, false) == width_from(a, false) + width_from(b, false),
        escape_open_after(a + b, false) == escape_open_after(b, false),
{
    lemma_width_concat(a, b, false);
    lemma_open_concat(a, b, false);
}

/// Spaces open no escape sequence.
pub proof fn lemma_spaces_closed(n: nat)
    ensures
        !escape_open_after(crate::strs::spaces(n), false),
    decreases n,
{
    if n > 0 {
        lemma_spaces_closed((n - 1) as nat);
        assert(crate::strs::spaces(n).drop_first() =~= crate::strs::spaces((n - 1) as nat));
    }
}

/// An SGR sequence: `ESC`, its parameters, `m`.
pub open spec fn sgr(params: Seq<char>) -> Seq<char> {
    seq!['\x1b'] + params + seq!['m']
}

proof fn lemma_escape_open(p: Seq<char>, x: Seq<char>)
    requires
        forall|k: int| 0 <= k < p.len() ==> !ends_escape(#[trigger] p[k]),
    ensures
        escape_open_after(p + seq!['m'] + x, true) == escape_open_after(x, false),
    decreases p.len(),
{
    if p.len() == 0 {
        assert((p + seq!['m'] + x)[0] == 'm');
        assert((p + seq!['m'] + x).drop_first() =~= x);
    } else {
        assert((p + seq!['m'] + x)[0] == p[0]);
        assert((p + seq!['m'] + x).drop_first() =~= p.drop_first() + seq!['m'] + x);
        lemma_escape_open(p.drop_first(), x);
    }
}

/// An SGR sequence has no width and closes itself.
pub proof fn lemma_sgr(params: Seq<char>)
    requires
        forall|k: int| 0 <= k < params.len() ==> !ends_escape(#[trigger] params[k]),
    ensures
        width_from(sgr(params), false) == 0,
        !escape_open_after(sgr(params), false),
{
    let t = sgr(params);
    let e = Seq::<char>::empty();
    assert(t[0] == '\x1b');
    assert(t.drop_first() =~= params + seq!['m'] + e);
    lemma_escape_width(params, e);
    lemma_escape_open(params, e);
}

/// A cut padded with spaces to `n` cells is exactly `n` cells wide and
/// leaves no escape sequence open.
pub proof fn lemma_padded_cut(s: Seq<char>, n: nat)
    ensures
        spec_visible_truncate(s, n) matches Some(c) ==> {
            let pad: nat = if spec_text_width(c) < n {
                (n - spec_text_width(c)) as nat
            } else {
                0
            };
            &&& spec_text_width(c + crate::strs::spaces(pad)) == n
            &&& !escape_open_after(c + crate::strs::spaces(pad), false)
        },
{
    if let Some(c) = spec_visible_truncate(s, n) {
        law_visible_truncate_fits(s, n);
        let o = match ansi_from(s, 0, ScanMode::Text, 0, n) {
            Some(o) => o,
            None => Seq::empty(),
        };
        lemma_reset_closes(o, false);
        let pad: nat = (n - spec_text_width(c)) as nat;
        lemma_closed_concat(c, crate::strs::spaces(pad));
        lemma_spaces_width(pad);
        lemma_spaces_closed(pad);
    }
}

} // verus!
