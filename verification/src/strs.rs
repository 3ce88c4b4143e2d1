use vstd::prelude::*;
use vstd::string::*;

verus! {

/// `String::push`: appends one character.
#[verifier::external_body]
pub fn push_char(s: &mut String, c: char)
    ensures
        final(s)@ == old(s)@.push(c),
{
    s.push(c);
}

/// The characters of `s`, in order.
pub fn chars_of(s: &str) -> (v: Vec<char>)
    ensures
        v@ == s@,
{
    let mut v: Vec<char> = Vec::new();
    for c in it: s.chars()
        invariant
            v@ == it.seq().take(it.index() as int),
    {
        v.push(c);
    }
    v
}

/// A string holding `v[lo..hi]`.
pub fn string_of_range(v: &Vec<char>, lo: usize, hi: usize) -> (s: String)
    requires
        lo <= hi <= v.len(),
    ensures
        s@ == v@.subrange(lo as int, hi as int),
{
    let mut s = String::new();
    let mut i = lo;
    while i < hi
        invariant
            lo <= i <= hi <= v.len(),
            s@ == v@.subrange(lo as int, i as int),
        decreases hi - i,
    {
        push_char(&mut s, v[i]);
        i += 1;
        assert(s@ =~= v@.subrange(lo as int, i as int));
    }
    s
}

pub fn string_of(v: &Vec<char>) -> (s: String)
    ensures
        s@ == v@,
{
    let s = string_of_range(v, 0, v.len());
    assert(v@.subrange(0, v.len() as int) =~= v@);
    s
}

pub fn push_str(s: &mut String, t: &str)
    ensures
        final(s)@ == old(s)@ + t@,
{
    s.append(t);
}

/// The length of `s` in bytes.
pub fn byte_len(s: &str) -> (n: usize)
    ensures
        n == s.spec_bytes().len(),
{
    s.as_bytes().len()
}

/// The characters of `s`, together with the fact that their UTF-8 encoding
/// fits in memory.
pub fn chars_bounded(s: &str) -> (v: Vec<char>)
    ensures
        v@ == s@,
        vstd::utf8::encode_utf8(v@).len() <= usize::MAX,
{
    // the byte count is a `usize`, so the encoding's length fits in one
    let _n: usize = byte_len(s);
    chars_of(s)
}

/// A run of `n` spaces.
pub open spec fn spaces(n: nat) -> Seq<char> {
    Seq::new(n, |_i: int| ' ')
}

pub fn push_spaces(s: &mut String, n: usize)
    ensures
        final(s)@ == old(s)@ + spaces(n as nat),
{
    let mut i: usize = 0;
    while i < n
        invariant
            i <= n,
            s@ == old(s)@ + spaces(i as nat),
        decreases n - i,
    {
        push_char(s, ' ');
        i += 1;
        assert(s@ =~= old(s)@ + spaces(i as nat));
    }
}

/// Appends `v[lo..hi]` to `s`.
pub fn push_range(s: &mut String, v: &Vec<char>, lo: usize, hi: usize)
    requires
        lo <= hi <= v.len(),
    ensures
        final(s)@ == old(s)@ + v@.subrange(lo as int, hi as int),
{
    let mut i = lo;
    while i < hi
        invariant
            lo <= i <= hi <= v.len(),
            s@ == old(s)@ + v@.subrange(lo as int, i as int),
        decreases hi - i,
    {
        push_char(s, v[i]);
        i += 1;
        assert(s@ =~= old(s)@ + v@.subrange(lo as int, i as int));
    }
}

pub fn lit(t: &str) -> (s: String)
    ensures
        s@ == t@,
{
    String::from_str(t)
}


/// `char::is_whitespace`: the Unicode `White_Space` characters.
pub open spec fn is_ws(c: char) -> bool {
    let u = c as u32;
    (0x09 <= u && u <= 0x0d) || u == 0x20 || u == 0x85 || u == 0xa0 || u == 0x1680 || (0x2000
        <= u && u <= 0x200a) || u == 0x2028 || u == 0x2029 || u == 0x202f || u == 0x205f || u
        == 0x3000
}

pub fn is_whitespace(c: char) -> (r: bool)
    ensures
        r == is_ws(c),
{
    let u = c as u32;
    (0x09 <= u && u <= 0x0d) || u == 0x20 || u == 0x85 || u == 0xa0 || u == 0x1680 || (0x2000
        <= u && u <= 0x200a) || u == 0x2028 || u == 0x2029 || u == 0x202f || u == 0x205f || u
        == 0x3000
}

/// `str::trim_start`.
pub open spec fn trim_start(s: Seq<char>) -> Seq<char>
    decreases s.len(),
{
    if s.len() > 0 && is_ws(s[0]) {
        trim_start(s.drop_first())
    } else {
        s
    }
}

/// `str::trim_end`.
pub open spec fn trim_end(s: Seq<char>) -> Seq<char>
    decreases s.len(),
{
    if s.len() > 0 && is_ws(s.last()) {
        trim_end(s.drop_last())
    } else {
        s
    }
}

/// `str::trim`.
pub open spec fn trim(s: Seq<char>) -> Seq<char> {
    trim_end(trim_start(s))
}

/// `str::trim`.
pub fn trimmed(s: &str) -> (r: String)
    ensures
        r@ == trim(s@),
{
    let v = chars_of(s);
    let mut lo: usize = 0;
    assert(v@.skip(0) =~= v@);
    while lo < v.len() && is_whitespace(v[lo])
        invariant
            lo <= v@.len(),
            trim_start(v@) == trim_start(v@.skip(lo as int)),
            v@ == s@,
        decreases v.len() - lo,
    {
        assert(v@.skip(lo as int).drop_first() =~= v@.skip(lo + 1));
        lo += 1;
    }
    let mut hi: usize = v.len();
    assert(v@.subrange(lo as int, v.len() as int) =~= v@.skip(lo as int));
    while hi > lo && is_whitespace(v[hi - 1])
        invariant
            lo <= hi <= v@.len(),
            trim_end(trim_start(v@)) == trim_end(v@.subrange(lo as int, hi as int)),
            trim_start(v@) == v@.skip(lo as int),
        decreases hi,
    {
        assert(v@.subrange(lo as int, hi as int).drop_last() =~= v@.subrange(lo as int, hi - 1));
        hi -= 1;
    }
    string_of_range(&v, lo, hi)
}

/// The pieces of `s` between occurrences of `sep`, `cur` being the piece read
/// so far (`str::split` with a `char` pattern).
pub open spec fn split_from(s: Seq<char>, sep: char, cur: Seq<char>) -> Seq<Seq<char>>
    decreases s.len(),
{
    if s.len() == 0 {
        seq![cur]
    } else if s[0] == sep {
        seq![cur] + split_from(s.drop_first(), sep, Seq::empty())
    } else {
        split_from(s.drop_first(), sep, cur.push(s[0]))
    }
}

/// `str::split(sep)`: never empty; `""` gives one empty piece.
pub open spec fn split(s: Seq<char>, sep: char) -> Seq<Seq<char>> {
    split_from(s, sep, Seq::empty())
}

pub open spec fn views(v: Seq<String>) -> Seq<Seq<char>> {
    v.map_values(|x: String| x@)
}

/// `s.split(sep)`, each piece as a `String`.
pub fn split_char(s: &str, sep: char) -> (r: Vec<String>)
    ensures
        views(r@) == split(s@, sep),
{
    let v = chars_of(s);
    let mut out: Vec<String> = Vec::new();
    let mut cur = String::new();
    let mut i: usize = 0;
    assert(v@.skip(0) =~= v@);
    assert(views(out@) + split(v@, sep) =~= split(v@, sep));
    while i < v.len()
        invariant
            i <= v@.len(),
            v@ == s@,
            views(out@) + split_from(v@.skip(i as int), sep, cur@) == split(v@, sep),
        decreases v.len() - i,
    {
        let c = v[i];
        assert(v@.skip(i as int).drop_first() =~= v@.skip(i + 1));
        if c == sep {
            let ghost before = views(out@);
            let piece = cur;
            out.push(piece);
            cur = String::new();
            assert(views(out@) =~= before.push(piece@));
            assert(before + (seq![piece@] + split_from(v@.skip(i + 1), sep, Seq::empty()))
                =~= views(out@) + split_from(v@.skip(i + 1), sep, cur@));
        } else {
            push_char(&mut cur, c);
        }
        i += 1;
    }
    let ghost before = views(out@);
    let piece = cur;
    out.push(piece);
    assert(views(out@) =~= before.push(piece@));
    assert(before + seq![piece@] =~= views(out@));
    out
}

/// `cur` without one trailing carriage return.
pub open spec fn strip_cr(cur: Seq<char>) -> Seq<char> {
    if cur.len() > 0 && cur.last() == '\r' {
        cur.drop_last()
    } else {
        cur
    }
}

/// The lines of `s` from the front, `cur` being the line read so far
/// (`str::lines`).
pub open spec fn lines_from(s: Seq<char>, cur: Seq<char>) -> Seq<Seq<char>>
    decreases s.len(),
{
    if s.len() == 0 {
        if cur.len() == 0 {
            Seq::empty()
        } else {
            seq![cur]
        }
    } else if s[0] == '\n' {
        seq![strip_cr(cur)] + lines_from(s.drop_first(), Seq::empty())
    } else {
        lines_from(s.drop_first(), cur.push(s[0]))
    }
}

/// `str::lines`: pieces ended by `\n` (one `\r` before it dropped too); a
/// final `\n` starts no further line.
pub open spec fn lines(s: Seq<char>) -> Seq<Seq<char>> {
    lines_from(s, Seq::empty())
}

fn without_cr(cur: String) -> (r: String)
    ensures
        r@ == strip_cr(cur@),
{
    let v = chars_of(cur.as_str());
    if v.len() > 0 && v[v.len() - 1] == '\r' {
        let r = string_of_range(&v, 0, v.len() - 1);
        assert(v@.subrange(0, v.len() - 1) =~= v@.drop_last());
        r
    } else {
        cur
    }
}

/// `s.lines()`, each line as a `String`.
pub fn split_lines(s: &str) -> (r: Vec<String>)
    ensures
        views(r@) == lines(s@),
{
    let v = chars_of(s);
    let mut out: Vec<String> = Vec::new();
    let mut cur = String::new();
    let mut i: usize = 0;
    assert(v@.skip(0) =~= v@);
    assert(views(out@) + lines(v@) =~= lines(v@));
    while i < v.len()
        invariant
            i <= v@.len(),
            v@ == s@,
            views(out@) + lines_from(v@.skip(i as int), cur@) == lines(v@),
        decreases v.len() - i,
    {
        let c = v[i];
        assert(v@.skip(i as int).drop_first() =~= v@.skip(i + 1));
        if c == '\n' {
            let ghost before = views(out@);
            let piece = without_cr(cur);
            let ghost pv = piece@;
            out.push(piece);
            cur = String::new();
            assert(views(out@) =~= before.push(pv));
            assert(before + (seq![pv] + lines_from(v@.skip(i + 1), Seq::empty())) =~= views(out@)
                + lines_from(v@.skip(i + 1), cur@));
        } else {
            push_char(&mut cur, c);
        }
        i += 1;
    }
    assert(v@.skip(i as int).len() == 0);
    if cur.as_str().is_empty() {
        assert(views(out@) + Seq::<Seq<char>>::empty() =~= views(out@));
    } else {
        let ghost before = views(out@);
        let piece = cur;
        out.push(piece);
        assert(views(out@) =~= before.push(piece@));
        assert(before + seq![piece@] =~= views(out@));
    }
    out
}

pub fn eq_str(a: &str, b: &str) -> (r: bool)
    ensures
        r == (a@ == b@),
{
    let x = chars_of(a);
    let y = chars_of(b);
    if x.len() != y.len() {
        return false;
    }
    let mut i: usize = 0;
    while i < x.len()
        invariant
            i <= x.len() == y.len(),
            x@ == a@,
            y@ == b@,
            forall|k: int| 0 <= k < i ==> x@[k] == y@[k],
        decreases x.len() - i,
    {
        if x[i] != y[i] {
            return false;
        }
        i += 1;
    }
    assert(x@ =~= y@);
    true
}

pub open spec fn starts_with(s: Seq<char>, p: Seq<char>) -> bool {
    p.len() <= s.len() && s.subrange(0, p.len() as int) == p
}

pub fn has_prefix(s: &str, p: &str) -> (r: bool)
    ensures
        r == starts_with(s@, p@),
{
    let x = chars_of(s);
    let y = chars_of(p);
    if y.len() > x.len() {
        return false;
    }
    let mut i: usize = 0;
    while i < y.len()
        invariant
            i <= y.len() <= x.len(),
            x@ == s@,
            y@ == p@,
            forall|k: int| 0 <= k < i ==> x@[k] == y@[k],
        decreases y.len() - i,
    {
        if x[i] != y[i] {
            assert(x@.subrange(0, y.len() as int)[i as int] != y@[i as int]);
            return false;
        }
        i += 1;
    }
    assert(x@.subrange(0, y.len() as int) =~= y@);
    true
}

pub fn contains_char(s: &str, c: char) -> (r: bool)
    ensures
        r == s@.contains(c),
{
    let x = chars_of(s);
    let mut i: usize = 0;
    while i < x.len()
        invariant
            i <= x.len(),
            x@ == s@,
            forall|k: int| 0 <= k < i ==> x@[k] != c,
        decreases x.len() - i,
    {
        if x[i] == c {
            return true;
        }
        i += 1;
    }
    false
}

pub fn is_empty_str(s: &str) -> (r: bool)
    ensures
        r == (s@.len() == 0),
{
    s.is_empty()
}

pub fn copy_string(s: &String) -> (r: String)
    ensures
        r == *s,
        r@ == s@,
{
    s.clone()
}

pub fn copy_strings(v: &Vec<String>) -> (r: Vec<String>)
    ensures
        r@ == v@,
{
    let mut out: Vec<String> = Vec::new();
    let mut i: usize = 0;
    while i < v.len()
        invariant
            i <= v.len(),
            out@ == v@.subrange(0, i as int),
        decreases v.len() - i,
    {
        out.push(copy_string(&v[i]));
        i += 1;
        assert(out@ =~= v@.subrange(0, i as int));
    }
    assert(v@.subrange(0, v.len() as int) =~= v@);
    out
}

/// Concatenation of two strings.
pub fn concat(a: &str, b: &str) -> (r: String)
    ensures
        r@ == a@ + b@,
{
    let mut s = lit(a);
    push_str(&mut s, b);
    s
}


/// The position of the first `c` in `s`.
pub open spec fn first_index(s: Seq<char>, c: char) -> Option<int>
    decreases s.len(),
{
    if s.len() == 0 {
        None
    } else if s[0] == c {
        Some(0)
    } else {
        match first_index(s.drop_first(), c) {
            Some(i) => Some(i + 1),
            None => None,
        }
    }
}

/// The position of the last `c` in `s`.
pub open spec fn last_index(s: Seq<char>, c: char) -> Option<int>
    decreases s.len(),
{
    if s.len() == 0 {
        None
    } else if s.last() == c {
        Some(s.len() - 1)
    } else {
        last_index(s.drop_last(), c)
    }
}

pub proof fn lemma_first_index(s: Seq<char>, c: char)
    ensures
        match first_index(s, c) {
            Some(i) => 0 <= i < s.len() && s[i] == c && forall|j: int| 0 <= j < i ==> s[j] != c,
            None => forall|j: int| 0 <= j < s.len() ==> s[j] != c,
        },
    decreases s.len(),
{
    if s.len() > 0 {
        lemma_first_index(s.drop_first(), c);
        if s[0] != c {
            match first_index(s.drop_first(), c) {
                Some(i) => {
                    assert forall|j: int| 0 <= j < i + 1 implies s[j] != c by {
                        if j > 0 {
                            assert(s[j] == s.drop_first()[j - 1]);
                        }
                    }
                },
                None => {
                    assert forall|j: int| 0 <= j < s.len() implies s[j] != c by {
                        if j > 0 {
                            assert(s[j] == s.drop_first()[j - 1]);
                        }
                    }
                },
            }
        }
    }
}

pub proof fn lemma_last_index(s: Seq<char>, c: char)
    ensures
        match last_index(s, c) {
            Some(i) => 0 <= i < s.len() && s[i] == c && forall|j: int| i < j < s.len() ==> s[j]
                != c,
            None => forall|j: int| 0 <= j < s.len() ==> s[j] != c,
        },
    decreases s.len(),
{
    if s.len() > 0 && s.last() != c {
        lemma_last_index(s.drop_last(), c);
        assert forall|j: int| 0 <= j < s.len() - 1 implies s.drop_last()[j] == s[j] by {}
    }
}

pub proof fn lemma_first_index_at(s: Seq<char>, c: char, i: int)
    requires
        0 <= i < s.len(),
        s[i] == c,
        forall|j: int| 0 <= j < i ==> s[j] != c,
    ensures
        first_index(s, c) == Some(i),
{
    lemma_first_index(s, c);
}

pub proof fn lemma_last_index_at(s: Seq<char>, c: char, i: int)
    requires
        0 <= i < s.len(),
        s[i] == c,
        forall|j: int| i < j < s.len() ==> s[j] != c,
    ensures
        last_index(s, c) == Some(i),
{
    lemma_last_index(s, c);
}

/// `s.split_once(c)`: the text before and after the first `c`.
pub open spec fn split_once(s: Seq<char>, c: char) -> Option<(Seq<char>, Seq<char>)> {
    match first_index(s, c) {
        Some(i) => Some((s.subrange(0, i), s.subrange(i + 1, s.len() as int))),
        None => None,
    }
}

/// `s.rsplit_once(c)`: the text before and after the last `c`.
pub open spec fn rsplit_once(s: Seq<char>, c: char) -> Option<(Seq<char>, Seq<char>)> {
    match last_index(s, c) {
        Some(i) => Some((s.subrange(0, i), s.subrange(i + 1, s.len() as int))),
        None => None,
    }
}

pub open spec fn pair_views(p: Option<(String, String)>) -> Option<(Seq<char>, Seq<char>)> {
    match p {
        Some((a, b)) => Some((a@, b@)),
        None => None,
    }
}

pub fn find_first(v: &Vec<char>, c: char) -> (r: Option<usize>)
    ensures
        match r {
            Some(i) => first_index(v@, c) == Some(i as int),
            None => first_index(v@, c) is None,
        },
{
    proof {
        lemma_first_index(v@, c);
    }
    let mut i: usize = 0;
    while i < v.len()
        invariant
            i <= v@.len(),
            forall|j: int| 0 <= j < i ==> v@[j] != c,
        decreases v.len() - i,
    {
        if v[i] == c {
            proof {
                lemma_first_index_at(v@, c, i as int);
            }
            return Some(i);
        }
        i += 1;
    }
    None
}

pub fn find_last(v: &Vec<char>, c: char) -> (r: Option<usize>)
    ensures
        match r {
            Some(i) => last_index(v@, c) == Some(i as int),
            None => last_index(v@, c) is None,
        },
{
    proof {
        lemma_last_index(v@, c);
    }
    let mut i: usize = v.len();
    while i > 0
        invariant
            i <= v@.len(),
            forall|j: int| i <= j < v@.len() ==> v@[j] != c,
        decreases i,
    {
        if v[i - 1] == c {
            proof {
                lemma_last_index_at(v@, c, i - 1);
            }
            return Some(i - 1);
        }
        i -= 1;
    }
    None
}

/// `s.split_once(c)`.
pub fn split_once_char(s: &str, c: char) -> (r: Option<(String, String)>)
    ensures
        pair_views(r) == split_once(s@, c),
{
    let v = chars_of(s);
    match find_first(&v, c) {
        Some(i) => {
            proof {
                lemma_first_index(v@, c);
            }
            Some((string_of_range(&v, 0, i), string_of_range(&v, i + 1, v.len())))
        },
        None => None,
    }
}

/// `s.rsplit_once(c)`.
pub fn rsplit_once_char(s: &str, c: char) -> (r: Option<(String, String)>)
    ensures
        pair_views(r) == rsplit_once(s@, c),
{
    let v = chars_of(s);
    match find_last(&v, c) {
        Some(i) => {
            proof {
                lemma_last_index(v@, c);
            }
            Some((string_of_range(&v, 0, i), string_of_range(&v, i + 1, v.len())))
        },
        None => None,
    }
}

pub open spec fn str_views(v: Seq<&str>) -> Seq<Seq<char>> {
    v.map_values(|x: &str| x@)
}

/// Owned copies of the strings of `v`.
pub fn to_strings(v: &[&str]) -> (r: Vec<String>)
    ensures
        views(r@) == str_views(v@),
{
    let mut out: Vec<String> = Vec::new();
    let mut i: usize = 0;
    while i < v.len()
        invariant
            i <= v@.len(),
            views(out@) == str_views(v@.take(i as int)),
        decreases v.len() - i,
    {
        let ghost before = views(out@);
        out.push(lit(v[i]));
        assert(str_views(v@.take(i + 1)) =~= before.push(v@[i as int]@));
        assert(views(out@) =~= before.push(v@[i as int]@));
        i += 1;
    }
    assert(v@.take(i as int) =~= v@);
    out
}

} // verus!
