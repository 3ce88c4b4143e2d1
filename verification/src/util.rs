use vstd::prelude::*;
use vstd::utf8::{decode_utf8, encode_utf8, valid_utf8};
use crate::strs::{lit, push_char, push_str, split, split_char, views};
use vstd::string::StringSliceAdditionalSpecFns;

verus! {

// ---------------------------------------------------------------------------
// session names
/// How one `/`-separated component of a session name is shown.
pub open spec fn display_component(c: Seq<char>) -> Seq<char> {
    if c == "__float"@ {
        "◫ float"@
    } else if c == "__agents"@ {
        "󰚩 agents"@
    } else {
        c
    }
}

/// `parts` joined with `sep` between neighbours.
pub open spec fn join_with(parts: Seq<Seq<char>>, sep: Seq<char>) -> Seq<char>
    decreases parts.len(),
{
    if parts.len() == 0 {
        Seq::empty()
    } else if parts.len() == 1 {
        parts[0]
    } else {
        join_with(parts.drop_last(), sep) + sep + parts.last()
    }
}

pub open spec fn spec_session_display_name(name: Seq<char>) -> Seq<char> {
    join_with(split(name, '/').map_values(|c: Seq<char>| display_component(c)), seq!['/'])
}

fn display_component_exec(c: &str) -> (r: String)
    ensures
        r@ == display_component(c@),
{
    if crate::strs::eq_str(c, "__float") {
        lit("◫ float")
    } else if crate::strs::eq_str(c, "__agents") {
        lit("󰚩 agents")
    } else {
        lit(c)
    }
}

/// The session name as shown: the components `__float` and `__agents` are
/// spelled out with their icons.
pub fn session_display_name(name: &str) -> (r: String)
    ensures
        r@ == spec_session_display_name(name@),
{
    let parts = split_char(name, '/');
    let ghost shown = views(parts@).map_values(|c: Seq<char>| display_component(c));
    let mut out = String::new();
    let mut i: usize = 0;
    while i < parts.len()
        invariant
            i <= parts@.len(),
            shown == views(parts@).map_values(|c: Seq<char>| display_component(c)),
            out@ == join_with(shown.take(i as int), seq!['/']),
        decreases parts.len() - i,
    {
        assert(shown.take(i + 1).drop_last() =~= shown.take(i as int));
        if i > 0 {
            push_char(&mut out, '/');
        } else {
            assert(out@ + Seq::<char>::empty() =~= out@);
        }
        let piece = display_component_exec(parts[i].as_str());
        push_str(&mut out, piece.as_str());
        i += 1;
        proof {
            if i == 1 {
                assert(out@ =~= shown.take(1)[0]);
            }
        }
    }
    assert(shown.take(parts@.len() as int) =~= shown);
    assert(split(name@, '/') == views(parts@));
    out
}

// ---------------------------------------------------------------------------
// hex encoding of names in the saved layout files
pub open spec fn hex_digit(n: u8) -> char {
    if n < 10 {
        (48 + n) as char
    } else {
        (87 + n) as char
    }
}

/// Two lowercase hex digits per byte.
pub open spec fn hex_of_bytes(b: Seq<u8>) -> Seq<char>
    decreases b.len(),
{
    if b.len() == 0 {
        Seq::empty()
    } else {
        seq![hex_digit(b[0] >> 4), hex_digit(b[0] & 15)] + hex_of_bytes(b.drop_first())
    }
}

/// The UTF-8 bytes of `s` in lowercase hex.
pub open spec fn spec_hex_encode(s: Seq<char>) -> Seq<char> {
    hex_of_bytes(encode_utf8(s))
}

fn hex_digit_exec(n: u8) -> (c: char)
    requires
        n < 16,
    ensures
        c == hex_digit(n),
{
    if n < 10 {
        (48 + n) as char
    } else {
        (87 + n) as char
    }
}

/// The UTF-8 bytes of `s` as lowercase hex, two digits a byte.
pub fn hex_encode(s: &str) -> (r: String)
    ensures
        r@ == spec_hex_encode(s@),
{
    let bytes = s.as_bytes();
    let ghost b = bytes@;
    let mut out = String::new();
    let mut i: usize = 0;
    assert(b.skip(0) =~= b);
    assert(out@ + hex_of_bytes(b) =~= hex_of_bytes(b));
    while i < bytes.len()
        invariant
            i <= b.len(),
            b == bytes@,
            b == encode_utf8(s@),
            out@ + hex_of_bytes(b.skip(i as int)) == spec_hex_encode(s@),
        decreases bytes.len() - i,
    {
        let x = bytes[i];
        assert(b.skip(i as int).drop_first() =~= b.skip(i + 1));
        let ghost before = out@;
        assert(x >> 4 < 16) by (bit_vector);
        assert(x & 15 < 16) by (bit_vector);
        push_char(&mut out, hex_digit_exec(x >> 4));
        push_char(&mut out, hex_digit_exec(x & 15));
        assert(before + (seq![hex_digit(x >> 4), hex_digit(x & 15)] + hex_of_bytes(
            b.skip(i + 1),
        )) =~= out@ + hex_of_bytes(b.skip(i + 1)));
        i += 1;
    }
    assert(out@ + Seq::<char>::empty() =~= out@);
    out
}

/// The value of a hex digit, either case.
pub open spec fn hex_value(b: u8) -> Option<u8> {
    if 48 <= b && b <= 57 {
        Some((b - 48) as u8)
    } else if 97 <= b && b <= 102 {
        Some((b - 87) as u8)
    } else if 65 <= b && b <= 70 {
        Some((b - 55) as u8)
    } else {
        None
    }
}

/// The bytes spelled by consecutive pairs of hex digits; a pair that is not
/// two hex digits is skipped, and so is a final odd digit.
pub open spec fn bytes_of_hex(b: Seq<u8>) -> Seq<u8>
    decreases b.len(),
{
    if b.len() < 2 {
        Seq::empty()
    } else {
        let rest = bytes_of_hex(b.subrange(2, b.len() as int));
        match (hex_value(b[0]), hex_value(b[1])) {
            (Some(h), Some(l)) => seq![(h * 16 + l) as u8] + rest,
            _ => rest,
        }
    }
}

/// `String::from_utf8_lossy` on bytes that are not valid UTF-8.
pub uninterp spec fn lossy_utf8(bytes: Seq<u8>) -> Seq<char>;

/// `String::from_utf8_lossy`: valid UTF-8 is decoded as it is; for other
/// input the result is named by `lossy_utf8` (invalid sequences become
/// U+FFFD), which this contract does not spell out.
#[verifier::external_body]
fn from_utf8_lossy(bytes: &[u8]) -> (r: String)
    ensures
        r@ == (if valid_utf8(bytes@) {
            decode_utf8(bytes@)
        } else {
            lossy_utf8(bytes@)
        }),
{
    String::from_utf8_lossy(bytes).into_owned()
}

pub open spec fn text_of_bytes(b: Seq<u8>) -> Seq<char> {
    if valid_utf8(b) {
        decode_utf8(b)
    } else {
        lossy_utf8(b)
    }
}

pub open spec fn spec_hex_decode(s: Seq<char>) -> Seq<char> {
    text_of_bytes(bytes_of_hex(encode_utf8(s)))
}

fn hex_value_exec(b: u8) -> (r: Option<u8>)
    ensures
        r == hex_value(b),
{
    if 48 <= b && b <= 57 {
        Some(b - 48)
    } else if 97 <= b && b <= 102 {
        Some(b - 87)
    } else if 65 <= b && b <= 70 {
        Some(b - 55)
    } else {
        None
    }
}

/// Decodes pairs of hex digits back into text (see `bytes_of_hex`).
pub fn hex_decode(s: &str) -> (r: String)
    ensures
        r@ == spec_hex_decode(s@),
{
    let bytes = s.as_bytes();
    let ghost b = bytes@;
    let mut out: Vec<u8> = Vec::new();
    let mut i: usize = 0;
    assert(b.subrange(0, b.len() as int) =~= b);
    assert(out@ + bytes_of_hex(b) =~= bytes_of_hex(b));
    while i < bytes.len() && i + 1 < bytes.len()
        invariant
            i <= b.len(),
            b == bytes@,
            b == encode_utf8(s@),
            out@ + bytes_of_hex(b.subrange(i as int, b.len() as int)) == bytes_of_hex(b),
        decreases bytes.len() - i,
    {
        let ghost tail = b.subrange(i as int, b.len() as int);
        assert(tail.subrange(2, tail.len() as int) =~= b.subrange(i + 2, b.len() as int));
        match (hex_value_exec(bytes[i]), hex_value_exec(bytes[i + 1])) {
            (Some(hi), Some(lo)) => {
                assert((hi << 4) | lo == (hi * 16 + lo) as u8) by (bit_vector)
                    requires
                        hi < 16,
                        lo < 16,
                ;
                let ghost before = out@;
                out.push((hi << 4) | lo);
                assert(before + (seq![(hi * 16 + lo) as u8] + bytes_of_hex(
                    b.subrange(i + 2, b.len() as int),
                )) =~= out@ + bytes_of_hex(b.subrange(i + 2, b.len() as int)));
            },
            _ => {},
        }
        i += 2;
    }
    proof {
        let tail = b.subrange(i as int, b.len() as int);
        assert(bytes_of_hex(tail) =~= Seq::<u8>::empty());
        assert(out@ + Seq::<u8>::empty() =~= out@);
    }
    from_utf8_lossy(out.as_slice())
}

proof fn lemma_hex_digits(x: u8)
    ensures
        hex_value(hex_digit(x >> 4) as u8) == Some(x >> 4),
        hex_value(hex_digit(x & 15) as u8) == Some(x & 15),
        (x >> 4) * 16 + (x & 15) == x,
        '\0' <= hex_digit(x >> 4) <= '\u{7f}',
        '\0' <= hex_digit(x & 15) <= '\u{7f}',
{
    assert(x >> 4 < 16) by (bit_vector);
    assert(x & 15 < 16) by (bit_vector);
    assert((x >> 4) * 16 + (x & 15) == x) by (bit_vector);
}

proof fn lemma_hex_bytes(b: Seq<u8>)
    ensures
        vstd::utf8::is_ascii_chars(hex_of_bytes(b)),
        bytes_of_hex(encode_utf8(hex_of_bytes(b))) == b,
    decreases b.len(),
{
    if b.len() > 0 {
        let x = b[0];
        lemma_hex_digits(x);
        lemma_hex_bytes(b.drop_first());
        let h = hex_of_bytes(b);
        let r = hex_of_bytes(b.drop_first());
        assert(h =~= seq![hex_digit(x >> 4), hex_digit(x & 15)] + r);
        assert(vstd::utf8::is_ascii_chars(h));
        vstd::utf8::is_ascii_chars_encode_utf8(h);
        vstd::utf8::is_ascii_chars_encode_utf8(r);
        let e = encode_utf8(h);
        assert(e.subrange(2, e.len() as int) =~= encode_utf8(r));
        assert(e[0] == h[0] as u8);
        assert(e[1] == h[1] as u8);
        assert(b =~= seq![x] + b.drop_first());
    } else {
        assert(encode_utf8(hex_of_bytes(b)) =~= Seq::<u8>::empty());
    }
}

/// Decoding an encoded string gives it back.
pub proof fn law_hex_round_trip(s: Seq<char>)
    ensures
        spec_hex_decode(spec_hex_encode(s)) == s,
{
    lemma_hex_bytes(encode_utf8(s));
    vstd::utf8::encode_utf8_valid_utf8(s);
    vstd::utf8::encode_utf8_decode_utf8(s);
}

} // verus!
