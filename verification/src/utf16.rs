//! UTF-16 little-endian text, as the game keeps `setup.xml`: encoding
//! characters to code units and bytes, and decoding them back.
use vstd::prelude::*;

verus! {

/// A Unicode scalar value: a code point that is not a surrogate.
pub open spec fn is_scalar_value(v: u32) -> bool {
    v < 0xD800 || (0xE000 <= v && v <= 0x10FFFF)
}

/// The UTF-16 code units of one character.
pub open spec fn char_units(c: char) -> Seq<u16> {
    let v = c as u32;
    if v < 0x10000 {
        seq![v as u16]
    } else {
        let w = (v - 0x10000) as int;
        seq![(0xD800 + w / 0x400) as u16, (0xDC00 + w % 0x400) as u16]
    }
}

/// The UTF-16 code units of a text (`str::encode_utf16`).
pub open spec fn encode_utf16(s: Seq<char>) -> Seq<u16>
    decreases s.len(),
{
    if s.len() == 0 {
        Seq::empty()
    } else {
        encode_utf16(s.drop_last()) + char_units(s.last())
    }
}

pub open spec fn is_high_surrogate(u: u16) -> bool {
    0xD800 <= u && u <= 0xDBFF
}

pub open spec fn is_low_surrogate(u: u16) -> bool {
    0xDC00 <= u && u <= 0xDFFF
}

/// `o` with `p` put in front of its text.
pub open spec fn prepend(p: Seq<char>, o: Option<Seq<char>>) -> Option<Seq<char>> {
    match o {
        Some(r) => Some(p + r),
        None => None,
    }
}

/// Decoding UTF-16 code units (`String::from_utf16`): a unit outside the
/// surrogates is a character, a high surrogate followed by a low one is the
/// character they encode, and any other surrogate makes the input invalid
/// (`None`).
pub open spec fn decode_utf16(u: Seq<u16>) -> Option<Seq<char>>
    decreases u.len(),
{
    if u.len() == 0 {
        Some(Seq::empty())
    } else if !is_high_surrogate(u[0]) && !is_low_surrogate(u[0]) {
        prepend(seq![(u[0] as u32) as char], decode_utf16(u.drop_first()))
    } else if is_high_surrogate(u[0]) && u.len() >= 2 && is_low_surrogate(u[1]) {
        let v = 0x10000 + (u[0] - 0xD800) * 0x400 + (u[1] - 0xDC00);
        prepend(seq![(v as u32) as char], decode_utf16(u.skip(2)))
    } else {
        None
    }
}

/// The little-endian code units of a byte sequence, two bytes each; an odd
/// last byte is left out (`chunks_exact(2)` with `u16::from_le_bytes`).
pub open spec fn le_units(b: Seq<u8>) -> Seq<u16> {
    Seq::new(b.len() / 2, |i: int| (b[2 * i] + 256 * b[2 * i + 1]) as u16)
}

/// The little-endian bytes of code units (`u16::to_le_bytes`).
pub open spec fn le_bytes(u: Seq<u16>) -> Seq<u8>
    decreases u.len(),
{
    if u.len() == 0 {
        Seq::empty()
    } else {
        le_bytes(u.drop_last()) + seq![(u.last() % 256) as u8, (u.last() / 256) as u8]
    }
}

/// `char::from_u32`: the character with code `v`, when `v` is a Unicode
/// scalar value.
#[verifier::external_body]
fn char_from_u32(v: u32) -> (r: Option<char>)
    ensures
        r == if is_scalar_value(v) {
            Some(v as char)
        } else {
            None::<char>
        },
{
    char::from_u32(v)
}

/// Every character's code is a Unicode scalar value, and names it.
pub proof fn lemma_char_is_scalar(c: char)
    ensures
        is_scalar_value(c as u32),
        ((c as u32) as char) == c,
{
}

/// The UTF-16 code units of a text.
pub fn utf16_units(s: &Vec<char>) -> (r: Vec<u16>)
    ensures
        r@ == encode_utf16(s@),
{
    let mut r: Vec<u16> = Vec::new();
    let mut i: usize = 0;
    while i < s.len()
        invariant
            i <= s.len(),
            r@ == encode_utf16(s@.take(i as int)),
        decreases s.len() - i,
    {
        let c = s[i];
        let v = c as u32;
        proof {
            lemma_char_is_scalar(c);
        }
        if v < 0x10000 {
            r.push(v as u16);
        } else {
            let w = v - 0x10000;
            assert(w < 0x100000);
            r.push((0xD800 + w / 0x400) as u16);
            r.push((0xDC00 + w % 0x400) as u16);
        }
        assert(s@.take(i + 1).drop_last() =~= s@.take(i as int));
        assert(r@ =~= encode_utf16(s@.take(i + 1)));
        i = i + 1;
    }
    assert(s@.take(s.len() as int) =~= s@);
    r
}

/// The little-endian bytes of code units.
pub fn units_to_le_bytes(u: &Vec<u16>) -> (r: Vec<u8>)
    ensures
        r@ == le_bytes(u@),
{
    let mut r: Vec<u8> = Vec::new();
    let mut i: usize = 0;
    while i < u.len()
        invariant
            i <= u.len(),
            r@ == le_bytes(u@.take(i as int)),
        decreases u.len() - i,
    {
        let x = u[i];
        r.push((x % 256) as u8);
        r.push((x / 256) as u8);
        assert(u@.take(i + 1).drop_last() =~= u@.take(i as int));
        assert(r@ =~= le_bytes(u@.take(i + 1)));
        i = i + 1;
    }
    assert(u@.take(u.len() as int) =~= u@);
    r
}

/// The little-endian code units of a byte sequence.
pub fn units_from_le_bytes(b: &[u8]) -> (r: Vec<u16>)
    ensures
        r@ == le_units(b@),
{
    let mut r: Vec<u16> = Vec::new();
    let n = b.len() / 2;
    let mut i: usize = 0;
    while i < n
        invariant
            n == b.len() / 2,
            i <= n,
            r@ == le_units(b@).take(i as int),
        decreases n - i,
    {
        let lo = b[2 * i] as u16;
        let hi = b[2 * i + 1] as u16;
        r.push(lo + 256 * hi);
        assert(r@ =~= le_units(b@).take(i + 1));
        i = i + 1;
    }
    assert(le_units(b@).take(n as int) =~= le_units(b@));
    r
}

/// Decodes UTF-16 code units `u[from..]`, or `None` when they are not
/// valid UTF-16.
pub fn decode_units(u: &Vec<u16>, from: usize) -> (r: Option<Vec<char>>)
    requires
        from <= u.len(),
    ensures
        match r {
            Some(v) => decode_utf16(u@.skip(from as int)) == Some(v@),
            None => decode_utf16(u@.skip(from as int)) is None,
        },
{
    let mut out: Vec<char> = Vec::new();
    let mut i = from;
    while i < u.len()
        invariant
            from <= i <= u.len(),
            decode_utf16(u@.skip(from as int)) == prepend(out@, decode_utf16(u@.skip(i as int))),
        decreases u.len() - i,
    {
        let ghost rest = u@.skip(i as int);
        let x = u[i];
        if x < 0xD800 || x > 0xDFFF {
            let c = match char_from_u32(x as u32) {
                Some(c) => c,
                None => {
                    return None;
                },
            };
            assert(rest.drop_first() =~= u@.skip(i + 1));
            out.push(c);
            i = i + 1;
        } else if x <= 0xDBFF && i + 1 < u.len() && 0xDC00 <= u[i + 1] && u[i + 1] <= 0xDFFF {
            let y = u[i + 1];
            let v: u32 = 0x10000 + (x as u32 - 0xD800) * 0x400 + (y as u32 - 0xDC00);
            let c = match char_from_u32(v) {
                Some(c) => c,
                None => {
                    return None;
                },
            };
            assert(rest.skip(2) =~= u@.skip(i + 2));
            out.push(c);
            i = i + 2;
        } else {
            return None;
        }
        proof {
            let old_out = out@.drop_last();
            assert(old_out + (seq![out@.last()] + Seq::<char>::empty()) =~= out@);
        }
    }
    assert(u@.skip(i as int) =~= Seq::<u16>::empty());
    assert(out@ + Seq::<char>::empty() =~= out@);
    Some(out)
}


/// The bytes of code units give those code units back.
pub proof fn lemma_le_roundtrip(u: Seq<u16>)
    ensures
        le_bytes(u).len() == 2 * u.len(),
        le_units(le_bytes(u)) == u,
    decreases u.len(),
{
    if u.len() > 0 {
        let u0 = u.drop_last();
        lemma_le_roundtrip(u0);
        let b0 = le_bytes(u0);
        let b = le_bytes(u);
        let x = u.last();
        assert(b.len() == 2 * u.len());
        assert forall|i: int| 0 <= i < u.len() implies #[trigger] le_units(b)[i] == u[i] by {
            if i < u0.len() {
                assert(b[2 * i] == b0[2 * i]);
                assert(b[2 * i + 1] == b0[2 * i + 1]);
                assert(le_units(b0)[i] == u0[i]);
            } else {
                assert(b[2 * i] == (x % 256) as u8);
                assert(b[2 * i + 1] == (x / 256) as u8);
                assert((x % 256) + 256 * (x / 256) == x);
            }
        }
        assert(le_units(b) =~= u);
    }
}

/// Encoding a text can also be taken from its first character on.
pub proof fn lemma_encode_first(s: Seq<char>)
    requires
        s.len() > 0,
    ensures
        encode_utf16(s) == char_units(s[0]) + encode_utf16(s.drop_first()),
    decreases s.len(),
{
    if s.len() == 1 {
        assert(s.drop_last() =~= Seq::<char>::empty());
        assert(s.drop_first() =~= Seq::<char>::empty());
        assert(char_units(s[0]) + Seq::<u16>::empty() =~= char_units(s[0]));
        assert(Seq::<u16>::empty() + char_units(s[0]) =~= char_units(s[0]));
    } else {
        lemma_encode_first(s.drop_last());
        assert(s.drop_last().drop_first() =~= s.drop_first().drop_last());
        assert(s.drop_first().last() == s.last());
        assert(encode_utf16(s) =~= char_units(s[0]) + encode_utf16(s.drop_first()));
    }
}

/// The code units of one character, followed by anything, decode to that
/// character followed by what the rest decodes to.
proof fn lemma_decode_char(c: char, rest: Seq<u16>)
    ensures
        decode_utf16(char_units(c) + rest) == prepend(seq![c], decode_utf16(rest)),
{
    lemma_char_is_scalar(c);
    let v = c as u32;
    let u = char_units(c) + rest;
    if v < 0x10000 {
        assert(u[0] == v as u16);
        assert(u.drop_first() =~= rest);
    } else {
        let w = (v - 0x10000) as int;
        assert(0 <= w < 0x100000);
        let hi = 0xD800 + w / 0x400;
        let lo = 0xDC00 + w % 0x400;
        assert(w / 0x400 < 0x400);
        assert(0 <= w % 0x400 < 0x400);
        assert(u[0] == hi as u16);
        assert(u[1] == lo as u16);
        assert(u.skip(2) =~= rest);
        assert((w / 0x400) * 0x400 + w % 0x400 == w);
        assert(0x10000 + (u[0] - 0xD800) * 0x400 + (u[1] - 0xDC00) == v);
    }
}

/// Encoding then decoding gives the text back, whatever follows.
pub proof fn lemma_decode_encoded(s: Seq<char>, rest: Seq<u16>)
    ensures
        decode_utf16(encode_utf16(s) + rest) == prepend(s, decode_utf16(rest)),
    decreases s.len(),
{
    if s.len() == 0 {
        assert(encode_utf16(s) + rest =~= rest);
        match decode_utf16(rest) {
            Some(r) => {
                assert(s + r =~= r);
            },
            None => {},
        }
    } else {
        lemma_encode_first(s);
        let t = s.drop_first();
        assert(encode_utf16(s) + rest =~= char_units(s[0]) + (encode_utf16(t) + rest));
        lemma_decode_char(s[0], encode_utf16(t) + rest);
        lemma_decode_encoded(t, rest);
        match decode_utf16(rest) {
            Some(r) => {
                assert(seq![s[0]] + (t + r) =~= s + r);
            },
            None => {},
        }
    }
}

/// Decoding UTF-16 inverts encoding it.
pub proof fn lemma_utf16_roundtrip(s: Seq<char>)
    ensures
        decode_utf16(encode_utf16(s)) == Some(s),
{
    lemma_decode_encoded(s, Seq::empty());
    assert(encode_utf16(s) + Seq::<u16>::empty() =~= encode_utf16(s));
    assert(s + Seq::<char>::empty() =~= s);
}

} // verus!
