//! The game's `UserData/setup.xml`: writing the settings as the UTF-16 XML
//! the game expects, and decoding the file into text for the XML reader.
use vstd::prelude::*;
use crate::text::{chars_of, prefix_at, push_char, push_chars, starts_with};
use crate::utf16::{
    decode_units, decode_utf16, encode_utf16, le_bytes, le_units, lemma_le_roundtrip,
    lemma_utf16_roundtrip, units_from_le_bytes, units_to_le_bytes, utf16_units,
};

verus! {

/// The game's display and language settings, as `setup.xml` holds them.
pub struct SetupConfig {
    pub size: String,
    pub width: i32,
    pub height: i32,
    pub quality: i32,
    pub full_screen: bool,
    pub display: i32,
    pub language: i32,
}

/// The character of a decimal digit.
pub open spec fn digit_char(d: int) -> char {
    ((48 + d) as u32) as char
}

/// The decimal digits of `n`, most significant first, without leading zeros.
pub open spec fn nat_digits(n: nat) -> Seq<char>
    decreases n,
{
    if n < 10 {
        seq![digit_char(n as int)]
    } else {
        nat_digits(n / 10) + seq![digit_char((n % 10) as int)]
    }
}

/// `v` in decimal, with a leading `-` when negative (`Display` for integers).
pub open spec fn decimal(v: int) -> Seq<char> {
    if v < 0 {
        seq!['-'] + nat_digits((-v) as nat)
    } else {
        nat_digits(v as nat)
    }
}

/// `true` or `false` (`Display` for `bool`).
pub open spec fn bool_text(b: bool) -> Seq<char> {
    if b {
        "true"@
    } else {
        "false"@
    }
}

/// The XML text that the launcher writes for a configuration.
pub open spec fn config_xml(c: SetupConfig) -> Seq<char> {
    "<?xml version=\"1.0\" encoding=\"utf-16\"?>\r\n"@ + "<Setting>\r\n  <Size>"@ + c.size@
        + "</Size>\r\n  <Width>"@ + decimal(c.width as int) + "</Width>\r\n  <Height>"@ + decimal(
        c.height as int,
    ) + "</Height>\r\n  <Quality>"@ + decimal(c.quality as int) + "</Quality>\r\n  <FullScreen>"@
        + bool_text(c.full_screen) + "</FullScreen>\r\n  <Display>"@ + decimal(c.display as int)
        + "</Display>\r\n  <Language>"@ + decimal(c.language as int) + "</Language>\r\n</Setting>"@
}

/// The bytes of `setup.xml` for a text: a byte order mark, then the text in
/// UTF-16, little-endian.
pub open spec fn setup_bytes(text: Seq<char>) -> Seq<u8> {
    le_bytes(seq![0xFEFFu16] + encode_utf16(text))
}

/// `u` without a leading byte order mark.
pub open spec fn strip_bom(u: Seq<u16>) -> Seq<u16> {
    if u.len() > 0 && u[0] == 0xFEFF {
        u.drop_first()
    } else {
        u
    }
}

/// `s` with every occurrence of `pat`, found from left to right without
/// overlaps, replaced by `to` (`str::replace`).
pub open spec fn replace_all(s: Seq<char>, pat: Seq<char>, to: Seq<char>) -> Seq<char>
    decreases s.len(),
{
    if s.len() == 0 {
        Seq::empty()
    } else if pat.len() > 0 && starts_with(s, pat) {
        to + replace_all(s.skip(pat.len() as int), pat, to)
    } else {
        seq![s[0]] + replace_all(s.drop_first(), pat, to)
    }
}

pub open spec fn utf16_declaration() -> Seq<char> {
    "encoding=\"utf-16\""@
}

pub open spec fn utf8_declaration() -> Seq<char> {
    "encoding=\"utf-8\""@
}

pub open spec fn utf16_error_message() -> Seq<char> {
    "Error al decodificar UTF-16: invalid utf-16: lone surrogate found"@
}

/// What the launcher makes of the bytes of `setup.xml`: their text, with
/// the encoding declared as UTF-8 for the XML reader, or an error when the
/// bytes are not UTF-16.
pub open spec fn decoded_setup(bytes: Seq<u8>) -> Result<Seq<char>, Seq<char>> {
    match decode_utf16(strip_bom(le_units(bytes))) {
        Some(t) => Ok(replace_all(t, utf16_declaration(), utf8_declaration())),
        None => Err(utf16_error_message()),
    }
}

/// Appends the decimal digits of `n`.
fn push_nat_digits(out: &mut String, n: u64)
    ensures
        final(out)@ == old(out)@ + nat_digits(n as nat),
    decreases n,
{
    if n >= 10 {
        push_nat_digits(out, n / 10);
    }
    let d = (n % 10) as u8;
    let c = (48u8 + d) as char;
    push_char(out, c);
    assert(out@ =~= old(out)@ + nat_digits(n as nat));
}

/// Appends `v` in decimal.
fn push_decimal(out: &mut String, v: i32)
    ensures
        final(out)@ == old(out)@ + decimal(v as int),
{
    if v < 0 {
        push_char(out, '-');
        let m = (0i64 - v as i64) as u64;
        push_nat_digits(out, m);
        assert(out@ =~= old(out)@ + decimal(v as int));
    } else {
        push_nat_digits(out, v as u64);
    }
}

/// Appends a string literal.
fn push_str(out: &mut String, s: &str)
    ensures
        final(out)@ == old(out)@ + s@,
{
    out.append(s);
}

/// The XML text for a configuration, declared as UTF-16.
pub fn setup_xml_text(config: &SetupConfig) -> (r: String)
    ensures
        r@ == config_xml(*config),
{
    let mut out = String::new();
    push_str(&mut out, "<?xml version=\"1.0\" encoding=\"utf-16\"?>\r\n");
    push_str(&mut out, "<Setting>\r\n  <Size>");
    push_str(&mut out, config.size.as_str());
    push_str(&mut out, "</Size>\r\n  <Width>");
    push_decimal(&mut out, config.width);
    push_str(&mut out, "</Width>\r\n  <Height>");
    push_decimal(&mut out, config.height);
    push_str(&mut out, "</Height>\r\n  <Quality>");
    push_decimal(&mut out, config.quality);
    push_str(&mut out, "</Quality>\r\n  <FullScreen>");
    if config.full_screen {
        push_str(&mut out, "true");
    } else {
        push_str(&mut out, "false");
    }
    push_str(&mut out, "</FullScreen>\r\n  <Display>");
    push_decimal(&mut out, config.display);
    push_str(&mut out, "</Display>\r\n  <Language>");
    push_decimal(&mut out, config.language);
    push_str(&mut out, "</Language>\r\n</Setting>");
    out
}

/// The bytes of `setup.xml` for a configuration: a byte order mark and the
/// XML text in UTF-16, little-endian.
pub fn setup_file_bytes(config: &SetupConfig) -> (r: Vec<u8>)
    ensures
        r@ == setup_bytes(config_xml(*config)),
{
    let text = setup_xml_text(config);
    let cs = chars_of(text.as_str());
    let mut units: Vec<u16> = Vec::new();
    units.push(0xFEFF);
    let mut body = utf16_units(&cs);
    units.append(&mut body);
    assert(units@ =~= seq![0xFEFFu16] + encode_utf16(config_xml(*config)));
    units_to_le_bytes(&units)
}

/// What saving the settings comes to: the bytes of `setup.xml`, whether
/// the translator's language is to be set too, and the message.
pub struct SetupSave {
    pub bytes: Vec<u8>,
    pub update_language: bool,
    pub message: String,
}

/// Saving the game's settings: `setup.xml` gets the configuration's bytes;
/// the translator's language is set as well only for a non-empty
/// `language_code`.
pub fn save_setup_xml(config: &SetupConfig, language_code: &str) -> (r: SetupSave)
    ensures
        r.bytes@ == setup_bytes(config_xml(*config)),
        r.update_language == (language_code@.len() > 0),
        r.message@ == "Configuración guardada correctamente."@,
{
    SetupSave {
        bytes: setup_file_bytes(config),
        update_language: !language_code.is_empty(),
        message: String::from_str("Configuración guardada correctamente."),
    }
}

/// `s` with every `pat` replaced by `to`.
fn replace_chars(s: &Vec<char>, pat: &Vec<char>, to: &Vec<char>) -> (r: String)
    requires
        pat.len() > 0,
    ensures
        r@ == replace_all(s@, pat@, to@),
{
    let mut out = String::new();
    let mut i: usize = 0;
    assert(s@.skip(0) =~= s@);
    assert(out@ + replace_all(s@, pat@, to@) =~= replace_all(s@, pat@, to@));
    while i < s.len()
        invariant
            pat.len() > 0,
            i <= s.len(),
            replace_all(s@, pat@, to@) == out@ + replace_all(s@.skip(i as int), pat@, to@),
        decreases s.len() - i,
    {
        let ghost rest = s@.skip(i as int);
        let ghost before = out@;
        if prefix_at(s, i, pat) {
            push_chars(&mut out, to);
            assert(rest.skip(pat.len() as int) =~= s@.skip(i + pat.len()));
            i = i + pat.len();
        } else {
            push_char(&mut out, s[i]);
            assert(rest.drop_first() =~= s@.skip(i + 1));
            i = i + 1;
        }
        assert(before + replace_all(rest, pat@, to@) =~= out@ + replace_all(
            s@.skip(i as int),
            pat@,
            to@,
        ));
    }
    assert(s@.skip(i as int) =~= Seq::<char>::empty());
    assert(out@ + Seq::<char>::empty() =~= out@);
    out
}

/// The text of `setup.xml` from its bytes: the bytes read as UTF-16
/// little-endian code units (an odd last byte is left out), a leading byte
/// order mark dropped, and `encoding="utf-16"` turned into
/// `encoding="utf-8"` for the XML reader; an error when the units are not
/// valid UTF-16.
pub fn decode_setup_xml(bytes: &[u8]) -> (r: Result<String, String>)
    ensures
        match r {
            Ok(t) => decoded_setup(bytes@) == Ok::<Seq<char>, Seq<char>>(t@),
            Err(e) => decoded_setup(bytes@) == Err::<Seq<char>, Seq<char>>(e@),
        },
{
    let units = units_from_le_bytes(bytes);
    let from: usize = if units.len() > 0 && units[0] == 0xFEFF {
        1
    } else {
        0
    };
    assert(units@.skip(from as int) =~= strip_bom(le_units(bytes@)));
    match decode_units(&units, from) {
        Some(text) => {
            let pat = chars_of("encoding=\"utf-16\"");
            let to = chars_of("encoding=\"utf-8\"");
            proof {
                reveal_strlit("encoding=\"utf-16\"");
            }
            Ok(replace_chars(&text, &pat, &to))
        },
        None => Err(String::from_str("Error al decodificar UTF-16: invalid utf-16: lone surrogate found")),
    }
}

/// What the launcher writes to `setup.xml` it reads back: decoding the
/// bytes written for any text gives that text, with its UTF-16 encoding
/// declaration turned into the UTF-8 one.
pub proof fn law_setup_read_back(text: Seq<char>)
    ensures
        decoded_setup(setup_bytes(text)) == Ok::<Seq<char>, Seq<char>>(
            replace_all(text, utf16_declaration(), utf8_declaration()),
        ),
{
    let u = seq![0xFEFFu16] + encode_utf16(text);
    lemma_le_roundtrip(u);
    assert(strip_bom(u) =~= encode_utf16(text));
    lemma_utf16_roundtrip(text);
}

/// The number that a run of decimal digits stands for.
pub open spec fn digits_value(s: Seq<char>) -> int
    decreases s.len(),
{
    if s.len() == 0 {
        0
    } else {
        10 * digits_value(s.drop_last()) + (s.last() as int - 48)
    }
}

proof fn lemma_nat_digits(n: nat)
    ensures
        digits_value(nat_digits(n)) == n,
        nat_digits(n).len() > 0,
        forall|i: int| 0 <= i < nat_digits(n).len() ==> '0' <= #[trigger] nat_digits(n)[i] <= '9',
        nat_digits(n)[0] == '0' ==> n == 0,
    decreases n,
{
    let d = nat_digits(n);
    let last = (n % 10) as int;
    assert(digit_char(last) as int == 48 + last);
    if n >= 10 {
        lemma_nat_digits(n / 10);
        assert(d.drop_last() =~= nat_digits(n / 10));
        assert(d.last() == digit_char(last));
        assert(digits_value(d) == 10 * (n / 10) + last);
        assert(10 * (n / 10) + n % 10 == n) by (nonlinear_arith);
        assert(d[0] == nat_digits(n / 10)[0]);
        assert forall|i: int| 0 <= i < d.len() implies '0' <= #[trigger] d[i] <= '9' by {
            if i < d.len() - 1 {
                assert(d[i] == nat_digits(n / 10)[i]);
            }
        }
    } else {
        assert(d.drop_last().len() == 0);
        assert(digits_value(d.drop_last()) == 0);
    }
}

/// Decimal text reads back as the number written: the digits are `0`..`9`,
/// stand for the magnitude, and start with `0` only for zero itself; a
/// negative value is `-` followed by the digits of its magnitude.
pub proof fn law_decimal_digits(v: int)
    ensures
        v >= 0 ==> digits_value(decimal(v)) == v,
        v < 0 ==> decimal(v)[0] == '-' && digits_value(decimal(v).drop_first()) == -v,
        ({
            let m = if v < 0 { decimal(v).drop_first() } else { decimal(v) };
            &&& m.len() > 0
            &&& forall|i: int| 0 <= i < m.len() ==> '0' <= #[trigger] m[i] <= '9'
            &&& m[0] == '0' ==> v == 0
        }),
{
    if v < 0 {
        lemma_nat_digits((-v) as nat);
        assert(decimal(v).drop_first() =~= nat_digits((-v) as nat));
    } else {
        lemma_nat_digits(v as nat);
    }
}

} // verus!
