//! TextMeshPro fonts: which font bundle a language needs, and pointing the
//! translator's `[Behaviour]` section at it.
use vstd::prelude::*;
use crate::text::{
    chars_of, equals_literal, leading_space_len, push_char, push_chars, starts_with, trim,
    trim_start, trimmed_equals, trimmed_start_has_prefix,
};
use crate::lines::{
    lemma_lines_no_newlines, lemma_lines_of_terminated, lines_of, no_newlines, no_trailing_cr,
    split_lines, strip_cr, terminate_lines,
};
use crate::ini::{
    inside_section, is_entry, is_section_header, lemma_key_line_is_plain, section_header, single_line,
};

verus! {

/// The font bundle that a language needs when the default one lacks its
/// script: Thai, Hindi, Georgian, and Arabic, Persian and Urdu.
pub open spec fn special_font(code: Seq<char>) -> Option<Seq<char>> {
    if code == "th"@ {
        Some("thai_font"@)
    } else if code == "hi"@ {
        Some("devanagari_font"@)
    } else if code == "ka"@ {
        Some("georgian_font"@)
    } else if code == "ar"@ {
        Some("arabic_font"@)
    } else if code == "fa"@ {
        Some("arabic_font"@)
    } else if code == "ur"@ {
        Some("arabic_font"@)
    } else {
        None
    }
}

/// The font bundle path the translator is given for a language.
pub open spec fn font_bundle_path(code: Seq<char>) -> Seq<char> {
    "UserData\\fonts/"@ + match special_font(code) {
        Some(f) => f,
        None => "arialuni_sdf_u2019"@,
    }
}

/// The font bundles that the launcher installs into `UserData/fonts`.
pub open spec fn bundled_font_names() -> Seq<Seq<char>> {
    seq![
        "arialuni_sdf_u2019"@,
        "arabic_font"@,
        "devanagari_font"@,
        "georgian_font"@,
        "thai_font"@,
    ]
}

/// The font bundle path for a language: `UserData\fonts/` followed by the
/// bundle that its script needs, or by `arialuni_sdf_u2019`.
pub fn resolve_font(language_code: &str) -> (r: String)
    ensures
        r@ == font_bundle_path(language_code@),
{
    let code = chars_of(language_code);
    assert(code@.subrange(0, code.len() as int) =~= code@);
    let font: &str = if equals_literal(&code, "th") {
        "thai_font"
    } else if equals_literal(&code, "hi") {
        "devanagari_font"
    } else if equals_literal(&code, "ka") {
        "georgian_font"
    } else if equals_literal(&code, "ar") || equals_literal(&code, "fa") || equals_literal(
        &code,
        "ur",
    ) {
        "arabic_font"
    } else {
        "arialuni_sdf_u2019"
    };
    let mut r = String::from_str("UserData\\fonts/");
    r.append(font);
    r
}

/// The font bundles that the launcher installs, in the order it installs
/// them.
pub fn bundled_fonts() -> (r: Vec<String>)
    ensures
        r.deep_view() == bundled_font_names(),
{
    let mut r: Vec<String> = Vec::new();
    r.push(String::from_str("arialuni_sdf_u2019"));
    r.push(String::from_str("arabic_font"));
    r.push(String::from_str("devanagari_font"));
    r.push(String::from_str("georgian_font"));
    r.push(String::from_str("thai_font"));
    assert(r.deep_view() =~= bundled_font_names()) by {
        assert forall|i: int| 0 <= i < 5 implies r.deep_view()[i] == bundled_font_names()[i] by {
            assert(r.deep_view()[i] == r@[i]@);
        }
    }
    r
}

/// The bundled fonts, among the first `n`, that are not installed yet.
pub open spec fn missing_fonts(installed: Seq<bool>, n: int) -> Seq<Seq<char>>
    decreases n,
{
    if n <= 0 {
        Seq::empty()
    } else if installed[n - 1] {
        missing_fonts(installed, n - 1)
    } else {
        missing_fonts(installed, n - 1).push(bundled_font_names()[n - 1])
    }
}

/// The bundled fonts to install, in order, given whether each is installed
/// already (in the order of `bundled_fonts`): those that are not.
pub fn fonts_to_install(installed: &Vec<bool>) -> (r: Vec<String>)
    requires
        installed.len() == bundled_font_names().len(),
    ensures
        r.deep_view() == missing_fonts(installed@, installed.len() as int),
{
    let names = bundled_fonts();
    assert(names.deep_view().len() == names@.len());
    let mut r: Vec<String> = Vec::new();
    let mut i: usize = 0;
    while i < installed.len()
        invariant
            installed.len() == 5,
            names.len() == 5,
            names.deep_view() == bundled_font_names(),
            i <= installed.len(),
            r.deep_view() == missing_fonts(installed@, i as int),
        decreases installed.len() - i,
    {
        if !installed[i] {
            let ghost before = r.deep_view();
            let name = names[i].clone();
            assert(names.deep_view()[i as int] == names@[i as int]@);
            r.push(name);
            assert(r.deep_view() =~= before.push(bundled_font_names()[i as int])) by {
                assert forall|k: int| 0 <= k < r.len() implies r.deep_view()[k] == before.push(
                    bundled_font_names()[i as int],
                )[k] by {
                    assert(r.deep_view()[k] == r@[k]@);
                }
            }
        }
        i = i + 1;
    }
    r
}

pub open spec fn behaviour_header() -> Seq<char> {
    "[Behaviour]"@
}

pub open spec fn override_key() -> Seq<char> {
    "OverrideFontTextMeshPro="@
}

pub open spec fn fallback_key() -> Seq<char> {
    "FallbackFontTextMeshPro="@
}

/// The scan's state when it reaches line `i`: inside `[Behaviour]`, the
/// override key written, the fallback key written.
pub open spec fn font_scan(ls: Seq<Seq<char>>, i: int) -> (bool, bool, bool)
    decreases i,
{
    if i <= 0 || i > ls.len() {
        (false, false, false)
    } else {
        let st = font_scan(ls, i - 1);
        let l = ls[i - 1];
        if trim(l) == behaviour_header() {
            (true, st.1, st.2)
        } else if is_section_header(l) {
            (false, st.1, st.2)
        } else if st.0 && starts_with(trim_start(l), override_key()) {
            (st.0, true, st.2)
        } else if st.0 && starts_with(trim_start(l), fallback_key()) {
            (st.0, st.1, true)
        } else {
            st
        }
    }
}

/// `key`, the font and a newline.
pub open spec fn key_line(key: Seq<char>, font: Seq<char>) -> Seq<char> {
    key + font + seq!['\n']
}

/// The key lines that a `[Behaviour]` section still lacks when it ends.
pub open spec fn missing_font_keys(st: (bool, bool, bool), font: Seq<char>) -> Seq<char> {
    if st.0 {
        (if !st.1 {
            key_line(override_key(), font)
        } else {
            Seq::empty()
        }) + (if !st.2 {
            key_line(fallback_key(), font)
        } else {
            Seq::empty()
        })
    } else {
        Seq::empty()
    }
}

/// What the rewrite writes for line `i`.
pub open spec fn font_piece(ls: Seq<Seq<char>>, i: int, font: Seq<char>) -> Seq<char> {
    let st = font_scan(ls, i);
    let l = ls[i];
    if trim(l) == behaviour_header() {
        l + seq!['\n']
    } else if is_section_header(l) {
        missing_font_keys(st, font) + l + seq!['\n']
    } else if st.0 && starts_with(trim_start(l), override_key()) {
        key_line(override_key(), font)
    } else if st.0 && starts_with(trim_start(l), fallback_key()) {
        key_line(fallback_key(), font)
    } else {
        l + seq!['\n']
    }
}

/// What the rewrite writes for the first `n` lines.
pub open spec fn font_pieces(ls: Seq<Seq<char>>, n: int, font: Seq<char>) -> Seq<char>
    decreases n,
{
    if n <= 0 {
        Seq::empty()
    } else {
        font_pieces(ls, n - 1, font) + font_piece(ls, n - 1, font)
    }
}

/// The INI text with its TextMeshPro fonts set to `font`.
pub open spec fn ini_with_font(content: Seq<char>, font: Seq<char>) -> Seq<char> {
    let ls = lines_of(content);
    font_pieces(ls, ls.len() as int, font) + missing_font_keys(font_scan(ls, ls.len() as int), font)
}

/// Appends the missing key lines to `out`.
fn push_missing_keys(
    out: &mut String,
    st: (bool, bool, bool),
    over: &Vec<char>,
    fall: &Vec<char>,
    font: &Vec<char>,
)
    requires
        over@ == override_key(),
        fall@ == fallback_key(),
    ensures
        final(out)@ == old(out)@ + missing_font_keys(st, font@),
{
    let ghost start = out@;
    if st.0 {
        if !st.1 {
            push_chars(out, over);
            push_chars(out, font);
            push_char(out, '\n');
        }
        let ghost mid = out@;
        if !st.2 {
            push_chars(out, fall);
            push_chars(out, font);
            push_char(out, '\n');
        }
        assert(out@ =~= start + missing_font_keys(st, font@));
    } else {
        assert(out@ =~= start + missing_font_keys(st, font@));
    }
}

/// The translator's INI text with `OverrideFontTextMeshPro=` and
/// `FallbackFontTextMeshPro=` set to `font_bundle` in `[Behaviour]`: such
/// lines inside the section are replaced, and a section left without one
/// of them gets it when it ends (at the next header, or at the end of the
/// text); once a key has been written, it is not added again. Every line
/// is written back followed by `\n`.
pub fn update_ini_font_lines(content: &str, font_bundle: &str) -> (r: String)
    ensures
        r@ == ini_with_font(content@, font_bundle@),
{
    let text = chars_of(content);
    let ls = split_lines(&text);
    let font = chars_of(font_bundle);
    let header = chars_of("[Behaviour]");
    let over = chars_of("OverrideFontTextMeshPro=");
    let fall = chars_of("FallbackFontTextMeshPro=");
    let ghost lv = ls.deep_view();
    let mut out = String::new();
    let mut st: (bool, bool, bool) = (false, false, false);
    let mut i: usize = 0;
    while i < ls.len()
        invariant
            lv == ls.deep_view(),
            lv == lines_of(content@),
            font@ == font_bundle@,
            header@ == behaviour_header(),
            over@ == override_key(),
            fall@ == fallback_key(),
            i <= ls.len(),
            st == font_scan(lv, i as int),
            out@ == font_pieces(lv, i as int, font@),
        decreases ls.len() - i,
    {
        let line = &ls[i];
        assert(lv[i as int] == line@);
        let ghost before = out@;
        if trimmed_equals(line, &header) {
            st = (true, st.1, st.2);
            push_chars(&mut out, line);
            push_char(&mut out, '\n');
        } else if section_header(line) {
            push_missing_keys(&mut out, st, &over, &fall, &font);
            st = (false, st.1, st.2);
            push_chars(&mut out, line);
            push_char(&mut out, '\n');
        } else if st.0 && trimmed_start_has_prefix(line, &over) {
            push_chars(&mut out, &over);
            push_chars(&mut out, &font);
            push_char(&mut out, '\n');
            st = (st.0, true, st.2);
        } else if st.0 && trimmed_start_has_prefix(line, &fall) {
            push_chars(&mut out, &fall);
            push_chars(&mut out, &font);
            push_char(&mut out, '\n');
            st = (st.0, st.1, true);
        } else {
            push_chars(&mut out, line);
            push_char(&mut out, '\n');
        }
        assert(out@ =~= before + font_piece(lv, i as int, font@));
        i = i + 1;
    }
    push_missing_keys(&mut out, st, &over, &fall, &font);
    out
}


/// A font change to apply: the new INI text and the message for the user.
pub struct FontUpdate {
    pub ini: String,
    pub message: String,
}

pub open spec fn missing_ini_message() -> Seq<char> {
    "AutoTranslatorConfig.ini no encontrado"@
}

/// What pointing the translator at a language's font gives: no INI file
/// (`None`) is an error; otherwise the rewritten INI text, and the message
/// `prefix` + `'<font bundle path>'`.
pub open spec fn font_update_outcome(
    ini: Option<Seq<char>>,
    language_code: Seq<char>,
    prefix: Seq<char>,
) -> Result<(Seq<char>, Seq<char>), Seq<char>> {
    match ini {
        None => Err(missing_ini_message()),
        Some(content) => {
            let font = font_bundle_path(language_code);
            Ok((ini_with_font(content, font), prefix + seq!['\''] + font + seq!['\'']))
        },
    }
}

pub open spec fn fallback_font_prefix() -> Seq<char> {
    "Fuente configurada a "@
}

pub open spec fn initialized_fonts_prefix() -> Seq<char> {
    "Fuentes configuradas a "@
}

/// The view of a font change.
pub open spec fn font_update_view(r: Result<FontUpdate, String>) -> Result<
    (Seq<char>, Seq<char>),
    Seq<char>,
> {
    match r {
        Ok(u) => Ok((u.ini@, u.message@)),
        Err(e) => Err(e@),
    }
}

fn apply_font(ini: Option<&str>, language_code: &str, prefix: &str) -> (r: Result<FontUpdate, String>)
    ensures
        font_update_view(r) == font_update_outcome(
            match ini {
                Some(c) => Some(c@),
                None => None,
            },
            language_code@,
            prefix@,
        ),
{
    match ini {
        None => Err(String::from_str("AutoTranslatorConfig.ini no encontrado")),
        Some(content) => {
            let font = resolve_font(language_code);
            let new_ini = update_ini_font_lines(content, font.as_str());
            let mut message = String::from_str(prefix);
            push_char(&mut message, '\'');
            message.append(font.as_str());
            push_char(&mut message, '\'');
            assert(message@ =~= prefix@ + seq!['\''] + font@ + seq!['\'']);
            Ok(FontUpdate { ini: new_ini, message })
        },
    }
}

/// Applies the TextMeshPro font of a language: the translator's INI text
/// (`None` when the file is missing, an error) with both font keys set to
/// the language's bundle, and the message `Fuente configurada a '<path>'`.
pub fn set_fallback_font(ini: Option<&str>, language_code: &str) -> (r: Result<FontUpdate, String>)
    ensures
        font_update_view(r) == font_update_outcome(
            match ini {
                Some(c) => Some(c@),
                None => None,
            },
            language_code@,
            fallback_font_prefix(),
        ),
{
    apply_font(ini, language_code, "Fuente configurada a ")
}

/// The same change as `set_fallback_font`, made when the launcher starts;
/// its message is `Fuentes configuradas a '<path>'`.
pub fn initialize_fonts(ini: Option<&str>, language_code: &str) -> (r: Result<FontUpdate, String>)
    ensures
        font_update_view(r) == font_update_outcome(
            match ini {
                Some(c) => Some(c@),
                None => None,
            },
            language_code@,
            initialized_fonts_prefix(),
        ),
{
    apply_font(ini, language_code, "Fuentes configuradas a ")
}

/// Setting the fallback font and initializing the fonts make the same
/// change: both fail on the same input, and otherwise write the same INI
/// text; only their messages differ.
pub proof fn law_font_commands_agree(ini: Option<Seq<char>>, language_code: Seq<char>)
    ensures
        font_update_outcome(ini, language_code, fallback_font_prefix()) is Err
            <==> font_update_outcome(ini, language_code, initialized_fonts_prefix()) is Err,
        font_update_outcome(ini, language_code, fallback_font_prefix()) matches Ok(a) ==> (
        font_update_outcome(ini, language_code, initialized_fonts_prefix()) matches Ok(b) && a.0
            == b.0),
{
}


// ---------------------------------------------------------------------
// The rewritten text, line by line.

/// The key lines that a `[Behaviour]` section still lacks, as lines.
pub open spec fn missing_key_lines(st: (bool, bool, bool), font: Seq<char>) -> Seq<Seq<char>> {
    if st.0 {
        (if !st.1 {
            seq![override_key() + font]
        } else {
            Seq::empty()
        }) + (if !st.2 {
            seq![fallback_key() + font]
        } else {
            Seq::empty()
        })
    } else {
        Seq::empty()
    }
}

/// The lines written for line `i`.
pub open spec fn piece_lines(ls: Seq<Seq<char>>, i: int, font: Seq<char>) -> Seq<Seq<char>> {
    let st = font_scan(ls, i);
    let l = ls[i];
    if trim(l) == behaviour_header() {
        seq![l]
    } else if is_section_header(l) {
        missing_key_lines(st, font).push(l)
    } else if st.0 && starts_with(trim_start(l), override_key()) {
        seq![override_key() + font]
    } else if st.0 && starts_with(trim_start(l), fallback_key()) {
        seq![fallback_key() + font]
    } else {
        seq![l]
    }
}

/// The lines written for the first `n` lines.
pub open spec fn line_pieces(ls: Seq<Seq<char>>, n: int, font: Seq<char>) -> Seq<Seq<char>>
    decreases n,
{
    if n <= 0 {
        Seq::empty()
    } else {
        line_pieces(ls, n - 1, font) + piece_lines(ls, n - 1, font)
    }
}

/// All the lines that the font rewrite writes.
pub open spec fn font_out_lines(ls: Seq<Seq<char>>, font: Seq<char>) -> Seq<Seq<char>> {
    line_pieces(ls, ls.len() as int, font) + missing_key_lines(font_scan(ls, ls.len() as int), font)
}

proof fn lemma_terminate_concat(a: Seq<Seq<char>>, b: Seq<Seq<char>>)
    ensures
        terminate_lines(a + b) == terminate_lines(a) + terminate_lines(b),
    decreases b.len(),
{
    if b.len() == 0 {
        assert(a + b =~= a);
        assert(terminate_lines(a) + terminate_lines(b) =~= terminate_lines(a));
    } else {
        lemma_terminate_concat(a, b.drop_last());
        assert((a + b).drop_last() =~= a + b.drop_last());
        assert(terminate_lines(a + b) =~= terminate_lines(a) + terminate_lines(b));
    }
}

proof fn lemma_terminate_one(x: Seq<char>)
    ensures
        terminate_lines(seq![x]) == x + seq!['\n'],
{
    assert(seq![x].drop_last() =~= Seq::<Seq<char>>::empty());
    assert(terminate_lines(Seq::<Seq<char>>::empty()) == Seq::<char>::empty());
    assert(seq![x].last() == x);
    assert(Seq::<char>::empty() + x =~= x);
    assert(terminate_lines(seq![x]) == terminate_lines(seq![x].drop_last()) + seq![x].last() + seq!['\n']);
    assert(terminate_lines(seq![x]) =~= x + seq!['\n']);
}

proof fn lemma_terminate_missing(st: (bool, bool, bool), font: Seq<char>)
    ensures
        terminate_lines(missing_key_lines(st, font)) == missing_font_keys(st, font),
{
    lemma_terminate_one(override_key() + font);
    lemma_terminate_one(fallback_key() + font);
    let a: Seq<Seq<char>> = if !st.1 {
        seq![override_key() + font]
    } else {
        Seq::empty()
    };
    let b: Seq<Seq<char>> = if !st.2 {
        seq![fallback_key() + font]
    } else {
        Seq::empty()
    };
    lemma_terminate_concat(a, b);
    assert(terminate_lines(Seq::<Seq<char>>::empty()) == Seq::<char>::empty());
    assert(key_line(override_key(), font) =~= override_key() + font + seq!['\n']);
}

proof fn lemma_terminate_pieces(ls: Seq<Seq<char>>, n: int, font: Seq<char>)
    requires
        0 <= n <= ls.len(),
    ensures
        terminate_lines(line_pieces(ls, n, font)) == font_pieces(ls, n, font),
    decreases n,
{
    if n > 0 {
        let i = n - 1;
        lemma_terminate_pieces(ls, i, font);
        lemma_terminate_concat(line_pieces(ls, i, font), piece_lines(ls, i, font));
        let st = font_scan(ls, i);
        let l = ls[i];
        lemma_terminate_one(l);
        lemma_terminate_one(override_key() + font);
        lemma_terminate_one(fallback_key() + font);
        if trim(l) != behaviour_header() && is_section_header(l) {
            lemma_terminate_missing(st, font);
            lemma_terminate_concat(missing_key_lines(st, font), seq![l]);
            assert(missing_key_lines(st, font).push(l) =~= missing_key_lines(st, font) + seq![l]);
            assert(missing_font_keys(st, font) + (l + seq!['\n']) =~= missing_font_keys(st, font) + l
                + seq!['\n']);
        }
    }
}

/// The font rewrite writes its lines, each followed by a newline.
proof fn lemma_font_text_is_terminated(ls: Seq<Seq<char>>, font: Seq<char>)
    ensures
        font_pieces(ls, ls.len() as int, font) + missing_font_keys(font_scan(ls, ls.len() as int), font)
            == terminate_lines(font_out_lines(ls, font)),
{
    lemma_terminate_pieces(ls, ls.len() as int, font);
    lemma_terminate_missing(font_scan(ls, ls.len() as int), font);
    lemma_terminate_concat(
        line_pieces(ls, ls.len() as int, font),
        missing_key_lines(font_scan(ls, ls.len() as int), font),
    );
}

/// A line written by the rewrite is a line of the input or a key line.
pub open spec fn from_input_or_key(x: Seq<char>, ls: Seq<Seq<char>>, font: Seq<char>) -> bool {
    ||| x == override_key() + font
    ||| x == fallback_key() + font
    ||| exists|j: int| 0 <= j < ls.len() && x == ls[j]
}

proof fn lemma_pieces_origin(ls: Seq<Seq<char>>, n: int, font: Seq<char>)
    requires
        0 <= n <= ls.len(),
    ensures
        forall|k: int|
            0 <= k < line_pieces(ls, n, font).len() ==> from_input_or_key(
                #[trigger] line_pieces(ls, n, font)[k],
                ls,
                font,
            ),
    decreases n,
{
    if n > 0 {
        let i = n - 1;
        lemma_pieces_origin(ls, i, font);
        let a = line_pieces(ls, i, font);
        let b = piece_lines(ls, i, font);
        assert forall|k: int| 0 <= k < (a + b).len() implies from_input_or_key(#[trigger] (a + b)[k], ls, font) by {
            if k >= a.len() {
                let x = b[k - a.len()];
                assert(x == ls[i] || x == override_key() + font || x == fallback_key() + font);
            }
        }
    }
}

/// The lines of `line_pieces(ls, i)` start those of `line_pieces(ls, j)`.
proof fn lemma_pieces_prefix(ls: Seq<Seq<char>>, font: Seq<char>, i: int, j: int)
    requires
        0 <= i <= j <= ls.len(),
    ensures
        line_pieces(ls, i, font).len() <= line_pieces(ls, j, font).len(),
        forall|k: int|
            0 <= k < line_pieces(ls, i, font).len() ==> #[trigger] line_pieces(ls, j, font)[k]
                == line_pieces(ls, i, font)[k],
    decreases j - i,
{
    if i < j {
        lemma_pieces_prefix(ls, font, i, j - 1);
    }
}

pub open spec fn font_value(l: Seq<char>, key: Seq<char>) -> Seq<char> {
    trim_start(l).skip(key.len() as int)
}

/// A `key` line of a `[Behaviour]` section.
pub open spec fn behaviour_entry(ls: Seq<Seq<char>>, i: int, key: Seq<char>) -> bool {
    is_entry(ls, i, behaviour_header(), key)
}

/// Some line before `p` is a `key` line of a `[Behaviour]` section.
pub open spec fn has_behaviour_entry(ls: Seq<Seq<char>>, p: int, key: Seq<char>) -> bool {
    exists|k: int| 0 <= k < p && behaviour_entry(ls, k, key)
}

/// Every `key` line of a `[Behaviour]` section before `p` names `font`.
pub open spec fn entries_name(ls: Seq<Seq<char>>, p: int, key: Seq<char>, font: Seq<char>) -> bool {
    forall|k: int| 0 <= k < p && behaviour_entry(ls, k, key) ==> font_value(ls[k], key) == font
}

/// Some line before `i` opens `[Behaviour]`.
pub open spec fn opens_behaviour_before(ls: Seq<Seq<char>>, i: int) -> bool {
    exists|j: int| 0 <= j < i && trim(ls[j]) == behaviour_header()
}

proof fn lemma_font_keys()
    ensures
        override_key().len() > 0,
        fallback_key().len() > 0,
        !crate::text::is_white_space(override_key()[0]),
        !crate::text::is_white_space(fallback_key()[0]),
        override_key()[0] != '[',
        fallback_key()[0] != '[',
        override_key()[0] != fallback_key()[0],
        behaviour_header().len() > 0,
        behaviour_header()[0] == '[',
{
    reveal_strlit("OverrideFontTextMeshPro=");
    reveal_strlit("FallbackFontTextMeshPro=");
    reveal_strlit("[Behaviour]");
}

/// A key line at `x` inside `[Behaviour]` is an entry for its key, names
/// the font, is no entry for the other key, and keeps the scan inside.
proof fn lemma_key_line_at(out: Seq<Seq<char>>, x: int, key: Seq<char>, other: Seq<char>, font: Seq<char>)
    requires
        0 <= x < out.len(),
        (key == override_key() && other == fallback_key()) || (key == fallback_key() && other
            == override_key()),
        out[x] == key + font,
        inside_section(out, x, behaviour_header()),
    ensures
        behaviour_entry(out, x, key),
        font_value(out[x], key) == font,
        !behaviour_entry(out, x, other),
        inside_section(out, x + 1, behaviour_header()),
{
    lemma_font_keys();
    lemma_key_line_is_plain(key, font, behaviour_header());
    let l = key + font;
    assert(l[0] == key[0]);
    if starts_with(trim_start(l), other) {
        assert(l.take(other.len() as int)[0] == other[0]);
    }
}

/// The missing key lines, written at `q` inside `[Behaviour]`, are entries
/// that name the font, and keep the scan inside.
proof fn lemma_missing_at(out: Seq<Seq<char>>, q: int, st: (bool, bool, bool), font: Seq<char>)
    requires
        st.0,
        0 <= q,
        q + missing_key_lines(st, font).len() <= out.len(),
        forall|m: int|
            0 <= m < missing_key_lines(st, font).len() ==> out[q + m] == #[trigger] missing_key_lines(
                st,
                font,
            )[m],
        inside_section(out, q, behaviour_header()),
        entries_name(out, q, override_key(), font),
        entries_name(out, q, fallback_key(), font),
    ensures
        inside_section(out, q + missing_key_lines(st, font).len(), behaviour_header()),
        entries_name(out, q + missing_key_lines(st, font).len(), override_key(), font),
        entries_name(out, q + missing_key_lines(st, font).len(), fallback_key(), font),
        !st.1 ==> has_behaviour_entry(out, q + missing_key_lines(st, font).len(), override_key()),
        !st.2 ==> has_behaviour_entry(out, q + missing_key_lines(st, font).len(), fallback_key()),
{
    let ms = missing_key_lines(st, font);
    let mut x = q;
    if !st.1 {
        assert(ms[0] == override_key() + font);
        assert(out[q] == ms[0]);
        lemma_key_line_at(out, q, override_key(), fallback_key(), font);
        x = q + 1;
    }
    assert(inside_section(out, x, behaviour_header()));
    assert(entries_name(out, x, override_key(), font));
    assert(entries_name(out, x, fallback_key(), font));
    if !st.2 {
        assert(ms[x - q] == fallback_key() + font);
        assert(out[x] == ms[x - q]);
        lemma_key_line_at(out, x, fallback_key(), override_key(), font);
        x = x + 1;
    }
    assert(x == q + ms.len());
}

/// What reading the rewritten lines finds, up to the lines written for the
/// first `i` input lines.
proof fn lemma_font_scan_out(ls: Seq<Seq<char>>, font: Seq<char>, i: int)
    requires
        0 <= i <= ls.len(),
    ensures
        ({
            let out = font_out_lines(ls, font);
            let p = line_pieces(ls, i, font).len() as int;
            let st = font_scan(ls, i);
            &&& p <= out.len()
            &&& inside_section(out, p, behaviour_header()) == st.0
            &&& entries_name(out, p, override_key(), font)
            &&& entries_name(out, p, fallback_key(), font)
            &&& st.1 ==> has_behaviour_entry(out, p, override_key())
            &&& st.2 ==> has_behaviour_entry(out, p, fallback_key())
            &&& opens_behaviour_before(ls, i) ==> (has_behaviour_entry(out, p, override_key()) || st.0)
            &&& opens_behaviour_before(ls, i) ==> (has_behaviour_entry(out, p, fallback_key()) || st.0)
        }),
    decreases i,
{
    let out = font_out_lines(ls, font);
    let n = ls.len() as int;
    lemma_pieces_prefix(ls, font, i, n);
    if i > 0 {
        let j = i - 1;
        lemma_font_scan_out(ls, font, j);
        lemma_font_keys();
        let q = line_pieces(ls, j, font).len() as int;
        let piece = piece_lines(ls, j, font);
        let p = line_pieces(ls, i, font).len() as int;
        let st = font_scan(ls, j);
        let l = ls[j];
        assert(p == q + piece.len());
        assert forall|m: int| 0 <= m < piece.len() implies out[q + m] == #[trigger] piece[m] by {
            assert(line_pieces(ls, i, font)[q + m] == piece[m]);
            assert(out[q + m] == line_pieces(ls, n, font)[q + m]);
        }
        assert(opens_behaviour_before(ls, i) ==> (opens_behaviour_before(ls, j) || trim(l)
            == behaviour_header()));
        if trim(l) == behaviour_header() {
            assert(out[q] == l);
            assert(inside_section(out, q + 1, behaviour_header()));
        } else if is_section_header(l) {
            let ms = missing_key_lines(st, font);
            assert(piece == ms.push(l));
            if st.0 {
                assert forall|m: int| 0 <= m < ms.len() implies out[q + m] == #[trigger] ms[m] by {
                    assert(piece[m] == ms[m]);
                }
                lemma_missing_at(out, q, st, font);
            } else {
                assert(ms.len() == 0);
            }
            let x = q + ms.len();
            assert(out[x] == l) by {
                assert(piece[ms.len() as int] == l);
            }
            assert(!inside_section(out, x + 1, behaviour_header()));
            assert(!behaviour_entry(out, x, override_key()));
            assert(!behaviour_entry(out, x, fallback_key()));
            assert(x + 1 == p);
            assert(opens_behaviour_before(ls, i) == opens_behaviour_before(ls, j));
            if st.0 && st.1 {
                assert(has_behaviour_entry(out, q, override_key()));
            }
            if st.0 && st.2 {
                assert(has_behaviour_entry(out, q, fallback_key()));
            }
        } else if st.0 && starts_with(trim_start(l), override_key()) {
            assert(out[q] == override_key() + font);
            lemma_key_line_at(out, q, override_key(), fallback_key(), font);
        } else if st.0 && starts_with(trim_start(l), fallback_key()) {
            assert(out[q] == fallback_key() + font);
            lemma_key_line_at(out, q, fallback_key(), override_key(), font);
        } else {
            assert(out[q] == l);
            assert(inside_section(out, q + 1, behaviour_header()) == st.0);
            assert(!behaviour_entry(out, q, override_key()));
            assert(!behaviour_entry(out, q, fallback_key()));
            assert(opens_behaviour_before(ls, i) == opens_behaviour_before(ls, j));
        }
    }
}

/// Reading back the rewritten text gives the lines the rewrite wrote.
proof fn lemma_font_reparse(content: Seq<char>, font: Seq<char>)
    requires
        no_trailing_cr(lines_of(content)),
        single_line(font),
    ensures
        lines_of(ini_with_font(content, font)) == font_out_lines(lines_of(content), font),
        ini_with_font(content, font) == terminate_lines(font_out_lines(lines_of(content), font)),
{
    let ls = lines_of(content);
    let n = ls.len() as int;
    let out = font_out_lines(ls, font);
    lemma_font_keys();
    reveal_strlit("OverrideFontTextMeshPro=");
    reveal_strlit("FallbackFontTextMeshPro=");
    lemma_lines_no_newlines(content);
    lemma_pieces_origin(ls, n, font);
    lemma_pieces_prefix(ls, font, n, n);
    // The lines written are the input lines and key lines: no newlines,
    // no final carriage returns.
    let st = font_scan(ls, n);
    let ms = missing_key_lines(st, font);
    let base = line_pieces(ls, n, font);
    assert forall|k: int| 0 <= k < out.len() implies from_input_or_key(#[trigger] out[k], ls, font) by {
        if k < base.len() {
            assert(out[k] == base[k]);
        } else {
            assert(out[k] == ms[k - base.len()]);
        }
    }
    assert(no_newlines(out)) by {
        assert forall|k: int, c: int| 0 <= k < out.len() && 0 <= c < out[k].len() implies #[trigger] out[k][c]
            != '\n' by {
            assert(from_input_or_key(out[k], ls, font));
            if out[k] == override_key() + font {
                if c >= override_key().len() {
                    assert(out[k][c] == font[c - override_key().len()]);
                }
            } else if out[k] == fallback_key() + font {
                if c >= fallback_key().len() {
                    assert(out[k][c] == font[c - fallback_key().len()]);
                }
            } else {
                let j = choose|j: int| 0 <= j < ls.len() && out[k] == ls[j];
                assert(ls[j][c] != '\n');
            }
        }
    }
    lemma_lines_of_terminated(out);
    lemma_font_text_is_terminated(ls, font);
    assert(lines_of(ini_with_font(content, font)) =~= out) by {
        assert forall|k: int| 0 <= k < out.len() implies strip_cr(#[trigger] out[k]) == out[k] by {
            assert(from_input_or_key(out[k], ls, font));
            if out[k] == override_key() + font {
                if font.len() > 0 {
                    assert(out[k].last() == font[font.len() - 1]);
                } else {
                    assert(out[k].last() == override_key().last());
                }
            } else if out[k] == fallback_key() + font {
                if font.len() > 0 {
                    assert(out[k].last() == font[font.len() - 1]);
                } else {
                    assert(out[k].last() == fallback_key().last());
                }
            } else {
                let j = choose|j: int| 0 <= j < ls.len() && out[k] == ls[j];
                assert(strip_cr(ls[j]) == ls[j]);
            }
        }
    }
}

/// The font rewrite points `[Behaviour]` at the font: read back, every
/// `OverrideFontTextMeshPro=` and `FallbackFontTextMeshPro=` line of a
/// `[Behaviour]` section names `font`, and a text with a `[Behaviour]`
/// section has at least one of each. This holds for texts none of whose
/// lines ends in a carriage return that `str::lines` keeps, and for a font
/// path on one line.
pub proof fn law_font_read_back(content: Seq<char>, font: Seq<char>)
    requires
        no_trailing_cr(lines_of(content)),
        single_line(font),
    ensures
        ({
            let rs = lines_of(ini_with_font(content, font));
            &&& entries_name(rs, rs.len() as int, override_key(), font)
            &&& entries_name(rs, rs.len() as int, fallback_key(), font)
            &&& opens_behaviour_before(lines_of(content), lines_of(content).len() as int) ==> {
                &&& has_behaviour_entry(rs, rs.len() as int, override_key())
                &&& has_behaviour_entry(rs, rs.len() as int, fallback_key())
            }
        }),
{
    let ls = lines_of(content);
    let n = ls.len() as int;
    let out = font_out_lines(ls, font);
    lemma_font_keys();
    lemma_font_reparse(content, font);
    lemma_pieces_prefix(ls, font, n, n);
    let st = font_scan(ls, n);
    let ms = missing_key_lines(st, font);
    let base = line_pieces(ls, n, font);
    assert forall|k: int| 0 <= k < ms.len() implies out[base.len() + k] == #[trigger] ms[k] by {}
    lemma_font_scan_out(ls, font, n);
    let q = base.len() as int;
    if st.0 {
        assert forall|m: int| 0 <= m < ms.len() implies out[q + m] == #[trigger] ms[m] by {}
        lemma_missing_at(out, q, st, font);
    } else {
        assert(ms.len() == 0);
    }
    assert(q + ms.len() == out.len());
    if st.0 && st.1 {
        assert(has_behaviour_entry(out, out.len() as int, override_key()));
    }
    if st.0 && st.2 {
        assert(has_behaviour_entry(out, out.len() as int, fallback_key()));
    }
}

/// Applying a language's font and reading the INI text back: every
/// override and fallback line of `[Behaviour]` names that language's font
/// bundle path, and a text with a `[Behaviour]` section has both keys. This
/// holds for texts none of whose lines ends in a carriage return that
/// `str::lines` keeps.
pub proof fn law_fallback_font_read_back(content: Seq<char>, language_code: Seq<char>)
    requires
        no_trailing_cr(lines_of(content)),
    ensures
        font_update_outcome(Some(content), language_code, fallback_font_prefix()) matches Ok(u) && ({
            let rs = lines_of(u.0);
            let font = font_bundle_path(language_code);
            &&& entries_name(rs, rs.len() as int, override_key(), font)
            &&& entries_name(rs, rs.len() as int, fallback_key(), font)
            &&& opens_behaviour_before(lines_of(content), lines_of(content).len() as int) ==> {
                &&& has_behaviour_entry(rs, rs.len() as int, override_key())
                &&& has_behaviour_entry(rs, rs.len() as int, fallback_key())
            }
        }),
{
    reveal_strlit("UserData\\fonts/");
    reveal_strlit("thai_font");
    reveal_strlit("devanagari_font");
    reveal_strlit("georgian_font");
    reveal_strlit("arabic_font");
    reveal_strlit("arialuni_sdf_u2019");
    let font = font_bundle_path(language_code);
    let prefix = "UserData\\fonts/"@;
    let name = match special_font(language_code) {
        Some(f) => f,
        None => "arialuni_sdf_u2019"@,
    };
    assert(single_line(font)) by {
        assert forall|j: int| 0 <= j < font.len() implies #[trigger] font[j] != '\n' && font[j] != '\r' by {
            if j < prefix.len() {
                assert(font[j] == prefix[j]);
            } else {
                assert(font[j] == name[j - prefix.len()]);
            }
        }
    }
    law_font_read_back(content, font);
}

// ---------------------------------------------------------------------
// Rewriting twice.

/// At most one line opens `[Behaviour]`.
pub open spec fn single_behaviour(ls: Seq<Seq<char>>) -> bool {
    forall|i: int, j: int|
        0 <= i < ls.len() && 0 <= j < ls.len() && trim(#[trigger] ls[i]) == behaviour_header() && trim(
            #[trigger] ls[j],
        ) == behaviour_header() ==> i == j
}

/// A key line is neither a header nor `[Behaviour]`, and starts with its
/// own key only.
proof fn lemma_key_line_shape(key: Seq<char>, other: Seq<char>, font: Seq<char>)
    requires
        (key == override_key() && other == fallback_key()) || (key == fallback_key() && other
            == override_key()),
    ensures
        trim(key + font) != behaviour_header(),
        !is_section_header(key + font),
        starts_with(trim_start(key + font), key),
        !starts_with(trim_start(key + font), other),
{
    lemma_font_keys();
    lemma_key_line_is_plain(key, font, behaviour_header());
    let l = key + font;
    assert(l[0] == key[0]);
    if starts_with(trim_start(l), other) {
        assert(l.take(other.len() as int)[0] == other[0]);
    }
}

/// The second pass over the missing key lines written by the first: it
/// rewrites them with its own font and then counts both keys as written.
proof fn lemma_second_pass_missing(
    out: Seq<Seq<char>>,
    q: int,
    st: (bool, bool, bool),
    f1: Seq<char>,
    f2: Seq<char>,
)
    requires
        st.0,
        0 <= q,
        q + missing_key_lines(st, f1).len() <= out.len(),
        forall|m: int|
            0 <= m < missing_key_lines(st, f1).len() ==> out[q + m] == #[trigger] missing_key_lines(
                st,
                f1,
            )[m],
        font_scan(out, q) == st,
    ensures
        line_pieces(out, q + missing_key_lines(st, f1).len(), f2) == line_pieces(out, q, f2)
            + missing_key_lines(st, f2),
        font_scan(out, q + missing_key_lines(st, f1).len()) == (true, true, true),
{
    let ms = missing_key_lines(st, f1);
    let ok = override_key();
    let fk = fallback_key();
    lemma_key_line_shape(ok, fk, f1);
    lemma_key_line_shape(fk, ok, f1);
    let mut x = q;
    let mut acc: Seq<Seq<char>> = Seq::empty();
    if !st.1 {
        assert(ms[0] == ok + f1);
        assert(out[q + 0] == ms[0]);
        assert(out[q] == ok + f1);
        assert(piece_lines(out, q, f2) == seq![ok + f2]);
        assert(font_scan(out, q + 1) == (true, true, st.2));
        acc = seq![ok + f2];
        x = q + 1;
    }
    assert(line_pieces(out, x, f2) == line_pieces(out, q, f2) + acc);
    assert(font_scan(out, x) == (true, true, st.2));
    if !st.2 {
        assert(ms[x - q] == fk + f1);
        assert(out[x] == fk + f1);
        assert(piece_lines(out, x, f2) == seq![fk + f2]);
        assert(font_scan(out, x + 1) == (true, true, true));
        assert(line_pieces(out, x + 1, f2) == line_pieces(out, x, f2) + seq![fk + f2]);
        acc = acc + seq![fk + f2];
        x = x + 1;
    }
    assert(x == q + ms.len());
    assert(acc =~= missing_key_lines(st, f2));
    assert(line_pieces(out, x, f2) =~= line_pieces(out, q, f2) + acc);
}

/// The second pass over the lines written by the first for the first `i`
/// input lines writes what a single pass with its font writes for them.
proof fn lemma_rewrite_twice(ls: Seq<Seq<char>>, f1: Seq<char>, f2: Seq<char>, i: int)
    requires
        0 <= i <= ls.len(),
        single_behaviour(ls),
    ensures
        ({
            let out = font_out_lines(ls, f1);
            let p = line_pieces(ls, i, f1).len() as int;
            let st = font_scan(ls, i);
            let g = font_scan(out, p);
            &&& p <= out.len()
            &&& line_pieces(out, p, f2) == line_pieces(ls, i, f2)
            &&& g.0 == st.0
            &&& st.0 ==> g == st
            &&& !opens_behaviour_before(ls, i) ==> st == (false, false, false) && g == (
                false,
                false,
                false,
            )
        }),
    decreases i,
{
    let out = font_out_lines(ls, f1);
    let n = ls.len() as int;
    lemma_pieces_prefix(ls, f1, i, n);
    if i > 0 {
        let j = i - 1;
        lemma_rewrite_twice(ls, f1, f2, j);
        let q = line_pieces(ls, j, f1).len() as int;
        let piece = piece_lines(ls, j, f1);
        let p = line_pieces(ls, i, f1).len() as int;
        let st = font_scan(ls, j);
        let g = font_scan(out, q);
        let l = ls[j];
        let ok = override_key();
        let fk = fallback_key();
        lemma_key_line_shape(ok, fk, f1);
        lemma_key_line_shape(fk, ok, f1);
        assert(p == q + piece.len());
        assert forall|m: int| 0 <= m < piece.len() implies out[q + m] == #[trigger] piece[m] by {
            assert(line_pieces(ls, i, f1)[q + m] == piece[m]);
            assert(out[q + m] == line_pieces(ls, n, f1)[q + m]);
        }
        assert(line_pieces(ls, i, f2) == line_pieces(ls, j, f2) + piece_lines(ls, j, f2));
        if st.0 {
            assert(opens_behaviour_before(ls, j));
        }
        if trim(l) == behaviour_header() {
            assert(!opens_behaviour_before(ls, j)) by {
                if opens_behaviour_before(ls, j) {
                    let k = choose|k: int| 0 <= k < j && trim(ls[k]) == behaviour_header();
                    assert(k == j);
                }
            }
            assert(out[q] == l);
            assert(piece_lines(out, q, f2) == seq![l]);
            assert(line_pieces(out, q + 1, f2) == line_pieces(out, q, f2) + seq![l]);
        } else if is_section_header(l) {
            let ms = missing_key_lines(st, f1);
            assert(piece == ms.push(l));
            assert(opens_behaviour_before(ls, i) == opens_behaviour_before(ls, j));
            if st.0 {
                assert forall|m: int| 0 <= m < ms.len() implies out[q + m] == #[trigger] ms[m] by {
                    assert(piece[m] == ms[m]);
                }
                lemma_second_pass_missing(out, q, st, f1, f2);
            } else {
                assert(ms.len() == 0);
                assert(ms =~= missing_key_lines(st, f2));
            }
            let x = q + ms.len();
            assert(out[x] == l) by {
                assert(piece[ms.len() as int] == l);
            }
            assert(!font_scan(out, x).0 ==> missing_key_lines(font_scan(out, x), f2) =~= Seq::<
                Seq<char>,
            >::empty());
            assert(missing_key_lines(font_scan(out, x), f2) =~= Seq::<Seq<char>>::empty());
            assert(piece_lines(out, x, f2) =~= seq![l]);
            assert(line_pieces(out, x + 1, f2) == line_pieces(out, x, f2) + seq![l]);
            assert(piece_lines(ls, j, f2) =~= missing_key_lines(st, f2) + seq![l]);
            assert(line_pieces(out, p, f2) =~= line_pieces(ls, i, f2));
        } else if st.0 && starts_with(trim_start(l), ok) {
            assert(out[q] == ok + f1);
            assert(piece_lines(out, q, f2) == seq![ok + f2]);
            assert(line_pieces(out, q + 1, f2) == line_pieces(out, q, f2) + seq![ok + f2]);
        } else if st.0 && starts_with(trim_start(l), fk) {
            assert(out[q] == fk + f1);
            assert(piece_lines(out, q, f2) == seq![fk + f2]);
            assert(line_pieces(out, q + 1, f2) == line_pieces(out, q, f2) + seq![fk + f2]);
        } else {
            assert(out[q] == l);
            assert(opens_behaviour_before(ls, i) == opens_behaviour_before(ls, j));
            assert(piece_lines(out, q, f2) == seq![l]);
            assert(line_pieces(out, q + 1, f2) == line_pieces(out, q, f2) + seq![l]);
        }
    }
}

/// Two rewrites in a row give what the second alone gives, as lines.
proof fn lemma_rewrite_twice_lines(ls: Seq<Seq<char>>, f1: Seq<char>, f2: Seq<char>)
    requires
        single_behaviour(ls),
    ensures
        font_out_lines(font_out_lines(ls, f1), f2) == font_out_lines(ls, f2),
{
    let n = ls.len() as int;
    let out = font_out_lines(ls, f1);
    lemma_rewrite_twice(ls, f1, f2, n);
    let base = line_pieces(ls, n, f1);
    let p = base.len() as int;
    let st = font_scan(ls, n);
    let ms = missing_key_lines(st, f1);
    assert(out.len() == p + ms.len());
    if st.0 {
        assert forall|m: int| 0 <= m < ms.len() implies out[p + m] == #[trigger] ms[m] by {}
        lemma_second_pass_missing(out, p, st, f1, f2);
        assert(missing_key_lines(font_scan(out, out.len() as int), f2) =~= Seq::<Seq<char>>::empty());
    } else {
        assert(ms.len() == 0);
        assert(missing_key_lines(st, f2) =~= Seq::<Seq<char>>::empty());
        assert(missing_key_lines(font_scan(out, p), f2) =~= Seq::<Seq<char>>::empty());
    }
    assert(font_out_lines(out, f2) =~= font_out_lines(ls, f2));
}

/// The last font set wins: rewriting the INI text for `f1` and then for
/// `f2` writes exactly what rewriting it for `f2` alone writes, so no key
/// lines pile up. This holds for texts with at most one `[Behaviour]`
/// line, none of whose lines ends in a carriage return that `str::lines`
/// keeps, and for a first font on one line.
pub proof fn law_font_rewrite_last_wins(content: Seq<char>, f1: Seq<char>, f2: Seq<char>)
    requires
        no_trailing_cr(lines_of(content)),
        single_behaviour(lines_of(content)),
        single_line(f1),
    ensures
        ini_with_font(ini_with_font(content, f1), f2) == ini_with_font(content, f2),
{
    let ls = lines_of(content);
    let w = ini_with_font(content, f1);
    lemma_font_reparse(content, f1);
    lemma_font_text_is_terminated(lines_of(w), f2);
    lemma_font_text_is_terminated(ls, f2);
    lemma_rewrite_twice_lines(ls, f1, f2);
}

/// Rewriting the fonts a second time with the same font changes nothing,
/// on the texts for which `law_font_rewrite_last_wins` holds.
pub proof fn law_font_rewrite_idempotent(content: Seq<char>, font: Seq<char>)
    requires
        no_trailing_cr(lines_of(content)),
        single_behaviour(lines_of(content)),
        single_line(font),
    ensures
        ini_with_font(ini_with_font(content, font), font) == ini_with_font(content, font),
{
    law_font_rewrite_last_wins(content, font, font);
}

/// Which font bundle each language gets: Thai, Hindi and Georgian have
/// their own bundles, Arabic, Persian and Urdu share the Arabic one, and
/// every other language code gets the default `arialuni_sdf_u2019`, all
/// under `UserData\fonts/`.
pub proof fn law_font_bundles(code: Seq<char>)
    ensures
        code == "th"@ ==> font_bundle_path(code) == "UserData\\fonts/"@ + "thai_font"@,
        code == "hi"@ ==> font_bundle_path(code) == "UserData\\fonts/"@ + "devanagari_font"@,
        code == "ka"@ ==> font_bundle_path(code) == "UserData\\fonts/"@ + "georgian_font"@,
        code == "ar"@ || code == "fa"@ || code == "ur"@ ==> font_bundle_path(code)
            == "UserData\\fonts/"@ + "arabic_font"@,
        code != "th"@ && code != "hi"@ && code != "ka"@ && code != "ar"@ && code != "fa"@ && code
            != "ur"@ ==> font_bundle_path(code) == "UserData\\fonts/"@ + "arialuni_sdf_u2019"@,
{
    reveal_strlit("th");
    reveal_strlit("hi");
    reveal_strlit("ka");
    reveal_strlit("ar");
    reveal_strlit("fa");
    reveal_strlit("ur");
    assert("hi"@[0] != "th"@[0]);
    assert("ka"@[0] != "th"@[0] && "ka"@[0] != "hi"@[0]);
    assert("ar"@[0] != "th"@[0] && "ar"@[0] != "hi"@[0] && "ar"@[0] != "ka"@[0]);
    assert("fa"@[0] != "th"@[0] && "fa"@[0] != "hi"@[0] && "fa"@[0] != "ka"@[0]);
    assert("ur"@[0] != "th"@[0] && "ur"@[0] != "hi"@[0] && "ur"@[0] != "ka"@[0]);
}

/// How many of the first `n` bundled fonts are not installed.
pub open spec fn missing_count(installed: Seq<bool>, n: int) -> int
    decreases n,
{
    if n <= 0 {
        0
    } else {
        missing_count(installed, n - 1) + if installed[n - 1] {
            0int
        } else {
            1int
        }
    }
}

proof fn lemma_bundled_names_distinct()
    ensures
        forall|i: int, j: int|
            0 <= i < 5 && 0 <= j < 5 && i != j ==> #[trigger] bundled_font_names()[i]
                != #[trigger] bundled_font_names()[j],
{
    reveal_strlit("arialuni_sdf_u2019");
    reveal_strlit("arabic_font");
    reveal_strlit("devanagari_font");
    reveal_strlit("georgian_font");
    reveal_strlit("thai_font");
    let b = bundled_font_names();
    assert(b[0].len() == 18 && b[1].len() == 11 && b[2].len() == 15 && b[3].len() == 13 && b[4].len() == 9);
}

proof fn lemma_missing_fonts(installed: Seq<bool>, n: int)
    requires
        0 <= n <= installed.len(),
        installed.len() == 5,
    ensures
        missing_fonts(installed, n).len() == missing_count(installed, n),
        forall|i: int|
            0 <= i < n && !installed[i] ==> 0 <= missing_count(installed, i) < missing_count(installed, n)
                && missing_fonts(installed, n)[#[trigger] missing_count(installed, i)]
                == bundled_font_names()[i],
        forall|k: int|
            0 <= k < missing_fonts(installed, n).len() ==> exists|j: int|
                0 <= j < n && !installed[j] && #[trigger] missing_fonts(installed, n)[k]
                    == bundled_font_names()[j],
    decreases n,
{
    if n > 0 {
        lemma_missing_fonts(installed, n - 1);
        let prev = missing_fonts(installed, n - 1);
        let cur = missing_fonts(installed, n);
        assert forall|i: int| 0 <= i < n && !installed[i] implies 0 <= missing_count(installed, i)
            < missing_count(installed, n) && cur[#[trigger] missing_count(installed, i)]
            == bundled_font_names()[i] by {
            if i < n - 1 {
                assert(cur[missing_count(installed, i)] == prev[missing_count(installed, i)]);
            }
        }
        assert forall|k: int| 0 <= k < cur.len() implies exists|j: int|
            0 <= j < n && !installed[j] && #[trigger] cur[k] == bundled_font_names()[j] by {
            if k < prev.len() {
                assert(cur[k] == prev[k]);
                let j = choose|j: int| 0 <= j < n - 1 && !installed[j] && prev[k] == bundled_font_names()[j];
                assert(0 <= j < n && !installed[j] && cur[k] == bundled_font_names()[j]);
            } else {
                assert(cur[k] == bundled_font_names()[n - 1]);
            }
        }
    }
}

/// Each bundled font is judged by its own installed flag: the fonts to
/// install are exactly those whose flag is off, each once, in the order of
/// the bundle list. Font `i` sits at the position given by how many fonts
/// before it are missing, and a font that is installed is not in the list.
pub proof fn law_fonts_to_install_by_flag(installed: Seq<bool>)
    requires
        installed.len() == bundled_font_names().len(),
    ensures
        ({
            let r = missing_fonts(installed, installed.len() as int);
            &&& r.len() == missing_count(installed, 5)
            &&& forall|i: int|
                0 <= i < 5 && !installed[i] ==> r[#[trigger] missing_count(installed, i)]
                    == bundled_font_names()[i]
            &&& forall|i: int| 0 <= i < 5 ==> (r.contains(#[trigger] bundled_font_names()[i]) <==> !installed[i])
        }),
{
    lemma_missing_fonts(installed, 5);
    lemma_bundled_names_distinct();
    let r = missing_fonts(installed, 5);
    assert forall|i: int| 0 <= i < 5 implies (r.contains(#[trigger] bundled_font_names()[i])
        <==> !installed[i]) by {
        if !installed[i] {
            assert(r[missing_count(installed, i)] == bundled_font_names()[i]);
        } else if r.contains(bundled_font_names()[i]) {
            let k = choose|k: int| 0 <= k < r.len() && r[k] == bundled_font_names()[i];
            let j = choose|j: int| 0 <= j < 5 && !installed[j] && r[k] == bundled_font_names()[j];
            assert(bundled_font_names()[i] == bundled_font_names()[j]);
        }
    }
}

} // verus!
