//! The translator's `AutoTranslatorConfig.ini`: which language its
//! `[General]` section names, and rewriting that language.
//!
//! A line opens a section when, trimmed, it is the section's header; any
//! other line that starts with `[` and ends with `]` closes it.
use vstd::prelude::*;
use crate::text::{
    chars_of, leading_space_len, push_char, push_chars, starts_with, string_of_range, trim,
    trim_start, trimmed_equals, trimmed_start_has_prefix,
};
use crate::text::{is_white_space, lemma_trim_start_first, trim_end};
use crate::lines::{
    lemma_lines_no_newlines, lemma_lines_of_terminated, lines_of, no_newlines, no_trailing_cr,
    split_lines, strip_cr, terminate_lines,
};

verus! {

/// A line that starts with `[` and ends with `]`.
pub open spec fn is_section_header(l: Seq<char>) -> bool {
    l.len() > 0 && l[0] == '[' && l.last() == ']'
}

/// Whether the line before index `i` leaves the scan inside the section
/// whose header is `name`: the last line before `i` that is either `name`
/// (trimmed) or a header decides.
pub open spec fn inside_section(ls: Seq<Seq<char>>, i: int, name: Seq<char>) -> bool
    decreases i,
{
    if i <= 0 || i > ls.len() {
        false
    } else if trim(ls[i - 1]) == name {
        true
    } else if is_section_header(ls[i - 1]) {
        false
    } else {
        inside_section(ls, i - 1, name)
    }
}

/// Whether line `i` is `key...` (after leading white space) inside the
/// section `name`, and is neither that section's header nor any header.
pub open spec fn is_entry(ls: Seq<Seq<char>>, i: int, name: Seq<char>, key: Seq<char>) -> bool {
    &&& trim(ls[i]) != name
    &&& !is_section_header(ls[i])
    &&& inside_section(ls, i, name)
    &&& starts_with(trim_start(ls[i]), key)
}

pub open spec fn general_header() -> Seq<char> {
    "[General]"@
}

pub open spec fn language_key() -> Seq<char> {
    "Language="@
}

pub open spec fn is_language_entry(ls: Seq<Seq<char>>, i: int) -> bool {
    is_entry(ls, i, general_header(), language_key())
}

/// The value of the first `Language=` line of a `[General]` section at or
/// after line `i`, or the empty text when there is none.
pub open spec fn language_from(ls: Seq<Seq<char>>, i: int) -> Seq<char>
    decreases ls.len() - i,
{
    if i < 0 || i >= ls.len() {
        Seq::empty()
    } else if is_language_entry(ls, i) {
        trim_start(ls[i]).skip(language_key().len() as int)
    } else {
        language_from(ls, i + 1)
    }
}

/// The language that an INI text configures.
pub open spec fn configured_language(content: Seq<char>) -> Seq<char> {
    language_from(lines_of(content), 0)
}

/// The lines with every `Language=` line of a `[General]` section replaced
/// by `Language=<code>`.
pub open spec fn lines_with_language(ls: Seq<Seq<char>>, code: Seq<char>) -> Seq<Seq<char>> {
    Seq::new(
        ls.len(),
        |i: int|
            if is_language_entry(ls, i) {
                language_key() + code
            } else {
                ls[i]
            },
    )
}

/// The INI text with its language set to `code`: every line, rewritten as
/// above, followed by a newline.
pub open spec fn ini_with_language(content: Seq<char>, code: Seq<char>) -> Seq<char> {
    terminate_lines(lines_with_language(lines_of(content), code))
}

/// Whether `l` starts with `[` and ends with `]`.
pub fn section_header(l: &Vec<char>) -> (r: bool)
    ensures
        r == is_section_header(l@),
{
    l.len() > 0 && l[0] == '[' && l[l.len() - 1] == ']'
}

/// The language configured by the translator's INI text: the value of the
/// first `Language=` line in a `[General]` section, or the empty string
/// when there is none.
pub fn language_in(content: &str) -> (r: String)
    ensures
        r@ == configured_language(content@),
{
    let text = chars_of(content);
    let ls = split_lines(&text);
    let general = chars_of("[General]");
    let key = chars_of("Language=");
    let ghost lv = ls.deep_view();
    let mut inside = false;
    let mut i: usize = 0;
    while i < ls.len()
        invariant
            lv == ls.deep_view(),
            lv == lines_of(content@),
            general@ == general_header(),
            key@ == language_key(),
            i <= ls.len(),
            inside == inside_section(lv, i as int, general_header()),
            language_from(lv, 0) == language_from(lv, i as int),
        decreases ls.len() - i,
    {
        let line = &ls[i];
        assert(lv[i as int] == line@);
        if trimmed_equals(line, &general) {
            inside = true;
        } else if section_header(line) {
            inside = false;
        } else if inside && trimmed_start_has_prefix(line, &key) {
            let k = leading_space_len(line);
            assert(trim_start(line@).skip(key@.len() as int) =~= line@.subrange(
                k + key.len(),
                line@.len() as int,
            ));
            return string_of_range(line, k + key.len(), line.len());
        }
        i = i + 1;
    }
    String::new()
}

/// The language of the translator, read from its INI file: the empty
/// string when the file does not exist (`None`).
pub fn get_current_language_from_ini(ini: Option<&str>) -> (r: String)
    ensures
        r@ == match ini {
            Some(content) => configured_language(content@),
            None => Seq::empty(),
        },
{
    match ini {
        Some(content) => language_in(content),
        None => String::new(),
    }
}

/// The translator's INI text with its language set to `language_code`:
/// every `Language=` line of a `[General]` section becomes
/// `Language=<language_code>`, all other lines are kept, and every line is
/// written back followed by `\n`.
pub fn update_auto_translator_ini(content: &str, language_code: &str) -> (r: String)
    ensures
        r@ == ini_with_language(content@, language_code@),
{
    let text = chars_of(content);
    let ls = split_lines(&text);
    let code = chars_of(language_code);
    let general = chars_of("[General]");
    let key = chars_of("Language=");
    let ghost lv = ls.deep_view();
    let ghost target = lines_with_language(lv, code@);
    let mut out = String::new();
    let mut inside = false;
    let mut i: usize = 0;
    while i < ls.len()
        invariant
            lv == ls.deep_view(),
            lv == lines_of(content@),
            target == lines_with_language(lv, code@),
            general@ == general_header(),
            key@ == language_key(),
            i <= ls.len(),
            inside == inside_section(lv, i as int, general_header()),
            out@ == terminate_lines(target.take(i as int)),
        decreases ls.len() - i,
    {
        let line = &ls[i];
        assert(lv[i as int] == line@);
        if trimmed_equals(line, &general) {
            inside = true;
            push_chars(&mut out, line);
        } else if section_header(line) {
            inside = false;
            push_chars(&mut out, line);
        } else if inside && trimmed_start_has_prefix(line, &key) {
            push_chars(&mut out, &key);
            push_chars(&mut out, &code);
            assert(key@ + code@ == target[i as int]);
        } else {
            push_chars(&mut out, line);
        }
        push_char(&mut out, '\n');
        assert(target.take(i + 1).drop_last() =~= target.take(i as int));
        assert(out@ =~= terminate_lines(target.take(i + 1)));
        i = i + 1;
    }
    assert(target.take(ls.len() as int) =~= target);
    out
}


/// Some line of `ls` is a `Language=` line of a `[General]` section.
pub open spec fn has_language_entry(ls: Seq<Seq<char>>) -> bool {
    exists|i: int| 0 <= i < ls.len() && is_language_entry(ls, i)
}

/// A text on one line, with no carriage return.
pub open spec fn single_line(s: Seq<char>) -> bool {
    forall|j: int| 0 <= j < s.len() ==> #[trigger] s[j] != '\n' && s[j] != '\r'
}

/// A text that starts with a character that is not white space keeps that
/// character first when trimmed.
pub proof fn lemma_trim_keeps_first(s: Seq<char>)
    requires
        s.len() > 0,
        !is_white_space(s[0]),
    ensures
        trim_start(s) == s,
        trim(s).len() > 0,
        trim(s)[0] == s[0],
    decreases s.len(),
{
    lemma_trim_start_first(s);
    lemma_trim_end_keeps_first(s);
}

proof fn lemma_trim_end_keeps_first(s: Seq<char>)
    requires
        s.len() > 0,
        !is_white_space(s[0]),
    ensures
        trim_end(s).len() > 0,
        trim_end(s)[0] == s[0],
    decreases s.len(),
{
    if is_white_space(s.last()) {
        lemma_trim_end_keeps_first(s.drop_last());
    }
}

/// A `key + value` line whose key starts with a letter is neither a header
/// nor the opening line of a section whose header starts with `[`.
pub proof fn lemma_key_line_is_plain(key: Seq<char>, value: Seq<char>, name: Seq<char>)
    requires
        key.len() > 0,
        !is_white_space(key[0]),
        key[0] != '[',
        name.len() > 0,
        name[0] == '[',
    ensures
        !is_section_header(key + value),
        trim(key + value) != name,
        trim_start(key + value) == key + value,
        starts_with(trim_start(key + value), key),
        trim_start(key + value).skip(key.len() as int) == value,
{
    let l = key + value;
    assert(l[0] == key[0]);
    lemma_trim_keeps_first(l);
    assert(l.take(key.len() as int) =~= key);
    assert(l.skip(key.len() as int) =~= value);
}

/// Replacing entry lines by key lines leaves the section scan unchanged.
proof fn lemma_language_rewrite_scan(ls: Seq<Seq<char>>, code: Seq<char>, i: int)
    requires
        0 <= i <= ls.len(),
    ensures
        inside_section(lines_with_language(ls, code), i, general_header()) == inside_section(
            ls,
            i,
            general_header(),
        ),
    decreases i,
{
    let rs = lines_with_language(ls, code);
    reveal_strlit("Language=");
    reveal_strlit("[General]");
    if i > 0 {
        lemma_language_rewrite_scan(ls, code, i - 1);
        if is_language_entry(ls, i - 1) {
            lemma_key_line_is_plain(language_key(), code, general_header());
        }
    }
}

/// The entry lines of the rewritten lines are those of the original lines.
proof fn lemma_language_rewrite_entries(ls: Seq<Seq<char>>, code: Seq<char>, i: int)
    requires
        0 <= i < ls.len(),
    ensures
        is_language_entry(lines_with_language(ls, code), i) == is_language_entry(ls, i),
        is_language_entry(ls, i) ==> trim_start(lines_with_language(ls, code)[i]).skip(
            language_key().len() as int,
        ) == code,
{
    reveal_strlit("Language=");
    reveal_strlit("[General]");
    lemma_language_rewrite_scan(ls, code, i);
    if is_language_entry(ls, i) {
        lemma_key_line_is_plain(language_key(), code, general_header());
    }
}

proof fn lemma_language_rewrite_value(ls: Seq<Seq<char>>, code: Seq<char>, i: int)
    requires
        0 <= i <= ls.len(),
    ensures
        language_from(lines_with_language(ls, code), i) == if exists|j: int|
            i <= j < ls.len() && is_language_entry(ls, j) {
            code
        } else {
            Seq::<char>::empty()
        },
    decreases ls.len() - i,
{
    if i < ls.len() {
        lemma_language_rewrite_entries(ls, code, i);
        lemma_language_rewrite_value(ls, code, i + 1);
        if !is_language_entry(ls, i) {
            if exists|j: int| i <= j < ls.len() && is_language_entry(ls, j) {
                let j = choose|j: int| i <= j < ls.len() && is_language_entry(ls, j);
                assert(i + 1 <= j);
            }
        }
    }
}

/// Setting the language and reading it back gives the language set: once
/// `update_auto_translator_ini` has rewritten an INI text that has a
/// `Language=` line in `[General]`, `get_current_language_from_ini` reads
/// `code` from it. This holds for texts none of whose lines ends in a
/// carriage return that `str::lines` keeps, and for a code on one line.
pub proof fn law_language_read_back(content: Seq<char>, code: Seq<char>)
    requires
        has_language_entry(lines_of(content)),
        no_trailing_cr(lines_of(content)),
        single_line(code),
    ensures
        configured_language(ini_with_language(content, code)) == code,
{
    let ls = lines_of(content);
    let rs = lines_with_language(ls, code);
    reveal_strlit("Language=");
    lemma_lines_no_newlines(content);
    assert(no_newlines(rs)) by {
        assert forall|i: int, j: int| 0 <= i < rs.len() && 0 <= j < rs[i].len() implies #[trigger] rs[i][j]
            != '\n' by {
            if is_language_entry(ls, i) {
                if j >= language_key().len() {
                    assert(rs[i][j] == code[j - language_key().len()]);
                }
            }
        }
    }
    lemma_lines_of_terminated(rs);
    assert(lines_of(terminate_lines(rs)) =~= rs) by {
        assert forall|i: int| 0 <= i < rs.len() implies strip_cr(#[trigger] rs[i]) == rs[i] by {
            if is_language_entry(ls, i) {
                if code.len() > 0 {
                    assert(rs[i].last() == code[code.len() - 1]);
                }
            } else {
                assert(strip_cr(ls[i]) == ls[i]);
            }
        }
    }
    lemma_language_rewrite_value(ls, code, 0);
}

proof fn lemma_not_inside(ls: Seq<Seq<char>>, i: int, name: Seq<char>)
    requires
        forall|k: int| 0 <= k < i ==> trim(#[trigger] ls[k]) != name,
    ensures
        !inside_section(ls, i, name),
    decreases i,
{
    if i > 0 && i <= ls.len() {
        lemma_not_inside(ls, i - 1, name);
    }
}

proof fn lemma_still_inside(ls: Seq<Seq<char>>, g: int, m: int, name: Seq<char>)
    requires
        0 <= g < m <= ls.len(),
        trim(ls[g]) == name,
        forall|k: int| g < k < m ==> !is_section_header(#[trigger] ls[k]),
    ensures
        inside_section(ls, m, name),
    decreases m - g,
{
    if m > g + 1 {
        lemma_still_inside(ls, g, m - 1, name);
    }
}

/// Setting the language touches only `Language=` lines of a `[General]`
/// section, and keeps the number of lines: a line that does not start
/// (after spaces) with `Language=` stays as it was, and so does any line
/// before the first line that trims to `[General]`; a `Language=` line
/// below a `[General]` line (`g`), with no section header between them,
/// becomes `Language=<code>`.
pub proof fn law_language_rewrite(content: Seq<char>, code: Seq<char>, i: int, g: int)
    requires
        0 <= i < lines_of(content).len(),
    ensures
        lines_with_language(lines_of(content), code).len() == lines_of(content).len(),
        !starts_with(trim_start(lines_of(content)[i]), "Language="@) ==> lines_with_language(
            lines_of(content),
            code,
        )[i] == lines_of(content)[i],
        (forall|k: int| 0 <= k < i ==> trim(#[trigger] lines_of(content)[k]) != "[General]"@)
            ==> lines_with_language(lines_of(content), code)[i] == lines_of(content)[i],
        0 <= g < i && trim(lines_of(content)[g]) == "[General]"@ && (forall|k: int|
            g < k < i ==> !(#[trigger] lines_of(content)[k].len() > 0 && lines_of(content)[k][0] == '['
                && lines_of(content)[k].last() == ']')) && starts_with(
            trim_start(lines_of(content)[i]),
            "Language="@,
        ) ==> lines_with_language(lines_of(content), code)[i] == "Language="@ + code,
{
    let ls = lines_of(content);
    let l = ls[i];
    if (forall|k: int| 0 <= k < i ==> trim(#[trigger] ls[k]) != "[General]"@) {
        lemma_not_inside(ls, i, general_header());
    }
    if 0 <= g < i && trim(ls[g]) == "[General]"@ && (forall|k: int|
        g < k < i ==> !(#[trigger] ls[k].len() > 0 && ls[k][0] == '[' && ls[k].last() == ']'))
        && starts_with(trim_start(l), "Language="@) {
        reveal_strlit("Language=");
        reveal_strlit("[General]");
        lemma_still_inside(ls, g, i, general_header());
        let t = trim_start(l);
        assert(t[0] == 'L') by {
            assert(t.take(9)[0] == "Language="@[0]);
        }
        lemma_trim_keeps_first(t);
        lemma_trim_start_first(l);
        assert(trim(l) == trim(t));
        assert(trim(l)[0] != general_header()[0]);
        if l.len() > 0 && l[0] == '[' {
            assert(t == l);
        }
        assert(is_language_entry(ls, i));
    }
}

} // verus!
