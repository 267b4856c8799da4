//! BepInEx's `BepInEx.cfg`: whether the `[Logging.Console]` section turns
//! the console on, and turning it on or off.
use vstd::prelude::*;
use crate::text::{
    ascii_fold, chars_of, contains, contains_chars, eq_ignore_ascii_case, is_white_space,
    lemma_trim_drop_last_space, lemma_trim_start_drop_last, lemma_trim_start_first, push_char, push_chars, starts_with,
    trim, trim_start, trimmed_equals_ignore_ascii_case, trimmed_start_has_prefix,
};
use crate::lines::{
    join_lines, lemma_lines_no_newlines, lemma_lines_of_joined, lines_of, no_newlines, split_lines,
    strip_cr,
};
use crate::ini::{is_section_header, lemma_trim_keeps_first, section_header};

verus! {

pub open spec fn console_header() -> Seq<char> {
    "[Logging.Console]"@
}

pub open spec fn enabled_key() -> Seq<char> {
    "Enabled"@
}

/// A line that, trimmed, is `[Logging.Console]` up to ASCII case.
pub open spec fn opens_console(l: Seq<char>) -> bool {
    eq_ignore_ascii_case(trim(l), console_header())
}

/// Whether the scan is inside `[Logging.Console]` when it reaches line `i`.
pub open spec fn inside_console(ls: Seq<Seq<char>>, i: int) -> bool
    decreases i,
{
    if i <= 0 || i > ls.len() {
        false
    } else if opens_console(ls[i - 1]) {
        true
    } else if is_section_header(ls[i - 1]) {
        false
    } else {
        inside_console(ls, i - 1)
    }
}

/// Line `i` is an `Enabled...` line of the console section.
pub open spec fn is_enabled_entry(ls: Seq<Seq<char>>, i: int) -> bool {
    &&& !opens_console(ls[i])
    &&& !is_section_header(ls[i])
    &&& inside_console(ls, i)
    &&& starts_with(trim_start(ls[i]), enabled_key())
}

/// Whether the first `Enabled` line of the console section at or after line
/// `i` mentions `true`; `false` when there is no such line.
pub open spec fn console_from(ls: Seq<Seq<char>>, i: int) -> bool
    decreases ls.len() - i,
{
    if i < 0 || i >= ls.len() {
        false
    } else if is_enabled_entry(ls, i) {
        contains(ls[i], "true"@)
    } else {
        console_from(ls, i + 1)
    }
}

/// Whether a configuration text turns the console on.
pub open spec fn console_enabled_in(content: Seq<char>) -> bool {
    console_from(lines_of(content), 0)
}

/// The index of the first line at or after `i` that opens the console
/// section.
pub open spec fn first_console_header(ls: Seq<Seq<char>>, i: int) -> Option<int>
    decreases ls.len() - i,
{
    if i < 0 || i >= ls.len() {
        None
    } else if opens_console(ls[i]) {
        Some(i)
    } else {
        first_console_header(ls, i + 1)
    }
}

/// A line that starts with `[`.
pub open spec fn starts_bracket(l: Seq<char>) -> bool {
    l.len() > 0 && l[0] == '['
}

/// The index of the first `Enabled` line at or after `j`, looking no
/// further than the first line that starts with `[`.
pub open spec fn enabled_slot(ls: Seq<Seq<char>>, j: int) -> Option<int>
    decreases ls.len() - j,
{
    if j < 0 || j >= ls.len() {
        None
    } else if starts_bracket(ls[j]) {
        None
    } else if starts_with(trim_start(ls[j]), enabled_key()) {
        Some(j)
    } else {
        enabled_slot(ls, j + 1)
    }
}

/// `Enabled = true` or `Enabled = false`.
pub open spec fn enabled_line(enable: bool) -> Seq<char> {
    if enable {
        "Enabled = true"@
    } else {
        "Enabled = false"@
    }
}

/// The configuration lines with the console switched: the first `Enabled`
/// line after the first console header is replaced, or one is put right
/// after that header, or, with no console section, an empty line, the
/// header and the setting are appended.
pub open spec fn lines_with_console(ls: Seq<Seq<char>>, enable: bool) -> Seq<Seq<char>> {
    match first_console_header(ls, 0) {
        Some(h) => match enabled_slot(ls, h + 1) {
            Some(j) => ls.update(j, enabled_line(enable)),
            None => ls.insert(h + 1, enabled_line(enable)),
        },
        None => ls + seq![Seq::<char>::empty(), console_header(), enabled_line(enable)],
    }
}

/// The lines of an optional configuration text (none for a missing file).
pub open spec fn lines_of_file(cfg: Option<Seq<char>>) -> Seq<Seq<char>> {
    match cfg {
        Some(c) => lines_of(c),
        None => Seq::empty(),
    }
}

/// The configuration text with the console switched, lines joined by `\n`.
pub open spec fn config_with_console(cfg: Option<Seq<char>>, enable: bool) -> Seq<char> {
    join_lines(lines_with_console(lines_of_file(cfg), enable))
}

/// Whether `BepInEx.cfg` turns the console on: the first `Enabled` line of
/// a `[Logging.Console]` section (header compared up to ASCII case) decides
/// by whether it contains `true`; a missing file (`None`) or no such line
/// means off.
pub fn get_console_enabled(cfg: Option<&str>) -> (r: bool)
    ensures
        r == match cfg {
            Some(c) => console_enabled_in(c@),
            None => false,
        },
{
    match cfg {
        Some(c) => console_in(c),
        None => false,
    }
}

/// Whether a configuration text turns the console on.
fn console_in(content: &str) -> (r: bool)
    ensures
        r == console_enabled_in(content@),
{
    let text = chars_of(content);
    let ls = split_lines(&text);
    let header = chars_of("[Logging.Console]");
    let key = chars_of("Enabled");
    let word = chars_of("true");
    let ghost lv = ls.deep_view();
    let mut inside = false;
    let mut i: usize = 0;
    while i < ls.len()
        invariant
            lv == ls.deep_view(),
            lv == lines_of(content@),
            header@ == console_header(),
            key@ == enabled_key(),
            word@ == "true"@,
            i <= ls.len(),
            inside == inside_console(lv, i as int),
            console_from(lv, 0) == console_from(lv, i as int),
        decreases ls.len() - i,
    {
        let line = &ls[i];
        assert(lv[i as int] == line@);
        if trimmed_equals_ignore_ascii_case(line, &header) {
            inside = true;
        } else if section_header(line) {
            inside = false;
        } else if inside && trimmed_start_has_prefix(line, &key) {
            assert(is_enabled_entry(lv, i as int));
            let r = contains_chars(line, &word);
            assert(r == console_from(lv, i as int));
            return r;
        }
        i = i + 1;
    }
    false
}

/// A switched configuration: the new `BepInEx.cfg` text and the message.
pub struct ConsoleUpdate {
    pub config: String,
    pub message: String,
}

/// The index of the first console header.
fn find_console_header(ls: &Vec<Vec<char>>, header: &Vec<char>) -> (r: Option<usize>)
    requires
        header@ == console_header(),
    ensures
        r matches Some(h) ==> h < ls.len() && first_console_header(ls.deep_view(), 0) == Some(h as int),
        r is None ==> first_console_header(ls.deep_view(), 0) is None,
{
    let ghost lv = ls.deep_view();
    let mut i: usize = 0;
    while i < ls.len()
        invariant
            lv == ls.deep_view(),
            header@ == console_header(),
            i <= ls.len(),
            first_console_header(lv, 0) == first_console_header(lv, i as int),
        decreases ls.len() - i,
    {
        assert(lv[i as int] == ls@[i as int]@);
        if trimmed_equals_ignore_ascii_case(&ls[i], header) {
            return Some(i);
        }
        i = i + 1;
    }
    None
}

/// The index of the `Enabled` line that the switch rewrites.
fn find_enabled_slot(ls: &Vec<Vec<char>>, from: usize, key: &Vec<char>) -> (r: Option<usize>)
    requires
        key@ == enabled_key(),
    ensures
        r matches Some(j) ==> j < ls.len() && enabled_slot(ls.deep_view(), from as int) == Some(j as int),
        r is None ==> enabled_slot(ls.deep_view(), from as int) is None,
{
    let ghost lv = ls.deep_view();
    let mut j: usize = from;
    while j < ls.len()
        invariant
            lv == ls.deep_view(),
            key@ == enabled_key(),
            from <= j,
            enabled_slot(lv, from as int) == enabled_slot(lv, j as int),
        decreases ls.len() - j,
    {
        let line = &ls[j];
        assert(lv[j as int] == line@);
        if line.len() > 0 && line[0] == '[' {
            return None;
        }
        if trimmed_start_has_prefix(line, key) {
            return Some(j);
        }
        j = j + 1;
    }
    None
}

/// The lines joined by `\n`.
fn join_with_newlines(ls: &Vec<Vec<char>>) -> (r: String)
    ensures
        r@ == join_lines(ls.deep_view()),
{
    let ghost lv = ls.deep_view();
    let mut out = String::new();
    let mut i: usize = 0;
    while i < ls.len()
        invariant
            lv == ls.deep_view(),
            i <= ls.len(),
            out@ == join_lines(lv.take(i as int)),
        decreases ls.len() - i,
    {
        if i > 0 {
            push_char(&mut out, '\n');
        }
        push_chars(&mut out, &ls[i]);
        assert(lv.take(i + 1).drop_last() =~= lv.take(i as int));
        assert(lv[i as int] == ls@[i as int]@);
        if i == 0 {
            assert(lv.take(1) =~= seq![lv[0]]);
        }
        i = i + 1;
    }
    assert(lv.take(ls.len() as int) =~= lv);
    out
}

/// `BepInEx.cfg` with the console turned on or off: the first `Enabled`
/// line after the first `[Logging.Console]` header (before the next line
/// that starts with `[`) becomes `Enabled = true`/`false`; without one, that
/// line goes right after the header; without the section (or without the
/// file, `None`), an empty line, the header and the setting are appended.
/// The lines are joined by `\n`. The message reports the change.
pub fn set_console_enabled(cfg: Option<&str>, enable: bool) -> (r: ConsoleUpdate)
    ensures
        r.message@ == "Configuración de consola actualizada."@,
        r.config@ == config_with_console(
            match cfg {
                Some(c) => Some(c@),
                None => None,
            },
            enable,
        ),
{
    let mut ls: Vec<Vec<char>> = match cfg {
        Some(c) => split_lines(&chars_of(c)),
        None => Vec::new(),
    };
    let ghost lv = ls.deep_view();
    let header = chars_of("[Logging.Console]");
    let key = chars_of("Enabled");
    let line = if enable {
        chars_of("Enabled = true")
    } else {
        chars_of("Enabled = false")
    };
    match find_console_header(&ls, &header) {
        Some(h) => {
            match find_enabled_slot(&ls, h + 1, &key) {
                Some(j) => {
                    let ghost lw = line@;
                    ls.set(j, line);
                    assert(ls.deep_view() =~= lv.update(j as int, lw)) by {
                        assert forall|k: int| 0 <= k < ls.len() implies ls.deep_view()[k] == lv.update(
                            j as int,
                            lw,
                        )[k] by {
                            assert(ls.deep_view()[k] == ls@[k]@);
                        }
                    }
                },
                None => {
                    let ghost lw = line@;
                    ls.insert(h + 1, line);
                    assert(ls.deep_view() =~= lv.insert(h + 1, lw)) by {
                        assert forall|k: int| 0 <= k < ls.len() implies ls.deep_view()[k] == lv.insert(
                            h + 1,
                            lw,
                        )[k] by {
                            assert(ls.deep_view()[k] == ls@[k]@);
                        }
                    }
                },
            }
        },
        None => {
            let ghost hw = header@;
            let ghost lw = line@;
            ls.push(Vec::new());
            ls.push(header);
            ls.push(line);
            assert(ls.deep_view() =~= lv + seq![Seq::<char>::empty(), hw, lw]) by {
                assert forall|k: int| 0 <= k < ls.len() implies ls.deep_view()[k] == (lv + seq![
                    Seq::<char>::empty(),
                    hw,
                    lw,
                ])[k] by {
                    assert(ls.deep_view()[k] == ls@[k]@);
                }
            }
        },
    }
    assert(ls.deep_view() == lines_with_console(lv, enable));
    ConsoleUpdate {
        config: join_with_newlines(&ls),
        message: String::from_str("Configuración de consola actualizada."),
    }
}


proof fn lemma_first_header(ls: Seq<Seq<char>>, i: int)
    requires
        0 <= i,
    ensures
        first_console_header(ls, i) matches Some(h) ==> {
            &&& i <= h < ls.len()
            &&& opens_console(ls[h])
            &&& forall|k: int| i <= k < h ==> !opens_console(#[trigger] ls[k])
        },
        first_console_header(ls, i) is None ==> forall|k: int|
            i <= k < ls.len() ==> !opens_console(#[trigger] ls[k]),
    decreases ls.len() - i,
{
    if i < ls.len() && !opens_console(ls[i]) {
        lemma_first_header(ls, i + 1);
    }
}

proof fn lemma_enabled_slot(ls: Seq<Seq<char>>, j: int)
    requires
        0 <= j,
    ensures
        enabled_slot(ls, j) matches Some(t) ==> {
            &&& j <= t < ls.len()
            &&& forall|k: int|
                j <= k < t ==> !starts_bracket(#[trigger] ls[k]) && !starts_with(
                    trim_start(ls[k]),
                    enabled_key(),
                )
        },
    decreases ls.len() - j,
{
    if j < ls.len() && !starts_bracket(ls[j]) && !starts_with(trim_start(ls[j]), enabled_key()) {
        lemma_enabled_slot(ls, j + 1);
    }
}

/// What dropping a final carriage return keeps of a line.
proof fn lemma_strip_cr_line(l: Seq<char>)
    ensures
        opens_console(strip_cr(l)) == opens_console(l),
        !starts_bracket(l) ==> !is_section_header(strip_cr(l)),
        !starts_with(trim_start(l), enabled_key()) ==> !starts_with(
            trim_start(strip_cr(l)),
            enabled_key(),
        ),
{
    if l.len() > 0 && l.last() == '\r' {
        assert(is_white_space(l.last()));
        lemma_trim_drop_last_space(l);
        lemma_trim_start_drop_last(l);
        let a = trim_start(l.drop_last());
        let b = trim_start(l);
        if starts_with(a, enabled_key()) {
            assert(b.take(enabled_key().len() as int) =~= a.take(enabled_key().len() as int));
        }
        if strip_cr(l).len() > 0 {
            assert(strip_cr(l)[0] == l[0]);
        }
    }
}

/// Facts about the `Enabled = ...` line that the switch writes.
proof fn lemma_enabled_line(enable: bool)
    ensures
        enabled_line(enable).len() > 0,
        strip_cr(enabled_line(enable)) == enabled_line(enable),
        !opens_console(enabled_line(enable)),
        !is_section_header(enabled_line(enable)),
        starts_with(trim_start(enabled_line(enable)), enabled_key()),
        contains(enabled_line(enable), "true"@) == enable,
        forall|j: int|
            0 <= j < enabled_line(enable).len() ==> #[trigger] enabled_line(enable)[j] != '\n',
{
    reveal_strlit("Enabled = true");
    reveal_strlit("Enabled = false");
    reveal_strlit("Enabled");
    reveal_strlit("true");
    reveal_strlit("[Logging.Console]");
    let l = enabled_line(enable);
    lemma_trim_keeps_first(l);
    assert(ascii_fold(trim(l)[0]) != ascii_fold(console_header()[0]));
    assert(l.take(7) =~= enabled_key());
    let w = "true"@;
    assert(w.len() == 4);
    if enable {
        assert(l.subrange(10int, 10int + w.len()) =~= w);
    } else {
        assert forall|i: int| 0 <= i && i + w.len() <= l.len() implies #[trigger] l.subrange(i, i + w.len()) != w by {
            assert(l.subrange(i, i + w.len())[0] == l[i]);
            assert(l[i] != 't');
        }
    }
}

proof fn lemma_console_header_line()
    ensures
        strip_cr(console_header()) == console_header(),
        opens_console(console_header()),
        !opens_console(Seq::<char>::empty()),
        strip_cr(Seq::<char>::empty()) == Seq::<char>::empty(),
        forall|j: int| 0 <= j < console_header().len() ==> #[trigger] console_header()[j] != '\n',
{
    reveal_strlit("[Logging.Console]");
    let h = console_header();
    lemma_trim_keeps_first(h);
    assert(trim(h) =~= h);
    assert(trim(Seq::<char>::empty()) =~= Seq::<char>::empty());
}

proof fn lemma_outside_console(rs: Seq<Seq<char>>, m: int)
    requires
        0 <= m <= rs.len(),
        forall|k: int| 0 <= k < m ==> !opens_console(#[trigger] rs[k]),
    ensures
        !inside_console(rs, m),
    decreases m,
{
    if m > 0 {
        lemma_outside_console(rs, m - 1);
    }
}

proof fn lemma_stays_inside(rs: Seq<Seq<char>>, a: int, b: int)
    requires
        0 <= a <= b <= rs.len(),
        inside_console(rs, a),
        forall|k: int| a <= k < b ==> !is_section_header(#[trigger] rs[k]),
    ensures
        inside_console(rs, b),
    decreases b - a,
{
    if a < b {
        assert(!is_section_header(rs[b - 1]));
        lemma_stays_inside(rs, a, b - 1);
    }
}

proof fn lemma_console_from_skip(rs: Seq<Seq<char>>, i: int, t: int)
    requires
        0 <= i <= t < rs.len(),
        forall|k: int| i <= k < t ==> !is_enabled_entry(rs, k),
    ensures
        console_from(rs, i) == console_from(rs, t),
    decreases t - i,
{
    if i < t {
        lemma_console_from_skip(rs, i + 1, t);
    }
}

/// Switching the console and reading the switch back gives the switch:
/// `get_console_enabled` of what `set_console_enabled(cfg, enable)` wrote is
/// `enable`, whatever the file held before, and when there was none.
pub proof fn law_console_read_back(cfg: Option<Seq<char>>, enable: bool)
    ensures
        console_enabled_in(config_with_console(cfg, enable)) == enable,
{
    let ls = lines_of_file(cfg);
    let ns = lines_with_console(ls, enable);
    let line = enabled_line(enable);
    let h0 = console_header();
    match cfg {
        Some(c) => {
            lemma_lines_no_newlines(c);
        },
        None => {},
    }
    assert(no_newlines(ls));
    lemma_enabled_line(enable);
    lemma_console_header_line();
    lemma_first_header(ls, 0);
    match first_console_header(ls, 0) {
        Some(h) => lemma_enabled_slot(ls, h + 1),
        None => {},
    }
    assert(no_newlines(ns)) by {
        assert forall|i: int, j: int| 0 <= i < ns.len() && 0 <= j < ns[i].len() implies #[trigger] ns[i][j]
            != '\n' by {
            match first_console_header(ls, 0) {
                Some(h) => match enabled_slot(ls, h + 1) {
                    Some(t) => {
                        if i != t {
                            assert(ns[i] == ls[i]);
                        }
                    },
                    None => {
                        if i < h + 1 {
                            assert(ns[i] == ls[i]);
                        } else if i > h + 1 {
                            assert(ns[i] == ls[i - 1]);
                        }
                    },
                },
                None => {
                    if i < ls.len() {
                        assert(ns[i] == ls[i]);
                    }
                },
            }
        }
    }
    assert(ns.len() >= 1);
    lemma_lines_of_joined(ns);
    let rs = lines_of(join_lines(ns));
    // Every line read back is the line written, less maybe a final `\r`.
    assert(rs.len() >= ns.len() - 1);
    assert forall|k: int| 0 <= k < rs.len() implies #[trigger] rs[k] == strip_cr(ns[k]) || rs[k] == ns[k] by {}
    let t: int = match first_console_header(ls, 0) {
        Some(h) => match enabled_slot(ls, h + 1) {
            Some(j) => j,
            None => h + 1,
        },
        None => ls.len() as int + 2,
    };
    assert(ns[t] == line);
    assert(t < rs.len() && rs[t] == line) by {
        if t < ns.len() - 1 {
            assert(rs[t] == strip_cr(ns[t]));
        } else {
            assert(ns.last() == line);
        }
    }
    // The lines before the target are not `Enabled` lines of the console
    // section, and the target is one.
    match first_console_header(ls, 0) {
        Some(h) => {
            assert forall|k: int| 0 <= k < h implies !opens_console(#[trigger] rs[k]) by {
                assert(ns[k] == ls[k]);
                lemma_strip_cr_line(ns[k]);
            }
            lemma_outside_console(rs, h);
            assert(ns[h] == ls[h]);
            lemma_strip_cr_line(ns[h]);
            assert(opens_console(rs[h]));
            assert(inside_console(rs, h + 1));
            match enabled_slot(ls, h + 1) {
                Some(j) => {
                    lemma_enabled_slot(ls, h + 1);
                    assert forall|k: int| h + 1 <= k < j implies !is_section_header(#[trigger] rs[k])
                        && !starts_with(trim_start(rs[k]), enabled_key()) by {
                        assert(ns[k] == ls[k]);
                        lemma_strip_cr_line(ns[k]);
                    }
                    lemma_stays_inside(rs, h + 1, j);
                },
                None => {},
            }
            assert forall|k: int| 0 <= k < t implies !is_enabled_entry(rs, k) by {
                if k < h {
                    lemma_outside_console(rs, k);
                }
            }
        },
        None => {
            let n: int = ls.len() as int;
            assert forall|k: int| 0 <= k < n + 1 implies !opens_console(#[trigger] rs[k]) by {
                if k < n {
                    assert(ns[k] == ls[k]);
                    lemma_strip_cr_line(ns[k]);
                } else {
                    assert(ns[k] == Seq::<char>::empty());
                }
            }
            lemma_outside_console(rs, n + 1);
            assert(ns[n + 1] == h0);
            assert(rs[n + 1] == h0);
            assert(inside_console(rs, n + 2));
            assert forall|k: int| 0 <= k < t implies !is_enabled_entry(rs, k) by {
                if k <= n {
                    lemma_outside_console(rs, k);
                }
            }
        },
    }
    assert(is_enabled_entry(rs, t));
    lemma_console_from_skip(rs, 0, t);
}

proof fn lemma_first_header_is(ls: Seq<Seq<char>>, h: int)
    requires
        0 <= h < ls.len(),
        opens_console(ls[h]),
        forall|k: int| 0 <= k < h ==> !opens_console(#[trigger] ls[k]),
    ensures
        first_console_header(ls, 0) == Some(h),
{
    lemma_first_header(ls, 0);
    match first_console_header(ls, 0) {
        Some(g) => {
            if g < h {
                assert(!opens_console(ls[g]));
            } else if g > h {
                assert(!opens_console(ls[h]));
            }
        },
        None => {
            assert(!opens_console(ls[h]));
        },
    }
}

proof fn lemma_slot_reached(ls: Seq<Seq<char>>, i: int, j: int)
    requires
        0 <= i <= j <= ls.len(),
        forall|k: int|
            i <= k < j ==> !(#[trigger] ls[k].len() > 0 && ls[k][0] == '[') && !starts_with(
                trim_start(ls[k]),
                "Enabled"@,
            ),
    ensures
        j < ls.len() && starts_with(trim_start(ls[j]), "Enabled"@) && !(ls[j].len() > 0 && ls[j][0]
            == '[') ==> enabled_slot(ls, i) == Some(j),
        j == ls.len() || (ls[j].len() > 0 && ls[j][0] == '[') ==> enabled_slot(ls, i) is None,
    decreases j - i,
{
    if i < j {
        assert(!(ls[i].len() > 0 && ls[i][0] == '['));
        lemma_slot_reached(ls, i + 1, j);
    }
}

/// Switching the console rewrites the existing setting in place: when the
/// first `[Logging.Console]` header (line `h`) is followed, before any line
/// that starts with `[`, by a line `j` that starts (after spaces) with
/// `Enabled`, and no line between them does, the new configuration has the
/// same lines as the old one except that line `j` becomes `Enabled = true`
/// or `Enabled = false`. Blank and comment lines in between do not matter,
/// and no line is added.
pub proof fn law_console_rewrites_in_place(c: Seq<char>, enable: bool, h: int, j: int)
    requires
        0 <= h < j < lines_of(c).len(),
        opens_console(lines_of(c)[h]),
        forall|k: int| 0 <= k < h ==> !opens_console(#[trigger] lines_of(c)[k]),
        starts_with(trim_start(lines_of(c)[j]), "Enabled"@),
        forall|k: int|
            h < k < j ==> !(#[trigger] lines_of(c)[k].len() > 0 && lines_of(c)[k][0] == '[')
                && !starts_with(trim_start(lines_of(c)[k]), "Enabled"@),
    ensures
        lines_with_console(lines_of(c), enable).len() == lines_of(c).len(),
        config_with_console(Some(c), enable) == join_lines(
            lines_of(c).update(
                j,
                if enable {
                    "Enabled = true"@
                } else {
                    "Enabled = false"@
                },
            ),
        ),
{
    let ls = lines_of(c);
    reveal_strlit("Enabled");
    lemma_first_header_is(ls, h);
    if ls[j].len() > 0 && ls[j][0] == '[' {
        assert(trim_start(ls[j]) == ls[j]) by {
            lemma_trim_start_first(ls[j]);
        }
        assert(ls[j][0] == enabled_key()[0]);
    }
    lemma_slot_reached(ls, h + 1, j);
}

/// Without an `Enabled` line in the console section (none before the next
/// line that starts with `[`, or the end), the setting goes right after the
/// first `[Logging.Console]` header; without a console section at all, an
/// empty line, the header and the setting are appended. Nothing else moves.
pub proof fn law_console_adds_setting(c: Seq<char>, enable: bool, h: int, e: int)
    requires
        0 <= h < e <= lines_of(c).len(),
        opens_console(lines_of(c)[h]),
        forall|k: int| 0 <= k < h ==> !opens_console(#[trigger] lines_of(c)[k]),
        e == lines_of(c).len() || (lines_of(c)[e].len() > 0 && lines_of(c)[e][0] == '['),
        forall|k: int|
            h < k < e ==> !(#[trigger] lines_of(c)[k].len() > 0 && lines_of(c)[k][0] == '[')
                && !starts_with(trim_start(lines_of(c)[k]), "Enabled"@),
    ensures
        config_with_console(Some(c), enable) == join_lines(
            lines_of(c).insert(
                h + 1,
                if enable {
                    "Enabled = true"@
                } else {
                    "Enabled = false"@
                },
            ),
        ),
{
    let ls = lines_of(c);
    reveal_strlit("Enabled");
    lemma_first_header_is(ls, h);
    lemma_slot_reached(ls, h + 1, e);
}

/// A configuration without a `[Logging.Console]` header gets an empty line,
/// the header and the setting at its end; a missing file gets just those.
pub proof fn law_console_adds_section(cfg: Option<Seq<char>>, enable: bool)
    requires
        forall|k: int| 0 <= k < lines_of_file(cfg).len() ==> !opens_console(#[trigger] lines_of_file(cfg)[k]),
    ensures
        config_with_console(cfg, enable) == join_lines(
            lines_of_file(cfg) + seq![
                Seq::<char>::empty(),
                "[Logging.Console]"@,
                if enable {
                    "Enabled = true"@
                } else {
                    "Enabled = false"@
                },
            ],
        ),
{
    lemma_first_header(lines_of_file(cfg), 0);
}

} // verus!
