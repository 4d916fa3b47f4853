//! The filters and display options that are kept between runs, and the
//! `key=value` text they are stored as.

use vstd::prelude::*;
use crate::text::{
    has_char, is_ws, lemma_trim_of_trimmed, append_chars, append_str, chars_eq_str, chars_of, decimal, decimal_chars, is_ascii_digit,
    string_of, trim, trim_chars,
};

verus! {

#[derive(Clone, Debug, PartialEq, Eq)]
pub struct AppSettings {
    pub query: String,
    pub publisher_filter: String,
    pub uninstall_filter: String,
    pub page_size: usize,
    pub include_system_components: bool,
    pub show_no_remove: bool,
    pub show_details: bool,
}

/// The settings as values.
pub struct SettingsModel {
    pub query: Seq<char>,
    pub publisher_filter: Seq<char>,
    pub uninstall_filter: Seq<char>,
    pub page_size: usize,
    pub include_system_components: bool,
    pub show_no_remove: bool,
    pub show_details: bool,
}

impl View for AppSettings {
    type V = SettingsModel;

    open spec fn view(&self) -> SettingsModel {
        SettingsModel {
            query: self.query@,
            publisher_filter: self.publisher_filter@,
            uninstall_filter: self.uninstall_filter@,
            page_size: self.page_size,
            include_system_components: self.include_system_components,
            show_no_remove: self.show_no_remove,
            show_details: self.show_details,
        }
    }
}

pub open spec fn default_settings() -> SettingsModel {
    SettingsModel {
        query: Seq::empty(),
        publisher_filter: Seq::empty(),
        uninstall_filter: "selectable"@,
        page_size: 50,
        include_system_components: false,
        show_no_remove: true,
        show_details: false,
    }
}

impl Default for AppSettings {
    fn default() -> (s: Self)
        ensures
            s@ == default_settings(),
    {
        AppSettings {
            query: String::new(),
            publisher_filter: String::new(),
            uninstall_filter: "selectable".to_owned(),
            page_size: 50,
            include_system_components: false,
            show_no_remove: true,
            show_details: false,
        }
    }
}

/// `true`, `1`, `yes` or `on`, around whitespace.
pub open spec fn spec_parse_bool(value: Seq<char>) -> bool {
    let t = trim(value);
    t == "true"@ || t == "1"@ || t == "yes"@ || t == "on"@
}

/// The value of a string of decimal digits.
pub open spec fn digits_value(s: Seq<char>) -> nat
    decreases s.len(),
{
    if s.len() == 0 {
        0
    } else {
        digits_value(s.drop_last()) * 10 + digit_value(s.last())
    }
}

pub open spec fn digit_value(c: char) -> nat {
    ((c as u32) - 48) as nat
}

/// The digits of an unsigned integer literal as `usize::from_str` accepts
/// it: an optional `+` and at least one ASCII digit.
pub open spec fn unsigned_digits(t: Seq<char>) -> Option<Seq<char>> {
    let rest = digits_part(t);
    if rest.len() > 0 && all_digits(rest) {
        Some(rest)
    } else {
        None
    }
}

/// A literal without its leading `+`, if it has one.
pub open spec fn digits_part(t: Seq<char>) -> Seq<char> {
    if t.len() > 0 && t[0] == '+' {
        t.skip(1)
    } else {
        t
    }
}

pub open spec fn all_digits(s: Seq<char>) -> bool {
    forall|i: int| 0 <= i < s.len() ==> is_ascii_digit(#[trigger] s[i])
}

pub open spec fn is_page_size(n: nat) -> bool {
    n == 25 || n == 50 || n == 100 || n == 200
}

/// One of the offered page sizes written as an unsigned integer, or 50.
pub open spec fn spec_parse_page_size(value: Seq<char>) -> usize {
    match unsigned_digits(trim(value)) {
        Some(ds) => if is_page_size(digits_value(ds)) {
            digits_value(ds) as usize
        } else {
            50
        },
        None => 50,
    }
}

pub fn parse_bool(value: &str) -> (r: bool)
    ensures
        r == spec_parse_bool(value@),
{
    let v = chars_of(value);
    let t = trim_chars(v.as_slice());
    let t = t.as_slice();
    chars_eq_str(t, "true") || chars_eq_str(t, "1") || chars_eq_str(t, "yes") || chars_eq_str(
        t,
        "on",
    )
}

fn parse_bool_chars(value: &[char]) -> (r: bool)
    ensures
        r == spec_parse_bool(value@),
{
    let t = trim_chars(value);
    let t = t.as_slice();
    chars_eq_str(t, "true") || chars_eq_str(t, "1") || chars_eq_str(t, "yes") || chars_eq_str(
        t,
        "on",
    )
}

fn parse_page_size_chars(value: &[char]) -> (r: usize)
    ensures
        r == spec_parse_page_size(value@),
        is_page_size(r as nat),
{
    let t = trim_chars(value);
    let start: usize = if t.len() > 0 && t[0] == '+' {
        1
    } else {
        0
    };
    let ghost rest = digits_part(t@);
    assert(rest =~= t@.skip(start as int));
    if start >= t.len() {
        return 50;
    }
    let mut capped: u64 = 0;
    let mut i: usize = start;
    while i < t.len()
        invariant
            start <= i <= t@.len(),
            rest == t@.skip(start as int),
            rest == digits_part(t@),
            t@ == trim(value@),
            forall|j: int| start <= j < i ==> is_ascii_digit(#[trigger] t@[j]),
            capped == if digits_value(t@.subrange(start as int, i as int)) > 1000 {
                1001
            } else {
                digits_value(t@.subrange(start as int, i as int))
            },
        decreases t@.len() - i,
    {
        let u = t[i] as u32;
        if !(0x30 <= u && u <= 0x39) {
            assert(!is_ascii_digit(rest[i - start]));
            assert(!all_digits(rest));
            return 50;
        }
        let d = (u - 0x30) as u64;
        let ghost prefix = t@.subrange(start as int, i + 1);
        assert(prefix.drop_last() =~= t@.subrange(start as int, i as int));
        assert(prefix.last() == t@[i as int]);
        assert(digit_value(prefix.last()) == d);
        assert(digits_value(prefix) == digits_value(t@.subrange(start as int, i as int)) * 10 + d);
        if capped >= 1001 || capped * 10 + d > 1000 {
            capped = 1001;
        } else {
            capped = capped * 10 + d;
        }
        i = i + 1;
    }
    assert(t@.subrange(start as int, t@.len() as int) =~= rest);
    assert forall|j: int| 0 <= j < rest.len() implies is_ascii_digit(#[trigger] rest[j]) by {
        assert(rest[j] == t@[start + j]);
    }
    assert(all_digits(rest));
    if capped == 25 || capped == 50 || capped == 100 || capped == 200 {
        capped as usize
    } else {
        50
    }
}

/// The page size stored in a settings value: 25, 50, 100 or 200, else 50.
pub fn parse_page_size(value: &str) -> (r: usize)
    ensures
        r == spec_parse_page_size(value@),
        is_page_size(r as nat),
{
    let v = chars_of(value);
    parse_page_size_chars(v.as_slice())
}

/// The position of the first `c` in `s`, or the length of `s`.
pub open spec fn char_index(s: Seq<char>, c: char) -> nat
    decreases s.len(),
{
    if s.len() == 0 || s[0] == c {
        0
    } else {
        1 + char_index(s.drop_first(), c)
    }
}

/// A line without the carriage return that ends it, if it has one.
pub open spec fn strip_cr(line: Seq<char>) -> Seq<char> {
    if line.len() > 0 && line.last() == '\r' {
        line.drop_last()
    } else {
        line
    }
}

/// The lines of a text as `str::lines` gives them: split at `\n`, each
/// without a `\r` before its `\n`, and no empty line after a final `\n`.
pub open spec fn text_lines(s: Seq<char>) -> Seq<Seq<char>>
    decreases s.len(),
{
    if s.len() == 0 {
        Seq::empty()
    } else {
        let i = char_index(s, '\n');
        if i < s.len() {
            seq![strip_cr(s.take(i as int))] + text_lines(s.skip(i as int + 1))
        } else {
            seq![s]
        }
    }
}

/// `split_once('=')`: the text before and after the first `=`.
pub open spec fn split_at_eq(line: Seq<char>) -> Option<(Seq<char>, Seq<char>)> {
    let i = char_index(line, '=');
    if i < line.len() {
        Some((line.take(i as int), line.skip(i as int + 1)))
    } else {
        None
    }
}

/// The settings after one stored line; lines without `=` or with an unknown
/// key change nothing.
pub open spec fn apply_line(m: SettingsModel, line: Seq<char>) -> SettingsModel {
    match split_at_eq(line) {
        None => m,
        Some((key, value)) => if key == "query"@ {
            SettingsModel { query: value, ..m }
        } else if key == "publisher_filter"@ {
            SettingsModel { publisher_filter: value, ..m }
        } else if key == "uninstall_filter"@ {
            SettingsModel { uninstall_filter: value, ..m }
        } else if key == "page_size"@ {
            SettingsModel { page_size: spec_parse_page_size(value), ..m }
        } else if key == "include_system_components"@ {
            SettingsModel { include_system_components: spec_parse_bool(value), ..m }
        } else if key == "show_no_remove"@ {
            SettingsModel { show_no_remove: spec_parse_bool(value), ..m }
        } else if key == "show_details"@ {
            SettingsModel { show_details: spec_parse_bool(value), ..m }
        } else {
            m
        },
    }
}

/// The defaults with the lines applied in order.
pub open spec fn apply_lines(lines: Seq<Seq<char>>) -> SettingsModel
    decreases lines.len(),
{
    if lines.len() == 0 {
        default_settings()
    } else {
        apply_line(apply_lines(lines.drop_last()), lines.last())
    }
}

/// The settings that a stored text holds.
pub open spec fn settings_of_text(contents: Seq<char>) -> SettingsModel {
    apply_lines(text_lines(contents))
}

/// A value with line breaks turned into spaces.
pub open spec fn one_line(s: Seq<char>) -> Seq<char> {
    s.map_values(|c: char| if c == '\r' || c == '\n' { ' ' } else { c })
}

pub open spec fn bool_text(b: bool) -> Seq<char> {
    if b {
        "true"@
    } else {
        "false"@
    }
}

/// Each line followed by `\n`.
pub open spec fn lines_text(lines: Seq<Seq<char>>) -> Seq<char>
    decreases lines.len(),
{
    if lines.len() == 0 {
        Seq::empty()
    } else {
        lines[0] + seq!['\n'] + lines_text(lines.drop_first())
    }
}

/// The stored lines of a settings value, one `key=value` per setting.
pub open spec fn settings_lines(m: SettingsModel) -> Seq<Seq<char>> {
    seq![
        "query="@ + one_line(m.query),
        "publisher_filter="@ + one_line(m.publisher_filter),
        "uninstall_filter="@ + m.uninstall_filter,
        "page_size="@ + decimal(m.page_size as nat),
        "include_system_components="@ + bool_text(m.include_system_components),
        "show_no_remove="@ + bool_text(m.show_no_remove),
        "show_details="@ + bool_text(m.show_details),
    ]
}

pub open spec fn settings_text(m: SettingsModel) -> Seq<char> {
    lines_text(settings_lines(m))
}

fn char_index_from(v: &[char], pos: usize, c: char) -> (k: usize)
    requires
        pos <= v@.len(),
    ensures
        pos <= k <= v@.len(),
        k == pos + char_index(v@.skip(pos as int), c),
{
    let mut k = pos;
    while k < v.len() && v[k] != c
        invariant
            pos <= k <= v@.len(),
            char_index(v@.skip(pos as int), c) == (k - pos) + char_index(v@.skip(k as int), c),
        decreases v@.len() - k,
    {
        assert(v@.skip(k as int).drop_first() =~= v@.skip(k + 1));
        k = k + 1;
    }
    k
}

fn sub_chars(v: &[char], from: usize, to: usize) -> (r: Vec<char>)
    requires
        from <= to <= v@.len(),
    ensures
        r@ == v@.subrange(from as int, to as int),
{
    let mut r: Vec<char> = Vec::new();
    let mut i = from;
    while i < to
        invariant
            from <= i <= to <= v@.len(),
            r@ == v@.subrange(from as int, i as int),
        decreases to - i,
    {
        r.push(v[i]);
        i = i + 1;
        assert(r@ =~= v@.subrange(from as int, i as int));
    }
    r
}

impl AppSettings {
    fn apply_line(&mut self, line: &[char])
        ensures
            final(self)@ == apply_line(old(self)@, line@),
    {
        let i = char_index_from(line, 0, '=');
        assert(line@.skip(0) =~= line@);
        if i >= line.len() {
            return;
        }
        let key = sub_chars(line, 0, i);
        let value = sub_chars(line, i + 1, line.len());
        assert(key@ =~= line@.take(i as int));
        assert(value@ =~= line@.skip(i + 1));
        let key = key.as_slice();
        if chars_eq_str(key, "query") {
            self.query = string_of(value.as_slice());
        } else if chars_eq_str(key, "publisher_filter") {
            self.publisher_filter = string_of(value.as_slice());
        } else if chars_eq_str(key, "uninstall_filter") {
            self.uninstall_filter = string_of(value.as_slice());
        } else if chars_eq_str(key, "page_size") {
            self.page_size = parse_page_size_chars(value.as_slice());
        } else if chars_eq_str(key, "include_system_components") {
            self.include_system_components = parse_bool_chars(value.as_slice());
        } else if chars_eq_str(key, "show_no_remove") {
            self.show_no_remove = parse_bool_chars(value.as_slice());
        } else if chars_eq_str(key, "show_details") {
            self.show_details = parse_bool_chars(value.as_slice());
        }
    }

    /// The settings a stored text holds: the defaults, with each known
    /// `key=value` line applied in order.
    pub fn from_contents(contents: &str) -> (s: AppSettings)
        ensures
            s@ == settings_of_text(contents@),
    {
        let v = chars_of(contents);
        let v = v.as_slice();
        let mut settings = AppSettings::default();
        let mut pos: usize = 0;
        let ghost mut done: Seq<Seq<char>> = Seq::empty();
        assert(v@.skip(0) =~= v@);
        assert(done + text_lines(v@) =~= text_lines(v@));
        while pos < v.len()
            invariant
                pos <= v@.len(),
                text_lines(v@) == done + text_lines(v@.skip(pos as int)),
                settings@ == apply_lines(done),
            decreases v@.len() - pos,
        {
            let ghost rest = v@.skip(pos as int);
            let k = char_index_from(v, pos, '\n');
            let mut end = k;
            if k < v.len() && k > pos && v[k - 1] == '\r' {
                end = k - 1;
            }
            let line = sub_chars(v, pos, end);
            if k < v.len() {
                assert(rest.take(k - pos) =~= v@.subrange(pos as int, k as int));
                assert(line@ =~= strip_cr(rest.take(k - pos)));
                assert(rest.skip(k - pos + 1) =~= v@.skip(k + 1));
            } else {
                assert(line@ =~= rest);
                assert(v@.skip(k as int) =~= Seq::<char>::empty());
            }
            settings.apply_line(line.as_slice());
            proof {
                let next = done.push(line@);
                assert(next.drop_last() =~= done);
                done = next;
            }
            pos = if k < v.len() {
                k + 1
            } else {
                k
            };
            assert(text_lines(v@) =~= done + text_lines(v@.skip(pos as int)));
        }
        assert(v@.skip(pos as int) =~= Seq::<char>::empty());
        assert(done + Seq::<Seq<char>>::empty() =~= done);
        settings
    }

    /// The text the settings are stored as: one `key=value` line each, with
    /// line breaks in the search text and publisher filter made spaces.
    pub fn to_contents(&self) -> (r: String)
        ensures
            r@ == settings_text(self@),
    {
        let mut lines: Vec<Vec<char>> = Vec::new();
        let mut l = chars_of("query=");
        push_one_line(&mut l, self.query.as_str());
        lines.push(l);
        let mut l = chars_of("publisher_filter=");
        push_one_line(&mut l, self.publisher_filter.as_str());
        lines.push(l);
        let mut l = chars_of("uninstall_filter=");
        append_str(&mut l, self.uninstall_filter.as_str());
        lines.push(l);
        let mut l = chars_of("page_size=");
        let digits = decimal_chars(self.page_size as u64);
        append_chars(&mut l, digits.as_slice());
        lines.push(l);
        let mut l = chars_of("include_system_components=");
        push_bool(&mut l, self.include_system_components);
        lines.push(l);
        let mut l = chars_of("show_no_remove=");
        push_bool(&mut l, self.show_no_remove);
        lines.push(l);
        let mut l = chars_of("show_details=");
        push_bool(&mut l, self.show_details);
        lines.push(l);
        assert(lines@.map_values(|x: Vec<char>| x@) =~= settings_lines(self@));
        let out = lines_chars(&lines);
        string_of(out.as_slice())
    }
}

fn lines_chars(lines: &Vec<Vec<char>>) -> (r: Vec<char>)
    ensures
        r@ == lines_text(lines@.map_values(|x: Vec<char>| x@)),
{
    let ghost ls = lines@.map_values(|x: Vec<char>| x@);
    let mut i: usize = lines.len();
    assert(ls.skip(ls.len() as int) =~= Seq::<Seq<char>>::empty());
    let mut acc: Vec<char> = Vec::new();
    while i > 0
        invariant
            ls == lines@.map_values(|x: Vec<char>| x@),
            i <= lines@.len(),
            acc@ == lines_text(ls.skip(i as int)),
        decreases i,
    {
        i = i - 1;
        let mut piece: Vec<char> = Vec::new();
        append_chars(&mut piece, lines[i].as_slice());
        piece.push('\n');
        append_chars(&mut piece, acc.as_slice());
        assert(ls.skip(i as int)[0] == ls[i as int]);
        assert(ls.skip(i as int).drop_first() =~= ls.skip(i + 1));
        acc = piece;
    }
    assert(ls.skip(0) =~= ls);
    acc
}

fn push_one_line(out: &mut Vec<char>, s: &str)
    ensures
        final(out)@ == old(out)@ + one_line(s@),
{
    let v = chars_of(s);
    let ghost start = out@;
    let mut i: usize = 0;
    while i < v.len()
        invariant
            v@ == s@,
            i <= v@.len(),
            out@ == start + one_line(v@.take(i as int)),
        decreases v@.len() - i,
    {
        let c = v[i];
        if c == '\r' || c == '\n' {
            out.push(' ');
        } else {
            out.push(c);
        }
        i = i + 1;
        assert(out@ =~= start + one_line(v@.take(i as int)));
    }
    assert(v@.take(v@.len() as int) =~= v@);
}

fn push_bool(out: &mut Vec<char>, b: bool)
    ensures
        final(out)@ == old(out)@ + bool_text(b),
{
    if b {
        append_str(out, "true");
    } else {
        append_str(out, "false");
    }
}

proof fn lemma_char_index_concat(a: Seq<char>, b: Seq<char>, c: char)
    requires
        !has_char(a, c),
    ensures
        char_index(a + b, c) == a.len() + char_index(b, c),
    decreases a.len(),
{
    if a.len() > 0 {
        assert((a + b)[0] == a[0]);
        assert((a + b).drop_first() =~= a.drop_first() + b);
        assert(!has_char(a.drop_first(), c)) by {
            if has_char(a.drop_first(), c) {
                let i = choose|i: int| 0 <= i < a.drop_first().len() && a.drop_first()[i] == c;
                assert(a[i + 1] == c);
            }
        }
        lemma_char_index_concat(a.drop_first(), b, c);
    } else {
        assert(a + b =~= b);
    }
}

/// A line that `str::lines` gives back unchanged: no line feed in it and no
/// carriage return at its end.
pub open spec fn is_stored_line(line: Seq<char>) -> bool {
    !has_char(line, '\n') && !(line.len() > 0 && line.last() == '\r')
}

/// Reading lines back from lines written one per line gives the same lines.
pub proof fn lemma_lines_roundtrip(ls: Seq<Seq<char>>)
    requires
        forall|i: int| 0 <= i < ls.len() ==> is_stored_line(#[trigger] ls[i]),
    ensures
        text_lines(lines_text(ls)) == ls,
    decreases ls.len(),
{
    if ls.len() > 0 {
        let first = ls[0];
        let rest = lines_text(ls.drop_first());
        let s = lines_text(ls);
        assert(is_stored_line(first));
        assert(s == first + (seq!['\n'] + rest)) by {
            assert(first + seq!['\n'] + rest =~= first + (seq!['\n'] + rest));
        }
        lemma_char_index_concat(first, seq!['\n'] + rest, '\n');
        assert(char_index(seq!['\n'] + rest, '\n') == 0);
        assert(s.take(first.len() as int) =~= first);
        assert(s.skip(first.len() as int + 1) =~= rest);
        assert forall|i: int| 0 <= i < ls.drop_first().len() implies is_stored_line(
            #[trigger] ls.drop_first()[i],
        ) by {
            assert(ls.drop_first()[i] == ls[i + 1]);
        }
        lemma_lines_roundtrip(ls.drop_first());
        assert(seq![first] + ls.drop_first() =~= ls);
    } else {
        assert(lines_text(ls) =~= Seq::<char>::empty());
    }
}

proof fn lemma_split_key(key: Seq<char>, value: Seq<char>)
    requires
        !has_char(key, '='),
    ensures
        split_at_eq(key + seq!['='] + value) == Some((key, value)),
{
    let line = key + seq!['='] + value;
    assert(line =~= key + (seq!['='] + value));
    lemma_char_index_concat(key, seq!['='] + value, '=');
    assert(char_index(seq!['='] + value, '=') == 0);
    assert(line.take(key.len() as int) =~= key);
    assert(line.skip(key.len() as int + 1) =~= value);
}

proof fn lemma_parse_bool_text(b: bool)
    ensures
        spec_parse_bool(bool_text(b)) == b,
{
    reveal_strlit("true");
    reveal_strlit("false");
    reveal_strlit("1");
    reveal_strlit("yes");
    reveal_strlit("on");
    lemma_trim_of_trimmed(bool_text(b));
}

proof fn lemma_digits(ds: Seq<char>, n: nat)
    requires
        ds.len() > 0,
        ds[0] != '+',
        all_digits(ds),
        !is_ws(ds[0]),
        !is_ws(ds.last()),
        digits_value(ds) == n,
        is_page_size(n),
    ensures
        spec_parse_page_size(ds) == n,
{
    lemma_trim_of_trimmed(ds);
}

proof fn lemma_page_size_text(n: usize)
    requires
        is_page_size(n as nat),
    ensures
        spec_parse_page_size(decimal(n as nat)) == n,
{
    let ds = decimal(n as nat);
    reveal_with_fuel(decimal, 4);
    reveal_with_fuel(digits_value, 4);
    if n == 25 {
        assert(ds =~= seq!['2', '5']);
        assert(seq!['2', '5'].drop_last() =~= seq!['2']);
        assert(seq!['2'].drop_last() =~= Seq::<char>::empty());
        lemma_digits(ds, 25);
    } else if n == 50 {
        assert(ds =~= seq!['5', '0']);
        assert(seq!['5', '0'].drop_last() =~= seq!['5']);
        assert(seq!['5'].drop_last() =~= Seq::<char>::empty());
        lemma_digits(ds, 50);
    } else if n == 100 {
        assert(ds =~= seq!['1', '0', '0']);
        assert(seq!['1', '0', '0'].drop_last() =~= seq!['1', '0']);
        assert(seq!['1', '0'].drop_last() =~= seq!['1']);
        assert(seq!['1'].drop_last() =~= Seq::<char>::empty());
        lemma_digits(ds, 100);
    } else {
        assert(ds =~= seq!['2', '0', '0']);
        assert(seq!['2', '0', '0'].drop_last() =~= seq!['2', '0']);
        assert(seq!['2', '0'].drop_last() =~= seq!['2']);
        assert(seq!['2'].drop_last() =~= Seq::<char>::empty());
        lemma_digits(ds, 200);
    }
}

/// Storing settings and reading them back gives them back, with line breaks
/// in the search text and publisher filter made spaces, when the page size
/// is one of those offered and the readiness filter holds no line feed and
/// does not end with a carriage return.
pub proof fn lemma_settings_roundtrip(m: SettingsModel)
    requires
        is_page_size(m.page_size as nat),
        is_stored_line(m.uninstall_filter),
    ensures
        settings_of_text(settings_text(m)) == (SettingsModel {
            query: one_line(m.query),
            publisher_filter: one_line(m.publisher_filter),
            ..m
        }),
{
    reveal_strlit("query=");
    reveal_strlit("publisher_filter=");
    reveal_strlit("uninstall_filter=");
    reveal_strlit("page_size=");
    reveal_strlit("include_system_components=");
    reveal_strlit("show_no_remove=");
    reveal_strlit("show_details=");
    reveal_strlit("query");
    reveal_strlit("publisher_filter");
    reveal_strlit("uninstall_filter");
    reveal_strlit("page_size");
    reveal_strlit("include_system_components");
    reveal_strlit("show_no_remove");
    reveal_strlit("show_details");
    reveal_strlit("true");
    reveal_strlit("false");
    let q: Seq<char> = "query"@;
    let p: Seq<char> = "publisher_filter"@;
    let u: Seq<char> = "uninstall_filter"@;
    let z: Seq<char> = "page_size"@;
    let c: Seq<char> = "include_system_components"@;
    let n: Seq<char> = "show_no_remove"@;
    let d: Seq<char> = "show_details"@;
    assert(!has_char(q, '=') && !has_char(q, '\n'));
    assert(!has_char(p, '=') && !has_char(p, '\n'));
    assert(!has_char(u, '=') && !has_char(u, '\n'));
    assert(!has_char(z, '=') && !has_char(z, '\n'));
    assert(!has_char(c, '=') && !has_char(c, '\n'));
    assert(!has_char(n, '=') && !has_char(n, '\n'));
    assert(!has_char(d, '=') && !has_char(d, '\n'));
    assert("query="@ =~= q + seq!['=']);
    assert("publisher_filter="@ =~= p + seq!['=']);
    assert("uninstall_filter="@ =~= u + seq!['=']);
    assert("page_size="@ =~= z + seq!['=']);
    assert("include_system_components="@ =~= c + seq!['=']);
    assert("show_no_remove="@ =~= n + seq!['=']);
    assert("show_details="@ =~= d + seq!['=']);
    let vq = one_line(m.query);
    let vp = one_line(m.publisher_filter);
    let vz = decimal(m.page_size as nat);
    let vc = bool_text(m.include_system_components);
    let vn = bool_text(m.show_no_remove);
    let vd = bool_text(m.show_details);
    lemma_one_line_stored(m.query);
    lemma_one_line_stored(m.publisher_filter);
    lemma_decimal_stored(m.page_size as nat);
    lemma_bool_stored(m.include_system_components);
    lemma_bool_stored(m.show_no_remove);
    lemma_bool_stored(m.show_details);
    lemma_key_line_stored(q, vq);
    lemma_key_line_stored(p, vp);
    lemma_key_line_stored(u, m.uninstall_filter);
    lemma_key_line_stored(z, vz);
    lemma_key_line_stored(c, vc);
    lemma_key_line_stored(n, vn);
    lemma_key_line_stored(d, vd);
    let ls = settings_lines(m);
    assert(ls =~= seq![
        q + seq!['='] + vq,
        p + seq!['='] + vp,
        u + seq!['='] + m.uninstall_filter,
        z + seq!['='] + vz,
        c + seq!['='] + vc,
        n + seq!['='] + vn,
        d + seq!['='] + vd,
    ]);
    lemma_lines_roundtrip(ls);
    lemma_split_key(q, vq);
    lemma_split_key(p, vp);
    lemma_split_key(u, m.uninstall_filter);
    lemma_split_key(z, vz);
    lemma_split_key(c, vc);
    lemma_split_key(n, vn);
    lemma_split_key(d, vd);
    lemma_page_size_text(m.page_size);
    lemma_parse_bool_text(m.include_system_components);
    lemma_parse_bool_text(m.show_no_remove);
    lemma_parse_bool_text(m.show_details);
    let s0 = Seq::<Seq<char>>::empty();
    let s1 = s0.push(ls[0]);
    let s2 = s1.push(ls[1]);
    let s3 = s2.push(ls[2]);
    let s4 = s3.push(ls[3]);
    let s5 = s4.push(ls[4]);
    let s6 = s5.push(ls[5]);
    let s7 = s6.push(ls[6]);
    assert(s7 =~= ls);
    assert(s1.drop_last() =~= s0);
    assert(s2.drop_last() =~= s1);
    assert(s3.drop_last() =~= s2);
    assert(s4.drop_last() =~= s3);
    assert(s5.drop_last() =~= s4);
    assert(s6.drop_last() =~= s5);
    assert(s7.drop_last() =~= s6);
    assert(q.len() == 5 && p.len() == 16 && u.len() == 16 && z.len() == 9 && c.len() == 25
        && n.len() == 14 && d.len() == 12);
    assert(p[0] != u[0]);
    assert(p != u);
    let r1 = apply_line(default_settings(), ls[0]);
    assert(r1.query == vq);
    let r2 = apply_line(r1, ls[1]);
    assert(r2.query == vq && r2.publisher_filter == vp);
    let r3 = apply_line(r2, ls[2]);
    assert(r3.query == vq && r3.publisher_filter == vp);
    let r4 = apply_line(r3, ls[3]);
    let r5 = apply_line(r4, ls[4]);
    let r6 = apply_line(r5, ls[5]);
    let r7 = apply_line(r6, ls[6]);
    assert(apply_lines(s0) == default_settings());
    assert(apply_lines(s1) == r1);
    assert(apply_lines(s2) == r2);
    assert(apply_lines(s3) == r3);
    assert(apply_lines(s4) == r4);
    assert(apply_lines(s5) == r5);
    assert(apply_lines(s6) == r6);
    assert(apply_lines(s7) == r7);
    assert(apply_lines(ls) == r7);
    assert(r7.query == vq);
    assert(r7.publisher_filter == vp);
}

proof fn lemma_one_line_stored(s: Seq<char>)
    ensures
        !has_char(one_line(s), '\n'),
        !has_char(one_line(s), '\r'),
{
}

proof fn lemma_decimal_stored(n: nat)
    ensures
        decimal(n).len() > 0,
        forall|i: int| 0 <= i < decimal(n).len() ==> is_ascii_digit(#[trigger] decimal(n)[i]),
    decreases n,
{
    if n >= 10 {
        lemma_decimal_stored(n / 10);
        let d = decimal(n / 10);
        assert forall|i: int| 0 <= i < decimal(n).len() implies is_ascii_digit(
            #[trigger] decimal(n)[i],
        ) by {
            if i < d.len() {
                assert(decimal(n)[i] == d[i]);
            }
        }
    }
}

proof fn lemma_bool_stored(b: bool)
    ensures
        !has_char(bool_text(b), '\n'),
        bool_text(b).len() > 0,
        bool_text(b).last() != '\r',
{
    reveal_strlit("true");
    reveal_strlit("false");
}

proof fn lemma_key_line_stored(key: Seq<char>, value: Seq<char>)
    requires
        !has_char(key, '\n'),
        !has_char(value, '\n'),
        value.len() > 0 ==> value.last() != '\r',
    ensures
        is_stored_line(key + seq!['='] + value),
{
    let line = key + seq!['='] + value;
    if has_char(line, '\n') {
        let i = choose|i: int| 0 <= i < line.len() && line[i] == '\n';
        if i < key.len() {
            assert(key[i] == '\n');
        } else if i > key.len() {
            assert(value[i - key.len() - 1] == '\n');
        }
    }
    if value.len() > 0 {
        assert(line.last() == value.last());
    }
}

} // verus!
