//! An application as the Windows uninstall list records it, and the texts
//! shown for it.

use vstd::prelude::*;
use crate::text::{
    append_str, chars_eq_str, chars_of, contains_chars, contains_seq, decimal, decimal_chars, occurs_at,
    digit_char, is_ascii_digit, join_chars_with, join_sep, lowercase, string_of, to_lowercase,
};

verus! {

#[derive(Clone, Debug)]
pub struct InstalledApp {
    pub id: String,
    pub display_name: String,
    pub publisher: Option<String>,
    pub version: Option<String>,
    pub install_location: Option<String>,
    pub estimated_size_kb: Option<u32>,
    pub install_date: Option<String>,
    pub uninstall_string: String,
    pub registry_path: String,
    pub source_hive: String,
    pub is_system_component: bool,
    pub no_remove: bool,
    /// The lower-cased text that searches look in, made by `new`.
    pub search_blob: String,
}

/// An optional string by its characters.
pub open spec fn opt_view(o: Option<String>) -> Option<Seq<char>> {
    match o {
        Some(s) => Some(s@),
        None => None,
    }
}

/// The text of an optional value, empty when there is none.
pub open spec fn opt_text(o: Option<Seq<char>>) -> Seq<char> {
    match o {
        Some(s) => s,
        None => Seq::empty(),
    }
}

/// The text of an optional value, `-` when there is none.
pub open spec fn opt_or_dash(o: Option<Seq<char>>) -> Seq<char> {
    match o {
        Some(s) => s,
        None => "-"@,
    }
}

/// An installed application as values.
pub struct AppModel {
    pub id: Seq<char>,
    pub display_name: Seq<char>,
    pub publisher: Option<Seq<char>>,
    pub version: Option<Seq<char>>,
    pub install_location: Option<Seq<char>>,
    pub estimated_size_kb: Option<u32>,
    pub install_date: Option<Seq<char>>,
    pub uninstall_string: Seq<char>,
    pub registry_path: Seq<char>,
    pub source_hive: Seq<char>,
    pub is_system_component: bool,
    pub no_remove: bool,
    pub search_text: Seq<char>,
}

impl View for InstalledApp {
    type V = AppModel;

    open spec fn view(&self) -> AppModel {
        AppModel {
            id: self.id@,
            display_name: self.display_name@,
            publisher: opt_view(self.publisher),
            version: opt_view(self.version),
            install_location: opt_view(self.install_location),
            estimated_size_kb: self.estimated_size_kb,
            install_date: opt_view(self.install_date),
            uninstall_string: self.uninstall_string@,
            registry_path: self.registry_path@,
            source_hive: self.source_hive@,
            is_system_component: self.is_system_component,
            no_remove: self.no_remove,
            search_text: self.search_blob@,
        }
    }
}

/// The application `InstalledApp::new` makes of its arguments: the given
/// fields, and the lower-cased search text.
pub open spec fn new_app_model(
    id: Seq<char>,
    display_name: Seq<char>,
    publisher: Option<Seq<char>>,
    version: Option<Seq<char>>,
    install_location: Option<Seq<char>>,
    estimated_size_kb: Option<u32>,
    install_date: Option<Seq<char>>,
    uninstall_string: Seq<char>,
    registry_path: Seq<char>,
    source_hive: Seq<char>,
    is_system_component: bool,
    no_remove: bool,
) -> AppModel {
    AppModel {
        id,
        display_name,
        publisher,
        version,
        install_location,
        estimated_size_kb,
        install_date,
        uninstall_string,
        registry_path,
        source_hive,
        is_system_component,
        no_remove,
        search_text: lowercase(
            search_source(
                display_name,
                publisher,
                version,
                install_location,
                estimated_size_kb,
                install_date,
                registry_path,
            ),
        ),
    }
}

/// The fields an application is searched by: name, publisher, version,
/// location, install date, size and registry path.
pub open spec fn search_fields(
    display_name: Seq<char>,
    publisher: Option<Seq<char>>,
    version: Option<Seq<char>>,
    install_location: Option<Seq<char>>,
    estimated_size_kb: Option<u32>,
    install_date: Option<Seq<char>>,
    registry_path: Seq<char>,
) -> Seq<Seq<char>> {
    seq![
        display_name,
        opt_text(publisher),
        opt_text(version),
        opt_text(install_location),
        opt_text(install_date),
        match estimated_size_kb {
            Some(n) => decimal(n as nat),
            None => Seq::empty(),
        },
        registry_path,
    ]
}

/// What an application is searched by, before lower-casing: its search
/// fields separated by spaces.
pub open spec fn search_source(
    display_name: Seq<char>,
    publisher: Option<Seq<char>>,
    version: Option<Seq<char>>,
    install_location: Option<Seq<char>>,
    estimated_size_kb: Option<u32>,
    install_date: Option<Seq<char>>,
    registry_path: Seq<char>,
) -> Seq<char> {
    join_sep(
        search_fields(
            display_name,
            publisher,
            version,
            install_location,
            estimated_size_kb,
            install_date,
            registry_path,
        ),
        " "@,
    )
}

/// A text holds any text set between two others.
pub proof fn lemma_contains_middle(before: Seq<char>, part: Seq<char>, after: Seq<char>)
    ensures
        contains_seq(before + part + after, part),
{
    let s = before + part + after;
    assert(s.subrange(before.len() as int, (before.len() + part.len()) as int) =~= part);
    assert(occurs_at(s, part, before.len() as int));
}

/// The size as searched: its number of KB in decimal, nothing when unknown.
pub open spec fn size_search_text(estimated_size_kb: Option<u32>) -> Seq<char> {
    match estimated_size_kb {
        Some(n) => decimal(n as nat),
        None => Seq::empty(),
    }
}

/// What a new application is searched by: the lower-cased text of its name,
/// publisher, version, install location, install date, size and registry
/// path, one space between each, a missing value left empty; and that text,
/// before lower-casing, holds each of those values.
pub proof fn lemma_search_text_holds_fields(
    id: Seq<char>,
    display_name: Seq<char>,
    publisher: Option<Seq<char>>,
    version: Option<Seq<char>>,
    install_location: Option<Seq<char>>,
    estimated_size_kb: Option<u32>,
    install_date: Option<Seq<char>>,
    uninstall_string: Seq<char>,
    registry_path: Seq<char>,
    source_hive: Seq<char>,
    is_system_component: bool,
    no_remove: bool,
)
    ensures
        ({
            let text = spaced_seven(
                display_name,
                opt_text(publisher),
                opt_text(version),
                opt_text(install_location),
                opt_text(install_date),
                size_search_text(estimated_size_kb),
                registry_path,
            );
            &&& new_app_model(
                id,
                display_name,
                publisher,
                version,
                install_location,
                estimated_size_kb,
                install_date,
                uninstall_string,
                registry_path,
                source_hive,
                is_system_component,
                no_remove,
            ).search_text == lowercase(text)
            &&& contains_seq(text, display_name)
            &&& contains_seq(text, opt_text(publisher))
            &&& contains_seq(text, opt_text(version))
            &&& contains_seq(text, opt_text(install_location))
            &&& contains_seq(text, opt_text(install_date))
            &&& contains_seq(text, size_search_text(estimated_size_kb))
            &&& contains_seq(text, registry_path)
        }),
{
    let fields = search_fields(
        display_name,
        publisher,
        version,
        install_location,
        estimated_size_kb,
        install_date,
        registry_path,
    );
    assert(fields =~= seq![
        display_name,
        opt_text(publisher),
        opt_text(version),
        opt_text(install_location),
        opt_text(install_date),
        size_search_text(estimated_size_kb),
        registry_path,
    ]);
    lemma_spaced_seven(
        display_name,
        opt_text(publisher),
        opt_text(version),
        opt_text(install_location),
        opt_text(install_date),
        size_search_text(estimated_size_kb),
        registry_path,
    );
}

/// Seven texts, one space between each.
pub open spec fn spaced_seven(
    f0: Seq<char>,
    f1: Seq<char>,
    f2: Seq<char>,
    f3: Seq<char>,
    f4: Seq<char>,
    f5: Seq<char>,
    f6: Seq<char>,
) -> Seq<char> {
    let sp = seq![' '];
    f0 + sp + f1 + sp + f2 + sp + f3 + sp + f4 + sp + f5 + sp + f6
}

/// Seven texts joined by spaces: the join, and each text found in it.
proof fn lemma_spaced_seven(
    f0: Seq<char>,
    f1: Seq<char>,
    f2: Seq<char>,
    f3: Seq<char>,
    f4: Seq<char>,
    f5: Seq<char>,
    f6: Seq<char>,
)
    ensures
        join_sep(seq![f0, f1, f2, f3, f4, f5, f6], " "@) == spaced_seven(f0, f1, f2, f3, f4, f5, f6),
        contains_seq(spaced_seven(f0, f1, f2, f3, f4, f5, f6), f0),
        contains_seq(spaced_seven(f0, f1, f2, f3, f4, f5, f6), f1),
        contains_seq(spaced_seven(f0, f1, f2, f3, f4, f5, f6), f2),
        contains_seq(spaced_seven(f0, f1, f2, f3, f4, f5, f6), f3),
        contains_seq(spaced_seven(f0, f1, f2, f3, f4, f5, f6), f4),
        contains_seq(spaced_seven(f0, f1, f2, f3, f4, f5, f6), f5),
        contains_seq(spaced_seven(f0, f1, f2, f3, f4, f5, f6), f6),
{
    let sp = seq![' '];
    let text = spaced_seven(f0, f1, f2, f3, f4, f5, f6);
    assert(join_sep(seq![f0, f1, f2, f3, f4, f5, f6], " "@) =~= text) by {
        reveal_strlit(" ");
        let fs = seq![f0, f1, f2, f3, f4, f5, f6];
        assert(fs.drop_last() =~= seq![f0, f1, f2, f3, f4, f5]);
        assert(seq![f0, f1, f2, f3, f4, f5].drop_last() =~= seq![f0, f1, f2, f3, f4]);
        assert(seq![f0, f1, f2, f3, f4].drop_last() =~= seq![f0, f1, f2, f3]);
        assert(seq![f0, f1, f2, f3].drop_last() =~= seq![f0, f1, f2]);
        assert(seq![f0, f1, f2].drop_last() =~= seq![f0, f1]);
        assert(seq![f0, f1].drop_last() =~= seq![f0]);
        assert(join_sep(seq![f0], " "@) == f0);
        assert(join_sep(seq![f0, f1], " "@) == f0 + sp + f1);
        assert(join_sep(seq![f0, f1, f2], " "@) == f0 + sp + f1 + sp + f2);
        assert(join_sep(seq![f0, f1, f2, f3], " "@) == f0 + sp + f1 + sp + f2 + sp + f3);
        assert(join_sep(seq![f0, f1, f2, f3, f4], " "@) == f0 + sp + f1 + sp + f2 + sp + f3 + sp + f4);
        assert(join_sep(seq![f0, f1, f2, f3, f4, f5], " "@) == f0 + sp + f1 + sp + f2 + sp + f3 + sp + f4
            + sp + f5);
    }
    assert(contains_seq(text, f0)) by {
        let rest = sp + f1 + sp + f2 + sp + f3 + sp + f4 + sp + f5 + sp + f6;
        assert(text =~= Seq::<char>::empty() + f0 + rest);
        lemma_contains_middle(Seq::empty(), f0, rest);
    }
    assert(contains_seq(text, f1)) by {
        let rest = sp + f2 + sp + f3 + sp + f4 + sp + f5 + sp + f6;
        assert(text =~= (f0 + sp) + f1 + rest);
        lemma_contains_middle(f0 + sp, f1, rest);
    }
    assert(contains_seq(text, f2)) by {
        let rest = sp + f3 + sp + f4 + sp + f5 + sp + f6;
        assert(text =~= (f0 + sp + f1 + sp) + f2 + rest);
        lemma_contains_middle(f0 + sp + f1 + sp, f2, rest);
    }
    assert(contains_seq(text, f3)) by {
        let rest = sp + f4 + sp + f5 + sp + f6;
        assert(text =~= (f0 + sp + f1 + sp + f2 + sp) + f3 + rest);
        lemma_contains_middle(f0 + sp + f1 + sp + f2 + sp, f3, rest);
    }
    assert(contains_seq(text, f4)) by {
        let rest = sp + f5 + sp + f6;
        assert(text =~= (f0 + sp + f1 + sp + f2 + sp + f3 + sp) + f4 + rest);
        lemma_contains_middle(f0 + sp + f1 + sp + f2 + sp + f3 + sp, f4, rest);
    }
    assert(contains_seq(text, f5)) by {
        let rest = sp + f6;
        assert(text =~= (f0 + sp + f1 + sp + f2 + sp + f3 + sp + f4 + sp) + f5 + rest);
        lemma_contains_middle(f0 + sp + f1 + sp + f2 + sp + f3 + sp + f4 + sp, f5, rest);
    }
    assert(contains_seq(text, f6)) by {
        let before = f0 + sp + f1 + sp + f2 + sp + f3 + sp + f4 + sp + f5 + sp;
        assert(text =~= before + f6 + Seq::<char>::empty());
        lemma_contains_middle(before, f6, Seq::empty());
    }
}

/// The quotient `a / b` rounded to the nearest integer, ties to even.
pub open spec fn round_half_even(a: nat, b: nat) -> nat {
    let q = a / b;
    let r = a % b;
    if 2 * r > b || (2 * r == b && q % 2 == 1) {
        q + 1
    } else {
        q
    }
}

/// The spacing of `f32` values around `n`: 1 below 2^24, doubling with
/// each binade above.
pub open spec fn f32_unit(n: nat) -> nat
    decreases n,
{
    if n < 0x1000000 {
        1
    } else {
        2 * f32_unit(n / 2)
    }
}

/// The `f32` nearest to `n`, ties to even, as `n as f32` converts.
pub open spec fn f32_value(n: nat) -> nat {
    round_half_even(n, f32_unit(n)) * f32_unit(n)
}

/// The tenths of a gigabyte shown for a size in KB: the `f32` of the size,
/// divided by 1024 twice, written with one decimal.
pub open spec fn gb_tenths(n: nat) -> nat {
    round_half_even(f32_value(n) * 10, 0x100000)
}

pub open spec fn spec_size_text(size: Option<u32>) -> Seq<char> {
    match size {
        Some(n) => if n >= 0x100000 {
            decimal(gb_tenths(n as nat) / 10) + seq!['.', digit_char(gb_tenths(n as nat) % 10)]
                + " GB"@
        } else if n >= 1024 {
            decimal(round_half_even(f32_value(n as nat), 1024)) + " MB"@
        } else {
            decimal(n as nat) + " KB"@
        },
        None => "-"@,
    }
}

/// An install date of eight ASCII digits, `YYYYMMDD`.
pub open spec fn is_compact_date(s: Seq<char>) -> bool {
    s.len() == 8 && forall|i: int| 0 <= i < 8 ==> is_ascii_digit(#[trigger] s[i])
}

pub open spec fn spec_install_date_text(date: Option<Seq<char>>) -> Seq<char> {
    match date {
        Some(raw) => if is_compact_date(raw) {
            raw.subrange(0, 4) + "-"@ + raw.subrange(4, 6) + "-"@ + raw.subrange(6, 8)
        } else {
            raw
        },
        None => "-"@,
    }
}

fn round_half_even_exec(a: u64, b: u64) -> (r: u64)
    requires
        b > 0,
        a < 0x1000000000000,
    ensures
        r == round_half_even(a as nat, b as nat),
{
    let q = a / b;
    let rem = a % b;
    if rem > b - rem || (rem == b - rem && q % 2 == 1) {
        q + 1
    } else {
        q
    }
}

fn f32_unit_exec(n: u64) -> (r: u64)
    ensures
        r == f32_unit(n as nat),
        r >= 1,
        r == 1 || r * 0x800000 <= n,
    decreases n,
{
    if n < 0x1000000 {
        1
    } else {
        let h = f32_unit_exec(n / 2);
        2 * h
    }
}

fn f32_value_exec(n: u32) -> (r: u64)
    ensures
        r == f32_value(n as nat),
        r <= 0x200000000,
{
    let unit = f32_unit_exec(n as u64);
    let q = round_half_even_exec(n as u64, unit);
    let d = (n as u64) / unit;
    assert(q <= d + 1);
    assert(d * unit <= n) by (nonlinear_arith)
        requires
            unit > 0,
            d == n as u64 / unit,
    ;
    assert(unit <= 512) by (nonlinear_arith)
        requires
            unit == 1 || unit * 0x800000 <= n,
            n < 0x100000000,
    ;
    assert(q * unit <= d * unit + unit) by (nonlinear_arith)
        requires
            q <= d + 1,
            unit > 0,
    ;
    q * unit
}

pub open spec fn spec_info_parts(
    estimated_size_kb: Option<u32>,
    install_date: Option<Seq<char>>,
    is_system_component: bool,
    no_remove: bool,
) -> Seq<Seq<char>> {
    let size = spec_size_text(estimated_size_kb);
    let date = spec_install_date_text(install_date);
    (if size != "-"@ {
        seq![size]
    } else {
        Seq::empty()
    }) + (if date != "-"@ {
        seq![date]
    } else {
        Seq::empty()
    }) + (if is_system_component {
        seq!["숨김"@]
    } else {
        Seq::empty()
    }) + (if no_remove {
        seq!["제거 제한"@]
    } else {
        Seq::empty()
    })
}

pub open spec fn spec_info_text(
    estimated_size_kb: Option<u32>,
    install_date: Option<Seq<char>>,
    is_system_component: bool,
    no_remove: bool,
) -> Seq<char> {
    let parts = spec_info_parts(estimated_size_kb, install_date, is_system_component, no_remove);
    if parts.len() == 0 {
        "-"@
    } else {
        join_sep(parts, " / "@)
    }
}

fn push_opt(v: &mut Vec<char>, o: &Option<String>)
    ensures
        final(v)@ == old(v)@ + opt_text(opt_view(*o)),
{
    match o {
        Some(s) => append_str(v, s.as_str()),
        None => {
            assert(old(v)@ + Seq::<char>::empty() =~= old(v)@);
        },
    }
}

impl InstalledApp {
    #[allow(clippy::too_many_arguments)]
    pub fn new(
        id: String,
        display_name: String,
        publisher: Option<String>,
        version: Option<String>,
        install_location: Option<String>,
        estimated_size_kb: Option<u32>,
        install_date: Option<String>,
        uninstall_string: String,
        registry_path: String,
        source_hive: String,
        is_system_component: bool,
        no_remove: bool,
    ) -> (app: Self)
        ensures
            app@ == new_app_model(
                id@,
                display_name@,
                opt_view(publisher),
                opt_view(version),
                opt_view(install_location),
                estimated_size_kb,
                opt_view(install_date),
                uninstall_string@,
                registry_path@,
                source_hive@,
                is_system_component,
                no_remove,
            ),
            app@.search_text == lowercase(
                spaced_seven(
                    display_name@,
                    opt_text(opt_view(publisher)),
                    opt_text(opt_view(version)),
                    opt_text(opt_view(install_location)),
                    opt_text(opt_view(install_date)),
                    size_search_text(estimated_size_kb),
                    registry_path@,
                ),
            ),
    {
        proof {
            lemma_search_text_holds_fields(
                id@,
                display_name@,
                opt_view(publisher),
                opt_view(version),
                opt_view(install_location),
                estimated_size_kb,
                opt_view(install_date),
                uninstall_string@,
                registry_path@,
                source_hive@,
                is_system_component,
                no_remove,
            );
        }
        let mut parts: Vec<Vec<char>> = Vec::new();
        parts.push(chars_of(display_name.as_str()));
        let mut p: Vec<char> = Vec::new();
        push_opt(&mut p, &publisher);
        parts.push(p);
        let mut p: Vec<char> = Vec::new();
        push_opt(&mut p, &version);
        parts.push(p);
        let mut p: Vec<char> = Vec::new();
        push_opt(&mut p, &install_location);
        parts.push(p);
        let mut p: Vec<char> = Vec::new();
        push_opt(&mut p, &install_date);
        parts.push(p);
        let size = match estimated_size_kb {
            Some(n) => decimal_chars(n as u64),
            None => Vec::new(),
        };
        parts.push(size);
        parts.push(chars_of(registry_path.as_str()));
        let ghost src = search_source(
            display_name@,
            opt_view(publisher),
            opt_view(version),
            opt_view(install_location),
            estimated_size_kb,
            opt_view(install_date),
            registry_path@,
        );
        assert(parts@.map_values(|p: Vec<char>| p@) =~= search_fields(
            display_name@,
            opt_view(publisher),
            opt_view(version),
            opt_view(install_location),
            estimated_size_kb,
            opt_view(install_date),
            registry_path@,
        ));
        let joined = join_chars_with(&parts, " ");
        assert(joined@ == src);
        let text = string_of(joined.as_slice());
        let search_blob = to_lowercase(text.as_str());
        InstalledApp {
            id,
            display_name,
            publisher,
            version,
            install_location,
            estimated_size_kb,
            install_date,
            uninstall_string,
            registry_path,
            source_hive,
            is_system_component,
            no_remove,
            search_blob,
        }
    }

    /// Whether every search term occurs in the application's search text.
    pub fn matches_terms(&self, terms: &[String]) -> (r: bool)
        ensures
            r == forall|i: int| 0 <= i < terms@.len() ==> contains_seq(self@.search_text, #[trigger] terms@[i]@),
    {
        let hay = chars_of(self.search_blob.as_str());
        let mut i: usize = 0;
        while i < terms.len()
            invariant
                hay@ == self@.search_text,
                i <= terms@.len(),
                forall|j: int| 0 <= j < i ==> contains_seq(self@.search_text, #[trigger] terms@[j]@),
            decreases terms@.len() - i,
        {
            let needle = chars_of(terms[i].as_str());
            if !contains_chars(hay.as_slice(), needle.as_slice()) {
                return false;
            }
            i = i + 1;
        }
        true
    }

    pub fn publisher_text(&self) -> (r: &str)
        ensures
            r@ == opt_or_dash(opt_view(self.publisher)),
    {
        match &self.publisher {
            Some(p) => p.as_str(),
            None => "-",
        }
    }

    pub fn version_text(&self) -> (r: &str)
        ensures
            r@ == opt_or_dash(opt_view(self.version)),
    {
        match &self.version {
            Some(v) => v.as_str(),
            None => "-",
        }
    }

    pub fn location_text(&self) -> (r: &str)
        ensures
            r@ == opt_or_dash(opt_view(self.install_location)),
    {
        match &self.install_location {
            Some(l) => l.as_str(),
            None => "-",
        }
    }

    fn size_chars(&self) -> (r: Vec<char>)
        ensures
            r@ == spec_size_text(self.estimated_size_kb),
    {
        match self.estimated_size_kb {
            Some(n) => {
                if n >= 0x100000 {
                    let v = f32_value_exec(n);
                    let tenths = round_half_even_exec(v * 10, 0x100000);
                    let mut r = decimal_chars(tenths / 10);
                    r.push('.');
                    let d = ((tenths % 10) as u8 + 48) as char;
                    r.push(d);
                    append_str(&mut r, " GB");
                    assert(r@ =~= decimal(gb_tenths(n as nat) / 10) + seq![
                        '.',
                        digit_char(gb_tenths(n as nat) % 10),
                    ] + " GB"@);
                    r
                } else if n >= 1024 {
                    let v = f32_value_exec(n);
                    let mut r = decimal_chars(round_half_even_exec(v, 1024));
                    append_str(&mut r, " MB");
                    r
                } else {
                    let mut r = decimal_chars(n as u64);
                    append_str(&mut r, " KB");
                    r
                }
            },
            None => chars_of("-"),
        }
    }

    /// The size in KB, MB with no decimals, or GB with one decimal.
    pub fn size_text(&self) -> (r: String)
        ensures
            r@ == spec_size_text(self.estimated_size_kb),
    {
        let v = self.size_chars();
        string_of(v.as_slice())
    }

    fn install_date_chars(&self) -> (r: Vec<char>)
        ensures
            r@ == spec_install_date_text(opt_view(self.install_date)),
    {
        match &self.install_date {
            None => chars_of("-"),
            Some(raw) => {
                let v = chars_of(raw.as_str());
                let mut compact = v.len() == 8;
                let mut i: usize = 0;
                while compact && i < v.len()
                    invariant
                        compact ==> v@.len() == 8,
                        i <= v@.len(),
                        compact ==> forall|j: int| 0 <= j < i ==> is_ascii_digit(#[trigger] v@[j]),
                        !compact ==> !is_compact_date(v@),
                    decreases v@.len() - i,
                {
                    let u = v[i] as u32;
                    if !(0x30 <= u && u <= 0x39) {
                        assert(!is_ascii_digit(v@[i as int]));
                        compact = false;
                    }
                    i = i + 1;
                }
                if compact {
                    proof {
                        reveal_strlit("-");
                    }
                    let mut r: Vec<char> = Vec::new();
                    r.push(v[0]);
                    r.push(v[1]);
                    r.push(v[2]);
                    r.push(v[3]);
                    r.push('-');
                    r.push(v[4]);
                    r.push(v[5]);
                    r.push('-');
                    r.push(v[6]);
                    r.push(v[7]);
                    assert(r@ =~= v@.subrange(0, 4) + "-"@ + v@.subrange(4, 6) + "-"@
                        + v@.subrange(6, 8));
                    r
                } else {
                    v
                }
            },
        }
    }

    /// A compact `YYYYMMDD` date written as `YYYY-MM-DD`; other dates as
    /// recorded; `-` when there is none.
    pub fn install_date_text(&self) -> (r: String)
        ensures
            r@ == spec_install_date_text(opt_view(self.install_date)),
    {
        let v = self.install_date_chars();
        string_of(v.as_slice())
    }

    /// Size, install date and the hidden and no-remove marks, joined by ` / `,
    /// or `-` when there is none of them.
    pub fn info_text(&self) -> (r: String)
        ensures
            r@ == spec_info_text(
                self.estimated_size_kb,
                opt_view(self.install_date),
                self.is_system_component,
                self.no_remove,
            ),
    {
        let mut parts: Vec<Vec<char>> = Vec::new();
        let size = self.size_chars();
        let ghost size_part: Seq<Seq<char>> = if size@ != "-"@ {
            seq![size@]
        } else {
            Seq::empty()
        };
        if !chars_eq_str(size.as_slice(), "-") {
            parts.push(size);
        }
        assert(parts@.map_values(|p: Vec<char>| p@) =~= size_part);
        let date = self.install_date_chars();
        let ghost date_part: Seq<Seq<char>> = if date@ != "-"@ {
            seq![date@]
        } else {
            Seq::empty()
        };
        if !chars_eq_str(date.as_slice(), "-") {
            parts.push(date);
        }
        assert(parts@.map_values(|p: Vec<char>| p@) =~= size_part + date_part);
        let ghost hidden_part: Seq<Seq<char>> = if self.is_system_component {
            seq!["숨김"@]
        } else {
            Seq::empty()
        };
        if self.is_system_component {
            parts.push(chars_of("숨김"));
        }
        assert(parts@.map_values(|p: Vec<char>| p@) =~= size_part + date_part + hidden_part);
        let ghost blocked_part: Seq<Seq<char>> = if self.no_remove {
            seq!["제거 제한"@]
        } else {
            Seq::empty()
        };
        if self.no_remove {
            parts.push(chars_of("제거 제한"));
        }
        assert(parts@.map_values(|p: Vec<char>| p@) =~= spec_info_parts(
            self.estimated_size_kb,
            opt_view(self.install_date),
            self.is_system_component,
            self.no_remove,
        ));
        if parts.len() == 0 {
            string_of(chars_of("-").as_slice())
        } else {
            let joined = join_chars_with(&parts, " / ");
            string_of(joined.as_slice())
        }
    }
}

} // verus!
