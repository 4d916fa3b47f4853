//! Which applications the list shows, in which order, and on which page.

use vstd::prelude::*;
use std::cmp::Ordering;
use crate::text::{
    ascii_lower, ascii_lower_chars, chars_eq, trim, trim_chars, chars_eq_str, chars_of, contains_seq, lowercase, split_whitespace_chars, string_of,
    to_lowercase, words,
};
use crate::sorting::{
    KeyView, OrderKey, is_stable_sort_of, key_view, lemma_seq_compare_antisym, lemma_sort_keeps_keys,
    pair_views, seq_compare,
    stable_sort,
};
use crate::installed_app::{AppModel, InstalledApp, opt_or_dash, opt_view};
use crate::settings::{AppSettings, SettingsModel};
use crate::scanner::{codes, codes_of};
use crate::uninstaller::{
    UninstallAssessment, UninstallReadiness, UninstallTarget, assessment_of, dir_views, judged_by_lookup,
    probe_exists, spec_launch_mode,
    uninstall_command,
};

verus! {

pub open spec fn lower_codes(s: Seq<char>) -> Seq<u32> {
    codes(lowercase(s))
}

/// The order of two texts compared without case: negative, zero, positive.
pub open spec fn text_order(left: Seq<char>, right: Seq<char>) -> int {
    seq_compare(lower_codes(left), lower_codes(right))
}

pub open spec fn sign_to_order(c: int) -> Ordering {
    if c < 0 {
        Ordering::Less
    } else if c > 0 {
        Ordering::Greater
    } else {
        Ordering::Equal
    }
}

fn lower_codes_exec(s: &str) -> (r: Vec<u32>)
    ensures
        r@ == lower_codes(s@),
{
    let lower = to_lowercase(s);
    let v = chars_of(lower.as_str());
    codes_of(v.as_slice())
}

fn compare_codes(a: &Vec<u32>, b: &Vec<u32>) -> (r: i8)
    ensures
        r as int == seq_compare(a@, b@),
{
    crate::sorting::seq_compare_exec(a, b)
}

/// Compares two texts by their lower-cased forms.
pub fn compare_text(left: &str, right: &str) -> (r: Ordering)
    ensures
        r == sign_to_order(text_order(left@, right@)),
{
    let a = lower_codes_exec(left);
    let b = lower_codes_exec(right);
    let c = compare_codes(&a, &b);
    if c < 0 {
        Ordering::Less
    } else if c > 0 {
        Ordering::Greater
    } else {
        Ordering::Equal
    }
}

/// Sizes compare by value, and a missing size comes first.
pub open spec fn size_order(left: Option<u32>, right: Option<u32>) -> Ordering {
    match (left, right) {
        (Some(l), Some(r)) => if l < r {
            Ordering::Less
        } else if l > r {
            Ordering::Greater
        } else {
            Ordering::Equal
        },
        (Some(_), None) => Ordering::Greater,
        (None, Some(_)) => Ordering::Less,
        (None, None) => Ordering::Equal,
    }
}

pub fn compare_option_u32(left: Option<u32>, right: Option<u32>) -> (r: Ordering)
    ensures
        r == size_order(left, right),
{
    match (left, right) {
        (Some(l), Some(r)) => if l < r {
            Ordering::Less
        } else if l > r {
            Ordering::Greater
        } else {
            Ordering::Equal
        },
        (Some(_), None) => Ordering::Greater,
        (None, Some(_)) => Ordering::Less,
        (None, None) => Ordering::Equal,
    }
}

/// The number of pages for `total_count` items, at least one; a page size of
/// zero counts as one.
pub open spec fn spec_page_count(total_count: nat, page_size: nat) -> nat {
    let size: nat = if page_size == 0 {
        1
    } else {
        page_size
    };
    let pages: nat = ((total_count + size - 1) as nat) / size;
    if pages == 0 {
        1
    } else {
        pages
    }
}

pub fn page_count(total_count: usize, page_size: usize) -> (r: usize)
    ensures
        r == spec_page_count(total_count as nat, page_size as nat),
        r >= 1,
{
    let size = if page_size == 0 {
        1
    } else {
        page_size
    };
    let q = total_count / size;
    let extra: usize = if total_count % size != 0 {
        1
    } else {
        0
    };
    assert(extra == 1 ==> q < usize::MAX) by (nonlinear_arith)
        requires
            size >= 1,
            q == total_count / size,
            extra == 1 ==> total_count % size != 0,
    {
        if extra == 1 {
            assert(size >= 2);
            assert(q * size <= total_count);
            assert(q <= total_count / 2);
        }
    }
    let pages = q + extra;
    assert(pages == (total_count + size - 1) / (size as int)) by (nonlinear_arith)
        requires
            size >= 1,
            pages == total_count / size + if total_count % size != 0 {
                1int
            } else {
                0int
            },
    ;
    if pages == 0 {
        1
    } else {
        pages
    }
}

/// The items of the page at `page_index`: an empty list when it starts past
/// the end.
pub open spec fn page_slice(visible: Seq<usize>, page_index: nat, page_size: nat) -> Seq<usize> {
    let start: int = (page_index * page_size) as int;
    let end: int = if start + page_size < visible.len() {
        start + page_size
    } else {
        visible.len() as int
    };
    if start >= visible.len() {
        Seq::empty()
    } else {
        visible.subrange(start, end)
    }
}

/// The indices shown on one page of the visible list.
pub fn paged_indices(visible: &[usize], page_index: usize, page_size: usize) -> (r: Vec<usize>)
    requires
        page_index * page_size + page_size <= usize::MAX,
    ensures
        r@ == page_slice(visible@, page_index as nat, page_size as nat),
{
    let start = page_index * page_size;
    let end = if start + page_size < visible.len() {
        start + page_size
    } else {
        visible.len()
    };
    let mut r: Vec<usize> = Vec::new();
    if start >= visible.len() {
        return r;
    }
    let mut i = start;
    while i < end
        invariant
            start <= i <= end <= visible@.len(),
            r@ == visible@.subrange(start as int, i as int),
        decreases end - i,
    {
        r.push(visible[i]);
        i = i + 1;
        assert(r@ =~= visible@.subrange(start as int, i as int));
    }
    r
}

/// The page index moved back onto the last page when it is past it.
pub fn clamp_page(page_index: usize, total_count: usize, page_size: usize) -> (r: usize)
    ensures
        r == if page_index >= spec_page_count(total_count as nat, page_size as nat) {
            (spec_page_count(total_count as nat, page_size as nat) - 1) as usize
        } else {
            page_index
        },
        r < spec_page_count(total_count as nat, page_size as nat),
{
    let pages = page_count(total_count, page_size);
    if page_index >= pages {
        pages - 1
    } else {
        page_index
    }
}

/// The first `n` pages of a list, one after the other.
pub open spec fn first_pages(visible: Seq<usize>, page_size: nat, n: nat) -> Seq<usize>
    decreases n,
{
    if n == 0 {
        Seq::empty()
    } else {
        first_pages(visible, page_size, (n - 1) as nat) + page_slice(
            visible,
            (n - 1) as nat,
            page_size,
        )
    }
}

proof fn lemma_first_pages_prefix(visible: Seq<usize>, page_size: nat, n: nat)
    requires
        page_size > 0,
    ensures
        first_pages(visible, page_size, n) == visible.take(
            if n * page_size < visible.len() {
                (n * page_size) as int
            } else {
                visible.len() as int
            },
        ),
    decreases n,
{
    if n == 0 {
        assert(visible.take(0) =~= Seq::<usize>::empty());
    } else {
        let m = (n - 1) as nat;
        lemma_first_pages_prefix(visible, page_size, m);
        assert(m * page_size + page_size == n * page_size) by (nonlinear_arith)
            requires
                m + 1 == n,
        ;
        let start: int = (m * page_size) as int;
        if start >= visible.len() {
            assert(first_pages(visible, page_size, m) + Seq::<usize>::empty() =~= first_pages(
                visible,
                page_size,
                m,
            ));
        } else {
            let end: int = if start + page_size < visible.len() {
                start + page_size
            } else {
                visible.len() as int
            };
            assert(visible.take(start) + visible.subrange(start, end) =~= visible.take(end));
        }
    }
}

/// Paging loses and repeats nothing: with a page size above zero, the pages
/// from the first to the last, one after the other, are the whole list.
pub proof fn lemma_pages_cover_list(visible: Seq<usize>, page_size: nat)
    requires
        page_size > 0,
    ensures
        first_pages(visible, page_size, spec_page_count(visible.len(), page_size)) == visible,
{
    let n = spec_page_count(visible.len(), page_size);
    lemma_first_pages_prefix(visible, page_size, n);
    let len = visible.len();
    let q: nat = ((len + page_size - 1) as nat) / page_size;
    assert(q * page_size >= len) by (nonlinear_arith)
        requires
            page_size > 0,
            q == ((len + page_size - 1) as nat) / page_size,
    {
        let s = (len + page_size - 1) as nat;
        assert(s == q * page_size + s % page_size);
        assert(s % page_size < page_size);
    }
    assert(n >= q);
    assert(n * page_size >= q * page_size) by (nonlinear_arith)
        requires
            n >= q,
    ;
    assert(visible.take(len as int) =~= visible);
}

/// The first and last item numbers (from one) shown on a page, for the
/// `start-end / total` line.
pub fn page_span(total_count: usize, page_index: usize, page_size: usize) -> (r: (usize, usize))
    requires
        page_index < usize::MAX,
        (page_index + 1) * page_size <= usize::MAX,
    ensures
        r.0 == if total_count == 0 {
            0
        } else {
            page_index * page_size + 1
        },
        r.1 == if (page_index + 1) * page_size < total_count {
            (page_index + 1) * page_size
        } else {
            total_count as int
        },
{
    assert(page_index * page_size + page_size == (page_index + 1) * page_size) by (nonlinear_arith);
    let first = page_index * page_size;
    let start = if total_count == 0 {
        0
    } else if page_size == 0 {
        1
    } else {
        first + 1
    };
    let limit = (page_index + 1) * page_size;
    let end = if limit < total_count {
        limit
    } else {
        total_count
    };
    (start, end)
}

pub open spec fn readiness_options() -> Seq<(Seq<char>, Seq<char>)> {
    seq![
        ("selectable"@, "삭제 가능"@),
        ("verified"@, "검증됨"@),
        ("shell"@, "셸 검증 제한"@),
        ("unsupported"@, "실행 불가"@),
        ("blocked"@, "제거 제한"@),
        ("all"@, "전체"@),
    ]
}

/// The page buttons: to the first, previous, next or last page.
#[derive(Clone, Copy, Debug, PartialEq, Eq, Structural)]
pub enum PageMove {
    First,
    Previous,
    Next,
    Last,
}

/// Whether a page button can be pressed: back while not on the first page,
/// forward while not on the last.
pub open spec fn page_move_allowed(page_index: nat, page_count: nat, step: PageMove) -> bool {
    match step {
        PageMove::First | PageMove::Previous => page_index > 0,
        PageMove::Next | PageMove::Last => page_index + 1 < page_count,
    }
}

/// The page a button leads to.
pub open spec fn page_after_move(page_index: nat, page_count: nat, step: PageMove) -> nat {
    match step {
        PageMove::First => 0,
        PageMove::Previous => if page_index > 0 {
            (page_index - 1) as nat
        } else {
            0
        },
        PageMove::Next => page_index + 1,
        PageMove::Last => if page_count > 0 {
            (page_count - 1) as nat
        } else {
            0
        },
    }
}

pub fn can_move_page(page_index: usize, page_count: usize, step: PageMove) -> (r: bool)
    ensures
        r == page_move_allowed(page_index as nat, page_count as nat, step),
{
    match step {
        PageMove::First | PageMove::Previous => page_index > 0,
        PageMove::Next | PageMove::Last => page_index < page_count && page_count - page_index > 1,
    }
}

pub fn move_page(page_index: usize, page_count: usize, step: PageMove) -> (r: usize)
    requires
        step == PageMove::Next ==> page_index < usize::MAX,
    ensures
        r == page_after_move(page_index as nat, page_count as nat, step),
{
    match step {
        PageMove::First => 0,
        PageMove::Previous => if page_index > 0 {
            page_index - 1
        } else {
            0
        },
        PageMove::Next => page_index + 1,
        PageMove::Last => if page_count > 0 {
            page_count - 1
        } else {
            0
        },
    }
}

/// A page that can be moved from stays a page: a move allowed from a page
/// before the last page leads to a page before the last page.
pub proof fn lemma_page_move_stays_in_range(page_index: nat, page_count: nat, step: PageMove)
    requires
        page_index < page_count,
        page_move_allowed(page_index, page_count, step),
    ensures
        page_after_move(page_index, page_count, step) < page_count,
{
}

/// The readiness filters offered, each with its label.
pub fn readiness_filter_options() -> (r: [(&'static str, &'static str); 6])
    ensures
        r@.map_values(|o: (&'static str, &'static str)| (o.0@, o.1@)) == readiness_options(),
{
    let r = [
        ("selectable", "삭제 가능"),
        ("verified", "검증됨"),
        ("shell", "셸 검증 제한"),
        ("unsupported", "실행 불가"),
        ("blocked", "제거 제한"),
        ("all", "전체"),
    ];
    assert(r@.map_values(|o: (&'static str, &'static str)| (o.0@, o.1@)) =~= readiness_options());
    r
}

/// The label of the first offered filter with this value, else that of the
/// default filter.
pub open spec fn option_label(options: Seq<(Seq<char>, Seq<char>)>, value: Seq<char>) -> Seq<char>
    decreases options.len(),
{
    if options.len() == 0 {
        "삭제 가능"@
    } else if options[0].0 == value {
        options[0].1
    } else {
        option_label(options.drop_first(), value)
    }
}

pub fn readiness_filter_label(value: &str) -> (r: &'static str)
    ensures
        r@ == option_label(readiness_options(), value@),
{
    let options = readiness_filter_options();
    let ghost opts = readiness_options();
    let v = chars_of(value);
    let mut i: usize = 0;
    assert(opts.skip(0) =~= opts);
    while i < 6
        invariant
            i <= 6,
            opts == readiness_options(),
            options@.map_values(|o: (&'static str, &'static str)| (o.0@, o.1@)) == opts,
            v@ == value@,
            option_label(opts, value@) == option_label(opts.skip(i as int), value@),
        decreases 6 - i,
    {
        let (candidate, label) = options[i];
        assert(opts[i as int] == (candidate@, label@));
        assert(opts.skip(i as int)[0] == opts[i as int]);
        if chars_eq_str(v.as_slice(), candidate) {
            return label;
        }
        assert(opts.skip(i as int).drop_first() =~= opts.skip(i + 1));
        i = i + 1;
    }
    "삭제 가능"
}

/// Whether an application passes the readiness filter: unknown filters act
/// as the default, which shows removable applications whose command can run.
pub open spec fn passes_readiness_filter(
    filter: Seq<char>,
    no_remove: bool,
    status: UninstallReadiness,
) -> bool {
    if filter == "all"@ {
        true
    } else if filter == "selectable"@ {
        !no_remove && status != UninstallReadiness::Unsupported
    } else if filter == "verified"@ {
        !no_remove && status == UninstallReadiness::Verified
    } else if filter == "shell"@ {
        !no_remove && status == UninstallReadiness::NeedsShell
    } else if filter == "unsupported"@ {
        status == UninstallReadiness::Unsupported
    } else if filter == "blocked"@ {
        no_remove
    } else {
        !no_remove && status != UninstallReadiness::Unsupported
    }
}

/// How the readiness filters relate, for any application: "all" shows
/// everything; "blocked" shows exactly the no-remove entries and
/// "unsupported" exactly those whose command cannot run; "verified" shows
/// only verified and "shell" only shell-limited commands, of removable
/// entries, never the same entry; together they are "selectable", which
/// shows exactly the entries that can be chosen; any other filter acts as
/// "selectable".
pub proof fn lemma_readiness_filters(no_remove: bool, status: UninstallReadiness, other: Seq<char>)
    requires
        other != "all"@,
        other != "selectable"@,
        other != "verified"@,
        other != "shell"@,
        other != "unsupported"@,
        other != "blocked"@,
    ensures
        passes_readiness_filter("all"@, no_remove, status),
        passes_readiness_filter("blocked"@, no_remove, status) <==> no_remove,
        passes_readiness_filter("unsupported"@, no_remove, status) <==> status
            == UninstallReadiness::Unsupported,
        passes_readiness_filter("verified"@, no_remove, status) ==> !no_remove && status
            == UninstallReadiness::Verified,
        passes_readiness_filter("shell"@, no_remove, status) ==> !no_remove && status
            == UninstallReadiness::NeedsShell,
        !(passes_readiness_filter("verified"@, no_remove, status) && passes_readiness_filter(
            "shell"@,
            no_remove,
            status,
        )),
        passes_readiness_filter("selectable"@, no_remove, status) <==> (passes_readiness_filter(
            "verified"@,
            no_remove,
            status,
        ) || passes_readiness_filter("shell"@, no_remove, status)),
        passes_readiness_filter("selectable"@, no_remove, status) <==> can_select(no_remove, status),
        passes_readiness_filter(other, no_remove, status) == passes_readiness_filter(
            "selectable"@,
            no_remove,
            status,
        ),
{
    reveal_strlit("all");
    reveal_strlit("selectable");
    reveal_strlit("verified");
    reveal_strlit("shell");
    reveal_strlit("unsupported");
    reveal_strlit("blocked");
    assert("all"@.len() == 3 && "shell"@.len() == 5 && "blocked"@.len() == 7);
    assert("verified"@.len() == 8 && "selectable"@.len() == 10 && "unsupported"@.len() == 11);
}

pub fn matches_readiness_filter(filter: &str, no_remove: bool, assessment: &UninstallAssessment) -> (r: bool)
    ensures
        r == passes_readiness_filter(filter@, no_remove, assessment.status),
{
    let f = chars_of(filter);
    let f = f.as_slice();
    let selectable = assessment.is_selectable();
    if chars_eq_str(f, "all") {
        true
    } else if chars_eq_str(f, "selectable") {
        !no_remove && selectable
    } else if chars_eq_str(f, "verified") {
        !no_remove && assessment.status == UninstallReadiness::Verified
    } else if chars_eq_str(f, "shell") {
        !no_remove && assessment.status == UninstallReadiness::NeedsShell
    } else if chars_eq_str(f, "unsupported") {
        assessment.status == UninstallReadiness::Unsupported
    } else if chars_eq_str(f, "blocked") {
        no_remove
    } else {
        !no_remove && selectable
    }
}

/// The column the list is ordered by.
#[derive(Clone, Copy, Debug, PartialEq, Eq, Structural)]
pub enum SortKey {
    Name,
    Publisher,
    Version,
    Size,
}

/// The ordering after a column header is clicked: the same column flips
/// the direction; another column starts ascending, except size, which
/// starts descending.
pub fn next_sort(current: SortKey, descending: bool, clicked: SortKey) -> (r: (SortKey, bool))
    ensures
        r == if current == clicked {
            (current, !descending)
        } else {
            (clicked, clicked == SortKey::Size)
        },
{
    if current == clicked {
        (current, !descending)
    } else {
        (clicked, clicked == SortKey::Size)
    }
}

pub open spec fn search_terms(query: Seq<char>) -> Seq<Seq<char>> {
    words(lowercase(query))
}

/// Whether the list shows an application under the settings: hidden system
/// entries, no-remove entries, the publisher filter, the readiness filter and
/// every search term.
pub open spec fn shows_app(
    m: AppModel,
    status: UninstallReadiness,
    s: SettingsModel,
    terms: Seq<Seq<char>>,
) -> bool {
    &&& s.include_system_components || !m.is_system_component
    &&& s.show_no_remove || !m.no_remove
    &&& s.publisher_filter.len() == 0 || m.publisher == Some(s.publisher_filter)
    &&& passes_readiness_filter(s.uninstall_filter, m.no_remove, status)
    &&& forall|i: int| 0 <= i < terms.len() ==> contains_seq(m.search_text, #[trigger] terms[i])
}

pub open spec fn app_views(apps: Seq<InstalledApp>) -> Seq<AppModel> {
    apps.map_values(|a: InstalledApp| a@)
}

pub open spec fn statuses_of(assessments: Seq<UninstallAssessment>) -> Seq<UninstallReadiness> {
    assessments.map_values(|a: UninstallAssessment| a.status)
}

/// The indices below `n` of the applications shown, in list order.
pub open spec fn shown_indices(
    apps: Seq<AppModel>,
    statuses: Seq<UninstallReadiness>,
    s: SettingsModel,
    n: nat,
) -> Seq<usize>
    decreases n,
{
    if n == 0 {
        Seq::empty()
    } else {
        let prev = shown_indices(apps, statuses, s, (n - 1) as nat);
        if shows_app(apps[n - 1], statuses[n - 1], s, search_terms(s.query)) {
            prev.push((n - 1) as usize)
        } else {
            prev
        }
    }
}

pub open spec fn size_codes(o: Option<u32>) -> Seq<u32> {
    match o {
        Some(v) => seq![v],
        None => Seq::empty(),
    }
}

/// The key the list is ordered by: the chosen column, then the name, texts
/// compared without case.
pub open spec fn list_key(m: AppModel, key: SortKey) -> KeyView {
    let name = lower_codes(m.display_name);
    match key {
        SortKey::Name => (name, name),
        SortKey::Publisher => (lower_codes(opt_or_dash(m.publisher)), name),
        SortKey::Version => (lower_codes(opt_or_dash(m.version)), name),
        SortKey::Size => (size_codes(m.estimated_size_kb), name),
    }
}

/// Ordering by the size key is ordering as `compare_option_u32` does: by
/// value, a missing size first.
pub proof fn lemma_size_key_orders_as_sizes(left: Option<u32>, right: Option<u32>)
    ensures
        sign_to_order(seq_compare(size_codes(left), size_codes(right))) == size_order(left, right),
{
    let a = size_codes(left);
    let b = size_codes(right);
    if a.len() > 0 && b.len() > 0 && a[0] == b[0] {
        assert(a.drop_first() =~= Seq::<u32>::empty());
        assert(b.drop_first() =~= Seq::<u32>::empty());
        assert(seq_compare(a.drop_first(), b.drop_first()) == 0);
    }
}

pub open spec fn keyed_indices(idx: Seq<usize>, apps: Seq<AppModel>, key: SortKey) -> Seq<
    (usize, KeyView),
> {
    idx.map_values(|i: usize| (i, list_key(apps[i as int], key)))
}

fn search_term_strings(query: &str) -> (r: Vec<String>)
    ensures
        r@.map_values(|t: String| t@) == search_terms(query@),
{
    let lower = to_lowercase(query);
    let v = chars_of(lower.as_str());
    let ws = split_whitespace_chars(v.as_slice());
    let mut r: Vec<String> = Vec::new();
    let mut i: usize = 0;
    while i < ws.len()
        invariant
            i <= ws@.len(),
            r@.map_values(|t: String| t@) == ws@.map_values(|w: Vec<char>| w@).take(i as int),
        decreases ws@.len() - i,
    {
        let t = string_of(ws[i].as_slice());
        let ghost before = r@;
        r.push(t);
        assert(r@.map_values(|t: String| t@) =~= before.map_values(|t: String| t@).push(ws@[i as int]@));
        i = i + 1;
        assert(r@.map_values(|t: String| t@) =~= ws@.map_values(|w: Vec<char>| w@).take(i as int));
    }
    assert(ws@.map_values(|w: Vec<char>| w@).take(ws@.len() as int) =~= ws@.map_values(|w: Vec<char>| w@));
    r
}

fn opt_or_dash_chars(o: &Option<String>) -> (r: Vec<char>)
    ensures
        r@ == opt_or_dash(opt_view(*o)),
{
    match o {
        Some(s) => chars_of(s.as_str()),
        None => chars_of("-"),
    }
}

fn list_key_exec(app: &InstalledApp, key: SortKey) -> (r: OrderKey)
    ensures
        key_view(r) == list_key(app@, key),
{
    let name = lower_codes_exec(app.display_name.as_str());
    let primary = match key {
        SortKey::Name => lower_codes_exec(app.display_name.as_str()),
        SortKey::Publisher => {
            let p = opt_or_dash_chars(&app.publisher);
            lower_codes_exec(string_of(p.as_slice()).as_str())
        },
        SortKey::Version => {
            let v = opt_or_dash_chars(&app.version);
            lower_codes_exec(string_of(v.as_slice()).as_str())
        },
        SortKey::Size => {
            let mut c: Vec<u32> = Vec::new();
            match app.estimated_size_kb {
                Some(v) => {
                    c.push(v);
                },
                None => {},
            }
            assert(c@ =~= size_codes(app.estimated_size_kb));
            c
        },
    };
    OrderKey { primary, secondary: name }
}

fn shows_app_exec(
    app: &InstalledApp,
    assessment: &UninstallAssessment,
    settings: &AppSettings,
    terms: &Vec<String>,
) -> (r: bool)
    requires
        terms@.map_values(|t: String| t@) == search_terms(settings.query@),
    ensures
        r == shows_app(app@, assessment.status, settings@, search_terms(settings.query@)),
{
    let allowed_system = settings.include_system_components || !app.is_system_component;
    let allowed_remove = settings.show_no_remove || !app.no_remove;
    let filter = chars_of(settings.publisher_filter.as_str());
    let allowed_publisher = if filter.len() == 0 {
        true
    } else {
        match &app.publisher {
            Some(p) => chars_eq_str(filter.as_slice(), p.as_str()),
            None => false,
        }
    };
    let allowed_readiness = matches_readiness_filter(
        settings.uninstall_filter.as_str(),
        app.no_remove,
        assessment,
    );
    if !(allowed_system && allowed_remove && allowed_publisher && allowed_readiness) {
        return false;
    }
    let matched = app.matches_terms(terms.as_slice());
    proof {
        let ts = search_terms(settings.query@);
        assert forall|i: int| 0 <= i < ts.len() implies #[trigger] ts[i] == terms@[i]@ by {
            assert(terms@.map_values(|t: String| t@)[i] == terms@[i]@);
        }
        if matched {
            assert forall|i: int| 0 <= i < ts.len() implies contains_seq(app@.search_text, #[trigger] ts[i]) by {
                assert(ts[i] == terms@[i]@);
            }
        } else {
            let j = choose|j: int| 0 <= j < terms@.len() && !contains_seq(app@.search_text, #[trigger] terms@[j]@);
            assert(ts[j] == terms@[j]@);
        }
    }
    matched
}

/// Whether `a` may be listed before `b` when the list is ordered ascending
/// by `key`, as the original's comparisons order it: names, publishers and
/// versions (`-` when missing) compared as `compare_text` does, sizes as
/// `compare_option_u32` does, and equal columns by name.
pub open spec fn listed_in_order(a: AppModel, b: AppModel, key: SortKey) -> bool {
    let names = text_order(a.display_name, b.display_name);
    match key {
        SortKey::Name => names <= 0,
        SortKey::Publisher => {
            let c = text_order(opt_or_dash(a.publisher), opt_or_dash(b.publisher));
            c < 0 || (c == 0 && names <= 0)
        },
        SortKey::Version => {
            let c = text_order(opt_or_dash(a.version), opt_or_dash(b.version));
            c < 0 || (c == 0 && names <= 0)
        },
        SortKey::Size => {
            let c = size_order(a.estimated_size_kb, b.estimated_size_kb);
            c == Ordering::Less || (c == Ordering::Equal && names <= 0)
        },
    }
}

/// One pair of the list: the earlier one's key is not after the later
/// one's, so the two are in column order.
proof fn lemma_key_pair_in_order(a: AppModel, b: AppModel, key: SortKey)
    requires
        crate::sorting::key_compare(list_key(a, key), list_key(b, key)) <= 0,
    ensures
        listed_in_order(a, b, key),
{
    let ka = list_key(a, key);
    let kb = list_key(b, key);
    lemma_seq_compare_antisym(ka.0, kb.0);
    lemma_seq_compare_antisym(ka.1, kb.1);
    lemma_size_key_orders_as_sizes(a.estimated_size_kb, b.estimated_size_kb);
}

/// The list is in column order: ascending, each application may be listed
/// before every later one by the chosen column (and then by name);
/// descending, the other way round.
pub proof fn lemma_visible_in_column_order(
    apps: Seq<AppModel>,
    input: Seq<(usize, KeyView)>,
    r: Seq<usize>,
    key: SortKey,
    descending: bool,
)
    requires
        is_stable_sort_of(keyed_indices(r, apps, key), input, descending),
    ensures
        forall|i: int, j: int|
            0 <= i < j < r.len() ==> if descending {
                listed_in_order(apps[#[trigger] r[j] as int], apps[#[trigger] r[i] as int], key)
            } else {
                listed_in_order(apps[r[i] as int], apps[r[j] as int], key)
            },
{
    let out = keyed_indices(r, apps, key);
    assert forall|i: int, j: int| 0 <= i < j < r.len() implies if descending {
        listed_in_order(apps[#[trigger] r[j] as int], apps[#[trigger] r[i] as int], key)
    } else {
        listed_in_order(apps[r[i] as int], apps[r[j] as int], key)
    } by {
        let a = apps[r[i] as int];
        let b = apps[r[j] as int];
        assert(out[i].1 == list_key(a, key));
        assert(out[j].1 == list_key(b, key));
        assert(!crate::sorting::goes_before(
            crate::sorting::item_key(out[j]),
            crate::sorting::item_key(out[i]),
            descending,
        ));
        let ka = list_key(a, key);
        let kb = list_key(b, key);
        lemma_seq_compare_antisym(ka.0, kb.0);
        lemma_seq_compare_antisym(ka.1, kb.1);
        if descending {
            lemma_key_pair_in_order(b, a, key);
        } else {
            lemma_key_pair_in_order(a, b, key);
        }
    }
}

/// The indices of the applications shown under the settings, ordered by
/// `key` (then name), descending when asked, equal keys keeping list order.
pub fn visible_indices(
    apps: &[InstalledApp],
    assessments: &[UninstallAssessment],
    settings: &AppSettings,
    key: SortKey,
    descending: bool,
) -> (r: Vec<usize>)
    requires
        assessments@.len() == apps@.len(),
    ensures
        is_stable_sort_of(
            keyed_indices(r@, app_views(apps@), key),
            keyed_indices(
                shown_indices(
                    app_views(apps@),
                    statuses_of(assessments@),
                    settings@,
                    apps@.len(),
                ),
                app_views(apps@),
                key,
            ),
            descending,
        ),
        forall|i: int, j: int|
            0 <= i < j < r@.len() ==> if descending {
                listed_in_order(
                    app_views(apps@)[#[trigger] r@[j] as int],
                    app_views(apps@)[#[trigger] r@[i] as int],
                    key,
                )
            } else {
                listed_in_order(app_views(apps@)[r@[i] as int], app_views(apps@)[r@[j] as int], key)
            },
{
    let ghost av = app_views(apps@);
    let ghost st = statuses_of(assessments@);
    let terms = search_term_strings(settings.query.as_str());
    let mut pairs: Vec<(usize, OrderKey)> = Vec::new();
    let mut i: usize = 0;
    while i < apps.len()
        invariant
            av == app_views(apps@),
            st == statuses_of(assessments@),
            assessments@.len() == apps@.len(),
            i <= apps@.len(),
            terms@.map_values(|t: String| t@) == search_terms(settings.query@),
            pair_views(pairs@) == keyed_indices(shown_indices(av, st, settings@, i as nat), av, key),
        decreases apps@.len() - i,
    {
        assert(av[i as int] == apps@[i as int]@);
        assert(st[i as int] == assessments@[i as int].status);
        if shows_app_exec(&apps[i], &assessments[i], settings, &terms) {
            let k = list_key_exec(&apps[i], key);
            let ghost before = pair_views(pairs@);
            pairs.push((i, k));
            assert(pair_views(pairs@) =~= before.push((i, list_key(av[i as int], key))));
            assert(keyed_indices(shown_indices(av, st, settings@, (i + 1) as nat), av, key) =~= keyed_indices(
                shown_indices(av, st, settings@, i as nat),
                av,
                key,
            ).push((i, list_key(av[i as int], key))));
        }
        i = i + 1;
    }
    let ghost input = pair_views(pairs@);
    let ghost shown = shown_indices(av, st, settings@, apps@.len() as nat);
    let sorted = stable_sort(pairs, descending);
    let ghost sv = pair_views(sorted@);
    proof {
        assert forall|j: int| 0 <= j < input.len() implies (#[trigger] input[j]).1 == list_key(
            av[input[j].0 as int],
            key,
        ) by {
            assert(input[j] == (shown[j], list_key(av[shown[j] as int], key)));
        }
        lemma_sort_keeps_keys(sv, input, |x: usize| list_key(av[x as int], key), descending);
    }
    let mut r: Vec<usize> = Vec::new();
    let mut k: usize = 0;
    while k < sorted.len()
        invariant
            k <= sorted@.len(),
            sv == pair_views(sorted@),
            forall|j: int| 0 <= j < sv.len() ==> (#[trigger] sv[j]).1 == list_key(av[sv[j].0 as int], key),
            keyed_indices(r@, av, key) == sv.take(k as int),
        decreases sorted@.len() - k,
    {
        let idx = sorted[k].0;
        assert(sv[k as int] == (idx, list_key(av[idx as int], key)));
        let ghost before = r@;
        r.push(idx);
        assert(keyed_indices(r@, av, key) =~= keyed_indices(before, av, key).push(sv[k as int]));
        assert(sv.take(k + 1) =~= sv.take(k as int).push(sv[k as int]));
        k = k + 1;
    }
    assert(sv.take(sv.len() as int) =~= sv);
    proof {
        lemma_visible_in_column_order(
            av,
            keyed_indices(shown, av, key),
            r@,
            key,
            descending,
        );
    }
    r
}

/// The publishers the applications name, in list order, blank ones left out.
pub open spec fn publisher_candidates(apps: Seq<AppModel>) -> Seq<Seq<char>>
    decreases apps.len(),
{
    if apps.len() == 0 {
        Seq::empty()
    } else {
        let prev = publisher_candidates(apps.drop_last());
        match apps.last().publisher {
            Some(p) => if trim(p).len() > 0 {
                prev.push(p)
            } else {
                prev
            },
            None => prev,
        }
    }
}

pub open spec fn publisher_key(p: Seq<char>) -> KeyView {
    (lower_codes(p), Seq::empty())
}

pub open spec fn keyed_texts(ps: Seq<Seq<char>>) -> Seq<(Seq<char>, KeyView)> {
    ps.map_values(|p: Seq<char>| (p, publisher_key(p)))
}

/// Each run of texts equal but for ASCII case reduced to its first, as
/// `Vec::dedup_by` with `eq_ignore_ascii_case` does.
pub open spec fn dedup_ignoring_ascii_case(s: Seq<Seq<char>>) -> Seq<Seq<char>>
    decreases s.len(),
{
    if s.len() == 0 {
        Seq::empty()
    } else {
        let r = dedup_ignoring_ascii_case(s.drop_last());
        if r.len() > 0 && ascii_lower(r.last()) == ascii_lower(s.last()) {
            r
        } else {
            r.push(s.last())
        }
    }
}

/// The publishers offered as filters: those the applications name, ordered
/// without case, runs differing only in ASCII case kept once.
pub fn publisher_options(apps: &[InstalledApp]) -> (r: Vec<String>)
    ensures
        exists|sorted: Seq<(Seq<char>, KeyView)>|
            is_stable_sort_of(sorted, keyed_texts(publisher_candidates(app_views(apps@))), false)
                && r@.map_values(|p: String| p@) == dedup_ignoring_ascii_case(
                sorted.map_values(|x: (Seq<char>, KeyView)| x.0),
            ),
{
    let ghost av = app_views(apps@);
    let mut pairs: Vec<(String, OrderKey)> = Vec::new();
    let mut i: usize = 0;
    while i < apps.len()
        invariant
            av == app_views(apps@),
            i <= apps@.len(),
            pair_views(pairs@) == keyed_texts(publisher_candidates(av.take(i as int))),
        decreases apps@.len() - i,
    {
        assert(av.take(i + 1).drop_last() =~= av.take(i as int));
        assert(av.take(i + 1).last() == apps@[i as int]@);
        match &apps[i].publisher {
            Some(p) => {
                let t = trim_chars(chars_of(p.as_str()).as_slice());
                if t.len() > 0 {
                    let key = OrderKey { primary: lower_codes_exec(p.as_str()), secondary: Vec::new() };
                    let ghost before = pair_views(pairs@);
                    pairs.push((p.clone(), key));
                    assert(pair_views(pairs@) =~= before.push((p@, publisher_key(p@))));
                    assert(keyed_texts(publisher_candidates(av.take(i + 1))) =~= keyed_texts(
                        publisher_candidates(av.take(i as int)),
                    ).push((p@, publisher_key(p@))));
                }
            },
            None => {},
        }
        i = i + 1;
    }
    assert(av.take(apps@.len() as int) =~= av);
    let sorted = stable_sort(pairs, false);
    let ghost sv = pair_views(sorted@);
    let ghost texts = sv.map_values(|x: (Seq<char>, KeyView)| x.0);
    let mut r: Vec<String> = Vec::new();
    let mut last_lower: Vec<char> = Vec::new();
    let mut k: usize = 0;
    while k < sorted.len()
        invariant
            k <= sorted@.len(),
            sv == pair_views(sorted@),
            texts == sv.map_values(|x: (Seq<char>, KeyView)| x.0),
            r@.map_values(|p: String| p@) == dedup_ignoring_ascii_case(texts.take(k as int)),
            r@.len() > 0 ==> last_lower@ == ascii_lower(r@.last()@),
        decreases sorted@.len() - k,
    {
        let p = &sorted[k].0;
        assert(texts[k as int] == p@);
        assert(texts.take(k + 1).drop_last() =~= texts.take(k as int));
        assert(texts.take(k + 1).last() == p@);
        let lower = ascii_lower_chars(chars_of(p.as_str()).as_slice());
        let ghost prev = r@.map_values(|p: String| p@);
        if r.len() > 0 && chars_eq(last_lower.as_slice(), lower.as_slice()) {
            assert(prev.last() == r@.last()@);
        } else {
            r.push(p.clone());
            last_lower = lower;
            assert(r@.map_values(|p: String| p@) =~= prev.push(texts[k as int]));
        }
        k = k + 1;
    }
    assert(texts.take(texts.len() as int) =~= texts);
    r
}

/// The publisher filter kept after the publishers are listed again: cleared
/// when it names none of them.
pub fn publisher_filter_after_rebuild(filter: &str, publishers: &[String]) -> (r: String)
    ensures
        r@ == if filter@.len() > 0 && !publishers@.map_values(|p: String| p@).contains(filter@) {
            Seq::<char>::empty()
        } else {
            filter@
        },
{
    let f = chars_of(filter);
    if f.len() == 0 {
        return filter.to_owned();
    }
    let ghost ps = publishers@.map_values(|p: String| p@);
    let mut i: usize = 0;
    while i < publishers.len()
        invariant
            ps == publishers@.map_values(|p: String| p@),
            f@ == filter@,
            i <= publishers@.len(),
            forall|j: int| 0 <= j < i ==> ps[j] != filter@,
        decreases publishers@.len() - i,
    {
        if chars_eq_str(f.as_slice(), publishers[i].as_str()) {
            assert(ps[i as int] == filter@);
            return filter.to_owned();
        }
        i = i + 1;
    }
    String::new()
}

/// Whether an application can be chosen for removal: not marked no-remove,
/// and its command can run.
pub open spec fn can_select(no_remove: bool, status: UninstallReadiness) -> bool {
    !no_remove && status != UninstallReadiness::Unsupported
}

pub fn is_app_selectable(app: &InstalledApp, assessment: &UninstallAssessment) -> (r: bool)
    ensures
        r == can_select(app.no_remove, assessment.status),
{
    !app.no_remove && assessment.is_selectable()
}

/// Counts for the summary line.
#[derive(Clone, Copy, Debug)]
pub struct ListSummary {
    pub hidden: usize,
    pub blocked: usize,
    pub runnable: usize,
    pub unsupported: usize,
}

/// What the summary line counts.
pub enum Tally {
    /// Hidden system entries.
    Hidden,
    /// Entries marked no-remove.
    Blocked,
    /// Entries that can be chosen for removal.
    Runnable,
    /// Entries whose command cannot run.
    Unsupported,
}

pub open spec fn tallied(which: Tally, m: AppModel, status: UninstallReadiness) -> bool {
    match which {
        Tally::Hidden => m.is_system_component,
        Tally::Blocked => m.no_remove,
        Tally::Runnable => can_select(m.no_remove, status),
        Tally::Unsupported => status == UninstallReadiness::Unsupported,
    }
}

/// How many of the applications are counted under `which`.
pub open spec fn count_where(apps: Seq<AppModel>, statuses: Seq<UninstallReadiness>, which: Tally) -> nat
    decreases apps.len(),
{
    if apps.len() == 0 {
        0
    } else {
        let prev = count_where(apps.drop_last(), statuses.drop_last(), which);
        if tallied(which, apps.last(), statuses[apps.len() - 1]) {
            prev + 1
        } else {
            prev
        }
    }
}

/// How many applications are hidden system entries, marked no-remove,
/// selectable and unsupported.
pub fn summarize(apps: &[InstalledApp], assessments: &[UninstallAssessment]) -> (r: ListSummary)
    requires
        assessments@.len() == apps@.len(),
    ensures
        r.hidden == count_where(app_views(apps@), statuses_of(assessments@), Tally::Hidden),
        r.blocked == count_where(app_views(apps@), statuses_of(assessments@), Tally::Blocked),
        r.runnable == count_where(app_views(apps@), statuses_of(assessments@), Tally::Runnable),
        r.unsupported == count_where(app_views(apps@), statuses_of(assessments@), Tally::Unsupported),
{
    let ghost av = app_views(apps@);
    let ghost st = statuses_of(assessments@);
    let mut hidden: usize = 0;
    let mut blocked: usize = 0;
    let mut runnable: usize = 0;
    let mut unsupported: usize = 0;
    let mut i: usize = 0;
    while i < apps.len()
        invariant
            av == app_views(apps@),
            st == statuses_of(assessments@),
            assessments@.len() == apps@.len(),
            i <= apps@.len(),
            hidden == count_where(av.take(i as int), st.take(i as int), Tally::Hidden),
            blocked == count_where(av.take(i as int), st.take(i as int), Tally::Blocked),
            runnable == count_where(av.take(i as int), st.take(i as int), Tally::Runnable),
            unsupported == count_where(av.take(i as int), st.take(i as int), Tally::Unsupported),
            hidden <= i && blocked <= i && runnable <= i && unsupported <= i,
        decreases apps@.len() - i,
    {
        assert(av.take(i + 1).drop_last() =~= av.take(i as int));
        assert(st.take(i + 1).drop_last() =~= st.take(i as int));
        assert(av.take(i + 1).last() == apps@[i as int]@);
        assert(st.take(i + 1)[i as int] == assessments@[i as int].status);
        let app = &apps[i];
        let a = &assessments[i];
        if app.is_system_component {
            hidden = hidden + 1;
        }
        if app.no_remove {
            blocked = blocked + 1;
        }
        if is_app_selectable(app, a) {
            runnable = runnable + 1;
        }
        if a.status == UninstallReadiness::Unsupported {
            unsupported = unsupported + 1;
        }
        i = i + 1;
    }
    assert(av.take(apps@.len() as int) =~= av);
    assert(st.take(apps@.len() as int) =~= st);
    ListSummary { hidden, blocked, runnable, unsupported }
}

pub open spec fn id_views(ids: Seq<String>) -> Seq<Seq<char>> {
    ids.map_values(|s: String| s@)
}

/// The indices below `n` of the applications that are chosen and can be
/// removed, in list order.
pub open spec fn chosen_indices(
    apps: Seq<AppModel>,
    statuses: Seq<UninstallReadiness>,
    ids: Seq<Seq<char>>,
    n: nat,
) -> Seq<int>
    decreases n,
{
    if n == 0 {
        Seq::empty()
    } else {
        let prev = chosen_indices(apps, statuses, ids, (n - 1) as nat);
        let m = apps[n - 1];
        if ids.contains(m.id) && can_select(m.no_remove, statuses[n - 1]) {
            prev.push(n - 1)
        } else {
            prev
        }
    }
}

fn contains_id(ids: &[String], id: &str) -> (r: bool)
    ensures
        r == id_views(ids@).contains(id@),
{
    let v = chars_of(id);
    let ghost s = id_views(ids@);
    let mut i: usize = 0;
    while i < ids.len()
        invariant
            s == id_views(ids@),
            v@ == id@,
            i <= ids@.len(),
            forall|j: int| 0 <= j < i ==> s[j] != id@,
        decreases ids@.len() - i,
    {
        if chars_eq_str(v.as_slice(), ids[i].as_str()) {
            assert(s[i as int] == id@);
            return true;
        }
        i = i + 1;
    }
    false
}

/// The uninstall jobs for the chosen applications that can be removed, in
/// list order.
pub fn selected_targets(
    apps: &[InstalledApp],
    assessments: &[UninstallAssessment],
    selected_ids: &[String],
    search_dirs: &[String],
) -> (r: Vec<UninstallTarget>)
    requires
        assessments@.len() == apps@.len(),
    ensures
        r@.len() == chosen_indices(app_views(apps@), statuses_of(assessments@), id_views(selected_ids@), apps@.len() as nat).len(),
        forall|k: int| 0 <= k < r@.len() ==> {
            let i = chosen_indices(app_views(apps@), statuses_of(assessments@), id_views(selected_ids@), apps@.len() as nat)[k];
            &&& (#[trigger] r@[k]).app_id@ == apps@[i].id@
            &&& r@[k].name@ == apps@[i].display_name@
            &&& r@[k].raw_command@ == apps@[i].uninstall_string@
            &&& r@[k].command@ == uninstall_command(apps@[i].uninstall_string@)
            &&& r@[k].launch_mode == spec_launch_mode(apps@[i].uninstall_string@)
            &&& exists|found: bool| (r@[k].assessment.status, r@[k].assessment.detail@)
                == assessment_of(apps@[i].uninstall_string@, found)
            &&& judged_by_lookup(
                apps@[i].uninstall_string@,
                dir_views(search_dirs@),
                probe_exists,
                (r@[k].assessment.status, r@[k].assessment.detail@),
            )
        },
{
    let ghost av = app_views(apps@);
    let ghost st = statuses_of(assessments@);
    let ghost ids = id_views(selected_ids@);
    let mut r: Vec<UninstallTarget> = Vec::new();
    let mut i: usize = 0;
    while i < apps.len()
        invariant
            av == app_views(apps@),
            st == statuses_of(assessments@),
            ids == id_views(selected_ids@),
            assessments@.len() == apps@.len(),
            i <= apps@.len(),
            r@.len() == chosen_indices(av, st, ids, i as nat).len(),
            forall|k: int| 0 <= k < r@.len() ==> {
                let j = chosen_indices(av, st, ids, i as nat)[k];
                &&& 0 <= j < i
                &&& (#[trigger] r@[k]).app_id@ == apps@[j].id@
                &&& r@[k].name@ == apps@[j].display_name@
                &&& r@[k].raw_command@ == apps@[j].uninstall_string@
                &&& r@[k].command@ == uninstall_command(apps@[j].uninstall_string@)
                &&& r@[k].launch_mode == spec_launch_mode(apps@[j].uninstall_string@)
                &&& exists|found: bool| (r@[k].assessment.status, r@[k].assessment.detail@)
                    == assessment_of(apps@[j].uninstall_string@, found)
                &&& judged_by_lookup(
                    apps@[j].uninstall_string@,
                    dir_views(search_dirs@),
                    probe_exists,
                    (r@[k].assessment.status, r@[k].assessment.detail@),
                )
            },
        decreases apps@.len() - i,
    {
        let app = &apps[i];
        assert(av[i as int] == app@);
        assert(st[i as int] == assessments@[i as int].status);
        let ghost prev = chosen_indices(av, st, ids, i as nat);
        if contains_id(selected_ids, app.id.as_str()) && is_app_selectable(app, &assessments[i]) {
            let t = UninstallTarget::from_app(app, search_dirs);
            r.push(t);
            assert(chosen_indices(av, st, ids, (i + 1) as nat) == prev.push(i as int));
        } else {
            assert(chosen_indices(av, st, ids, (i + 1) as nat) == prev);
        }
        i = i + 1;
    }
    r
}

/// The ids of the applications on a page that can be chosen, in page order.
pub open spec fn page_selectable_ids(
    apps: Seq<AppModel>,
    statuses: Seq<UninstallReadiness>,
    page: Seq<usize>,
) -> Seq<Seq<char>>
    decreases page.len(),
{
    if page.len() == 0 {
        Seq::empty()
    } else {
        let prev = page_selectable_ids(apps, statuses, page.drop_last());
        let i = page.last() as int;
        if can_select(apps[i].no_remove, statuses[i]) {
            prev.push(apps[i].id)
        } else {
            prev
        }
    }
}

/// The ids of the applications on a page that can be chosen, for choosing
/// the whole page.
pub fn selectable_ids_on_page(
    apps: &[InstalledApp],
    assessments: &[UninstallAssessment],
    page: &[usize],
) -> (r: Vec<String>)
    requires
        assessments@.len() == apps@.len(),
        forall|k: int| 0 <= k < page@.len() ==> #[trigger] page@[k] < apps@.len(),
    ensures
        id_views(r@) == page_selectable_ids(app_views(apps@), statuses_of(assessments@), page@),
{
    let ghost av = app_views(apps@);
    let ghost st = statuses_of(assessments@);
    let mut r: Vec<String> = Vec::new();
    let mut k: usize = 0;
    while k < page.len()
        invariant
            av == app_views(apps@),
            st == statuses_of(assessments@),
            assessments@.len() == apps@.len(),
            forall|q: int| 0 <= q < page@.len() ==> #[trigger] page@[q] < apps@.len(),
            k <= page@.len(),
            id_views(r@) == page_selectable_ids(av, st, page@.take(k as int)),
        decreases page@.len() - k,
    {
        let idx = page[k];
        assert(page@.take(k + 1).drop_last() =~= page@.take(k as int));
        assert(page@.take(k + 1).last() == idx);
        assert(av[idx as int] == apps@[idx as int]@);
        assert(st[idx as int] == assessments@[idx as int].status);
        let app = &apps[idx];
        if is_app_selectable(app, &assessments[idx]) {
            let ghost before = r@;
            r.push(app.id.clone());
            assert(id_views(r@) =~= id_views(before).push(app.id@));
        }
        k = k + 1;
    }
    assert(page@.take(page@.len() as int) =~= page@);
    r
}

/// The chosen ids that the list still holds, in their order.
pub open spec fn still_listed(ids: Seq<Seq<char>>, apps: Seq<AppModel>) -> Seq<Seq<char>>
    decreases ids.len(),
{
    if ids.len() == 0 {
        Seq::empty()
    } else {
        let prev = still_listed(ids.drop_last(), apps);
        if exists|i: int| 0 <= i < apps.len() && (#[trigger] apps[i]).id == ids.last() {
            prev.push(ids.last())
        } else {
            prev
        }
    }
}

fn app_listed(apps: &[InstalledApp], id: &String) -> (r: bool)
    ensures
        r == exists|i: int| 0 <= i < apps@.len() && (#[trigger] app_views(apps@)[i]).id == id@,
{
    let ghost av = app_views(apps@);
    let v = chars_of(id.as_str());
    let mut i: usize = 0;
    while i < apps.len()
        invariant
            av == app_views(apps@),
            v@ == id@,
            i <= apps@.len(),
            forall|j: int| 0 <= j < i ==> (#[trigger] av[j]).id != id@,
        decreases apps@.len() - i,
    {
        assert(av[i as int] == apps@[i as int]@);
        if chars_eq_str(v.as_slice(), apps[i].id.as_str()) {
            return true;
        }
        i = i + 1;
    }
    false
}

/// After the list is read again: the chosen ids of applications it still
/// holds, the others dropped.
pub fn ids_still_listed(selected_ids: &[String], apps: &[InstalledApp]) -> (r: Vec<String>)
    ensures
        id_views(r@) == still_listed(id_views(selected_ids@), app_views(apps@)),
{
    let ghost ids = id_views(selected_ids@);
    let ghost av = app_views(apps@);
    let mut r: Vec<String> = Vec::new();
    let mut k: usize = 0;
    while k < selected_ids.len()
        invariant
            ids == id_views(selected_ids@),
            av == app_views(apps@),
            k <= selected_ids@.len(),
            id_views(r@) == still_listed(ids.take(k as int), av),
        decreases selected_ids@.len() - k,
    {
        assert(ids.take(k + 1).drop_last() =~= ids.take(k as int));
        assert(ids.take(k + 1).last() == selected_ids@[k as int]@);
        if app_listed(apps, &selected_ids[k]) {
            let ghost before = r@;
            r.push(selected_ids[k].clone());
            assert(id_views(r@) =~= id_views(before).push(selected_ids@[k as int]@));
        }
        k = k + 1;
    }
    assert(ids.take(selected_ids@.len() as int) =~= ids);
    r
}

/// The indices below `n` of the chosen applications, in list order.
pub open spec fn chosen_apps(apps: Seq<AppModel>, ids: Seq<Seq<char>>, n: nat) -> Seq<usize>
    decreases n,
{
    if n == 0 {
        Seq::empty()
    } else {
        let prev = chosen_apps(apps, ids, (n - 1) as nat);
        if ids.contains(apps[n - 1].id) {
            prev.push((n - 1) as usize)
        } else {
            prev
        }
    }
}

/// The first `limit` chosen applications, in list order, whose details are
/// shown below the list.
pub fn detail_indices(apps: &[InstalledApp], selected_ids: &[String], limit: usize) -> (r: Vec<usize>)
    ensures
        r@ == {
            let all = chosen_apps(app_views(apps@), id_views(selected_ids@), apps@.len() as nat);
            all.take(if all.len() < limit { all.len() as int } else { limit as int })
        },
{
    let ghost av = app_views(apps@);
    let ghost ids = id_views(selected_ids@);
    let mut r: Vec<usize> = Vec::new();
    let mut i: usize = 0;
    while i < apps.len()
        invariant
            av == app_views(apps@),
            ids == id_views(selected_ids@),
            i <= apps@.len(),
            r@ == {
                let all = chosen_apps(av, ids, i as nat);
                all.take(if all.len() < limit { all.len() as int } else { limit as int })
            },
        decreases apps@.len() - i,
    {
        assert(av[i as int] == apps@[i as int]@);
        let ghost prev = chosen_apps(av, ids, i as nat);
        if contains_id(selected_ids, apps[i].id.as_str()) {
            assert(chosen_apps(av, ids, (i + 1) as nat) == prev.push(i));
            if r.len() < limit {
                r.push(i);
                assert(r@ =~= prev.push(i).take(prev.len() as int + 1));
            } else {
                assert(prev.push(i).take(limit as int) =~= prev.take(limit as int));
            }
        }
        i = i + 1;
    }
    r
}

} // verus!
