//! Building the application list from what the Windows uninstall registry
//! keys hold.

use vstd::prelude::*;
use crate::text::{
    append_chars, append_str, chars_eq, chars_of, lowercase, string_of, to_lowercase, trim,
    trim_chars,
};
use crate::installed_app::{AppModel, InstalledApp, new_app_model, opt_view};
use crate::sorting::{
    KeyView, OrderKey, is_stable_sort_of, key_view, lemma_sort_keeps_all, lemma_sort_keeps_distinct, lemma_sort_keeps_keys, pair_views,
    stable_sort,
};

verus! {

#[derive(Clone, Copy, Debug, PartialEq, Eq, Structural)]
pub enum RegistryHive {
    LocalMachine,
    CurrentUser,
}

/// A registry key under which applications record how to uninstall them.
#[derive(Clone, Copy, Debug)]
pub struct UninstallRoot {
    pub hive: RegistryHive,
    pub hive_label: &'static str,
    pub path: &'static str,
}

pub open spec fn native_uninstall_path() -> Seq<char> {
    "Software\\Microsoft\\Windows\\CurrentVersion\\Uninstall"@
}

pub open spec fn wow64_uninstall_path() -> Seq<char> {
    "Software\\WOW6432Node\\Microsoft\\Windows\\CurrentVersion\\Uninstall"@
}

/// A hive label and key path that `uninstall_roots` lists.
pub open spec fn is_uninstall_root(hive_label: Seq<char>, path: Seq<char>) -> bool {
    (hive_label == "HKLM"@ || hive_label == "HKCU"@) && (path == native_uninstall_path() || path
        == wow64_uninstall_path())
}

/// The uninstall keys that are read, in order: the 64- and 32-bit keys of
/// the machine, then those of the current user.
pub fn uninstall_roots() -> (r: Vec<UninstallRoot>)
    ensures
        r@.len() == 4,
        r@[0].hive == RegistryHive::LocalMachine && r@[0].hive_label@ == "HKLM"@ && r@[0].path@
            == native_uninstall_path(),
        r@[1].hive == RegistryHive::LocalMachine && r@[1].hive_label@ == "HKLM"@ && r@[1].path@
            == wow64_uninstall_path(),
        r@[2].hive == RegistryHive::CurrentUser && r@[2].hive_label@ == "HKCU"@ && r@[2].path@
            == native_uninstall_path(),
        r@[3].hive == RegistryHive::CurrentUser && r@[3].hive_label@ == "HKCU"@ && r@[3].path@
            == wow64_uninstall_path(),
{
    let mut r: Vec<UninstallRoot> = Vec::new();
    r.push(
        UninstallRoot {
            hive: RegistryHive::LocalMachine,
            hive_label: "HKLM",
            path: "Software\\Microsoft\\Windows\\CurrentVersion\\Uninstall",
        },
    );
    r.push(
        UninstallRoot {
            hive: RegistryHive::LocalMachine,
            hive_label: "HKLM",
            path: "Software\\WOW6432Node\\Microsoft\\Windows\\CurrentVersion\\Uninstall",
        },
    );
    r.push(
        UninstallRoot {
            hive: RegistryHive::CurrentUser,
            hive_label: "HKCU",
            path: "Software\\Microsoft\\Windows\\CurrentVersion\\Uninstall",
        },
    );
    r.push(
        UninstallRoot {
            hive: RegistryHive::CurrentUser,
            hive_label: "HKCU",
            path: "Software\\WOW6432Node\\Microsoft\\Windows\\CurrentVersion\\Uninstall",
        },
    );
    r
}

/// What one application subkey holds: its name and the values that could be
/// read as a string or as a number.
#[derive(Clone, Debug)]
pub struct RegistryEntry {
    pub subkey_name: String,
    pub display_name: Option<String>,
    pub uninstall_string: Option<String>,
    pub publisher: Option<String>,
    pub display_version: Option<String>,
    pub install_location: Option<String>,
    pub estimated_size: Option<u32>,
    pub install_date: Option<String>,
    pub system_component: Option<u32>,
    pub no_remove: Option<u32>,
}

/// The application subkeys read under one uninstall key.
#[derive(Clone, Debug)]
pub struct RegistryListing {
    pub hive_label: String,
    pub path: String,
    pub entries: Vec<RegistryEntry>,
}

/// A string value trimmed, and left out when nothing remains.
pub open spec fn clean_value(raw: Option<Seq<char>>) -> Option<Seq<char>> {
    match raw {
        Some(s) => if trim(s).len() > 0 {
            Some(trim(s))
        } else {
            None
        },
        None => None,
    }
}

pub open spec fn registry_path_of(label: Seq<char>, path: Seq<char>, subkey: Seq<char>) -> Seq<
    char,
> {
    label + "\\"@ + path + "\\"@ + subkey
}

/// The application an entry describes, when it has a name and an uninstall
/// command.
pub open spec fn entry_app(label: Seq<char>, path: Seq<char>, e: RegistryEntry) -> Option<
    AppModel,
> {
    match (clean_value(opt_view(e.display_name)), clean_value(opt_view(e.uninstall_string))) {
        (Some(name), Some(command)) => {
            let rp = registry_path_of(label, path, e.subkey_name@);
            Some(
                new_app_model(
                    lowercase(rp),
                    name,
                    clean_value(opt_view(e.publisher)),
                    clean_value(opt_view(e.display_version)),
                    clean_value(opt_view(e.install_location)),
                    e.estimated_size,
                    clean_value(opt_view(e.install_date)),
                    command,
                    rp,
                    label,
                    e.system_component == Some(1u32),
                    e.no_remove == Some(1u32),
                ),
            )
        },
        _ => None,
    }
}

/// The name and command, lower-cased, by which repeated entries are found.
pub open spec fn entry_key(e: RegistryEntry) -> Seq<char> {
    lowercase(clean_value(opt_view(e.display_name))->0) + "|"@ + lowercase(
        clean_value(opt_view(e.uninstall_string))->0,
    )
}

/// A hive label, a key path and an entry read there.
pub type RegistryItem = (Seq<char>, Seq<char>, RegistryEntry);

pub open spec fn listing_items(l: RegistryListing) -> Seq<RegistryItem> {
    l.entries@.map_values(|e: RegistryEntry| (l.hive_label@, l.path@, e))
}

pub open spec fn all_items(ls: Seq<RegistryListing>) -> Seq<RegistryItem>
    decreases ls.len(),
{
    if ls.len() == 0 {
        Seq::empty()
    } else {
        all_items(ls.drop_last()) + listing_items(ls.last())
    }
}

/// The applications of the items in order, each name and command once, with
/// the keys seen.
pub open spec fn collect_apps(items: Seq<RegistryItem>) -> (Seq<AppModel>, Seq<Seq<char>>)
    decreases items.len(),
{
    if items.len() == 0 {
        (Seq::empty(), Seq::empty())
    } else {
        let prev = collect_apps(items.drop_last());
        let it = items.last();
        match entry_app(it.0, it.1, it.2) {
            None => prev,
            Some(m) => if prev.1.contains(entry_key(it.2)) {
                prev
            } else {
                (prev.0.push(m), prev.1.push(entry_key(it.2)))
            },
        }
    }
}

/// The name and command of an application, lower-cased: two applications
/// with the same key are the same program listed twice.
pub open spec fn app_entry_key(m: AppModel) -> Seq<char> {
    lowercase(m.display_name) + "|"@ + lowercase(m.uninstall_string)
}

/// The keys seen are those of the applications collected, and no two of
/// those share a key.
pub proof fn lemma_collected_apps_distinct(items: Seq<RegistryItem>)
    ensures
        collect_apps(items).1 == collect_apps(items).0.map_values(|m: AppModel| app_entry_key(m)),
        forall|i: int, j: int|
            0 <= i < j < collect_apps(items).0.len() ==> app_entry_key(
                #[trigger] collect_apps(items).0[i],
            ) != app_entry_key(#[trigger] collect_apps(items).0[j]),
    decreases items.len(),
{
    if items.len() > 0 {
        let prev = collect_apps(items.drop_last());
        lemma_collected_apps_distinct(items.drop_last());
        let it = items.last();
        match entry_app(it.0, it.1, it.2) {
            None => {},
            Some(m) => {
                if !prev.1.contains(entry_key(it.2)) {
                    assert(app_entry_key(m) == entry_key(it.2));
                    let apps = prev.0.push(m);
                    assert(apps.map_values(|m: AppModel| app_entry_key(m)) =~= prev.1.push(
                        entry_key(it.2),
                    ));
                    assert forall|i: int, j: int|
                        0 <= i < j < apps.len() implies app_entry_key(#[trigger] apps[i])
                        != app_entry_key(#[trigger] apps[j]) by {
                        if j == apps.len() - 1 {
                            assert(prev.1[i] == app_entry_key(prev.0[i]));
                            assert(apps[i] == prev.0[i]);
                        } else {
                            assert(apps[i] == prev.0[i] && apps[j] == prev.0[j]);
                        }
                    }
                }
            },
        }
    }
}

/// Reading more registry items only appends: the applications and keys
/// collected from `a` come first, unchanged, in those collected from `a`
/// followed by `b`.
pub proof fn lemma_collect_apps_prefix(a: Seq<RegistryItem>, b: Seq<RegistryItem>)
    ensures
        collect_apps(a + b).0.len() >= collect_apps(a).0.len(),
        collect_apps(a + b).0.take(collect_apps(a).0.len() as int) == collect_apps(a).0,
        collect_apps(a + b).1.len() >= collect_apps(a).1.len(),
        collect_apps(a + b).1.take(collect_apps(a).1.len() as int) == collect_apps(a).1,
    decreases b.len(),
{
    if b.len() == 0 {
        assert(a + b =~= a);
        assert(collect_apps(a).0.take(collect_apps(a).0.len() as int) =~= collect_apps(a).0);
        assert(collect_apps(a).1.take(collect_apps(a).1.len() as int) =~= collect_apps(a).1);
    } else {
        let bp = b.drop_last();
        lemma_collect_apps_prefix(a, bp);
        assert((a + b).drop_last() =~= a + bp);
        assert((a + b).last() == b.last());
        let prev = collect_apps(a + bp);
        let n0 = collect_apps(a).0.len() as int;
        let n1 = collect_apps(a).1.len() as int;
        match entry_app(b.last().0, b.last().1, b.last().2) {
            None => {},
            Some(app) => {
                if !prev.1.contains(entry_key(b.last().2)) {
                    assert(prev.0.push(app).take(n0) =~= prev.0.take(n0));
                    assert(prev.1.push(entry_key(b.last().2)).take(n1) =~= prev.1.take(n1));
                }
            },
        }
    }
}

/// Collecting onto applications and keys already collected, as reading one
/// more uninstall key does: each further entry with a name and a command is
/// added unless its key was seen.
pub open spec fn collect_onto(
    start: (Seq<AppModel>, Seq<Seq<char>>),
    items: Seq<RegistryItem>,
) -> (Seq<AppModel>, Seq<Seq<char>>)
    decreases items.len(),
{
    if items.len() == 0 {
        start
    } else {
        let prev = collect_onto(start, items.drop_last());
        let it = items.last();
        match entry_app(it.0, it.1, it.2) {
            None => prev,
            Some(m) => if prev.1.contains(entry_key(it.2)) {
                prev
            } else {
                (prev.0.push(m), prev.1.push(entry_key(it.2)))
            },
        }
    }
}

/// Collecting from nothing is collecting onto nothing.
pub proof fn lemma_collect_apps_onto_empty(items: Seq<RegistryItem>)
    ensures
        collect_apps(items) == collect_onto((Seq::empty(), Seq::empty()), items),
    decreases items.len(),
{
    if items.len() > 0 {
        lemma_collect_apps_onto_empty(items.drop_last());
    }
}

pub open spec fn keys_match_apps(c: (Seq<AppModel>, Seq<Seq<char>>)) -> bool {
    &&& c.1 == c.0.map_values(|m: AppModel| app_entry_key(m))
    &&& forall|i: int, j: int|
        0 <= i < j < c.0.len() ==> app_entry_key(#[trigger] c.0[i]) != app_entry_key(
            #[trigger] c.0[j],
        )
}

/// Reading one more uninstall key onto any applications collected so far,
/// whose seen keys are their keys and tell them apart: the earlier
/// applications stay first and unchanged, and the seen keys are still the
/// applications' keys, no two alike. With no entries nothing changes.
pub proof fn lemma_collect_onto_keeps(start: (Seq<AppModel>, Seq<Seq<char>>), items: Seq<RegistryItem>)
    requires
        keys_match_apps(start),
    ensures
        collect_onto(start, items).0.len() >= start.0.len(),
        collect_onto(start, items).0.take(start.0.len() as int) == start.0,
        keys_match_apps(collect_onto(start, items)),
        items.len() == 0 ==> collect_onto(start, items) == start,
    decreases items.len(),
{
    if items.len() == 0 {
        assert(start.0.take(start.0.len() as int) =~= start.0);
    } else {
        lemma_collect_onto_keeps(start, items.drop_last());
        let prev = collect_onto(start, items.drop_last());
        let it = items.last();
        let n = start.0.len() as int;
        match entry_app(it.0, it.1, it.2) {
            None => {},
            Some(m) => {
                if !prev.1.contains(entry_key(it.2)) {
                    assert(app_entry_key(m) == entry_key(it.2));
                    let apps = prev.0.push(m);
                    assert(apps.take(n) =~= prev.0.take(n));
                    assert(apps.map_values(|m: AppModel| app_entry_key(m)) =~= prev.1.push(
                        entry_key(it.2),
                    ));
                    assert forall|i: int, j: int|
                        0 <= i < j < apps.len() implies app_entry_key(#[trigger] apps[i])
                        != app_entry_key(#[trigger] apps[j]) by {
                        if j == apps.len() - 1 {
                            assert(prev.1[i] == app_entry_key(prev.0[i]));
                            assert(apps[i] == prev.0[i]);
                        } else {
                            assert(apps[i] == prev.0[i] && apps[j] == prev.0[j]);
                        }
                    }
                }
            },
        }
    }
}

/// An application holds what its registry entry says: its name and
/// command are the entry's values trimmed; it is a hidden system entry
/// exactly when `SystemComponent` is present and 1, and no-remove exactly
/// when `NoRemove` is present and 1 (a missing value counting as 0); its
/// size is the entry's, and its hive label the one it was read under.
pub open spec fn made_from_entry(m: AppModel, it: RegistryItem) -> bool {
    &&& it.2.display_name matches Some(n) && trim(n@) == m.display_name
    &&& it.2.uninstall_string matches Some(c) && trim(c@) == m.uninstall_string
    &&& m.is_system_component == (it.2.system_component == Some(1u32))
    &&& m.no_remove == (it.2.no_remove == Some(1u32))
    &&& m.estimated_size_kb == it.2.estimated_size
    &&& m.source_hive == it.0
}

/// The application an entry makes holds what the entry says.
pub proof fn lemma_entry_app_holds_entry(label: Seq<char>, path: Seq<char>, e: RegistryEntry)
    ensures
        entry_app(label, path, e) matches Some(m) ==> made_from_entry(m, (label, path, e)),
{
}

/// Each collected application was made from one of the items.
proof fn lemma_collected_from_items(items: Seq<RegistryItem>)
    ensures
        forall|i: int|
            0 <= i < collect_apps(items).0.len() ==> exists|t: int|
                0 <= t < items.len() && made_from_entry(#[trigger] collect_apps(items).0[i], items[t]),
    decreases items.len(),
{
    if items.len() > 0 {
        let ip = items.drop_last();
        lemma_collected_from_items(ip);
        let it = items.last();
        lemma_entry_app_holds_entry(it.0, it.1, it.2);
        let prev = collect_apps(ip).0;
        let apps = collect_apps(items).0;
        assert forall|i: int| 0 <= i < apps.len() implies exists|t: int|
            0 <= t < items.len() && made_from_entry(#[trigger] apps[i], items[t]) by {
            if i < prev.len() {
                assert(apps[i] == prev[i]);
                let t = choose|t: int| 0 <= t < ip.len() && made_from_entry(prev[i], ip[t]);
                assert(items[t] == ip[t]);
            } else {
                assert(made_from_entry(apps[i], items[items.len() - 1]));
            }
        }
    }
}

/// The items read under uninstall roots.
pub open spec fn items_from_roots(items: Seq<RegistryItem>) -> bool {
    forall|k: int| 0 <= k < items.len() ==> is_uninstall_root(#[trigger] items[k].0, items[k].1)
}

proof fn lemma_all_items_from_roots(ls: Seq<RegistryListing>)
    requires
        forall|k: int| 0 <= k < ls.len() ==> is_uninstall_root(#[trigger] ls[k].hive_label@, ls[k].path@),
    ensures
        items_from_roots(all_items(ls)),
    decreases ls.len(),
{
    if ls.len() > 0 {
        lemma_all_items_from_roots(ls.drop_last());
        let prev = all_items(ls.drop_last());
        let last = listing_items(ls.last());
        assert(is_uninstall_root(ls[ls.len() - 1].hive_label@, ls[ls.len() - 1].path@));
        assert forall|k: int| 0 <= k < all_items(ls).len() implies is_uninstall_root(
            #[trigger] all_items(ls)[k].0,
            all_items(ls)[k].1,
        ) by {
            if k < prev.len() {
                assert(all_items(ls)[k] == prev[k]);
            } else {
                assert(all_items(ls)[k] == last[k - prev.len()]);
            }
        }
    }
}

proof fn lemma_collected_hives(items: Seq<RegistryItem>)
    requires
        items_from_roots(items),
    ensures
        forall|i: int|
            0 <= i < collect_apps(items).0.len() ==> (#[trigger] collect_apps(items).0[i]).source_hive
                == "HKLM"@ || collect_apps(items).0[i].source_hive == "HKCU"@,
    decreases items.len(),
{
    if items.len() > 0 {
        let ip = items.drop_last();
        assert forall|k: int| 0 <= k < ip.len() implies is_uninstall_root(#[trigger] ip[k].0, ip[k].1) by {
            assert(ip[k] == items[k]);
        }
        lemma_collected_hives(ip);
        assert(is_uninstall_root(items[items.len() - 1].0, items[items.len() - 1].1));
        let prev = collect_apps(ip);
        let apps = collect_apps(items).0;
        assert forall|i: int| 0 <= i < apps.len() implies (#[trigger] apps[i]).source_hive == "HKLM"@
            || apps[i].source_hive == "HKCU"@ by {
            if i < prev.0.len() {
                assert(apps[i] == prev.0[i]);
            }
        }
    }
}

pub open spec fn codes(s: Seq<char>) -> Seq<u32> {
    s.map_values(|c: char| c as u32)
}

/// Applications are listed by lower-cased name, then by hive label.
pub open spec fn app_order_key(m: AppModel) -> KeyView {
    (codes(lowercase(m.display_name)), codes(m.source_hive))
}

pub open spec fn keyed_apps(apps: Seq<AppModel>) -> Seq<(AppModel, KeyView)> {
    apps.map_values(|m: AppModel| (m, app_order_key(m)))
}

fn clean_registry_chars(raw: &Option<String>) -> (r: Option<Vec<char>>)
    ensures
        match r {
            Some(v) => clean_value(opt_view(*raw)) == Some(v@),
            None => clean_value(opt_view(*raw)) is None,
        },
{
    match raw {
        Some(s) => {
            let v = chars_of(s.as_str());
            let t = trim_chars(v.as_slice());
            if t.len() > 0 {
                Some(t)
            } else {
                None
            }
        },
        None => None,
    }
}

/// A registry string value trimmed, or nothing when it is missing or blank.
pub fn clean_registry_string(raw: &Option<String>) -> (r: Option<String>)
    ensures
        opt_view(r) == clean_value(opt_view(*raw)),
{
    match clean_registry_chars(raw) {
        Some(v) => Some(string_of(v.as_slice())),
        None => None,
    }
}

pub fn codes_of(v: &[char]) -> (r: Vec<u32>)
    ensures
        r@ == codes(v@),
{
    let mut r: Vec<u32> = Vec::new();
    let mut i: usize = 0;
    while i < v.len()
        invariant
            i <= v@.len(),
            r@ == codes(v@.take(i as int)),
        decreases v@.len() - i,
    {
        r.push(v[i] as u32);
        i = i + 1;
        assert(r@ =~= codes(v@.take(i as int)));
    }
    assert(v@.take(v@.len() as int) =~= v@);
    r
}

fn lower_chars(s: &[char]) -> (r: Vec<char>)
    ensures
        r@ == lowercase(s@),
{
    let text = string_of(s);
    let lower = to_lowercase(text.as_str());
    chars_of(lower.as_str())
}

fn entry_app_exec(label: &str, path: &str, e: &RegistryEntry) -> (r: Option<(InstalledApp, Vec<char>)>)
    ensures
        match r {
            None => entry_app(label@, path@, *e) is None,
            Some((a, k)) => entry_app(label@, path@, *e) == Some(a@) && k@ == entry_key(*e),
        },
{
    let name = match clean_registry_chars(&e.display_name) {
        Some(n) => n,
        None => return None,
    };
    let command = match clean_registry_chars(&e.uninstall_string) {
        Some(c) => c,
        None => return None,
    };
    let mut key = lower_chars(name.as_slice());
    key.push('|');
    let lower_command = lower_chars(command.as_slice());
    append_chars(&mut key, lower_command.as_slice());
    let mut rp = chars_of(label);
    rp.push('\\');
    append_str(&mut rp, path);
    rp.push('\\');
    append_str(&mut rp, e.subkey_name.as_str());
    let registry_path = string_of(rp.as_slice());
    let id = to_lowercase(registry_path.as_str());
    let system = match e.system_component {
        Some(v) => v == 1,
        None => false,
    };
    let blocked = match e.no_remove {
        Some(v) => v == 1,
        None => false,
    };
    proof {
        reveal_strlit("\\");
        reveal_strlit("|");
    }
    assert(rp@ =~= registry_path_of(label@, path@, e.subkey_name@));
    assert(key@ =~= entry_key(*e));
    let app = InstalledApp::new(
        id,
        string_of(name.as_slice()),
        clean_registry_string(&e.publisher),
        clean_registry_string(&e.display_version),
        clean_registry_string(&e.install_location),
        e.estimated_size,
        clean_registry_string(&e.install_date),
        string_of(command.as_slice()),
        registry_path,
        label.to_owned(),
        system,
        blocked,
    );
    Some((app, key))
}

fn seen_contains(seen: &Vec<Vec<char>>, key: &[char]) -> (r: bool)
    ensures
        r == seen@.map_values(|v: Vec<char>| v@).contains(key@),
{
    let ghost s = seen@.map_values(|v: Vec<char>| v@);
    let mut i: usize = 0;
    while i < seen.len()
        invariant
            s == seen@.map_values(|v: Vec<char>| v@),
            i <= seen@.len(),
            forall|j: int| 0 <= j < i ==> s[j] != key@,
        decreases seen@.len() - i,
    {
        if chars_eq(seen[i].as_slice(), key) {
            assert(s[i as int] == key@);
            return true;
        }
        i = i + 1;
    }
    false
}

/// The applications that the uninstall keys list: each entry with a name and
/// an uninstall command, the first of those with the same name and command
/// (ignoring case), ordered by lower-cased name and then hive label, entries
/// that compare equal keeping the order they were read in.
pub fn scan_installed_apps(listings: &Vec<RegistryListing>) -> (apps: Vec<InstalledApp>)
    requires
        forall|k: int|
            0 <= k < listings@.len() ==> is_uninstall_root(
                #[trigger] listings@[k].hive_label@,
                listings@[k].path@,
            ),
    ensures
        is_stable_sort_of(
            apps@.map_values(|a: InstalledApp| (a@, app_order_key(a@))),
            keyed_apps(collect_apps(all_items(listings@)).0),
            false,
        ),
        forall|i: int, j: int|
            0 <= i < j < apps@.len() ==> app_entry_key(#[trigger] apps@[i]@) != app_entry_key(
                #[trigger] apps@[j]@,
            ),
        forall|i: int|
            0 <= i < apps@.len() ==> (#[trigger] apps@[i]).source_hive@ == "HKLM"@
                || apps@[i].source_hive@ == "HKCU"@,
        forall|i: int|
            0 <= i < apps@.len() ==> exists|t: int|
                0 <= t < all_items(listings@).len() && made_from_entry(
                    #[trigger] apps@[i]@,
                    all_items(listings@)[t],
                ),
{
    let ghost ls = listings@;
    let mut pairs: Vec<(InstalledApp, OrderKey)> = Vec::new();
    let mut seen: Vec<Vec<char>> = Vec::new();
    let mut li: usize = 0;
    assert(ls.take(0) =~= Seq::<RegistryListing>::empty());
    while li < listings.len()
        invariant
            ls == listings@,
            li <= ls.len(),
            pair_views(pairs@) == keyed_apps(collect_apps(all_items(ls.take(li as int))).0),
            seen@.map_values(|v: Vec<char>| v@) == collect_apps(all_items(ls.take(li as int))).1,
        decreases ls.len() - li,
    {
        let listing = &listings[li];
        let ghost before = all_items(ls.take(li as int));
        let ghost items = listing_items(ls[li as int]);
        let mut ei: usize = 0;
        assert(items.take(0) =~= Seq::<RegistryItem>::empty());
        assert(before + items.take(0) =~= before);
        while ei < listing.entries.len()
            invariant
                ls == listings@,
                li < ls.len(),
                *listing == ls[li as int],
                items == listing_items(ls[li as int]),
                ei <= items.len(),
                pair_views(pairs@) == keyed_apps(collect_apps(before + items.take(ei as int)).0),
                seen@.map_values(|v: Vec<char>| v@) == collect_apps(before + items.take(ei as int)).1,
            decreases items.len() - ei,
        {
            let ghost prefix = before + items.take(ei as int);
            let ghost next = before + items.take(ei + 1);
            assert(next.drop_last() =~= prefix);
            assert(next.last() == (listing.hive_label@, listing.path@, listing.entries@[ei as int]));
            let e = &listing.entries[ei];
            match entry_app_exec(listing.hive_label.as_str(), listing.path.as_str(), e) {
                None => {},
                Some((app, key)) => {
                    if !seen_contains(&seen, key.as_slice()) {
                        let lower_name = lower_chars(chars_of(app.display_name.as_str()).as_slice());
                        let order = OrderKey {
                            primary: codes_of(lower_name.as_slice()),
                            secondary: codes_of(chars_of(app.source_hive.as_str()).as_slice()),
                        };
                        let ghost m = app@;
                        let ghost old_pairs = pair_views(pairs@);
                        let ghost old_seen = seen@.map_values(|v: Vec<char>| v@);
                        let ghost kv = key@;
                        pairs.push((app, order));
                        seen.push(key);
                        assert(pair_views(pairs@) =~= old_pairs.push((m, app_order_key(m))));
                        assert(seen@.map_values(|v: Vec<char>| v@) =~= old_seen.push(kv));
                        assert(keyed_apps(collect_apps(prefix).0.push(m)) =~= keyed_apps(
                            collect_apps(prefix).0,
                        ).push((m, app_order_key(m))));
                    }
                },
            }
            ei = ei + 1;
        }
        assert(items.take(items.len() as int) =~= items);
        assert(ls.take(li + 1).drop_last() =~= ls.take(li as int));
        li = li + 1;
    }
    assert(ls.take(ls.len() as int) =~= ls);
    let ghost collected = keyed_apps(collect_apps(all_items(ls)).0);
    let sorted = stable_sort(pairs, false);
    proof {
        lemma_sort_keeps_keys(
            pair_views(sorted@),
            collected,
            |m: AppModel| app_order_key(m),
            false,
        );
    }
    let ghost sorted_views = pair_views(sorted@);
    let mut rest = sorted;
    let mut apps: Vec<InstalledApp> = Vec::new();
    let ghost mut done: int = 0;
    assert(pair_views(rest@) =~= sorted_views.skip(0));
    while rest.len() > 0
        invariant
            0 <= done <= sorted_views.len(),
            pair_views(rest@) == sorted_views.skip(done),
            rest@.len() == sorted_views.len() - done,
            apps@.map_values(|a: InstalledApp| (a@, app_order_key(a@))) == sorted_views.take(done),
            forall|i: int| 0 <= i < sorted_views.len() ==> (#[trigger] sorted_views[i]).1 == app_order_key(sorted_views[i].0),
        decreases rest@.len(),
    {
        let ghost old_rest = rest@;
        let (app, _order) = rest.remove(0);
        assert(pair_views(old_rest)[0] == sorted_views[done]);
        assert(sorted_views[done].0 == app@);
        assert(sorted_views[done].1 == app_order_key(app@));
        let ghost old_apps = apps@;
        apps.push(app);
        proof {
            assert(old_apps.map_values(|a: InstalledApp| (a@, app_order_key(a@))) == sorted_views.take(done));
            assert(apps@ == old_apps.push(app));
            assert(apps@.map_values(|a: InstalledApp| (a@, app_order_key(a@))) =~= old_apps.map_values(|a: InstalledApp| (a@, app_order_key(a@))).push((app@, app_order_key(app@))));
            assert(sorted_views.take(done + 1) =~= sorted_views.take(done).push(sorted_views[done]));
            assert(apps@.map_values(|a: InstalledApp| (a@, app_order_key(a@))) =~= sorted_views.take(done + 1));
            assert(rest@ =~= old_rest.skip(1));
            assert(pair_views(rest@) =~= pair_views(old_rest).skip(1));
            assert(sorted_views.skip(done).skip(1) =~= sorted_views.skip(done + 1));
            done = done + 1;
        }
    }
    assert(sorted_views.take(done) =~= sorted_views);
    proof {
        let out = apps@.map_values(|a: InstalledApp| (a@, app_order_key(a@)));
        lemma_collected_apps_distinct(all_items(ls));
        let f = |m: AppModel| app_entry_key(m);
        assert forall|a: int, b: int| 0 <= a < b < collected.len() implies f(
            #[trigger] collected[a].0,
        ) != f(#[trigger] collected[b].0) by {
            assert(collected[a].0 == collect_apps(all_items(ls)).0[a]);
            assert(collected[b].0 == collect_apps(all_items(ls)).0[b]);
        }
        lemma_sort_keeps_distinct(out, collected, f, false);
        lemma_all_items_from_roots(ls);
        lemma_collected_hives(all_items(ls));
        let h = |m: AppModel| m.source_hive == "HKLM"@ || m.source_hive == "HKCU"@;
        assert forall|j: int| 0 <= j < collected.len() implies h(#[trigger] collected[j].0) by {
            assert(collected[j].0 == collect_apps(all_items(ls)).0[j]);
        }
        lemma_sort_keeps_all(out, collected, h, false);
        let items = all_items(ls);
        lemma_collected_from_items(items);
        let g = |m: AppModel| exists|t: int| 0 <= t < items.len() && made_from_entry(m, items[t]);
        assert forall|j: int| 0 <= j < collected.len() implies g(#[trigger] collected[j].0) by {
            assert(collected[j].0 == collect_apps(items).0[j]);
        }
        lemma_sort_keeps_all(out, collected, g, false);
        assert forall|i: int| 0 <= i < apps@.len() implies exists|t: int|
            0 <= t < all_items(listings@).len() && made_from_entry(
                #[trigger] apps@[i]@,
                all_items(listings@)[t],
            ) by {
            assert(out[i].0 == apps@[i]@);
            assert(g(out[i].0));
        }
        assert forall|i: int| 0 <= i < apps@.len() implies (#[trigger] apps@[i]).source_hive@ == "HKLM"@
            || apps@[i].source_hive@ == "HKCU"@ by {
            assert(out[i].0 == apps@[i]@);
            assert(h(out[i].0));
        }
        assert forall|i: int, j: int| 0 <= i < j < apps@.len() implies app_entry_key(
            #[trigger] apps@[i]@,
        ) != app_entry_key(#[trigger] apps@[j]@) by {
            assert(out[i].0 == apps@[i]@ && out[j].0 == apps@[j]@);
            assert(f(out[i].0) != f(out[j].0));
        }
    }
    apps
}

} // verus!
