//! What of a package's dependencies is missing or too old on this system.

use crate::depends::text_of;
use crate::source::{
    find_package, lemma_position, position, record_views, PackageRecord, SourcePackage,
};
use crate::text::{chars_of, is_digit_char, same_chars, slice_of};
use crate::version::{compare_version, compare_version_chars, text_end};
use vstd::prelude::*;

verus! {

/// What the installed packages have of a dependency.
#[derive(Debug, PartialEq, Eq, Clone, Copy, Structural)]
pub enum PackageState {
    MISSING,
    OLD,
    UPTODATE,
}

/// The name of a package up to its first digit.
pub open spec fn base_name(name: Seq<char>) -> Seq<char> {
    name.subrange(0, text_end(name, 0))
}

/// How the installed package `rec` answers a dependency that asks for
/// `version`: up to date unless a version is asked for and the installed one
/// is older.
pub open spec fn state_against(rec: PackageRecord, version: Option<Seq<char>>) -> PackageState {
    match version {
        Some(v) => if compare_version(rec.version, v) >= 0 {
            PackageState::UPTODATE
        } else {
            PackageState::OLD
        },
        None => PackageState::UPTODATE,
    }
}

/// The state of a dependency on `name` against the installed packages from
/// index `from` on: the first of them whose base name is that of `name`
/// decides; where there is none, the dependency is missing.
pub open spec fn classify_from(
    installed: Seq<PackageRecord>,
    name: Seq<char>,
    version: Option<Seq<char>>,
    from: int,
) -> PackageState
    decreases installed.len() - from,
{
    if from < 0 || from >= installed.len() {
        PackageState::MISSING
    } else if base_name(installed[from].package) == base_name(name) {
        state_against(installed[from], version)
    } else {
        classify_from(installed, name, version, from + 1)
    }
}

/// The state of a dependency on `name` against the installed packages.
pub open spec fn classify(
    installed: Seq<PackageRecord>,
    name: Seq<char>,
    version: Option<Seq<char>>,
) -> PackageState {
    classify_from(installed, name, version, 0)
}

fn base_of(name: &Vec<char>) -> (r: Vec<char>)
    ensures
        r@ == base_name(name@),
{
    let mut n: usize = 0;
    while n < name.len() && !is_digit_char(name[n])
        invariant
            n <= name.len(),
            text_end(name@, 0) == text_end(name@, n as int),
        decreases name.len() - n,
    {
        n += 1;
    }
    slice_of(name, 0, n)
}

/// Says whether the dependency on `package_name`, in the version
/// `package_version` if one is asked for, is missing from the installed
/// packages, older there than asked for, or up to date.
pub fn check_missing_or_old(
    package_name: &str,
    package_version: &Option<String>,
    installed: &Vec<SourcePackage>,
) -> (r: PackageState)
    ensures
        r == classify(record_views(installed@), package_name@, text_of(*package_version)),
{
    let wanted = base_of(&chars_of(package_name));
    let mut i: usize = 0;
    while i < installed.len()
        invariant
            i <= installed.len(),
            wanted@ == base_name(package_name@),
            classify(record_views(installed@), package_name@, text_of(*package_version))
                == classify_from(
                record_views(installed@),
                package_name@,
                text_of(*package_version),
                i as int,
            ),
        decreases installed.len() - i,
    {
        assert(record_views(installed@)[i as int] == installed[i as int]@);
        let have = base_of(&chars_of(installed[i].package.as_str()));
        if same_chars(&have, &wanted) {
            return match package_version {
                Some(v) => {
                    let s = compare_version_chars(
                        &chars_of(installed[i].version.as_str()),
                        &chars_of(v.as_str()),
                    );
                    if s >= 0 {
                        PackageState::UPTODATE
                    } else {
                        PackageState::OLD
                    }
                },
                None => PackageState::UPTODATE,
            };
        }
        i += 1;
    }
    PackageState::MISSING
}

/// Whether the index offers a newer version of the installed package `rec`:
/// the first index record of its name decides.
pub open spec fn is_upgradable(index: Seq<PackageRecord>, rec: PackageRecord) -> bool {
    let i = position(index, rec.package);
    i >= 0 && compare_version(index[i].version, rec.version) > 0
}

/// Those of the first `k` installed packages that are upgradable.
pub open spec fn upgradable_upto(
    index: Seq<PackageRecord>,
    installed: Seq<PackageRecord>,
    k: int,
) -> Seq<PackageRecord>
    decreases k,
{
    if k <= 0 {
        Seq::empty()
    } else if is_upgradable(index, installed[k - 1]) {
        upgradable_upto(index, installed, k - 1).push(installed[k - 1])
    } else {
        upgradable_upto(index, installed, k - 1)
    }
}

/// The installed packages of which the index offers a newer version, in
/// their order. An installed package that the index does not know is left
/// out.
pub fn check_upgradable(index_items: &Vec<SourcePackage>, installed: &Vec<SourcePackage>) -> (r:
    Vec<SourcePackage>)
    ensures
        record_views(r@) == upgradable_upto(
            record_views(index_items@),
            record_views(installed@),
            installed.len() as int,
        ),
{
    let mut r: Vec<SourcePackage> = Vec::new();
    let mut k: usize = 0;
    assert(record_views(r@) =~= Seq::empty());
    while k < installed.len()
        invariant
            k <= installed.len(),
            record_views(r@) == upgradable_upto(
                record_views(index_items@),
                record_views(installed@),
                k as int,
            ),
        decreases installed.len() - k,
    {
        let item = &installed[k];
        assert(record_views(installed@)[k as int] == item@);
        proof {
            lemma_position(record_views(index_items@), item.package@, 0);
        }
        match find_package(index_items, item.package.as_str()) {
            Some(i) => {
                assert(record_views(index_items@)[i as int] == index_items[i as int]@);
                let s = compare_version_chars(
                    &chars_of(index_items[i].version.as_str()),
                    &chars_of(item.version.as_str()),
                );
                if s > 0 {
                    let ghost before = record_views(r@);
                    r.push(item.clone());
                    assert(record_views(r@) =~= before.push(item@));
                }
            },
            None => {},
        }
        k += 1;
    }
    r
}


/// The names and states that a list of results stands for.
pub open spec fn state_views(v: Seq<(String, PackageState)>) -> Seq<(Seq<char>, PackageState)> {
    Seq::new(v.len(), |i: int| (v[i].0@, v[i].1))
}

/// Those of the first `k` dependencies that are missing or old, each with
/// its state, in their order.
pub open spec fn needed_upto(
    deps: Seq<(Seq<char>, Option<Seq<char>>)>,
    installed: Seq<PackageRecord>,
    k: int,
) -> Seq<(Seq<char>, PackageState)>
    decreases k,
{
    if k <= 0 {
        Seq::empty()
    } else {
        let d = deps[k - 1];
        let s = classify(installed, d.0, d.1);
        if s != PackageState::UPTODATE {
            needed_upto(deps, installed, k - 1).push((d.0, s))
        } else {
            needed_upto(deps, installed, k - 1)
        }
    }
}

/// The dependencies of `rec` that are missing or old.
pub open spec fn needed(rec: PackageRecord, installed: Seq<PackageRecord>) -> Seq<
    (Seq<char>, PackageState),
> {
    needed_upto(rec.depends, installed, rec.depends.len() as int)
}

/// The dependencies of `package` that are missing from the installed
/// packages or older there than asked for, each with its state.
pub fn get_missing_or_old_dependencies(package: &SourcePackage, installed: &Vec<SourcePackage>) -> (r:
    Vec<(String, PackageState)>)
    ensures
        state_views(r@) == needed(package@, record_views(installed@)),
{
    let mut r: Vec<(String, PackageState)> = Vec::new();
    let mut k: usize = 0;
    assert(state_views(r@) =~= Seq::empty());
    while k < package.depends.entries.len()
        invariant
            k <= package.depends.entries.len(),
            package.depends@.len() == package.depends.entries.len(),
            state_views(r@) == needed_upto(package.depends@, record_views(installed@), k as int),
        decreases package.depends.entries.len() - k,
    {
        let name = &package.depends.entries[k].0;
        let version = &package.depends.entries[k].1;
        assert(package.depends@[k as int] == (name@, text_of(*version)));
        let state = check_missing_or_old(name.as_str(), version, installed);
        match state {
            PackageState::UPTODATE => {},
            _ => {
                let ghost before = state_views(r@);
                r.push((name.clone(), state));
                assert(state_views(r@) =~= before.push((name@, state)));
            },
        }
        k += 1;
    }
    r
}

/// `name` is among the names of `acc`.
pub open spec fn listed(acc: Seq<(Seq<char>, PackageState)>, name: Seq<char>) -> bool {
    exists|k: int| 0 <= k < acc.len() && (#[trigger] acc[k]).0 == name
}

/// `e` is an entry of `list`.
pub open spec fn entry_in(list: Seq<(Seq<char>, PackageState)>, e: (Seq<char>, PackageState)) -> bool {
    exists|k: int| 0 <= k < list.len() && #[trigger] list[k] == e
}

/// No name occurs twice.
pub open spec fn distinct_names(acc: Seq<(Seq<char>, PackageState)>) -> bool {
    forall|i: int, j: int| 0 <= i < j < acc.len() ==> (#[trigger] acc[i]).0 != (#[trigger] acc[j]).0
}

/// Each dependency of `rec` that is missing or old is in `acc`, unless it
/// is the target itself.
pub open spec fn covers(
    acc: Seq<(Seq<char>, PackageState)>,
    target: Seq<char>,
    rec: PackageRecord,
    installed: Seq<PackageRecord>,
) -> bool {
    forall|k: int|
        0 <= k < needed(rec, installed).len() ==> (#[trigger] needed(rec, installed)[k]).0
            == target || listed(acc, needed(rec, installed)[k].0)
}

/// The index has a record for each dependency of `rec` that is missing or old.
pub open spec fn resolved_in(
    index: Seq<PackageRecord>,
    rec: PackageRecord,
    installed: Seq<PackageRecord>,
) -> bool {
    forall|k: int|
        0 <= k < needed(rec, installed).len() ==> position(
            index,
            (#[trigger] needed(rec, installed)[k]).0,
        ) >= 0
}

/// The names among the first `k` of `list` for which the index has no record.
pub open spec fn unresolved_upto(
    index: Seq<PackageRecord>,
    list: Seq<(Seq<char>, PackageState)>,
    k: int,
) -> Seq<Seq<char>>
    decreases k,
{
    if k <= 0 {
        Seq::empty()
    } else if position(index, list[k - 1].0) < 0 {
        unresolved_upto(index, list, k - 1).push(list[k - 1].0)
    } else {
        unresolved_upto(index, list, k - 1)
    }
}

/// The dependencies of `rec` that are missing or old and for which the index
/// has no record.
pub open spec fn unresolved_of(
    index: Seq<PackageRecord>,
    rec: PackageRecord,
    installed: Seq<PackageRecord>,
) -> Seq<Seq<char>> {
    unresolved_upto(index, needed(rec, installed), needed(rec, installed).len() as int)
}

/// The index record that answers to `name`: the first of that name.
pub open spec fn record_of(index: Seq<PackageRecord>, name: Seq<char>) -> PackageRecord {
    index[position(index, name)]
}

/// No name is unresolved if and only if the index has a record for each.
pub proof fn lemma_unresolved(index: Seq<PackageRecord>, list: Seq<(Seq<char>, PackageState)>, k: int)
    requires
        0 <= k <= list.len(),
    ensures
        unresolved_upto(index, list, k).len() == 0 <==> (forall|m: int|
            0 <= m < k ==> position(index, (#[trigger] list[m]).0) >= 0),
    decreases k,
{
    if k > 0 {
        lemma_unresolved(index, list, k - 1);
    }
}

/// Whether `name` is among the names of `acc`.
pub fn is_listed(acc: &Vec<(String, PackageState)>, name: &str) -> (r: bool)
    ensures
        r == listed(state_views(acc@), name@),
{
    let mut i: usize = 0;
    while i < acc.len()
        invariant
            i <= acc.len(),
            forall|k: int| 0 <= k < i ==> (#[trigger] state_views(acc@)[k]).0 != name@,
        decreases acc.len() - i,
    {
        assert(state_views(acc@)[i as int].0 == acc[i as int].0@);
        if crate::text::same_text(acc[i].0.as_str(), name) {
            return true;
        }
        i += 1;
    }
    false
}

} // verus!
