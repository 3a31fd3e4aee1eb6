//! What an installation does, as far as it can be decided before anything
//! is fetched or unpacked.

use crate::cache::{glob_found, glob_match, regex_match, regex_matches, search_cache_with_name_glob};
use crate::dpkg::{check_missing_or_old, classify, state_views, PackageState};
use crate::source::{record_views, PackageRecord, SourcePackage};
use crate::text::{
    chars_of, contains, find_from, find_last, last_match, lemma_last_match, same_text, slice_of,
    string_of, string_views,
};
use vstd::prelude::*;
use vstd::string::StringExecFns;

verus! {

/// What is to be done for a request to install `package`.
pub enum InstallPlan {
    /// The request names a package file: it is installed as it is.
    DebFile,
    /// The request is no valid glob pattern.
    BadPattern,
    /// The index has no package for the request.
    NotInCache,
    /// The package is not installed: it is fetched and installed.
    Install(SourcePackage),
    /// The package is installed already.
    AlreadyInstalled(SourcePackage),
}

/// The name ends in `.deb` and has something before that, as the regular
/// expression `^.+\.deb$` decides it.
pub open spec fn is_deb_name(name: Seq<char>) -> bool {
    regex_match("^.+\\.deb$"@, name) == Some(true)
}

/// Whether `package` names a package file.
pub fn is_deb_file(package: &str) -> (r: bool)
    ensures
        r == is_deb_name(package@),
{
    match regex_matches("^.+\\.deb$", package) {
        Some(true) => true,
        _ => false,
    }
}

/// What a request comes to, once it is known whether it names a package
/// file and what it finds in the index as a glob pattern (`None` where it
/// is no valid pattern): a package file is installed as it is; of what was
/// found the first is installed, unless the installed packages have it, in
/// whatever version.
pub open spec fn plan_of(
    deb_file: bool,
    found: Option<Seq<PackageRecord>>,
    installed: Seq<PackageRecord>,
) -> InstallPlanModel {
    if deb_file {
        InstallPlanModel::DebFile
    } else {
        match found {
            None => InstallPlanModel::BadPattern,
            Some(records) => if records.len() == 0 {
                InstallPlanModel::NotInCache
            } else if classify(installed, records[0].package, Some(records[0].version))
                == PackageState::MISSING {
                InstallPlanModel::Install(records[0])
            } else {
                InstallPlanModel::AlreadyInstalled(records[0])
            },
        }
    }
}

/// A plan as values.
pub enum InstallPlanModel {
    DebFile,
    BadPattern,
    NotInCache,
    Install(PackageRecord),
    AlreadyInstalled(PackageRecord),
}

impl View for InstallPlan {
    type V = InstallPlanModel;

    open spec fn view(&self) -> InstallPlanModel {
        match self {
            InstallPlan::DebFile => InstallPlanModel::DebFile,
            InstallPlan::BadPattern => InstallPlanModel::BadPattern,
            InstallPlan::NotInCache => InstallPlanModel::NotInCache,
            InstallPlan::Install(p) => InstallPlanModel::Install(p@),
            InstallPlan::AlreadyInstalled(p) => InstallPlanModel::AlreadyInstalled(p@),
        }
    }
}

/// The records that what was found stands for.
pub open spec fn found_views(found: Option<Vec<SourcePackage>>) -> Option<Seq<PackageRecord>> {
    match found {
        Some(records) => Some(record_views(records@)),
        None => None,
    }
}

/// Decides what a request comes to, from whether it names a package file
/// and from what it finds in the index.
pub fn decide_install(
    deb_file: bool,
    found: Option<Vec<SourcePackage>>,
    installed: &Vec<SourcePackage>,
) -> (r: InstallPlan)
    ensures
        r@ == plan_of(deb_file, found_views(found), record_views(installed@)),
{
    if deb_file {
        return InstallPlan::DebFile;
    }
    match found {
        None => InstallPlan::BadPattern,
        Some(mut records) => {
            if records.len() == 0 {
                assert(record_views(records@).len() == 0);
                InstallPlan::NotInCache
            } else {
                assert(record_views(records@)[0] == records[0]@);
                let target = records.swap_remove(0);
                let version = Some(target.version.clone());
                match check_missing_or_old(target.package.as_str(), &version, installed) {
                    PackageState::MISSING => InstallPlan::Install(target),
                    _ => InstallPlan::AlreadyInstalled(target),
                }
            }
        },
    }
}

/// Decides what a request to install `package` comes to: a package file is
/// installed as it is; any other request is a glob pattern, and the first
/// index record that it finds is installed unless the installed packages
/// have it, in whatever version.
pub fn plan_install(package: &str, index: &Vec<SourcePackage>, installed: &Vec<SourcePackage>) -> (r:
    InstallPlan)
    ensures
        r@ == plan_of(
            is_deb_name(package@),
            if glob_match(package@, Seq::<char>::empty()) is None {
                None
            } else {
                Some(glob_found(package@, true, record_views(index@)))
            },
            record_views(installed@),
        ),
{
    let deb_file = is_deb_file(package);
    let found = search_cache_with_name_glob(package, true, index);
    decide_install(deb_file, found, installed)
}

/// Whether the answer to the question if the installation is to go on says
/// yes: a line with `y` or `Y` alone.
pub fn confirmed(answer: &str) -> (r: bool)
    ensures
        r == (answer@ == "y\n"@ || answer@ == "Y\n"@),
{
    same_text(answer, "y\n") || same_text(answer, "Y\n")
}

/// The names among the first `k` entries that are in the state `state`.
pub open spec fn names_upto(list: Seq<(Seq<char>, PackageState)>, state: PackageState, k: int) -> Seq<
    Seq<char>,
>
    decreases k,
{
    if k <= 0 {
        Seq::empty()
    } else if list[k - 1].1 == state {
        names_upto(list, state, k - 1).push(list[k - 1].0)
    } else {
        names_upto(list, state, k - 1)
    }
}

/// The names of `list` that are in the state `state`, in their order.
pub fn names_in_state(list: &Vec<(String, PackageState)>, state: PackageState) -> (r: Vec<String>)
    ensures
        string_views(r@) == names_upto(state_views(list@), state, list.len() as int),
{
    let mut r: Vec<String> = Vec::new();
    let mut k: usize = 0;
    assert(string_views(r@) =~= Seq::empty());
    while k < list.len()
        invariant
            k <= list.len(),
            string_views(r@) == names_upto(state_views(list@), state, k as int),
        decreases list.len() - k,
    {
        assert(state_views(list@)[k as int] == (list[k as int].0@, list[k as int].1));
        if list[k].1 == state {
            let ghost before = string_views(r@);
            r.push(list[k].0.clone());
            assert(string_views(r@) =~= before.push(list[k as int].0@));
        }
        k += 1;
    }
    r
}

/// The order in which what was found is installed: the missing packages
/// and after them the old ones, all from the last to the first.
pub fn install_order(list: &Vec<(String, PackageState)>) -> (r: Vec<String>)
    ensures
        string_views(r@) == (names_upto(
            state_views(list@),
            PackageState::MISSING,
            list.len() as int,
        ) + names_upto(state_views(list@), PackageState::OLD, list.len() as int)).reverse(),
{
    let mut all = names_in_state(list, PackageState::MISSING);
    let mut old = names_in_state(list, PackageState::OLD);
    let ghost first = string_views(all@);
    let ghost second = string_views(old@);
    all.append(&mut old);
    assert(string_views(all@) =~= first + second);
    let mut r: Vec<String> = Vec::new();
    let mut i: usize = all.len();
    assert(string_views(r@) =~= Seq::empty());
    while i > 0
        invariant
            i <= all.len(),
            string_views(r@) == string_views(all@).reverse().take(all.len() - i),
        decreases i,
    {
        i -= 1;
        let ghost before = string_views(r@);
        r.push(all[i].clone());
        assert(string_views(r@) =~= before.push(all[i as int]@));
        assert(string_views(all@).reverse()[all.len() - 1 - i] == all[i as int]@);
        assert(string_views(r@) =~= string_views(all@).reverse().take(all.len() - i));
    }
    assert(string_views(all@).reverse().take(all.len() as int) =~= string_views(all@).reverse());
    r
}

/// What stands after the last slash of `path`, if it has one.
pub open spec fn last_part(path: Seq<char>) -> Option<Seq<char>> {
    let i = last_match(path, "/"@, path.len() as int);
    if i >= 0 {
        Some(path.subrange(i + 1, path.len() as int))
    } else {
        None
    }
}

/// Where the file of a package is kept once it is fetched: `archive/` and
/// the last part of the path or address `filename`. `None` where
/// `filename` has no slash.
pub fn archive_path(filename: &str) -> (r: Option<String>)
    ensures
        match last_part(filename@) {
            Some(name) => r is Some && r->Some_0@ == "archive/"@ + name,
            None => r is None,
        },
{
    let path = chars_of(filename);
    let slash = chars_of("/");
    proof {
        reveal_strlit("/");
        lemma_last_match(path@, slash@, path.len() as int);
    }
    match find_last(&path, &slash, path.len()) {
        Some(i) => {
            let mut r = String::from_str("archive/");
            r.append(string_of(&slice_of(&path, i + 1, path.len())).as_str());
            Some(r)
        },
        None => None,
    }
}

/// How the control files of a package are packed.
#[derive(Debug, PartialEq, Eq, Clone, Copy, Structural)]
pub enum ControlArchive {
    Gz,
    Xz,
    Unknown,
}

/// How a member with the name `name` is packed.
pub open spec fn control_archive_of(name: Seq<char>) -> ControlArchive {
    if contains(name, ".gz"@) {
        ControlArchive::Gz
    } else if contains(name, ".xz"@) {
        ControlArchive::Xz
    } else {
        ControlArchive::Unknown
    }
}

/// How the member `name` of a package file is packed: with gzip where the
/// name holds `.gz`, else with xz where it holds `.xz`.
pub fn control_archive(name: &str) -> (r: ControlArchive)
    ensures
        r == control_archive_of(name@),
{
    let text = chars_of(name);
    if find_from(&text, &chars_of(".gz"), 0).is_some() {
        ControlArchive::Gz
    } else if find_from(&text, &chars_of(".xz"), 0).is_some() {
        ControlArchive::Xz
    } else {
        ControlArchive::Unknown
    }
}

/// The last of the first `k` names that holds `control`; empty where none
/// does.
pub open spec fn control_member_upto(names: Seq<Seq<char>>, k: int) -> Seq<char>
    decreases k,
{
    if k <= 0 {
        Seq::empty()
    } else if contains(names[k - 1], "control"@) {
        names[k - 1]
    } else {
        control_member_upto(names, k - 1)
    }
}

/// The member of a package file that holds its control files: the last of
/// `names` that holds `control`.
pub fn control_member(names: &Vec<String>) -> (r: String)
    ensures
        r@ == control_member_upto(string_views(names@), names.len() as int),
{
    let marker = chars_of("control");
    let mut k: usize = names.len();
    while k > 0
        invariant
            k <= names.len(),
            marker@ == "control"@,
            control_member_upto(string_views(names@), names.len() as int) == control_member_upto(
                string_views(names@),
                k as int,
            ),
        decreases k,
    {
        k -= 1;
        assert(string_views(names@)[k as int] == names[k as int]@);
        if find_from(&chars_of(names[k].as_str()), &marker, 0).is_some() {
            return names[k].clone();
        }
    }
    String::new()
}

} // verus!
