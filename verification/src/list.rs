//! Lists of packages: which of them a pattern picks, and how the state of
//! each is marked.

use crate::cache::{glob_match, glob_matches, select_packages, selected};
use crate::source::{record_views, PackageRecord, SourcePackage};
use vstd::prelude::*;
use vstd::string::StringExecFns;

verus! {

/// Which of the records have a name that the glob pattern matches.
pub open spec fn named_flags(pattern: Seq<char>, items: Seq<PackageRecord>) -> Seq<bool> {
    Seq::new(items.len(), |i: int| glob_match(pattern, items[i].package) == Some(true))
}

/// The records whose name the glob pattern `glob` matches, in their order.
/// A pattern that is not valid matches none.
pub fn filter_package_with_name(glob: &str, items: &Vec<SourcePackage>) -> (r: Vec<SourcePackage>)
    ensures
        record_views(r@) == selected(
            record_views(items@),
            named_flags(glob@, record_views(items@)),
            items.len() as int,
        ),
{
    let mut flags: Vec<bool> = Vec::new();
    let mut k: usize = 0;
    while k < items.len()
        invariant
            k <= items.len(),
            flags.len() == k,
            forall|i: int|
                0 <= i < k ==> #[trigger] flags[i] == (glob_match(
                    glob@,
                    record_views(items@)[i].package,
                ) == Some(true)),
        decreases items.len() - k,
    {
        assert(record_views(items@)[k as int] == items[k as int]@);
        let accepted = match glob_matches(glob, items[k].package.as_str()) {
            Some(true) => true,
            _ => false,
        };
        flags.push(accepted);
        k += 1;
    }
    assert(flags@ =~= named_flags(glob@, record_views(items@)));
    select_packages(items, &flags)
}

/// The flag of the first of the entries from index `k` on that is named
/// `name`; false where none is.
pub open spec fn auto_flag_from(entries: Seq<(Seq<char>, bool)>, name: Seq<char>, k: int) -> bool
    decreases entries.len() - k,
{
    if k < 0 || k >= entries.len() {
        false
    } else if entries[k].0 == name {
        entries[k].1
    } else {
        auto_flag_from(entries, name, k + 1)
    }
}

/// Whether the extended states say that the package `name` was installed
/// by itself.
pub fn is_auto_installed(extended: &Vec<(String, bool)>, name: &str) -> (r: bool)
    ensures
        r == auto_flag_from(crate::extended::entry_views(extended@), name@, 0),
{
    let mut k: usize = 0;
    while k < extended.len()
        invariant
            k <= extended.len(),
            auto_flag_from(crate::extended::entry_views(extended@), name@, 0) == auto_flag_from(
                crate::extended::entry_views(extended@),
                name@,
                k as int,
            ),
        decreases extended.len() - k,
    {
        assert(crate::extended::entry_views(extended@)[k as int] == (
            extended[k as int].0@,
            extended[k as int].1,
        ));
        if crate::text::same_text(extended[k].0.as_str(), name) {
            return extended[k].1;
        }
        k += 1;
    }
    false
}

/// What a list says after a package of its state.
pub open spec fn mark_of(installed: bool, auto_installed: bool) -> Seq<char> {
    if installed && auto_installed {
        "[installed,automatic]"@
    } else if installed {
        "[installed]"@
    } else if auto_installed {
        "[this package might be broken.]"@
    } else {
        Seq::empty()
    }
}

/// What a list says after a package of its state.
pub fn install_mark(installed: bool, auto_installed: bool) -> (r: String)
    ensures
        r@ == mark_of(installed, auto_installed),
{
    if installed && auto_installed {
        String::from_str("[installed,automatic]")
    } else if installed {
        String::from_str("[installed]")
    } else if auto_installed {
        String::from_str("[this package might be broken.]")
    } else {
        String::new()
    }
}

} // verus!
