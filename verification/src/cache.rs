//! The index files that were fetched, and what can be looked up in them.

use crate::control::{origin_of, parse_records};
use crate::error::Error;
use crate::merge::{deduplicated, merged_well, resolve_duplication};
use crate::slist::{underscored, SourceEntry};
use crate::source::{find_package, position, record_views, PackageRecord, SourcePackage};
use crate::text::{
    chars_of, contains, find_from, find_last, first_match, lemma_first_match, lemma_last_match,
    matches_at, slice_of, string_of, string_views,
};
use vstd::prelude::*;
use vstd::string::StringExecFns;

verus! {

/// Whether the glob pattern `pattern` matches all of `text`, as the `glob`
/// crate decides it with its default options; `None` where `pattern` is not
/// a valid pattern.
pub uninterp spec fn glob_match(pattern: Seq<char>, text: Seq<char>) -> Option<bool>;

/// Whether the regular expression `pattern` matches somewhere in `text`, as
/// the `regex` crate decides it; `None` where `pattern` is not a valid
/// expression, or too large a one.
pub uninterp spec fn regex_match(pattern: Seq<char>, text: Seq<char>) -> Option<bool>;

/// `text` in lower case, as `str::to_lowercase` turns it.
pub uninterp spec fn lowercase_of(text: Seq<char>) -> Seq<char>;

/// Compiles `pattern` with `glob::Pattern::new` and asks `Pattern::matches`
/// whether it matches `text`. Assumed without proof: the answer
/// depends on the two texts alone.
#[verifier::external_body]
pub(crate) fn glob_matches(pattern: &str, text: &str) -> (r: Option<bool>)
    ensures
        r == glob_match(pattern@, text@),
{
    match glob::Pattern::new(pattern) {
        Ok(compiled) => Some(compiled.matches(text)),
        Err(_) => None,
    }
}

/// Compiles `pattern` with `regex::Regex::new` and asks `Regex::is_match`
/// whether it matches in `text`. Assumed without proof: the answer
/// depends on the two texts alone.
#[verifier::external_body]
pub(crate) fn regex_matches(pattern: &str, text: &str) -> (r: Option<bool>)
    ensures
        r == regex_match(pattern@, text@),
{
    match regex::Regex::new(pattern) {
        Ok(compiled) => Some(compiled.is_match(text)),
        Err(_) => None,
    }
}

/// `str::to_lowercase`. Assumed without proof: the result depends on
/// the text alone.
#[verifier::external_body]
fn lowercase(text: &str) -> (r: String)
    ensures
        r@ == lowercase_of(text@),
{
    text.to_lowercase()
}

/// The distribution and the component in the name of an index file.
pub fn get_info_from_filename(filename: &str) -> (r: (String, String))
    ensures
        r.0@ == origin_of(filename@).0,
        r.1@ == origin_of(filename@).1,
{
    let name = chars_of(filename);
    let marker = chars_of("_dists_");
    let hyphen = chars_of("-");
    proof {
        lemma_first_match(name@, marker@, 0);
    }
    match find_from(&name, &marker, 0) {
        Some(m) => {
            assert(matches_at(name@, marker@, m as int));
            assert(m + marker@.len() <= name@.len());
            let rest = slice_of(&name, m + marker.len(), name.len());
            proof {
                lemma_last_match(rest@, hyphen@, rest.len() as int);
            }
            match find_last(&rest, &hyphen, rest.len()) {
                Some(h) => (
                    string_of(&slice_of(&rest, 0, h)),
                    string_of(&slice_of(&rest, h + 1, rest.len())),
                ),
                None => (string_of(&rest), String::new()),
            }
        },
        None => (String::new(), String::new()),
    }
}

/// The name that a source gives its index file leads back to the
/// distribution and the component of the source, where the first `_dists_`
/// in the name is the one after the address and the component has no hyphen.
pub proof fn lemma_filename_leads_back(source: SourceEntry)
    requires
        first_match(source.filename(), "_dists_"@, 0) == underscored(source.uri).len(),
        !contains(source.component, "-"@),
    ensures
        origin_of(source.filename()) == (source.dists, source.component),
{
    reveal_strlit("-");
    reveal_strlit("_dists_");
    let name = source.filename();
    let m = underscored(source.uri).len() as int;
    let rest = name.subrange(m + "_dists_"@.len(), name.len() as int);
    let d = source.dists.len() as int;
    assert(rest =~= source.dists + "-"@ + source.component);
    assert(matches_at(rest, "-"@, d));
    lemma_last_match(rest, "-"@, rest.len() as int);
    lemma_first_match(source.component, "-"@, 0);
    assert forall|j: int| d < j < rest.len() implies !matches_at(rest, "-"@, j) by {
        if matches_at(rest, "-"@, j) {
            assert(rest.subrange(j, j + 1)[0] == '-');
            assert(source.component.subrange(j - d - 1, j - d) =~= rest.subrange(j, j + 1));
            assert(matches_at(source.component, "-"@, j - d - 1));
        }
    }
    assert(rest.subrange(0, d) =~= source.dists);
    assert(rest.subrange(d + 1, rest.len() as int) =~= source.component);
}

/// The records of the first `k` index files, one file after the other, or
/// the first malformed line. A file is a pair of its name and its text.
pub open spec fn cached_upto(files: Seq<(Seq<char>, Seq<char>)>, k: int) -> Result<
    Seq<PackageRecord>,
    Seq<char>,
>
    decreases k,
{
    if k <= 0 {
        Ok(Seq::empty())
    } else {
        match cached_upto(files, k - 1) {
            Err(line) => Err(line),
            Ok(head) => match parse_records(files[k - 1].1, files[k - 1].0) {
                Err(line) => Err(line),
                Ok(tail) => Ok(head + tail),
            },
        }
    }
}

proof fn lemma_cached_error(files: Seq<(Seq<char>, Seq<char>)>, k: int, n: int)
    requires
        0 <= k <= n,
        cached_upto(files, k) is Err,
    ensures
        cached_upto(files, n) == cached_upto(files, k),
    decreases n - k,
{
    if k < n {
        lemma_cached_error(files, k, n - 1);
    }
}

/// The names and texts that a list of files stands for.
pub open spec fn file_views(files: Seq<(String, String)>) -> Seq<(Seq<char>, Seq<char>)> {
    Seq::new(files.len(), |i: int| (files[i].0@, files[i].1@))
}

/// Reads the records of all index files, each a pair of its name and its
/// text, in their order. The first malformed line ends the reading.
pub fn get_cached_items(files: &Vec<(String, String)>) -> (r: Result<Vec<SourcePackage>, Error>)
    ensures
        match cached_upto(file_views(files@), files.len() as int) {
            Ok(records) => r is Ok && record_views(r->Ok_0@) == records,
            Err(line) => r is Err && r->Err_0.is_malformed(line),
        },
{
    let mut items: Vec<SourcePackage> = Vec::new();
    let mut k: usize = 0;
    assert(record_views(items@) =~= Seq::empty());
    while k < files.len()
        invariant
            k <= files.len(),
            cached_upto(file_views(files@), k as int) == Ok::<Seq<PackageRecord>, Seq<char>>(
                record_views(items@),
            ),
        decreases files.len() - k,
    {
        assert(file_views(files@)[k as int] == (files[k as int].0@, files[k as int].1@));
        match SourcePackage::from_raw(files[k].1.as_str(), files[k].0.as_str()) {
            Ok(mut more) => {
                let ghost head = record_views(items@);
                let ghost tail = record_views(more@);
                items.append(&mut more);
                assert(record_views(items@) =~= head + tail);
            },
            Err(e) => {
                proof {
                    lemma_cached_error(file_views(files@), k + 1, files.len() as int);
                }
                return Err(e);
            },
        }
        k += 1;
    }
    Ok(items)
}

/// Builds the index of all packages: the records of all index files, one
/// record left for each name.
pub fn build_index(files: &Vec<(String, String)>) -> (r: Result<Vec<SourcePackage>, Error>)
    ensures
        match cached_upto(file_views(files@), files.len() as int) {
            Ok(records) => r is Ok && record_views(r->Ok_0@) == deduplicated(records)
                && merged_well(records, records.len() as int, record_views(r->Ok_0@)),
            Err(line) => r is Err && r->Err_0.is_malformed(line),
        },
{
    match get_cached_items(files) {
        Ok(items) => {
            assert(record_views(items@).len() == items.len());
            resolve_duplication(&items)
        },
        Err(e) => Err(e),
    }
}

/// Those of the first `k` records whose flag is set; a record without a
/// flag counts as one whose flag is not set.
pub open spec fn selected(items: Seq<PackageRecord>, flags: Seq<bool>, k: int) -> Seq<PackageRecord>
    decreases k,
{
    if k <= 0 {
        Seq::empty()
    } else if k - 1 < flags.len() && flags[k - 1] {
        selected(items, flags, k - 1).push(items[k - 1])
    } else {
        selected(items, flags, k - 1)
    }
}

/// The records whose flag is set, in their order.
pub fn select_packages(items: &Vec<SourcePackage>, flags: &Vec<bool>) -> (r: Vec<SourcePackage>)
    ensures
        record_views(r@) == selected(record_views(items@), flags@, items.len() as int),
{
    let mut found: Vec<SourcePackage> = Vec::new();
    let mut k: usize = 0;
    assert(record_views(found@) =~= Seq::empty());
    while k < items.len()
        invariant
            k <= items.len(),
            record_views(found@) == selected(record_views(items@), flags@, k as int),
        decreases items.len() - k,
    {
        assert(record_views(items@)[k as int] == items[k as int]@);
        if k < flags.len() && flags[k] {
            let ghost before = record_views(found@);
            found.push(items[k].clone());
            assert(record_views(found@) =~= before.push(items[k as int]@));
        }
        k += 1;
    }
    found
}

/// Whether one of the first `k` of `names` is matched by `pattern`.
pub open spec fn any_matches(pattern: Seq<char>, names: Seq<Seq<char>>, k: int) -> bool {
    exists|i: int|
        0 <= i < k && i < names.len() && glob_match(pattern, #[trigger] names[i]) == Some(true)
}

/// Whether the glob pattern matches the name of `rec` or one of the names
/// that it provides. Where case does not count, the names are put in lower
/// case first.
pub open spec fn glob_accepts(pattern: Seq<char>, rec: PackageRecord, case_sensitive: bool) -> bool {
    if case_sensitive {
        glob_match(pattern, rec.package) == Some(true) || any_matches(
            pattern,
            rec.provides,
            rec.provides.len() as int,
        )
    } else {
        glob_match(pattern, lowercase_of(rec.package)) == Some(true) || any_matches(
            pattern,
            lowered(rec.provides),
            rec.provides.len() as int,
        )
    }
}

/// Each of `names` in lower case.
pub open spec fn lowered(names: Seq<Seq<char>>) -> Seq<Seq<char>> {
    Seq::new(names.len(), |i: int| lowercase_of(names[i]))
}

/// Which of the records the glob pattern accepts.
pub open spec fn glob_flags(pattern: Seq<char>, case_sensitive: bool, items: Seq<PackageRecord>) -> Seq<
    bool,
> {
    Seq::new(items.len(), |i: int| glob_accepts(pattern, items[i], case_sensitive))
}

/// The records that the glob pattern accepts.
pub open spec fn glob_found(pattern: Seq<char>, case_sensitive: bool, items: Seq<PackageRecord>) -> Seq<
    PackageRecord,
> {
    selected(items, glob_flags(pattern, case_sensitive, items), items.len() as int)
}

fn glob_accepts_item(pattern: &str, item: &SourcePackage, case_sensitive: bool) -> (r: bool)
    ensures
        r == glob_accepts(pattern@, item@, case_sensitive),
{
    let name = if case_sensitive {
        item.package.clone()
    } else {
        lowercase(item.package.as_str())
    };
    match glob_matches(pattern, name.as_str()) {
        Some(true) => {
            return true;
        },
        _ => {},
    }
    let ghost names = if case_sensitive {
        item@.provides
    } else {
        lowered(item@.provides)
    };
    let mut i: usize = 0;
    while i < item.provides.len()
        invariant
            i <= item.provides.len(),
            names == (if case_sensitive {
                item@.provides
            } else {
                lowered(item@.provides)
            }),
            names.len() == item.provides.len(),
            !any_matches(pattern@, names, i as int),
        decreases item.provides.len() - i,
    {
        let other = if case_sensitive {
            item.provides[i].clone()
        } else {
            lowercase(item.provides[i].as_str())
        };
        assert(other@ == names[i as int]);
        match glob_matches(pattern, other.as_str()) {
            Some(true) => {
                assert(any_matches(pattern@, names, names.len() as int));
                return true;
            },
            _ => {},
        }
        i += 1;
    }
    false
}

/// The records whose name, or one of whose provided names, the glob pattern
/// `glob` matches, in their order; `None` where `glob` is no valid pattern.
pub fn search_cache_with_name_glob(glob: &str, case_sensitive: bool, items: &Vec<SourcePackage>) -> (r:
    Option<Vec<SourcePackage>>)
    ensures
        r is None <==> glob_match(glob@, Seq::<char>::empty()) is None,
        r is Some ==> record_views(r->Some_0@) == glob_found(
            glob@,
            case_sensitive,
            record_views(items@),
        ),
{
    let nothing = String::new();
    if glob_matches(glob, nothing.as_str()).is_none() {
        return None;
    }
    let mut flags: Vec<bool> = Vec::new();
    let mut k: usize = 0;
    while k < items.len()
        invariant
            k <= items.len(),
            flags.len() == k,
            forall|i: int|
                0 <= i < k ==> #[trigger] flags[i] == glob_accepts(
                    glob@,
                    record_views(items@)[i],
                    case_sensitive,
                ),
        decreases items.len() - k,
    {
        assert(record_views(items@)[k as int] == items[k as int]@);
        flags.push(glob_accepts_item(glob, &items[k], case_sensitive));
        k += 1;
    }
    assert(flags@ =~= glob_flags(glob@, case_sensitive, record_views(items@)));
    Some(select_packages(items, &flags))
}

/// What the first `k` of `names` find, each taken as a glob pattern where
/// case counts, one name after the other; `None` where one of them is no
/// valid pattern.
pub open spec fn names_found(names: Seq<Seq<char>>, items: Seq<PackageRecord>, k: int) -> Option<
    Seq<PackageRecord>,
>
    decreases k,
{
    if k <= 0 {
        Some(Seq::empty())
    } else {
        match names_found(names, items, k - 1) {
            None => None,
            Some(head) => if glob_match(names[k - 1], Seq::<char>::empty()) is None {
                None
            } else {
                Some(head + glob_found(names[k - 1], true, items))
            },
        }
    }
}

proof fn lemma_names_not_found(names: Seq<Seq<char>>, items: Seq<PackageRecord>, k: int, n: int)
    requires
        0 <= k <= n,
        names_found(names, items, k) is None,
    ensures
        names_found(names, items, n) is None,
    decreases n - k,
{
    if k < n {
        lemma_names_not_found(names, items, k, n - 1);
    }
}

/// The records that each of `names` finds as a glob pattern, one name after
/// the other; `None` where one of them is no valid pattern.
pub fn search_cache_with_names(names: &Vec<String>, items: &Vec<SourcePackage>) -> (r: Option<
    Vec<SourcePackage>,
>)
    ensures
        match names_found(string_views(names@), record_views(items@), names.len() as int) {
            Some(found) => r is Some && record_views(r->Some_0@) == found,
            None => r is None,
        },
{
    let mut found: Vec<SourcePackage> = Vec::new();
    let mut k: usize = 0;
    assert(record_views(found@) =~= Seq::empty());
    while k < names.len()
        invariant
            k <= names.len(),
            names_found(string_views(names@), record_views(items@), k as int) == Some(
                record_views(found@),
            ),
        decreases names.len() - k,
    {
        assert(string_views(names@)[k as int] == names[k as int]@);
        match search_cache_with_name_glob(names[k].as_str(), true, items) {
            Some(mut more) => {
                let ghost head = record_views(found@);
                let ghost tail = record_views(more@);
                found.append(&mut more);
                assert(record_views(found@) =~= head + tail);
            },
            None => {
                proof {
                    lemma_names_not_found(
                        string_views(names@),
                        record_views(items@),
                        k + 1,
                        names.len() as int,
                    );
                }
                return None;
            },
        }
        k += 1;
    }
    Some(found)
}

/// Whether the regular expression matches in the name of `rec` or in its
/// description. Where case does not count, the two are put in lower case
/// first.
pub open spec fn regex_accepts(pattern: Seq<char>, rec: PackageRecord, case_sensitive: bool) -> bool {
    if case_sensitive {
        regex_match(pattern, rec.package) == Some(true) || regex_match(pattern, rec.description)
            == Some(true)
    } else {
        regex_match(pattern, lowercase_of(rec.package)) == Some(true) || regex_match(
            pattern,
            lowercase_of(rec.description),
        ) == Some(true)
    }
}

/// Which of the records the regular expression accepts.
pub open spec fn regex_flags(pattern: Seq<char>, case_sensitive: bool, items: Seq<PackageRecord>) -> Seq<
    bool,
> {
    Seq::new(items.len(), |i: int| regex_accepts(pattern, items[i], case_sensitive))
}

/// The records that the regular expression accepts.
pub open spec fn regex_found(
    pattern: Seq<char>,
    case_sensitive: bool,
    items: Seq<PackageRecord>,
) -> Seq<PackageRecord> {
    selected(items, regex_flags(pattern, case_sensitive, items), items.len() as int)
}

fn regex_accepts_item(pattern: &str, item: &SourcePackage, case_sensitive: bool) -> (r: bool)
    ensures
        r == regex_accepts(pattern@, item@, case_sensitive),
{
    let name = if case_sensitive {
        item.package.clone()
    } else {
        lowercase(item.package.as_str())
    };
    match regex_matches(pattern, name.as_str()) {
        Some(true) => {
            return true;
        },
        _ => {},
    }
    let description = if case_sensitive {
        item.description.clone()
    } else {
        lowercase(item.description.as_str())
    };
    match regex_matches(pattern, description.as_str()) {
        Some(true) => true,
        _ => false,
    }
}

/// The records in whose name or description the regular expression `reg`
/// matches, in their order; `None` where `reg` is no valid expression.
pub fn search_cache_with_name_description_regex(
    reg: &str,
    case_sensitive: bool,
    items: &Vec<SourcePackage>,
) -> (r: Option<Vec<SourcePackage>>)
    ensures
        r is None <==> regex_match(reg@, Seq::<char>::empty()) is None,
        r is Some ==> record_views(r->Some_0@) == regex_found(
            reg@,
            case_sensitive,
            record_views(items@),
        ),
{
    let nothing = String::new();
    if regex_matches(reg, nothing.as_str()).is_none() {
        return None;
    }
    let mut flags: Vec<bool> = Vec::new();
    let mut k: usize = 0;
    while k < items.len()
        invariant
            k <= items.len(),
            flags.len() == k,
            forall|i: int|
                0 <= i < k ==> #[trigger] flags[i] == regex_accepts(
                    reg@,
                    record_views(items@)[i],
                    case_sensitive,
                ),
        decreases items.len() - k,
    {
        assert(record_views(items@)[k as int] == items[k as int]@);
        flags.push(regex_accepts_item(reg, &items[k], case_sensitive));
        k += 1;
    }
    assert(flags@ =~= regex_flags(reg@, case_sensitive, record_views(items@)));
    Some(select_packages(items, &flags))
}

/// The name of an index file up to its second underscore, each underscore
/// turned into a slash: the host of the repository and the first part of its
/// path. `seen` counts the underscores before index `i`.
pub open spec fn domain_from(name: Seq<char>, i: int, seen: int) -> Seq<char>
    decreases name.len() - i,
{
    if i < 0 || i >= name.len() || seen >= 2 {
        Seq::empty()
    } else if name[i] == '_' {
        seq!['/'] + domain_from(name, i + 1, seen + 1)
    } else {
        seq![name[i]] + domain_from(name, i + 1, seen)
    }
}

/// The domain that the name of an index file gives.
pub open spec fn domain_of(name: Seq<char>) -> Seq<char> {
    domain_from(name, 0, 0)
}

/// The domain under which the pool of the index file named `filename` lies.
pub fn domain_of_filename(filename: &str) -> (r: String)
    ensures
        r@ == domain_of(filename@),
{
    let name = chars_of(filename);
    let mut r = String::new();
    let mut i: usize = 0;
    let mut seen: u8 = 0;
    while i < name.len() && seen < 2
        invariant
            i <= name.len(),
            seen <= 2,
            domain_of(name@) == r@ + domain_from(name@, i as int, seen as int),
        decreases name.len() - i,
    {
        let ghost before = r@;
        let ghost rest = domain_from(
            name@,
            i + 1,
            if name@[i as int] == '_' {
                seen + 1
            } else {
                seen as int
            },
        );
        if name[i] == '_' {
            r.push('/');
            seen += 1;
            assert(before + (seq!['/'] + rest) =~= before.push('/') + rest);
        } else {
            r.push(name[i]);
            assert(before + (seq![name@[i as int]] + rest) =~= before.push(name@[i as int]) + rest);
        }
        i += 1;
    }
    assert(r@ + Seq::<char>::empty() =~= r@);
    r
}

/// The domain of the first of the index files from index `k` on that has a
/// record named `name`; an error where a file before it is malformed, or
/// where no file has one.
pub open spec fn pool_domain_from(files: Seq<(Seq<char>, Seq<char>)>, name: Seq<char>, k: int) -> Result<
    Seq<char>,
    (),
>
    decreases files.len() - k,
{
    if k < 0 || k >= files.len() {
        Err(())
    } else {
        match parse_records(files[k].1, files[k].0) {
            Err(_) => Err(()),
            Ok(records) => if position(records, name) >= 0 {
                Ok(domain_of(files[k].0))
            } else {
                pool_domain_from(files, name, k + 1)
            },
        }
    }
}

/// Finds the domain from which `package` can be fetched: that of the first
/// index file that has a record of its name.
pub fn get_pool_domain(package: &SourcePackage, files: &Vec<(String, String)>) -> (r: Result<
    String,
    (),
>)
    ensures
        match pool_domain_from(file_views(files@), package@.package, 0) {
            Ok(domain) => r is Ok && r->Ok_0@ == domain,
            Err(_) => r is Err,
        },
{
    let mut k: usize = 0;
    while k < files.len()
        invariant
            k <= files.len(),
            pool_domain_from(file_views(files@), package@.package, 0) == pool_domain_from(
                file_views(files@),
                package@.package,
                k as int,
            ),
        decreases files.len() - k,
    {
        assert(file_views(files@)[k as int] == (files[k as int].0@, files[k as int].1@));
        match SourcePackage::from_raw(files[k].1.as_str(), files[k].0.as_str()) {
            Ok(items) => {
                if find_package(&items, package.package.as_str()).is_some() {
                    return Ok(domain_of_filename(files[k].0.as_str()));
                }
            },
            Err(_) => {
                return Err(());
            },
        }
        k += 1;
    }
    Err(())
}

impl SourcePackage {
    /// The address of the package's file in the pool: `http://`, the domain
    /// of its index file and the file's path.
    pub fn to_pool_uri(&self, files: &Vec<(String, String)>) -> (r: Result<String, ()>)
        ensures
            match pool_domain_from(file_views(files@), self@.package, 0) {
                Ok(domain) => r is Ok && r->Ok_0@ == "http://"@ + domain + self@.filename,
                Err(_) => r is Err,
            },
    {
        match get_pool_domain(self, files) {
            Ok(domain) => {
                let mut uri = "http://".to_owned();
                uri.append(domain.as_str());
                uri.append(self.filename.as_str());
                Ok(uri)
            },
            Err(()) => Err(()),
        }
    }
}

} // verus!
