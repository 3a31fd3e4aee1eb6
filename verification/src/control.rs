//! Control files: paragraphs of `Field: value` lines, one paragraph for each
//! package, a blank line after each paragraph.

use crate::cache::get_info_from_filename;
use crate::depends::{inserted, DependencyMap};
use crate::error::Error;
use crate::source::{
    Arch, PackageRecord, Priority, Section, SourcePackage, Status, StatusFlag, StatusStatus,
    StatusWant, record_views,
};
use crate::text::{
    chars_of,
    contains,
    find_from,
    first_match,
    is_text,
    last_match,
    lemma_first_match,
    matches_at,
    slice_of,
    split,
    split_chars,
    string_of,
    string_views,
    trim,
    trim_chars,
    views,
};
use crate::version::{all_digits, digits_value, parse_number};
use vstd::prelude::*;

verus! {

/// The name of the field that a line sets: what stands before the first
/// colon and space or, where the line has none, the line without the colon
/// at its end.
pub open spec fn field_name(line: Seq<char>) -> Seq<char> {
    let i = first_match(line, ": "@, 0);
    if i >= 0 {
        line.subrange(0, i)
    } else if line.len() > 0 && line.last() == ':' {
        line.drop_last()
    } else {
        line
    }
}

/// The value that a line gives its field: what stands after the first colon
/// and space, if the line has them.
pub open spec fn field_value(line: Seq<char>) -> Option<Seq<char>> {
    let i = first_match(line, ": "@, 0);
    if i >= 0 {
        Some(line.subrange(i + ": "@.len(), line.len() as int))
    } else {
        None
    }
}

/// A line that continues the value of the field before it.
pub open spec fn is_continuation(line: Seq<char>) -> bool {
    line.len() > 0 && line[0] == ' '
}

/// What a package is wanted for, by the first word of its status.
pub open spec fn want_of(s: Seq<char>) -> StatusWant {
    if s == "install"@ {
        StatusWant::INSTALL
    } else if s == "hold"@ {
        StatusWant::HOLD
    } else if s == "deinstall"@ {
        StatusWant::DEINSTALL
    } else if s == "purge"@ {
        StatusWant::PURGE
    } else {
        StatusWant::UNKNOWN
    }
}

/// The flag that the second word of a status names, if it is one.
pub open spec fn flag_of(s: Seq<char>) -> Option<StatusFlag> {
    if s == "ok"@ {
        Some(StatusFlag::OK)
    } else if s == "reinstreq"@ {
        Some(StatusFlag::REINSTREQ)
    } else if s == "hold"@ {
        Some(StatusFlag::HOLD)
    } else if s == "hold-reinstreq"@ {
        Some(StatusFlag::HOLD_REINSTREQ)
    } else {
        None
    }
}

/// The state that the third word of a status names, if it is one.
pub open spec fn state_of(s: Seq<char>) -> Option<StatusStatus> {
    if s == "not-installed"@ {
        Some(StatusStatus::NOT_INSTALLED)
    } else if s == "unpacked"@ {
        Some(StatusStatus::UNPACKED)
    } else if s == "half-configured"@ {
        Some(StatusStatus::HALF_CONFIGURED)
    } else if s == "installed"@ {
        Some(StatusStatus::INSTALLED)
    } else if s == "half-installed"@ {
        Some(StatusStatus::HALF_INSTALLED)
    } else if s == "config-files"@ {
        Some(StatusStatus::CONFIG_FILES)
    } else if s == "post-inst-failed"@ {
        Some(StatusStatus::POST_INST_FAILED)
    } else if s == "removal-failed"@ {
        Some(StatusStatus::REMOVAL_FAILED)
    } else {
        None
    }
}

/// The status that `want flag status` writes: three words with one space
/// between them, of which the second and the third are known.
pub open spec fn status_of(v: Seq<char>) -> Option<Status> {
    let parts = split(v, " "@);
    if parts.len() != 3 {
        None
    } else {
        match (flag_of(parts[1]), state_of(parts[2])) {
            (Some(flag), Some(status)) => Some(Status { want: want_of(parts[0]), flag, status }),
            _ => None,
        }
    }
}

/// The architecture that a value names.
pub open spec fn arch_of(v: Seq<char>) -> Arch {
    if v == "amd64"@ {
        Arch::AMD64
    } else if v == "all"@ {
        Arch::ALL
    } else if v == "any"@ {
        Arch::ANY
    } else {
        Arch::UNKNOWN
    }
}

/// The priority that a value names.
pub open spec fn priority_of(v: Seq<char>) -> Priority {
    if v == "extra"@ {
        Priority::EXTRA
    } else if v == "optional"@ {
        Priority::OPTIONAL
    } else if v == "important"@ {
        Priority::IMPORTANT
    } else if v == "required"@ {
        Priority::REQUIRED
    } else if v == "standard"@ {
        Priority::STANDARD
    } else {
        Priority::UNKNOWN
    }
}

/// The section that a value names.
pub open spec fn section_of(v: Seq<char>) -> Section {
    if v == "admin"@ {
        Section::ADMIN
    } else if v == "universe/devel"@ {
        Section::DEVEL
    } else {
        Section::UNKNOWN
    }
}

/// The number that `v` writes in decimal digits, with or without a plus sign
/// before them, where it fits in 64 bits; 0 for any other text.
pub open spec fn number_or_zero(v: Seq<char>) -> u64 {
    let d = if v.len() > 0 && v[0] == '+' {
        v.subrange(1, v.len() as int)
    } else {
        v
    };
    if d.len() > 0 && all_digits(d) && digits_value(d) <= u64::MAX {
        digits_value(d) as u64
    } else {
        0
    }
}

/// `s` without its last character.
pub open spec fn without_last(s: Seq<char>) -> Seq<char> {
    if s.len() > 0 {
        s.drop_last()
    } else {
        s
    }
}

/// The first of the alternatives that `|` parts in `t`.
pub open spec fn first_alternative(t: Seq<char>) -> Seq<char> {
    if contains(t, "|"@) {
        trim(split(t, "|"@)[0])
    } else {
        t
    }
}

/// The name and the version of one entry of a dependency field. Of
/// alternatives the first counts. An entry is a name alone, or a name and
/// two more words, `(>=` and `1.2)`: of these the version is kept, without
/// the bracket after it. Any other number of words is malformed.
pub open spec fn dependency_of(entry: Seq<char>) -> Option<(Seq<char>, Option<Seq<char>>)> {
    let parts = split(first_alternative(trim(entry)), " "@);
    if parts.len() == 1 {
        Some((trim(parts[0]), None))
    } else if parts.len() == 3 {
        Some((trim(parts[0]), Some(trim(without_last(parts[2])))))
    } else {
        None
    }
}

/// `deps` after the entries from index `k` on were added to it, if each of
/// them is well formed.
pub open spec fn add_dependencies(
    deps: Seq<(Seq<char>, Option<Seq<char>>)>,
    entries: Seq<Seq<char>>,
    k: int,
) -> Option<Seq<(Seq<char>, Option<Seq<char>>)>>
    decreases entries.len() - k,
{
    if k < 0 || k >= entries.len() {
        Some(deps)
    } else {
        match dependency_of(entries[k]) {
            None => None,
            Some(d) => add_dependencies(inserted(deps, d.0, d.1), entries, k + 1),
        }
    }
}

/// `deps` after a dependency field with the value `v` was read.
pub open spec fn with_dependencies(
    deps: Seq<(Seq<char>, Option<Seq<char>>)>,
    v: Seq<char>,
) -> Option<Seq<(Seq<char>, Option<Seq<char>>)>> {
    add_dependencies(deps, split(v, ","@), 0)
}

/// Each of `entries` without the white space at its ends.
pub open spec fn trimmed(entries: Seq<Seq<char>>) -> Seq<Seq<char>> {
    Seq::new(entries.len(), |i: int| trim(entries[i]))
}

/// The value, or nothing where the line gives none.
pub open spec fn value_or_empty(v: Option<Seq<char>>) -> Seq<char> {
    match v {
        Some(t) => t,
        None => Seq::empty(),
    }
}

/// The record `rec` after `line` was read, or `None` where the line is
/// malformed: where its field needs a value and the line gives none, or
/// where the value breaks the field's syntax. `dist` and `component` say
/// where the file came from. A field that is not known changes nothing.
pub open spec fn record_after_line(
    rec: PackageRecord,
    line: Seq<char>,
    dist: Seq<char>,
    component: Seq<char>,
) -> Option<PackageRecord> {
    let name = field_name(line);
    let value = field_value(line);
    let text = value_or_empty(value);
    if name == "Maintainer"@ {
        Some(PackageRecord { maintainer: text, ..rec })
    } else if name == "Original-Maintainer"@ {
        Some(PackageRecord { original_maintainer: text, ..rec })
    } else if name == "Suggests"@ {
        Some(PackageRecord { suggests: rec.suggests + trimmed(split(text, ","@)), ..rec })
    } else if name == "Description"@ {
        Some(PackageRecord { description: text, ..rec })
    } else if name == "Conffiles"@ {
        Some(PackageRecord { conffiles: rec.conffiles.push(text), ..rec })
    } else if name == "Package"@ {
        if text.len() > 0 {
            Some(PackageRecord { package: text, dist: dist, component: component, ..rec })
        } else {
            None
        }
    } else if name == "Status"@ {
        match status_of(text) {
            Some(status) if value is Some => Some(PackageRecord { status: status, ..rec }),
            _ => None,
        }
    } else if name == "Pre-Depends"@ {
        match with_dependencies(rec.pre_depends, text) {
            Some(deps) if value is Some => Some(PackageRecord { pre_depends: deps, ..rec }),
            _ => None,
        }
    } else if name == "Depends"@ {
        match with_dependencies(rec.depends, text) {
            Some(deps) if value is Some => Some(PackageRecord { depends: deps, ..rec }),
            _ => None,
        }
    } else if name == "Architecture"@ {
        if value is Some {
            Some(PackageRecord { arch: rec.arch.push(arch_of(text)), ..rec })
        } else {
            None
        }
    } else if name == "Version"@ {
        if value is Some {
            Some(PackageRecord { version: text, ..rec })
        } else {
            None
        }
    } else if name == "Priority"@ {
        if value is Some {
            Some(PackageRecord { priority: priority_of(text), ..rec })
        } else {
            None
        }
    } else if name == "Installed-Size"@ {
        if value is Some {
            Some(PackageRecord { installed_size: number_or_zero(text), ..rec })
        } else {
            None
        }
    } else if name == "Essential"@ {
        if value is Some {
            Some(PackageRecord { essential: text == "yes"@, ..rec })
        } else {
            None
        }
    } else if name == "Section"@ {
        if value is Some {
            Some(PackageRecord { section: section_of(text), ..rec })
        } else {
            None
        }
    } else if name == "Filename"@ {
        if value is Some {
            Some(PackageRecord { filename: text, ..rec })
        } else {
            None
        }
    } else if name == "MD5sum"@ {
        if value is Some {
            Some(PackageRecord { chksum_md5: text, ..rec })
        } else {
            None
        }
    } else if name == "Homepage"@ {
        if value is Some {
            Some(PackageRecord { homepage: text, ..rec })
        } else {
            None
        }
    } else if name == "Origin"@ {
        if value is Some {
            Some(PackageRecord { origin: text, ..rec })
        } else {
            None
        }
    } else if name == "Bugs"@ {
        if value is Some {
            Some(PackageRecord { bugs: text, ..rec })
        } else {
            None
        }
    } else {
        Some(rec)
    }
}

/// `rec` after a line that continues its description.
pub open spec fn with_continuation(rec: PackageRecord, line: Seq<char>) -> PackageRecord {
    PackageRecord {
        description: rec.description + seq!['\n'] + line.subrange(1, line.len() as int),
        ..rec
    }
}

/// The records that the lines from index `i` on give, where `rec` is what
/// the paragraph that is open has so far and `cont` says that the line before
/// left a description open. A blank line closes the paragraph: its record
/// counts if it has a name. What the last blank line does not close is left
/// out. The first malformed line ends the reading: the result is that line.
pub open spec fn parse_from(
    lines: Seq<Seq<char>>,
    i: int,
    rec: PackageRecord,
    cont: bool,
    dist: Seq<char>,
    component: Seq<char>,
) -> Result<Seq<PackageRecord>, Seq<char>>
    decreases lines.len() - i,
{
    if i < 0 || i >= lines.len() {
        Ok(Seq::empty())
    } else if cont && is_continuation(lines[i]) {
        parse_from(lines, i + 1, with_continuation(rec, lines[i]), true, dist, component)
    } else if lines[i].len() == 0 {
        after_paragraph(
            rec,
            parse_from(lines, i + 1, PackageRecord::empty(), false, dist, component),
        )
    } else {
        match record_after_line(rec, lines[i], dist, component) {
            None => Err(lines[i]),
            Some(next) => parse_from(
                lines,
                i + 1,
                next,
                field_name(lines[i]) == "Description"@,
                dist,
                component,
            ),
        }
    }
}

/// The record of a paragraph that is closed, before what follows it.
pub open spec fn after_paragraph(
    rec: PackageRecord,
    rest: Result<Seq<PackageRecord>, Seq<char>>,
) -> Result<Seq<PackageRecord>, Seq<char>> {
    match rest {
        Ok(r) => Ok(
            if rec.package.len() > 0 {
                seq![rec] + r
            } else {
                r
            },
        ),
        Err(e) => Err(e),
    }
}

/// The distribution and the component in the name of an index file: what
/// follows the first `_dists_`, parted at its last hyphen. Both are empty
/// where the name has no `_dists_`; the component is where it has no hyphen.
pub open spec fn origin_of(filename: Seq<char>) -> (Seq<char>, Seq<char>) {
    let m = first_match(filename, "_dists_"@, 0);
    if m < 0 {
        (Seq::empty(), Seq::empty())
    } else {
        let rest = filename.subrange(m + "_dists_"@.len(), filename.len() as int);
        let h = last_match(rest, "-"@, rest.len() as int);
        if h < 0 {
            (rest, Seq::empty())
        } else {
            (rest.subrange(0, h), rest.subrange(h + 1, rest.len() as int))
        }
    }
}

/// The records of a control file with the text `file`, read from an index
/// file named `filename`, or the first malformed line.
pub open spec fn parse_records(file: Seq<char>, filename: Seq<char>) -> Result<
    Seq<PackageRecord>,
    Seq<char>,
> {
    parse_from(
        split(file, "\n"@),
        0,
        PackageRecord::empty(),
        false,
        origin_of(filename).0,
        origin_of(filename).1,
    )
}


/// The name and the value of the field that `line` sets.
fn split_field(line: &Vec<char>) -> (r: (Vec<char>, Option<Vec<char>>))
    ensures
        r.0@ == field_name(line@),
        match r.1 {
            Some(v) => field_value(line@) == Some(v@),
            None => field_value(line@) is None,
        },
{
    let sep = chars_of(": ");
    proof {
        reveal_strlit(": ");
        lemma_first_match(line@, sep@, 0);
    }
    match find_from(line, &sep, 0) {
        Some(i) => {
            assert(matches_at(line@, sep@, i as int));
            (slice_of(line, 0, i), Some(slice_of(line, i + 2, line.len())))
        },
        None => {
            if line.len() > 0 && line[line.len() - 1] == ':' {
                assert(line@.drop_last() == line@.subrange(0, line.len() - 1));
                (slice_of(line, 0, line.len() - 1), None)
            } else {
                assert(line@.subrange(0, line.len() as int) =~= line@);
                (slice_of(line, 0, line.len()), None)
            }
        },
    }
}

fn want_from(s: &Vec<char>) -> (r: StatusWant)
    ensures
        r == want_of(s@),
{
    if is_text(s, "install") {
        StatusWant::INSTALL
    } else if is_text(s, "hold") {
        StatusWant::HOLD
    } else if is_text(s, "deinstall") {
        StatusWant::DEINSTALL
    } else if is_text(s, "purge") {
        StatusWant::PURGE
    } else {
        StatusWant::UNKNOWN
    }
}

fn flag_from(s: &Vec<char>) -> (r: Option<StatusFlag>)
    ensures
        r == flag_of(s@),
{
    if is_text(s, "ok") {
        Some(StatusFlag::OK)
    } else if is_text(s, "reinstreq") {
        Some(StatusFlag::REINSTREQ)
    } else if is_text(s, "hold") {
        Some(StatusFlag::HOLD)
    } else if is_text(s, "hold-reinstreq") {
        Some(StatusFlag::HOLD_REINSTREQ)
    } else {
        None
    }
}

fn state_from(s: &Vec<char>) -> (r: Option<StatusStatus>)
    ensures
        r == state_of(s@),
{
    if is_text(s, "not-installed") {
        Some(StatusStatus::NOT_INSTALLED)
    } else if is_text(s, "unpacked") {
        Some(StatusStatus::UNPACKED)
    } else if is_text(s, "half-configured") {
        Some(StatusStatus::HALF_CONFIGURED)
    } else if is_text(s, "installed") {
        Some(StatusStatus::INSTALLED)
    } else if is_text(s, "half-installed") {
        Some(StatusStatus::HALF_INSTALLED)
    } else if is_text(s, "config-files") {
        Some(StatusStatus::CONFIG_FILES)
    } else if is_text(s, "post-inst-failed") {
        Some(StatusStatus::POST_INST_FAILED)
    } else if is_text(s, "removal-failed") {
        Some(StatusStatus::REMOVAL_FAILED)
    } else {
        None
    }
}

fn status_from(v: &Vec<char>) -> (r: Option<Status>)
    ensures
        r == status_of(v@),
{
    let space = chars_of(" ");
    proof {
        reveal_strlit(" ");
    }
    let parts = split_chars(v, &space);
    assert(views(parts@).len() == parts.len());
    if parts.len() != 3 {
        return None;
    }
    assert(views(parts@)[0] == parts[0]@);
    assert(views(parts@)[1] == parts[1]@);
    assert(views(parts@)[2] == parts[2]@);
    let want = want_from(&parts[0]);
    match (flag_from(&parts[1]), state_from(&parts[2])) {
        (Some(flag), Some(status)) => Some(Status { want, flag, status }),
        _ => None,
    }
}

/// Reads the status of an installed package from its three words, `want`,
/// `flag` and `status`.
pub fn parse_status(status_str: &str) -> (r: Result<Status, Error>)
    ensures
        match status_of(status_str@) {
            Some(status) => r == Ok::<Status, Error>(status),
            None => r is Err && r->Err_0.is_malformed(status_str@),
        },
{
    let v = chars_of(status_str);
    match status_from(&v) {
        Some(status) => Ok(status),
        None => Err(Error::MalformedInput(string_of(&v))),
    }
}

fn arch_from(v: &Vec<char>) -> (r: Arch)
    ensures
        r == arch_of(v@),
{
    if is_text(v, "amd64") {
        Arch::AMD64
    } else if is_text(v, "all") {
        Arch::ALL
    } else if is_text(v, "any") {
        Arch::ANY
    } else {
        Arch::UNKNOWN
    }
}

fn priority_from(v: &Vec<char>) -> (r: Priority)
    ensures
        r == priority_of(v@),
{
    if is_text(v, "extra") {
        Priority::EXTRA
    } else if is_text(v, "optional") {
        Priority::OPTIONAL
    } else if is_text(v, "important") {
        Priority::IMPORTANT
    } else if is_text(v, "required") {
        Priority::REQUIRED
    } else if is_text(v, "standard") {
        Priority::STANDARD
    } else {
        Priority::UNKNOWN
    }
}

fn section_from(v: &Vec<char>) -> (r: Section)
    ensures
        r == section_of(v@),
{
    if is_text(v, "admin") {
        Section::ADMIN
    } else if is_text(v, "universe/devel") {
        Section::DEVEL
    } else {
        Section::UNKNOWN
    }
}

fn number_from(v: &Vec<char>) -> (r: u64)
    ensures
        r == number_or_zero(v@),
{
    let d = if v.len() > 0 && v[0] == '+' {
        slice_of(v, 1, v.len())
    } else {
        assert(v@.subrange(0, v.len() as int) =~= v@);
        slice_of(v, 0, v.len())
    };
    match parse_number(&d, 0xFFFF_FFFF_FFFF_FFFF) {
        Some(n) => n,
        None => 0,
    }
}

fn dependency_from(entry: &Vec<char>) -> (r: Option<(Vec<char>, Option<Vec<char>>)>)
    ensures
        match r {
            Some(d) => dependency_of(entry@) == Some(
                (
                    d.0@,
                    match d.1 {
                        Some(v) => Some(v@),
                        None => None,
                    },
                ),
            ),
            None => dependency_of(entry@) is None,
        },
{
    let bar = chars_of("|");
    let space = chars_of(" ");
    proof {
        reveal_strlit("|");
        reveal_strlit(" ");
    }
    let t = trim_chars(entry);
    let first = match find_from(&t, &bar, 0) {
        Some(_) => {
            let alternatives = split_chars(&t, &bar);
            assert(views(alternatives@)[0] == alternatives[0]@);
            trim_chars(&alternatives[0])
        },
        None => t,
    };
    assert(first@ == first_alternative(trim(entry@)));
    let parts = split_chars(&first, &space);
    assert(views(parts@).len() == parts.len());
    if parts.len() == 1 {
        assert(views(parts@)[0] == parts[0]@);
        Some((trim_chars(&parts[0]), None))
    } else if parts.len() == 3 {
        assert(views(parts@)[0] == parts[0]@);
        assert(views(parts@)[2] == parts[2]@);
        let last = &parts[2];
        let cut = if last.len() > 0 {
            assert(last@.drop_last() == last@.subrange(0, last.len() - 1));
            slice_of(last, 0, last.len() - 1)
        } else {
            assert(last@.subrange(0, 0) =~= last@);
            slice_of(last, 0, 0)
        };
        Some((trim_chars(&parts[0]), Some(trim_chars(&cut))))
    } else {
        None
    }
}

/// Reads one entry of a dependency field: the name of the package and,
/// where the entry has one, the version it asks for.
pub fn parse_depends(dep: &str) -> (r: Result<(String, Option<String>), Error>)
    ensures
        match dependency_of(dep@) {
            Some(d) => r is Ok && r->Ok_0.0@ == d.0 && crate::depends::text_of(r->Ok_0.1) == d.1,
            None => r is Err && r->Err_0.is_malformed(dep@),
        },
{
    let entry = chars_of(dep);
    match dependency_from(&entry) {
        Some(d) => {
            let version = match &d.1 {
                Some(v) => Some(string_of(v)),
                None => None,
            };
            Ok((string_of(&d.0), version))
        },
        None => Err(Error::MalformedInput(string_of(&entry))),
    }
}

/// Adds the entries of a dependency field with the value `v` to `map`, and
/// says whether each of them was well formed.
fn add_dependencies_from(map: &mut DependencyMap, v: &Vec<char>) -> (ok: bool)
    ensures
        match with_dependencies(old(map)@, v@) {
            Some(deps) => ok && final(map)@ == deps,
            None => !ok,
        },
        old(map).wf() ==> final(map).wf(),
{
    let comma = chars_of(",");
    proof {
        reveal_strlit(",");
    }
    let entries = split_chars(v, &comma);
    let mut k: usize = 0;
    while k < entries.len()
        invariant
            k <= entries.len(),
            views(entries@) == split(v@, ","@),
            with_dependencies(old(map)@, v@) == add_dependencies(map@, views(entries@), k as int),
            old(map).wf() ==> map.wf(),
        decreases entries.len() - k,
    {
        assert(views(entries@)[k as int] == entries[k as int]@);
        match dependency_from(&entries[k]) {
            Some(d) => {
                let version = match &d.1 {
                    Some(t) => Some(string_of(t)),
                    None => None,
                };
                map.insert(string_of(&d.0), version);
            },
            None => {
                return false;
            },
        }
        k += 1;
    }
    true
}


/// Appends the entries of a list with the value `v` to `list`, each
/// without the white space at its ends.
fn add_trimmed(list: &mut Vec<String>, v: &Vec<char>)
    ensures
        string_views(final(list)@) == string_views(old(list)@) + trimmed(split(v@, ","@)),
{
    let comma = chars_of(",");
    proof {
        reveal_strlit(",");
    }
    let entries = split_chars(v, &comma);
    let mut k: usize = 0;
    while k < entries.len()
        invariant
            k <= entries.len(),
            views(entries@) == split(v@, ","@),
            string_views(list@) == string_views(old(list)@) + trimmed(split(v@, ","@)).take(
                k as int,
            ),
        decreases entries.len() - k,
    {
        assert(views(entries@)[k as int] == entries[k as int]@);
        let ghost before = string_views(list@);
        list.push(string_of(&trim_chars(&entries[k])));
        assert(string_views(list@) =~= before.push(trim(entries[k as int]@)));
        assert(trimmed(split(v@, ","@)).take(k + 1) =~= trimmed(split(v@, ","@)).take(
            k as int,
        ).push(trim(entries[k as int]@)));
        k += 1;
    }
    assert(trimmed(split(v@, ","@)).take(entries.len() as int) =~= trimmed(split(v@, ","@)));
}

/// Reads one line into the record of the paragraph that is open, and says
/// whether the line was well formed.
fn apply_line(item: &mut SourcePackage, line: &Vec<char>, dist: &String, component: &String) -> (ok:
    bool)
    ensures
        match record_after_line(old(item)@, line@, dist@, component@) {
            Some(next) => ok && final(item)@ == next,
            None => !ok,
        },
        old(item).depends.wf() && old(item).pre_depends.wf() ==> final(item).depends.wf()
            && final(item).pre_depends.wf(),
{
    let (name, value) = split_field(line);
    let present = value.is_some();
    let text = match value {
        Some(v) => v,
        None => Vec::new(),
    };
    assert(text@ == value_or_empty(field_value(line@)));
    assert(present == (field_value(line@) is Some));
    if is_text(&name, "Maintainer") {
        item.maintainer = string_of(&text);
        true
    } else if is_text(&name, "Original-Maintainer") {
        item.original_maintainer = string_of(&text);
        true
    } else if is_text(&name, "Suggests") {
        add_trimmed(&mut item.suggests, &text);
        true
    } else if is_text(&name, "Description") {
        item.description = string_of(&text);
        true
    } else if is_text(&name, "Conffiles") {
        let ghost before = string_views(item.conffiles@);
        item.conffiles.push(string_of(&text));
        assert(string_views(item.conffiles@) =~= before.push(text@));
        true
    } else if is_text(&name, "Package") {
        if text.len() > 0 {
            item.package = string_of(&text);
            item.dist = dist.clone();
            item.component = component.clone();
            true
        } else {
            false
        }
    } else if is_text(&name, "Status") {
        match status_from(&text) {
            Some(status) => {
                if present {
                    item.status = status;
                    true
                } else {
                    false
                }
            },
            None => false,
        }
    } else if is_text(&name, "Pre-Depends") {
        if present {
            add_dependencies_from(&mut item.pre_depends, &text)
        } else {
            false
        }
    } else if is_text(&name, "Depends") {
        if present {
            add_dependencies_from(&mut item.depends, &text)
        } else {
            false
        }
    } else if !present {
        is_ignored(&name)
    } else if is_text(&name, "Architecture") {
        item.arch.push(arch_from(&text));
        true
    } else if is_text(&name, "Version") {
        item.version = string_of(&text);
        true
    } else if is_text(&name, "Priority") {
        item.priority = priority_from(&text);
        true
    } else if is_text(&name, "Installed-Size") {
        item.installed_size = number_from(&text);
        true
    } else if is_text(&name, "Essential") {
        item.essential = is_text(&text, "yes");
        true
    } else if is_text(&name, "Section") {
        item.section = section_from(&text);
        true
    } else if is_text(&name, "Filename") {
        item.filename = string_of(&text);
        true
    } else if is_text(&name, "MD5sum") {
        item.chksum_md5 = string_of(&text);
        true
    } else if is_text(&name, "Homepage") {
        item.homepage = string_of(&text);
        true
    } else if is_text(&name, "Origin") {
        item.origin = string_of(&text);
        true
    } else if is_text(&name, "Bugs") {
        item.bugs = string_of(&text);
        true
    } else {
        true
    }
}

/// Whether `name` is none of the fields that must have a value.
fn is_ignored(name: &Vec<char>) -> (r: bool)
    ensures
        r == !(name@ == "Architecture"@ || name@ == "Version"@ || name@ == "Priority"@ || name@
            == "Installed-Size"@ || name@ == "Essential"@ || name@ == "Section"@ || name@
            == "Filename"@ || name@ == "MD5sum"@ || name@ == "Homepage"@ || name@ == "Origin"@
            || name@ == "Bugs"@),
{
    !(is_text(name, "Architecture") || is_text(name, "Version") || is_text(name, "Priority")
        || is_text(name, "Installed-Size") || is_text(name, "Essential") || is_text(
        name,
        "Section",
    ) || is_text(name, "Filename") || is_text(name, "MD5sum") || is_text(name, "Homepage")
        || is_text(name, "Origin") || is_text(name, "Bugs"))
}


/// `head` before the records that `tail` gives.
pub open spec fn records_before(
    head: Seq<PackageRecord>,
    tail: Result<Seq<PackageRecord>, Seq<char>>,
) -> Result<Seq<PackageRecord>, Seq<char>> {
    match tail {
        Ok(t) => Ok(head + t),
        Err(e) => Err(e),
    }
}

/// Appends to `s` what `v` holds from index `from` on.
fn push_chars_from(s: &mut String, v: &Vec<char>, from: usize)
    requires
        from <= v.len(),
    ensures
        final(s)@ == old(s)@ + v@.subrange(from as int, v.len() as int),
{
    let mut i: usize = from;
    assert(v@.subrange(from as int, from as int) =~= Seq::empty());
    while i < v.len()
        invariant
            from <= i <= v.len(),
            s@ == old(s)@ + v@.subrange(from as int, i as int),
        decreases v.len() - i,
    {
        s.push(v[i]);
        assert(v@.subrange(from as int, i + 1) =~= v@.subrange(from as int, i as int).push(
            v@[i as int],
        ));
        i += 1;
    }
}

fn names_description(line: &Vec<char>) -> (r: bool)
    ensures
        r == (field_name(line@) == "Description"@),
{
    let (name, _value) = split_field(line);
    is_text(&name, "Description")
}

impl SourcePackage {
    /// A record is valid where it has a name.
    pub fn verify(&self) -> (r: Result<(), Error>)
        ensures
            r is Ok <==> self.package@.len() > 0,
            r is Err ==> r->Err_0.is_malformed(self.package@),
    {
        if self.package.as_str().is_empty() {
            Err(Error::MalformedInput(self.package.clone()))
        } else {
            Ok(())
        }
    }

    /// Reads the records of the control file with the text `file`, which
    /// was taken from the index file named `filename`. Each record that
    /// comes out has a name, and names no dependency twice.
    pub fn from_raw(file: &str, filename: &str) -> (r: Result<Vec<SourcePackage>, Error>)
        ensures
            match parse_records(file@, filename@) {
                Ok(records) => r is Ok && record_views(r->Ok_0@) == records,
                Err(line) => r is Err && r->Err_0.is_malformed(line),
            },
            r is Ok ==> forall|k: int|
                0 <= k < r->Ok_0.len() ==> (#[trigger] r->Ok_0[k]).package@.len() > 0
                    && r->Ok_0[k].depends.wf() && r->Ok_0[k].pre_depends.wf(),
    {
        let text = chars_of(file);
        let newline = chars_of("\n");
        proof {
            reveal_strlit("\n");
        }
        let lines = split_chars(&text, &newline);
        let (dist, component) = get_info_from_filename(filename);
        let mut items: Vec<SourcePackage> = Vec::new();
        let mut item = SourcePackage::default();
        let mut cont = false;
        let mut i: usize = 0;
        assert(record_views(items@) =~= Seq::empty());
        while i < lines.len()
            invariant
                i <= lines.len(),
                views(lines@) == split(file@, "\n"@),
                dist@ == origin_of(filename@).0,
                component@ == origin_of(filename@).1,
                parse_records(file@, filename@) == records_before(
                    record_views(items@),
                    parse_from(views(lines@), i as int, item@, cont, dist@, component@),
                ),
                forall|k: int|
                    0 <= k < items.len() ==> (#[trigger] items[k]).package@.len() > 0
                        && items[k].depends.wf() && items[k].pre_depends.wf(),
                item.depends.wf(),
                item.pre_depends.wf(),
            decreases lines.len() - i,
        {
            let line = &lines[i];
            assert(views(lines@)[i as int] == line@);
            let ghost rest = parse_from(
                views(lines@),
                i + 1,
                PackageRecord::empty(),
                false,
                dist@,
                component@,
            );
            if cont && line.len() > 0 && line[0] == ' ' {
                let ghost open = item@;
                item.description.push('\n');
                push_chars_from(&mut item.description, line, 1);
                assert(item@.description =~= with_continuation(open, line@).description);
                assert(item@ == with_continuation(open, line@));
            } else if line.len() == 0 {
                let ghost before = record_views(items@);
                let ghost closed = item@;
                match item.verify() {
                    Ok(()) => {
                        items.push(item);
                        assert(record_views(items@) =~= before.push(closed));
                        proof {
                            match rest {
                                Ok(t) => {
                                    assert(before + (seq![closed] + t) =~= before.push(closed) + t);
                                },
                                Err(_) => {},
                            }
                        }
                    },
                    Err(_) => {},
                }
                item = SourcePackage::default();
                cont = false;
            } else {
                if !apply_line(&mut item, line, &dist, &component) {
                    return Err(Error::MalformedInput(string_of(line)));
                }
                cont = names_description(line);
            }
            i += 1;
        }
        proof {
            assert(record_views(items@) + Seq::<PackageRecord>::empty() =~= record_views(items@));
        }
        Ok(items)
    }
}

} // verus!
