//! Package records, and the choice of one record among those of a name.

use crate::depends::DependencyMap;
use crate::text::{copy_strings, string_views};
use vstd::prelude::*;

verus! {

/// What is wanted of an installed package.
#[derive(Debug, PartialEq, Eq, Clone, Copy, Structural)]
pub enum StatusWant {
    INSTALL,
    HOLD,
    DEINSTALL,
    PURGE,
    UNKNOWN,
}

/// Whether an installed package is in order.
#[derive(Debug, PartialEq, Eq, Clone, Copy, Structural)]
#[allow(non_camel_case_types)]
pub enum StatusFlag {
    OK,
    REINSTREQ,
    HOLD,
    HOLD_REINSTREQ,
}

/// How far the installation of a package has come.
#[derive(Debug, PartialEq, Eq, Clone, Copy, Structural)]
#[allow(non_camel_case_types)]
pub enum StatusStatus {
    NOT_INSTALLED,
    UNPACKED,
    HALF_CONFIGURED,
    HALF_INSTALLED,
    INSTALLED,
    CONFIG_FILES,
    POST_INST_FAILED,
    REMOVAL_FAILED,
}

impl Default for StatusWant {
    fn default() -> (r: Self)
        ensures
            r == StatusWant::UNKNOWN,
    {
        StatusWant::UNKNOWN
    }
}

impl Default for StatusFlag {
    fn default() -> (r: Self)
        ensures
            r == StatusFlag::HOLD,
    {
        StatusFlag::HOLD
    }
}

impl Default for StatusStatus {
    fn default() -> (r: Self)
        ensures
            r == StatusStatus::NOT_INSTALLED,
    {
        StatusStatus::NOT_INSTALLED
    }
}

/// What the package database says of an installed package.
#[derive(Debug, PartialEq, Eq, Clone, Copy, Structural)]
pub struct Status {
    pub want: StatusWant,
    pub flag: StatusFlag,
    pub status: StatusStatus,
}

impl Status {
    /// The status of a record that names none.
    pub open spec fn unknown() -> Status {
        Status {
            want: StatusWant::UNKNOWN,
            flag: StatusFlag::HOLD,
            status: StatusStatus::NOT_INSTALLED,
        }
    }
}

impl Default for Status {
    fn default() -> (r: Self)
        ensures
            r == Status::unknown(),
    {
        Status {
            want: StatusWant::UNKNOWN,
            flag: StatusFlag::HOLD,
            status: StatusStatus::NOT_INSTALLED,
        }
    }
}

/// The machines that a package is built for.
#[derive(Debug, PartialEq, Eq, Clone, Copy, Structural)]
pub enum Arch {
    ALL,
    ANY,
    AMD64,
    UNKNOWN,
}

impl Arch {
    /// The name as control files write it.
    pub open spec fn name_of(self) -> Seq<char> {
        match self {
            Arch::ALL => "all"@,
            Arch::ANY => "any"@,
            Arch::AMD64 => "amd64"@,
            Arch::UNKNOWN => "unknown"@,
        }
    }

    /// The name of the architecture as control files write it.
    pub fn name(&self) -> (r: String)
        ensures
            r@ == self.name_of(),
    {
        match self {
            Arch::ALL => "all".to_owned(),
            Arch::ANY => "any".to_owned(),
            Arch::AMD64 => "amd64".to_owned(),
            Arch::UNKNOWN => "unknown".to_owned(),
        }
    }
}

/// How much a working system needs a package; `REQUIRED` ranks highest.
#[derive(Debug, PartialEq, Eq, Clone, Copy, Structural)]
pub enum Priority {
    REQUIRED,
    IMPORTANT,
    STANDARD,
    OPTIONAL,
    EXTRA,
    UNKNOWN,
}

impl Priority {
    /// The place of a priority in their order: the higher, the more needed.
    pub open spec fn rank_of(self) -> int {
        match self {
            Priority::REQUIRED => 5,
            Priority::IMPORTANT => 4,
            Priority::STANDARD => 3,
            Priority::OPTIONAL => 2,
            Priority::EXTRA => 1,
            Priority::UNKNOWN => 0,
        }
    }

    /// The place of the priority in their order.
    pub fn rank(&self) -> (r: u8)
        ensures
            r == self.rank_of(),
    {
        match self {
            Priority::REQUIRED => 5,
            Priority::IMPORTANT => 4,
            Priority::STANDARD => 3,
            Priority::OPTIONAL => 2,
            Priority::EXTRA => 1,
            Priority::UNKNOWN => 0,
        }
    }

    /// The name as control files write it.
    pub open spec fn name_of(self) -> Seq<char> {
        match self {
            Priority::REQUIRED => "required"@,
            Priority::IMPORTANT => "important"@,
            Priority::STANDARD => "standard"@,
            Priority::OPTIONAL => "optional"@,
            Priority::EXTRA => "extra"@,
            Priority::UNKNOWN => "unknown"@,
        }
    }

    /// The name of the priority as control files write it.
    pub fn name(&self) -> (r: String)
        ensures
            r@ == self.name_of(),
    {
        match self {
            Priority::REQUIRED => "required".to_owned(),
            Priority::IMPORTANT => "important".to_owned(),
            Priority::STANDARD => "standard".to_owned(),
            Priority::OPTIONAL => "optional".to_owned(),
            Priority::EXTRA => "extra".to_owned(),
            Priority::UNKNOWN => "unknown".to_owned(),
        }
    }
}

impl Default for Priority {
    fn default() -> (r: Self)
        ensures
            r == Priority::UNKNOWN,
    {
        Priority::UNKNOWN
    }
}

/// The field of use of a package.
#[derive(Debug, PartialEq, Eq, Clone, Copy, Structural)]
pub enum Section {
    ADMIN,
    COMM,
    DATABASE,
    DEBUG,
    DEVEL,
    DOC,
    EDITORS,
    FONTS,
    GAMES,
    GNOME,
    GRAPHICS,
    HTTPD,
    INTERPRETERS,
    INTROSPECTION,
    JAVA,
    KERNEL,
    LIBDEVEL,
    LIBS,
    LISP,
    LOCALIZATION,
    MAIL,
    MATH,
    METAPACKAGES,
    MISC,
    NET,
    OLDLIBS,
    OTHEROSFS,
    PERL,
    PHP,
    PYTHON,
    RUBY,
    SCIENCE,
    SHELLS,
    SOUND,
    TEXT,
    TRANSLATIONS,
    UTILS,
    VCS,
    VIDEO,
    WEB,
    X11,
    ZOPE,
    UNKNOWN,
}

impl Default for Section {
    fn default() -> (r: Self)
        ensures
            r == Section::UNKNOWN,
    {
        Section::UNKNOWN
    }
}

/// One paragraph of a control file, as values.
pub struct PackageRecord {
    pub package: Seq<char>,
    pub status: Status,
    pub arch: Seq<Arch>,
    pub version: Seq<char>,
    pub priority: Priority,
    pub section: Section,
    pub maintainer: Seq<char>,
    pub original_maintainer: Seq<char>,
    pub depends: Seq<(Seq<char>, Option<Seq<char>>)>,
    pub pre_depends: Seq<(Seq<char>, Option<Seq<char>>)>,
    pub homepage: Seq<char>,
    pub chksum_md5: Seq<char>,
    pub essential: bool,
    pub suggests: Seq<Seq<char>>,
    pub filename: Seq<char>,
    pub description: Seq<char>,
    pub conffiles: Seq<Seq<char>>,
    pub origin: Seq<char>,
    pub bugs: Seq<char>,
    pub installed_size: u64,
    pub component: Seq<char>,
    pub dist: Seq<char>,
    pub provides: Seq<Seq<char>>,
}

impl PackageRecord {
    /// The record of a paragraph that has no line yet.
    pub open spec fn empty() -> PackageRecord {
        PackageRecord {
            package: Seq::empty(),
            status: Status::unknown(),
            arch: Seq::empty(),
            version: Seq::empty(),
            priority: Priority::UNKNOWN,
            section: Section::UNKNOWN,
            maintainer: Seq::empty(),
            original_maintainer: Seq::empty(),
            depends: Seq::empty(),
            pre_depends: Seq::empty(),
            homepage: Seq::empty(),
            chksum_md5: Seq::empty(),
            essential: false,
            suggests: Seq::empty(),
            filename: Seq::empty(),
            description: Seq::empty(),
            conffiles: Seq::empty(),
            origin: Seq::empty(),
            bugs: Seq::empty(),
            installed_size: 0,
            component: Seq::empty(),
            dist: Seq::empty(),
            provides: Seq::empty(),
        }
    }
}

/// One package as a control file describes it. `dist` and `component` say
/// which index file the record came from.
#[derive(Debug, PartialEq, Eq)]
pub struct SourcePackage {
    pub package: String,
    pub status: Status,
    pub arch: Vec<Arch>,
    pub version: String,
    pub priority: Priority,
    pub section: Section,
    pub maintainer: String,
    pub original_maintainer: String,
    pub depends: DependencyMap,
    pub pre_depends: DependencyMap,
    pub homepage: String,
    pub chksum_md5: String,
    pub essential: bool,
    pub suggests: Vec<String>,
    pub filename: String,
    pub description: String,
    pub conffiles: Vec<String>,
    pub origin: String,
    pub bugs: String,
    pub installed_size: u64,
    pub component: String,
    pub dist: String,
    pub provides: Vec<String>,
}

impl View for SourcePackage {
    type V = PackageRecord;

    open spec fn view(&self) -> PackageRecord {
        PackageRecord {
            package: self.package@,
            status: self.status,
            arch: self.arch@,
            version: self.version@,
            priority: self.priority,
            section: self.section,
            maintainer: self.maintainer@,
            original_maintainer: self.original_maintainer@,
            depends: self.depends@,
            pre_depends: self.pre_depends@,
            homepage: self.homepage@,
            chksum_md5: self.chksum_md5@,
            essential: self.essential,
            suggests: string_views(self.suggests@),
            filename: self.filename@,
            description: self.description@,
            conffiles: string_views(self.conffiles@),
            origin: self.origin@,
            bugs: self.bugs@,
            installed_size: self.installed_size,
            component: self.component@,
            dist: self.dist@,
            provides: string_views(self.provides@),
        }
    }
}

/// The records that a list of packages stands for.
pub open spec fn record_views(v: Seq<SourcePackage>) -> Seq<PackageRecord> {
    Seq::new(v.len(), |i: int| v[i]@)
}

impl Default for SourcePackage {
    fn default() -> (r: Self)
        ensures
            r@ == PackageRecord::empty(),
            r.depends.wf(),
            r.pre_depends.wf(),
    {
        let r = SourcePackage {
            package: String::new(),
            status: Status::default(),
            arch: Vec::new(),
            version: String::new(),
            priority: Priority::UNKNOWN,
            section: Section::UNKNOWN,
            maintainer: String::new(),
            original_maintainer: String::new(),
            depends: DependencyMap::new(),
            pre_depends: DependencyMap::new(),
            homepage: String::new(),
            chksum_md5: String::new(),
            essential: false,
            suggests: Vec::new(),
            filename: String::new(),
            description: String::new(),
            conffiles: Vec::new(),
            origin: String::new(),
            bugs: String::new(),
            installed_size: 0,
            component: String::new(),
            dist: String::new(),
            provides: Vec::new(),
        };
        assert(string_views(r.suggests@) =~= Seq::empty());
        assert(string_views(r.conffiles@) =~= Seq::empty());
        assert(string_views(r.provides@) =~= Seq::empty());
        r
    }
}

impl Clone for SourcePackage {
    fn clone(&self) -> (r: Self)
        ensures
            r@ == self@,
    {
        SourcePackage {
            package: self.package.clone(),
            status: self.status,
            arch: self.arch.clone(),
            version: self.version.clone(),
            priority: self.priority,
            section: self.section,
            maintainer: self.maintainer.clone(),
            original_maintainer: self.original_maintainer.clone(),
            depends: self.depends.copy(),
            pre_depends: self.pre_depends.copy(),
            homepage: self.homepage.clone(),
            chksum_md5: self.chksum_md5.clone(),
            essential: self.essential,
            suggests: copy_strings(&self.suggests),
            filename: self.filename.clone(),
            description: self.description.clone(),
            conffiles: copy_strings(&self.conffiles),
            origin: self.origin.clone(),
            bugs: self.bugs.clone(),
            installed_size: self.installed_size,
            component: self.component.clone(),
            dist: self.dist.clone(),
            provides: copy_strings(&self.provides),
        }
    }
}

/// The first index at or after `from` of a record named `name`, or -1.
pub open spec fn position_from(records: Seq<PackageRecord>, name: Seq<char>, from: int) -> int
    decreases records.len() - from,
{
    if from < 0 || from >= records.len() {
        -1
    } else if records[from].package == name {
        from
    } else {
        position_from(records, name, from + 1)
    }
}

/// The index of the first record named `name`, or -1.
pub open spec fn position(records: Seq<PackageRecord>, name: Seq<char>) -> int {
    position_from(records, name, 0)
}

/// The position of a name is that of a record with the name, and no
/// record before it has the name.
pub proof fn lemma_position(records: Seq<PackageRecord>, name: Seq<char>, from: int)
    requires
        0 <= from,
    ensures
        ({
            let i = position_from(records, name, from);
            &&& (i == -1 || (from <= i < records.len() && records[i].package == name))
            &&& forall|j: int|
                from <= j < records.len() && (j < i || i == -1) ==> records[j].package != name
        }),
    decreases records.len() - from,
{
    if from < records.len() && records[from].package != name {
        lemma_position(records, name, from + 1);
    }
}

/// The place of the first of `records` that is named `name`.
pub fn find_package(records: &Vec<SourcePackage>, name: &str) -> (r: Option<usize>)
    ensures
        match r {
            Some(i) => i == position(record_views(records@), name@),
            None => position(record_views(records@), name@) == -1,
        },
{
    let mut i: usize = 0;
    while i < records.len()
        invariant
            i <= records.len(),
            position(record_views(records@), name@) == position_from(
                record_views(records@),
                name@,
                i as int,
            ),
        decreases records.len() - i,
    {
        assert(record_views(records@)[i as int] == records[i as int]@);
        if crate::text::same_text(records[i].package.as_str(), name) {
            return Some(i);
        }
        i += 1;
    }
    None
}

} // verus!
