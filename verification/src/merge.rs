//! One record for each name: of the records that share a name the one of
//! the highest priority stays, among those the one of the newest version,
//! among those the one that came first.

use crate::error::Error;
use crate::source::{
    find_package,
    lemma_position,
    position,
    record_views,
    PackageRecord,
    SourcePackage,
};
use crate::text::chars_of;
use crate::version::{compare_version, compare_version_chars};
use crate::version_order::{
    lemma_version_antisymmetric, lemma_version_reflexive, lemma_version_transitive,
};
use vstd::prelude::*;

verus! {

/// `a` is to be preferred to `b`: its priority is higher or, where the two
/// have one priority, its version is newer.
pub open spec fn better(a: PackageRecord, b: PackageRecord) -> bool {
    a.priority.rank_of() > b.priority.rank_of() || (a.priority.rank_of() == b.priority.rank_of()
        && compare_version(a.version, b.version) > 0)
}

/// The record that stays of two: the second where it is to be preferred,
/// else the first.
pub open spec fn chosen(first: PackageRecord, second: PackageRecord) -> PackageRecord {
    if better(second, first) {
        second
    } else {
        first
    }
}

/// `acc` after `rec` was merged into it: where `acc` has a record of that
/// name, the one of the two that stays takes its place; where it has none,
/// `rec` comes last.
pub open spec fn merged(acc: Seq<PackageRecord>, rec: PackageRecord) -> Seq<PackageRecord> {
    let i = position(acc, rec.package);
    if i >= 0 {
        acc.update(i, chosen(acc[i], rec))
    } else {
        acc.push(rec)
    }
}

/// The first `k` of `records`, merged one after the other.
pub open spec fn deduplicated_upto(records: Seq<PackageRecord>, k: int) -> Seq<PackageRecord>
    decreases k,
{
    if k <= 0 {
        Seq::empty()
    } else {
        merged(deduplicated_upto(records, k - 1), records[k - 1])
    }
}

/// `records` with one record left for each name.
pub open spec fn deduplicated(records: Seq<PackageRecord>) -> Seq<PackageRecord> {
    deduplicated_upto(records, records.len() as int)
}

/// No name occurs twice.
pub open spec fn distinct_packages(records: Seq<PackageRecord>) -> bool {
    forall|i: int, j: int|
        0 <= i < j < records.len() ==> (#[trigger] records[i]).package != (
        #[trigger] records[j]).package
}

/// Among the first `k` of `records`, the one at `e` is the first of the best
/// of its name: none of that name is to be preferred to it, and it is to be
/// preferred to each of them that comes before it.
pub open spec fn first_of_the_best(records: Seq<PackageRecord>, k: int, e: int) -> bool {
    &&& 0 <= e < k
    &&& forall|j: int|
        0 <= j < k && (#[trigger] records[j]).package == records[e].package ==> !better(
            records[j],
            records[e],
        ) && (j < e ==> better(records[e], records[j]))
}

/// No record is to be preferred to itself.
pub proof fn lemma_better_irreflexive(a: PackageRecord)
    ensures
        !better(a, a),
{
    lemma_version_reflexive(a.version);
}

/// Where `a` is to be preferred to `b`, and `c` is not, `a` is to be
/// preferred to `c`.
pub proof fn lemma_better_chain(a: PackageRecord, b: PackageRecord, c: PackageRecord)
    requires
        better(a, b),
        !better(c, b),
    ensures
        better(a, c),
        !better(c, a),
{
    lemma_version_antisymmetric(c.version, b.version);
    lemma_version_antisymmetric(a.version, c.version);
    lemma_version_antisymmetric(a.version, b.version);
    if a.priority.rank_of() == b.priority.rank_of() && b.priority.rank_of()
        == c.priority.rank_of() {
        lemma_version_transitive(a.version, b.version, c.version);
    }
}

proof fn lemma_position_push(acc: Seq<PackageRecord>, rec: PackageRecord, name: Seq<char>)
    ensures
        position(acc, name) >= 0 ==> position(acc.push(rec), name) == position(acc, name),
        position(acc, name) < 0 && rec.package == name ==> position(acc.push(rec), name)
            == acc.len(),
        position(acc, name) < 0 && rec.package != name ==> position(acc.push(rec), name) < 0,
{
    lemma_position(acc, name, 0);
    lemma_position(acc.push(rec), name, 0);
    let i = position(acc, name);
    let k = position(acc.push(rec), name);
    if i >= 0 {
        assert(acc.push(rec)[i].package == name);
        if k < i {
            assert(acc[k].package == name);
        }
    } else {
        if k >= 0 && k < acc.len() {
            assert(acc[k].package == name);
        }
        if rec.package == name {
            assert(acc.push(rec)[acc.len() as int].package == name);
        }
    }
}

proof fn lemma_position_update(
    acc: Seq<PackageRecord>,
    i: int,
    rec: PackageRecord,
    name: Seq<char>,
)
    requires
        0 <= i < acc.len(),
        rec.package == acc[i].package,
    ensures
        position(acc.update(i, rec), name) == position(acc, name),
{
    lemma_position(acc, name, 0);
    lemma_position(acc.update(i, rec), name, 0);
    let a = position(acc, name);
    let b = position(acc.update(i, rec), name);
    if a >= 0 {
        assert(acc.update(i, rec)[a].package == name);
    }
    if b >= 0 {
        assert(acc[b].package == name);
    }
}

/// What holds of the merged records: no name occurs twice, each name of the
/// input has its record, and that record is the first of the best of its
/// name.
pub open spec fn merged_well(records: Seq<PackageRecord>, k: int, d: Seq<PackageRecord>) -> bool {
    &&& distinct_packages(d)
    &&& forall|i: int|
        0 <= i < d.len() ==> exists|e: int|
            first_of_the_best(records, k, e) && #[trigger] d[i] == records[e]
    &&& forall|j: int| 0 <= j < k ==> position(d, (#[trigger] records[j]).package) >= 0
}

/// Merging leaves one record for each name, the first of the best of it.
pub proof fn lemma_deduplicated(records: Seq<PackageRecord>, k: int)
    requires
        0 <= k <= records.len(),
    ensures
        merged_well(records, k, deduplicated_upto(records, k)),
    decreases k,
{
    if k > 0 {
        lemma_deduplicated(records, k - 1);
        let acc = deduplicated_upto(records, k - 1);
        let rec = records[k - 1];
        let d = merged(acc, rec);
        let i = position(acc, rec.package);
        lemma_position(acc, rec.package, 0);
        lemma_better_irreflexive(rec);
        if i >= 0 {
            let e = choose|e: int| first_of_the_best(records, k - 1, e) && acc[i] == records[e];
            let kept = chosen(acc[i], rec);
            assert(kept.package == rec.package);
            assert forall|a: int, b: int| 0 <= a < b < d.len() implies (#[trigger] d[a]).package
                != (#[trigger] d[b]).package by {
                assert(d[a].package == acc[a].package);
                assert(d[b].package == acc[b].package);
            }
            assert forall|m: int| 0 <= m < d.len() implies exists|w: int|
                first_of_the_best(records, k, w) && #[trigger] d[m] == records[w] by {
                if m == i {
                    if better(rec, acc[i]) {
                        assert forall|j: int|
                            0 <= j < k && (#[trigger] records[j]).package == records[k
                                - 1].package implies !better(records[j], records[k - 1]) && (j < k
                            - 1 ==> better(records[k - 1], records[j])) by {
                            if j < k - 1 {
                                lemma_better_chain(rec, records[e], records[j]);
                            }
                        }
                        assert(first_of_the_best(records, k, k - 1));
                    } else {
                        assert(first_of_the_best(records, k, e));
                    }
                } else {
                    let w = choose|w: int|
                        first_of_the_best(records, k - 1, w) && acc[m] == records[w];
                    assert(acc[m].package != acc[i].package);
                    assert(first_of_the_best(records, k, w));
                }
            }
            assert forall|j: int| 0 <= j < k implies position(d, (#[trigger] records[j]).package)
                >= 0 by {
                lemma_position_update(acc, i, kept, records[j].package);
            }
        } else {
            assert forall|a: int, b: int| 0 <= a < b < d.len() implies (#[trigger] d[a]).package
                != (#[trigger] d[b]).package by {
                if b == acc.len() {
                    assert(acc[a].package != rec.package);
                }
            }
            assert forall|j: int|
                0 <= j < k - 1 implies (#[trigger] records[j]).package != rec.package by {
                let q = position(acc, records[j].package);
                lemma_position(acc, records[j].package, 0);
                assert(acc[q].package == records[j].package);
            }
            assert forall|m: int| 0 <= m < d.len() implies exists|w: int|
                first_of_the_best(records, k, w) && #[trigger] d[m] == records[w] by {
                if m == acc.len() {
                    assert(first_of_the_best(records, k, k - 1));
                } else {
                    let w = choose|w: int|
                        first_of_the_best(records, k - 1, w) && acc[m] == records[w];
                    assert(acc[m].package != rec.package);
                    assert(first_of_the_best(records, k, w));
                }
            }
            assert forall|j: int| 0 <= j < k implies position(d, (#[trigger] records[j]).package)
                >= 0 by {
                lemma_position_push(acc, rec, records[j].package);
            }
        }
    }
}

/// Chooses between two records of one name: `second` where its priority is
/// higher or, with one priority, its version is newer; else `first`.
pub fn choose_package(first: &SourcePackage, second: &SourcePackage) -> (r: SourcePackage)
    ensures
        r@ == chosen(first@, second@),
{
    if second.priority > first.priority {
        second.clone()
    } else if second.priority < first.priority {
        first.clone()
    } else {
        let s = compare_version_chars(
            &chars_of(second.version.as_str()),
            &chars_of(first.version.as_str()),
        );
        if s > 0 {
            second.clone()
        } else {
            first.clone()
        }
    }
}

/// Leaves one record for each name, in the order in which the names first
/// came: no name occurs twice in the result, each name of `sources` has its
/// record there, and that record is the first of the best of its name.
pub fn resolve_duplication(sources: &Vec<SourcePackage>) -> (r: Result<Vec<SourcePackage>, Error>)
    ensures
        r is Ok,
        record_views(r->Ok_0@) == deduplicated(record_views(sources@)),
        merged_well(record_views(sources@), sources.len() as int, record_views(r->Ok_0@)),
{
    let mut out: Vec<SourcePackage> = Vec::new();
    let mut k: usize = 0;
    assert(record_views(out@) =~= Seq::empty());
    while k < sources.len()
        invariant
            k <= sources.len(),
            record_views(out@) == deduplicated_upto(record_views(sources@), k as int),
        decreases sources.len() - k,
    {
        let item = &sources[k];
        assert(record_views(sources@)[k as int] == item@);
        let ghost before = record_views(out@);
        proof {
            lemma_position(before, item@.package, 0);
        }
        match find_package(&out, item.package.as_str()) {
            Some(i) => {
                assert(before[i as int] == out[i as int]@);
                let kept = choose_package(&out[i], item);
                out.set(i, kept);
                assert(record_views(out@) =~= before.update(i as int, chosen(before[i as int], item@)));
            },
            None => {
                out.push(item.clone());
                assert(record_views(out@) =~= before.push(item@));
            },
        }
        k += 1;
    }
    proof {
        lemma_deduplicated(record_views(sources@), sources.len() as int);
    }
    Ok(out)
}

} // verus!
