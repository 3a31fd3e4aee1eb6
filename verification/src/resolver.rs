//! The dependencies that an installation has to bring: those of the target
//! that are missing or old, theirs, and so on.

use crate::dpkg::{
    covers, distinct_names, entry_in, get_missing_or_old_dependencies, is_listed,
    lemma_unresolved, listed, needed, record_of, resolved_in, state_views,
    unresolved_of, unresolved_upto, PackageState,
};
use crate::error::Error;
use crate::source::{
    find_package, lemma_position, position, record_views, PackageRecord, SourcePackage,
};
use crate::text::string_views;
use vstd::prelude::*;

verus! {

/// The entry at `i` is a dependency, missing or old, of the target or of the
/// index record of an entry before it.
pub open spec fn justified(
    acc: Seq<(Seq<char>, PackageState)>,
    i: int,
    target: PackageRecord,
    index: Seq<PackageRecord>,
    installed: Seq<PackageRecord>,
) -> bool {
    entry_in(needed(target, installed), acc[i]) || exists|j: int|
        0 <= j < i && entry_in(needed(record_of(index, (#[trigger] acc[j]).0), installed), acc[i])
}

/// What holds of every list that the search builds: no name twice, none the
/// target's, each with a record in the index, each a dependency of the target
/// or of an entry before it.
pub open spec fn sound(
    acc: Seq<(Seq<char>, PackageState)>,
    target: PackageRecord,
    index: Seq<PackageRecord>,
    installed: Seq<PackageRecord>,
) -> bool {
    &&& distinct_names(acc)
    &&& forall|i: int|
        0 <= i < acc.len() ==> (#[trigger] acc[i]).0 != target.package && position(index, acc[i].0)
            >= 0
    &&& forall|i: int| 0 <= i < acc.len() ==> #[trigger] justified(acc, i, target, index, installed)
}

/// The list leaves nothing out: it covers the dependencies of the target and
/// those of the index record of each entry, and the index has a record for
/// each of them.
pub open spec fn complete(
    acc: Seq<(Seq<char>, PackageState)>,
    target: PackageRecord,
    index: Seq<PackageRecord>,
    installed: Seq<PackageRecord>,
) -> bool {
    &&& covers(acc, target.package, target, installed)
    &&& resolved_in(index, target, installed)
    &&& forall|i: int|
        0 <= i < acc.len() ==> done(acc, (#[trigger] acc[i]).0, target, index, installed)
}

/// The dependencies of the index record of `name` are covered and resolved.
pub open spec fn done(
    acc: Seq<(Seq<char>, PackageState)>,
    name: Seq<char>,
    target: PackageRecord,
    index: Seq<PackageRecord>,
    installed: Seq<PackageRecord>,
) -> bool {
    covers(acc, target.package, record_of(index, name), installed) && resolved_in(
        index,
        record_of(index, name),
        installed,
    )
}

/// `rec` asks for `name`: it has a dependency of that name that is
/// missing or old.
pub open spec fn asks_for(rec: PackageRecord, installed: Seq<PackageRecord>, name: Seq<char>) -> bool {
    exists|k: int|
        0 <= k < needed(rec, installed).len() && (#[trigger] needed(rec, installed)[k]).0 == name
}

/// A chain of names that leads from the target on: the target asks for the
/// first, and each name but the last is not the target's, has a record in
/// the index, and that record asks for the name after it.
pub open spec fn is_chain(
    chain: Seq<Seq<char>>,
    target: PackageRecord,
    index: Seq<PackageRecord>,
    installed: Seq<PackageRecord>,
) -> bool {
    &&& chain.len() >= 1
    &&& asks_for(target, installed, chain[0])
    &&& forall|i: int|
        0 <= i < chain.len() - 1 ==> {
            &&& (#[trigger] chain[i]) != target.package
            &&& position(index, chain[i]) >= 0
            &&& asks_for(record_of(index, chain[i]), installed, chain[i + 1])
        }
}

/// The search comes to `name`: a chain leads to it.
pub open spec fn reachable(
    name: Seq<char>,
    target: PackageRecord,
    index: Seq<PackageRecord>,
    installed: Seq<PackageRecord>,
) -> bool {
    exists|chain: Seq<Seq<char>>|
        #[trigger] is_chain(chain, target, index, installed) && chain.last() == name
}

/// `names` are the unresolved dependencies of the target, or of the index
/// record of a name that the search comes to, and there is one at least.
pub open spec fn failing(
    names: Seq<Seq<char>>,
    target: PackageRecord,
    index: Seq<PackageRecord>,
    installed: Seq<PackageRecord>,
) -> bool {
    names.len() > 0 && (names == unresolved_of(index, target, installed) || exists|n: Seq<char>|
        #[trigger] reachable(n, target, index, installed) && n != target.package && position(
            index,
            n,
        ) >= 0 && names == unresolved_of(index, record_of(index, n), installed))
}

/// The search comes to a name for which the index has no record.
pub open spec fn comes_to_unknown(
    target: PackageRecord,
    index: Seq<PackageRecord>,
    installed: Seq<PackageRecord>,
) -> bool {
    exists|name: Seq<char>|
        #[trigger] reachable(name, target, index, installed) && position(index, name) < 0
}

/// The search comes to each name of a sound list.
pub proof fn lemma_listed_reachable(
    acc: Seq<(Seq<char>, PackageState)>,
    i: int,
    target: PackageRecord,
    index: Seq<PackageRecord>,
    installed: Seq<PackageRecord>,
)
    requires
        sound(acc, target, index, installed),
        0 <= i < acc.len(),
    ensures
        reachable(acc[i].0, target, index, installed),
    decreases i,
{
    assert(justified(acc, i, target, index, installed));
    if entry_in(needed(target, installed), acc[i]) {
        let chain = seq![acc[i].0];
        assert(is_chain(chain, target, index, installed));
        assert(chain.last() == acc[i].0);
    } else {
        let j = choose|j: int|
            0 <= j < i && entry_in(needed(record_of(index, (#[trigger] acc[j]).0), installed), acc[i]);
        lemma_listed_reachable(acc, j, target, index, installed);
        let head = choose|chain: Seq<Seq<char>>|
            #[trigger] is_chain(chain, target, index, installed) && chain.last() == acc[j].0;
        let chain = head.push(acc[i].0);
        assert forall|m: int| 0 <= m < chain.len() - 1 implies {
            &&& (#[trigger] chain[m]) != target.package
            &&& position(index, chain[m]) >= 0
            &&& asks_for(record_of(index, chain[m]), installed, chain[m + 1])
        } by {
            if m < head.len() - 1 {
                assert(chain[m] == head[m]);
                assert(chain[m + 1] == head[m + 1]);
            } else {
                assert(chain[m] == acc[j].0);
                assert(chain[m + 1] == acc[i].0);
            }
        }
        assert(chain[0] == head[0]);
        assert(is_chain(chain, target, index, installed));
        assert(chain.last() == acc[i].0);
    }
}

/// A list that is complete has each name that the search comes to, but
/// for the target's own, and the index has a record for each.
pub proof fn lemma_chain_listed(
    chain: Seq<Seq<char>>,
    acc: Seq<(Seq<char>, PackageState)>,
    target: PackageRecord,
    index: Seq<PackageRecord>,
    installed: Seq<PackageRecord>,
)
    requires
        complete(acc, target, index, installed),
        is_chain(chain, target, index, installed),
    ensures
        chain.last() == target.package || listed(acc, chain.last()),
        position(index, chain.last()) >= 0,
    decreases chain.len(),
{
    if chain.len() > 1 {
        let head = chain.drop_last();
        assert forall|m: int| 0 <= m < head.len() - 1 implies {
            &&& (#[trigger] head[m]) != target.package
            &&& position(index, head[m]) >= 0
            &&& asks_for(record_of(index, head[m]), installed, head[m + 1])
        } by {
            assert(head[m] == chain[m]);
            assert(head[m + 1] == chain[m + 1]);
        }
        assert(head[0] == chain[0]);
        lemma_chain_listed(head, acc, target, index, installed);
        let before = chain[chain.len() - 2];
        assert(before == head.last());
        assert(before != target.package);
        let m = choose|m: int| 0 <= m < acc.len() && (#[trigger] acc[m]).0 == before;
        assert(done(acc, acc[m].0, target, index, installed));
        assert(asks_for(record_of(index, before), installed, chain[chain.len() - 1]));
    }
}

/// What a list that is sound and complete holds: the names that the
/// search comes to, but for the target's own.
pub proof fn lemma_resolved_exactly(
    name: Seq<char>,
    acc: Seq<(Seq<char>, PackageState)>,
    target: PackageRecord,
    index: Seq<PackageRecord>,
    installed: Seq<PackageRecord>,
)
    requires
        sound(acc, target, index, installed),
        complete(acc, target, index, installed),
    ensures
        listed(acc, name) <==> (reachable(name, target, index, installed) && name
            != target.package),
        reachable(name, target, index, installed) ==> position(index, name) >= 0,
{
    if listed(acc, name) {
        let i = choose|i: int| 0 <= i < acc.len() && (#[trigger] acc[i]).0 == name;
        lemma_listed_reachable(acc, i, target, index, installed);
    }
    if reachable(name, target, index, installed) {
        let chain = choose|chain: Seq<Seq<char>>|
            #[trigger] is_chain(chain, target, index, installed) && chain.last() == name;
        lemma_chain_listed(chain, acc, target, index, installed);
    }
}

/// Where a record that the search looks at has an unresolved dependency,
/// the search comes to a name for which the index has no record.
proof fn lemma_unknown_reached(
    rec: PackageRecord,
    target: PackageRecord,
    index: Seq<PackageRecord>,
    installed: Seq<PackageRecord>,
)
    requires
        unresolved_of(index, rec, installed).len() > 0,
        rec == target || exists|n: Seq<char>|
            #[trigger] reachable(n, target, index, installed) && n != target.package && position(
                index,
                n,
            ) >= 0 && rec == record_of(index, n),
    ensures
        comes_to_unknown(target, index, installed),
{
    let list = needed(rec, installed);
    lemma_unresolved(index, list, list.len() as int);
    let m = choose|m: int| 0 <= m < list.len() && position(index, (#[trigger] list[m]).0) < 0;
    let name = list[m].0;
    assert(asks_for(rec, installed, name));
    if rec == target {
        let chain = seq![name];
        assert(is_chain(chain, target, index, installed));
        assert(chain.last() == name);
    } else {
        let n = choose|n: Seq<char>|
            #[trigger] reachable(n, target, index, installed) && n != target.package && position(
                index,
                n,
            ) >= 0 && rec == record_of(index, n);
        let head = choose|chain: Seq<Seq<char>>|
            #[trigger] is_chain(chain, target, index, installed) && chain.last() == n;
        let chain = head.push(name);
        assert forall|i: int| 0 <= i < chain.len() - 1 implies {
            &&& (#[trigger] chain[i]) != target.package
            &&& position(index, chain[i]) >= 0
            &&& asks_for(record_of(index, chain[i]), installed, chain[i + 1])
        } by {
            if i < head.len() - 1 {
                assert(chain[i] == head[i]);
                assert(chain[i + 1] == head[i + 1]);
            } else {
                assert(chain[i] == n);
                assert(chain[i + 1] == name);
            }
        }
        assert(chain[0] == head[0]);
        assert(is_chain(chain, target, index, installed));
        assert(chain.last() == name);
    }
    assert(reachable(name, target, index, installed));
}

/// `acc` after the entries of `list` from index `k` on were added to it
/// that are new: not the target's name, and not yet in the list.
pub open spec fn with_fresh(
    acc: Seq<(Seq<char>, PackageState)>,
    target: Seq<char>,
    list: Seq<(Seq<char>, PackageState)>,
    k: int,
) -> Seq<(Seq<char>, PackageState)>
    decreases list.len() - k,
{
    if k < 0 || k >= list.len() {
        acc
    } else if list[k].0 != target && !listed(acc, list[k].0) {
        with_fresh(acc.push(list[k]), target, list, k + 1)
    } else {
        with_fresh(acc, target, list, k + 1)
    }
}

/// The names of `acc` from index `from` on, the last first: the order in
/// which they are put on the stack, so that the first is looked at first.
pub open spec fn pending(acc: Seq<(Seq<char>, PackageState)>, from: int) -> Seq<Seq<char>>
    decreases acc.len() - from,
{
    if from < 0 || from >= acc.len() {
        Seq::empty()
    } else {
        pending(acc, from + 1).push(acc[from].0)
    }
}

/// What the search gives from the list `acc` and the names `stack` that
/// are still to be looked at, the next of them last. It looks at the index
/// record of the next name: where that has an unresolved dependency, those
/// of that record are the result; else what it asks for and is new comes to
/// the list and on the stack. `steps` bounds the number of names looked at.
pub open spec fn search_from(
    acc: Seq<(Seq<char>, PackageState)>,
    stack: Seq<Seq<char>>,
    target: PackageRecord,
    index: Seq<PackageRecord>,
    installed: Seq<PackageRecord>,
    steps: nat,
) -> Result<Seq<(Seq<char>, PackageState)>, Seq<Seq<char>>>
    decreases steps,
{
    if stack.len() == 0 || steps == 0 {
        Ok(acc)
    } else {
        let rec = record_of(index, stack.last());
        let bad = unresolved_of(index, rec, installed);
        if bad.len() > 0 {
            Err(bad)
        } else {
            let next = with_fresh(acc, target.package, needed(rec, installed), 0);
            search_from(
                next,
                stack.drop_last() + pending(next, acc.len() as int),
                target,
                index,
                installed,
                (steps - 1) as nat,
            )
        }
    }
}

/// What the search for the dependencies of `target` gives: the list in the
/// order in which the names were found, or the unresolved dependencies of
/// the record at which it stopped. No name is looked at twice, so that the
/// length of the index bounds the steps.
pub open spec fn search(
    target: PackageRecord,
    index: Seq<PackageRecord>,
    installed: Seq<PackageRecord>,
) -> Result<Seq<(Seq<char>, PackageState)>, Seq<Seq<char>>> {
    let bad = unresolved_of(index, target, installed);
    if bad.len() > 0 {
        Err(bad)
    } else {
        let acc = with_fresh(Seq::empty(), target.package, needed(target, installed), 0);
        search_from(acc, pending(acc, 0), target, index, installed, index.len())
    }
}

spec fn extends(
    longer: Seq<(Seq<char>, PackageState)>,
    shorter: Seq<(Seq<char>, PackageState)>,
) -> bool {
    shorter.len() <= longer.len() && forall|k: int|
        0 <= k < shorter.len() ==> #[trigger] longer[k] == shorter[k]
}

spec fn on_stack(stack: Seq<Seq<char>>, name: Seq<char>) -> bool {
    exists|s: int| 0 <= s < stack.len() && #[trigger] stack[s] == name
}

spec fn stack_ok(stack: Seq<Seq<char>>, acc: Seq<(Seq<char>, PackageState)>) -> bool {
    forall|s: int| 0 <= s < stack.len() ==> listed(acc, #[trigger] stack[s])
}

/// The number of names among the first `p` index records that `acc` lacks.
spec fn open_count(index: Seq<PackageRecord>, acc: Seq<(Seq<char>, PackageState)>, p: int) -> nat
    decreases p,
{
    if p <= 0 {
        0
    } else {
        open_count(index, acc, p - 1) + if position(index, index[p - 1].package) == p - 1
            && !listed(acc, index[p - 1].package) {
            1nat
        } else {
            0nat
        }
    }
}

proof fn lemma_open_count_bound(index: Seq<PackageRecord>, acc: Seq<(Seq<char>, PackageState)>, p: int)
    requires
        0 <= p,
    ensures
        open_count(index, acc, p) <= p,
    decreases p,
{
    if p > 0 {
        lemma_open_count_bound(index, acc, p - 1);
    }
}

proof fn lemma_listed_push(
    acc: Seq<(Seq<char>, PackageState)>,
    e: (Seq<char>, PackageState),
    name: Seq<char>,
)
    ensures
        listed(acc.push(e), name) <==> (listed(acc, name) || e.0 == name),
{
    let next = acc.push(e);
    if listed(acc, name) {
        let k = choose|k: int| 0 <= k < acc.len() && (#[trigger] acc[k]).0 == name;
        assert(next[k].0 == name);
    }
    if e.0 == name {
        assert(next[acc.len() as int].0 == name);
    }
    if listed(next, name) {
        let k = choose|k: int| 0 <= k < next.len() && (#[trigger] next[k]).0 == name;
        if k < acc.len() {
            assert(acc[k].0 == name);
        }
    }
}

proof fn lemma_open_count_push(
    index: Seq<PackageRecord>,
    acc: Seq<(Seq<char>, PackageState)>,
    e: (Seq<char>, PackageState),
    p: int,
)
    requires
        0 <= p <= index.len(),
        !listed(acc, e.0),
        position(index, e.0) >= 0,
    ensures
        open_count(index, acc.push(e), p) + (if position(index, e.0) < p {
            1nat
        } else {
            0nat
        }) == open_count(index, acc, p),
    decreases p,
{
    if p > 0 {
        lemma_open_count_push(index, acc, e, p - 1);
        let name = index[p - 1].package;
        lemma_listed_push(acc, e, name);
        lemma_position(index, e.0, 0);
        lemma_position(index, name, 0);
    }
}

proof fn lemma_listed_extends(
    longer: Seq<(Seq<char>, PackageState)>,
    shorter: Seq<(Seq<char>, PackageState)>,
    name: Seq<char>,
)
    requires
        extends(longer, shorter),
        listed(shorter, name),
    ensures
        listed(longer, name),
{
    let m = choose|m: int| 0 <= m < shorter.len() && (#[trigger] shorter[m]).0 == name;
    assert(longer[m].0 == name);
}

proof fn lemma_covers_extends(
    longer: Seq<(Seq<char>, PackageState)>,
    shorter: Seq<(Seq<char>, PackageState)>,
    target: Seq<char>,
    rec: PackageRecord,
    installed: Seq<PackageRecord>,
)
    requires
        extends(longer, shorter),
        covers(shorter, target, rec, installed),
    ensures
        covers(longer, target, rec, installed),
{
    let list = needed(rec, installed);
    assert forall|k: int| 0 <= k < list.len() implies (#[trigger] list[k]).0 == target || listed(
        longer,
        list[k].0,
    ) by {
        if list[k].0 != target {
            lemma_listed_extends(longer, shorter, list[k].0);
        }
    }
}

proof fn lemma_sound_push(
    acc: Seq<(Seq<char>, PackageState)>,
    e: (Seq<char>, PackageState),
    rec: PackageRecord,
    target: PackageRecord,
    index: Seq<PackageRecord>,
    installed: Seq<PackageRecord>,
)
    requires
        sound(acc, target, index, installed),
        !listed(acc, e.0),
        e.0 != target.package,
        position(index, e.0) >= 0,
        entry_in(needed(rec, installed), e),
        rec == target || exists|j: int|
            0 <= j < acc.len() && rec == record_of(index, (#[trigger] acc[j]).0),
    ensures
        sound(acc.push(e), target, index, installed),
{
    let next = acc.push(e);
    let n = acc.len() as int;
    assert forall|i: int, j: int| 0 <= i < j < next.len() implies (#[trigger] next[i]).0 != (
    #[trigger] next[j]).0 by {
        if j == n {
            assert(acc[i].0 == next[i].0);
        }
    }
    assert forall|i: int| 0 <= i < next.len() implies #[trigger] justified(
        next,
        i,
        target,
        index,
        installed,
    ) by {
        if i < n {
            assert(justified(acc, i, target, index, installed));
            if !entry_in(needed(target, installed), acc[i]) {
                let j = choose|j: int|
                    0 <= j < i && entry_in(
                        needed(record_of(index, (#[trigger] acc[j]).0), installed),
                        acc[i],
                    );
                assert(next[j] == acc[j]);
            }
        } else {
            if rec != target {
                let j = choose|j: int|
                    0 <= j < acc.len() && rec == record_of(index, (#[trigger] acc[j]).0);
                assert(next[j] == acc[j]);
            }
        }
    }
}

/// The names of `list` for which the index has no record.
fn unresolved_names(list: &Vec<(String, PackageState)>, index: &Vec<SourcePackage>) -> (r: Vec<
    String,
>)
    ensures
        string_views(r@) == unresolved_upto(
            record_views(index@),
            state_views(list@),
            list.len() as int,
        ),
{
    let mut missing: Vec<String> = Vec::new();
    let mut k: usize = 0;
    assert(string_views(missing@) =~= Seq::empty());
    while k < list.len()
        invariant
            k <= list.len(),
            string_views(missing@) == unresolved_upto(
                record_views(index@),
                state_views(list@),
                k as int,
            ),
        decreases list.len() - k,
    {
        assert(state_views(list@)[k as int].0 == list[k as int].0@);
        if find_package(index, list[k].0.as_str()).is_none() {
            let ghost before = string_views(missing@);
            missing.push(list[k].0.clone());
            assert(string_views(missing@) =~= before.push(list[k as int].0@));
        }
        k += 1;
    }
    missing
}

/// Looks at `rec`: adds to `acc` its dependencies that are missing or old
/// and new, and puts their names on `stack`, the first of them on top.
fn expand(
    rec: &SourcePackage,
    target: &SourcePackage,
    index: &Vec<SourcePackage>,
    installed: &Vec<SourcePackage>,
    acc: &mut Vec<(String, PackageState)>,
    stack: &mut Vec<String>,
) -> (r: Result<(), Error>)
    requires
        sound(state_views(old(acc)@), target@, record_views(index@), record_views(installed@)),
        stack_ok(string_views(old(stack)@), state_views(old(acc)@)),
        rec@ == target@ || exists|j: int|
            0 <= j < old(acc).len() && rec@ == record_of(
                record_views(index@),
                (#[trigger] state_views(old(acc)@)[j]).0,
            ),
    ensures
        match r {
            Ok(()) => {
                &&& unresolved_of(record_views(index@), rec@, record_views(installed@)).len() == 0
                &&& state_views(final(acc)@) == with_fresh(
                    state_views(old(acc)@),
                    target@.package,
                    needed(rec@, record_views(installed@)),
                    0,
                )
                &&& string_views(final(stack)@) == string_views(old(stack)@) + pending(
                    state_views(final(acc)@),
                    old(acc).len() as int,
                )
                &&& sound(
                    state_views(final(acc)@),
                    target@,
                    record_views(index@),
                    record_views(installed@),
                )
                &&& extends(state_views(final(acc)@), state_views(old(acc)@))
                &&& stack_ok(string_views(final(stack)@), state_views(final(acc)@))
                &&& covers(
                    state_views(final(acc)@),
                    target@.package,
                    rec@,
                    record_views(installed@),
                )
                &&& resolved_in(record_views(index@), rec@, record_views(installed@))
                &&& forall|i: int|
                    old(acc).len() <= i < final(acc).len() ==> on_stack(
                        string_views(final(stack)@),
                        (#[trigger] state_views(final(acc)@)[i]).0,
                    )
                &&& open_count(
                    record_views(index@),
                    state_views(final(acc)@),
                    index.len() as int,
                ) + final(stack)@.len() == open_count(
                    record_views(index@),
                    state_views(old(acc)@),
                    index.len() as int,
                ) + old(stack)@.len()
            },
            Err(e) => {
                &&& e.is_unresolved(
                    unresolved_of(record_views(index@), rec@, record_views(installed@)),
                )
                &&& unresolved_of(record_views(index@), rec@, record_views(installed@)).len() > 0
            },
        },
{
    let ghost idx = record_views(index@);
    let ghost inst = record_views(installed@);
    let ghost acc0 = state_views(acc@);
    let ghost stack0 = string_views(stack@);
    let list = get_missing_or_old_dependencies(rec, installed);
    let ghost wanted = state_views(list@);
    let missing = unresolved_names(&list, index);
    assert(string_views(missing@).len() == missing.len());
    if missing.len() > 0 {
        return Err(Error::UnresolvedDependencies(missing));
    }
    proof {
        lemma_unresolved(idx, wanted, wanted.len() as int);
    }
    let start = acc.len();
    let mut k: usize = 0;
    while k < list.len()
        invariant
            k <= list.len(),
            idx == record_views(index@),
            inst == record_views(installed@),
            wanted == state_views(list@),
            wanted == needed(rec@, inst),
            start == acc0.len(),
            forall|m: int| 0 <= m < wanted.len() ==> position(idx, (#[trigger] wanted[m]).0) >= 0,
            sound(state_views(acc@), target@, idx, inst),
            extends(state_views(acc@), acc0),
            rec@ == target@ || exists|j: int|
                0 <= j < acc0.len() && rec@ == record_of(idx, (#[trigger] acc0[j]).0),
            with_fresh(acc0, target@.package, wanted, 0) == with_fresh(
                state_views(acc@),
                target@.package,
                wanted,
                k as int,
            ),
            forall|m: int|
                0 <= m < k ==> (#[trigger] wanted[m]).0 == target@.package || listed(
                    state_views(acc@),
                    wanted[m].0,
                ),
            open_count(idx, state_views(acc@), index.len() as int) + (acc.len() - start)
                == open_count(idx, acc0, index.len() as int),
        decreases list.len() - k,
    {
        let name = &list[k].0;
        let state = list[k].1;
        assert(wanted[k as int] == (name@, state));
        if !crate::text::same_text(name.as_str(), target.package.as_str()) && !is_listed(
            acc,
            name.as_str(),
        ) {
            let ghost before = state_views(acc@);
            let ghost e = (name@, state);
            proof {
                assert(entry_in(needed(rec@, inst), e));
                if rec@ != target@ {
                    let j = choose|j: int|
                        0 <= j < acc0.len() && rec@ == record_of(idx, (#[trigger] acc0[j]).0);
                    assert(before[j] == acc0[j]);
                }
                lemma_sound_push(before, e, rec@, target@, idx, inst);
                lemma_open_count_push(idx, before, e, index.len() as int);
                lemma_position(idx, e.0, 0);
                assert forall|m: int| 0 <= m <= k implies (#[trigger] wanted[m]).0
                    == target@.package || listed(before.push(e), wanted[m].0) by {
                    lemma_listed_push(before, e, wanted[m].0);
                }
            }
            acc.push((name.clone(), state));
            assert(state_views(acc@) =~= before.push(e));
        }
        k += 1;
    }
    assert(covers(state_views(acc@), target@.package, rec@, inst));
    assert(resolved_in(idx, rec@, inst));
    let ghost acc1 = state_views(acc@);
    assert forall|s: int| 0 <= s < stack0.len() implies listed(acc1, #[trigger] stack0[s]) by {
        lemma_listed_extends(acc1, acc0, stack0[s]);
    }
    let mut t: usize = acc.len();
    assert(stack0 + pending(acc1, t as int) =~= stack0);
    while t > start
        invariant
            start <= t <= acc.len(),
            acc1 == state_views(acc@),
            start == acc0.len(),
            string_views(stack@) == stack0 + pending(acc1, t as int),
            stack@.len() == stack0.len() + (acc.len() - t),
            forall|u: int| t <= u < acc.len() ==> on_stack(string_views(stack@), (#[trigger] acc1[u]).0),
            stack_ok(string_views(stack@), acc1),
        decreases t,
    {
        t -= 1;
        let ghost before = string_views(stack@);
        assert(acc1[t as int].0 == acc[t as int].0@);
        stack.push(acc[t].0.clone());
        let ghost after = string_views(stack@);
        assert(after =~= before.push(acc1[t as int].0));
        assert(after =~= stack0 + pending(acc1, t as int));
        assert(after[before.len() as int] == acc1[t as int].0);
        assert forall|u: int| t <= u < acc.len() implies on_stack(after, (#[trigger] acc1[u]).0) by {
            if u > t {
                let s = choose|s: int| 0 <= s < before.len() && #[trigger] before[s] == acc1[u].0;
                assert(after[s] == before[s]);
            }
        }
        assert forall|s: int| 0 <= s < after.len() implies listed(acc1, #[trigger] after[s]) by {
            if s < before.len() {
                assert(after[s] == before[s]);
            }
        }
    }
    Ok(())
}

/// What a result stands for: the list, or the names that are unresolved.
pub open spec fn outcome(r: Result<Vec<(String, PackageState)>, Error>) -> Result<
    Seq<(Seq<char>, PackageState)>,
    Seq<Seq<char>>,
> {
    match r {
        Ok(list) => Ok(state_views(list@)),
        Err(Error::UnresolvedDependencies(names)) => Err(string_views(names@)),
        Err(_) => Err(Seq::empty()),
    }
}

/// Finds what has to be brought in to install `package`: its dependencies
/// that are missing or old, those of their index records, and so on. The
/// list holds the names that the search comes to, each once and the
/// package's own name never, in the order in which they were found. The
/// search fails if and only if it comes to a name for which the index has no
/// record: the error names each such dependency of the record at which the
/// search stopped.
pub fn get_missing_or_old_dependencies_recursive(
    package: &SourcePackage,
    index: &Vec<SourcePackage>,
    installed: &Vec<SourcePackage>,
) -> (r: Result<Vec<(String, PackageState)>, Error>)
    ensures
        outcome(r) == search(package@, record_views(index@), record_views(installed@)),
        match r {
            Ok(list) => {
                &&& sound(
                    state_views(list@),
                    package@,
                    record_views(index@),
                    record_views(installed@),
                )
                &&& complete(
                    state_views(list@),
                    package@,
                    record_views(index@),
                    record_views(installed@),
                )
            },
            Err(Error::UnresolvedDependencies(names)) => failing(
                string_views(names@),
                package@,
                record_views(index@),
                record_views(installed@),
            ),
            Err(_) => false,
        },
        r is Err <==> comes_to_unknown(package@, record_views(index@), record_views(installed@)),
        r is Ok ==> forall|name: Seq<char>|
            #[trigger] listed(state_views(r->Ok_0@), name) <==> (reachable(
                name,
                package@,
                record_views(index@),
                record_views(installed@),
            ) && name != package@.package),
{
    let ghost idx = record_views(index@);
    let ghost inst = record_views(installed@);
    let mut acc: Vec<(String, PackageState)> = Vec::new();
    let mut stack: Vec<String> = Vec::new();
    assert(state_views(acc@) =~= Seq::empty());
    assert(string_views(stack@) =~= Seq::empty());
    match expand(package, package, index, installed, &mut acc, &mut stack) {
        Ok(()) => {},
        Err(e) => {
            proof {
                lemma_unknown_reached(package@, package@, idx, inst);
            }
            return Err(e);
        },
    }
    let ghost steps: nat = index.len() as nat;
    proof {
        lemma_open_count_bound(idx, Seq::empty(), index.len() as int);
        assert(Seq::<Seq<char>>::empty() + pending(state_views(acc@), 0) =~= pending(
            state_views(acc@),
            0,
        ));
    }
    while stack.len() > 0
        invariant
            idx == record_views(index@),
            inst == record_views(installed@),
            sound(state_views(acc@), package@, idx, inst),
            stack_ok(string_views(stack@), state_views(acc@)),
            covers(state_views(acc@), package@.package, package@, inst),
            resolved_in(idx, package@, inst),
            forall|i: int|
                0 <= i < acc.len() ==> on_stack(
                    string_views(stack@),
                    (#[trigger] state_views(acc@)[i]).0,
                ) || done(state_views(acc@), state_views(acc@)[i].0, package@, idx, inst),
            search(package@, idx, inst) == search_from(
                state_views(acc@),
                string_views(stack@),
                package@,
                idx,
                inst,
                steps,
            ),
            steps >= open_count(idx, state_views(acc@), index.len() as int) + stack.len(),
        decreases open_count(idx, state_views(acc@), index.len() as int) + stack.len(),
    {
        let ghost acc0 = state_views(acc@);
        let ghost stack0 = string_views(stack@);
        let name = stack.pop().unwrap();
        let ghost stack1 = string_views(stack@);
        assert(stack0.last() == name@);
        assert(stack1 =~= stack0.drop_last());
        proof {
            lemma_position(idx, name@, 0);
            let j = choose|j: int| 0 <= j < acc0.len() && (#[trigger] acc0[j]).0 == name@;
            lemma_listed_reachable(acc0, j, package@, idx, inst);
            assert(reachable(acc0[j].0, package@, idx, inst) && acc0[j].0 != package@.package
                && position(idx, acc0[j].0) >= 0);
            assert forall|s: int| 0 <= s < stack1.len() implies listed(acc0, #[trigger] stack1[s]) by {
                assert(stack1[s] == stack0[s]);
            }
        }
        let p = find_package(index, name.as_str()).unwrap();
        assert(record_views(index@)[p as int] == index[p as int]@);
        assert(index[p as int]@ == record_of(idx, name@));
        match expand(&index[p], package, index, installed, &mut acc, &mut stack) {
            Ok(()) => {},
            Err(e) => {
                proof {
                    lemma_unknown_reached(index[p as int]@, package@, idx, inst);
                }
                return Err(e);
            },
        }
        proof {
            let acc1 = state_views(acc@);
            steps = (steps - 1) as nat;
            lemma_covers_extends(acc1, acc0, package@.package, package@, inst);
            assert forall|i: int| 0 <= i < acc1.len() implies on_stack(
                string_views(stack@),
                (#[trigger] acc1[i]).0,
            ) || done(acc1, acc1[i].0, package@, idx, inst) by {
                if i < acc0.len() {
                    assert(acc1[i] == acc0[i]);
                    if on_stack(stack0, acc0[i].0) {
                        let s = choose|s: int|
                            0 <= s < stack0.len() && #[trigger] stack0[s] == acc0[i].0;
                        if s == stack0.len() - 1 {
                            assert(record_of(idx, acc1[i].0) == index[p as int]@);
                        } else {
                            assert(stack1[s] == stack0[s]);
                            assert(string_views(stack@)[s] == stack1[s]);
                        }
                    } else {
                        assert(done(acc0, acc0[i].0, package@, idx, inst));
                        lemma_covers_extends(
                            acc1,
                            acc0,
                            package@.package,
                            record_of(idx, acc0[i].0),
                            inst,
                        );
                    }
                }
            }
        }
    }
    proof {
        let list = state_views(acc@);
        assert forall|i: int| 0 <= i < list.len() implies done(
            list,
            (#[trigger] list[i]).0,
            package@,
            idx,
            inst,
        ) by {
            if on_stack(string_views(stack@), list[i].0) {
            }
        }
        assert(complete(list, package@, idx, inst));
        assert forall|name: Seq<char>| #[trigger]
            listed(list, name) <==> (reachable(name, package@, idx, inst) && name
                != package@.package) by {
            lemma_resolved_exactly(name, list, package@, idx, inst);
        }
        assert(!comes_to_unknown(package@, idx, inst)) by {
            if comes_to_unknown(package@, idx, inst) {
                let name = choose|name: Seq<char>|
                    #[trigger] reachable(name, package@, idx, inst) && position(idx, name) < 0;
                lemma_resolved_exactly(name, list, package@, idx, inst);
            }
        }
    }
    Ok(acc)
}

} // verus!
