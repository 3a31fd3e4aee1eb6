//! The comparison of versions is a total preorder: these are its laws.

use crate::version::{
    after_epoch, char_at, char_weight, compare_epoch, compare_pair, compare_runs, compare_text,
    compare_upstream, compare_version, digits_value, epoch_of, longer, pair_at, revision_of,
    revision_text, runs, sign, upstream_of,
};
use crate::text::is_ascii_letter;
use vstd::prelude::*;

verus! {

proof fn lemma_text_step(a: Seq<char>, b: Seq<char>, i: int)
    requires
        i >= 0,
    ensures
        compare_text(a, b, i) == (if sign(char_weight(char_at(a, i)), char_weight(char_at(b, i)))
            != 0 {
            sign(char_weight(char_at(a, i)), char_weight(char_at(b, i)))
        } else {
            compare_text(a, b, i + 1)
        }),
{
}

proof fn lemma_text_same(a: Seq<char>, i: int)
    requires
        i >= 0,
    ensures
        compare_text(a, a, i) == 0,
    decreases a.len() - i,
{
    if i < a.len() {
        lemma_text_same(a, i + 1);
    }
}

proof fn lemma_text_swap(a: Seq<char>, b: Seq<char>, i: int)
    requires
        i >= 0,
    ensures
        compare_text(a, b, i) == -compare_text(b, a, i),
    decreases longer(a.len() as int, b.len() as int) - i,
{
    if i < a.len() || i < b.len() {
        lemma_text_swap(a, b, i + 1);
    }
}

proof fn lemma_text_chain(a: Seq<char>, b: Seq<char>, c: Seq<char>, i: int)
    requires
        i >= 0,
        compare_text(a, b, i) >= 0,
        compare_text(b, c, i) >= 0,
    ensures
        compare_text(a, c, i) >= 0,
        compare_text(a, c, i) == 0 ==> compare_text(a, b, i) == 0 && compare_text(b, c, i) == 0,
    decreases longer(longer(a.len() as int, b.len() as int), c.len() as int) - i,
{
    if i < a.len() || i < b.len() || i < c.len() {
        lemma_text_step(a, b, i);
        lemma_text_step(b, c, i);
        lemma_text_step(a, c, i);
        let wa = char_weight(char_at(a, i));
        let wb = char_weight(char_at(b, i));
        let wc = char_weight(char_at(c, i));
        if wa == wb && wb == wc {
            lemma_text_chain(a, b, c, i + 1);
        }
    }
}

proof fn lemma_pair_same(p: (Seq<char>, Seq<char>))
    ensures
        compare_pair(p, p) == 0,
{
    lemma_text_same(p.1, 0);
}

proof fn lemma_pair_swap(p: (Seq<char>, Seq<char>), q: (Seq<char>, Seq<char>))
    ensures
        compare_pair(p, q) == -compare_pair(q, p),
{
    lemma_text_swap(p.1, q.1, 0);
}

proof fn lemma_pair_chain(
    p: (Seq<char>, Seq<char>),
    q: (Seq<char>, Seq<char>),
    r: (Seq<char>, Seq<char>),
)
    requires
        compare_pair(p, q) >= 0,
        compare_pair(q, r) >= 0,
    ensures
        compare_pair(p, r) >= 0,
        compare_pair(p, r) == 0 ==> compare_pair(p, q) == 0 && compare_pair(q, r) == 0,
{
    let x = digits_value(p.0);
    let y = digits_value(q.0);
    let z = digits_value(r.0);
    if x == y && y == z {
        lemma_text_chain(p.1, q.1, r.1, 0);
    }
}

proof fn lemma_runs_step(a: Seq<(Seq<char>, Seq<char>)>, b: Seq<(Seq<char>, Seq<char>)>, i: int)
    requires
        i >= 0,
    ensures
        compare_runs(a, b, i) == (if compare_pair(pair_at(a, i), pair_at(b, i)) != 0 {
            compare_pair(pair_at(a, i), pair_at(b, i))
        } else {
            compare_runs(a, b, i + 1)
        }),
{
    if i >= a.len() && i >= b.len() {
        lemma_pair_same(pair_at(a, i));
    }
}

proof fn lemma_runs_same(a: Seq<(Seq<char>, Seq<char>)>, i: int)
    requires
        i >= 0,
    ensures
        compare_runs(a, a, i) == 0,
    decreases a.len() - i,
{
    if i < a.len() {
        lemma_pair_same(a[i]);
        lemma_runs_same(a, i + 1);
    }
}

proof fn lemma_runs_swap(a: Seq<(Seq<char>, Seq<char>)>, b: Seq<(Seq<char>, Seq<char>)>, i: int)
    requires
        i >= 0,
    ensures
        compare_runs(a, b, i) == -compare_runs(b, a, i),
    decreases longer(a.len() as int, b.len() as int) - i,
{
    if i < a.len() || i < b.len() {
        lemma_pair_swap(pair_at(a, i), pair_at(b, i));
        lemma_runs_swap(a, b, i + 1);
    }
}

proof fn lemma_runs_chain(
    a: Seq<(Seq<char>, Seq<char>)>,
    b: Seq<(Seq<char>, Seq<char>)>,
    c: Seq<(Seq<char>, Seq<char>)>,
    i: int,
)
    requires
        i >= 0,
        compare_runs(a, b, i) >= 0,
        compare_runs(b, c, i) >= 0,
    ensures
        compare_runs(a, c, i) >= 0,
        compare_runs(a, c, i) == 0 ==> compare_runs(a, b, i) == 0 && compare_runs(b, c, i) == 0,
    decreases longer(longer(a.len() as int, b.len() as int), c.len() as int) - i,
{
    if i < a.len() || i < b.len() || i < c.len() {
        lemma_runs_step(a, b, i);
        lemma_runs_step(b, c, i);
        lemma_runs_step(a, c, i);
        let p = pair_at(a, i);
        let q = pair_at(b, i);
        let r = pair_at(c, i);
        lemma_pair_swap(p, q);
        lemma_pair_swap(q, r);
        if compare_pair(p, q) >= 0 && compare_pair(q, r) >= 0 {
            lemma_pair_chain(p, q, r);
            if compare_pair(p, q) == 0 && compare_pair(q, r) == 0 {
                lemma_runs_chain(a, b, c, i + 1);
            }
        }
    }
}

/// The weights of the characters of a non-digit run: a tilde is below the
/// end of the run, that below each ASCII letter, and each letter below any
/// other character.
pub proof fn lemma_weight_order(letter: char, other: char)
    requires
        is_ascii_letter(letter),
        !is_ascii_letter(other),
        other != '~',
    ensures
        char_weight(Some('~')) < char_weight(None) < char_weight(Some(letter)) < char_weight(
            Some(other),
        ),
{
}

/// An upstream version ranks equal to itself.
pub proof fn lemma_upstream_reflexive(a: Seq<char>)
    ensures
        compare_upstream(a, a) == 0,
{
    lemma_runs_same(runs(a), 0);
}

/// Swapping the two sides of a comparison of upstream versions turns its
/// result round.
pub proof fn lemma_upstream_antisymmetric(a: Seq<char>, b: Seq<char>)
    ensures
        compare_upstream(a, b) == -compare_upstream(b, a),
{
    lemma_runs_swap(runs(a), runs(b), 0);
}

/// Where `a` is not below `b` and `b` not below `c`, `a` is not below `c`,
/// and ranks equal to it only where all three rank equal.
pub proof fn lemma_upstream_transitive(a: Seq<char>, b: Seq<char>, c: Seq<char>)
    requires
        compare_upstream(a, b) >= 0,
        compare_upstream(b, c) >= 0,
    ensures
        compare_upstream(a, c) >= 0,
        compare_upstream(a, c) == 0 ==> compare_upstream(a, b) == 0 && compare_upstream(b, c)
            == 0,
{
    lemma_runs_chain(runs(a), runs(b), runs(c), 0);
}

/// The result of a comparison is -1, 0 or 1.
pub proof fn lemma_version_range(a: Seq<char>, b: Seq<char>)
    ensures
        -1 <= compare_version(a, b) <= 1,
{
    lemma_upstream_range(upstream_of(after_epoch(a)), upstream_of(after_epoch(b)));
    lemma_upstream_range(
        revision_text(revision_of(after_epoch(a))),
        revision_text(revision_of(after_epoch(b))),
    );
}

proof fn lemma_text_range(a: Seq<char>, b: Seq<char>, i: int)
    ensures
        -1 <= compare_text(a, b, i) <= 1,
    decreases longer(a.len() as int, b.len() as int) - i,
{
    if i >= 0 && (i < a.len() || i < b.len()) {
        lemma_text_range(a, b, i + 1);
    }
}

proof fn lemma_runs_range(a: Seq<(Seq<char>, Seq<char>)>, b: Seq<(Seq<char>, Seq<char>)>, i: int)
    ensures
        -1 <= compare_runs(a, b, i) <= 1,
    decreases longer(a.len() as int, b.len() as int) - i,
{
    if i >= 0 && (i < a.len() || i < b.len()) {
        lemma_text_range(pair_at(a, i).1, pair_at(b, i).1, 0);
        lemma_runs_range(a, b, i + 1);
    }
}

/// The result of a comparison of upstream versions is -1, 0 or 1.
pub proof fn lemma_upstream_range(a: Seq<char>, b: Seq<char>)
    ensures
        -1 <= compare_upstream(a, b) <= 1,
{
    lemma_runs_range(runs(a), runs(b), 0);
}

/// A version ranks equal to itself.
pub proof fn lemma_version_reflexive(a: Seq<char>)
    ensures
        compare_version(a, a) == 0,
{
    lemma_upstream_reflexive(upstream_of(after_epoch(a)));
    lemma_upstream_reflexive(revision_text(revision_of(after_epoch(a))));
}

/// Swapping the two sides of a comparison turns its result round.
pub proof fn lemma_version_antisymmetric(a: Seq<char>, b: Seq<char>)
    ensures
        compare_version(a, b) == -compare_version(b, a),
{
    lemma_upstream_antisymmetric(upstream_of(after_epoch(a)), upstream_of(after_epoch(b)));
    lemma_upstream_antisymmetric(
        revision_text(revision_of(after_epoch(a))),
        revision_text(revision_of(after_epoch(b))),
    );
}

/// Where `a` is not older than `b` and `b` not older than `c`, `a` is not
/// older than `c`, and ranks equal to it only where all three rank equal.
pub proof fn lemma_version_transitive(a: Seq<char>, b: Seq<char>, c: Seq<char>)
    requires
        compare_version(a, b) >= 0,
        compare_version(b, c) >= 0,
    ensures
        compare_version(a, c) >= 0,
        compare_version(a, c) == 0 ==> compare_version(a, b) == 0 && compare_version(b, c) == 0,
{
    let ua = upstream_of(after_epoch(a));
    let ub = upstream_of(after_epoch(b));
    let uc = upstream_of(after_epoch(c));
    let ra = revision_text(revision_of(after_epoch(a)));
    let rb = revision_text(revision_of(after_epoch(b)));
    let rc = revision_text(revision_of(after_epoch(c)));
    let eab = compare_epoch(epoch_of(a), epoch_of(b));
    let ebc = compare_epoch(epoch_of(b), epoch_of(c));
    if eab == 0 && ebc == 0 {
        if compare_upstream(ua, ub) >= 0 && compare_upstream(ub, uc) >= 0 {
            lemma_upstream_transitive(ua, ub, uc);
            if compare_upstream(ua, ub) == 0 && compare_upstream(ub, uc) == 0 {
                lemma_upstream_transitive(ra, rb, rc);
            }
        }
    }
}

} // verus!
