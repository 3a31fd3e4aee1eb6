//! The ordering of version strings of the form `[epoch:]upstream[-revision]`.

use crate::text::{
    chars_of, find_from, find_last, first_match, is_ascii_letter, is_digit, is_digit_char,
    last_match, lemma_first_match, lemma_last_match, matches_at, slice_of, string_of,
};
use crate::depends::text_of;
use vstd::prelude::*;

verus! {

/// -1, 0 or 1 as `x` is below, equal to or above `y`.
pub open spec fn sign(x: int, y: int) -> int {
    if x > y {
        1
    } else if x < y {
        -1
    } else {
        0
    }
}

/// The weight of a character of a non-digit run; `None` stands for the end
/// of the run. A tilde weighs least, then the end of the run, then the ASCII
/// letters in their alphabetic order, then every other character.
pub open spec fn char_weight(c: Option<char>) -> int {
    match c {
        None => -0xFF,
        Some(c) => if c == '~' {
            -0x100
        } else if is_ascii_letter(c) {
            c as int
        } else {
            c as int + 0x100
        },
    }
}

/// Each character is a decimal digit.
pub open spec fn all_digits(s: Seq<char>) -> bool {
    forall|i: int| 0 <= i < s.len() ==> is_digit(#[trigger] s[i])
}

/// The number that a run of decimal digits writes; 0 for the empty run.
pub open spec fn digits_value(s: Seq<char>) -> int
    decreases s.len(),
{
    if s.len() == 0 {
        0
    } else {
        digits_value(s.drop_last()) * 10 + (s.last() as int - '0' as int)
    }
}

/// The end of the run of digits that starts at `from`.
pub open spec fn digits_end(s: Seq<char>, from: int) -> int
    decreases s.len() - from,
{
    if 0 <= from < s.len() && is_digit(s[from]) {
        digits_end(s, from + 1)
    } else {
        from
    }
}

/// The end of the run of non-digits that starts at `from`.
pub open spec fn text_end(s: Seq<char>, from: int) -> int
    decreases s.len() - from,
{
    if 0 <= from < s.len() && !is_digit(s[from]) {
        text_end(s, from + 1)
    } else {
        from
    }
}

/// The pairs of a digit run and the non-digit run that follows it, from
/// index `from` on.
pub open spec fn runs_from(s: Seq<char>, from: int) -> Seq<(Seq<char>, Seq<char>)>
    decreases s.len() - from,
{
    let d = digits_end(s, from);
    let n = text_end(s, d);
    if from < 0 || from >= s.len() || n <= from || n > s.len() {
        Seq::empty()
    } else {
        seq![(s.subrange(from, d), s.subrange(d, n))] + runs_from(s, n)
    }
}

/// `s` as alternating runs: each pair holds a run of digits, empty only at
/// the very start, and the run of other characters after it, empty only at
/// the very end.
pub open spec fn runs(s: Seq<char>) -> Seq<(Seq<char>, Seq<char>)> {
    runs_from(s, 0)
}

/// The character at `i`, or the end of the run.
pub open spec fn char_at(s: Seq<char>, i: int) -> Option<char> {
    if 0 <= i < s.len() {
        Some(s[i])
    } else {
        None
    }
}

/// The greater of two lengths.
pub open spec fn longer(a: int, b: int) -> int {
    if a > b {
        a
    } else {
        b
    }
}

/// Two non-digit runs compared from index `i` on, character by character,
/// the shorter one continued by ends of run.
pub open spec fn compare_text(a: Seq<char>, b: Seq<char>, i: int) -> int
    decreases longer(a.len() as int, b.len() as int) - i,
{
    if i < 0 || (i >= a.len() && i >= b.len()) {
        0
    } else {
        let s = sign(char_weight(char_at(a, i)), char_weight(char_at(b, i)));
        if s != 0 {
            s
        } else {
            compare_text(a, b, i + 1)
        }
    }
}

/// The digit runs by their numbers first, then the non-digit runs.
pub open spec fn compare_pair(p: (Seq<char>, Seq<char>), q: (Seq<char>, Seq<char>)) -> int {
    let s = sign(digits_value(p.0), digits_value(q.0));
    if s != 0 {
        s
    } else {
        compare_text(p.1, q.1, 0)
    }
}

/// The pair at `i`, or an empty one after the last.
pub open spec fn pair_at(a: Seq<(Seq<char>, Seq<char>)>, i: int) -> (Seq<char>, Seq<char>) {
    if 0 <= i < a.len() {
        a[i]
    } else {
        (Seq::empty(), Seq::empty())
    }
}

/// Two lists of runs compared pair by pair from index `i` on, the shorter
/// one continued by empty pairs.
pub open spec fn compare_runs(
    a: Seq<(Seq<char>, Seq<char>)>,
    b: Seq<(Seq<char>, Seq<char>)>,
    i: int,
) -> int
    decreases longer(a.len() as int, b.len() as int) - i,
{
    if i < 0 || (i >= a.len() && i >= b.len()) {
        0
    } else {
        let s = compare_pair(pair_at(a, i), pair_at(b, i));
        if s != 0 {
            s
        } else {
            compare_runs(a, b, i + 1)
        }
    }
}

/// The order of two upstream versions, or of two revisions.
pub open spec fn compare_upstream(a: Seq<char>, b: Seq<char>) -> int {
    compare_runs(runs(a), runs(b), 0)
}

/// The place of the colon that ends the epoch, or -1: the first colon, where
/// what stands before it is a run of digits, not empty, whose number fits in
/// 32 bits.
pub open spec fn epoch_end(s: Seq<char>) -> int {
    let i = first_match(s, seq![':'], 0);
    if i > 0 && all_digits(s.subrange(0, i)) && digits_value(s.subrange(0, i)) <= u32::MAX {
        i
    } else {
        -1
    }
}

/// The epoch of a version, if it has one.
pub open spec fn epoch_of(s: Seq<char>) -> Option<int> {
    let i = epoch_end(s);
    if i >= 0 {
        Some(digits_value(s.subrange(0, i)))
    } else {
        None
    }
}

/// What follows the epoch.
pub open spec fn after_epoch(s: Seq<char>) -> Seq<char> {
    s.subrange(epoch_end(s) + 1, s.len() as int)
}

/// What stands before the last hyphen of `v`, or all of `v`.
pub open spec fn upstream_of(v: Seq<char>) -> Seq<char> {
    let i = last_match(v, seq!['-'], v.len() as int);
    if i >= 0 {
        v.subrange(0, i)
    } else {
        v
    }
}

/// What stands after the last hyphen of `v`, if it has one.
pub open spec fn revision_of(v: Seq<char>) -> Option<Seq<char>> {
    let i = last_match(v, seq!['-'], v.len() as int);
    if i >= 0 {
        Some(v.subrange(i + 1, v.len() as int))
    } else {
        None
    }
}

/// The revision, empty where there is none.
pub open spec fn revision_text(r: Option<Seq<char>>) -> Seq<char> {
    match r {
        Some(t) => t,
        None => Seq::empty(),
    }
}

/// A missing epoch is below every epoch; two epochs go by their numbers.
pub open spec fn compare_epoch(a: Option<int>, b: Option<int>) -> int {
    match (a, b) {
        (None, None) => 0,
        (None, Some(_)) => -1,
        (Some(_), None) => 1,
        (Some(x), Some(y)) => sign(x, y),
    }
}

/// The order of two versions: by epoch, then by upstream version, then by
/// revision, a missing revision counting as the empty one.
pub open spec fn compare_version(a: Seq<char>, b: Seq<char>) -> int {
    let e = compare_epoch(epoch_of(a), epoch_of(b));
    if e != 0 {
        e
    } else {
        let u = compare_upstream(upstream_of(after_epoch(a)), upstream_of(after_epoch(b)));
        if u != 0 {
            u
        } else {
            compare_upstream(
                revision_text(revision_of(after_epoch(a))),
                revision_text(revision_of(after_epoch(b))),
            )
        }
    }
}


/// Ten to the power of `n`.
pub open spec fn pow10(n: nat) -> int
    decreases n,
{
    if n == 0 {
        1
    } else {
        10 * pow10((n - 1) as nat)
    }
}

proof fn lemma_pow10_grows(m: nat, n: nat)
    requires
        m <= n,
    ensures
        1 <= pow10(m) <= pow10(n),
    decreases n,
{
    if n == 0 {
    } else if m == n {
        lemma_pow10_grows((m - 1) as nat, (n - 1) as nat);
    } else {
        lemma_pow10_grows(m, (n - 1) as nat);
    }
}

/// A run of digits writes a number below ten to the power of its length.
pub proof fn lemma_value_below(s: Seq<char>)
    requires
        all_digits(s),
    ensures
        0 <= digits_value(s) < pow10(s.len()),
    decreases s.len(),
{
    if s.len() > 0 {
        lemma_value_below(s.drop_last());
    }
}

proof fn lemma_value_above(s: Seq<char>)
    requires
        all_digits(s),
        s.len() >= 1,
        s[0] != '0',
    ensures
        digits_value(s) >= pow10((s.len() - 1) as nat),
    decreases s.len(),
{
    assert(is_digit(s[0]) && is_digit(s.last()));
    if s.len() == 1 {
        assert(digits_value(s.drop_last()) == 0);
    } else {
        assert(s.drop_last()[0] == s[0]);
        lemma_value_above(s.drop_last());
        assert(pow10((s.len() - 1) as nat) == 10 * pow10((s.len() - 2) as nat));
    }
}

proof fn lemma_leading_zero(s: Seq<char>)
    requires
        s.len() >= 1,
        s[0] == '0',
    ensures
        digits_value(s) == digits_value(s.drop_first()),
    decreases s.len(),
{
    if s.len() == 1 {
        assert(digits_value(s.drop_last()) == 0);
        assert(digits_value(s.drop_first()) == 0);
    } else {
        lemma_leading_zero(s.drop_last());
        assert(s.drop_last().drop_first() =~= s.drop_first().drop_last());
        assert(s.drop_first().last() == s.last());
    }
}

proof fn lemma_first_difference(a: Seq<char>, b: Seq<char>, i: int)
    requires
        all_digits(a),
        all_digits(b),
        a.len() == b.len(),
        0 <= i < a.len(),
        a.take(i) == b.take(i),
        a[i] > b[i],
    ensures
        digits_value(a) > digits_value(b),
    decreases a.len(),
{
    if i == a.len() - 1 {
        assert(a.drop_last() =~= a.take(i));
        assert(b.drop_last() =~= b.take(i));
    } else {
        assert(a.drop_last().take(i) =~= a.take(i));
        assert(b.drop_last().take(i) =~= b.take(i));
        lemma_first_difference(a.drop_last(), b.drop_last(), i);
    }
}

proof fn lemma_value_of_prefix(s: Seq<char>, k: int)
    requires
        all_digits(s),
        0 <= k <= s.len(),
    ensures
        0 <= digits_value(s.take(k)) <= digits_value(s),
    decreases s.len(),
{
    lemma_value_below(s.take(k));
    if k == s.len() {
        assert(s.take(k) =~= s);
    } else {
        assert(s.drop_last().take(k) =~= s.take(k));
        lemma_value_of_prefix(s.drop_last(), k);
        lemma_value_below(s.drop_last());
    }
}

/// Compares two characters of a non-digit run, `None` standing for the end
/// of the run: 1 where the first weighs more, -1 where less, else 0.
pub fn comp_version_char(c1: Option<char>, c2: Option<char>) -> (r: i32)
    ensures
        r == sign(char_weight(c1), char_weight(c2)),
{
    let n1 = weight_of(c1);
    let n2 = weight_of(c2);
    if n1 > n2 {
        1
    } else if n1 < n2 {
        -1
    } else {
        0
    }
}

fn weight_of_char(c: char) -> (w: i32)
    ensures
        w == char_weight(Some(c)),
{
    let n: u32 = c as u32;
    assert(n <= 0x10FFFF);
    if c == '~' {
        -0x100
    } else if ('a' <= c && c <= 'z') || ('A' <= c && c <= 'Z') {
        n as i32
    } else {
        (n as i32) + 0x100
    }
}

fn weight_of(c: Option<char>) -> (w: i32)
    ensures
        w == char_weight(c),
{
    match c {
        None => -0xFF,
        Some(c) => weight_of_char(c),
    }
}

/// The pairs of texts that a list of pairs stands for.
pub open spec fn pair_views(v: Seq<(Vec<char>, Vec<char>)>) -> Seq<(Seq<char>, Seq<char>)> {
    Seq::new(v.len(), |i: int| (v[i].0@, v[i].1@))
}

/// The pairs of texts that a list of pairs of strings stands for.
pub open spec fn string_pair_views(v: Seq<(String, String)>) -> Seq<(Seq<char>, Seq<char>)> {
    Seq::new(v.len(), |i: int| (v[i].0@, v[i].1@))
}

fn runs_of(s: &Vec<char>) -> (r: Vec<(Vec<char>, Vec<char>)>)
    ensures
        pair_views(r@) == runs(s@),
        forall|i: int| 0 <= i < r.len() ==> all_digits(#[trigger] r[i].0@),
{
    let mut r: Vec<(Vec<char>, Vec<char>)> = Vec::new();
    let mut from: usize = 0;
    while from < s.len()
        invariant
            from <= s.len(),
            runs(s@) == pair_views(r@) + runs_from(s@, from as int),
            forall|i: int| 0 <= i < r.len() ==> all_digits(#[trigger] r[i].0@),
        decreases s.len() - from,
    {
        let mut d: usize = from;
        while d < s.len() && is_digit_char(s[d])
            invariant
                from <= d <= s.len(),
                digits_end(s@, from as int) == digits_end(s@, d as int),
                forall|i: int| from <= i < d ==> is_digit(#[trigger] s@[i]),
            decreases s.len() - d,
        {
            d += 1;
        }
        let mut n: usize = d;
        while n < s.len() && !is_digit_char(s[n])
            invariant
                d <= n <= s.len(),
                text_end(s@, d as int) == text_end(s@, n as int),
            decreases s.len() - n,
        {
            n += 1;
        }
        let digits = slice_of(s, from, d);
        let others = slice_of(s, d, n);
        let ghost before = pair_views(r@);
        r.push((digits, others));
        assert(pair_views(r@) =~= before + seq![
            (s@.subrange(from as int, d as int), s@.subrange(d as int, n as int)),
        ]);
        from = n;
    }
    r
}

/// Splits a version into its pairs of a digit run and the non-digit run
/// after it.
pub fn split_in_upstream(vs: &str) -> (r: Vec<(String, String)>)
    ensures
        string_pair_views(r@) == runs(vs@),
{
    let s = chars_of(vs);
    let pairs = runs_of(&s);
    let mut r: Vec<(String, String)> = Vec::new();
    let mut i: usize = 0;
    while i < pairs.len()
        invariant
            i <= pairs.len(),
            r.len() == i,
            forall|k: int| 0 <= k < i ==> (#[trigger] r[k]).0@ == pairs[k].0@ && r[k].1@ == pairs[k].1@,
        decreases pairs.len() - i,
    {
        r.push((string_of(&pairs[i].0), string_of(&pairs[i].1)));
        i += 1;
    }
    assert(string_pair_views(r@) =~= pair_views(pairs@));
    r
}

/// The place of the first digit of `a` that is not a zero.
fn skip_zeros(a: &Vec<char>) -> (i: usize)
    ensures
        i <= a.len(),
        digits_value(a@) == digits_value(a@.subrange(i as int, a.len() as int)),
        i < a.len() ==> a[i as int] != '0',
{
    let la = a.len();
    let mut i: usize = 0;
    assert(a@.subrange(0, la as int) =~= a@);
    while i < la && a[i] == '0'
        invariant
            i <= la == a.len(),
            digits_value(a@) == digits_value(a@.subrange(i as int, la as int)),
        decreases la - i,
    {
        proof {
            lemma_leading_zero(a@.subrange(i as int, la as int));
            assert(a@.subrange(i as int, la as int).drop_first() =~= a@.subrange(
                i + 1,
                la as int,
            ));
        }
        i += 1;
    }
    i
}

/// Compares what `a` holds from `i` on with what `b` holds from `j` on, two
/// runs of digits of one length.
fn compare_same_length(a: &Vec<char>, i: usize, b: &Vec<char>, j: usize) -> (r: i32)
    requires
        all_digits(a@),
        all_digits(b@),
        i <= a.len(),
        j <= b.len(),
        a.len() - i == b.len() - j,
    ensures
        r == sign(
            digits_value(a@.subrange(i as int, a.len() as int)),
            digits_value(b@.subrange(j as int, b.len() as int)),
        ),
{
    let ghost x = a@.subrange(i as int, a.len() as int);
    let ghost y = b@.subrange(j as int, b.len() as int);
    let n = a.len() - i;
    let mut k: usize = 0;
    while k < n
        invariant
            k <= n,
            n == a.len() - i,
            n == b.len() - j,
            x == a@.subrange(i as int, a.len() as int),
            y == b@.subrange(j as int, b.len() as int),
            all_digits(x),
            all_digits(y),
            x.take(k as int) == y.take(k as int),
        decreases n - k,
    {
        let ca = a[i + k];
        let cb = b[j + k];
        assert(ca == x[k as int] && cb == y[k as int]);
        if ca > cb {
            proof {
                lemma_first_difference(x, y, k as int);
            }
            return 1;
        }
        if ca < cb {
            proof {
                lemma_first_difference(y, x, k as int);
            }
            return -1;
        }
        assert(x.take(k + 1) =~= x.take(k as int).push(x[k as int]));
        assert(y.take(k + 1) =~= y.take(k as int).push(y[k as int]));
        k += 1;
    }
    assert(x =~= x.take(n as int));
    assert(y =~= y.take(n as int));
    0
}

/// Compares the numbers that two runs of digits write, whatever their size.
fn compare_digits(a: &Vec<char>, b: &Vec<char>) -> (r: i32)
    requires
        all_digits(a@),
        all_digits(b@),
    ensures
        r == sign(digits_value(a@), digits_value(b@)),
{
    let i = skip_zeros(a);
    let j = skip_zeros(b);
    let ghost x = a@.subrange(i as int, a.len() as int);
    let ghost y = b@.subrange(j as int, b.len() as int);
    proof {
        lemma_value_below(x);
        lemma_value_below(y);
    }
    if a.len() - i > b.len() - j {
        proof {
            lemma_value_above(x);
            lemma_pow10_grows(y.len(), (x.len() - 1) as nat);
        }
        1
    } else if a.len() - i < b.len() - j {
        proof {
            lemma_value_above(y);
            lemma_pow10_grows(x.len(), (y.len() - 1) as nat);
        }
        -1
    } else {
        compare_same_length(a, i, b, j)
    }
}

fn compare_text_runs(a: &Vec<char>, b: &Vec<char>) -> (r: i32)
    ensures
        r == compare_text(a@, b@, 0),
{
    let mut i: usize = 0;
    while i < a.len() || i < b.len()
        invariant
            compare_text(a@, b@, 0) == compare_text(a@, b@, i as int),
        decreases longer(a.len() as int, b.len() as int) - i,
    {
        let c1 = if i < a.len() {
            Some(a[i])
        } else {
            None
        };
        let c2 = if i < b.len() {
            Some(b[i])
        } else {
            None
        };
        let s = comp_version_char(c1, c2);
        if s != 0 {
            return s;
        }
        i += 1;
    }
    0
}

fn compare_upstream_chars(a: &Vec<char>, b: &Vec<char>) -> (r: i32)
    ensures
        r == compare_upstream(a@, b@),
{
    let p = runs_of(a);
    let q = runs_of(b);
    let empty: Vec<char> = Vec::new();
    let mut i: usize = 0;
    while i < p.len() || i < q.len()
        invariant
            empty@ == Seq::<char>::empty(),
            pair_views(p@) == runs(a@),
            pair_views(q@) == runs(b@),
            forall|k: int| 0 <= k < p.len() ==> all_digits(#[trigger] p[k].0@),
            forall|k: int| 0 <= k < q.len() ==> all_digits(#[trigger] q[k].0@),
            compare_upstream(a@, b@) == compare_runs(runs(a@), runs(b@), i as int),
        decreases longer(p.len() as int, q.len() as int) - i,
    {
        assert(pair_views(p@).len() == p.len());
        assert(pair_views(q@).len() == q.len());
        let (d1, t1) = if i < p.len() {
            assert(pair_views(p@)[i as int] == (p[i as int].0@, p[i as int].1@));
            (&p[i].0, &p[i].1)
        } else {
            (&empty, &empty)
        };
        let (d2, t2) = if i < q.len() {
            assert(pair_views(q@)[i as int] == (q[i as int].0@, q[i as int].1@));
            (&q[i].0, &q[i].1)
        } else {
            (&empty, &empty)
        };
        assert((d1@, t1@) == pair_at(runs(a@), i as int));
        assert((d2@, t2@) == pair_at(runs(b@), i as int));
        let s = compare_digits(d1, d2);
        if s != 0 {
            return s;
        }
        let t = compare_text_runs(t1, t2);
        if t != 0 {
            return t;
        }
        i += 1;
    }
    assert(pair_views(p@).len() == p.len());
    assert(pair_views(q@).len() == q.len());
    0
}

/// Compares two upstream versions, or two revisions: 1 where the first is
/// newer, -1 where it is older, 0 where they rank alike.
pub fn comp_upstream_version(vs1: &str, vs2: &str) -> (r: i32)
    ensures
        r == compare_upstream(vs1@, vs2@),
{
    let a = chars_of(vs1);
    let b = chars_of(vs2);
    compare_upstream_chars(&a, &b)
}

/// The number that `s` writes, where `s` is a run of digits, not empty, and
/// the number is at most `limit`.
pub fn parse_number(s: &Vec<char>, limit: u64) -> (r: Option<u64>)
    ensures
        match r {
            Some(n) => s.len() > 0 && all_digits(s@) && digits_value(s@) == n && n <= limit,
            None => !(s.len() > 0 && all_digits(s@) && digits_value(s@) <= limit),
        },
{
    if s.len() == 0 {
        return None;
    }
    let mut acc: u64 = 0;
    let mut i: usize = 0;
    while i < s.len()
        invariant
            i <= s.len(),
            all_digits(s@.take(i as int)),
            acc == digits_value(s@.take(i as int)),
            acc <= limit,
        decreases s.len() - i,
    {
        let c = s[i];
        if !is_digit_char(c) {
            return None;
        }
        let d: u128 = (c as u32 - '0' as u32) as u128;
        let wide: u128 = acc as u128;
        let next: u128 = wide * 10 + d;
        assert(s@.take(i + 1).drop_last() =~= s@.take(i as int));
        assert(all_digits(s@.take(i + 1)));
        if next > limit as u128 {
            proof {
                if all_digits(s@) {
                    lemma_value_of_prefix(s@, i + 1);
                }
            }
            return None;
        }
        acc = next as u64;
        i += 1;
    }
    assert(s@.take(s.len() as int) =~= s@);
    Some(acc)
}

/// The number that an optional epoch stands for.
pub open spec fn number_of(r: Option<u32>) -> Option<int> {
    match r {
        Some(n) => Some(n as int),
        None => None,
    }
}

struct VersionParts {
    epoch: Option<u32>,
    upstream: Vec<char>,
    revision: Option<Vec<char>>,
}

fn parts_of(s: &Vec<char>) -> (r: VersionParts)
    ensures
        number_of(r.epoch) == epoch_of(s@),
        r.upstream@ == upstream_of(after_epoch(s@)),
        match r.revision {
            Some(t) => revision_of(after_epoch(s@)) == Some(t@),
            None => revision_of(after_epoch(s@)) is None,
        },
{
    let mut colon: Vec<char> = Vec::new();
    colon.push(':');
    let mut hyphen: Vec<char> = Vec::new();
    hyphen.push('-');
    assert(colon@ =~= seq![':']);
    assert(hyphen@ =~= seq!['-']);
    let mut epoch: Option<u32> = None;
    let mut start: usize = 0;
    match find_from(s, &colon, 0) {
        Some(i) => {
            proof {
                lemma_first_match(s@, colon@, 0);
            }
            assert(matches_at(s@, colon@, i as int));
            assert(i + 1 <= s.len());
            let head = slice_of(s, 0, i);
            match parse_number(&head, 0xFFFF_FFFF) {
                Some(n) => {
                    epoch = Some(n as u32);
                    start = i + 1;
                },
                None => {},
            }
        },
        None => {},
    }
    assert(start as int == epoch_end(s@) + 1);
    let v = slice_of(s, start, s.len());
    proof {
        lemma_last_match(v@, hyphen@, v.len() as int);
    }
    match find_last(&v, &hyphen, v.len()) {
        Some(i) => {
            let upstream = slice_of(&v, 0, i);
            let revision = slice_of(&v, i + 1, v.len());
            VersionParts { epoch, upstream, revision: Some(revision) }
        },
        None => {
            assert(v@.subrange(0, v.len() as int) =~= v@);
            VersionParts { epoch, upstream: v, revision: None }
        },
    }
}

/// Splits a version into its epoch, its upstream version and its revision.
pub fn split_version(vs: &str) -> (r: (Option<u32>, String, Option<String>))
    ensures
        number_of(r.0) == epoch_of(vs@),
        r.1@ == upstream_of(after_epoch(vs@)),
        text_of(r.2) == revision_of(after_epoch(vs@)),
{
    let s = chars_of(vs);
    let p = parts_of(&s);
    let revision = match &p.revision {
        Some(t) => Some(string_of(t)),
        None => None,
    };
    (p.epoch, string_of(&p.upstream), revision)
}

/// Compares two versions that are given by their characters.
pub fn compare_version_chars(a: &Vec<char>, b: &Vec<char>) -> (r: i32)
    ensures
        r == compare_version(a@, b@),
{
    let p = parts_of(a);
    let q = parts_of(b);
    match (p.epoch, q.epoch) {
        (None, None) => {},
        (None, Some(_)) => {
            return -1;
        },
        (Some(_), None) => {
            return 1;
        },
        (Some(x), Some(y)) => {
            if x > y {
                return 1;
            } else if x < y {
                return -1;
            }
        },
    }
    let u = compare_upstream_chars(&p.upstream, &q.upstream);
    if u != 0 {
        return u;
    }
    let empty: Vec<char> = Vec::new();
    let r1 = match &p.revision {
        Some(t) => t,
        None => &empty,
    };
    let r2 = match &q.revision {
        Some(t) => t,
        None => &empty,
    };
    assert(r1@ =~= revision_text(revision_of(after_epoch(a@))));
    assert(r2@ =~= revision_text(revision_of(after_epoch(b@))));
    compare_upstream_chars(r1, r2)
}

/// Compares two versions: 1 where `vs1` is newer than `vs2`, -1 where it is
/// older, 0 where they rank alike.
pub fn comp_version(vs1: &str, vs2: &str) -> (r: i32)
    ensures
        r == compare_version(vs1@, vs2@),
{
    let a = chars_of(vs1);
    let b = chars_of(vs2);
    compare_version_chars(&a, &b)
}

} // verus!
