//! Character sequences: the model of all text in this crate is `Seq<char>`,
//! and the executable code works on `Vec<char>`.

use vstd::prelude::*;

verus! {

/// `String::push` puts one character after those of the string.
pub assume_specification[ String::push ](s: &mut String, c: char)
    ensures
        final(s)@ == old(s)@.push(c),
;

/// `==` on `str`: two strings are equal where they hold the same characters.
pub assume_specification[ <str as PartialEq>::eq ](a: &str, b: &str) -> (r: bool)
    ensures
        r == (a@ == b@),
;

/// Whether two strings hold the same characters.
pub fn same_text(a: &str, b: &str) -> (r: bool)
    ensures
        r == (a@ == b@),
{
    a.eq(b)
}

/// A copy of a list of strings.
pub fn copy_strings(v: &Vec<String>) -> (r: Vec<String>)
    ensures
        string_views(r@) == string_views(v@),
{
    let mut r: Vec<String> = Vec::new();
    let mut i: usize = 0;
    while i < v.len()
        invariant
            i <= v.len(),
            r.len() == i,
            forall|k: int| 0 <= k < i ==> (#[trigger] r[k])@ == v[k]@,
        decreases v.len() - i,
    {
        r.push(v[i].clone());
        i += 1;
    }
    assert(string_views(r@) =~= string_views(v@));
    r
}

/// The views of a list of character vectors.
pub open spec fn views(v: Seq<Vec<char>>) -> Seq<Seq<char>> {
    Seq::new(v.len(), |i: int| v[i]@)
}

/// The views of a list of strings.
pub open spec fn string_views(v: Seq<String>) -> Seq<Seq<char>> {
    Seq::new(v.len(), |i: int| v[i]@)
}

/// `sep` stands in `s` at index `i`.
pub open spec fn matches_at(s: Seq<char>, sep: Seq<char>, i: int) -> bool {
    0 <= i && i + sep.len() <= s.len() && s.subrange(i, i + sep.len()) =~= sep
}

/// The least index at or after `from` at which `sep` stands in `s`, or -1.
pub open spec fn first_match(s: Seq<char>, sep: Seq<char>, from: int) -> int
    decreases s.len() - from,
{
    if from < 0 || from + sep.len() > s.len() {
        -1
    } else if matches_at(s, sep, from) {
        from
    } else {
        first_match(s, sep, from + 1)
    }
}

/// The greatest index at which `sep` stands in `s` and that is below `upto`, or -1.
pub open spec fn last_match(s: Seq<char>, sep: Seq<char>, upto: int) -> int
    decreases upto,
{
    if upto <= 0 {
        -1
    } else if matches_at(s, sep, upto - 1) {
        upto - 1
    } else {
        last_match(s, sep, upto - 1)
    }
}

/// `sep` stands somewhere in `s`.
pub open spec fn contains(s: Seq<char>, sep: Seq<char>) -> bool {
    first_match(s, sep, 0) >= 0
}

/// The pieces of `s` from index `from` on that lie between the occurrences
/// of `sep`, taken from the left and without overlap.
pub open spec fn split_from(s: Seq<char>, sep: Seq<char>, from: int) -> Seq<Seq<char>>
    decreases s.len() - from,
{
    let i = first_match(s, sep, from);
    if sep.len() == 0 || i < from || from < 0 || i + sep.len() > s.len() {
        seq![s.subrange(from, s.len() as int)]
    } else {
        seq![s.subrange(from, i)] + split_from(s, sep, i + sep.len())
    }
}

/// The pieces of `s` between the occurrences of `sep`: one more piece than
/// there are occurrences.
pub open spec fn split(s: Seq<char>, sep: Seq<char>) -> Seq<Seq<char>> {
    split_from(s, sep, 0)
}

/// White space, as Unicode defines it.
pub open spec fn is_space(c: char) -> bool {
    let n = c as u32;
    (0x09 <= n <= 0x0D) || n == 0x20 || n == 0x85 || n == 0xA0 || n == 0x1680 || (0x2000 <= n
        <= 0x200A) || n == 0x2028 || n == 0x2029 || n == 0x202F || n == 0x205F || n == 0x3000
}

/// `s` without the white space at its start.
pub open spec fn trim_start(s: Seq<char>) -> Seq<char>
    decreases s.len(),
{
    if s.len() > 0 && is_space(s[0]) {
        trim_start(s.drop_first())
    } else {
        s
    }
}

/// `s` without the white space at its end.
pub open spec fn trim_end(s: Seq<char>) -> Seq<char>
    decreases s.len(),
{
    if s.len() > 0 && is_space(s.last()) {
        trim_end(s.drop_last())
    } else {
        s
    }
}

/// `s` without the white space at its two ends.
pub open spec fn trim(s: Seq<char>) -> Seq<char> {
    trim_end(trim_start(s))
}

/// A decimal digit.
pub open spec fn is_digit(c: char) -> bool {
    '0' <= c <= '9'
}

/// A letter of the ASCII alphabet.
pub open spec fn is_ascii_letter(c: char) -> bool {
    ('a' <= c <= 'z') || ('A' <= c <= 'Z')
}

/// A first match is a match, and nothing before it is one.
pub proof fn lemma_first_match(s: Seq<char>, sep: Seq<char>, from: int)
    requires
        0 <= from,
    ensures
        ({
            let i = first_match(s, sep, from);
            &&& (i == -1 || (from <= i && matches_at(s, sep, i)))
            &&& forall|j: int| from <= j && (j < i || i == -1) ==> !matches_at(s, sep, j)
        }),
    decreases s.len() - from,
{
    if from + sep.len() > s.len() {
    } else if matches_at(s, sep, from) {
    } else {
        lemma_first_match(s, sep, from + 1);
    }
}

/// A last match is a match, and nothing after it is one.
pub proof fn lemma_last_match(s: Seq<char>, sep: Seq<char>, upto: int)
    ensures
        ({
            let i = last_match(s, sep, upto);
            &&& (i == -1 || (0 <= i < upto && matches_at(s, sep, i)))
            &&& forall|j: int| (i < j < upto) ==> !matches_at(s, sep, j)
        }),
    decreases upto,
{
    if upto <= 0 {
    } else if matches_at(s, sep, upto - 1) {
    } else {
        lemma_last_match(s, sep, upto - 1);
    }
}

/// The characters of `s`, in order.
pub fn chars_of(s: &str) -> (r: Vec<char>)
    ensures
        r@ == s@,
{
    let mut r: Vec<char> = Vec::new();
    for c in it: s.chars()
        invariant
            r@ == it.seq().take(it.index()),
            it.seq() == s@,
    {
        r.push(c);
    }
    r
}

/// The string made of the characters of `v`, in order.
pub fn string_of(v: &Vec<char>) -> (r: String)
    ensures
        r@ == v@,
{
    let mut r = String::new();
    let mut i: usize = 0;
    while i < v.len()
        invariant
            i <= v.len(),
            r@ == v@.take(i as int),
        decreases v.len() - i,
    {
        r.push(v[i]);
        i += 1;
    }
    r
}

/// The characters of `s` from index `from` up to `to`.
pub fn slice_of(s: &Vec<char>, from: usize, to: usize) -> (r: Vec<char>)
    requires
        from <= to <= s.len(),
    ensures
        r@ == s@.subrange(from as int, to as int),
{
    let mut r: Vec<char> = Vec::new();
    let mut i: usize = from;
    while i < to
        invariant
            from <= i <= to <= s.len(),
            r@ == s@.subrange(from as int, i as int),
        decreases to - i,
    {
        r.push(s[i]);
        i += 1;
    }
    r
}

/// Whether two lists hold the same characters.
pub fn same_chars(a: &Vec<char>, b: &Vec<char>) -> (r: bool)
    ensures
        r == (a@ == b@),
{
    if a.len() != b.len() {
        return false;
    }
    let mut i: usize = 0;
    while i < a.len()
        invariant
            i <= a.len(),
            a.len() == b.len(),
            a@.take(i as int) == b@.take(i as int),
        decreases a.len() - i,
    {
        if a[i] != b[i] {
            return false;
        }
        assert(a@.take(i + 1) == a@.take(i as int).push(a@[i as int]));
        assert(b@.take(i + 1) == b@.take(i as int).push(b@[i as int]));
        i += 1;
    }
    assert(a@ == a@.take(a.len() as int));
    assert(b@ == b@.take(b.len() as int));
    true
}

/// Whether `v` holds exactly the characters of `lit`.
pub fn is_text(v: &Vec<char>, lit: &str) -> (r: bool)
    ensures
        r == (v@ == lit@),
{
    let l = chars_of(lit);
    same_chars(v, &l)
}

/// Whether `sep` stands in `s` at `i`.
pub fn stands_at(s: &Vec<char>, sep: &Vec<char>, i: usize) -> (r: bool)
    ensures
        r == matches_at(s@, sep@, i as int),
{
    if sep.len() > s.len() || i > s.len() - sep.len() {
        return false;
    }
    let mut k: usize = 0;
    while k < sep.len()
        invariant
            k <= sep.len(),
            i + sep.len() <= s.len(),
            s@.subrange(i as int, i + k) == sep@.take(k as int),
        decreases sep.len() - k,
    {
        if s[i + k] != sep[k] {
            assert(s@.subrange(i as int, i + sep.len())[k as int] != sep@[k as int]);
            return false;
        }
        assert(s@.subrange(i as int, i + k + 1) == s@.subrange(i as int, i + k).push(
            s@[i + k],
        ));
        assert(sep@.take(k + 1) == sep@.take(k as int).push(sep@[k as int]));
        k += 1;
    }
    assert(sep@ == sep@.take(sep.len() as int));
    true
}

/// The first place at or after `from` where `sep` stands in `s`.
pub fn find_from(s: &Vec<char>, sep: &Vec<char>, from: usize) -> (r: Option<usize>)
    ensures
        match r {
            Some(i) => i as int == first_match(s@, sep@, from as int),
            None => first_match(s@, sep@, from as int) == -1,
        },
{
    let mut i: usize = from;
    while i <= s.len() && sep.len() <= s.len() - i
        invariant
            from <= i,
            first_match(s@, sep@, from as int) == first_match(s@, sep@, i as int),
        decreases s.len() - i,
    {
        if stands_at(s, sep, i) {
            return Some(i);
        }
        i += 1;
    }
    None
}

/// The last place below `upto` where `sep` stands in `s`.
pub fn find_last(s: &Vec<char>, sep: &Vec<char>, upto: usize) -> (r: Option<usize>)
    ensures
        match r {
            Some(i) => i as int == last_match(s@, sep@, upto as int),
            None => last_match(s@, sep@, upto as int) == -1,
        },
{
    let mut i: usize = upto;
    while i > 0
        invariant
            last_match(s@, sep@, upto as int) == last_match(s@, sep@, i as int),
        decreases i,
    {
        if stands_at(s, sep, i - 1) {
            return Some(i - 1);
        }
        i -= 1;
    }
    None
}

/// The pieces of `s` between the occurrences of `sep`.
pub fn split_chars(s: &Vec<char>, sep: &Vec<char>) -> (r: Vec<Vec<char>>)
    requires
        sep.len() > 0,
    ensures
        views(r@) == split(s@, sep@),
        r.len() >= 1,
{
    let mut r: Vec<Vec<char>> = Vec::new();
    let mut start: usize = 0;
    loop
        invariant_except_break
            start <= s.len(),
            sep.len() > 0,
            split(s@, sep@) == views(r@) + split_from(s@, sep@, start as int),
        ensures
            views(r@) == split(s@, sep@),
            r.len() >= 1,
        decreases s.len() - start,
    {
        proof {
            lemma_first_match(s@, sep@, start as int);
        }
        match find_from(s, sep, start) {
            Some(i) => {
                let piece = slice_of(s, start, i);
                let ghost before = views(r@);
                r.push(piece);
                assert(views(r@) == before + seq![s@.subrange(start as int, i as int)]);
                start = i + sep.len();
            },
            None => {
                let piece = slice_of(s, start, s.len());
                let ghost before = views(r@);
                r.push(piece);
                assert(views(r@) == before + seq![s@.subrange(start as int, s.len() as int)]);
                break ;
            },
        }
    }
    r
}

/// Whether `c` is white space.
pub fn is_space_char(c: char) -> (r: bool)
    ensures
        r == is_space(c),
{
    let n: u32 = c as u32;
    (0x09 <= n && n <= 0x0D) || n == 0x20 || n == 0x85 || n == 0xA0 || n == 0x1680 || (0x2000 <= n
        && n <= 0x200A) || n == 0x2028 || n == 0x2029 || n == 0x202F || n == 0x205F || n == 0x3000
}

/// Whether `c` is a decimal digit.
pub fn is_digit_char(c: char) -> (r: bool)
    ensures
        r == is_digit(c),
{
    '0' <= c && c <= '9'
}

/// `s` without the white space at its two ends.
pub fn trim_chars(s: &Vec<char>) -> (r: Vec<char>)
    ensures
        r@ == trim(s@),
{
    let mut lo: usize = 0;
    assert(s@.subrange(0, s.len() as int) =~= s@);
    while lo < s.len() && is_space_char(s[lo])
        invariant
            lo <= s.len(),
            trim_start(s@) == trim_start(s@.subrange(lo as int, s.len() as int)),
        decreases s.len() - lo,
    {
        assert(s@.subrange(lo as int, s.len() as int).drop_first() == s@.subrange(
            lo + 1,
            s.len() as int,
        ));
        lo += 1;
    }
    assert(trim_start(s@) == s@.subrange(lo as int, s.len() as int));
    let mut hi: usize = s.len();
    while hi > lo && is_space_char(s[hi - 1])
        invariant
            lo <= hi <= s.len(),
            trim(s@) == trim_end(s@.subrange(lo as int, hi as int)),
        decreases hi,
    {
        assert(s@.subrange(lo as int, hi as int).drop_last() == s@.subrange(
            lo as int,
            hi - 1,
        ));
        hi -= 1;
    }
    slice_of(s, lo, hi)
}

} // verus!
