//! The extended states: for each package whether it was installed by
//! itself, to satisfy a dependency. A file of paragraphs with a blank line
//! between them; a paragraph starts with `Package: name` and has a line
//! `Auto-Installed: 1` or `Auto-Installed: 0` after it.

use crate::text::{chars_of, is_text, split, split_chars, string_of, views};
use vstd::prelude::*;

verus! {

/// What the first line from index `k` on that names `Auto-Installed: `
/// says: true for `1`; false where no line names it.
pub open spec fn auto_from(lines: Seq<Seq<char>>, k: int) -> bool
    decreases lines.len() - k,
{
    if k < 0 || k >= lines.len() {
        false
    } else {
        let parts = split(lines[k], "Auto-Installed: "@);
        if parts.len() >= 2 {
            parts[1] == "1"@
        } else {
            auto_from(lines, k + 1)
        }
    }
}

/// The name and the flag of one paragraph; `None` for a paragraph of one
/// line, and for one whose first line does not name `Package: `.
pub open spec fn entry_of(paragraph: Seq<char>) -> Option<(Seq<char>, bool)> {
    let lines = split(paragraph, "\n"@);
    let head = split(lines[0], "Package: "@);
    if lines.len() <= 1 || head.len() < 2 {
        None
    } else {
        Some((head[1], auto_from(lines, 1)))
    }
}

/// The entries of the first `k` paragraphs, in their order.
pub open spec fn entries_upto(paragraphs: Seq<Seq<char>>, k: int) -> Seq<(Seq<char>, bool)>
    decreases k,
{
    if k <= 0 {
        Seq::empty()
    } else {
        match entry_of(paragraphs[k - 1]) {
            Some(e) => entries_upto(paragraphs, k - 1).push(e),
            None => entries_upto(paragraphs, k - 1),
        }
    }
}

/// The entries of a file of extended states.
pub open spec fn extended_entries(text: Seq<char>) -> Seq<(Seq<char>, bool)> {
    entries_upto(split(text, "\n\n"@), split(text, "\n\n"@).len() as int)
}

/// The names and flags that a list of entries stands for.
pub open spec fn entry_views(v: Seq<(String, bool)>) -> Seq<(Seq<char>, bool)> {
    Seq::new(v.len(), |i: int| (v[i].0@, v[i].1))
}

fn auto_flag(lines: &Vec<Vec<char>>) -> (r: bool)
    ensures
        r == auto_from(views(lines@), 1),
{
    let marker = chars_of("Auto-Installed: ");
    proof {
        reveal_strlit("Auto-Installed: ");
    }
    let mut k: usize = 1;
    while k < lines.len()
        invariant
            1 <= k,
            marker@ == "Auto-Installed: "@,
            marker@.len() > 0,
            auto_from(views(lines@), 1) == auto_from(views(lines@), k as int),
        decreases lines.len() - k,
    {
        assert(views(lines@)[k as int] == lines[k as int]@);
        let parts = split_chars(&lines[k], &marker);
        assert(views(parts@).len() == parts.len());
        if parts.len() >= 2 {
            assert(views(parts@)[1] == parts[1]@);
            return is_text(&parts[1], "1");
        }
        k += 1;
    }
    false
}

/// Reads the extended states with the text `text`: the name of each
/// package and whether it was installed by itself, in the order of the file.
pub fn read_extended_information(text: &str) -> (r: Vec<(String, bool)>)
    ensures
        entry_views(r@) == extended_entries(text@),
{
    let blank = chars_of("\n\n");
    let newline = chars_of("\n");
    let marker = chars_of("Package: ");
    proof {
        reveal_strlit("\n\n");
        reveal_strlit("\n");
        reveal_strlit("Package: ");
    }
    let paragraphs = split_chars(&chars_of(text), &blank);
    assert(views(paragraphs@).len() == paragraphs.len());
    let mut ret: Vec<(String, bool)> = Vec::new();
    let mut k: usize = 0;
    assert(entry_views(ret@) =~= Seq::empty());
    while k < paragraphs.len()
        invariant
            k <= paragraphs.len(),
            newline@ == "\n"@,
            marker@ == "Package: "@,
            newline@.len() > 0,
            marker@.len() > 0,
            entry_views(ret@) == entries_upto(views(paragraphs@), k as int),
        decreases paragraphs.len() - k,
    {
        assert(views(paragraphs@)[k as int] == paragraphs[k as int]@);
        let lines = split_chars(&paragraphs[k], &newline);
        assert(views(lines@).len() == lines.len());
        assert(views(lines@)[0] == lines[0]@);
        if lines.len() > 1 {
            let head = split_chars(&lines[0], &marker);
            assert(views(head@).len() == head.len());
            if head.len() >= 2 {
                assert(views(head@)[1] == head[1]@);
                let auto = auto_flag(&lines);
                let ghost before = entry_views(ret@);
                ret.push((string_of(&head[1]), auto));
                assert(entry_views(ret@) =~= before.push((head[1]@, auto)));
            }
        }
        k += 1;
    }
    ret
}

} // verus!
