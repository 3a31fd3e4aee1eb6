//! Small helpers for options and file names.

use crate::text::{chars_of, find_last, last_match, lemma_last_match, matches_at, same_text, slice_of, string_of};
use vstd::prelude::*;

verus! {

/// What a word says of a switch: `false` for `no`, `false`, `without`,
/// `off` and `disable`; `true` for `yes`, `true`, `with`, `on` and `enable`;
/// for any other word, `default`.
pub open spec fn switch_of(val: Seq<char>, default: bool) -> bool {
    if val == "no"@ || val == "false"@ || val == "without"@ || val == "off"@ || val
        == "disable"@ {
        false
    } else if val == "yes"@ || val == "true"@ || val == "with"@ || val == "on"@ || val
        == "enable"@ {
        true
    } else {
        default
    }
}

/// Reads a switch from a word.
#[allow(non_snake_case)]
pub fn str2bool(val: &str, default: bool) -> (r: bool)
    ensures
        r == switch_of(val@, default),
{
    if same_text(val, "no") || same_text(val, "false") || same_text(val, "without") || same_text(
        val,
        "off",
    ) || same_text(val, "disable") {
        false
    } else if same_text(val, "yes") || same_text(val, "true") || same_text(val, "with")
        || same_text(val, "on") || same_text(val, "enable") {
        true
    } else {
        default
    }
}

/// What follows the last dot of a file's name; empty where the name has no
/// dot.
pub open spec fn extension_of(name: Seq<char>) -> Seq<char> {
    let i = last_match(name, "."@, name.len() as int);
    if i >= 0 {
        name.subrange(i + 1, name.len() as int)
    } else {
        Seq::empty()
    }
}

/// The extension of a file's name, without its directories.
pub fn extension_of_name(name: &str) -> (r: String)
    ensures
        r@ == extension_of(name@),
{
    let text = chars_of(name);
    let dot = chars_of(".");
    proof {
        reveal_strlit(".");
        lemma_last_match(text@, dot@, text.len() as int);
    }
    match find_last(&text, &dot, text.len()) {
        Some(i) => string_of(&slice_of(&text, i + 1, text.len())),
        None => String::new(),
    }
}

/// `std::path::Path::file_name`: the last component of a path, if it has
/// one that is a name. Nothing is claimed of it.
#[verifier::external_body]
fn file_name_of(file: &str) -> (r: Option<String>) {
    match std::path::Path::new(file).file_name() {
        Some(name) => name.to_str().map(|s| s.to_string()),
        None => None,
    }
}

/// The extension of the file at the path `file`: that of the last
/// component of the path, empty where the path has none.
#[allow(non_snake_case)]
pub fn flExtension(file: &str) -> (r: String)
    ensures
        exists|name: Option<Seq<char>>| r@ == extension_of_component(name),
        forall|i: int| 0 <= i < r@.len() ==> r@[i] != '.',
{
    let name = file_name_of(file);
    extension_of_last_component(&name)
}

/// The extension of a path whose last component is `name`: what follows
/// the last dot of the component; empty where the path has no last
/// component, or the component no dot.
pub open spec fn extension_of_component(name: Option<Seq<char>>) -> Seq<char> {
    match name {
        Some(n) => extension_of(n),
        None => Seq::empty(),
    }
}

/// No dot stands in an extension.
pub proof fn lemma_extension_has_no_dot(name: Seq<char>)
    ensures
        forall|i: int| 0 <= i < extension_of(name).len() ==> extension_of(name)[i] != '.',
{
    reveal_strlit(".");
    let last = last_match(name, "."@, name.len() as int);
    lemma_last_match(name, "."@, name.len() as int);
    assert forall|i: int| 0 <= i < extension_of(name).len() implies extension_of(name)[i]
        != '.' by {
        let j = last + 1 + i;
        if name[j] == '.' {
            assert(name.subrange(j, j + 1) =~= "."@);
            assert(matches_at(name, "."@, j));
        }
    }
}

/// The extension of a path, from the last component that was found for it.
pub fn extension_of_last_component(name: &Option<String>) -> (r: String)
    ensures
        r@ == extension_of_component(
            match *name {
                Some(n) => Some(n@),
                None => None,
            },
        ),
        forall|i: int| 0 <= i < r@.len() ==> r@[i] != '.',
{
    match name {
        Some(n) => {
            proof {
                lemma_extension_has_no_dot(n@);
            }
            extension_of_name(n.as_str())
        },
        None => String::new(),
    }
}

} // verus!
