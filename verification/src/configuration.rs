//! A tree of named values. The items lie in one list; each names its
//! parent, its first child and its next sibling by their places in the list.
//! The root lies at place 0. An item is found by the tags on the way to it
//! from the root, written with `::` between them.

use crate::text::{chars_of, same_text, split, split_chars, split_from, string_of, views};
use crate::version::string_pair_views;
use vstd::prelude::*;
use vstd::string::StringExecFns;

verus! {

/// One item of the tree.
#[derive(Debug)]
pub struct Item {
    pub parent: Option<usize>,
    pub child: Option<usize>,
    pub next: Option<usize>,
    pub value: String,
    pub tag: String,
}

/// An item as values.
pub struct ItemModel {
    pub parent: Option<usize>,
    pub child: Option<usize>,
    pub next: Option<usize>,
    pub value: Seq<char>,
    pub tag: Seq<char>,
}

impl View for Item {
    type V = ItemModel;

    open spec fn view(&self) -> ItemModel {
        ItemModel {
            parent: self.parent,
            child: self.child,
            next: self.next,
            value: self.value@,
            tag: self.tag@,
        }
    }
}

/// A tree of named values.
#[derive(Debug)]
pub struct Configuration {
    items: Vec<Item>,
}

impl View for Configuration {
    type V = Seq<ItemModel>;

    closed spec fn view(&self) -> Seq<ItemModel> {
        Seq::new(self.items.len() as nat, |i: int| self.items[i]@)
    }
}

/// The links of the items agree: there is a root, without a parent; a
/// parent lies before its children; the first child of an item names the
/// item as its parent; the next sibling of an item lies before it and has
/// the same parent.
pub open spec fn well_formed(items: Seq<ItemModel>) -> bool {
    &&& items.len() >= 1
    &&& items[0].parent is None
    &&& items[0].next is None
    &&& forall|i: int|
        0 <= i < items.len() ==> match (#[trigger] items[i]).parent {
            Some(p) => p < i,
            None => true,
        }
    &&& forall|i: int|
        0 <= i < items.len() ==> match (#[trigger] items[i]).child {
            Some(c) => c < items.len() && items[c as int].parent == Some(i as usize),
            None => true,
        }
    &&& forall|i: int|
        0 <= i < items.len() ==> match (#[trigger] items[i]).next {
            Some(n) => n < i && items[i].parent is Some && items[n as int].parent
                == items[i].parent,
            None => true,
        }
}

/// A measure that falls along the links of the list.
pub open spec fn rank(cur: Option<usize>) -> int {
    match cur {
        Some(c) => c + 1,
        None => 0,
    }
}

/// The first item with the tag `tag` among `cur` and the siblings after it.
pub open spec fn find_child(items: Seq<ItemModel>, cur: Option<usize>, tag: Seq<char>) -> Option<
    usize,
>
    decreases rank(cur),
{
    match cur {
        None => None,
        Some(c) => if c >= items.len() {
            None
        } else if items[c as int].tag == tag {
            Some(c)
        } else if rank(items[c as int].next) < rank(cur) {
            find_child(items, items[c as int].next, tag)
        } else {
            None
        },
    }
}

/// The item that the first `k` of `tags` lead to from the root.
pub open spec fn reach(items: Seq<ItemModel>, tags: Seq<Seq<char>>, k: int) -> Option<usize>
    decreases k,
{
    if k <= 0 {
        Some(0)
    } else {
        match reach(items, tags, k - 1) {
            Some(n) => if n < items.len() {
                find_child(items, items[n as int].child, tags[k - 1])
            } else {
                None
            },
            None => None,
        }
    }
}

/// The item named `name`: the first child of the root where the name is
/// empty, else the item that the tags of the name lead to.
pub open spec fn lookup_of(items: Seq<ItemModel>, name: Seq<char>) -> Option<usize> {
    if name.len() == 0 {
        items[0].child
    } else {
        reach(items, split(name, "::"@), split(name, "::"@).len() as int)
    }
}

/// The tags from below the item at `stopper`, or from below the root, down
/// to an item with the tag `tag` whose parent is `parent`.
pub open spec fn full_tag(
    items: Seq<ItemModel>,
    parent: Option<usize>,
    tag: Seq<char>,
    stopper: usize,
) -> Seq<char>
    decreases rank(parent),
{
    match parent {
        None => tag,
        Some(p) => if p >= items.len() || items[p as int].parent is None || p == stopper || rank(
            items[p as int].parent,
        ) >= rank(parent) {
            tag
        } else {
            full_tag(items, items[p as int].parent, items[p as int].tag, stopper) + "::"@ + tag
        },
    }
}

/// `items` with one more item, put before the children of the item at
/// `parent`.
pub open spec fn with_new_child(
    items: Seq<ItemModel>,
    parent: usize,
    value: Seq<char>,
    tag: Seq<char>,
) -> Seq<ItemModel> {
    items.update(
        parent as int,
        ItemModel { child: Some(items.len() as usize), ..items[parent as int] },
    ).push(
        ItemModel {
            parent: Some(parent),
            child: None,
            next: items[parent as int].child,
            value: value,
            tag: tag,
        },
    )
}

/// The list after the way from the item at `from` along the tags from
/// index `k` on was gone and each item that was missing on it was made,
/// without a value; and the item at the end of the way.
pub open spec fn made(items: Seq<ItemModel>, from: usize, tags: Seq<Seq<char>>, k: int) -> (
    Seq<ItemModel>,
    usize,
)
    decreases tags.len() - k,
{
    if k < 0 || k >= tags.len() || from >= items.len() {
        (items, from)
    } else {
        match find_child(items, items[from as int].child, tags[k]) {
            Some(c) => made(items, c, tags, k + 1),
            None => made(
                with_new_child(items, from, Seq::empty(), tags[k]),
                items.len() as usize,
                tags,
                k + 1,
            ),
        }
    }
}

/// What a lookup of `name` leaves and gives: where `create` is set and the
/// name is not empty, the list with the missing items made and the item at
/// the end of the way; else the list as it was and the item that is found.
pub open spec fn looked_up(items: Seq<ItemModel>, name: Seq<char>, create: bool) -> (
    Seq<ItemModel>,
    Option<usize>,
) {
    if name.len() == 0 || !create {
        (items, lookup_of(items, name))
    } else {
        let m = made(items, 0, split(name, "::"@), 0);
        (m.0, Some(m.1))
    }
}

/// `items` with the value `value` in the item at `node`.
pub open spec fn with_value(items: Seq<ItemModel>, node: usize, value: Seq<char>) -> Seq<ItemModel> {
    items.update(node as int, ItemModel { value: value, ..items[node as int] })
}

/// `items` after the item named `name`, made where it was missing, was
/// given the value `value`.
pub open spec fn set_to(items: Seq<ItemModel>, name: Seq<char>, value: Seq<char>) -> Seq<ItemModel> {
    let after = looked_up(items, name, true);
    match after.1 {
        Some(node) => with_value(after.0, node, value),
        None => after.0,
    }
}

/// `items` after the item named `name`, made where it was missing, was
/// given the value `value` unless it had one.
pub open spec fn set_if_empty(items: Seq<ItemModel>, name: Seq<char>, value: Seq<char>) -> Seq<
    ItemModel,
> {
    let after = looked_up(items, name, true);
    match after.1 {
        Some(node) => if after.0[node as int].value.len() == 0 {
            with_value(after.0, node, value)
        } else {
            after.0
        },
        None => after.0,
    }
}

/// `after` has all the items of `before` in their places, with their tags,
/// values, parents and siblings; the items that came have no value.
pub open spec fn grown(before: Seq<ItemModel>, after: Seq<ItemModel>) -> bool {
    &&& before.len() <= after.len()
    &&& forall|i: int|
        0 <= i < before.len() ==> (#[trigger] after[i]).tag == before[i].tag && after[i].value
            == before[i].value && after[i].parent == before[i].parent && after[i].next
            == before[i].next && (before[i].child is Some ==> after[i].child is Some)
    &&& forall|i: int| before.len() <= i < after.len() ==> (#[trigger] after[i]).value.len() == 0
}

/// A child that is found lies in the list after its parent, and has the
/// tag that was looked for.
pub proof fn lemma_find_child(items: Seq<ItemModel>, cur: Option<usize>, tag: Seq<char>, owner: usize)
    requires
        well_formed(items),
        cur is Some ==> cur->0 < items.len() && items[cur->0 as int].parent == Some(owner),
    ensures
        match find_child(items, cur, tag) {
            Some(c) => c < items.len() && items[c as int].tag == tag && items[c as int].parent
                == Some(owner) && owner < c,
            None => true,
        },
    decreases rank(cur),
{
    match cur {
        None => {},
        Some(c) => {
            if items[c as int].tag != tag {
                lemma_find_child(items, items[c as int].next, tag, owner);
            }
        },
    }
}

/// The way from the root leads to items of the list, each after the one
/// before it.
pub proof fn lemma_reach(items: Seq<ItemModel>, tags: Seq<Seq<char>>, k: int)
    requires
        well_formed(items),
        0 <= k,
    ensures
        match reach(items, tags, k) {
            Some(n) => n < items.len() && k <= n,
            None => true,
        },
    decreases k,
{
    if k > 0 {
        lemma_reach(items, tags, k - 1);
        match reach(items, tags, k - 1) {
            Some(n) => {
                lemma_find_child(items, items[n as int].child, tags[k - 1], n);
            },
            None => {},
        }
    }
}

proof fn lemma_find_child_kept(
    before: Seq<ItemModel>,
    after: Seq<ItemModel>,
    cur: Option<usize>,
    tag: Seq<char>,
)
    requires
        before.len() <= after.len(),
        forall|i: int|
            0 <= i < before.len() ==> (#[trigger] after[i]).tag == before[i].tag && after[i].next
                == before[i].next,
        cur is Some ==> cur->0 < before.len(),
        well_formed(before),
    ensures
        find_child(after, cur, tag) == find_child(before, cur, tag),
    decreases rank(cur),
{
    match cur {
        None => {},
        Some(c) => {
            if before[c as int].tag != tag {
                lemma_find_child_kept(before, after, before[c as int].next, tag);
            }
        },
    }
}

/// Each item on the way to an item lies before it.
proof fn lemma_reach_before(items: Seq<ItemModel>, tags: Seq<Seq<char>>, j: int, k: int)
    requires
        well_formed(items),
        0 <= j <= k,
        reach(items, tags, k) is Some,
    ensures
        reach(items, tags, j) is Some,
        reach(items, tags, j)->0 + (k - j) <= reach(items, tags, k)->0,
    decreases k,
{
    if j < k {
        lemma_reach(items, tags, k - 1);
        let n = reach(items, tags, k - 1)->0;
        lemma_find_child(items, items[n as int].child, tags[k - 1], n);
        lemma_reach_before(items, tags, j, k - 1);
    }
}

/// A new child of the item that `k` tags lead to leaves the way to that
/// item as it was.
proof fn lemma_reach_kept(
    before: Seq<ItemModel>,
    after: Seq<ItemModel>,
    tags: Seq<Seq<char>>,
    k: int,
    j: int,
    item: usize,
    value: Seq<char>,
    tag: Seq<char>,
)
    requires
        well_formed(before),
        0 <= j <= k,
        reach(before, tags, k) == Some(item),
        item < before.len() < usize::MAX,
        after == with_new_child(before, item, value, tag),
    ensures
        reach(after, tags, j) == reach(before, tags, j),
    decreases j,
{
    if j > 0 {
        lemma_reach_kept(before, after, tags, k, j - 1, item, value, tag);
        lemma_reach_before(before, tags, j - 1, k);
        lemma_reach(before, tags, j - 1);
        let n = reach(before, tags, j - 1)->0;
        assert(n < item);
        assert(after[n as int] == before[n as int]);
        assert forall|i: int| 0 <= i < before.len() implies (#[trigger] after[i]).tag
            == before[i].tag && after[i].next == before[i].next by {
            if i != item {
                assert(after[i] == before[i]);
            }
        }
        lemma_find_child_kept(before, after, before[n as int].child, tags[j - 1]);
    }
}


proof fn lemma_reach_none(items: Seq<ItemModel>, tags: Seq<Seq<char>>, k: int, n: int)
    requires
        0 <= k <= n,
        reach(items, tags, k) is None,
    ensures
        reach(items, tags, n) is None,
    decreases n - k,
{
    if k < n {
        lemma_reach_none(items, tags, k, n - 1);
    }
}

/// The way to an item goes by tags and links alone: other values leave it
/// as it was.
proof fn lemma_reach_same_links(
    before: Seq<ItemModel>,
    after: Seq<ItemModel>,
    tags: Seq<Seq<char>>,
    k: int,
)
    requires
        well_formed(before),
        before.len() == after.len(),
        forall|i: int|
            0 <= i < before.len() ==> (#[trigger] after[i]).tag == before[i].tag && after[i].next
                == before[i].next && after[i].child == before[i].child,
        0 <= k,
    ensures
        reach(after, tags, k) == reach(before, tags, k),
    decreases k,
{
    if k > 0 {
        lemma_reach_same_links(before, after, tags, k - 1);
        lemma_reach(before, tags, k - 1);
        match reach(before, tags, k - 1) {
            Some(n) => {
                lemma_find_child_kept(before, after, before[n as int].child, tags[k - 1]);
            },
            None => {},
        }
    }
}

/// `after` is `before` but for the value of the item at `node`, and for
/// items that came, which have no value.
pub open spec fn grown_but(before: Seq<ItemModel>, after: Seq<ItemModel>, node: usize) -> bool {
    &&& before.len() <= after.len()
    &&& forall|i: int|
        0 <= i < before.len() ==> (#[trigger] after[i]).tag == before[i].tag && after[i].parent
            == before[i].parent && after[i].next == before[i].next && (i != node ==> after[i].value
            == before[i].value) && (before[i].child is Some ==> after[i].child is Some)
    &&& forall|i: int|
        before.len() <= i < after.len() && i != node ==> (#[trigger] after[i]).value.len() == 0
}

/// Each way that led to an item of `before` leads to the same item of
/// `after`.
pub open spec fn paths_kept(before: Seq<ItemModel>, after: Seq<ItemModel>) -> bool {
    forall|tags: Seq<Seq<char>>, k: int|
        0 <= k && (#[trigger] reach(before, tags, k)) is Some ==> reach(after, tags, k) == reach(
            before,
            tags,
            k,
        )
}

/// A new child with a tag that its parent did not have among its children
/// keeps each way.
proof fn lemma_paths_kept_child(
    before: Seq<ItemModel>,
    after: Seq<ItemModel>,
    tags: Seq<Seq<char>>,
    k: int,
    item: usize,
    value: Seq<char>,
    tag: Seq<char>,
)
    requires
        well_formed(before),
        item < before.len() < usize::MAX,
        after == with_new_child(before, item, value, tag),
        find_child(before, before[item as int].child, tag) is None,
        0 <= k,
        reach(before, tags, k) is Some,
    ensures
        reach(after, tags, k) == reach(before, tags, k),
    decreases k,
{
    if k > 0 {
        let n = reach(before, tags, k - 1)->0;
        lemma_paths_kept_child(before, after, tags, k - 1, item, value, tag);
        lemma_reach(before, tags, k - 1);
        assert forall|i: int| 0 <= i < before.len() implies (#[trigger] after[i]).tag
            == before[i].tag && after[i].next == before[i].next by {
            if i != item {
                assert(after[i] == before[i]);
            }
        }
        if n != item {
            assert(after[n as int] == before[n as int]);
            lemma_find_child_kept(before, after, before[n as int].child, tags[k - 1]);
        } else {
            let fresh = before.len() as int;
            assert(after[n as int].child == Some(fresh as usize));
            assert(after[fresh].tag == tag);
            assert(after[fresh].next == before[item as int].child);
            match before[item as int].child {
                Some(c) => {
                    assert(before[c as int].parent == Some(item));
                },
                None => {},
            }
            lemma_find_child_kept(before, after, before[item as int].child, tags[k - 1]);
            let t1 = tags[k - 1];
            assert(reach(before, tags, k) == find_child(before, before[n as int].child, t1));
            assert(t1 != tag);
            assert(reach(after, tags, k) == find_child(after, Some(fresh as usize), t1));
            assert(find_child(after, Some(fresh as usize), t1) == find_child(
                after,
                after[fresh].next,
                t1,
            ));
        }
    }
}

impl Item {
    /// The tags from below the item at `stopper`, or from below the root,
    /// down to this item, with `::` between them.
    #[allow(non_snake_case)]
    pub fn FullTag(&self, config: &Configuration, stopper: usize) -> (r: String)
        requires
            config.wf(),
            self.parent is Some ==> self.parent->0 < config@.len(),
        ensures
            r@ == full_tag(config@, self.parent, self.tag@, stopper),
    {
        config.full_tag_from(self.parent, self.tag.as_str(), stopper)
    }
}

impl Configuration {
    /// The links of the tree agree.
    pub open spec fn wf(&self) -> bool {
        well_formed(self@)
    }

    /// The number of items in the list, those that left the tree too.
    pub fn len(&self) -> (n: usize)
        ensures
            n == self@.len(),
    {
        self.items.len()
    }

    /// The item at the place `i`.
    pub fn item(&self, i: usize) -> (r: &Item)
        requires
            i < self@.len(),
        ensures
            r@ == self@[i as int],
    {
        &self.items[i]
    }

    /// A tree with its root alone.
    pub fn new() -> (r: Self)
        ensures
            r.wf(),
            r@.len() == 1,
            r@[0].child is None,
            r@[0].value.len() == 0,
            r@[0].tag.len() == 0,
    {
        let mut items: Vec<Item> = Vec::new();
        items.push(
            Item { parent: None, child: None, next: None, value: String::new(), tag: String::new() },
        );
        Configuration { items }
    }

    fn full_tag_from(&self, parent: Option<usize>, tag: &str, stopper: usize) -> (r: String)
        requires
            self.wf(),
            parent is Some ==> parent->0 < self@.len(),
        ensures
            r@ == full_tag(self@, parent, tag@, stopper),
        decreases rank(parent),
    {
        match parent {
            None => String::from_str(tag),
            Some(p) => {
                assert(self@[p as int] == self.items[p as int]@);
                if self.items[p].parent.is_none() || p == stopper {
                    String::from_str(tag)
                } else {
                    let mut r = self.full_tag_from(
                        self.items[p].parent,
                        self.items[p].tag.as_str(),
                        stopper,
                    );
                    r.append("::");
                    r.append(tag);
                    r
                }
            },
        }
    }

    /// Puts a new item with the value `val` and the tag `tag` before the
    /// children of the item at `parent`, and gives its place.
    pub fn push_child(&mut self, parent: usize, val: &str, tag: &str) -> (r: Option<usize>)
        requires
            old(self).wf(),
            parent < old(self)@.len(),
        ensures
            r is Some && r->0 == old(self)@.len(),
            final(self)@ == with_new_child(old(self)@, parent, val@, tag@),
            final(self).wf(),
    {
        let place = self.items.len();
        assert(self@[parent as int] == self.items[parent as int]@);
        let child = Item {
            parent: Some(parent),
            child: None,
            next: self.items[parent].child,
            value: String::from_str(val),
            tag: String::from_str(tag),
        };
        self.items.push(child);
        self.items[parent].child = Some(place);
        proof {
            let before = old(self)@;
            let after = self@;
            assert(after[place as int] == self.items[place as int]@);
            assert(after[parent as int] == self.items[parent as int]@);
            assert forall|i: int| 0 <= i < before.len() && i != parent implies #[trigger] after[i]
                == before[i] by {
                assert(after[i] == self.items[i]@);
                assert(before[i] == old(self).items[i]@);
            }
            assert(before[parent as int] == old(self).items[parent as int]@);
            assert(after =~= with_new_child(before, parent, val@, tag@));
            assert forall|i: int| 0 <= i < after.len() implies match (#[trigger] after[i]).next {
                Some(n) => n < i && after[i].parent is Some && after[n as int].parent
                    == after[i].parent,
                None => true,
            } by {
                if i == place {
                    match before[parent as int].child {
                        Some(c) => {
                            assert(after[c as int] == before[c as int]);
                        },
                        None => {},
                    }
                } else if i == parent {
                    match before[i].next {
                        Some(n) => {
                            assert(after[n as int].parent == before[n as int].parent);
                        },
                        None => {},
                    }
                } else {
                    match before[i].next {
                        Some(n) => {
                            assert(after[n as int].parent == before[n as int].parent);
                        },
                        None => {},
                    }
                }
            }
            assert forall|i: int| 0 <= i < after.len() implies match (#[trigger] after[i]).child {
                Some(c) => c < after.len() && after[c as int].parent == Some(i as usize),
                None => true,
            } by {
                if i != place && i != parent {
                    match before[i].child {
                        Some(c) => {
                            assert(after[c as int].parent == before[c as int].parent);
                        },
                        None => {},
                    }
                }
            }
            assert forall|i: int| 0 <= i < after.len() implies match (#[trigger] after[i]).parent {
                Some(p) => p < i,
                None => true,
            } by {
                if i < before.len() {
                    assert(after[i].parent == before[i].parent);
                }
            }
        }
        Some(place)
    }

    /// The direct child of the item at `parent` that has the tag `tag`.
    pub fn find_child_at(&self, parent: usize, tag: &str) -> (r: Option<usize>)
        requires
            self.wf(),
            parent < self@.len(),
        ensures
            r == find_child(self@, self@[parent as int].child, tag@),
            r is Some ==> r->0 < self@.len(),
    {
        assert(self@[parent as int] == self.items[parent as int]@);
        let mut cur = self.items[parent].child;
        loop
            invariant_except_break
                self.wf(),
                cur is Some ==> cur->0 < self@.len(),
                find_child(self@, self@[parent as int].child, tag@) == find_child(self@, cur, tag@),
            ensures
                cur == find_child(self@, self@[parent as int].child, tag@),
                cur is Some ==> cur->0 < self@.len(),
            decreases rank(cur),
        {
            match cur {
                Some(c) => {
                    assert(self@[c as int] == self.items[c as int]@);
                    if same_text(self.items[c].tag.as_str(), tag) {
                        break ;
                    }
                    cur = self.items[c].next;
                },
                None => {
                    break ;
                },
            }
        }
        cur
    }

    /// Finds the direct child of the item at `parent` that has the tag
    /// `tag`. Where there is none and `create` is set, a child with that
    /// tag and no value is made, and found.
    pub fn lookup_child(&mut self, parent: usize, tag: &str, create: bool) -> (r: Option<usize>)
        requires
            old(self).wf(),
            parent < old(self)@.len(),
        ensures
            final(self).wf(),
            match find_child(old(self)@, old(self)@[parent as int].child, tag@) {
                Some(c) => r == Some(c) && final(self)@ == old(self)@,
                None => if create {
                    r is Some && r->0 == old(self)@.len() && final(self)@ == with_new_child(
                        old(self)@,
                        parent,
                        Seq::<char>::empty(),
                        tag@,
                    )
                } else {
                    r is None && final(self)@ == old(self)@
                },
            },
    {
        match self.find_child_at(parent, tag) {
            Some(c) => Some(c),
            None => {
                if create {
                    let empty = String::new();
                    self.push_child(parent, empty.as_str(), tag)
                } else {
                    None
                }
            },
        }
    }

    /// Finds the item named `name`. Where `create` is set, the items on
    /// the way that are missing are made, without a value.
    pub fn lookup(&mut self, name: &str, create: bool) -> (r: Option<usize>)
        requires
            old(self).wf(),
        ensures
            final(self).wf(),
            (final(self)@, r) == looked_up(old(self)@, name@, create),
            grown(old(self)@, final(self)@),
            r == lookup_of(final(self)@, name@),
            r is Some ==> r->0 < final(self)@.len(),
            !create || lookup_of(old(self)@, name@) is Some ==> final(self)@ == old(self)@,
            create && name@.len() > 0 ==> r is Some,
            final(self)@ != old(self)@ ==> r is Some && r->0 >= old(self)@.len(),
            paths_kept(old(self)@, final(self)@),
    {
        if name.is_empty() {
            assert(self@[0] == self.items[0]@);
            return self.items[0].child;
        }
        let separator = chars_of("::");
        proof {
            reveal_strlit("::");
        }
        let tags = split_chars(&chars_of(name), &separator);
        let ghost path = views(tags@);
        assert(path.len() == tags.len());
        let mut item: usize = 0;
        let mut k: usize = 0;
        while k < tags.len()
            invariant
                k <= tags.len(),
                path == views(tags@),
                path == split(name@, "::"@),
                name@.len() > 0,
                self.wf(),
                grown(old(self)@, self@),
                item < self@.len(),
                reach(self@, path, k as int) == Some(item),
                self@ == old(self)@ || (create && reach(old(self)@, path, path.len() as int) is None
                    && item >= old(self)@.len()),
                paths_kept(old(self)@, self@),
                create ==> made(old(self)@, 0, path, 0) == made(self@, item, path, k as int),
            decreases tags.len() - k,
        {
            assert(path[k as int] == tags[k as int]@);
            let tag = string_of(&tags[k]);
            let ghost before = self@;
            match self.lookup_child(item, tag.as_str(), create) {
                Some(c) => {
                    proof {
                        if self@ != before {
                            assert forall|tags: Seq<Seq<char>>, j: int|
                                0 <= j && (#[trigger] reach(old(self)@, tags, j)) is Some implies reach(
                                self@,
                                tags,
                                j,
                            ) == reach(old(self)@, tags, j) by {
                                assert(reach(before, tags, j) == reach(old(self)@, tags, j));
                                lemma_paths_kept_child(
                                    before,
                                    self@,
                                    tags,
                                    j,
                                    item,
                                    Seq::<char>::empty(),
                                    tag@,
                                );
                            }
                            lemma_reach_kept(
                                before,
                                self@,
                                path,
                                k as int,
                                k as int,
                                item,
                                Seq::<char>::empty(),
                                tag@,
                            );
                            assert(self@[item as int].child == Some(c));
                            assert(self@[c as int].tag == tag@);
                            if before == old(self)@ {
                                assert(reach(before, path, k + 1) is None);
                                lemma_reach_none(before, path, k + 1, path.len() as int);
                            }
                        } else {
                            lemma_find_child(before, before[item as int].child, tag@, item);
                        }
                    }
                    item = c;
                },
                None => {
                    proof {
                        assert(reach(self@, path, k + 1) is None);
                        lemma_reach_none(self@, path, k + 1, path.len() as int);
                    }
                    return None;
                },
            }
            k += 1;
        }
        Some(item)
    }

    /// Gives the item named `name` the value `value`; the item is made
    /// where it is missing.
    #[allow(non_snake_case)]
    pub fn SetValue(&mut self, name: &str, value: &str)
        requires
            old(self).wf(),
            name@.len() > 0 || old(self)@[0].child is Some,
        ensures
            final(self).wf(),
            final(self)@ == set_to(old(self)@, name@, value@),
            lookup_of(final(self)@, name@) is Some,
            lookup_of(final(self)@, name@)->0 < final(self)@.len(),
            final(self)@[lookup_of(final(self)@, name@)->0 as int].value == value@,
            grown_but(old(self)@, final(self)@, lookup_of(final(self)@, name@)->0),
            paths_kept(old(self)@, final(self)@),
    {
        match self.lookup(name, true) {
            Some(item) => {
                self.put(item, name, value);
            },
            None => {},
        }
    }

    /// Gives the item named `name` the value `value` unless it has a
    /// value; the item is made where it is missing.
    #[allow(non_snake_case)]
    pub fn CndSet(&mut self, name: &str, value: &str)
        requires
            old(self).wf(),
            name@.len() > 0 || old(self)@[0].child is Some,
        ensures
            final(self).wf(),
            final(self)@ == set_if_empty(old(self)@, name@, value@),
            lookup_of(final(self)@, name@) is Some,
            lookup_of(final(self)@, name@)->0 < final(self)@.len(),
            grown_but(old(self)@, final(self)@, lookup_of(final(self)@, name@)->0),
            paths_kept(old(self)@, final(self)@),
            final(self)@[lookup_of(final(self)@, name@)->0 as int].value == (if lookup_of(
                old(self)@,
                name@,
            ) is Some && old(self)@[lookup_of(old(self)@, name@)->0 as int].value.len() > 0 {
                old(self)@[lookup_of(old(self)@, name@)->0 as int].value
            } else {
                value@
            }),
    {
        match self.lookup(name, true) {
            Some(item) => {
                assert(self@[item as int] == self.items[item as int]@);
                if self.items[item].value.as_str().is_empty() {
                    self.put(item, name, value);
                }
            },
            None => {},
        }
    }

    /// Writes `value` into the item at `item`, which is the one named `name`.
    fn put(&mut self, item: usize, name: &str, value: &str)
        requires
            old(self).wf(),
            item < old(self)@.len(),
            lookup_of(old(self)@, name@) == Some(item),
        ensures
            final(self).wf(),
            lookup_of(final(self)@, name@) == Some(item),
            final(self)@.len() == old(self)@.len(),
            final(self)@ == with_value(old(self)@, item, value@),
            final(self)@[item as int] == (ItemModel { value: value@, ..old(self)@[item as int] }),
            forall|i: int|
                0 <= i < old(self)@.len() && i != item ==> #[trigger] final(self)@[i] == old(self)@[i],
            paths_kept(old(self)@, final(self)@),
    {
        self.items[item].value = String::from_str(value);
        proof {
            let before = old(self)@;
            let after = self@;
            assert(after[item as int] == self.items[item as int]@);
            assert(before[item as int] == old(self).items[item as int]@);
            assert forall|i: int| 0 <= i < before.len() && i != item implies #[trigger] after[i]
                == before[i] by {
                assert(after[i] == self.items[i]@);
                assert(before[i] == old(self).items[i]@);
            }
            assert forall|i: int| 0 <= i < before.len() implies (#[trigger] after[i]).tag
                == before[i].tag && after[i].next == before[i].next && after[i].child
                == before[i].child && after[i].parent == before[i].parent by {
                if i != item {
                    assert(after[i] == before[i]);
                }
            }
            assert(after =~= with_value(before, item, value@));
            let path = split(name@, "::"@);
            lemma_reach_same_links(before, after, path, path.len() as int);
            assert forall|tags: Seq<Seq<char>>, j: int|
                0 <= j && (#[trigger] reach(before, tags, j)) is Some implies reach(after, tags, j)
                == reach(before, tags, j) by {
                lemma_reach_same_links(before, after, tags, j);
            }
            assert(well_formed(after)) by {
                assert forall|i: int| 0 <= i < after.len() implies match (#[trigger] after[i]).next {
                    Some(n) => n < i && after[i].parent is Some && after[n as int].parent
                        == after[i].parent,
                    None => true,
                } by {
                    assert(after[i].next == before[i].next);
                    match before[i].next {
                        Some(n) => {
                            assert(after[n as int].parent == before[n as int].parent);
                        },
                        None => {},
                    }
                }
                assert forall|i: int| 0 <= i < after.len() implies match (#[trigger] after[i]).child {
                    Some(c) => c < after.len() && after[c as int].parent == Some(i as usize),
                    None => true,
                } by {
                    assert(after[i].child == before[i].child);
                    match before[i].child {
                        Some(c) => {
                            assert(after[c as int].parent == before[c as int].parent);
                        },
                        None => {},
                    }
                }
                assert forall|i: int| 0 <= i < after.len() implies match (#[trigger] after[i]).parent {
                    Some(p) => p < i,
                    None => true,
                } by {
                    assert(after[i].parent == before[i].parent);
                }
            }
        }
    }

    /// The item named `name`, if the tree has it.
    pub fn find(&self, name: &str) -> (r: Option<usize>)
        requires
            self.wf(),
        ensures
            r == lookup_of(self@, name@),
            r is Some ==> r->0 < self@.len(),
    {
        if name.is_empty() {
            assert(self@[0] == self.items[0]@);
            return self.items[0].child;
        }
        let separator = chars_of("::");
        proof {
            reveal_strlit("::");
        }
        let tags = split_chars(&chars_of(name), &separator);
        let ghost path = views(tags@);
        assert(path.len() == tags.len());
        let mut item: usize = 0;
        let mut k: usize = 0;
        while k < tags.len()
            invariant
                k <= tags.len(),
                path == views(tags@),
                path == split(name@, "::"@),
                name@.len() > 0,
                self.wf(),
                item < self@.len(),
                reach(self@, path, k as int) == Some(item),
            decreases tags.len() - k,
        {
            assert(path[k as int] == tags[k as int]@);
            let tag = string_of(&tags[k]);
            match self.find_child_at(item, tag.as_str()) {
                Some(c) => {
                    item = c;
                },
                None => {
                    proof {
                        assert(reach(self@, path, k + 1) is None);
                        lemma_reach_none(self@, path, k + 1, path.len() as int);
                    }
                    return None;
                },
            }
            k += 1;
        }
        Some(item)
    }

    /// The value of the item named `name`; `default` where the tree has no
    /// such item, or the item no value.
    #[allow(non_snake_case)]
    pub fn Find(&self, name: &str, default: &str) -> (r: String)
        requires
            self.wf(),
        ensures
            r@ == (match lookup_of(self@, name@) {
                Some(item) => if self@[item as int].value.len() > 0 {
                    self@[item as int].value
                } else {
                    default@
                },
                None => default@,
            }),
    {
        match self.find(name) {
            Some(item) => {
                assert(self@[item as int] == self.items[item as int]@);
                if !self.items[item].value.as_str().is_empty() {
                    return self.items[item].value.clone();
                }
            },
            None => {},
        }
        String::from_str(default)
    }
}


/// The items from `cur` on along the links to the next sibling.
pub open spec fn chain(items: Seq<ItemModel>, cur: Option<usize>) -> Seq<usize>
    decreases rank(cur),
{
    match cur {
        None => Seq::empty(),
        Some(c) => if c >= items.len() {
            Seq::empty()
        } else if rank(items[c as int].next) < rank(cur) {
            seq![c] + chain(items, items[c as int].next)
        } else {
            seq![c]
        },
    }
}

/// The children of the item at `parent`, the newest first.
pub open spec fn children(items: Seq<ItemModel>, parent: usize) -> Seq<usize> {
    chain(items, items[parent as int].child)
}

/// Those of `kids` from index `k` on whose value is not `value`.
pub open spec fn kept(items: Seq<ItemModel>, kids: Seq<usize>, value: Seq<char>, k: int) -> Seq<usize>
    decreases kids.len() - k,
{
    if k < 0 || k >= kids.len() {
        Seq::empty()
    } else if items[kids[k] as int].value != value {
        seq![kids[k]] + kept(items, kids, value, k + 1)
    } else {
        kept(items, kids, value, k + 1)
    }
}

/// What taking children out changes: each item keeps its tag, its value
/// and its parent, and each but the item at `top` its first child; an item
/// that is not among `kids`, the children of the item at `top`, keeps its
/// next sibling; one of `kids` that leaves, for its value or because all
/// leave, has none.
pub open spec fn unlinked(
    before: Seq<ItemModel>,
    after: Seq<ItemModel>,
    top: usize,
    kids: Seq<usize>,
    value: Seq<char>,
    all: bool,
) -> bool {
    &&& after.len() == before.len()
    &&& forall|i: int|
        0 <= i < before.len() ==> {
            &&& (#[trigger] after[i]).tag == before[i].tag
            &&& after[i].value == before[i].value
            &&& after[i].parent == before[i].parent
            &&& (i != top ==> after[i].child == before[i].child)
            &&& (!kids.contains(i as usize) ==> after[i].next == before[i].next)
        }
    &&& forall|a: int|
        0 <= a < kids.len() && (all || before[kids[a] as int].value == value) ==> (
        #[trigger] after[kids[a] as int]).next is None
}

/// The items of a chain lie in the list, each before the one that names
/// it, and all have one parent.
proof fn lemma_chain(items: Seq<ItemModel>, cur: Option<usize>, owner: usize)
    requires
        well_formed(items),
        cur is Some ==> cur->0 < items.len() && items[cur->0 as int].parent == Some(owner),
    ensures
        forall|a: int|
            0 <= a < chain(items, cur).len() ==> (#[trigger] chain(items, cur)[a]) < items.len()
                && items[chain(items, cur)[a] as int].parent == Some(owner) && rank(
                Some(chain(items, cur)[a]),
            ) <= rank(cur),
        forall|a: int, b: int|
            0 <= a < b < chain(items, cur).len() ==> (#[trigger] chain(items, cur)[a]) > (
            #[trigger] chain(items, cur)[b]),
        cur is Some ==> chain(items, cur).len() > 0 && chain(items, cur)[0] == cur->0,
        forall|a: int|
            0 <= a < chain(items, cur).len() ==> items[(#[trigger] chain(items, cur)[a]) as int].next
                == (if a + 1 < chain(items, cur).len() {
                Some(chain(items, cur)[a + 1])
            } else {
                None
            }),
    decreases rank(cur),
{
    match cur {
        None => {},
        Some(c) => {
            lemma_chain(items, items[c as int].next, owner);
            let rest = chain(items, items[c as int].next);
            let all = chain(items, cur);
            assert(all =~= seq![c] + rest);
            assert forall|a: int, b: int| 0 <= a < b < all.len() implies (#[trigger] all[a]) > (
            #[trigger] all[b]) by {
                assert(all[b] == rest[b - 1]);
                if a > 0 {
                    assert(all[a] == rest[a - 1]);
                }
            }
            assert forall|a: int| 0 <= a < all.len() implies (#[trigger] all[a]) < items.len()
                && items[all[a] as int].parent == Some(owner) && rank(Some(all[a])) <= rank(cur) by {
                if a > 0 {
                    assert(all[a] == rest[a - 1]);
                }
            }
            assert forall|a: int| 0 <= a < all.len() implies items[(#[trigger] all[a]) as int].next
                == (if a + 1 < all.len() {
                Some(all[a + 1])
            } else {
                None
            }) by {
                if a > 0 {
                    assert(all[a] == rest[a - 1]);
                    if a + 1 < all.len() {
                        assert(all[a + 1] == rest[a]);
                    }
                } else {
                    if 1 < all.len() {
                        assert(all[1] == rest[0]);
                    }
                }
            }
        },
    }
}

/// A chain goes by the links of the items up to its first one alone.
proof fn lemma_chain_frame(a: Seq<ItemModel>, b: Seq<ItemModel>, cur: Option<usize>)
    requires
        a.len() == b.len(),
        forall|i: int| 0 <= i < a.len() && i < rank(cur) ==> (#[trigger] a[i]).next == b[i].next,
    ensures
        chain(a, cur) == chain(b, cur),
    decreases rank(cur),
{
    match cur {
        None => {},
        Some(c) => {
            if c < a.len() && rank(a[c as int].next) < rank(cur) {
                lemma_chain_frame(a, b, a[c as int].next);
            }
        },
    }
}

impl Configuration {
    /// The children of the item at `parent`, the newest first.
    pub fn children_of(&self, parent: usize) -> (r: Vec<usize>)
        requires
            self.wf(),
            parent < self@.len(),
        ensures
            r@ == children(self@, parent),
    {
        assert(self@[parent as int] == self.items[parent as int]@);
        let mut kids: Vec<usize> = Vec::new();
        let mut cur = self.items[parent].child;
        while cur.is_some()
            invariant
                self.wf(),
                cur is Some ==> cur->0 < self@.len(),
                children(self@, parent) == kids@ + chain(self@, cur),
            decreases rank(cur),
        {
            let c = cur.unwrap();
            assert(self@[c as int] == self.items[c as int]@);
            let ghost before = kids@;
            let ghost rest = chain(self@, self@[c as int].next);
            kids.push(c);
            assert(before + (seq![c] + rest) =~= before.push(c) + rest);
            cur = self.items[c].next;
        }
        assert(kids@ + Seq::<usize>::empty() =~= kids@);
        kids
    }

    /// Links the items `kids`, the children of the item at `top`, anew:
    /// those with the value `value`, or all of them where `all` is set, leave
    /// the chain.
    fn unlink(&mut self, top: usize, kids: &Vec<usize>, value: &str, all: bool)
        requires
            old(self).wf(),
            top < old(self)@.len(),
            kids@ == children(old(self)@, top),
        ensures
            final(self).wf(),
            children(final(self)@, top) == (if all {
                Seq::<usize>::empty()
            } else {
                kept(old(self)@, kids@, value@, 0)
            }),
            unlinked(old(self)@, final(self)@, top, kids@, value@, all),
    {
        let ghost before = self@;
        proof {
            lemma_chain(before, before[top as int].child, top);
        }
        let mut head: Option<usize> = None;
        let mut j: usize = kids.len();
        while j > 0
            invariant
                j <= kids.len(),
                before == old(self)@,
                well_formed(before),
                top < before.len(),
                kids@ == children(before, top),
                self@.len() == before.len(),
                forall|a: int|
                    0 <= a < kids.len() ==> (#[trigger] kids[a]) < before.len()
                        && before[kids[a] as int].parent == Some(top),
                forall|a: int, b: int|
                    0 <= a < b < kids.len() ==> (#[trigger] kids[a]) > (#[trigger] kids[b]),
                forall|i: int|
                    0 <= i < before.len() ==> (#[trigger] self@[i]).tag == before[i].tag
                        && self@[i].value == before[i].value && self@[i].parent == before[i].parent
                        && self@[i].child == before[i].child,
                forall|i: int|
                    0 <= i < before.len() && !(exists|a: int|
                        j <= a < kids.len() && kids[a] == i) ==> (#[trigger] self@[i]).next
                        == before[i].next,
                forall|a: int|
                    j <= a < kids.len() ==> match (#[trigger] self@[kids[a] as int]).next {
                        Some(n) => n < kids[a] && before[n as int].parent == Some(top),
                        None => true,
                    },
                forall|a: int|
                    j <= a < kids.len() && (all || before[kids[a] as int].value == value@)
                        ==> (#[trigger] self@[kids[a] as int]).next is None,
                match head {
                    Some(h) => exists|a: int| j <= a < kids.len() && kids[a] == h,
                    None => true,
                },
                chain(self@, head) == (if all {
                    Seq::<usize>::empty()
                } else {
                    kept(before, kids@, value@, j as int)
                }),
            decreases j,
        {
            j -= 1;
            let c = kids[j];
            let ghost mid = self@;
            assert(mid[c as int] == self.items[c as int]@);
            assert(mid[c as int].value == before[c as int].value);
            let leaves = all || same_text(self.items[c].value.as_str(), value);
            if leaves {
                self.items[c].next = None;
            } else {
                self.items[c].next = head;
            }
            proof {
                let now = self@;
                assert(now[c as int] == self.items[c as int]@);
                assert forall|i: int| 0 <= i < before.len() && i != c implies #[trigger] now[i]
                    == mid[i] by {
                    assert(now[i] == self.items[i]@);
                }
                match head {
                    Some(h) => {
                        let a = choose|a: int| j < a < kids.len() && kids[a] == h;
                        assert(kids[j as int] > kids[a]);
                    },
                    None => {},
                }
                lemma_chain_frame(mid, now, head);
                if !leaves {
                    assert(chain(now, Some(c)) =~= seq![c] + chain(now, head));
                }
            }
            if !leaves {
                head = Some(c);
            }
        }
        let ghost mid = self@;
        self.items[top].child = head;
        proof {
            let now = self@;
            assert(now[top as int] == self.items[top as int]@);
            assert(mid[top as int].parent == now[top as int].parent);
            assert(mid[top as int].next == now[top as int].next);
            assert(mid[top as int].tag == now[top as int].tag);
            assert(mid[top as int].value == now[top as int].value);
            assert forall|i: int| 0 <= i < before.len() && i != top implies #[trigger] now[i]
                == mid[i] by {
                assert(now[i] == self.items[i]@);
            }
            assert forall|i: int| 0 <= i < mid.len() implies (#[trigger] mid[i]).next
                == now[i].next && mid[i].parent == now[i].parent && mid[i].tag == now[i].tag
                && mid[i].value == now[i].value by {
                if i != top {
                    assert(now[i] == mid[i]);
                }
            }
            lemma_chain_frame(mid, now, head);
            assert forall|i: int| 0 <= i < now.len() implies match (#[trigger] now[i]).next {
                Some(n) => n < i && now[i].parent is Some && now[n as int].parent == now[i].parent,
                None => true,
            } by {
                assert(now[i].next == mid[i].next);
                if exists|a: int| 0 <= a < kids.len() && kids[a] == i {
                    let a = choose|a: int| 0 <= a < kids.len() && kids[a] == i;
                    assert(mid[kids[a] as int].next == now[i].next);
                    match now[i].next {
                        Some(n) => {
                            assert(now[n as int].parent == before[n as int].parent);
                        },
                        None => {},
                    }
                } else {
                    match before[i].next {
                        Some(n) => {
                            assert(now[n as int].parent == before[n as int].parent);
                        },
                        None => {},
                    }
                }
            }
            assert forall|i: int| 0 <= i < now.len() implies match (#[trigger] now[i]).child {
                Some(x) => x < now.len() && now[x as int].parent == Some(i as usize),
                None => true,
            } by {
                if i == top {
                    match head {
                        Some(h) => {
                            let a = choose|a: int| 0 <= a < kids.len() && kids[a] == h;
                            assert(now[h as int].parent == before[h as int].parent);
                        },
                        None => {},
                    }
                } else {
                    assert(now[i].child == before[i].child);
                    match before[i].child {
                        Some(x) => {
                            assert(now[x as int].parent == before[x as int].parent);
                        },
                        None => {},
                    }
                }
            }
            assert forall|i: int| 0 <= i < now.len() implies match (#[trigger] now[i]).parent {
                Some(q) => q < i,
                None => true,
            } by {
                assert(now[i].parent == before[i].parent);
            }
            assert forall|i: int| 0 <= i < before.len() && !kids@.contains(i as usize) implies (
            #[trigger] now[i]).next == before[i].next by {
                {
                    if exists|a: int| 0 <= a < kids.len() && kids[a] == i {
                        let a = choose|a: int| 0 <= a < kids.len() && kids[a] == i;
                        assert(kids@[a] == i as usize);
                    }
                    assert(mid[i].next == before[i].next);
                }
            }
        }
    }

    /// Takes out of the tree the direct children of the item named `name`
    /// that have the value `value`.
    #[allow(non_snake_case)]
    pub fn Clear(&mut self, name: &str, value: &str)
        requires
            old(self).wf(),
        ensures
            final(self).wf(),
            match lookup_of(old(self)@, name@) {
                None => final(self)@ == old(self)@,
                Some(top) => {
                    &&& children(final(self)@, top) == kept(
                        old(self)@,
                        children(old(self)@, top),
                        value@,
                        0,
                    )
                    &&& unlinked(
                        old(self)@,
                        final(self)@,
                        top,
                        children(old(self)@, top),
                        value@,
                        false,
                    )
                },
            },
    {
        match self.find(name) {
            Some(top) => {
                let kids = self.children_of(top);
                self.unlink(top, &kids, value, false);
            },
            None => {},
        }
    }

    /// Takes out of the tree all direct children of the item named `name`.
    #[allow(non_snake_case)]
    pub fn ClearForce(&mut self, name: &str)
        requires
            old(self).wf(),
        ensures
            final(self).wf(),
            match lookup_of(old(self)@, name@) {
                None => final(self)@ == old(self)@,
                Some(top) => {
                    &&& children(final(self)@, top).len() == 0
                    &&& unlinked(
                        old(self)@,
                        final(self)@,
                        top,
                        children(old(self)@, top),
                        Seq::<char>::empty(),
                        true,
                    )
                },
            },
    {
        match self.find(name) {
            Some(top) => {
                let kids = self.children_of(top);
                let none = String::new();
                self.unlink(top, &kids, none.as_str(), true);
            },
            None => {},
        }
    }
}


/// For each of `kids` from index `k` on, children of the item at `parent`:
/// what lies below it, then the item itself, each with its tags from below
/// the item at `stopper` and its value.
pub open spec fn moved_kids(
    items: Seq<ItemModel>,
    parent: usize,
    kids: Seq<usize>,
    k: int,
    stopper: usize,
) -> Seq<(Seq<char>, Seq<char>)>
    decreases items.len() - parent, kids.len() - k,
{
    if k < 0 || k >= kids.len() {
        Seq::empty()
    } else {
        let c = kids[k];
        (if parent < c < items.len() {
            moved_kids(items, c, children(items, c), 0, stopper) + seq![
                (
                    full_tag(items, items[c as int].parent, items[c as int].tag, stopper),
                    items[c as int].value,
                ),
            ]
        } else {
            Seq::empty()
        }) + moved_kids(items, parent, kids, k + 1, stopper)
    }
}

/// The items below the item at `top`, each with its tags from below `top`
/// and its value; an item comes after those below it.
pub open spec fn moved(items: Seq<ItemModel>, top: usize) -> Seq<(Seq<char>, Seq<char>)> {
    moved_kids(items, top, children(items, top), 0, top)
}

/// The item whose subtree a move from `oldname` to `newname` takes: none
/// where `oldname` is empty, where the two names are one, where `newname`
/// is `oldname` with `::` after it, or where no item is named `oldname`.
pub open spec fn moved_from(items: Seq<ItemModel>, oldname: Seq<char>, newname: Seq<char>) -> Option<
    usize,
> {
    if oldname.len() == 0 || oldname == newname || oldname + "::"@ == newname {
        None
    } else {
        lookup_of(items, oldname)
    }
}

/// `items` with the item at `top` without its value and its children.
pub open spec fn detached(items: Seq<ItemModel>, top: usize) -> Seq<ItemModel> {
    items.update(
        top as int,
        ItemModel { value: Seq::empty(), child: None, ..items[top as int] },
    )
}

/// `items` after each of `entries` from index `k` on, a name and a value,
/// was set under its name with `prefix` before it.
pub open spec fn set_all(
    items: Seq<ItemModel>,
    prefix: Seq<char>,
    entries: Seq<(Seq<char>, Seq<char>)>,
    k: int,
) -> Seq<ItemModel>
    decreases entries.len() - k,
{
    if k < 0 || k >= entries.len() {
        items
    } else {
        set_all(set_to(items, prefix + entries[k].0, entries[k].1), prefix, entries, k + 1)
    }
}

/// What stands before the tags of a moved item in its new name: nothing
/// where `newname` is empty, else `newname` twice.
pub open spec fn new_prefix(newname: Seq<char>) -> Seq<char> {
    if newname.len() > 0 {
        newname + newname
    } else {
        Seq::empty()
    }
}

proof fn lemma_split_has_a_piece(s: Seq<char>, sep: Seq<char>)
    ensures
        split(s, sep).len() >= 1,
{
    assert(split(s, sep) == split_from(s, sep, 0));
}

/// An item with a name that is not empty is not the root, and the root
/// has a child.
proof fn lemma_named_item(items: Seq<ItemModel>, name: Seq<char>)
    requires
        well_formed(items),
        name.len() > 0,
        lookup_of(items, name) is Some,
    ensures
        lookup_of(items, name)->0 >= 1,
        lookup_of(items, name)->0 < items.len(),
        items[0].child is Some,
{
    let tags = split(name, "::"@);
    lemma_split_has_a_piece(name, "::"@);
    lemma_reach(items, tags, tags.len() as int);
    lemma_reach_before(items, tags, 1, tags.len() as int);
    assert(reach(items, tags, 0) == Some(0usize));
}

impl Configuration {
    /// Adds to `out` the items below the item at `parent`, each with its
    /// tags from below the item at `stopper` and its value.
    fn collect(&self, parent: usize, stopper: usize, out: &mut Vec<(String, String)>)
        requires
            self.wf(),
            parent < self@.len(),
        ensures
            string_pair_views(final(out)@) == string_pair_views(old(out)@) + moved_kids(
                self@,
                parent,
                children(self@, parent),
                0,
                stopper,
            ),
        decreases self@.len() - parent,
    {
        let kids = self.children_of(parent);
        proof {
            lemma_chain(self@, self@[parent as int].child, parent);
        }
        let mut k: usize = 0;
        while k < kids.len()
            invariant
                k <= kids.len(),
                self.wf(),
                parent < self@.len(),
                kids@ == children(self@, parent),
                forall|a: int|
                    0 <= a < kids.len() ==> parent < (#[trigger] kids[a]) < self@.len(),
                string_pair_views(out@) + moved_kids(self@, parent, kids@, k as int, stopper)
                    == string_pair_views(old(out)@) + moved_kids(self@, parent, kids@, 0, stopper),
            decreases kids.len() - k,
        {
            let c = kids[k];
            let ghost head = string_pair_views(out@);
            let ghost rest = moved_kids(self@, parent, kids@, k + 1, stopper);
            let ghost below = moved_kids(self@, c, children(self@, c), 0, stopper);
            self.collect(c, stopper, out);
            assert(self@[c as int] == self.items[c as int]@);
            let tag = self.items[c].FullTag(self, stopper);
            let value = self.items[c].value.clone();
            let ghost entry = (tag@, value@);
            let ghost mid = string_pair_views(out@);
            out.push((tag, value));
            assert(string_pair_views(out@) =~= mid.push(entry));
            assert(head + ((below + seq![entry]) + rest) =~= (head + below).push(entry) + rest);
            k += 1;
        }
        assert(string_pair_views(out@) + Seq::<(Seq<char>, Seq<char>)>::empty() =~= string_pair_views(
            out@,
        ));
    }

    /// Takes the items below the item named `oldname` out of the tree and
    /// sets each of them anew, with its value, under the name made of
    /// `newname` twice and of its tags from below the old item. The old item
    /// loses its value and its children. Each item that was moved can then
    /// be found under its new name.
    #[allow(non_snake_case)]
    pub fn MoveSubTree(&mut self, oldname: &str, newname: &str)
        requires
            old(self).wf(),
        ensures
            final(self).wf(),
            match moved_from(old(self)@, oldname@, newname@) {
                None => final(self)@ == old(self)@,
                Some(top) => {
                    &&& final(self)@ == set_all(
                        detached(old(self)@, top),
                        new_prefix(newname@),
                        moved(old(self)@, top),
                        0,
                    )
                    &&& forall|m: int|
                        0 <= m < moved(old(self)@, top).len() ==> lookup_of(
                            final(self)@,
                            new_prefix(newname@) + (#[trigger] moved(old(self)@, top)[m]).0,
                        ) is Some
                },
            },
    {
        if oldname.is_empty() || same_text(oldname, newname) {
            return ;
        }
        let mut with_colons = String::from_str(oldname);
        with_colons.append("::");
        if same_text(with_colons.as_str(), newname) {
            return ;
        }
        let top = match self.find(oldname) {
            Some(top) => top,
            None => {
                return ;
            },
        };
        proof {
            lemma_named_item(self@, oldname@);
        }
        let mut prefix = String::from_str(newname);
        if !newname.is_empty() {
            prefix.append(newname);
        }
        assert(prefix@ =~= new_prefix(newname@));
        let mut entries: Vec<(String, String)> = Vec::new();
        assert(string_pair_views(entries@) =~= Seq::empty());
        self.collect(top, top, &mut entries);
        assert(string_pair_views(entries@) =~= moved(old(self)@, top));
        self.detach(top);
        let ghost start = self@;
        let mut i: usize = 0;
        while i < entries.len()
            invariant
                i <= entries.len(),
                self.wf(),
                self@[0].child is Some,
                set_all(start, prefix@, string_pair_views(entries@), 0) == set_all(
                    self@,
                    prefix@,
                    string_pair_views(entries@),
                    i as int,
                ),
                string_pair_views(entries@) == moved(old(self)@, top),
                prefix@ == new_prefix(newname@),
                forall|m: int|
                    0 <= m < i ==> lookup_of(
                        self@,
                        prefix@ + (#[trigger] string_pair_views(entries@)[m]).0,
                    ) is Some,
            decreases entries.len() - i,
        {
            let mut name = prefix.clone();
            name.append(entries[i].0.as_str());
            assert(string_pair_views(entries@)[i as int] == (
                entries[i as int].0@,
                entries[i as int].1@,
            ));
            let ghost before = self@;
            self.SetValue(name.as_str(), entries[i].1.as_str());
            proof {
                let after = self@;
                assert forall|m: int| 0 <= m <= i implies lookup_of(
                    after,
                    prefix@ + (#[trigger] string_pair_views(entries@)[m]).0,
                ) is Some by {
                    let n = prefix@ + string_pair_views(entries@)[m].0;
                    if m < i {
                        if n.len() > 0 {
                            let tags = split(n, "::"@);
                            assert(reach(before, tags, tags.len() as int) is Some);
                        }
                    }
                }
            }
            i += 1;
        }
    }

    /// Takes from the item at `top` its value and its children.
    fn detach(&mut self, top: usize)
        requires
            old(self).wf(),
            1 <= top < old(self)@.len(),
            old(self)@[0].child is Some,
        ensures
            final(self).wf(),
            final(self)@[0].child is Some,
            final(self)@ == detached(old(self)@, top),
    {
        let ghost before = self@;
        assert(before[0] == self.items[0]@);
        self.items[top].value = String::new();
        self.items[top].child = None;
        proof {
            let now = self@;
            assert(now[top as int] == self.items[top as int]@);
            assert(before[top as int] == old(self).items[top as int]@);
            assert(now[0] == self.items[0]@);
            assert forall|i: int| 0 <= i < before.len() && i != top implies #[trigger] now[i]
                == before[i] by {
                assert(now[i] == self.items[i]@);
                assert(before[i] == old(self).items[i]@);
            }
            assert(now =~= detached(before, top));
            assert forall|i: int| 0 <= i < now.len() implies (#[trigger] now[i]).parent
                == before[i].parent && now[i].next == before[i].next && (i != top ==> now[i].child
                == before[i].child) by {
                if i != top {
                    assert(now[i] == before[i]);
                }
            }
            assert forall|i: int| 0 <= i < now.len() implies match (#[trigger] now[i]).next {
                Some(n) => n < i && now[i].parent is Some && now[n as int].parent == now[i].parent,
                None => true,
            } by {
                match before[i].next {
                    Some(n) => {
                        assert(now[n as int].parent == before[n as int].parent);
                    },
                    None => {},
                }
            }
            assert forall|i: int| 0 <= i < now.len() implies match (#[trigger] now[i]).child {
                Some(x) => x < now.len() && now[x as int].parent == Some(i as usize),
                None => true,
            } by {
                if i != top {
                    match before[i].child {
                        Some(x) => {
                            assert(now[x as int].parent == before[x as int].parent);
                        },
                        None => {},
                    }
                }
            }
        }
    }
}

} // verus!
