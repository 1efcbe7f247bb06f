//! The addressable nested-list tree: entries, sublists, and the
//! path-addressed mutations (append, positional insert, remove, move)
//! with automatic promotion of entries and demotion of emptied sublists.
//!
//! A path is a sequence of child indices consumed left to right: all but
//! the last segment descend into a sublist, the last one addresses a
//! position among the children of the level reached.

use vstd::prelude::*;
use crate::date::DateMaybeTime;

verus! {

/// A leaf to-do item: a title and an optional date.
#[derive(Debug)]
pub struct TodoEntry {
    pub title: String,
    pub date: Option<DateMaybeTime>,
}

/// A nested to-do list: a title, an optional date, and ordered children.
#[derive(Debug)]
pub struct TodoList {
    pub title: String,
    pub date: Option<DateMaybeTime>,
    pub list: Vec<ListItem>,
}

/// A node of the tree: a leaf entry or a sublist.
#[derive(Debug)]
pub enum ListItem {
    Entry(TodoEntry),
    List(TodoList),
}

/// Why a path was rejected: a position beyond the end of a level, or an
/// attempt to descend through a leaf entry.
#[derive(Clone, Copy, PartialEq, Eq, Structural, Debug)]
pub enum IndexError {
    TooBig,
    NotAList,
}

/// Mathematical model of an entry.
#[verifier::ext_equal]
pub struct EntryV {
    pub title: Seq<char>,
    pub date: Option<DateMaybeTime>,
}

/// Mathematical model of a sublist.
#[verifier::ext_equal]
pub struct ListV {
    pub title: Seq<char>,
    pub date: Option<DateMaybeTime>,
    pub items: Seq<ItemV>,
}

/// Mathematical model of a node.
#[verifier::ext_equal]
pub enum ItemV {
    Entry(EntryV),
    List(ListV),
}

impl View for TodoEntry {
    type V = EntryV;

    open spec fn view(&self) -> EntryV {
        EntryV { title: self.title@, date: self.date }
    }
}

impl View for TodoList {
    type V = ListV;

    open spec fn view(&self) -> ListV
        decreases self,
    {
        ListV {
            title: self.title@,
            date: self.date,
            items: Seq::new(
                self.list@.len(),
                |i: int| if 0 <= i < self.list@.len() {
                    self.list@[i].view()
                } else {
                    arbitrary()
                },
            ),
        }
    }
}

impl View for ListItem {
    type V = ItemV;

    open spec fn view(&self) -> ItemV
        decreases self,
    {
        match self {
            ListItem::Entry(e) => ItemV::Entry(e@),
            ListItem::List(l) => ItemV::List(l.view()),
        }
    }
}

/// How the model of a node is built from the node.
pub broadcast proof fn lemma_item_view(x: ListItem)
    ensures
        #[trigger] x@ == (match x {
            ListItem::Entry(e) => ItemV::Entry(EntryV { title: e.title@, date: e.date }),
            ListItem::List(l) => ItemV::List(l@),
        }),
{
    reveal_with_fuel(<ListItem as View>::view, 2);
}

/// How the model of a sublist is built from its fields.
pub broadcast proof fn lemma_list_view(l: TodoList)
    ensures
        (#[trigger] l@).title == l.title@,
        l@.date == l.date,
        l@.items.len() == l.list@.len(),
        forall|i: int| 0 <= i < l.list@.len() ==> #[trigger] l@.items[i] == l.list@[i]@,
{
    reveal_with_fuel(<TodoList as View>::view, 2);
}

/// The result of appending-or-placing `item` along `path` in the
/// sibling sequence `items`. With an exhausted path the item goes last.
/// A descend segment must address an existing child.
pub open spec fn spec_add(items: Seq<ItemV>, item: ItemV, path: Seq<usize>) -> Result<
    Seq<ItemV>,
    IndexError,
>
    decreases path.len(), 0int,
{
    if path.len() == 0 {
        Ok(items.push(item))
    } else {
        let i = path[0] as int;
        if i >= items.len() {
            Err(IndexError::TooBig)
        } else {
            match spec_add_child(items[i], item, path.skip(1)) {
                Ok(x) => Ok(items.update(i, x)),
                Err(e) => Err(e),
            }
        }
    }
}

/// Appending-or-placing inside one child that a descend segment
/// reached: a sublist takes the item along the remaining path; an entry
/// reached with nothing left to consume is promoted to a sublist whose
/// only child is the item; descending further through an entry fails.
pub open spec fn spec_add_child(x: ItemV, item: ItemV, rest: Seq<usize>) -> Result<
    ItemV,
    IndexError,
>
    decreases rest.len(), 1int,
{
    match x {
        ItemV::List(l) => match spec_add(l.items, item, rest) {
            Ok(ch) => Ok(ItemV::List(ListV { title: l.title, date: l.date, items: ch })),
            Err(e) => Err(e),
        },
        ItemV::Entry(en) => if rest.len() == 0 {
            Ok(ItemV::List(ListV { title: en.title, date: en.date, items: seq![item] }))
        } else {
            Err(IndexError::NotAList)
        },
    }
}

/// Mutable access to one child, tying the final level to the final
/// child value.
pub(crate) fn item_at<'a>(v: &'a mut Vec<ListItem>, i: usize) -> (r: &'a mut ListItem)
    requires
        i < old(v).len(),
    ensures
        *r == old(v)@[i as int],
        final(v)@ == old(v)@.update(i as int, *final(r)),
{
    &mut v[i]
}

/// Append-or-place `item` in the node `x` that a descend segment
/// reached, with the path segments from `k` on left to consume; see
/// [`spec_add_child`].
fn add_in_child(x: &mut ListItem, item: ListItem, path: &[usize], k: usize) -> (r: Result<
    (),
    IndexError,
>)
    requires
        k <= path@.len(),
    ensures
        match spec_add_child(old(x)@, item@, path@.skip(k as int)) {
            Ok(v) => r is Ok && final(x)@ == v,
            Err(e) => r == Err::<(), IndexError>(e) && final(x)@ == old(x)@,
        },
    decreases path@.len() - k, 1int,
{
    broadcast use lemma_item_view, lemma_list_view;

    match x {
        ListItem::List(l) => l.add_at(item, path, k),
        ListItem::Entry(e) => {
            if k == path.len() {
                proof {
                    assert(path@.skip(k as int) =~= Seq::<usize>::empty());
                }
                let title = e.title.clone();
                let date = e.date;
                *x = ListItem::List(TodoList { title, date, list: vec![item] });
                proof {
                    assert(x@->List_0.items =~= seq![item@]);
                    assert(x@ =~~= spec_add_child(old(x)@, item@, path@.skip(k as int))->Ok_0);
                }
                Ok(())
            } else {
                Err(IndexError::NotAList)
            }
        }
    }
}

impl TodoList {
    /// Append-or-place `item` along the segments of `path` from `k` on;
    /// see [`spec_add`].
    fn add_at(&mut self, item: ListItem, path: &[usize], k: usize) -> (r: Result<
        (),
        IndexError,
    >)
        requires
            k <= path@.len(),
        ensures
            final(self)@.title == old(self)@.title,
            final(self)@.date == old(self)@.date,
            match spec_add(old(self)@.items, item@, path@.skip(k as int)) {
                Ok(items) => r is Ok && final(self)@.items == items,
                Err(e) => r == Err::<(), IndexError>(e) && final(self)@ == old(self)@,
            },
        decreases path@.len() - k, 0int,
    {
        broadcast use lemma_item_view, lemma_list_view;

        if k == path.len() {
            proof {
                assert(path@.skip(k as int) =~= Seq::<usize>::empty());
            }
            self.list.push(item);
            proof {
                assert(self@.items =~~= old(self)@.items.push(item@));
            }
            Ok(())
        } else {
            let i = path[k];
            let ghost rest = path@.skip(k as int);
            proof {
                assert(rest[0] == path@[k as int]);
                assert(rest.skip(1) =~= path@.skip(k as int + 1));
            }
            if i >= self.list.len() {
                return Err(IndexError::TooBig);
            }
            let ghost old_items = self@.items;
            let elem = item_at(&mut self.list, i);
            let res = add_in_child(elem, item, path, k + 1);
            proof {
                match spec_add(old_items, item@, rest) {
                    Ok(items) => {
                        assert(self@.items =~~= items);
                    }
                    Err(_) => {
                        assert(self@.items =~~= old(self)@.items);
                        assert(self@ =~~= old(self)@);
                    }
                }
            }
            res
        }
    }

    /// Append `item` at the level `path` addresses: an empty path
    /// appends to this list's own children; descend segments must name
    /// existing children, and reaching an entry on the last segment
    /// promotes it to a sublist containing exactly `item`. On an error
    /// the tree is unchanged.
    pub fn add_item(&mut self, item: ListItem, path: &[usize]) -> (r: Result<(), IndexError>)
        ensures
            final(self)@.title == old(self)@.title,
            final(self)@.date == old(self)@.date,
            match spec_add(old(self)@.items, item@, path@) {
                Ok(items) => r is Ok && final(self)@.items == items,
                Err(e) => r == Err::<(), IndexError>(e) && final(self)@ == old(self)@,
            },
    {
        proof {
            assert(path@.skip(0) =~= path@);
        }
        self.add_at(item, path, 0)
    }
}

/// The result of removing the node `path` addresses from the sibling
/// sequence `items`: the new sequence and the removed node. The path
/// must reach an existing child; a sublist whose children become empty
/// through the removal is demoted to an entry with its title and date.
pub open spec fn spec_remove(items: Seq<ItemV>, path: Seq<usize>) -> Result<
    (Seq<ItemV>, ItemV),
    IndexError,
>
    recommends
        path.len() >= 1,
    decreases path.len(), 0int,
{
    let i = path[0] as int;
    if path.len() == 0 || i >= items.len() {
        Err(IndexError::TooBig)
    } else if path.len() == 1 {
        Ok((items.remove(i), items[i]))
    } else {
        match spec_remove_child(items[i], path.skip(1)) {
            Ok((x, removed)) => Ok((items.update(i, x), removed)),
            Err(e) => Err(e),
        }
    }
}

/// Removing inside one child that a descend segment reached: only a
/// sublist can be descended into; it is demoted to an entry when the
/// removal empties it.
pub open spec fn spec_remove_child(x: ItemV, rest: Seq<usize>) -> Result<
    (ItemV, ItemV),
    IndexError,
>
    recommends
        rest.len() >= 1,
    decreases rest.len(), 1int,
{
    match x {
        ItemV::Entry(_) => Err(IndexError::NotAList),
        ItemV::List(l) => match spec_remove(l.items, rest) {
            Ok((ch, removed)) => if ch.len() == 0 {
                Ok((ItemV::Entry(EntryV { title: l.title, date: l.date }), removed))
            } else {
                Ok((ItemV::List(ListV { title: l.title, date: l.date, items: ch }), removed))
            },
            Err(e) => Err(e),
        },
    }
}

/// Remove from the node `x` that a descend segment reached, with the
/// path segments from `k` on left to consume; see [`spec_remove_child`].
fn remove_in_child(x: &mut ListItem, path: &[usize], k: usize) -> (r: Result<
    ListItem,
    IndexError,
>)
    requires
        k < path@.len(),
    ensures
        match spec_remove_child(old(x)@, path@.skip(k as int)) {
            Ok((v, removed)) => r is Ok && final(x)@ == v && r->Ok_0@ == removed,
            Err(e) => r is Err && r->Err_0 == e && final(x)@ == old(x)@,
        },
    decreases path@.len() - k, 1int,
{
    broadcast use lemma_item_view, lemma_list_view;

    match x {
        ListItem::Entry(_) => Err(IndexError::NotAList),
        ListItem::List(l) => {
            let res = l.remove_at(path, k);
            match res {
                Err(e) => Err(e),
                Ok(removed) => {
                    if l.list.len() == 0 {
                        let title = l.title.clone();
                        let date = l.date;
                        *x = ListItem::Entry(TodoEntry { title, date });
                    }
                    Ok(removed)
                }
            }
        }
    }
}

impl TodoList {
    /// Remove along the segments of `path` from `k` on; see
    /// [`spec_remove`].
    fn remove_at(&mut self, path: &[usize], k: usize) -> (r: Result<ListItem, IndexError>)
        requires
            k < path@.len(),
        ensures
            final(self)@.title == old(self)@.title,
            final(self)@.date == old(self)@.date,
            match spec_remove(old(self)@.items, path@.skip(k as int)) {
                Ok((items, removed)) => r is Ok && final(self)@.items == items
                    && r->Ok_0@ == removed,
                Err(e) => r is Err && r->Err_0 == e && final(self)@ == old(self)@,
            },
        decreases path@.len() - k, 0int,
    {
        broadcast use lemma_item_view, lemma_list_view;

        let n = path.len();
        let i = path[k];
        let ghost rest = path@.skip(k as int);
        proof {
            assert(rest[0] == path@[k as int]);
            assert(rest.skip(1) =~= path@.skip(k as int + 1));
        }
        if i >= self.list.len() {
            return Err(IndexError::TooBig);
        }
        if k + 1 == n {
            let removed = self.list.remove(i);
            proof {
                assert(self@.items =~~= old(self)@.items.remove(i as int));
            }
            Ok(removed)
        } else {
            let ghost old_items = self@.items;
            let elem = item_at(&mut self.list, i);
            let res = remove_in_child(elem, path, k + 1);
            proof {
                match spec_remove(old_items, rest) {
                    Ok((items, removed)) => {
                        assert(self@.items =~~= items);
                    }
                    Err(_) => {
                        assert(self@.items =~~= old(self)@.items);
                        assert(self@ =~~= old(self)@);
                    }
                }
            }
            res
        }
    }

    /// Remove and return the node `path` addresses. All but the last
    /// segment descend into existing sublists; the last segment names
    /// the child to remove. A sublist emptied by the removal is demoted
    /// to an entry carrying its title and date. On an error the tree is
    /// unchanged.
    pub fn remove_item(&mut self, path: &[usize]) -> (r: Result<ListItem, IndexError>)
        requires
            path@.len() >= 1,
        ensures
            final(self)@.title == old(self)@.title,
            final(self)@.date == old(self)@.date,
            match spec_remove(old(self)@.items, path@) {
                Ok((items, removed)) => r is Ok && final(self)@.items == items
                    && r->Ok_0@ == removed,
                Err(e) => r is Err && r->Err_0 == e && final(self)@ == old(self)@,
            },
    {
        proof {
            assert(path@.skip(0) =~= path@);
        }
        self.remove_at(path, 0)
    }
}

/// The result of inserting `item` at the explicit position `path`
/// addresses in the sibling sequence `items`. The final segment is the
/// position, which may equal the level's length (append); descend
/// segments must address an existing child; an entry reached by the
/// next-to-last segment is promoted to a sublist when the final segment
/// is 0, so that it holds exactly the item.
pub open spec fn spec_insert(items: Seq<ItemV>, item: ItemV, path: Seq<usize>) -> Result<
    Seq<ItemV>,
    IndexError,
>
    recommends
        path.len() >= 1,
    decreases path.len(), 0int,
{
    let i = path[0] as int;
    if path.len() == 0 {
        Err(IndexError::TooBig)
    } else if path.len() == 1 {
        if i <= items.len() {
            Ok(items.insert(i, item))
        } else {
            Err(IndexError::TooBig)
        }
    } else if i >= items.len() {
        Err(IndexError::TooBig)
    } else {
        match spec_insert_child(items[i], item, path.skip(1)) {
            Ok(x) => Ok(items.update(i, x)),
            Err(e) => Err(e),
        }
    }
}

/// Positional insertion inside one child that a descend segment
/// reached: a sublist takes the item along the remaining path; an entry
/// with exactly the position segment left is promoted when that
/// position is 0 (the only valid position in the sublist it becomes).
pub open spec fn spec_insert_child(x: ItemV, item: ItemV, rest: Seq<usize>) -> Result<
    ItemV,
    IndexError,
>
    recommends
        rest.len() >= 1,
    decreases rest.len(), 1int,
{
    match x {
        ItemV::List(l) => match spec_insert(l.items, item, rest) {
            Ok(ch) => Ok(ItemV::List(ListV { title: l.title, date: l.date, items: ch })),
            Err(e) => Err(e),
        },
        ItemV::Entry(en) => if rest.len() == 1 {
            if rest[0] == 0 {
                Ok(ItemV::List(ListV { title: en.title, date: en.date, items: seq![item] }))
            } else {
                Err(IndexError::TooBig)
            }
        } else {
            Err(IndexError::NotAList)
        },
    }
}

/// Insert `item` in the node `x` that a descend segment reached, with
/// the path segments from `k` on left to consume; see
/// [`spec_insert_child`].
fn insert_in_child(x: &mut ListItem, item: ListItem, path: &[usize], k: usize) -> (r: Result<
    (),
    (ListItem, IndexError),
>)
    requires
        k < path@.len(),
    ensures
        match spec_insert_child(old(x)@, item@, path@.skip(k as int)) {
            Ok(v) => r is Ok && final(x)@ == v,
            Err(e) => r is Err && r->Err_0.0 == item && r->Err_0.1 == e && final(x)@
                == old(x)@,
        },
    decreases path@.len() - k, 1int,
{
    broadcast use lemma_item_view, lemma_list_view;

    let n = path.len();
    match x {
        ListItem::List(l) => l.insert_at(item, path, k),
        ListItem::Entry(e) => {
            if k + 1 == n {
                if path[k] == 0 {
                    let title = e.title.clone();
                    let date = e.date;
                    *x = ListItem::List(TodoList { title, date, list: vec![item] });
                    proof {
                        assert(x@->List_0.items =~= seq![item@]);
                        assert(x@ =~~= spec_insert_child(
                            old(x)@,
                            item@,
                            path@.skip(k as int),
                        )->Ok_0);
                    }
                    Ok(())
                } else {
                    Err((item, IndexError::TooBig))
                }
            } else {
                Err((item, IndexError::NotAList))
            }
        }
    }
}

impl TodoList {
    /// Insert along the segments of `path` from `k` on; see
    /// [`spec_insert`].
    fn insert_at(&mut self, item: ListItem, path: &[usize], k: usize) -> (r: Result<
        (),
        (ListItem, IndexError),
    >)
        requires
            k < path@.len(),
        ensures
            final(self)@.title == old(self)@.title,
            final(self)@.date == old(self)@.date,
            match spec_insert(old(self)@.items, item@, path@.skip(k as int)) {
                Ok(items) => r is Ok && final(self)@.items == items,
                Err(e) => r is Err && r->Err_0.0 == item && r->Err_0.1 == e && final(self)@
                    == old(self)@,
            },
        decreases path@.len() - k, 0int,
    {
        broadcast use lemma_item_view, lemma_list_view;

        let n = path.len();
        let i = path[k];
        let ghost rest = path@.skip(k as int);
        proof {
            assert(rest[0] == path@[k as int]);
            assert(rest.skip(1) =~= path@.skip(k as int + 1));
        }
        if k + 1 == n {
            if i <= self.list.len() {
                self.list.insert(i, item);
                proof {
                    assert(self@.items =~~= old(self)@.items.insert(i as int, item@));
                }
                Ok(())
            } else {
                Err((item, IndexError::TooBig))
            }
        } else if i >= self.list.len() {
            Err((item, IndexError::TooBig))
        } else {
            let ghost old_items = self@.items;
            let elem = item_at(&mut self.list, i);
            let res = insert_in_child(elem, item, path, k + 1);
            proof {
                match spec_insert(old_items, item@, rest) {
                    Ok(items) => {
                        assert(self@.items =~~= items);
                    }
                    Err(_) => {
                        assert(self@.items =~~= old(self)@.items);
                        assert(self@ =~~= old(self)@);
                    }
                }
            }
            res
        }
    }

    /// Insert `item` at the explicit position the last segment of
    /// `path` addresses, after descending through the earlier segments;
    /// the position may equal the level's length, which appends. An
    /// entry reached by the next-to-last segment is promoted to a
    /// sublist holding exactly `item` when the final position is 0. On
    /// an error the tree is unchanged.
    pub fn insert_item(&mut self, item: ListItem, path: &[usize]) -> (r: Result<
        (),
        IndexError,
    >)
        requires
            path@.len() >= 1,
        ensures
            final(self)@.title == old(self)@.title,
            final(self)@.date == old(self)@.date,
            match spec_insert(old(self)@.items, item@, path@) {
                Ok(items) => r is Ok && final(self)@.items == items,
                Err(e) => r == Err::<(), IndexError>(e) && final(self)@ == old(self)@,
            },
    {
        proof {
            assert(path@.skip(0) =~= path@);
        }
        match self.insert_at(item, path, 0) {
            Ok(()) => Ok(()),
            Err((_, e)) => Err(e),
        }
    }
}

/// Why a move was rejected: the source path was invalid, or the
/// destination path was (in which case the item has been restored at
/// its source and the tree is as it was).
#[derive(Clone, Copy, PartialEq, Eq, Structural, Debug)]
pub enum MoveError {
    BadSource(IndexError),
    MoveFailed,
}

/// Removing a node and inserting it back at the same path restores the
/// sibling sequence exactly, demotion and promotion included: a sublist
/// demoted by the removal of its last child is promoted back by the
/// reinsertion.
pub proof fn lemma_remove_insert(items: Seq<ItemV>, path: Seq<usize>)
    requires
        path.len() >= 1,
        spec_remove(items, path) is Ok,
    ensures
        ({
            let (rest_items, removed) = spec_remove(items, path)->Ok_0;
            &&& spec_insert(rest_items, removed, path) is Ok
            &&& spec_insert(rest_items, removed, path)->Ok_0 =~~= items
        }),
    decreases path.len(), 0int,
{
    let i = path[0] as int;
    let (rest_items, removed) = spec_remove(items, path)->Ok_0;
    if path.len() == 1 {
        assert(rest_items.insert(i, removed) =~~= items);
    } else {
        lemma_remove_insert_child(items[i], path.skip(1));
        let (x2, rem) = spec_remove_child(items[i], path.skip(1))->Ok_0;
        assert(spec_insert(rest_items, removed, path)->Ok_0 =~~= items);
    }
}

/// The one-child companion of [`lemma_remove_insert`].
pub proof fn lemma_remove_insert_child(x: ItemV, rest: Seq<usize>)
    requires
        rest.len() >= 1,
        spec_remove_child(x, rest) is Ok,
    ensures
        ({
            let (x2, removed) = spec_remove_child(x, rest)->Ok_0;
            &&& spec_insert_child(x2, removed, rest) is Ok
            &&& spec_insert_child(x2, removed, rest)->Ok_0 =~~= x
        }),
    decreases rest.len(), 1int,
{
    let l = x->List_0;
    let (ch, removed) = spec_remove(l.items, rest)->Ok_0;
    let (x2, _) = spec_remove_child(x, rest)->Ok_0;
    if ch.len() == 0 {
        // the child level emptied, so the removal was of its only
        // child: the demoted entry is promoted back around the item
        assert(rest.len() == 1 && rest[0] == 0 && l.items.len() == 1);
        assert(x2 == ItemV::Entry(EntryV { title: l.title, date: l.date }));
        assert(removed == l.items[0]);
        assert(spec_insert_child(x2, removed, rest) == Ok::<ItemV, IndexError>(
            ItemV::List(ListV { title: l.title, date: l.date, items: seq![removed] }),
        ));
        assert(seq![removed] =~~= l.items);
        assert(spec_insert_child(x2, removed, rest)->Ok_0 =~~= x);
    } else {
        lemma_remove_insert(l.items, rest);
        assert(spec_insert_child(x2, removed, rest)->Ok_0 =~~= x);
    }
}

/// Demotion happens exactly when a removal empties a sublist's
/// children, never otherwise, and it touches only the traversed path:
/// at each level of a successful removal, every sibling off the
/// consumed segment is unchanged; on the final segment the addressed
/// child is taken out and returned; on a descend segment the addressed
/// child is a sublist, and it becomes an entry with the sublist's own
/// title and date if and only if the removal below left it childless
/// (otherwise it stays a sublist with the same title and date and the
/// removal's result as children).
pub proof fn lemma_remove_demotes_only_on_empty(items: Seq<ItemV>, path: Seq<usize>)
    requires
        path.len() >= 1,
        spec_remove(items, path) is Ok,
    ensures
        ({
            let (rest_items, removed) = spec_remove(items, path)->Ok_0;
            let i = path[0] as int;
            &&& 0 <= i < items.len()
            &&& path.len() == 1 ==> rest_items == items.remove(i) && removed == items[i]
            &&& path.len() > 1 ==> {
                let l = items[i]->List_0;
                let (child_items, _) = spec_remove(l.items, path.skip(1))->Ok_0;
                &&& items[i] is List
                &&& rest_items.len() == items.len()
                &&& forall|j: int| 0 <= j < items.len() && j != i ==> rest_items[j]
                    == #[trigger] items[j]
                &&& (rest_items[i] is Entry <==> child_items.len() == 0)
                &&& rest_items[i] is Entry ==> rest_items[i]->Entry_0 == EntryV {
                    title: l.title,
                    date: l.date,
                }
                &&& rest_items[i] is List ==> rest_items[i]->List_0 == ListV {
                    title: l.title,
                    date: l.date,
                    items: child_items,
                }
            }
        }),
{
}

impl TodoList {
    /// Move the node at `from` to the position `to` addresses: remove,
    /// then insert the removed node. When the destination is invalid
    /// the removed node is restored at its source, so the tree is
    /// unchanged on every error.
    pub fn move_item(&mut self, from: &[usize], to: &[usize]) -> (r: Result<(), MoveError>)
        requires
            from@.len() >= 1,
            to@.len() >= 1,
        ensures
            final(self)@.title == old(self)@.title,
            final(self)@.date == old(self)@.date,
            match spec_remove(old(self)@.items, from@) {
                Err(e) => r == Err::<(), MoveError>(MoveError::BadSource(e)) && final(self)@
                    == old(self)@,
                Ok((rest_items, removed)) => match spec_insert(rest_items, removed, to@) {
                    Ok(items) => r is Ok && final(self)@.items == items,
                    Err(_) => r == Err::<(), MoveError>(MoveError::MoveFailed) && final(self)@
                        == old(self)@,
                },
            },
    {
        let removed = match self.remove_item(from) {
            Ok(x) => x,
            Err(e) => {
                return Err(MoveError::BadSource(e));
            }
        };
        match self.insert_back(removed, to) {
            Ok(()) => Ok(()),
            Err(back) => {
                proof {
                    lemma_remove_insert(old(self)@.items, from@);
                }
                match self.insert_back(back, from) {
                    Ok(()) => {
                        proof {
                            assert(self@ =~~= old(self)@);
                        }
                        Err(MoveError::MoveFailed)
                    }
                    Err(_) => {
                        // the round-trip lemma rules this arm out: the
                        // restore at the source path always succeeds
                        proof {
                            assert(false);
                        }
                        Err(MoveError::MoveFailed)
                    }
                }
            }
        }
    }

    /// Positional insert that hands the item back instead of dropping
    /// it when the path is invalid; what the move operation needs to
    /// restore on failure.
    fn insert_back(&mut self, item: ListItem, path: &[usize]) -> (r: Result<(), ListItem>)
        requires
            path@.len() >= 1,
        ensures
            final(self)@.title == old(self)@.title,
            final(self)@.date == old(self)@.date,
            match spec_insert(old(self)@.items, item@, path@) {
                Ok(items) => r is Ok && final(self)@.items == items,
                Err(_) => r is Err && r->Err_0 == item && final(self)@ == old(self)@,
            },
    {
        proof {
            assert(path@.skip(0) =~= path@);
        }
        match self.insert_at(item, path, 0) {
            Ok(()) => Ok(()),
            Err((back, _)) => Err(back),
        }
    }
}

impl TodoList {
    /// A new list with the given title and date and no children.
    pub fn from_info(title: String, date: Option<DateMaybeTime>) -> (r: TodoList)
        ensures
            r@.title == title@,
            r@.date == date,
            r@.items == Seq::<ItemV>::empty(),
    {
        broadcast use lemma_list_view;

        let r = TodoList { title, date, list: Vec::new() };
        proof {
            assert(r@.items =~= Seq::<ItemV>::empty());
        }
        r
    }

    /// The default list: the reserved name, no date, and one greeting
    /// entry dated with the current local date-time.
    pub fn default() -> (r: TodoList)
        ensures
            r@.title == crate::DEFAULT_LIST@,
            r@.date is None,
            r@.items.len() == 1,
            r@.items[0] matches ItemV::Entry(e) && (e.title == "Hello, world!"@
                && (e.date matches Some(d) && (d is DateTime && d.wf()))),
    {
        broadcast use lemma_item_view, lemma_list_view;

        let now = crate::date::now_moment();
        let time = crate::date::SimpleTime {
            hour: (now.secs / 3600) as u8,
            minute: ((now.secs % 3600) / 60) as u8,
        };
        let date = DateMaybeTime::DateTime(now.date, time);
        let entry = TodoEntry { title: String::from_str("Hello, world!"), date: Some(date) };
        TodoList {
            title: String::from_str(crate::DEFAULT_LIST),
            date: None,
            list: vec![ListItem::Entry(entry)],
        }
    }

    /// How many direct children this list has.
    pub fn child_count(&self) -> (r: usize)
        ensures
            r == self@.items.len(),
    {
        broadcast use lemma_list_view;

        self.list.len()
    }

    /// A borrow of the direct child at `i`.
    pub fn child_at(&self, i: usize) -> (r: &ListItem)
        requires
            i < self@.items.len(),
        ensures
            r@ == self@.items[i as int],
    {
        broadcast use lemma_list_view;

        &self.list[i]
    }
}

} // verus!
