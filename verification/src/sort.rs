//! The sort engine: a recursive, stable sort of siblings by effective
//! date, undated nodes after every dated one, nested sublists sorted
//! depth first.

use vstd::prelude::*;
use crate::date::{DateMaybeTime, SimpleTime};
use crate::tree::{ItemV, ListV, ListItem, TodoList, lemma_item_view, lemma_list_view, item_at};

verus! {

/// The sort key of a node: its optional date.
pub open spec fn spec_key(x: ItemV) -> Option<DateMaybeTime> {
    match x {
        ItemV::Entry(e) => e.date,
        ItemV::List(l) => l.date,
    }
}

/// Time-of-day order.
pub open spec fn spec_time_le(a: SimpleTime, b: SimpleTime) -> bool {
    a.hour < b.hour || (a.hour == b.hour && a.minute <= b.minute)
}

/// Order of temporal values: by calendar date, then by time, a plain
/// date before any date-time of the same day.
pub open spec fn spec_date_le(a: DateMaybeTime, b: DateMaybeTime) -> bool {
    let da = a.spec_date();
    let db = b.spec_date();
    if da.year != db.year {
        da.year < db.year
    } else if da.month != db.month {
        da.month < db.month
    } else if da.day != db.day {
        da.day < db.day
    } else {
        match (a, b) {
            (DateMaybeTime::Date(_), _) => true,
            (DateMaybeTime::DateTime(_, _), DateMaybeTime::Date(_)) => false,
            (DateMaybeTime::DateTime(_, ta), DateMaybeTime::DateTime(_, tb)) => spec_time_le(
                ta,
                tb,
            ),
        }
    }
}

/// Sibling order: by date, a node without a date after every dated one,
/// undated nodes tied among themselves.
pub open spec fn spec_le(a: ItemV, b: ItemV) -> bool {
    match (spec_key(a), spec_key(b)) {
        (None, None) => true,
        (Some(_), None) => true,
        (None, Some(_)) => false,
        (Some(x), Some(y)) => spec_date_le(x, y),
    }
}

/// `x` placed into `s` before the first element it sorts no later
/// than; what one step of the stable insertion sort does.
pub open spec fn spec_insert_sorted(x: ItemV, s: Seq<ItemV>) -> Seq<ItemV>
    decreases s.len(),
{
    if s.len() == 0 {
        seq![x]
    } else if spec_le(x, s[0]) {
        seq![x] + s
    } else {
        seq![s[0]] + spec_insert_sorted(x, s.drop_first())
    }
}

/// The stable sort of a sibling sequence: each node inserted, in
/// order, into the sorted remainder, so that earlier nodes precede
/// later ones whose key ties with theirs.
pub open spec fn spec_sort(s: Seq<ItemV>) -> Seq<ItemV>
    decreases s.len(),
{
    if s.len() == 0 {
        s
    } else {
        spec_insert_sorted(s[0], spec_sort(s.drop_first()))
    }
}

/// A sequence ordered by the sibling order.
pub open spec fn spec_sorted(s: Seq<ItemV>) -> bool {
    forall|i: int, j: int| 0 <= i < j < s.len() ==> spec_le(#[trigger] s[i], #[trigger] s[j])
}

/// The whole tree sorted: nested sublists first, depth first, then the
/// level itself.
pub open spec fn spec_sort_item(x: ItemV) -> ItemV
    decreases x, 2int,
{
    match x {
        ItemV::Entry(e) => ItemV::Entry(e),
        ItemV::List(l) => ItemV::List(
            ListV { title: l.title, date: l.date, items: spec_sort_level(l.items) },
        ),
    }
}

/// A sibling sequence with every member's own tree sorted, then the
/// sequence stably sorted by date.
pub open spec fn spec_sort_level(items: Seq<ItemV>) -> Seq<ItemV>
    decreases items, 1int,
{
    spec_sort(mapped_sort(items))
}

/// Each member's own tree sorted, the sequence order untouched.
pub open spec fn mapped_sort(items: Seq<ItemV>) -> Seq<ItemV>
    decreases items, 0int,
{
    Seq::new(
        items.len(),
        |i: int| if 0 <= i < items.len() {
            spec_sort_item(items[i])
        } else {
            arbitrary()
        },
    )
}

/// How [`spec_sort_item`] unfolds.
pub broadcast proof fn lemma_sort_item(x: ItemV)
    ensures
        #[trigger] spec_sort_item(x) == (match x {
            ItemV::Entry(e) => ItemV::Entry(e),
            ItemV::List(l) => ItemV::List(
                ListV { title: l.title, date: l.date, items: spec_sort_level(l.items) },
            ),
        }),
{
    reveal_with_fuel(spec_sort_item, 2);
}

/// How [`spec_sort_level`] unfolds.
pub broadcast proof fn lemma_sort_level(items: Seq<ItemV>)
    ensures
        #[trigger] spec_sort_level(items) == spec_sort(mapped_sort(items)),
{
    reveal_with_fuel(spec_sort_level, 2);
}

/// What [`mapped_sort`] holds at each position.
pub broadcast proof fn lemma_mapped_sort(items: Seq<ItemV>)
    ensures
        (#[trigger] mapped_sort(items)).len() == items.len(),
        forall|i: int| 0 <= i < items.len() ==> #[trigger] mapped_sort(items)[i]
            == spec_sort_item(items[i]),
{
    reveal_with_fuel(mapped_sort, 2);
}

/// The models of a sequence of nodes.
pub open spec fn views_of(s: Seq<ListItem>) -> Seq<ItemV> {
    Seq::new(s.len(), |i: int| s[i]@)
}

/// Whether `a` sorts no later than `b`.
fn le_item(a: &ListItem, b: &ListItem) -> (r: bool)
    ensures
        r == spec_le(a@, b@),
{
    broadcast use lemma_item_view, lemma_list_view;

    let da = match a {
        ListItem::Entry(e) => &e.date,
        ListItem::List(l) => &l.date,
    };
    let db = match b {
        ListItem::Entry(e) => &e.date,
        ListItem::List(l) => &l.date,
    };
    match (da, db) {
        (None, _) => db.is_none(),
        (Some(_), None) => true,
        (Some(x), Some(y)) => {
            let dx = match x {
                DateMaybeTime::Date(d) => *d,
                DateMaybeTime::DateTime(d, _) => *d,
            };
            let dy = match y {
                DateMaybeTime::Date(d) => *d,
                DateMaybeTime::DateTime(d, _) => *d,
            };
            if dx.year != dy.year {
                dx.year < dy.year
            } else if dx.month != dy.month {
                dx.month < dy.month
            } else if dx.day != dy.day {
                dx.day < dy.day
            } else {
                match (x, y) {
                    (DateMaybeTime::Date(_), _) => true,
                    (DateMaybeTime::DateTime(_, _), DateMaybeTime::Date(_)) => false,
                    (DateMaybeTime::DateTime(_, ta), DateMaybeTime::DateTime(_, tb)) => ta.hour
                        < tb.hour || (ta.hour == tb.hour && ta.minute <= tb.minute),
                }
            }
        }
    }
}

/// Where the stable insertion places `x`: before the first element it
/// sorts no later than, after everything else.
proof fn lemma_insert_sorted_at(x: ItemV, s: Seq<ItemV>, j: int)
    requires
        0 <= j <= s.len(),
        forall|jj: int| 0 <= jj < j ==> !spec_le(x, #[trigger] s[jj]),
        j < s.len() ==> spec_le(x, s[j]),
    ensures
        spec_insert_sorted(x, s) =~= s.take(j) + seq![x] + s.skip(j),
    decreases j,
{
    if s.len() == 0 {
    } else if j == 0 {
    } else {
        assert(!spec_le(x, s[0]));
        lemma_insert_sorted_at(x, s.drop_first(), j - 1);
        assert(seq![s[0]] + (s.drop_first().take(j - 1) + seq![x] + s.drop_first().skip(j - 1))
            =~= s.take(j) + seq![x] + s.skip(j));
    }
}

/// The position of the first element that `x` sorts no later than, or
/// the length when there is none.
fn find_pos(v: &Vec<ListItem>, x: &ListItem) -> (j: usize)
    ensures
        j <= v@.len(),
        forall|jj: int| 0 <= jj < j ==> !spec_le(x@, #[trigger] v@[jj]@),
        j < v@.len() ==> spec_le(x@, v@[j as int]@),
{
    let mut j: usize = 0;
    while j < v.len()
        invariant
            j <= v@.len(),
            forall|jj: int| 0 <= jj < j ==> !spec_le(x@, #[trigger] v@[jj]@),
        decreases v@.len() - j,
    {
        if le_item(x, &v[j]) {
            return j;
        }
        j += 1;
    }
    j
}

/// Insert `x` into the sorted `v` at its stable position.
fn insert_sorted_exec(v: &mut Vec<ListItem>, x: ListItem)
    ensures
        views_of(final(v)@) == spec_insert_sorted(x@, views_of(old(v)@)),
{
    let j = find_pos(v, &x);
    proof {
        assert(forall|jj: int| 0 <= jj < j ==> !spec_le(x@, #[trigger] views_of(v@)[jj]));
        assert((j as int) < views_of(v@).len() ==> spec_le(x@, views_of(v@)[j as int]));
        lemma_insert_sorted_at(x@, views_of(v@), j as int);
    }
    v.insert(j, x);
    proof {
        assert(views_of(v@) =~= views_of(old(v)@).take(j as int) + seq![x@] + views_of(
            old(v)@,
        ).skip(j as int));
    }
}

/// Stably sort the nodes of `v` by the sibling order.
fn sort_level(v: &mut Vec<ListItem>)
    ensures
        views_of(final(v)@) == spec_sort(views_of(old(v)@)),
{
    let ghost s = views_of(v@);
    let mut sorted: Vec<ListItem> = Vec::new();
    proof {
        assert(views_of(sorted@) =~= spec_sort(s.skip(v@.len() as int)));
    }
    while v.len() > 0
        invariant
            v@.len() <= s.len(),
            v@ == old(v)@.take(v@.len() as int),
            s == views_of(old(v)@),
            views_of(sorted@) == spec_sort(s.skip(v@.len() as int)),
        decreases v@.len(),
    {
        let ghost m = v@.len() as int - 1;
        let x = v.pop().unwrap();
        proof {
            assert(x@ == s[m]);
            assert(s.skip(m)[0] == s[m]);
            assert(s.skip(m).drop_first() =~= s.skip(m + 1));
            assert(views_of(sorted@) == spec_sort(s.skip(m).drop_first()));
        }
        insert_sorted_exec(&mut sorted, x);
        proof {
            assert(views_of(sorted@) == spec_sort(s.skip(m)));
            assert(v@ =~= old(v)@.take(v@.len() as int));
        }
    }
    proof {
        assert(s.skip(0) =~= s);
    }
    *v = sorted;
}

/// Sort the tree below one node; an entry is left as it is.
fn sort_child(x: &mut ListItem)
    ensures
        final(x)@ == spec_sort_item(old(x)@),
    decreases *x, 1int,
{
    broadcast use lemma_item_view, lemma_list_view, lemma_sort_item, lemma_sort_level;

    match x {
        ListItem::Entry(_) => {
        }
        ListItem::List(l) => {
            l.sort();
        }
    }
}

impl TodoList {
    /// Sort this list: first every nested sublist, depth first, then
    /// the direct children, stably, by date, undated children last.
    pub fn sort(&mut self)
        ensures
            final(self)@.title == old(self)@.title,
            final(self)@.date == old(self)@.date,
            final(self)@.items == spec_sort_level(old(self)@.items),
        decreases *self, 0int,
    {
        broadcast use lemma_item_view, lemma_list_view, lemma_sort_item, lemma_sort_level,
            lemma_mapped_sort;

        let n = self.list.len();
        let mut i: usize = 0;
        while i < n
            invariant
                n == self.list@.len(),
                n == old(self).list@.len(),
                i <= n,
                self.title == old(self).title,
                self.date == old(self).date,
                forall|j: int| 0 <= j < i ==> #[trigger] self.list@[j]@ == spec_sort_item(
                    old(self).list@[j]@,
                ),
                forall|j: int| i <= j < n ==> #[trigger] self.list@[j] == old(self).list@[j],
            decreases n - i,
        {
            let elem = item_at(&mut self.list, i);
            proof {
                assert(*elem == old(self).list@[i as int]);
                assert(decreases_to!(*old(self) => old(self).list));
                vstd::std_specs::vec::axiom_vec_index_decreases::<ListItem>(
                    old(self).list,
                    i as int,
                );
            }
            sort_child(elem);
            i += 1;
        }
        proof {
            assert(views_of(self.list@) =~= mapped_sort(old(self)@.items));
        }
        sort_level(&mut self.list);
        proof {
            assert(self@.items =~= views_of(self.list@));
            assert(self@.items == spec_sort_level(old(self)@.items));
        }
    }
}

/// Every element of a stable insertion is the inserted node or one of
/// the sequence's own.
proof fn lemma_insert_sorted_elems(x: ItemV, s: Seq<ItemV>)
    ensures
        spec_insert_sorted(x, s).len() == s.len() + 1,
        forall|i: int| 0 <= i < spec_insert_sorted(x, s).len() ==> (#[trigger] spec_insert_sorted(
            x,
            s,
        )[i] == x || s.contains(spec_insert_sorted(x, s)[i])),
    decreases s.len(),
{
    if s.len() == 0 {
    } else if spec_le(x, s[0]) {
        assert forall|i: int| 1 <= i < s.len() + 1 implies s.contains(
            (seq![x] + s)[i],
        ) by {
            assert(s[i - 1] == (seq![x] + s)[i]);
        }
    } else {
        lemma_insert_sorted_elems(x, s.drop_first());
        let r = seq![s[0]] + spec_insert_sorted(x, s.drop_first());
        assert forall|i: int| 0 <= i < r.len() && r[i] != x implies s.contains(r[i]) by {
            if i == 0 {
                assert(s[0] == r[0]);
            } else {
                let t = spec_insert_sorted(x, s.drop_first());
                assert(r[i] == t[i - 1]);
                let jj = choose|jj: int| 0 <= jj < s.drop_first().len() && s.drop_first()[jj]
                    == t[i - 1];
                assert(s[jj + 1] == t[i - 1]);
            }
        }
    }
}

/// Inserting into an ordered sequence keeps it ordered.
proof fn lemma_insert_sorted_sorted(x: ItemV, s: Seq<ItemV>)
    requires
        spec_sorted(s),
    ensures
        spec_sorted(spec_insert_sorted(x, s)),
    decreases s.len(),
{
    if s.len() == 0 {
    } else if spec_le(x, s[0]) {
        let r = seq![x] + s;
        assert forall|i: int, j: int| 0 <= i < j < r.len() implies spec_le(r[i], r[j]) by {
            if i == 0 {
                assert(spec_le(x, s[j - 1]));
            } else {
                assert(spec_le(s[i - 1], s[j - 1]));
            }
        }
    } else {
        assert(spec_sorted(s.drop_first()));
        lemma_insert_sorted_sorted(x, s.drop_first());
        lemma_insert_sorted_elems(x, s.drop_first());
        let t = spec_insert_sorted(x, s.drop_first());
        let r = seq![s[0]] + t;
        assert forall|i: int, j: int| 0 <= i < j < r.len() implies spec_le(r[i], r[j]) by {
            if i == 0 {
                assert(t[j - 1] == x || s.drop_first().contains(t[j - 1]));
                if t[j - 1] == x {
                    assert(spec_le(s[0], x));
                } else {
                    let jj = choose|jj: int| 0 <= jj < s.drop_first().len() && s.drop_first()[jj]
                        == t[j - 1];
                    assert(spec_le(s[0], s[jj + 1]));
                }
            } else {
                assert(spec_le(t[i - 1], t[j - 1]));
            }
        }
    }
}

/// The stable sort orders its result.
pub proof fn lemma_sort_sorted(s: Seq<ItemV>)
    ensures
        spec_sorted(spec_sort(s)),
    decreases s.len(),
{
    if s.len() > 0 {
        lemma_sort_sorted(s.drop_first());
        lemma_insert_sorted_sorted(s[0], spec_sort(s.drop_first()));
    }
}

/// The stable sort keeps the length and draws every element from the
/// input.
proof fn lemma_sort_elems(s: Seq<ItemV>)
    ensures
        spec_sort(s).len() == s.len(),
        forall|i: int| 0 <= i < s.len() ==> s.contains(#[trigger] spec_sort(s)[i]),
    decreases s.len(),
{
    if s.len() > 0 {
        lemma_sort_elems(s.drop_first());
        lemma_insert_sorted_elems(s[0], spec_sort(s.drop_first()));
        let t = spec_sort(s.drop_first());
        let r = spec_insert_sorted(s[0], t);
        assert forall|i: int| 0 <= i < s.len() implies s.contains(r[i]) by {
            if r[i] == s[0] {
                assert(s[0] == s[0]);
            } else {
                assert(s.drop_first().contains(r[i]));
                let jj = choose|jj: int| 0 <= jj < s.drop_first().len() && s.drop_first()[jj]
                    == r[i];
                assert(s[jj + 1] == r[i]);
            }
        }
    }
}

/// An already ordered sequence is its own stable sort.
pub proof fn lemma_sort_of_sorted(s: Seq<ItemV>)
    requires
        spec_sorted(s),
    ensures
        spec_sort(s) == s,
    decreases s.len(),
{
    if s.len() > 0 {
        assert(spec_sorted(s.drop_first()));
        lemma_sort_of_sorted(s.drop_first());
        if s.len() == 1 {
            assert(spec_sort(s) =~= s);
        } else {
            assert(spec_le(s[0], s.drop_first()[0]));
            assert(spec_sort(s) =~= s);
        }
    }
}

/// Sorting a sibling sequence twice yields the same order as sorting
/// it once.
pub proof fn lemma_sort_idempotent(s: Seq<ItemV>)
    ensures
        spec_sort(spec_sort(s)) == spec_sort(s),
{
    lemma_sort_sorted(s);
    lemma_sort_of_sorted(spec_sort(s));
}

/// Sorting a sibling level twice, subtrees included, yields the same
/// sequence as sorting it once; what sorting a list twice does to its
/// children.
pub proof fn lemma_sort_level_idempotent(items: Seq<ItemV>)
    ensures
        spec_sort_level(spec_sort_level(items)) == spec_sort_level(items),
    decreases items, 1int,
{
    broadcast use lemma_sort_item, lemma_sort_level, lemma_mapped_sort;

    let t = spec_sort_level(items);
    lemma_sort_elems(mapped_sort(items));
    assert forall|i: int| 0 <= i < t.len() implies #[trigger] spec_sort_item(t[i]) == t[i] by {
        assert(mapped_sort(items).contains(t[i]));
        let j = choose|j: int| 0 <= j < mapped_sort(items).len() && mapped_sort(items)[j]
            == t[i];
        assert(t[i] == spec_sort_item(items[j]));
        lemma_sort_item_idempotent(items[j]);
    }
    assert(mapped_sort(t) =~= t);
    lemma_sort_sorted(mapped_sort(items));
    lemma_sort_of_sorted(t);
}

/// Sorting a whole tree twice yields the same tree as sorting it once.
pub proof fn lemma_sort_item_idempotent(x: ItemV)
    ensures
        spec_sort_item(spec_sort_item(x)) == spec_sort_item(x),
    decreases x, 0int,
{
    broadcast use lemma_sort_item;

    match x {
        ItemV::Entry(_) => {
        }
        ItemV::List(l) => {
            lemma_sort_level_idempotent(l.items);
        }
    }
}

/// Whether a node has no date.
pub open spec fn spec_undated(x: ItemV) -> bool {
    spec_key(x) is None
}

/// The subsequence of nodes without a date, in their original order.
pub open spec fn spec_undated_of(s: Seq<ItemV>) -> Seq<ItemV>
    decreases s.len(),
{
    if s.len() == 0 {
        s
    } else if spec_undated(s[0]) {
        seq![s[0]] + spec_undated_of(s.drop_first())
    } else {
        spec_undated_of(s.drop_first())
    }
}

/// A stable insertion leaves the undated subsequence alone for a dated
/// node, and puts an undated node in front of it.
proof fn lemma_insert_sorted_undated(x: ItemV, s: Seq<ItemV>)
    ensures
        !spec_undated(x) ==> spec_undated_of(spec_insert_sorted(x, s)) == spec_undated_of(s),
        spec_undated(x) ==> spec_undated_of(spec_insert_sorted(x, s)) == seq![x]
            + spec_undated_of(s),
    decreases s.len(),
{
    if s.len() == 0 {
        reveal_with_fuel(spec_undated_of, 3);
        assert(seq![x].drop_first() =~= Seq::<ItemV>::empty());
        if spec_undated(x) {
            assert(spec_undated_of(seq![x]) =~= seq![x] + spec_undated_of(s));
        }
    } else if spec_le(x, s[0]) {
        assert((seq![x] + s).drop_first() =~= s);
    } else {
        // x sorts strictly after the head, so the head is dated
        assert(!spec_undated(s[0]) || spec_undated(x));
        assert(!spec_undated(s[0]));
        lemma_insert_sorted_undated(x, s.drop_first());
        let t = spec_insert_sorted(x, s.drop_first());
        assert((seq![s[0]] + t).drop_first() =~= t);
        assert(spec_undated_of(seq![s[0]] + t) == spec_undated_of(t));
    }
}

/// The stable sort places every undated node after every dated one,
/// and keeps the undated nodes in their original relative order.
pub proof fn lemma_sort_undated(s: Seq<ItemV>)
    ensures
        forall|i: int, j: int| 0 <= i < j < spec_sort(s).len() && spec_undated(
            #[trigger] spec_sort(s)[i],
        ) ==> spec_undated(#[trigger] spec_sort(s)[j]),
        spec_undated_of(spec_sort(s)) == spec_undated_of(s),
    decreases s.len(),
{
    lemma_sort_sorted(s);
    if s.len() > 0 {
        lemma_sort_undated(s.drop_first());
        lemma_insert_sorted_undated(s[0], spec_sort(s.drop_first()));
        if spec_undated(s[0]) {
            assert(spec_undated_of(s) =~= seq![s[0]] + spec_undated_of(s.drop_first()));
        }
    }
}

/// Sorting a subtree does not change which date its root carries.
proof fn lemma_sort_item_keeps_key(x: ItemV)
    ensures
        spec_key(spec_sort_item(x)) == spec_key(x),
        spec_undated(spec_sort_item(x)) == spec_undated(x),
{
    broadcast use lemma_sort_item;
}

/// The level sort, subtrees included, places every undated child
/// after every dated one, and keeps the undated children in their
/// original relative order (each with its own subtree sorted).
pub proof fn lemma_sort_level_undated(items: Seq<ItemV>)
    ensures
        forall|i: int, j: int| 0 <= i < j < spec_sort_level(items).len() && spec_undated(
            #[trigger] spec_sort_level(items)[i],
        ) ==> spec_undated(#[trigger] spec_sort_level(items)[j]),
        spec_undated_of(spec_sort_level(items)) == spec_undated_of(mapped_sort(items)),
        forall|j: int| 0 <= j < items.len() ==> spec_undated(#[trigger] mapped_sort(items)[j])
            == spec_undated(items[j]),
    decreases items,
{
    broadcast use lemma_sort_level, lemma_mapped_sort;

    lemma_sort_undated(mapped_sort(items));
    assert forall|j: int| 0 <= j < items.len() implies spec_undated(
        #[trigger] mapped_sort(items)[j],
    ) == spec_undated(items[j]) by {
        lemma_sort_item_keeps_key(items[j]);
    }
}

} // verus!
