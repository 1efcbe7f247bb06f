//! The collection of named lists: a mapping from unique list names to
//! trees, with the reserved default list always present and protected
//! from removal, and the yes/no confirmation rule for destructive
//! operations.

use vstd::prelude::*;
use vstd::string::StrSliceExecFns;
use crate::date::DateMaybeTime;
use crate::tree::TodoList;

verus! {

/// One named list.
pub struct NamedList {
    pub name: String,
    pub list: TodoList,
}

/// Why a list-management operation was rejected.
#[derive(Clone, Copy, PartialEq, Eq, Structural, Debug)]
pub enum ListsError {
    DuplicateName,
    NotFound,
    ReservedName,
}

/// All named lists. Names are unique.
pub struct Lists {
    pub entries: Vec<NamedList>,
}

impl Lists {
    /// Names are pairwise distinct.
    pub open spec fn wf(self) -> bool {
        forall|i: int, j: int| 0 <= i < j < self.entries@.len()
            ==> #[trigger] self.entries@[i].name@ != #[trigger] self.entries@[j].name@
    }

    /// Whether some entry carries `name`.
    pub open spec fn spec_has(self, name: Seq<char>) -> bool {
        exists|i: int| 0 <= i < self.entries@.len() && #[trigger] self.entries@[i].name@ == name
    }

    /// An empty collection.
    pub fn new() -> (r: Lists)
        ensures
            r.wf(),
            r.entries@.len() == 0,
    {
        Lists { entries: Vec::new() }
    }

    /// How many lists are held.
    pub fn len(&self) -> (r: usize)
        ensures
            r == self.entries@.len(),
    {
        self.entries.len()
    }

    /// The position of the list named `name`, if any.
    pub fn find(&self, name: &str) -> (r: Option<usize>)
        ensures
            match r {
                Some(i) => i < self.entries@.len() && self.entries@[i as int].name@ == name@,
                None => !self.spec_has(name@),
            },
    {
        let wanted: String = name.to_owned();
        let mut i: usize = 0;
        while i < self.entries.len()
            invariant
                i <= self.entries@.len(),
                wanted@ == name@,
                forall|j: int| 0 <= j < i ==> #[trigger] self.entries@[j].name@ != name@,
            decreases self.entries@.len() - i,
        {
            if self.entries[i].name.eq(&wanted) {
                return Some(i);
            }
            i += 1;
        }
        None
    }

    /// A borrow of the list at position `i`.
    pub fn at(&self, i: usize) -> (r: &NamedList)
        requires
            i < self.entries@.len(),
        ensures
            *r == self.entries@[i as int],
    {
        &self.entries[i]
    }

    /// Replace the tree of the list at position `i`, keeping its name.
    pub fn set_list(&mut self, i: usize, list: TodoList)
        requires
            old(self).wf(),
            i < old(self).entries@.len(),
        ensures
            final(self).wf(),
            final(self).entries@.len() == old(self).entries@.len(),
            final(self).entries@[i as int].name@ == old(self).entries@[i as int].name@,
            final(self).entries@[i as int].list == list,
            forall|j: int| 0 <= j < old(self).entries@.len() && j != i
                ==> final(self).entries@[j] == #[trigger] old(self).entries@[j],
    {
        let name = self.entries[i].name.clone();
        let ghost old_entries = self.entries@;
        let slot = crate::lists::entry_at(&mut self.entries, i);
        *slot = NamedList { name, list };
        proof {
            assert(forall|j: int| 0 <= j < old_entries.len() && j != i
                ==> self.entries@[j] == old_entries[j]);
        }
    }

    /// Add a new list under `name`: rejected when the name is taken;
    /// on success the new list goes last, empty but for the title and
    /// date given.
    pub fn add_list(&mut self, name: String, date: Option<DateMaybeTime>) -> (r: Result<
        (),
        ListsError,
    >)
        requires
            old(self).wf(),
        ensures
            final(self).wf(),
            old(self).spec_has(name@) ==> r == Err::<(), ListsError>(ListsError::DuplicateName)
                && final(self).entries@ == old(self).entries@,
            !old(self).spec_has(name@) ==> ({
                &&& r is Ok
                &&& final(self).entries@.len() == old(self).entries@.len() + 1
                &&& final(self).entries@.take(old(self).entries@.len() as int)
                    == old(self).entries@
                &&& final(self).entries@.last().name@ == name@
                &&& final(self).entries@.last().list@.title == name@
                &&& final(self).entries@.last().list@.date == date
                &&& final(self).entries@.last().list@.items.len() == 0
            }),
    {
        if self.find(name.as_str()).is_some() {
            return Err(ListsError::DuplicateName);
        }
        let title = name.clone();
        let list = TodoList::from_info(title, date);
        self.entries.push(NamedList { name, list });
        proof {
            assert(final(self).entries@.take(old(self).entries@.len() as int) =~= old(
                self,
            ).entries@);
        }
        Ok(())
    }

    /// Remove the list named `name` and return it: the reserved
    /// default name is protected, and an unknown name is rejected.
    pub fn remove_list(&mut self, name: &str) -> (r: Result<TodoList, ListsError>)
        requires
            old(self).wf(),
        ensures
            final(self).wf(),
            name@ == crate::DEFAULT_LIST@ ==> r is Err && r->Err_0 == ListsError::ReservedName
                && final(self).entries@ == old(self).entries@,
            name@ != crate::DEFAULT_LIST@ && !old(self).spec_has(name@) ==> ({
                &&& r is Err
                &&& r->Err_0 == ListsError::NotFound
                &&& final(self).entries@ == old(self).entries@
            }),
            name@ != crate::DEFAULT_LIST@ && old(self).spec_has(name@) ==> ({
                &&& r is Ok
                &&& !final(self).spec_has(name@)
                &&& exists|i: int|
                    {
                        &&& 0 <= i < old(self).entries@.len()
                        &&& #[trigger] old(self).entries@[i].name@ == name@
                        &&& final(self).entries@ == old(self).entries@.remove(i)
                        &&& r->Ok_0 == old(self).entries@[i].list
                    }
            }),
    {
        let reserved: String = crate::DEFAULT_LIST.to_owned();
        let named: String = name.to_owned();
        if named.eq(&reserved) {
            return Err(ListsError::ReservedName);
        }
        match self.find(name) {
            None => Err(ListsError::NotFound),
            Some(i) => {
                let removed = self.entries.remove(i);
                proof {
                    assert forall|j: int| 0 <= j < self.entries@.len() implies #[trigger] self
                        .entries@[j].name@ != name@ by {
                        if j < i {
                            assert(self.entries@[j] == old(self).entries@[j]);
                        } else {
                            assert(self.entries@[j] == old(self).entries@[j + 1]);
                        }
                    }
                    assert(old(self).entries@[i as int].name@ == name@);
                    assert(self.entries@ == old(self).entries@.remove(i as int));
                }
                Ok(removed.list)
            }
        }
    }

    /// Rename the list `name` to `new_name` in place, keeping its
    /// position and children, retitling its tree and replacing its
    /// date. An unknown name or a collision with another list's name
    /// is rejected; renaming a list to its own name just replaces the
    /// date. The reserved default list may be renamed: only removal is
    /// protected.
    pub fn rename_list(
        &mut self,
        name: &str,
        new_name: String,
        date: Option<DateMaybeTime>,
    ) -> (r: Result<(), ListsError>)
        requires
            old(self).wf(),
        ensures
            final(self).wf(),
            !old(self).spec_has(name@) ==> r == Err::<(), ListsError>(ListsError::NotFound)
                && final(self).entries@ == old(self).entries@,
            old(self).spec_has(name@) && name@ != new_name@ && old(self).spec_has(new_name@)
                ==> r == Err::<(), ListsError>(ListsError::DuplicateName)
                    && final(self).entries@ == old(self).entries@,
            old(self).spec_has(name@) && (name@ == new_name@ || !old(self).spec_has(new_name@))
                ==> ({
                &&& r is Ok
                &&& exists|i: int|
                    {
                        &&& 0 <= i < old(self).entries@.len()
                        &&& #[trigger] old(self).entries@[i].name@ == name@
                        &&& final(self).entries@.len() == old(self).entries@.len()
                        &&& forall|j: int| 0 <= j < old(self).entries@.len() && j != i
                            ==> final(self).entries@[j] == #[trigger] old(self).entries@[j]
                        &&& final(self).entries@[i].name@ == new_name@
                        &&& final(self).entries@[i].list@.title == new_name@
                        &&& final(self).entries@[i].list@.date == date
                        &&& final(self).entries@[i].list@.items
                            == old(self).entries@[i].list@.items
                    }
            }),
    {
        broadcast use crate::tree::lemma_list_view;

        let i = match self.find(name) {
            None => {
                return Err(ListsError::NotFound);
            }
            Some(i) => i,
        };
        let keeps_name = self.entries[i].name.eq(&new_name);
        if !keeps_name && self.find(new_name.as_str()).is_some() {
            return Err(ListsError::DuplicateName);
        }
        let title = new_name.clone();
        let ghost old_entries = self.entries@;
        let slot = entry_at(&mut self.entries, i);
        slot.list.title = title;
        slot.list.date = date;
        slot.name = new_name;
        proof {
            assert(self.entries@[i as int].list@.items =~= old_entries[i as int].list@.items);
            assert(forall|j: int| 0 <= j < old_entries.len() && j != i
                ==> self.entries@[j] == old_entries[j]);
        }
        Ok(())
    }

    /// Make sure the reserved default list exists: when it is missing,
    /// the default list is appended and nothing else changes; when it
    /// is present nothing changes at all. An idempotent initialization
    /// step.
    pub fn ensure_default(&mut self)
        requires
            old(self).wf(),
        ensures
            final(self).wf(),
            final(self).spec_has(crate::DEFAULT_LIST@),
            old(self).spec_has(crate::DEFAULT_LIST@) ==> final(self).entries@
                == old(self).entries@,
            !old(self).spec_has(crate::DEFAULT_LIST@) ==> ({
                &&& final(self).entries@.len() == old(self).entries@.len() + 1
                &&& final(self).entries@.take(old(self).entries@.len() as int)
                    == old(self).entries@
                &&& final(self).entries@.last().name@ == crate::DEFAULT_LIST@
                &&& final(self).entries@.last().list@.title == crate::DEFAULT_LIST@
                &&& final(self).entries@.last().list@.date is None
                &&& final(self).entries@.last().list@.items.len() == 1
            }),
    {
        if self.find(crate::DEFAULT_LIST).is_none() {
            let list = TodoList::default();
            self.entries.push(NamedList { name: String::from_str(crate::DEFAULT_LIST), list });
            proof {
                assert(self.entries@.last().name@ == crate::DEFAULT_LIST@);
                assert(self.entries@.take(old(self).entries@.len() as int) =~= old(
                    self,
                ).entries@);
            }
        }
    }
}

/// Mutable access to one slot.
fn entry_at<'a>(v: &'a mut Vec<NamedList>, i: usize) -> (r: &'a mut NamedList)
    requires
        i < old(v).len(),
    ensures
        *r == old(v)@[i as int],
        final(v)@ == old(v)@.update(i as int, *final(r)),
{
    &mut v[i]
}

/// Whether a confirmation reply means yes: a lone `y` in either case,
/// or, when an empty reply defaults to yes, the empty reply.
pub open spec fn spec_confirms(s: Seq<char>, default_yes: bool) -> bool {
    (s.len() == 1 && (s[0] == 'y' || s[0] == 'Y')) || (default_yes && s.len() == 0)
}

/// Whether the free-text confirmation reply `s` accepts the
/// destructive operation.
pub fn confirm_accepts(s: &str, default_yes: bool) -> (r: bool)
    ensures
        r == spec_confirms(s@, default_yes),
{
    let n = s.unicode_len();
    if n == 1 {
        let c = s.get_char(0);
        c == 'y' || c == 'Y'
    } else {
        default_yes && n == 0
    }
}

} // verus!
