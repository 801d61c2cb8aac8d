use vstd::prelude::*;

use crate::account::AccountId;

verus! {

/// A task: a description fixed at creation and a completion flag.
#[derive(Clone, Debug, Default, PartialEq, Eq)]
pub struct TodoItem {
    pub description: String,
    pub completed: bool,
}

impl View for TodoItem {
    type V = (Seq<char>, bool);

    open spec fn view(&self) -> (Seq<char>, bool) {
        (self.description@, self.completed)
    }
}

/// The abstract contents of a list of items, in order.
pub open spec fn items_view(items: Seq<TodoItem>) -> Seq<(Seq<char>, bool)> {
    items.map_values(|t: TodoItem| t@)
}

/// Whether a task survives `clear_completed`.
pub open spec fn is_open(t: (Seq<char>, bool)) -> bool {
    !t.1
}

proof fn lemma_items_view_push(s: Seq<TodoItem>, t: TodoItem)
    ensures
        items_view(s.push(t)) == items_view(s).push(t@),
{
    assert(items_view(s.push(t)) =~= items_view(s).push(t@));
}

proof fn lemma_filter_push(s: Seq<(Seq<char>, bool)>, x: (Seq<char>, bool), p: spec_fn((Seq<char>, bool)) -> bool)
    ensures
        s.push(x).filter(p) == (if p(x) { s.filter(p).push(x) } else { s.filter(p) }),
{
    reveal(Seq::filter);
    assert(s.push(x).drop_last() =~= s);
}

/// A copy of `t` with the same description and flag.
fn copy_item(t: &TodoItem) -> (r: TodoItem)
    ensures
        r@ == t@,
{
    TodoItem { description: t.description.clone(), completed: t.completed }
}

/// An ordered list of tasks. A task is identified by its position, which
/// shifts when earlier tasks are cleared.
///
/// The list records the account that created it as its owner. No operation
/// checks the owner: any caller may add, complete and clear tasks.
pub struct TodoList {
    items: Vec<TodoItem>,
    owner: AccountId,
}

impl View for TodoList {
    type V = Seq<(Seq<char>, bool)>;

    closed spec fn view(&self) -> Seq<(Seq<char>, bool)> {
        items_view(self.items@)
    }
}

impl TodoList {
    /// The account that created the list.
    pub closed spec fn owner_id(&self) -> Seq<u8> {
        self.owner@
    }

    /// An empty list owned by `owner`, the account that creates it.
    pub fn new(owner: AccountId) -> (r: TodoList)
        ensures
            r@ == Seq::<(Seq<char>, bool)>::empty(),
            r.owner_id() == owner@,
    {
        let r = TodoList { items: Vec::new(), owner };
        assert(r@ =~= Seq::<(Seq<char>, bool)>::empty());
        r
    }

    /// An empty list owned by `owner`, as `new` makes it.
    pub fn default(owner: AccountId) -> (r: TodoList)
        ensures
            r@ == Seq::<(Seq<char>, bool)>::empty(),
            r.owner_id() == owner@,
    {
        TodoList::new(owner)
    }

    /// A list owned by `owner` that holds `items`, in order; the way back
    /// from a copy made by `get_items`.
    pub fn from_items(owner: AccountId, items: Vec<TodoItem>) -> (r: TodoList)
        ensures
            r@ == items_view(items@),
            r.owner_id() == owner@,
    {
        TodoList { items, owner }
    }

    /// The account that created the list.
    pub fn owner(&self) -> (r: AccountId)
        ensures
            r@ == self.owner_id(),
    {
        self.owner
    }

    /// Appends an open task with the given description.
    pub fn add_item(&mut self, description: String)
        ensures
            final(self)@ == old(self)@.push((description@, false)),
            final(self).owner_id() == old(self).owner_id(),
    {
        let ghost d = description@;
        self.items.push(TodoItem { description, completed: false });
        assert(self@ =~= old(self)@.push((d, false)));
    }

    /// A copy of all tasks, in order.
    pub fn get_items(&self) -> (r: Vec<TodoItem>)
        ensures
            items_view(r@) == self@,
    {
        let mut r: Vec<TodoItem> = Vec::new();
        let mut i: usize = 0;
        while i < self.items.len()
            invariant
                0 <= i <= self.items@.len(),
                items_view(r@) == items_view(self.items@).take(i as int),
            decreases self.items@.len() - i,
        {
            let t = copy_item(&self.items[i]);
            proof {
                lemma_items_view_push(r@, t);
                assert(items_view(self.items@).take(i + 1) =~= items_view(self.items@).take(
                    i as int,
                ).push(t@));
            }
            r.push(t);
            i = i + 1;
        }
        assert(items_view(self.items@).take(i as int) =~= items_view(self.items@));
        r
    }

    /// Marks the task at `index` completed. An index past the end is ignored.
    pub fn mark_completed(&mut self, index: u32)
        ensures
            index < old(self)@.len() ==> final(self)@ == old(self)@.update(
                index as int,
                (old(self)@[index as int].0, true),
            ),
            index >= old(self)@.len() ==> final(self)@ == old(self)@,
            final(self).owner_id() == old(self).owner_id(),
    {
        let i = index as usize;
        if i < self.items.len() {
            let mut t = copy_item(&self.items[i]);
            t.completed = true;
            self.items.set(i, t);
            assert(self@ =~= old(self)@.update(index as int, (old(self)@[index as int].0, true)));
        }
    }

    /// Removes every completed task, keeping the others in order.
    pub fn clear_completed(&mut self)
        ensures
            final(self)@ == old(self)@.filter(|t: (Seq<char>, bool)| is_open(t)),
            final(self).owner_id() == old(self).owner_id(),
    {
        let ghost s = self@;
        let ghost p = |t: (Seq<char>, bool)| is_open(t);
        let mut kept: Vec<TodoItem> = Vec::new();
        let mut i: usize = 0;
        while i < self.items.len()
            invariant
                0 <= i <= self.items@.len(),
                s == items_view(self.items@),
                p == (|t: (Seq<char>, bool)| is_open(t)),
                items_view(kept@) == s.take(i as int).filter(p),
            decreases self.items@.len() - i,
        {
            proof {
                assert(s.take(i + 1) =~= s.take(i as int).push(s[i as int]));
                lemma_filter_push(s.take(i as int), s[i as int], p);
                assert(s[i as int] == self.items@[i as int]@);
            }
            if !self.items[i].completed {
                let t = copy_item(&self.items[i]);
                proof {
                    lemma_items_view_push(kept@, t);
                }
                kept.push(t);
            }
            i = i + 1;
        }
        assert(s.take(i as int) =~= s);
        self.items = kept;
    }
}

} // verus!
