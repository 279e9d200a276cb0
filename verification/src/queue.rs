use vstd::prelude::*;

use crate::nbt::TagType;

verus! {

/// A change made to the file, kept so that it can be shown before saving.
#[derive(Debug, Clone)]
pub enum ActionType {
    Add { id: usize, parent: usize, after: usize },
    Edit { id: usize, old_name: String, old_value: TagType },
    Delete(usize),
}

/// The changes made, in the order they were made.
pub struct ActionQueue(Vec<ActionType>);

impl View for ActionQueue {
    type V = Seq<ActionType>;

    closed spec fn view(&self) -> Seq<ActionType> {
        self.0@
    }
}

impl ActionQueue {
    /// An empty queue.
    pub fn new() -> (r: Self)
        ensures
            r@ == Seq::<ActionType>::empty(),
    {
        ActionQueue(Vec::new())
    }

    /// Appends a change.
    pub fn add(&mut self, action: ActionType)
        ensures
            final(self)@ == old(self)@.push(action),
    {
        self.0.push(action);
    }

    /// The number of changes.
    pub fn length(&self) -> (r: usize)
        ensures
            r == self@.len(),
    {
        self.0.len()
    }

    /// Forgets every change.
    pub fn clear(&mut self)
        ensures
            final(self)@ == Seq::<ActionType>::empty(),
    {
        self.0.clear();
    }

    /// The changes, oldest first.
    pub fn iter(&self) -> (r: std::slice::Iter<'_, ActionType>)
        ensures
            vstd::std_specs::iter::IteratorSpec::remaining(&r) == self@.map_values(|a: ActionType| &a),
    {
        self.0.iter()
    }
}

} // verus!
