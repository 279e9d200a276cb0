use vstd::prelude::*;

verus! {

/// What happened to a node of a tree widget.
#[derive(Debug, Clone, Copy, PartialEq, Eq, Structural)]
pub enum TreeMessage {
    NodeExpandChanged(bool),
    NodeSelected,
}

/// A node of a tree widget: its children, the value it shows, its text, and
/// whether its children are shown.
pub struct TreeNode<'a, T> {
    pub children: Vec<TreeNode<'a, T>>,
    pub tag: &'a T,
    pub text: String,
    pub expanded: bool,
}

impl<'a, T> TreeNode<'a, T> {
    /// Applies an event: a change of expansion is recorded, a selection
    /// changes nothing.
    pub fn update(&mut self, event: TreeMessage)
        ensures
            final(self).children == old(self).children,
            final(self).tag == old(self).tag,
            final(self).text == old(self).text,
            final(self).expanded == match event {
                TreeMessage::NodeExpandChanged(value) => value,
                TreeMessage::NodeSelected => old(self).expanded,
            },
    {
        match event {
            TreeMessage::NodeExpandChanged(value) => {
                self.expanded = value;
            },
            TreeMessage::NodeSelected => {},
        }
    }
}

} // verus!
