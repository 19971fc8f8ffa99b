//! The repository's listing of files, as its tree interface returns it.

use vstd::prelude::*;
use crate::text::text_eq;

verus! {

/// An entry of a listing as plain texts.
pub struct TreeDefinitionView {
    pub path: Seq<char>,
    pub url: Seq<char>,
    pub file_type: Seq<char>,
}

impl TreeDefinitionView {
    /// The entry is a file, not a directory or another kind of node.
    pub open spec fn is_blob(self) -> bool {
        self.file_type == "blob"@
    }
}

/// An entry of a listing: a path below the listed directory, the entry's
/// locator, and the kind of node it is.
#[derive(Debug)]
pub struct TreeDefinition {
    pub path: String,
    pub url: String,
    pub file_type: String,
}

impl View for TreeDefinition {
    type V = TreeDefinitionView;

    open spec fn view(&self) -> TreeDefinitionView {
        TreeDefinitionView { path: self.path@, url: self.url@, file_type: self.file_type@ }
    }
}

impl Clone for TreeDefinition {
    fn clone(&self) -> (copy: Self)
        ensures
            copy@ == self@,
    {
        TreeDefinition {
            path: self.path.clone(),
            url: self.url.clone(),
            file_type: self.file_type.clone(),
        }
    }
}

impl TreeDefinition {
    /// Tells whether the entry is a file.
    pub fn is_blob(&self) -> (blob: bool)
        ensures
            blob == self@.is_blob(),
    {
        text_eq(self.file_type.as_str(), "blob")
    }
}

/// The entries of a sequence, each as plain texts.
pub open spec fn entry_views(entries: Seq<TreeDefinition>) -> Seq<TreeDefinitionView> {
    entries.map_values(|entry: TreeDefinition| entry@)
}

/// A listing as plain values.
pub struct TreeView {
    pub tree: Seq<TreeDefinitionView>,
    pub url: Seq<char>,
}

/// A listing: its entries in the order received, and the listing's own
/// locator.
#[derive(Debug)]
pub struct Tree {
    pub tree: Vec<TreeDefinition>,
    pub url: String,
}

impl View for Tree {
    type V = TreeView;

    open spec fn view(&self) -> TreeView {
        TreeView { tree: entry_views(self.tree@), url: self.url@ }
    }
}

/// Copies a sequence of entries.
pub fn clone_entries(entries: &Vec<TreeDefinition>) -> (copy: Vec<TreeDefinition>)
    ensures
        entry_views(copy@) == entry_views(entries@),
{
    let mut copy: Vec<TreeDefinition> = Vec::new();
    let mut i: usize = 0;
    while i < entries.len()
        invariant
            i <= entries.len(),
            copy.len() == i,
            forall|j: int| 0 <= j < i ==> copy@[j]@ == entries@[j]@,
        decreases entries.len() - i,
    {
        copy.push(entries[i].clone());
        i += 1;
    }
    assert(entry_views(copy@) =~= entry_views(entries@));
    copy
}

impl Clone for Tree {
    fn clone(&self) -> (copy: Self)
        ensures
            copy@ == self@,
    {
        Tree { tree: clone_entries(&self.tree), url: self.url.clone() }
    }
}

} // verus!
