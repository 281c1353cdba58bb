//! What a browser offers to the presentation of a workspace.

use crate::browser_rustdoc::SourceText;
use vstd::prelude::*;

verus! {

/// A browser: a listing of packages, a listing of what a symbol holds, and
/// what there is to say and to show of a symbol.
pub trait Browser {
    type Item: Clone + Send + Sync;

    type ItemId: Clone + Send + Sync;

    /// The packages, each under its label.
    fn list_crates(&self) -> Vec<(String, Self::ItemId)>;

    /// What the symbol at an address holds, each entry under its label.
    fn list_items(&self, parent_id: &Self::ItemId) -> Vec<(String, (Self::ItemId, Self::Item))>;

    /// The description of a symbol.
    fn get_info(&self, item: &Self::Item) -> String;

    /// All that is known of a symbol, for diagnosis.
    fn get_debug_info(&self, item: &Self::Item) -> String;

    /// The name of the file that defines a symbol, where that is known.
    fn source_file(&self, item: &Self::Item) -> Option<String>;

    /// The source of a symbol for showing, from the text of the file that
    /// defines it, and the line to show first.
    fn get_source(&self, item: &Self::Item, text: &SourceText) -> (String, Option<usize>);
}

} // verus!
