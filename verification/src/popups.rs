//! The scratchpad's popup state: the title editor, the title selector, and
//! the editing-commands help. These hold the popups' data; drawing them is
//! the presentation layer's concern.

use vstd::prelude::*;

verus! {

/// The change-title popup: the title being typed and whether the popup is
/// shown.
pub struct TitlePopup {
    pub title: String,
    pub visible: bool,
}

impl TitlePopup {
    /// A hidden popup with an empty title.
    pub fn new() -> (p: TitlePopup)
        ensures
            p.title@ == Seq::<char>::empty(),
            !p.visible,
    {
        TitlePopup { title: String::new(), visible: false }
    }
}

impl Default for TitlePopup {
    /// The same popup as [`TitlePopup::new`].
    fn default() -> (p: TitlePopup)
        ensures
            p.title@ == Seq::<char>::empty(),
            !p.visible,
    {
        TitlePopup::new()
    }
}

/// The select-title popup: the titles offered, the selected index, and
/// whether the popup is shown.
pub struct TitleSelectPopup {
    pub titles: Vec<String>,
    pub selected_index: usize,
    pub visible: bool,
}

impl TitleSelectPopup {
    /// A hidden popup with no titles and the first index selected.
    pub fn new() -> (p: TitleSelectPopup)
        ensures
            p.titles@ == Seq::<String>::empty(),
            p.selected_index == 0,
            !p.visible,
    {
        TitleSelectPopup { titles: Vec::new(), selected_index: 0, visible: false }
    }
}

impl Default for TitleSelectPopup {
    /// The same popup as [`TitleSelectPopup::new`].
    fn default() -> (p: TitleSelectPopup)
        ensures
            p.titles@ == Seq::<String>::empty(),
            p.selected_index == 0,
            !p.visible,
    {
        TitleSelectPopup::new()
    }
}

/// The editing-commands help popup: only whether it is shown.
pub struct EditCommandsPopup {
    pub visible: bool,
}

impl EditCommandsPopup {
    /// A hidden popup.
    pub fn new() -> (p: EditCommandsPopup)
        ensures
            !p.visible,
    {
        EditCommandsPopup { visible: false }
    }
}

impl Default for EditCommandsPopup {
    /// The same popup as [`EditCommandsPopup::new`].
    fn default() -> (p: EditCommandsPopup)
        ensures
            !p.visible,
    {
        EditCommandsPopup::new()
    }
}

} // verus!
