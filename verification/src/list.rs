//! Selection state for a scrollable list of items.
//!
//! The rendering of such a list on a terminal happens outside this library;
//! here is the list's content and the selection stepping it presents.

use vstd::prelude::*;

verus! {

/// Which item of a list is selected, if any.
#[derive(Clone, Copy, PartialEq, Eq, Structural, Debug)]
pub struct ListState {
    /// Index of the selected item.
    pub selected: Option<usize>,
}

impl ListState {
    /// No selection yet.
    pub fn new() -> (r: ListState)
        ensures
            r.selected is None,
    {
        ListState { selected: None }
    }

    /// Select the item at `index`, or clear the selection with `None`.
    pub fn select(&mut self, index: Option<usize>)
        ensures
            final(self).selected == index,
    {
        self.selected = index;
    }
}

/// A titled list of items with a movable selection.
#[derive(Clone, Debug)]
pub struct List<T> {
    /// The list's title.
    pub title: String,
    /// The items.
    pub items: Vec<T>,
    /// The selection.
    pub state: ListState,
}

impl<T> List<T> {
    /// A list over `items`, titled `title`, with the first item selected.
    pub fn new(title: &str, items: Vec<T>) -> (r: List<T>)
        ensures
            r.title@ == title@,
            r.items@ == items@,
            r.state.selected == Some(0usize),
    {
        let mut state = ListState::new();
        state.select(Some(0));
        List { title: title.to_owned(), items, state }
    }

    /// Select the next item, wrapping from the last back to the first; with
    /// no selection yet, select the first (even of an empty list, whose
    /// selection then points past its end until items arrive).
    pub fn next(&mut self)
        requires
            old(self).state.selected matches Some(_) ==> old(self).items@.len() > 0,
        ensures
            final(self).items@ == old(self).items@,
            final(self).title == old(self).title,
            final(self).state.selected == Some(
                match old(self).state.selected {
                    Some(i) => if i >= old(self).items@.len() - 1 {
                        0usize
                    } else {
                        (i + 1) as usize
                    },
                    None => 0usize,
                },
            ),
    {
        let i: usize = match self.state.selected {
            Some(i) => {
                if i >= self.items.len() - 1 {
                    0
                } else {
                    i + 1
                }
            },
            None => 0,
        };
        self.state.select(Some(i));
    }

    /// Select the previous item, wrapping from the first to the last; with no
    /// selection yet, select the first (even of an empty list, whose
    /// selection then points past its end until items arrive).
    pub fn previous(&mut self)
        requires
            old(self).state.selected == Some(0usize) ==> old(self).items@.len() > 0,
        ensures
            final(self).items@ == old(self).items@,
            final(self).title == old(self).title,
            final(self).state.selected == Some(
                match old(self).state.selected {
                    Some(i) => if i == 0 {
                        (old(self).items@.len() - 1) as usize
                    } else {
                        (i - 1) as usize
                    },
                    None => 0usize,
                },
            ),
    {
        let i: usize = match self.state.selected {
            Some(i) => {
                if i == 0 {
                    self.items.len() - 1
                } else {
                    i - 1
                }
            },
            None => 0,
        };
        self.state.select(Some(i));
    }

    /// Select the item at `index`.
    pub fn select(&mut self, index: usize)
        ensures
            final(self).items@ == old(self).items@,
            final(self).title == old(self).title,
            final(self).state.selected == Some(index),
    {
        self.state.select(Some(index));
    }

    /// Unselect the currently selected item, if any.
    pub fn unselect(&mut self)
        ensures
            final(self).items@ == old(self).items@,
            final(self).title == old(self).title,
            final(self).state.selected is None,
    {
        self.state.select(None);
    }
}

} // verus!
