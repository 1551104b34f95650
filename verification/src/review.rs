//! The selection model and the decisions of the review loop.
//!
//! The loop itself — polling the terminal, drawing the panes — lives outside
//! the library; everything it decides is here: how the cursor moves, what a
//! key press means, where the result list opens a new file group, and which
//! preview lines are highlighted.

use crate::search_match::SearchMatch;
use crate::text::{contains_seq, contains_substring, dec_rep, lower_of, to_lower, usize_to_string};
use vstd::prelude::*;

verus! {

/// A cursor over a nonempty list, wrapping at both ends.  The underlying
/// list is never reordered or filtered after construction.
pub struct StatefulList<T> {
    pub items: Vec<T>,
    pub selected: usize,
}

impl<T> StatefulList<T> {
    /// The cursor stays inside the nonempty list.
    pub open spec fn wf(&self) -> bool {
        self.items@.len() > 0 && self.selected < self.items@.len()
    }

    /// Takes ownership of the items; the cursor starts on the first.
    pub fn with_items(items: Vec<T>) -> (r: StatefulList<T>)
        requires
            items@.len() > 0,
        ensures
            r.items@ == items@,
            r.selected == 0,
            r.wf(),
    {
        StatefulList { items, selected: 0 }
    }

    /// The item under the cursor.
    pub fn get_selected_item(&self) -> (r: &T)
        requires
            self.wf(),
        ensures
            *r == self.items@[self.selected as int],
    {
        &self.items[self.selected]
    }

    /// Moves the cursor forward one item, wrapping to the first after the
    /// last; with a single item the cursor stays put.
    pub fn next(&mut self)
        requires
            old(self).wf(),
        ensures
            final(self).wf(),
            final(self).items@ == old(self).items@,
            final(self).selected as int == if old(self).selected + 1 == old(self).items@.len() {
                0int
            } else {
                old(self).selected + 1
            },
    {
        if self.selected >= self.items.len() - 1 {
            self.selected = 0;
        } else {
            self.selected = self.selected + 1;
        }
    }

    /// Moves the cursor back one item, wrapping to the last from the first;
    /// with a single item the cursor stays put.
    pub fn previous(&mut self)
        requires
            old(self).wf(),
        ensures
            final(self).wf(),
            final(self).items@ == old(self).items@,
            final(self).selected as int == if old(self).selected == 0 {
                old(self).items@.len() - 1
            } else {
                old(self).selected - 1
            },
    {
        if self.selected == 0 {
            self.selected = self.items.len() - 1;
        } else {
            self.selected = self.selected - 1;
        }
    }
}

/// A key press, reduced to what the review loop reacts to.
#[derive(Debug, Clone, Copy, PartialEq, Eq, Structural)]
pub enum ReviewKey {
    Up,
    Down,
    Enter,
    Quit,
    Other,
}

/// What one key press means for the loop.
#[derive(Debug, Clone, Copy, PartialEq, Eq, Structural)]
pub enum ReviewStep {
    /// Keep polling and re-rendering.
    Continue,
    /// The item under the cursor is the chosen result.
    Chosen,
    /// The review ends with no selection.
    Cancelled,
}

/// Dispatches one key press on the selection model.
///
/// Enter reports the choice and leaves the model exactly as it stood at the
/// key press, so the chosen item is the one then under the cursor, never a
/// stale one.  `q` cancels without touching the model.  Unknown keys do
/// nothing.
pub fn handle_key<T>(list: &mut StatefulList<T>, key: ReviewKey) -> (r: ReviewStep)
    requires
        old(list).wf(),
    ensures
        final(list).wf(),
        final(list).items@ == old(list).items@,
        key == ReviewKey::Enter ==> r == ReviewStep::Chosen && *final(list) == *old(list),
        key == ReviewKey::Quit ==> r == ReviewStep::Cancelled && *final(list) == *old(list),
        key == ReviewKey::Other ==> r == ReviewStep::Continue && *final(list) == *old(list),
        key == ReviewKey::Down ==> r == ReviewStep::Continue && final(list).selected as int == (
        if old(list).selected + 1 == old(list).items@.len() {
            0int
        } else {
            old(list).selected + 1
        }),
        key == ReviewKey::Up ==> r == ReviewStep::Continue && final(list).selected as int == (
        if old(list).selected == 0 {
            old(list).items@.len() - 1
        } else {
            old(list).selected - 1
        }),
{
    match key {
        ReviewKey::Down => {
            list.next();
            ReviewStep::Continue
        },
        ReviewKey::Up => {
            list.previous();
            ReviewStep::Continue
        },
        ReviewKey::Enter => ReviewStep::Chosen,
        ReviewKey::Quit => ReviewStep::Cancelled,
        ReviewKey::Other => ReviewStep::Continue,
    }
}

/// Whether the result list opens a new file group before record `i`: at the
/// top, and wherever the path differs from the previous record's.  Runs of
/// one file arriving apart are not merged.
pub fn separator_before(items: &Vec<SearchMatch>, i: usize) -> (r: bool)
    requires
        i < items@.len(),
    ensures
        r == (i == 0 || items@[i as int - 1].path@ != items@[i as int].path@),
{
    i == 0 || !(items[i - 1].path == items[i].path)
}

/// Whether a preview line is highlighted: it holds the search term as a
/// substring, both compared in lowercase; the displayed text keeps its
/// casing.
pub fn line_highlighted(line: &str, term: &str) -> (r: bool)
    ensures
        r == contains_seq(lower_of(line@), lower_of(term@)),
{
    let ll = to_lower(line);
    let lt = to_lower(term);
    contains_substring(ll.as_str(), lt.as_str())
}

/// The summary line above the preview.
pub fn summary_line(n: usize) -> (r: String)
    ensures
        r@ == "Number of results: "@ + dec_rep(n as int) + ", below is preview."@,
{
    let mut s = "Number of results: ".to_owned();
    s.append(usize_to_string(n).as_str());
    s.append(", below is preview.");
    s
}

} // verus!
