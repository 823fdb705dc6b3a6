//! The selection state of a browsable list: which entry is selected and
//! which entry the visible part of the list starts at.

use vstd::prelude::*;

verus! {

/// Selection in a list whose length is only known when it is drawn:
/// moving past either end is corrected by drawing the list.
pub struct ListSelection {
    pub offset: usize,
    pub selected: Option<usize>,
}

impl Default for ListSelection {
    fn default() -> (s: Self)
        ensures
            s.offset == 0,
            s.selected == None::<usize>,
    {
        ListSelection { offset: 0, selected: None }
    }
}

impl ListSelection {
    /// The same state with `selected` as the selection.
    pub fn with_selected(self, selected: Option<usize>) -> (s: Self)
        ensures
            s.offset == self.offset,
            s.selected == selected,
    {
        ListSelection { offset: self.offset, selected }
    }

    /// The selected entry, if any.
    pub fn selected(&self) -> (s: Option<usize>)
        ensures
            s == self.selected,
    {
        self.selected
    }

    /// Selects `index`; clearing the selection also scrolls back to the top.
    pub fn select(&mut self, index: Option<usize>)
        ensures
            final(self).selected == index,
            final(self).offset == (if index is None { 0 } else { old(self).offset }),
    {
        self.selected = index;
        if index.is_none() {
            self.offset = 0;
        }
    }

    /// Selects the next entry, or the first one when none is selected.
    pub fn select_next(&mut self)
        ensures
            final(self).selected == Some(next_index(old(self).selected)),
            final(self).offset == old(self).offset,
    {
        let next = match self.selected {
            Some(i) => i.saturating_add(1),
            None => 0,
        };
        self.select(Some(next));
    }

    /// Selects the previous entry, or the last one when none is selected.
    pub fn select_previous(&mut self)
        ensures
            final(self).selected == Some(previous_index(old(self).selected)),
            final(self).offset == old(self).offset,
    {
        let previous = match self.selected {
            Some(i) => i.saturating_sub(1),
            None => usize::MAX,
        };
        self.select(Some(previous));
    }

    /// Selects the first entry.
    pub fn select_first(&mut self)
        ensures
            final(self).selected == Some(0usize),
            final(self).offset == old(self).offset,
    {
        self.select(Some(0));
    }

    /// Selects the last entry; drawing the list brings it into range.
    pub fn select_last(&mut self)
        ensures
            final(self).selected == Some(usize::MAX),
            final(self).offset == old(self).offset,
    {
        self.select(Some(usize::MAX));
    }
}

/// The entry after `selected`, stopping at the largest index; the first
/// entry when nothing is selected.
pub open spec fn next_index(selected: Option<usize>) -> usize {
    match selected {
        Some(i) => if i == usize::MAX { i } else { (i + 1) as usize },
        None => 0,
    }
}

/// The entry before `selected`, stopping at the first; the last entry when
/// nothing is selected.
pub open spec fn previous_index(selected: Option<usize>) -> usize {
    match selected {
        Some(i) => if i == 0 { 0 } else { (i - 1) as usize },
        None => usize::MAX,
    }
}

/// Moving down and then up returns to the entry one started from, unless
/// that was the largest index.
pub proof fn lemma_next_then_previous(i: usize)
    requires
        i < usize::MAX,
    ensures
        previous_index(Some(next_index(Some(i)))) == i,
{
}

/// Moving up and then down returns to the entry one started from, unless
/// that was the first.
pub proof fn lemma_previous_then_next(i: usize)
    requires
        0 < i,
    ensures
        next_index(Some(previous_index(Some(i)))) == i,
{
}

/// Moving down selects the entry below, stopping at the largest index, and
/// the first entry when nothing is selected; moving up selects the entry
/// above, stopping at the first, and the last entry when nothing is selected.
pub proof fn lemma_index_steps(i: usize)
    ensures
        i < usize::MAX ==> next_index(Some(i)) == i + 1,
        next_index(Some(usize::MAX)) == usize::MAX,
        next_index(None) == 0,
        i > 0 ==> previous_index(Some(i)) == i - 1,
        previous_index(Some(0usize)) == 0,
        previous_index(None) == usize::MAX,
{
}

} // verus!
