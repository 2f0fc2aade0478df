//! The state that the list keeps from frame to frame, and how clicks change
//! it.

use crate::field::{FieldConfig, InvalidFieldConfig};
use std::collections::HashSet;
use vstd::prelude::*;
use vstd::std_specs::hash::group_hash_axioms;

verus! {

/// The direction of a sort.
#[derive(Debug, Clone, Copy, PartialEq, Eq, Structural)]
pub enum SortDirection {
    Ascending,
    Descending,
}

impl SortDirection {
    /// Whether rows are sorted from the largest key down.
    pub open spec fn descending(self) -> bool {
        self is Descending
    }

    /// Whether rows are to be sorted from the largest key down.
    pub fn is_descending(self) -> (descending: bool)
        ensures
            descending == self.descending(),
    {
        match self {
            SortDirection::Ascending => false,
            SortDirection::Descending => true,
        }
    }
}

/// The direction that the flag of a reversed sort stands for.
pub open spec fn direction_of(reverse_sort: bool) -> SortDirection {
    if reverse_sort {
        SortDirection::Descending
    } else {
        SortDirection::Ascending
    }
}

/// What the header of one column shows.
#[derive(Debug)]
pub struct HeaderCell {
    /// The column's title.
    pub title: String,
    /// The arrow beside the title, on the columns that the list is sorted by:
    /// pointing up for an ascending sort, down for a descending one.
    pub arrow: Option<SortDirection>,
}

/// The state of a list as a value of the model.
pub ghost struct StateView {
    /// The columns, in the order of display.
    pub fields: Seq<FieldConfig>,
    /// The title of the column that the rows are sorted by, if any.
    pub sorted_by: Option<Seq<char>>,
    /// Whether that sort is descending.
    pub reverse_sort: bool,
    /// The positions of the selected rows.
    pub selection: Set<usize>,
}

impl StateView {
    /// The state of a list that was just made.
    pub open spec fn initial(fields: Seq<FieldConfig>) -> StateView {
        StateView { fields, sorted_by: None, reverse_sort: false, selection: Set::empty() }
    }

    /// No column is to sort on clicks without having an order.
    pub open spec fn all_valid(self) -> bool {
        forall|column: int| 0 <= column < self.fields.len() ==> (#[trigger] self.fields[column]).valid()
    }

    /// `column` is the first column that is to sort on clicks without having
    /// an order.
    pub open spec fn first_invalid(self, column: int) -> bool {
        &&& 0 <= column < self.fields.len()
        &&& !self.fields[column].valid()
        &&& forall|earlier: int| 0 <= earlier < column ==> (#[trigger] self.fields[earlier]).valid()
    }

    /// Whether the rows are sorted by `column`.
    pub open spec fn is_active(self, column: int) -> bool {
        self.sorted_by == Some(self.fields[column].title@)
    }

    /// The arrow in the header of `column`.
    pub open spec fn arrow(self, column: int) -> Option<SortDirection> {
        if self.is_active(column) {
            Some(direction_of(self.reverse_sort))
        } else {
            None
        }
    }

    /// The state after a click on the header of `column`.
    pub open spec fn click_header(self, column: int) -> StateView {
        if !self.fields[column].sort_enabled {
            self
        } else if self.is_active(column) {
            StateView { reverse_sort: !self.reverse_sort, ..self }
        } else {
            StateView { sorted_by: Some(self.fields[column].title@), reverse_sort: false, ..self }
        }
    }

    /// The direction in which a click on the header of `column` sorts the
    /// rows, if it sorts them.
    pub open spec fn sort_on_click(self, column: int) -> Option<SortDirection> {
        if self.fields[column].sort_enabled {
            Some(direction_of(self.click_header(column).reverse_sort))
        } else {
            None
        }
    }

    /// The state after a click on the row at `row`. `shift_only` says that
    /// shift, and no other modifier, was held.
    pub open spec fn click_row(self, row: usize, shift_only: bool) -> StateView {
        let kept = if shift_only {
            self.selection
        } else {
            Set::empty()
        };
        StateView { selection: kept.insert(row), ..self }
    }
}

/// A first click on the header of a column that sorts on clicks makes it the
/// sorted column and asks for an ascending sort.
pub proof fn lemma_first_click_sorts_ascending(state: StateView, column: int)
    requires
        0 <= column < state.fields.len(),
        state.fields[column].sort_enabled,
        !state.is_active(column),
    ensures
        state.click_header(column).sorted_by == Some(state.fields[column].title@),
        !state.click_header(column).reverse_sort,
        state.sort_on_click(column) == Some(SortDirection::Ascending),
        state.click_header(column).arrow(column) == Some(SortDirection::Ascending),
{
}

/// A click on the header of the sorted column reverses the direction and asks
/// for a sort in the new one, so that the clicks on one header ask for an
/// ascending sort, then a descending one, then an ascending one again.
pub proof fn lemma_further_clicks_reverse(state: StateView, column: int)
    requires
        0 <= column < state.fields.len(),
        state.fields[column].sort_enabled,
    ensures
        ({
            let once = state.click_header(column);
            let twice = once.click_header(column);
            let thrice = twice.click_header(column);
            &&& once.is_active(column) && twice.is_active(column) && thrice.is_active(column)
            &&& twice.reverse_sort == !once.reverse_sort
            &&& thrice.reverse_sort == once.reverse_sort
            &&& once.sort_on_click(column) == Some(direction_of(!once.reverse_sort))
            &&& twice.sort_on_click(column) == Some(direction_of(once.reverse_sort))
            &&& !state.is_active(column) ==> {
                &&& state.sort_on_click(column) == Some(SortDirection::Ascending)
                &&& once.sort_on_click(column) == Some(SortDirection::Descending)
                &&& twice.sort_on_click(column) == Some(SortDirection::Ascending)
            }
        }),
{
}

/// A click on the header of a column that does not sort on clicks changes
/// nothing and asks for no sort.
pub proof fn lemma_click_without_sort_changes_nothing(state: StateView, column: int)
    requires
        0 <= column < state.fields.len(),
        !state.fields[column].sort_enabled,
    ensures
        state.click_header(column) == state,
        state.sort_on_click(column) is None,
{
}

/// A click on a header leaves the columns and the selection as they are.
pub proof fn lemma_click_header_keeps_selection(state: StateView, column: int)
    requires
        0 <= column < state.fields.len(),
    ensures
        state.click_header(column).fields == state.fields,
        state.click_header(column).selection == state.selection,
{
}

/// A click on a row without shift leaves that row alone selected.
pub proof fn lemma_plain_click_selects_one(state: StateView, row: usize)
    ensures
        state.click_row(row, false).selection == set![row],
        state.click_row(row, false).selection.len() == 1,
{
    assert(state.click_row(row, false).selection =~= set![row]);
}

/// A click on a row with shift adds the row and takes none away, and a
/// second such click on the same row changes nothing.
pub proof fn lemma_shift_click_only_adds(state: StateView, row: usize)
    ensures
        state.click_row(row, true).selection == state.selection.insert(row),
        state.selection.subset_of(state.click_row(row, true).selection),
        state.click_row(row, true).click_row(row, true) == state.click_row(row, true),
{
    let once = state.click_row(row, true);
    assert(once.click_row(row, true).selection =~= once.selection);
}

/// The state of a list: its columns, the column and direction of the sort,
/// and the selected rows. The host keeps it from frame to frame.
pub struct DetailListState {
    fields: Vec<FieldConfig>,
    sorted_by: Option<String>,
    reverse_sort: bool,
    selection: HashSet<usize>,
}

impl View for DetailListState {
    type V = StateView;

    closed spec fn view(&self) -> StateView {
        StateView {
            fields: self.fields@,
            sorted_by: match self.sorted_by {
                Some(title) => Some(title@),
                None => None,
            },
            reverse_sort: self.reverse_sort,
            selection: self.selection@,
        }
    }
}

impl DetailListState {
    /// The state of a list with these columns: unsorted, with nothing
    /// selected.
    pub fn new(fields: Vec<FieldConfig>) -> (state: Self)
        ensures
            state@ == StateView::initial(fields@),
    {
        Self { fields, sorted_by: None, reverse_sort: false, selection: HashSet::new() }
    }

    /// The columns, in the order of display.
    pub fn fields(&self) -> (fields: &Vec<FieldConfig>)
        ensures
            fields@ == self@.fields,
    {
        &self.fields
    }

    /// The title of the column that the rows are sorted by, if any.
    pub fn sorted_by(&self) -> (title: Option<String>)
        ensures
            title is Some == self@.sorted_by is Some,
            title is Some ==> title->0@ == self@.sorted_by->0,
    {
        match &self.sorted_by {
            Some(title) => Some(title.clone()),
            None => None,
        }
    }

    /// Whether the sort is descending.
    pub fn reverse_sort(&self) -> (reverse: bool)
        ensures
            reverse == self@.reverse_sort,
    {
        self.reverse_sort
    }

    /// Whether the row at `row` is selected.
    pub fn is_selected(&self, row: usize) -> (selected: bool)
        ensures
            selected == self@.selection.contains(row),
    {
        broadcast use group_hash_axioms;

        self.selection.contains(&row)
    }

    /// How many rows are selected.
    pub fn selected_count(&self) -> (count: usize)
        ensures
            count == self@.selection.len(),
    {
        broadcast use group_hash_axioms;

        self.selection.len()
    }

    /// Looks for a column that is to sort on clicks without having an order,
    /// and fails with the first one.
    pub fn validate(&self) -> (checked: Result<(), InvalidFieldConfig>)
        ensures
            checked is Ok <==> self@.all_valid(),
            checked is Err ==> self@.first_invalid(checked->Err_0.column as int),
    {
        let mut column: usize = 0;
        while column < self.fields.len()
            invariant
                column <= self.fields@.len(),
                forall|earlier: int| 0 <= earlier < column ==> (#[trigger] self.fields@[earlier]).valid(),
            decreases self.fields@.len() - column,
        {
            if !self.fields[column].is_valid() {
                assert(!self@.fields[column as int].valid());
                return Err(InvalidFieldConfig { column });
            }
            column += 1;
        }
        Ok(())
    }

    /// Whether the rows are sorted by `column`.
    pub fn is_active(&self, column: usize) -> (active: bool)
        requires
            column < self@.fields.len(),
        ensures
            active == self@.is_active(column as int),
    {
        match &self.sorted_by {
            Some(title) => *title == self.fields[column].title,
            None => false,
        }
    }

    /// What the header of `column` shows, or the failure of a column that is
    /// to sort on clicks without having an order.
    pub fn header_cell(&self, column: usize) -> (cell: Result<HeaderCell, InvalidFieldConfig>)
        requires
            column < self@.fields.len(),
        ensures
            cell is Ok <==> self@.fields[column as int].valid(),
            cell is Err ==> cell->Err_0.column == column,
            cell is Ok ==> cell->Ok_0.title@ == self@.fields[column as int].title@
                && cell->Ok_0.arrow == self@.arrow(column as int),
    {
        let field = &self.fields[column];
        if !field.is_valid() {
            return Err(InvalidFieldConfig { column });
        }
        let arrow = if !self.is_active(column) {
            None
        } else if self.reverse_sort {
            Some(SortDirection::Descending)
        } else {
            Some(SortDirection::Ascending)
        };
        Ok(HeaderCell { title: field.title(), arrow })
    }

    /// Takes a click on the header of `column`, and returns the direction in
    /// which the rows are now to be sorted by that column's keys. A column
    /// that does not sort on clicks changes nothing and asks for no sort. A
    /// first click on a column makes it the sorted one, ascending; each
    /// further click reverses the direction.
    pub fn click_header(&mut self, column: usize) -> (sort: Option<SortDirection>)
        requires
            column < old(self)@.fields.len(),
            old(self)@.fields[column as int].valid(),
        ensures
            final(self)@ == old(self)@.click_header(column as int),
            sort == old(self)@.sort_on_click(column as int),
    {
        if !self.fields[column].sort_enabled {
            return None;
        }
        if self.is_active(column) {
            self.reverse_sort = !self.reverse_sort;
        } else {
            self.sorted_by = Some(self.fields[column].title());
            self.reverse_sort = false;
        }
        if self.reverse_sort {
            Some(SortDirection::Descending)
        } else {
            Some(SortDirection::Ascending)
        }
    }

    /// Takes a click on the row at `row`. With shift alone held the row joins
    /// the selection; otherwise it becomes the whole selection.
    pub fn click_row(&mut self, row: usize, shift_only: bool)
        ensures
            final(self)@ == old(self)@.click_row(row, shift_only),
    {
        broadcast use group_hash_axioms;

        if !shift_only {
            self.selection.clear();
        }
        self.selection.insert(row);
    }
}

} // verus!
