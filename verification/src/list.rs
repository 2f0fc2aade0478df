//! The list for one frame: the rows and the state that the host lends it,
//! what each part of the frame shows, and what a click does.

use crate::entry::{is_field_entry, sort_by_field, sorted_by_field, DetailListEntry};
use crate::field::{FieldConfig, InvalidFieldConfig};
use crate::state::{DetailListState, HeaderCell, StateView};
use egui::Vec2;
use vstd::prelude::*;

verus! {

/// `egui::Vec2`, a size or an offset in points. The list only keeps and hands
/// back such a value.
#[verifier::external_type_specification]
#[verifier::external_body]
pub struct ExVec2(Vec2);

/// The height of a row where the host asks for no other: 20 points, as the
/// bits of an IEEE 754 single-precision number.
pub const DEFAULT_ROW_HEIGHT: u32 = 0x41A0_0000;

/// A list for the length of one frame. It borrows the rows, which a click on
/// a header sorts in place, and the state, which clicks change. What it
/// leaves in them is what the host finds there when the list is gone: the
/// contracts below say so in their clauses on `final(..entries)` and
/// `final(..state)`.
pub struct DetailList<'a, T: DetailListEntry> {
    /// The rows, in the order of display.
    pub entries: &'a mut [T],
    /// The size that the host asked for. Without one the list takes the
    /// space at hand.
    pub size: Option<Vec2>,
    /// The columns, the sort and the selection.
    pub state: &'a mut DetailListState,
    /// The height of a row in points, as the bits of an IEEE 754
    /// single-precision number.
    pub row_height: u32,
}

/// A list as a value of the model.
pub ghost struct ListView<T> {
    /// The rows, in the order of display.
    pub rows: Seq<T>,
    /// The columns, the sort and the selection.
    pub state: StateView,
    /// The size that the host asked for, if it did.
    pub size: Option<Vec2>,
    /// The height of a row in points, as the bits of an IEEE 754
    /// single-precision number.
    pub row_height: u32,
}

impl<'a, T: DetailListEntry> View for DetailList<'a, T> {
    type V = ListView<T>;

    open spec fn view(&self) -> ListView<T> {
        ListView {
            rows: self.entries@,
            state: self.state@,
            size: self.size,
            row_height: self.row_height,
        }
    }
}

impl<'a, T: DetailListEntry> DetailList<'a, T> {
    /// A list of these rows in this state, as large as the space at hand,
    /// with rows of the default height.
    pub fn new(entries: &'a mut [T], state: &'a mut DetailListState) -> (list: Self)
        ensures
            list@ == (ListView {
                rows: old(entries)@,
                state: old(state)@,
                size: None,
                row_height: DEFAULT_ROW_HEIGHT,
            }),
            final(list.entries)@ == final(entries)@,
            final(list.state)@ == final(state)@,
    {
        Self { entries, size: None, state, row_height: DEFAULT_ROW_HEIGHT }
    }

    /// The same list, of the given size.
    pub fn with_size(self, size: Vec2) -> (list: Self)
        ensures
            list@ == (ListView { size: Some(size), ..self@ }),
            final(list.entries)@ == final(self.entries)@,
            final(list.state)@ == final(self.state)@,
    {
        Self { entries: self.entries, size: Some(size), state: self.state, row_height: self.row_height }
    }

    /// The same list, with rows of the given height: points, as the bits of
    /// an IEEE 754 single-precision number.
    pub fn with_row_height(self, row_height: u32) -> (list: Self)
        ensures
            list@ == (ListView { row_height, ..self@ }),
            final(list.entries)@ == final(self.entries)@,
            final(list.state)@ == final(self.state)@,
    {
        Self { entries: self.entries, size: self.size, state: self.state, row_height }
    }

    /// The size that the host asked for, if it did.
    pub fn size(&self) -> (size: Option<Vec2>)
        ensures
            size == self@.size,
    {
        self.size
    }

    /// The height of a row.
    pub fn row_height(&self) -> (row_height: u32)
        ensures
            row_height == self@.row_height,
    {
        self.row_height
    }

    /// The number of columns.
    pub fn column_count(&self) -> (count: usize)
        ensures
            count == self@.state.fields.len(),
    {
        self.state.fields().len()
    }

    /// The number of rows.
    pub fn row_count(&self) -> (count: usize)
        ensures
            count == self@.rows.len(),
    {
        self.entries.len()
    }

    /// The configuration of `column`.
    pub fn field(&self, column: usize) -> (field: &FieldConfig)
        requires
            column < self@.state.fields.len(),
        ensures
            *field == self@.state.fields[column as int],
    {
        &self.state.fields()[column]
    }

    /// What the header of `column` shows, or the failure of a column that is
    /// to sort on clicks without having an order.
    pub fn header_cell(&self, column: usize) -> (cell: Result<HeaderCell, InvalidFieldConfig>)
        requires
            column < self@.state.fields.len(),
        ensures
            cell is Ok <==> self@.state.fields[column as int].valid(),
            cell is Err ==> cell->Err_0.column == column,
            cell is Ok ==> cell->Ok_0.title@ == self@.state.fields[column as int].title@
                && cell->Ok_0.arrow == self@.state.arrow(column as int),
    {
        self.state.header_cell(column)
    }

    /// Takes a click on the header of `column`: changes the state as
    /// `DetailListState::click_header` does and, where that asks for a sort,
    /// sorts the rows stably by the keys that they give under the column's
    /// title.
    pub fn click_header(&mut self, column: usize)
        requires
            column < old(self)@.state.fields.len(),
            old(self)@.state.fields[column as int].valid(),
        ensures
            final(self)@ == (ListView {
                state: old(self)@.state.click_header(column as int),
                rows: final(self)@.rows,
                ..old(self)@
            }),
            final(final(self).entries)@ == final(old(self).entries)@,
            final(final(self).state)@ == final(old(self).state)@,
            match old(self)@.state.sort_on_click(column as int) {
                Some(direction) => sorted_by_field(
                    old(self)@.rows,
                    final(self)@.rows,
                    old(self)@.state.fields[column as int].title@,
                    direction.descending(),
                ),
                None => final(self)@.rows == old(self)@.rows,
            },
    {
        let sort = self.state.click_header(column);
        if let Some(direction) = sort {
            let title = self.state.fields()[column].title.as_str();
            sort_by_field(self.entries, title, direction.is_descending());
        }
    }

    /// Whether the row at `row` is selected.
    pub fn is_selected(&self, row: usize) -> (selected: bool)
        ensures
            selected == self@.state.selection.contains(row),
    {
        self.state.is_selected(row)
    }

    /// The text in the cell of `row` under `column`: what the entry gives
    /// under the column's title. Without a text the cell stays empty.
    pub fn cell_text(&self, row: usize, column: usize) -> (text: Option<String>)
        requires
            row < self@.rows.len(),
            column < self@.state.fields.len(),
        ensures
            is_field_entry(self@.rows[row as int], self@.state.fields[column as int].title@, text),
    {
        let title = self.state.fields()[column].title.as_str();
        self.entries[row].get_field_entry(title)
    }

    /// Takes a click on the row at `row`. With shift alone held the row joins
    /// the selection; otherwise it becomes the whole selection. The rows stay
    /// as they are.
    pub fn click_row(&mut self, row: usize, shift_only: bool)
        ensures
            final(self)@ == (ListView {
                state: old(self)@.state.click_row(row, shift_only),
                ..old(self)@
            }),
            final(final(self).entries)@ == final(old(self).entries)@,
            final(final(self).state)@ == final(old(self).state)@,
    {
        self.state.click_row(row, shift_only);
    }
}

} // verus!
