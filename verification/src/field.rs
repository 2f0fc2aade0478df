//! The configuration of one column.

use vstd::prelude::*;
use vstd::std_specs::convert::FromSpecImpl;

verus! {

/// One column of the list. The title is shown in the header and is the name
/// under which entries are asked for the column's values and sort keys.
#[derive(Debug)]
pub struct FieldConfig {
    /// The column's name, shown in its header.
    pub title: String,
    /// Whether the host may write edited values back into the entries.
    pub editable: bool,
    /// The column's fixed width in points, held as the bits of an IEEE 754
    /// single-precision number. Without one the column is resizable and
    /// shares the width that is left.
    pub fixed_width: Option<u32>,
    /// Whether a click on the header sorts by this column.
    pub sort_enabled: bool,
    /// Whether the column's values have a total order.
    pub sortable: bool,
}

impl Clone for FieldConfig {
    fn clone(&self) -> (copy: Self)
        ensures
            copy == *self,
    {
        FieldConfig {
            title: self.title.clone(),
            editable: self.editable,
            fixed_width: self.fixed_width,
            sort_enabled: self.sort_enabled,
            sortable: self.sortable,
        }
    }
}

/// A column that is to sort on clicks though its values have no order.
#[derive(Debug, Clone, Copy, PartialEq, Eq, Structural)]
pub struct InvalidFieldConfig {
    /// The position of the column among the fields.
    pub column: usize,
}

impl InvalidFieldConfig {
    /// The text of the failure.
    pub fn message(&self) -> (text: String)
        ensures
            text@ == "invalid field configuration"@,
    {
        "invalid field configuration".to_owned()
    }
}

impl FieldConfig {
    /// A column may sort on clicks only if its values have an order.
    pub open spec fn valid(&self) -> bool {
        self.sort_enabled ==> self.sortable
    }

    /// The column that a bare title stands for: editable, sorting on clicks,
    /// of flexible width.
    pub open spec fn titled(&self, title: Seq<char>) -> bool {
        &&& self.title@ == title
        &&& self.editable
        &&& self.fixed_width is None
        &&& self.sort_enabled
        &&& self.sortable
    }

    pub fn title(&self) -> (title: String)
        ensures
            title@ == self.title@,
    {
        self.title.clone()
    }

    pub fn editable(&self) -> (editable: bool)
        ensures
            editable == self.editable,
    {
        self.editable
    }

    pub fn fixed_width(&self) -> (width: Option<u32>)
        ensures
            width == self.fixed_width,
    {
        self.fixed_width
    }

    pub fn sort_enabled(&self) -> (enabled: bool)
        ensures
            enabled == self.sort_enabled,
    {
        self.sort_enabled
    }

    pub fn sortable(&self) -> (sortable: bool)
        ensures
            sortable == self.sortable,
    {
        self.sortable
    }

    /// Whether the configuration is one that the list accepts.
    pub fn is_valid(&self) -> (valid: bool)
        ensures
            valid == self.valid(),
    {
        !self.sort_enabled || self.sortable
    }
}

impl From<String> for FieldConfig {
    fn from(title: String) -> (field: FieldConfig)
        ensures
            field.titled(title@),
    {
        FieldConfig { title, editable: true, fixed_width: None, sort_enabled: true, sortable: true }
    }
}

impl FromSpecImpl<String> for FieldConfig {
    open spec fn obeys_from_spec() -> bool {
        true
    }

    open spec fn from_spec(title: String) -> FieldConfig {
        FieldConfig { title, editable: true, fixed_width: None, sort_enabled: true, sortable: true }
    }
}

impl<'a> From<&'a str> for FieldConfig {
    fn from(title: &'a str) -> (field: FieldConfig)
        ensures
            field.titled(title@),
    {
        FieldConfig {
            title: title.to_owned(),
            editable: true,
            fixed_width: None,
            sort_enabled: true,
            sortable: true,
        }
    }
}

/// The model does not tell which string holds given characters, so the
/// column made from a `&str` is described by `titled`, in the contract of
/// `from`, and not by a value here.
impl<'a> FromSpecImpl<&'a str> for FieldConfig {
    open spec fn obeys_from_spec() -> bool {
        false
    }

    open spec fn from_spec(title: &'a str) -> FieldConfig {
        choose|field: FieldConfig| field.titled(title@)
    }
}

} // verus!
