//! A sortable, selectable detail list for egui: the widget's state machine,
//! its stable sort, and the mesh helpers that build the sort arrow.

pub mod entry;
pub mod field;
pub mod list;
pub mod render;
pub mod sort_key;
pub mod sorting;
pub mod stable_order;
pub mod state;

pub use entry::DetailListEntry;
pub use field::{FieldConfig, InvalidFieldConfig};
pub use list::DetailList;
pub use sort_key::SortKey;
pub use state::{DetailListState, HeaderCell, SortDirection};
