//! Page-table entries as the paging hardware reads them, and typed views
//! of them.

pub mod memory;
pub mod paging;
pub mod view;

pub use view::{
    DirectoryEntryView, DirectoryFlags, EntryView, LeafEntryView, LeafFlags,
    PagingAttributesViewer,
};
