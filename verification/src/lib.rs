//! Slotted pages, the header of the paged file that stores them, and the
//! column types of the layer above.

pub mod checksum;
pub mod codec;
pub mod error;
pub mod file;
pub mod page;
pub mod schema;

pub use error::{DataFault, StorageError};
pub use file::FileHeader;
pub use page::{Page, PageHeader, PageIterator, PageType, SlotEntry, PAGE_SIZE};
pub use schema::{
    ColumnDefinition, DataType, ForeignKeyDefinition, IndexDefinition, IndexType,
    ReferentialAction, TableSchema,
};
