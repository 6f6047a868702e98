pub mod common;
pub mod dirman;
pub mod error;
pub mod pageman;

pub use common::{fixed_to_string, string_to_fixed};
pub use dirman::{Directory, DirectoryColumn, DirectoryHeader, COLUMN_FLOAT, COLUMN_INT, COLUMN_STRING};
pub use error::DbError;
pub use pageman::{Page, PageHeader, PAGE_CONTENT_SIZE};
