//! The columnar file: column data, a dictionary of the columns, and a footer.

pub mod column_handle;
pub mod column_type;
pub mod columns;
pub mod dictionary;
pub mod format_version;
pub mod layout;
pub mod reader;
pub mod stats;
pub mod text;
pub mod utils;
