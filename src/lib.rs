pub mod table;
pub mod text;
pub mod pretty;
pub mod markup;
pub mod records;

pub use table::{Table, TableError};
pub use pretty::DEFAULT_WIDTH;
