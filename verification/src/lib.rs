pub mod cli;
pub mod laws;
pub mod reference;
pub mod report;
pub mod report_laws;
pub mod scan;
pub mod text;

pub use reference::{col_to_letters, Cell, CellRange, NamedRange, Reference, TableRef};
pub use scan::extract;
