//! The parts of reading a spreadsheet export that decide what its cells and
//! rows mean.

pub mod archive;
pub mod init;
pub mod read_xlsx_share;
pub mod read_xlsx_table;
pub mod requirement_type;
pub mod share;
pub mod table_info;
