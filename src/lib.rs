//! Parsing of the update listing printed by `cargo install-update --list --git`,
//! and the report record that carries its result.

pub mod error;
pub mod header;
pub mod render;
pub mod report;
pub mod row;
pub mod table;
pub mod values;
pub mod width;

pub use error::CargoUpdateCheckError;
pub use header::{match_header, ColumnWidths};
pub use report::ReportData;
pub use table::{
    check_cargo_updates, find_header, parse_git_rows, parse_listing, parse_registry_rows, Lines,
    ListingOutcome, UpdateEntry, UpdateTable, SUBCOMMAND_MISSING_EXIT,
};
pub use values::{ObjectHash, SemVer};
pub use width::split_at_width;
