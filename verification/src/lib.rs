//! A verified core for managing POSIX locale configuration: a fourteen-field
//! locale record with its parse and serialize contract, a catalog mapping
//! locale identifiers to records, identifier extraction for the catalog
//! builder, and target-path resolution for the activator.
pub mod activate;
pub mod builder;
pub mod catalog;
pub mod record;
pub mod text;

pub use activate::{config_path, LocaleError, Target};
pub use builder::{build_entry, extract_identifiers};
pub use catalog::{LocaleData, LocaleGen};
pub use record::Locale;
pub use text::{split_lines, str_equal};
