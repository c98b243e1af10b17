//! A verified reader for the Multi-Stream File (MSF) container used by PDB
//! debug-information files.
//!
//! An MSF file stores a collection of independent byte streams as unordered
//! lists of fixed-size pages.  The reader parses one of two historical header
//! layouts ("Big" and "Small"), resolves the stream directory through the
//! format-specific indirection, and materializes any stream as a contiguous
//! byte view through a narrow transport capability.

pub mod big;
pub mod bytes;
pub mod errors;
pub mod header;
pub mod msf;
pub mod page_list;
pub mod small;
pub mod source;

pub use big::BigMSF;
pub use errors::MsfError;
pub use errors::SourceError;
pub use header::Header;
pub use msf::open_msf;
pub use msf::Msf;
pub use msf::MsfReader;
pub use msf::StreamTable;
pub use msf::Stream;
pub use page_list::PageList;
pub use page_list::SourceSlice;
pub use small::SmallMSF;
pub use source::MemorySource;
pub use source::Source;
