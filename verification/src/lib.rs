//! Reading and writing of PAF records: one alignment between a query and a
//! target sequence per line of tab-separated text.

pub mod error;
pub mod laws;
pub mod number;
pub mod parse;
pub mod reader;
pub mod realnum;
pub mod record;
pub mod text;
pub mod value;
pub mod writer;

pub use crate::error::{Error, ErrorKind};
pub use crate::parse::parse_record;
pub use crate::reader::{Reader, RecordsIntoIter, RecordsIter};
pub use crate::record::{OptionalFields, PafRecord};
pub use crate::value::{Tag, Type};
pub use crate::writer::{format_record, Writer};
