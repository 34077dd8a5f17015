//! Probing, validation and decoding of the fixed 80-byte header that prefixes
//! every Cryptdatum object, with a self-contained timestamp formatter.
pub mod error;
pub mod flags;
pub mod header;
pub mod report;
pub mod timestamp;

pub use error::{ErrorKind, ErrorType};
pub use flags::{flag_is_set, DatumFlag};
pub use header::{
    decode_header, has_header, has_valid_header, Header, DELIMITER, HEADER_SIZE, MAGIC,
    MAGIC_DATE, MIN_VERSION, VERSION,
};
pub use report::{bool_str, pretty_size};
