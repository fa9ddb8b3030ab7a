//! Codec for the PACK game-asset container: a fixed header, an index of
//! per-entry records and a content region of compressed, obfuscated payloads.

pub mod assemble;
pub mod bytes;
pub mod compress;
pub mod container;
pub mod error;
pub mod filter;
pub mod header;
pub mod index;
pub mod keystream;
pub mod strblock;

pub use assemble::{assemble, pack_container, PackedFile, SourceFile};
pub use container::{check_inflated, extract_entry, get_rel_path, pack_file, time_to_filetime};
pub use error::MabiError;
pub use filter::{is_selected, make_regex, NameFilter};
pub use header::{read_header, write_header, HeadInfo, HEADER_SIZE};
pub use index::{read_index, write_file_entry, FileInfo};
pub use keystream::obfuscate;
pub use strblock::{calc_str_size, read_c_str, read_str, write_str_block};
