//! A codec for the LTX transaction-log file format: a binary container that
//! records a run of database page changes between two transaction boundaries,
//! protected by a whole-file checksum and optionally LZ4-compressed.
//!
//! The encoder and decoder work on in-memory byte buffers; callers stream the
//! bytes to or from their own sinks and sources.

mod decoder;
mod encoder;
mod laws;
mod ltx;
mod types;
mod utils;
mod wire;

pub use decoder::{lz4_decode_prefix_of, Decoder, Error as DecodeError, FrameContentV};
pub use encoder::{
    spec_page_check, spec_page_order_ok, spec_pages_valid, spec_snapshot_step,
    spec_validate_page_num, Encoder, Error as EncodeError,
};
pub use laws::{
    encode_decode_round_trip, lemma_lock_page_rejected, lemma_snapshot_lock_page_skip,
    spec_page_views,
};
pub use ltx::{
    crc64_of, lemma_header_round_trip, lemma_page_header_round_trip, lemma_records_concat,
    lemma_records_decompose, lemma_records_push, lemma_trailer_round_trip, lz4_frame_of,
    spec_body_bytes, spec_checksum_domain, spec_file_bytes, spec_file_checksum,
    spec_header_bytes, spec_header_valid, spec_is_compressed, spec_is_snapshot, spec_magic,
    spec_page_header_bytes, spec_page_record_bytes, spec_parse_header, spec_parse_page_header,
    spec_parse_trailer, spec_records_bytes, spec_trailer_bytes, spec_validate,
};
pub use ltx::{
    Header, HeaderDecodeError, HeaderEncodeError, HeaderFlags, HeaderV, HeaderValidateError,
    PageChecksum, PageHeader, PageHeaderDecodeError, Trailer, TrailerDecodeError, TrailerV,
};
pub use ltx::{FLAG_COMPRESS_LZ4, FLAG_UNKNOWN_MASK, HEADER_SIZE, PAGE_HEADER_SIZE, TRAILER_SIZE};
pub use types::{hex16, hex8, hex_digit, page_size_valid, spec_lock_page, spec_parse_hex_u32};
pub use types::{Checksum, PageNum, PageNumError, PageSize, PageSizeError, Pos, TXID, TXIDError};
pub use types::{CHECKSUM_FLAG, MAX_PAGE_SIZE, MIN_PAGE_SIZE};
pub use utils::time_round;
