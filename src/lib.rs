//! Decoding of candump capture logs: one bus frame per line, written as
//! `(seconds.micros) device id#data`.

mod dump;
mod frame;
mod hexdata;
mod laws;
mod line;
mod numeral;

pub use dump::{CanDumpRecords, Reader};
pub use frame::{CanFrame, ConstructionError, FrameView, EFF_MASK, MAX_DATA_LEN, SFF_MASK};
pub use hexdata::lemma_hex_round_trip;
pub use laws::{
    lemma_bad_hex_is_invalid, lemma_payload_hex_round_trip, lemma_remote_request_exact,
    lemma_timestamp_exact, lemma_timestamp_saturates, lemma_timestamp_shape,
    lemma_two_fields_end_early,
};
pub use line::{
    find_byte, next_field, parse_line, parse_payload, parse_timestamp, CanDumpRecord, ParseError,
    RecordView,
};
pub use numeral::parse_digits;
