//! The SMA speedwire energy meter sub protocol.

mod header;
mod message;
mod obis;

pub use header::SmaEmHeader;
pub use message::{
    first_unsupported, lemma_em_round_trip, lemma_first_unsupported_exists,
    lemma_first_unsupported_is_first, lemma_obis_list_bytes_len, obis_list_bytes,
    obis_list_len, parse_em_message, parse_obis_list, EmMessageView, SmaEmMessage,
    SmaEmMessageBase,
};
pub use obis::{
    is_long_id, is_short_id, is_supported_id, lemma_obis_validation, parse_obis, ObisValue,
};
