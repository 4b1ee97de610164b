//! Encoder and decoder for the SMA Speedwire protocol, spoken by SMA
//! photovoltaic inverters and energy meters over UDP.

mod any;
pub mod client;
mod container;
pub mod cursor;
pub mod energymeter;
mod error;
pub mod inverter;
pub mod packet;

pub use any::{
    lemma_any_decode, lemma_any_round_trip, lemma_any_trailing_bytes, lemma_buffer_bounds, lemma_spec_bytes_len, parse_any, AnyMessageView,
    AnySmaMessage, AnySmaMessageBase,
};
pub use container::{BoundedVec, SmaContainer};
pub use cursor::{Cursor, Endian};
pub use error::{Error, Result};
pub use packet::{SmaEndpoint, SmaPacketFooter, SmaPacketHeader};
