//! The SMA speedwire inverter sub protocol.

mod cmd;
mod counter;
mod get_day_data;
mod header;
mod identify;
mod login;
mod logout;
mod meter;

pub use cmd::SmaCmdWord;
pub use counter::{lemma_counter_round_trip, SmaInvCounter};
pub use get_day_data::{
    lemma_get_day_data_round_trip, lemma_records_bytes_len, parse_get_day_data, parse_records,
    records_bytes, GetDayDataView, SmaInvGetDayData,
};
pub use header::{
    deserialize_frame, frame_bytes, lemma_frame_facts, lemma_frame_round_trip, lemma_inv_header_at,
    parse_inv_frame, serialize_frame, SmaInvHeader,
};
pub use identify::{lemma_identify_round_trip, parse_identify, IdentifyView, SmaInvIdentify};
pub use login::{
    deobfuscate, lemma_login_round_trip, obfuscate, parse_login, password_bytes,
    InvalidPasswordError, LoginView, SmaInvLogin,
};
pub use logout::{lemma_logout_round_trip, parse_logout, SmaInvLogout};
pub use meter::SmaInvMeterValue;
