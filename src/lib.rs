//! A protobuf-wire codec for typed, layout-described values, together with the
//! peer monitoring service configuration.
use vstd::prelude::*;

pub mod api;
pub mod config;
pub mod decode;
pub mod encode;
pub mod layout;
pub mod options;
pub mod round_trip;
pub mod wire;

verus! {

} // verus!
