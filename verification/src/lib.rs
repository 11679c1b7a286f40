//! Core codecs of a BitTorrent Mainline DHT client: fixed-length hex and
//! base32 decoders, a zero-copy Bencode parser, the KRPC message codec, a
//! magnet URI parser, and the BEP 42 node-ID derivation.

pub mod bencode;
pub mod encodings;
pub mod magnet;
pub mod messages;
pub mod node_id;

pub use encodings::EncodingError;
