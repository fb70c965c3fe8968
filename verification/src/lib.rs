//! IEEE 802.11ah (S1G) physical layer for 2 MHz channels, together with the
//! byte formats and protocol logic of the tools around it.

pub mod arith;
pub mod bits;
pub mod clock;
pub mod error;
pub mod hex;
pub mod iiod;
pub mod ldpc;
pub mod loopback;
pub mod mapping;
pub mod node;
pub mod octets;
pub mod ofdm;
pub mod params;
pub mod pcap;
pub mod pilots;
pub mod preamble;
pub mod recording;
pub mod report;
pub mod rx;
pub mod scrambler;
pub mod sig;
pub mod sim;
pub mod text;
pub mod tx;
pub mod vector;
pub mod virtual_pluto;
pub mod wintap;
