//! Stratum V2 core: binary codec, framing, Noise handshake state machine,
//! V1 JSON-RPC methods, and the V1<->V2 translator bridge.


pub mod bridge;
pub mod codec;
pub mod config;
pub mod codec_state;
pub mod datatypes;
pub mod frame_stream;
pub mod framing;
pub mod common_messages;
pub mod job_declaration;
pub mod json;
pub mod json_rpc;
pub mod markers;
pub mod mining;
pub mod noise;
pub mod setup_connection;
pub mod template_distribution;
pub mod v1;
