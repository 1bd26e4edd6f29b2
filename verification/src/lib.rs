//! VSTP: a binary framing and messaging protocol.
//!
//! The crate holds the wire format of frames, the incremental decoder, the
//! reassembly of fragmented datagrams and the decisions of the TCP and UDP
//! transports, each stated as a contract over sequences of bytes.

pub mod binary;
pub mod buffers;
pub mod builder;
pub mod clock;
pub mod codec;
pub mod compression;
pub mod crc;
pub mod decimal;
pub mod encoding;
pub mod endian;
pub mod error;
pub mod extensions;
pub mod flags;
pub mod fragments;
pub mod frame_ext;
pub mod observer;
pub mod parser;
pub mod patterns;
pub mod peer;
pub mod reassembly;
pub mod reassembly_laws;
pub mod reliability;
pub mod tcp;
pub mod tls;
pub mod types;
pub mod udp;
pub mod utils;
pub mod udp_laws;
pub mod wire;
pub mod wire_laws;

pub use binary::{decode_string, encode_string};
pub use builder::FrameBuilder;
pub use codec::{StreamFramer, VstpFrameCodec};
pub use compression::{compress, decompress, CompressionConfig};
pub use crc::CrcValidator;
pub use encoding::{decode_varint, encode_varint, varint_len};
pub use error::{ErrorKind, VstpError};
pub use flags::Flags;
pub use fragments::{add_fragment_headers, extract_fragment_info, fragment_payload};
pub use frame_ext::{FrameExt, FrameTypeExt};
pub use parser::{encode_frame, try_decode_frame};
pub use patterns::{AttackPattern, ErrorType, ThreatLevel};
pub use peer::PeerAddr;
pub use reassembly::{Fragment, ReassemblyManager};
pub use reliability::{UdpConfig, UdpServerConfig};
pub use tls::TlsConfig;
pub use types::{Frame, FrameType, Header, SessionId, VSTP_MAGIC, VSTP_VERSION};
