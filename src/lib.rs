//! JA4+ network fingerprints: the canonical strings and the rules that build them.

mod fields;
mod flow;
mod packet;
mod hashing;
mod http;
mod record;
mod ssh;
mod text;
mod timing;
mod tls;
mod tokens;
mod tshark;
mod x509;

pub use flow::{Endpoint, Flow, Proto, Sender, Streams};
pub use hashing::{hash12, hash12_of_digest};
pub use fields::{dec32, u16_text};
pub use http::{ja4h, ja4h_raw, HttpRequest};
pub use packet::{certificates_of, client_hello_of, http_request_of, server_hello_of, PacketFields};
pub use record::{observe, FlowFingerprints};
pub use ssh::{ja4ssh, modal_length, ssh_segment, SshPacket};
pub use text::{count_digits, hex_token, join_hex_list};
pub use timing::{decimal_text, half_rtt, ja4l_c, ja4l_s, Handshake, HandshakeTracker};
pub use tls::{
    ja4, ja4_cipher_raw, ja4_extension_raw, ja4_prefix, ja4_raw, ja4s, ja4s_raw, max_value, offered_version, ClientHello, ServerHello, Transport};
pub use tokens::{is_grease, sort_ascending, without_grease};
pub use tshark::{assess_tshark_version, meets_tshark_minimum, parse_tshark_version, VersionError};
pub use x509::{ja4x, ja4x_extensions_raw, ja4x_raw, Certificate};

use vstd::prelude::*;

verus! {

/// Options of a fingerprinting run over one capture file.
#[derive(Debug, Clone, PartialEq, Eq)]
pub struct Cli {
    /// JSON output (default is YAML).
    pub json: bool,
    /// Include raw (unhashed) fingerprints in the output.
    pub with_raw: bool,
    /// Preserve the original order of ciphers, extensions and cookies.
    pub original_order: bool,
    /// The key log file that enables decryption of TLS traffic.
    pub keylog_file: Option<String>,
    /// Include packet numbers in the output.
    pub with_packet_numbers: bool,
    /// The capture file to process.
    pub pcap: String,
}

} // verus!
