//! NET/ROM wire formats: the octet-level codecs.

pub mod broadcast;
pub mod callsign;
pub mod connect_ack_info;
pub mod connect_request_info;
pub mod entry;
pub mod inp3_l3rtt;
pub mod inp3_options;
pub mod inp3_rif;
pub mod network_header;
pub mod nodes_broadcast_builder;
pub mod options;
pub mod packet;
pub mod transport_header;

pub use broadcast::NodesBroadcast;
pub use callsign::{
    read_alias, try_read_shifted, write_alias, write_shifted, Alias, ALIAS_LENGTH, SHIFTED_LENGTH,
};
pub use connect_ack_info::ConnectAckInfo;
pub use connect_request_info::{ConnectRequestInfo, CONNECT_REQUEST_INFO_LEN};
pub use entry::NodesRoutingEntry;
pub use inp3_l3rtt::Inp3L3RttFrame;
pub use inp3_options::NetRomInp3Options;
pub use inp3_rif::{Inp3ParseOptions, Inp3Rif, Inp3Rip, Inp3Tlv};
pub use network_header::{NetRomNetworkHeader, DEFAULT_TIME_TO_LIVE, NETWORK_HEADER_LEN};
pub use nodes_broadcast_builder::{
    write_nodes_frame, NodesAdvertisementEntry, MAX_NODES_FRAME_LEN,
};
pub use options::NetRomParseOptions;
pub use packet::{NetRomPacket, MAX_PAYLOAD, PACKET_HEADER_LEN};
pub use transport_header::{
    NetRomOpcode, NetRomTransportHeader, FLAGS_MASK, FLAG_CHOKE, FLAG_MORE_FOLLOWS, FLAG_NAK,
    OPCODE_MASK, TRANSPORT_HEADER_LEN,
};
