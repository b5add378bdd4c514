use ax25_node_core::ax25::Callsign;
use ax25_node_core::netrom::wire::connect_ack_info::{
    CONNECT_ACK_INFO_EXTENDED_LEN, CONNECT_ACK_INFO_VANILLA_LEN,
};
use ax25_node_core::netrom::wire::connect_request_info::{
    CONNECT_REQUEST_INFO_EXTENDED_LEN, CONNECT_REQUEST_INFO_LEN,
};
use ax25_node_core::netrom::wire::{ConnectAckInfo, ConnectRequestInfo};

#[test]
fn agreeing_ack_carries_window_and_ttl_with_the_bit() {
    let (info, len) = ConnectAckInfo::encode(4, 10, true);
    assert_eq!(len, CONNECT_ACK_INFO_EXTENDED_LEN);
    assert_eq!(info[0], 4);
    assert_eq!(info[1] & 0x7F, 10);
    assert!(ConnectAckInfo::agrees_compression(&info[..len]));
    assert_eq!(
        ConnectAckInfo::try_read_accepted_window(&info[..len]),
        Some(4)
    );
}

#[test]
fn declining_ack_is_the_vanilla_window_only_form() {
    let (info, len) = ConnectAckInfo::encode(4, 10, false);
    assert_eq!(len, CONNECT_ACK_INFO_VANILLA_LEN);
    assert_eq!(&info[..len], &[4]);
    assert!(!ConnectAckInfo::agrees_compression(&info[..len]));
    assert_eq!(
        ConnectAckInfo::try_read_accepted_window(&info[..len]),
        Some(4)
    );
}

#[test]
fn accepted_window_read_rejects_absent_or_out_of_range_octets() {
    assert_eq!(ConnectAckInfo::try_read_accepted_window(&[]), None);
    assert_eq!(ConnectAckInfo::try_read_accepted_window(&[0]), None);
    assert_eq!(ConnectAckInfo::try_read_accepted_window(&[128]), None);
    assert_eq!(ConnectAckInfo::try_read_accepted_window(&[127]), Some(127));
    assert_eq!(ConnectAckInfo::try_read_accepted_window(&[1]), Some(1));
}

fn cs(b: &[u8]) -> Callsign {
    Callsign::new(b, 0).unwrap()
}

#[test]
fn extended_form_is_17_octets_and_offers_when_asked() {
    let cri = ConnectRequestInfo {
        proposed_window: 4,
        originating_user: cs(b"M0LTE"),
        originating_node: cs(b"GB7RDG"),
    };
    let mut buf = [0u8; CONNECT_REQUEST_INFO_EXTENDED_LEN];
    cri.encode_extended(&mut buf, 60, true).unwrap();

    let parsed = ConnectRequestInfo::decode(&buf).unwrap();
    assert_eq!(parsed, cri);

    assert_eq!(buf[CONNECT_REQUEST_INFO_LEN], 60);
    assert_eq!(buf[CONNECT_REQUEST_INFO_LEN + 1] & 0x0F, 0);
    assert!(ConnectRequestInfo::offers_compression(&buf));
}

#[test]
fn extended_without_offer_clears_the_bit() {
    let cri = ConnectRequestInfo {
        proposed_window: 4,
        originating_user: cs(b"M0LTE"),
        originating_node: cs(b"GB7RDG"),
    };
    let mut buf = [0u8; CONNECT_REQUEST_INFO_EXTENDED_LEN];
    cri.encode_extended(&mut buf, 0x123, false).unwrap();
    assert_eq!(buf[CONNECT_REQUEST_INFO_LEN], 0x23);
    assert_eq!(buf[CONNECT_REQUEST_INFO_LEN + 1], 0x01);
    assert!(!ConnectRequestInfo::offers_compression(&buf));
}

#[test]
fn canonical_15_octet_form_offers_nothing() {
    let cri = ConnectRequestInfo {
        proposed_window: 4,
        originating_user: cs(b"M0LTE"),
        originating_node: cs(b"GB7RDG"),
    };
    let mut buf = [0u8; CONNECT_REQUEST_INFO_LEN];
    cri.encode(&mut buf).unwrap();
    assert!(!ConnectRequestInfo::offers_compression(&buf));
}
