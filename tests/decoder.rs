use base64::Engine;
use ethers::types::Transaction;
use ethers::utils::{hex, rlp};
use sequencer_feed_reader::decoder::{
    get_decoded_msg, parse_batch_transactions, Action, ActionDecodeError, DecodedMsg,
    L2MessageKind, MAX_L2_MESSAGE_SIZE,
};
use sequencer_feed_reader::types::{Header, L1IncomingMessageHeader};

const LEGACY_TX: &str = "f9015482078b8505d21dba0083022ef1947a250d5630b4cf539739df2c5dacb4c659f2488d880c46549a521b13d8b8e47ff36ab50000000000000000000000000000000000000000000066ab5a608bd00a23f2fe000000000000000000000000000000000000000000000000000000000000008000000000000000000000000048c04ed5691981c42154c6167398f95e8f38a7ff00000000000000000000000000000000000000000000000000000000632ceac70000000000000000000000000000000000000000000000000000000000000002000000000000000000000000c02aaa39b223fe8d0a0e5c4f27ead9083c756cc20000000000000000000000006c6ee5e31d828de241282b9606c8e98ea48526e225a0c9077369501641a92ef7399ff81c21639ed4fd8fc69cb793cfa1dbfab342e10aa0615facb2f1bcf3274a354cfe384a38d0cc008a11c2dd23a69111bc6930ba27a8";

const EIP1559_TX: &str = "02f86f05418459682f008459682f098301a0cf9411d7c2ab0d4aa26b7d8502f6a7ef6844908495c28084e5225381c001a01a8d7bef47f6155cbdf13d57107fc577fd52880fa2862b1a50d47641f8839419a03279bbf73fde76de83440d04b9d97f3809fec8617d3557ee40ac3e0edc391514";

fn legacy_rlp() -> Vec<u8> {
    hex::decode(LEGACY_TX).unwrap()
}

fn eip1559_rlp() -> Vec<u8> {
    rlp::encode(&hex::decode(EIP1559_TX).unwrap()).to_vec()
}

fn tx_of(b: &[u8]) -> Transaction {
    rlp::decode::<Transaction>(b).unwrap()
}

fn frame(tag: u8, body: &[u8]) -> Vec<u8> {
    let mut out = ((body.len() + 1) as u64).to_be_bytes().to_vec();
    out.push(tag);
    out.extend_from_slice(body);
    out
}

fn header_with(l2msg: String) -> L1IncomingMessageHeader {
    L1IncomingMessageHeader {
        header: Header {
            kind: 3,
            sender: "0xa4b000000000000000000073657175656e636572".to_string(),
            block_number: 17000000,
            timestamp: 1680000000,
            request_id: serde_json::Value::Null,
            base_fee_l1: serde_json::Value::Null,
        },
        l2msg,
    }
}

fn b64(b: &[u8]) -> String {
    base64::engine::general_purpose::STANDARD.encode(b)
}

#[test]
fn kind_tags() {
    assert!(matches!(L2MessageKind::from_byte(0), Some(L2MessageKind::UnsignedUserTx)));
    assert!(matches!(L2MessageKind::from_byte(3), Some(L2MessageKind::Batch)));
    assert!(matches!(L2MessageKind::from_byte(4), Some(L2MessageKind::SignedTx)));
    assert!(matches!(L2MessageKind::from_byte(6), Some(L2MessageKind::Heartbeat)));
    assert!(matches!(L2MessageKind::from_byte(7), Some(L2MessageKind::SignedCompressedTx)));
    assert!(L2MessageKind::from_byte(5).is_none());
    assert!(L2MessageKind::from_byte(8).is_none());
    assert!(L2MessageKind::from_byte(255).is_none());
}

#[test]
fn single_tx_round_trip() {
    let rlp_bytes = legacy_rlp();
    let tx = tx_of(&rlp_bytes);
    let reencoded = tx.rlp().to_vec();
    let mut payload = vec![4u8];
    payload.extend_from_slice(&reencoded);
    let decoded = header_with(b64(&payload)).decode();
    assert_eq!(decoded, Some(DecodedMsg::DecodedSignedTx(tx)));
}

#[test]
fn single_tx_from_raw_payload() {
    let rlp_bytes = eip1559_rlp();
    let mut payload = vec![4u8];
    payload.extend_from_slice(&rlp_bytes);
    assert_eq!(get_decoded_msg(payload), Some(DecodedMsg::DecodedSignedTx(tx_of(&rlp_bytes))));
}

#[test]
fn batch_round_trip_keeps_order() {
    let a = legacy_rlp();
    let b = eip1559_rlp();
    let mut payload = vec![3u8];
    payload.extend(frame(4, &a));
    payload.extend(frame(4, &b));
    payload.extend(frame(4, &a));
    let decoded = header_with(b64(&payload)).decode();
    assert_eq!(
        decoded,
        Some(DecodedMsg::DecodedBatch(vec![tx_of(&a), tx_of(&b), tx_of(&a)]))
    );
}

#[test]
fn empty_batch_is_empty() {
    assert_eq!(get_decoded_msg(vec![3u8]), Some(DecodedMsg::DecodedBatch(vec![])));
    assert_eq!(parse_batch_transactions(&[]), Some(vec![]));
}

#[test]
fn truncated_prefix_is_ignored() {
    let a = legacy_rlp();
    let mut data = frame(4, &a);
    data.extend_from_slice(&[0, 0, 0, 0, 0, 0, 1]);
    assert_eq!(parse_batch_transactions(&data), Some(vec![tx_of(&a)]));
}

#[test]
fn truncated_body_is_ignored() {
    let a = legacy_rlp();
    let b = eip1559_rlp();
    let mut data = frame(4, &a);
    let cut = frame(4, &b);
    data.extend_from_slice(&cut[..cut.len() - 1]);
    assert_eq!(parse_batch_transactions(&data), Some(vec![tx_of(&a)]));
}

#[test]
fn announced_length_too_large_is_ignored() {
    let a = legacy_rlp();
    let mut data = frame(4, &a);
    data.extend_from_slice(&u64::MAX.to_be_bytes());
    data.extend_from_slice(&[4, 1, 2, 3]);
    assert_eq!(parse_batch_transactions(&data), Some(vec![tx_of(&a)]));
}

#[test]
fn batch_with_bad_rlp_is_refused() {
    let a = legacy_rlp();
    let mut data = frame(4, &a);
    data.extend(frame(4, &[0xff, 0x00]));
    assert_eq!(parse_batch_transactions(&data), None);
    let mut payload = vec![3u8];
    payload.extend(data);
    assert_eq!(get_decoded_msg(payload), None);
}

#[test]
fn batch_with_empty_frame_is_refused() {
    let data = 0u64.to_be_bytes().to_vec();
    assert_eq!(parse_batch_transactions(&data), None);
}

#[test]
fn non_transaction_kinds_are_absent() {
    let a = legacy_rlp();
    for tag in [0u8, 1, 2, 6, 7] {
        let mut payload = vec![tag];
        payload.extend_from_slice(&a);
        assert_eq!(get_decoded_msg(payload.clone()), None);
        assert_eq!(header_with(b64(&payload)).decode(), None);
    }
}

#[test]
fn unknown_kinds_are_absent() {
    for tag in [5u8, 8, 200] {
        assert_eq!(get_decoded_msg(vec![tag, 1, 2, 3]), None);
    }
}

#[test]
fn empty_payload_is_absent() {
    assert_eq!(get_decoded_msg(vec![]), None);
    assert_eq!(header_with(String::new()).decode(), None);
}

#[test]
fn bad_signed_tx_is_absent() {
    assert_eq!(get_decoded_msg(vec![4u8, 0xc0]), None);
    assert_eq!(get_decoded_msg(vec![4u8]), None);
}

#[test]
fn invalid_base64_is_absent() {
    assert_eq!(header_with("not base64!".to_string()).decode(), None);
    assert_eq!(header_with("BA".to_string()).decode(), None);
}

#[test]
fn oversized_payload_is_absent() {
    let a = legacy_rlp();
    let mut payload = vec![3u8];
    payload.extend(frame(4, &a));
    payload.resize(MAX_L2_MESSAGE_SIZE + 1, 0);
    assert_eq!(header_with(b64(&payload)).decode(), None);
}

#[test]
fn payload_at_size_limit_is_decoded() {
    let a = legacy_rlp();
    let mut payload = vec![3u8];
    payload.extend(frame(4, &a));
    payload.push(0xff);
    payload.resize(MAX_L2_MESSAGE_SIZE, 0);
    assert_eq!(
        header_with(b64(&payload)).decode(),
        Some(DecodedMsg::DecodedBatch(vec![tx_of(&a)]))
    );
}

#[test]
fn action_empty_item_is_create() {
    assert_eq!(Action::decode(&[0x80]), Ok(Action::Create));
}

#[test]
fn action_empty_list_is_refused() {
    assert_eq!(Action::decode(&[0xc0]), Err(ActionDecodeError::ExpectedToBeData));
}

#[test]
fn action_address_is_call() {
    let addr: [u8; 20] = [
        0x7a, 0x25, 0x0d, 0x56, 0x30, 0xb4, 0xcf, 0x53, 0x97, 0x39, 0xdf, 0x2c, 0x5d, 0xac,
        0xb4, 0xc6, 0x59, 0xf2, 0x48, 0x8d,
    ];
    let mut item = vec![0x94u8];
    item.extend_from_slice(&addr);
    assert_eq!(Action::decode(&item), Ok(Action::Call(addr)));
    let encoded = rlp::encode(&ethers::types::H160(addr)).to_vec();
    assert_eq!(Action::decode(&encoded), Ok(Action::Call(addr)));
}

#[test]
fn action_wrong_width_is_refused() {
    let mut short = vec![0x93u8];
    short.extend_from_slice(&[1u8; 19]);
    assert_eq!(Action::decode(&short), Err(ActionDecodeError::TooShort));
    let mut long = vec![0x95u8];
    long.extend_from_slice(&[1u8; 21]);
    assert_eq!(Action::decode(&long), Err(ActionDecodeError::TooBig));
    assert_eq!(Action::decode(&[0x01]), Err(ActionDecodeError::TooShort));
    assert_eq!(Action::decode(&[]), Err(ActionDecodeError::TooShort));
}

#[test]
fn action_list_is_refused() {
    assert_eq!(Action::decode(&[0xc1, 0x80]), Err(ActionDecodeError::ExpectedToBeData));
    let mut list = vec![0xd5u8, 0x94];
    list.extend_from_slice(&[7u8; 20]);
    assert_eq!(Action::decode(&list), Err(ActionDecodeError::ExpectedToBeData));
}

#[test]
fn action_cut_short_item_is_malformed() {
    assert_eq!(Action::decode(&[0x94, 1, 2, 3]), Err(ActionDecodeError::Malformed));
    assert_eq!(Action::decode(&[0x81, 0x05]), Err(ActionDecodeError::Malformed));
}

#[test]
fn action_long_form_address_is_call() {
    let mut item = vec![0xb8u8, 0x14];
    item.extend_from_slice(&[9u8; 20]);
    assert_eq!(Action::decode(&item), Ok(Action::Call([9u8; 20])));
}
