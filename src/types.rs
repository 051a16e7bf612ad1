use serde_json::Value;
use vstd::prelude::*;

verus! {

#[verifier::external_type_specification]
#[verifier::external_body]
pub struct ExValue(Value);

/// One feed frame: a protocol version and the feed messages it carries.
#[derive(Debug, PartialEq)]
pub struct Root {
    pub version: u8,
    pub messages: Vec<BroadcastFeedMessage>,
}

/// A sequenced feed message; its signature is carried through unchecked.
#[derive(Debug, PartialEq)]
pub struct BroadcastFeedMessage {
    pub sequence_number: u64,
    pub message: MessageWithMetadata,
    pub signature: Value,
}

#[derive(Debug, PartialEq)]
pub struct MessageWithMetadata {
    pub message: L1IncomingMessageHeader,
    pub delayed_messages_read: u64,
}

/// A message header and its base64-encoded L2 payload.
#[derive(Debug, PartialEq)]
pub struct L1IncomingMessageHeader {
    pub header: Header,
    pub l2msg: String,
}

#[derive(Debug, PartialEq)]
pub struct Header {
    pub kind: u8,
    pub sender: String,
    pub block_number: u64,
    pub timestamp: u64,
    pub request_id: Value,
    pub base_fee_l1: Value,
}

} // verus!
