use crate::types::L1IncomingMessageHeader;
use base64::Engine;
use ethers::types::Transaction;
use ethers::utils::rlp::DecoderError;
use vstd::prelude::*;
use vstd::slice::slice_subrange;

verus! {

#[verifier::external_type_specification]
#[verifier::external_body]
pub struct ExTransaction(Transaction);

/// The transaction that the RLP codec decodes from `b`, if any.
pub uninterp spec fn tx_of(b: Seq<u8>) -> Option<Transaction>;

/// Relies on `ethers::utils::rlp::decode::<Transaction>`: the result depends on the
/// bytes alone.
#[verifier::external_body]
fn decode_tx(b: &[u8]) -> (r: Option<Transaction>)
    ensures
        r == tx_of(b@),
{
    ethers::utils::rlp::decode::<Transaction>(b).ok()
}

/// Length of a batch sub-message's big-endian length prefix.
pub const LENGTH_PREFIX: usize = 8;

/// The unsigned integer that `b` encodes in big-endian byte order.
pub open spec fn be_value(b: Seq<u8>) -> nat
    decreases b.len(),
{
    if b.len() == 0 {
        0
    } else {
        be_value(b.drop_last()) * 256 + b.last() as nat
    }
}

/// The bodies of the complete frames at the start of a batch: each frame is an
/// 8-byte big-endian length `L` followed by `L` bytes; a trailing partial frame
/// ends the sequence.
pub open spec fn frames(data: Seq<u8>) -> Seq<Seq<u8>>
    decreases data.len(),
{
    if data.len() < 8 {
        Seq::empty()
    } else {
        let l = be_value(data.subrange(0, 8)) as int;
        if l > data.len() - 8 {
            Seq::empty()
        } else {
            seq![data.subrange(8, 8 + l)] + frames(data.subrange(8 + l, data.len() as int))
        }
    }
}

/// A frame body carries a transaction: an inner kind byte, then the transaction's RLP.
pub open spec fn frame_ok(f: Seq<u8>) -> bool {
    f.len() > 0 && tx_of(f.drop_first()) is Some
}

/// The transaction of a frame body that carries one.
pub open spec fn frame_tx(f: Seq<u8>) -> Transaction {
    tx_of(f.drop_first())->Some_0
}

/// Every complete frame of the batch carries a transaction.
pub open spec fn batch_ok(data: Seq<u8>) -> bool {
    forall|i: int| 0 <= i < frames(data).len() ==> #[trigger] frame_ok(frames(data)[i])
}

/// The transactions of the batch, in frame order.
pub open spec fn batch_txs(data: Seq<u8>) -> Seq<Transaction> {
    frames(data).map_values(|f: Seq<u8>| frame_tx(f))
}

proof fn lemma_be_value_bound(b: Seq<u8>)
    ensures
        be_value(b) < pow256(b.len()),
    decreases b.len(),
{
    if b.len() > 0 {
        lemma_be_value_bound(b.drop_last());
        let v = be_value(b.drop_last());
        let p = pow256(b.drop_last().len());
        assert(v * 256 + b.last() < p * 256) by (nonlinear_arith)
            requires
                v < p,
                b.last() < 256,
        ;
    }
}

/// 256 raised to `n`.
pub open spec fn pow256(n: nat) -> nat
    decreases n,
{
    if n == 0 {
        1
    } else {
        pow256((n - 1) as nat) * 256
    }
}

/// Reads the 8-byte big-endian integer at `data[start..start + 8]`.
fn read_be64(data: &[u8], start: usize) -> (r: u64)
    requires
        start + 8 <= data@.len(),
    ensures
        r as nat == be_value(data@.subrange(start as int, start + 8)),
{
    let n = data.len();
    let mut v: u64 = 0;
    let mut k: usize = 0;
    while k < 8
        invariant
            k <= 8,
            start + 8 <= data@.len() == n,
            v as nat == be_value(data@.subrange(start as int, start + k)),
        decreases 8 - k,
    {
        let ghost prefix = data@.subrange(start as int, start + k);
        let ghost next = data@.subrange(start as int, start + k + 1);
        proof {
            assert(next.drop_last() =~= prefix);
            lemma_be_value_bound(prefix);
            reveal_with_fuel(pow256, 8);
            assert(pow256(7) == 72057594037927936);
            assert(pow256(k as nat) <= pow256(7)) by {
                lemma_pow256_mono(k as nat, 7);
            }
        }
        v = v * 256 + data[start + k] as u64;
        k = k + 1;
    }
    v
}

proof fn lemma_pow256_mono(a: nat, b: nat)
    requires
        a <= b,
    ensures
        pow256(a) <= pow256(b),
    decreases b - a,
{
    if a < b {
        lemma_pow256_mono(a, (b - 1) as nat);
    }
}

/// Splits a batch body into its frames and decodes the transaction of each.
///
/// Frames are read while at least 8 bytes remain; a final frame that is cut
/// short ends the batch, and the transactions of the complete frames before it
/// are kept. `None` when a complete frame is empty or its transaction does not
/// decode.
pub fn parse_batch_transactions(data: &[u8]) -> (r: Option<Vec<Transaction>>)
    ensures
        r is Some <==> batch_ok(data@),
        r matches Some(v) ==> v@ == batch_txs(data@),
{
    let n = data.len();
    let mut result: Vec<Transaction> = Vec::new();
    let mut i: usize = 0;
    let mut truncated = false;
    let ghost mut seen: Seq<Seq<u8>> = Seq::empty();
    proof {
        assert(data@.subrange(0, n as int) =~= data@);
        assert(seen + frames(data@) =~= frames(data@));
    }
    while !truncated && n - i >= LENGTH_PREFIX
        invariant
            i <= n == data@.len(),
            frames(data@) == seen + frames(data@.subrange(i as int, n as int)),
            truncated ==> frames(data@.subrange(i as int, n as int)) == Seq::<Seq<u8>>::empty(),
            forall|j: int| 0 <= j < seen.len() ==> #[trigger] frame_ok(seen[j]),
            result@ == seen.map_values(|f: Seq<u8>| frame_tx(f)),
        decreases n - i, if truncated { 0int } else { 1int },
    {
        let ghost tail = data@.subrange(i as int, n as int);
        let l = read_be64(data, i);
        proof {
            assert(tail.subrange(0, 8) =~= data@.subrange(i as int, i + 8));
        }
        if l > (n - i - LENGTH_PREFIX) as u64 {
            truncated = true;
        } else {
            let size = l as usize;
            let body = slice_subrange(data, i + LENGTH_PREFIX, i + LENGTH_PREFIX + size);
            proof {
                assert(tail.subrange(8, 8 + size) =~= body@);
                assert(tail.subrange(8 + size, tail.len() as int) =~= data@.subrange(
                    i + 8 + size,
                    n as int,
                ));
                assert(frames(tail) =~= seq![body@] + frames(
                    data@.subrange(i + 8 + size, n as int),
                ));
            }
            if size == 0 {
                proof {
                    assert(frames(data@)[seen.len() as int] == body@);
                    assert(!frame_ok(frames(data@)[seen.len() as int]));
                }
                return None;
            }
            let tx_bytes = slice_subrange(body, 1, size);
            proof {
                assert(tx_bytes@ =~= body@.drop_first());
            }
            match decode_tx(tx_bytes) {
                None => {
                    proof {
                        assert(frames(data@)[seen.len() as int] == body@);
                        assert(!frame_ok(frames(data@)[seen.len() as int]));
                    }
                    return None;
                },
                Some(t) => {
                    result.push(t);
                },
            }
            proof {
                assert(seen.push(body@) + frames(data@.subrange(i + 8 + size, n as int)) =~= seen
                    + frames(tail));
                seen = seen.push(body@);
                assert(result@ =~= seen.map_values(|f: Seq<u8>| frame_tx(f)));
            }
            i = i + LENGTH_PREFIX + size;
        }
    }
    proof {
        let tail = data@.subrange(i as int, n as int);
        assert(frames(tail) =~= Seq::<Seq<u8>>::empty());
        assert(frames(data@) =~= seen);
    }
    Some(result)
}

/// Largest decoded L2 payload that is decoded, in bytes.
pub const MAX_L2_MESSAGE_SIZE: usize = 262144;

/// The tag at offset 0 of a decoded L2 payload.
#[derive(Debug, Clone, Copy, PartialEq, Eq)]
pub enum L2MessageKind {
    UnsignedUserTx,
    ContractTx,
    NonMutatingCall,
    Batch,
    SignedTx,
    Heartbeat,
    SignedCompressedTx,
}

/// The kind named by tag byte `v`; tag 5 is reserved and tags above 7 are unassigned.
pub open spec fn kind_of(v: u8) -> Option<L2MessageKind> {
    if v == 0 {
        Some(L2MessageKind::UnsignedUserTx)
    } else if v == 1 {
        Some(L2MessageKind::ContractTx)
    } else if v == 2 {
        Some(L2MessageKind::NonMutatingCall)
    } else if v == 3 {
        Some(L2MessageKind::Batch)
    } else if v == 4 {
        Some(L2MessageKind::SignedTx)
    } else if v == 6 {
        Some(L2MessageKind::Heartbeat)
    } else if v == 7 {
        Some(L2MessageKind::SignedCompressedTx)
    } else {
        None
    }
}

impl L2MessageKind {
    /// The kind named by a tag byte, or `None` for a reserved or unassigned tag.
    pub fn from_byte(v: u8) -> (r: Option<L2MessageKind>)
        ensures
            r == kind_of(v),
    {
        match v {
            0 => Some(L2MessageKind::UnsignedUserTx),
            1 => Some(L2MessageKind::ContractTx),
            2 => Some(L2MessageKind::NonMutatingCall),
            3 => Some(L2MessageKind::Batch),
            4 => Some(L2MessageKind::SignedTx),
            6 => Some(L2MessageKind::Heartbeat),
            7 => Some(L2MessageKind::SignedCompressedTx),
            _ => None,
        }
    }
}

/// What a decodable L2 payload holds.
#[derive(Debug, PartialEq, Eq)]
pub enum DecodedMsg {
    DecodedBatch(Vec<Transaction>),
    DecodedSignedTx(Transaction),
}

/// `r` is what a decoded L2 payload `p` yields: a batch for tag 3 whose frames all
/// carry transactions, the transaction of a tag-4 payload that the codec decodes,
/// and nothing otherwise (other tags, an empty payload, undecodable contents).
pub open spec fn decodes_to(p: Seq<u8>, r: Option<DecodedMsg>) -> bool {
    if p.len() == 0 {
        r is None
    } else if p[0] == 3 {
        if batch_ok(p.drop_first()) {
            r matches Some(DecodedMsg::DecodedBatch(v)) && v@ == batch_txs(p.drop_first())
        } else {
            r is None
        }
    } else if p[0] == 4 {
        match tx_of(p.drop_first()) {
            Some(t) => r == Some(DecodedMsg::DecodedSignedTx(t)),
            None => r is None,
        }
    } else {
        r is None
    }
}

/// Decodes an L2 payload: a batch of transactions, a single signed transaction,
/// or nothing for the other kinds and for contents that do not decode.
pub fn get_decoded_msg(l2_bytes: Vec<u8>) -> (r: Option<DecodedMsg>)
    ensures
        decodes_to(l2_bytes@, r),
{
    let n = l2_bytes.len();
    if n == 0 {
        return None;
    }
    let rest = slice_subrange(l2_bytes.as_slice(), 1, n);
    proof {
        assert(rest@ =~= l2_bytes@.drop_first());
    }
    match L2MessageKind::from_byte(l2_bytes[0]) {
        Some(L2MessageKind::Batch) => match parse_batch_transactions(rest) {
            Some(v) => Some(DecodedMsg::DecodedBatch(v)),
            None => None,
        },
        Some(L2MessageKind::SignedTx) => match decode_tx(rest) {
            Some(t) => Some(DecodedMsg::DecodedSignedTx(t)),
            None => None,
        },
        _ => None,
    }
}

/// The bytes that standard-alphabet, padded base64 decodes from `s`, if it is valid.
pub uninterp spec fn base64_of(s: Seq<u8>) -> Option<Seq<u8>>;

/// Number of `=` padding bytes that end `s`, up to two.
pub open spec fn padding_of(s: Seq<u8>) -> int {
    if s.len() >= 2 && s[s.len() - 2] == 0x3d {
        2
    } else if s.len() >= 1 && s[s.len() - 1] == 0x3d {
        1
    } else {
        0
    }
}

/// Length of the payload that the padded base64 text `s` encodes.
pub open spec fn decoded_len(s: Seq<u8>) -> int {
    (s.len() as int / 4) * 3 - padding_of(s)
}

/// Relies on `base64`'s `general_purpose::STANDARD.decode`: the result depends on
/// the text alone; the engine requires canonical padding, so text that decodes
/// has four characters for each three bytes, less one byte for each `=`.
#[verifier::external_body]
fn base64_decode(s: &[u8]) -> (r: Option<Vec<u8>>)
    ensures
        r matches Some(v) ==> base64_of(s@) == Some(v@) && v@.len() == decoded_len(s@),
        r is None ==> base64_of(s@) is None,
{
    base64::engine::general_purpose::STANDARD.decode(s).ok()
}

/// The UTF-8 bytes of a header's base64 payload text.
pub open spec fn payload_text(h: &L1IncomingMessageHeader) -> Seq<u8> {
    vstd::utf8::encode_utf8(h.l2msg@)
}

impl L1IncomingMessageHeader {
    /// Decodes the base64 L2 payload. A payload whose decoded length exceeds
    /// `MAX_L2_MESSAGE_SIZE` is refused before any decoding; text that is not
    /// valid base64 yields `None`.
    pub fn decode(&self) -> (r: Option<DecodedMsg>)
        ensures
            decoded_len(payload_text(self)) > MAX_L2_MESSAGE_SIZE ==> r is None,
            decoded_len(payload_text(self)) <= MAX_L2_MESSAGE_SIZE ==> match base64_of(
                payload_text(self),
            ) {
                Some(p) => p.len() <= MAX_L2_MESSAGE_SIZE && decodes_to(p, r),
                None => r is None,
            },
    {
        let text = self.l2msg.as_str().as_bytes();
        if payload_too_large(text) {
            return None;
        }
        match base64_decode(text) {
            Some(bytes) => get_decoded_msg(bytes),
            None => None,
        }
    }
}

/// Whether the padded base64 text `s` encodes more than `MAX_L2_MESSAGE_SIZE` bytes.
fn payload_too_large(s: &[u8]) -> (r: bool)
    ensures
        r == (decoded_len(s@) > MAX_L2_MESSAGE_SIZE),
{
    let n = s.len();
    let pad: usize = if n >= 2 && s[n - 2] == 0x3d {
        2
    } else if n >= 1 && s[n - 1] == 0x3d {
        1
    } else {
        0
    };
    (n / 4) * 3 > MAX_L2_MESSAGE_SIZE + pad
}

/// The target of a transaction: contract creation, or a call to a 20-byte address.
#[derive(Debug, Clone, Copy, PartialEq, Eq)]
pub enum Action {
    Create,
    Call([u8; 20]),
}

/// Why an RLP item is not an `Action`.
#[derive(Debug, Clone, Copy, PartialEq, Eq)]
pub enum ActionDecodeError {
    /// The item is a list, not a data item.
    ExpectedToBeData,
    /// The item is a data item of fewer than 20 bytes.
    TooShort,
    /// The item is a data item of more than 20 bytes.
    TooBig,
    /// The item's header is inconsistent with the bytes that follow it.
    Malformed,
}

/// The payload of the RLP data item at the start of `b`: a single byte below
/// `0x80`; a short string (header `0x80 + n`, with a one-byte payload below `0x80`
/// refused); or a long string whose length takes one to four bytes, with no
/// leading zero. `None` when the header announces more bytes than follow, or
/// when `b` starts with a list or a longer length field.
pub open spec fn data_payload(b: Seq<u8>) -> Option<Seq<u8>> {
    if b.len() == 0 {
        None
    } else if b[0] <= 0x7f {
        Some(b.subrange(0, 1))
    } else if b[0] <= 0xb7 {
        let n = b[0] - 0x80;
        if b.len() >= 1 + n && !(b[0] == 0x81 && b[1] < 0x80) {
            Some(b.subrange(1, 1 + n))
        } else {
            None
        }
    } else if b[0] <= 0xbb {
        let k = b[0] - 0xb7;
        if b.len() >= 1 + k && b[1] != 0 {
            let n = be_value(b.subrange(1, 1 + k)) as int;
            if b.len() >= 1 + k + n {
                Some(b.subrange(1 + k, 1 + k + n))
            } else {
                None
            }
        } else {
            None
        }
    } else {
        None
    }
}

/// An address read from an RLP item, or why none could be.
pub type AddressResult = Result<[u8; 20], ActionDecodeError>;

/// Relies on `Rlp::as_val::<H160>` of `rlp` (through `ethers::utils::rlp`), that is
/// `decode_value` with a 20-byte width check: a data item's payload of other
/// widths is `RlpIsTooShort` or `RlpIsTooBig`, a list is `RlpExpectedToBeData`,
/// and bytes after the item are not read.
#[verifier::external_body]
fn rlp_address(b: &[u8]) -> (r: AddressResult)
    ensures
        payload_width(b@) == 20 ==> match r {
            Ok(a) => data_payload(b@) == Some(a@),
            Err(_) => false,
        },
        0 <= payload_width(b@) < 20 ==> r matches Err(
            ActionDecodeError::TooShort,
        ),
        payload_width(b@) > 20 ==> r matches Err(ActionDecodeError::TooBig),
        payload_width(b@) < 0 ==> r is Err,
        b@.len() > 0 && b@[0] >= 0xc0 ==> r matches Err(ActionDecodeError::ExpectedToBeData),
{
    match ethers::utils::rlp::Rlp::new(b).as_val::<ethers::types::H160>() {
        Ok(a) => Ok(a.0),
        Err(DecoderError::RlpIsTooShort) => Err(ActionDecodeError::TooShort),
        Err(DecoderError::RlpIsTooBig) => Err(ActionDecodeError::TooBig),
        Err(DecoderError::RlpExpectedToBeData) => Err(ActionDecodeError::ExpectedToBeData),
        Err(_) => Err(ActionDecodeError::Malformed),
    }
}

/// The width of `data_payload(b)`, or -1 when `b` does not start with a data item.
pub open spec fn payload_width(b: Seq<u8>) -> int {
    match data_payload(b) {
        Some(p) => p.len() as int,
        None => -1,
    }
}

impl Action {
    /// Decodes an RLP item: the empty data item is `Create`, a list is refused,
    /// and any other data item must be a 20-byte address.
    pub fn decode(b: &[u8]) -> (r: Result<Action, ActionDecodeError>)
        ensures
            b@.len() > 0 && b@[0] == 0x80 ==> r == Ok::<Action, ActionDecodeError>(Action::Create),
            b@.len() > 0 && b@[0] >= 0xc0 ==> r == Err::<Action, ActionDecodeError>(
                ActionDecodeError::ExpectedToBeData,
            ),
            !(b@.len() > 0 && (b@[0] == 0x80 || b@[0] >= 0xc0)) ==> {
                &&& payload_width(b@) == 20 ==> match r {
                    Ok(Action::Call(a)) => data_payload(b@) == Some(a@),
                    _ => false,
                }
                &&& 0 <= payload_width(b@) < 20 ==> r == Err::<Action, ActionDecodeError>(
                    ActionDecodeError::TooShort,
                )
                &&& payload_width(b@) > 20 ==> r == Err::<Action, ActionDecodeError>(
                    ActionDecodeError::TooBig,
                )
                &&& payload_width(b@) < 0 ==> r is Err
            },
    {
        let n = b.len();
        let is_empty = n > 0 && (b[0] >= 0xc0 || b[0] == 0x80);
        if is_empty {
            let is_data = b[0] < 0xc0;
            if is_data {
                Ok(Action::Create)
            } else {
                Err(ActionDecodeError::ExpectedToBeData)
            }
        } else {
            match rlp_address(b) {
                Ok(a) => Ok(Action::Call(a)),
                Err(e) => Err(e),
            }
        }
    }
}

} // verus!
