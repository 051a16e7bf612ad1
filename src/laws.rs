use crate::decoder::{
    batch_ok, batch_txs, be_value, decodes_to, frame_ok, frames, tx_of, DecodedMsg,
};
use ethers::types::Transaction;
use vstd::prelude::*;

verus! {

/// A batch sub-message as written on the wire: its 8-byte length prefix, its
/// inner kind byte and the transaction's RLP.
pub type FrameParts = (Seq<u8>, u8, Seq<u8>);

/// The batch body that concatenates `items`, each as prefix, kind byte, RLP.
pub open spec fn encode_frames(items: Seq<FrameParts>) -> Seq<u8>
    decreases items.len(),
{
    if items.len() == 0 {
        Seq::empty()
    } else {
        items[0].0 + seq![items[0].1] + items[0].2 + encode_frames(items.drop_first())
    }
}

/// Each prefix is 8 bytes and encodes, big-endian, the length of the rest of its frame.
pub open spec fn well_framed(items: Seq<FrameParts>) -> bool {
    forall|i: int|
        0 <= i < items.len() ==> (#[trigger] items[i]).0.len() == 8 && be_value(items[i].0)
            == items[i].2.len() + 1
}

/// The frame bodies of `items`: kind byte, then RLP.
pub open spec fn bodies(items: Seq<FrameParts>) -> Seq<Seq<u8>> {
    items.map_values(|it: FrameParts| seq![it.1] + it.2)
}

/// Framing then splitting gives back the frame bodies in order, followed by the
/// frames of whatever comes after them.
pub proof fn lemma_frames_of_encoding(items: Seq<FrameParts>, tail: Seq<u8>)
    requires
        well_framed(items),
    ensures
        frames(encode_frames(items) + tail) == bodies(items) + frames(tail),
    decreases items.len(),
{
    if items.len() == 0 {
        assert(encode_frames(items) + tail =~= tail);
        assert(bodies(items) + frames(tail) =~= frames(tail));
    } else {
        let it = items[0];
        let rest = items.drop_first();
        assert(well_framed(rest)) by {
            assert forall|i: int| 0 <= i < rest.len() implies (#[trigger] rest[i]).0.len() == 8
                && be_value(rest[i].0) == rest[i].2.len() + 1 by {
                assert(rest[i] == items[i + 1]);
            }
        }
        lemma_frames_of_encoding(rest, tail);
        let d = encode_frames(items) + tail;
        let body = seq![it.1] + it.2;
        let after = encode_frames(rest) + tail;
        assert(d =~= it.0 + body + after);
        let l = be_value(it.0) as int;
        assert(l == body.len());
        assert(d.subrange(0, 8) =~= it.0);
        assert(d.subrange(8, 8 + l) =~= body);
        assert(d.subrange(8 + l, d.len() as int) =~= after);
        assert(frames(d) == seq![body] + frames(after));
        assert(bodies(items) =~= seq![body] + bodies(rest));
        assert(frames(d) =~= bodies(items) + frames(tail));
    }
}

/// A batch built from frames whose RLP each decode to a transaction decodes to
/// those transactions, in order.
pub proof fn lemma_batch_round_trip(
    items: Seq<FrameParts>,
    txs: Seq<Transaction>,
    r: Option<DecodedMsg>,
)
    requires
        well_framed(items),
        txs.len() == items.len(),
        forall|i: int| 0 <= i < items.len() ==> tx_of((#[trigger] items[i]).2) == Some(txs[i]),
        decodes_to(seq![3u8] + encode_frames(items), r),
    ensures
        r matches Some(DecodedMsg::DecodedBatch(v)) && v@ == txs,
{
    let p = seq![3u8] + encode_frames(items);
    let data = encode_frames(items);
    assert(p.drop_first() =~= data);
    lemma_frames_of_encoding(items, Seq::empty());
    assert(data + Seq::<u8>::empty() =~= data);
    assert(frames(Seq::<u8>::empty()) =~= Seq::<Seq<u8>>::empty());
    assert(frames(data) =~= bodies(items));
    assert forall|i: int| 0 <= i < frames(data).len() implies #[trigger] frame_ok(
        frames(data)[i],
    ) by {
        assert(frames(data)[i].drop_first() =~= items[i].2);
    }
    assert(batch_ok(data));
    assert forall|i: int| 0 <= i < txs.len() implies #[trigger] batch_txs(data)[i] == txs[i] by {
        assert(frames(data)[i].drop_first() =~= items[i].2);
    }
    assert(batch_txs(data) =~= txs);
}

/// A final frame cut short (under 8 bytes, or announcing more bytes than
/// remain) adds nothing: the batch holds exactly the complete frames before it.
pub proof fn lemma_truncated_batch(items: Seq<FrameParts>, tail: Seq<u8>)
    requires
        well_framed(items),
        tail.len() < 8 || be_value(tail.subrange(0, 8)) > tail.len() - 8,
    ensures
        frames(encode_frames(items) + tail) == bodies(items),
        batch_ok(encode_frames(items) + tail) == batch_ok(encode_frames(items)),
        batch_txs(encode_frames(items) + tail) == batch_txs(encode_frames(items)),
{
    lemma_frames_of_encoding(items, tail);
    lemma_frames_of_encoding(items, Seq::empty());
    assert(encode_frames(items) + Seq::<u8>::empty() =~= encode_frames(items));
    assert(frames(tail) =~= Seq::<Seq<u8>>::empty());
    assert(frames(Seq::<u8>::empty()) =~= Seq::<Seq<u8>>::empty());
    assert(frames(encode_frames(items) + tail) =~= bodies(items));
    assert(frames(encode_frames(items)) =~= bodies(items));
}

/// A payload tagged as a signed transaction decodes to the transaction that the
/// codec reads from the rest of it.
pub proof fn lemma_single_round_trip(rlp: Seq<u8>, tx: Transaction, r: Option<DecodedMsg>)
    requires
        tx_of(rlp) == Some(tx),
        decodes_to(seq![4u8] + rlp, r),
    ensures
        r == Some(DecodedMsg::DecodedSignedTx(tx)),
{
    assert((seq![4u8] + rlp).drop_first() =~= rlp);
}

/// Payloads of the kinds that carry no signed transaction (unsigned user
/// transaction, contract transaction, non-mutating call, heartbeat) decode to nothing.
pub proof fn lemma_other_kinds_absent(p: Seq<u8>, r: Option<DecodedMsg>)
    requires
        p.len() > 0,
        p[0] == 0 || p[0] == 1 || p[0] == 2 || p[0] == 6,
        decodes_to(p, r),
    ensures
        r is None,
{
}

} // verus!
