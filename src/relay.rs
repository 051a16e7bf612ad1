use crate::types::Root;
use vstd::prelude::*;
use vstd::utf8::encode_utf8;

verus! {

/// Why a relay client could not be built, or stopped.
#[derive(Debug, Clone, PartialEq, Eq)]
pub enum RelayError {
    /// The feed URL has no host.
    InvalidUrl,
    /// The server's `arbitrum-chain-id` header is missing, unreadable or another chain's.
    InvalidChainId,
    /// The handshake request could not be built.
    Request(String),
    /// The connection failed, during the handshake or while streaming.
    Connection(String),
    /// The status channel has no receiver left.
    StatusChannelClosed,
}

/// A notice about a client's connection, sent on the status channel.
#[derive(Debug, Clone, Copy, PartialEq, Eq)]
pub enum ConnectionUpdate {
    /// The client with this id stopped receiving frames.
    StoppedSendingFrames(u32),
}

/// Name of the response header that announces the feed's chain id.
pub const CHAIN_ID_HEADER: &'static str = "arbitrum-chain-id";

/// Whether `c` is an ASCII decimal digit.
pub open spec fn is_digit(c: u8) -> bool {
    0x30 <= c <= 0x39
}

/// The value of the decimal digits `s`, most significant first.
pub open spec fn digits_value(s: Seq<u8>) -> nat
    decreases s.len(),
{
    if s.len() == 0 {
        0
    } else {
        digits_value(s.drop_last()) * 10 + (s.last() - 0x30) as nat
    }
}

/// The digits of an unsigned decimal after its optional leading `+`.
pub open spec fn unsigned_digits(s: Seq<u8>) -> Seq<u8> {
    if s.len() > 0 && s[0] == 0x2b {
        s.drop_first()
    } else {
        s
    }
}

/// The `u64` that the text `s` writes in decimal: an optional `+`, then at least
/// one digit and nothing else, with a value that fits.
pub open spec fn decimal_u64(s: Seq<u8>) -> Option<u64> {
    let d = unsigned_digits(s);
    if d.len() > 0 && (forall|i: int| 0 <= i < d.len() ==> is_digit(#[trigger] d[i]))
        && digits_value(d) <= u64::MAX {
        Some(digits_value(d) as u64)
    } else {
        None
    }
}

/// Appending digits to a run of digits never lowers its value.
proof fn lemma_digits_value_grows(s: Seq<u8>, k: int)
    requires
        0 <= k <= s.len(),
        forall|i: int| 0 <= i < s.len() ==> is_digit(#[trigger] s[i]),
    ensures
        digits_value(s.subrange(0, k)) <= digits_value(s),
    decreases s.len() - k,
{
    if k < s.len() {
        let t = s.drop_last();
        assert forall|i: int| 0 <= i < t.len() implies is_digit(#[trigger] t[i]) by {
            assert(t[i] == s[i]);
        }
        lemma_digits_value_grows(t, k);
        assert(t.subrange(0, k) =~= s.subrange(0, k));
    } else {
        assert(s.subrange(0, k) =~= s);
    }
}

/// Reads an unsigned decimal, as `str::parse::<u64>` does: an optional `+`,
/// then digits only, with a value that fits in a `u64`.
pub fn parse_decimal_u64(s: &[u8]) -> (r: Option<u64>)
    ensures
        r == decimal_u64(s@),
{
    let n = s.len();
    let start: usize = if n > 0 && s[0] == 0x2b {
        1
    } else {
        0
    };
    let ghost d = unsigned_digits(s@);
    proof {
        assert(d =~= s@.subrange(start as int, n as int));
    }
    if start == n {
        return None;
    }
    let mut v: u64 = 0;
    let mut i: usize = start;
    while i < n
        invariant
            start <= i <= n == s@.len(),
            d == s@.subrange(start as int, n as int),
            d == unsigned_digits(s@),
            forall|j: int| start <= j < i ==> is_digit(#[trigger] s@[j]),
            v as nat == digits_value(s@.subrange(start as int, i as int)),
        decreases n - i,
    {
        let c = s[i];
        if c < 0x30 || c > 0x39 {
            proof {
                assert(!is_digit(d[i - start]));
            }
            return None;
        }
        let digit = (c - 0x30) as u64;
        let ghost next = s@.subrange(start as int, i + 1);
        proof {
            assert(next.drop_last() =~= s@.subrange(start as int, i as int));
        }
        if v > (u64::MAX - digit) / 10 {
            proof {
                assert(v * 10 + digit > u64::MAX) by (nonlinear_arith)
                    requires
                        v > (u64::MAX - digit) / 10,
                        digit <= 9,
                ;
                if forall|j: int| 0 <= j < d.len() ==> is_digit(#[trigger] d[j]) {
                    lemma_digits_value_grows(d, i + 1 - start);
                    assert(d.subrange(0, i + 1 - start) =~= next);
                }
            }
            return None;
        }
        proof {
            assert(v * 10 + digit <= u64::MAX) by (nonlinear_arith)
                requires
                    v <= (u64::MAX - digit) / 10,
                    digit <= 9,
            ;
        }
        v = v * 10 + digit;
        i = i + 1;
    }
    proof {
        assert(s@.subrange(start as int, n as int) =~= d);
        assert forall|j: int| 0 <= j < d.len() implies is_digit(#[trigger] d[j]) by {
            assert(d[j] == s@[start + j]);
        }
    }
    Some(v)
}

/// Checks the chain id that the server announced (`None` when the header is
/// missing or not visible ASCII) against the expected one.
pub fn check_chain_id_header(chain_id_value: Option<&str>, chain_id: u64) -> (r: Result<
    (),
    RelayError,
>)
    ensures
        r is Ok <==> (chain_id_value matches Some(s) && decimal_u64(encode_utf8(s@)) == Some(
            chain_id,
        )),
        r is Err ==> r == Err::<(), RelayError>(RelayError::InvalidChainId),
{
    match chain_id_value {
        None => Err(RelayError::InvalidChainId),
        Some(s) => match parse_decimal_u64(s.as_bytes()) {
            Some(v) => {
                if v == chain_id {
                    Ok(())
                } else {
                    Err(RelayError::InvalidChainId)
                }
            },
            None => Err(RelayError::InvalidChainId),
        },
    }
}

/// The headers of the websocket opening request to a feed at `host`, with the
/// client's random `key`: the standard upgrade headers and the feed's own.
pub open spec fn handshake_headers(host: Seq<char>, key: Seq<char>) -> Seq<(Seq<char>, Seq<char>)> {
    seq![
        ("Host"@, host),
        ("Connection"@, "Upgrade"@),
        ("Upgrade"@, "websocket"@),
        ("Sec-WebSocket-Version"@, "13"@),
        ("Sec-WebSocket-Key"@, key),
        ("Arbitrum-Feed-Client-Version"@, "2"@),
        ("Arbitrum-Requested-Sequence-number"@, "0"@),
    ]
}

/// The header names and values of a list of headers.
pub open spec fn header_views(v: Seq<(String, String)>) -> Seq<(Seq<char>, Seq<char>)> {
    v.map_values(|p: (String, String)| (p.0@, p.1@))
}

fn header(name: &str, value: &str) -> (r: (String, String))
    ensures
        r.0@ == name@,
        r.1@ == value@,
{
    (name.to_owned(), value.to_owned())
}

/// The headers of the opening request to the feed URL whose host is `host`;
/// a URL without a host is refused before any connection is tried.
pub fn websocket_request_headers(host: Option<&str>, key: &str) -> (r: Result<
    Vec<(String, String)>,
    RelayError,
>)
    ensures
        host is None ==> r == Err::<Vec<(String, String)>, RelayError>(RelayError::InvalidUrl),
        host matches Some(h) ==> r matches Ok(v) && header_views(v@) == handshake_headers(
            h@,
            key@,
        ),
{
    let h = match host {
        Some(h) => h,
        None => return Err(RelayError::InvalidUrl),
    };
    let mut v: Vec<(String, String)> = Vec::new();
    v.push(header("Host", h));
    v.push(header("Connection", "Upgrade"));
    v.push(header("Upgrade", "websocket"));
    v.push(header("Sec-WebSocket-Version", "13"));
    v.push(header("Sec-WebSocket-Key", key));
    v.push(header("Arbitrum-Feed-Client-Version", "2"));
    v.push(header("Arbitrum-Requested-Sequence-number", "0"));
    assert(header_views(v@) =~= handshake_headers(h@, key@));
    Ok(v)
}

/// What the run loop learned since its last step.
#[derive(Debug, PartialEq)]
pub enum FrameEvent {
    /// A frame arrived and parsed as an envelope.
    Parsed(Root),
    /// A frame arrived that is not a well-formed envelope.
    Unparsable,
    /// Forwarding an envelope failed: the output channel has no receiver.
    OutputClosed,
    /// The connection failed with this error.
    TransportError(String),
    /// The peer closed the connection; no frame is left.
    StreamEnded,
}

/// What the run loop does next.
#[derive(Debug, PartialEq)]
pub enum LoopStep {
    /// Send the envelope on the output channel.
    Forward(Root),
    /// Wait for the next frame.
    Continue,
    /// End the run cleanly.
    Stop,
    /// Send the notice on the status channel, then end the run with the error.
    ReportAndFail(ConnectionUpdate, RelayError),
}

/// The step that client `id` takes on `event`.
pub open spec fn step_of(id: u32, event: FrameEvent) -> LoopStep {
    match event {
        FrameEvent::Parsed(root) => LoopStep::Forward(root),
        FrameEvent::Unparsable => LoopStep::Continue,
        FrameEvent::OutputClosed => LoopStep::Stop,
        FrameEvent::TransportError(e) => LoopStep::ReportAndFail(
            ConnectionUpdate::StoppedSendingFrames(id),
            RelayError::Connection(e),
        ),
        FrameEvent::StreamEnded => LoopStep::Stop,
    }
}

/// Decides the run loop's next step for client `id`: envelopes are forwarded,
/// unparsable frames skipped, a closed output or a closed stream ends the run
/// cleanly, and a transport error is reported on the status channel and returned.
pub fn next_step(id: u32, event: FrameEvent) -> (r: LoopStep)
    ensures
        r == step_of(id, event),
{
    match event {
        FrameEvent::Parsed(root) => LoopStep::Forward(root),
        FrameEvent::Unparsable => LoopStep::Continue,
        FrameEvent::OutputClosed => LoopStep::Stop,
        FrameEvent::TransportError(e) => LoopStep::ReportAndFail(
            ConnectionUpdate::StoppedSendingFrames(id),
            RelayError::Connection(e),
        ),
        FrameEvent::StreamEnded => LoopStep::Stop,
    }
}

/// A run of client `id` over `events`: the envelopes it forwards, and how it
/// ends (`None` while it is still running when the events run out).
pub open spec fn run_trace(id: u32, events: Seq<FrameEvent>) -> (Seq<Root>, Option<
    Result<(), RelayError>,
>)
    decreases events.len(),
{
    if events.len() == 0 {
        (Seq::empty(), None)
    } else {
        match step_of(id, events[0]) {
            LoopStep::Forward(root) => {
                let rest = run_trace(id, events.drop_first());
                (seq![root] + rest.0, rest.1)
            },
            LoopStep::Continue => run_trace(id, events.drop_first()),
            LoopStep::Stop => (Seq::empty(), Some(Ok(()))),
            LoopStep::ReportAndFail(_, e) => (Seq::empty(), Some(Err(e))),
        }
    }
}

/// An unparsable frame, wherever it comes, neither ends the run nor changes
/// what is forwarded before or after it.
pub proof fn lemma_unparsable_frame_skipped(
    id: u32,
    before: Seq<FrameEvent>,
    after: Seq<FrameEvent>,
)
    ensures
        run_trace(id, before + seq![FrameEvent::Unparsable] + after) == run_trace(
            id,
            before + after,
        ),
    decreases before.len(),
{
    let all = before + seq![FrameEvent::Unparsable] + after;
    if before.len() == 0 {
        assert(all.drop_first() =~= after);
        assert(before + after =~= after);
    } else {
        lemma_unparsable_frame_skipped(id, before.drop_first(), after);
        assert(all.drop_first() =~= before.drop_first() + seq![FrameEvent::Unparsable] + after);
        assert((before + after).drop_first() =~= before.drop_first() + after);
        assert(all[0] == before[0]);
        assert((before + after)[0] == before[0]);
    }
}

/// Once the output channel is found closed the run ends without error, and
/// nothing after that is forwarded.
pub proof fn lemma_output_closed_stops(id: u32, after: Seq<FrameEvent>)
    ensures
        run_trace(id, seq![FrameEvent::OutputClosed] + after) == (
            Seq::<Root>::empty(),
            Some(Ok::<(), RelayError>(())),
        ),
{
}

} // verus!
