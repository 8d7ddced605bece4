//! Transport decision logic: the POST endpoint derived from an SSE base URL,
//! reconnection backoff, transport selection by command prefix, and the
//! close-once lifecycle shared by both transports.

use vstd::prelude::*;
use vstd::string::StrSliceExecFns;
use vstd::string::StringExecFns;
use crate::strutil::{starts_with_str, ends_with_str, copy_str};
use crate::types::{McpError, McpErrorV};
use crate::rpc::{JsonRpcMessage, JsonRpcMessageV, enc_msg, wf_msg, encode_message_text,
    decode_message_text, lemma_wf_enc_msg};
use crate::jtext::{ser_json, lemma_ser_no_lf};

verus! {

/// A transport receive waits up to thirty seconds.
pub const TRANSPORT_TIMEOUT_MS: u64 = 30000;

/// Reconnection starts at a tenth of a second between attempts.
pub const INITIAL_RETRY_DELAY_MS: u64 = 100;

/// Reconnection backoff never exceeds five seconds.
pub const MAX_RETRY_DELAY_MS: u64 = 5000;

/// Whether a command string is an HTTP or HTTPS URL, which selects the SSE
/// transport; anything else selects the stdio transport.
pub open spec fn spec_is_http_url(s: Seq<char>) -> bool {
    ||| s.len() >= 7 && s.subrange(0, 7) == "http://"@
    ||| s.len() >= 8 && s.subrange(0, 8) == "https://"@
}

/// Whether a command string selects the SSE transport.
pub fn is_http_url(s: &str) -> (r: bool)
    ensures
        r == spec_is_http_url(s@),
{
    let a = starts_with_str(s, "http://");
    let b = starts_with_str(s, "https://");
    proof {
        reveal_strlit("http://");
        reveal_strlit("https://");
    }
    a || b
}

/// The base URL with trailing slashes removed.
pub open spec fn trim_trailing_slashes(s: Seq<char>) -> Seq<char>
    decreases s.len(),
{
    if s.len() > 0 && s.last() == '/' {
        trim_trailing_slashes(s.drop_last())
    } else {
        s
    }
}

/// The POST endpoint of an SSE transport: a base URL ending in `/sse` POSTs
/// to its `/messages` sibling; any other base URL POSTs to
/// `<base-sans-trailing-slashes>/messages`.
pub open spec fn spec_post_url(base: Seq<char>) -> Seq<char> {
    if base.len() >= 4 && base.subrange(base.len() - 4, base.len() as int) == "/sse"@ {
        base.subrange(0, base.len() - 4) + "/messages"@
    } else {
        trim_trailing_slashes(base) + "/messages"@
    }
}

/// Derive the POST endpoint for outbound messages from the SSE base URL.
pub fn derive_post_url(base: &str) -> (r: String)
    ensures
        r@ == spec_post_url(base@),
{
    proof {
        reveal_strlit("/sse");
        reveal_strlit("/messages");
    }
    if ends_with_str(base, "/sse") {
        let n = base.unicode_len();
        let stem = base.substring_char(0, n - 4);
        let mut out = copy_str(stem);
        out.append("/messages");
        out
    } else {
        let mut end = base.unicode_len();
        proof {
            assert(base@.subrange(0, base@.len() as int) =~= base@);
        }
        while end > 0 && base.get_char(end - 1) == '/'
            invariant
                0 <= end <= base@.len(),
                trim_trailing_slashes(base@) == trim_trailing_slashes(
                    base@.subrange(0, end as int),
                ),
            decreases end,
        {
            proof {
                assert(base@.subrange(0, end as int).drop_last() =~= base@.subrange(
                    0,
                    end - 1 as int,
                ));
            }
            end = end - 1;
        }
        let stem = base.substring_char(0, end);
        proof {
            if end > 0 {
                assert(base@.subrange(0, end as int).last() == base@[end - 1]);
            }
            assert(trim_trailing_slashes(base@.subrange(0, end as int)) == base@.subrange(
                0,
                end as int,
            ));
        }
        let mut out = copy_str(stem);
        out.append("/messages");
        out
    }
}

/// The delay before the next SSE reconnection attempt: the current delay
/// doubles, up to the five-second ceiling.
pub fn next_retry_delay(delay_ms: u64) -> (r: u64)
    requires
        delay_ms <= MAX_RETRY_DELAY_MS,
    ensures
        r == if 2 * delay_ms <= MAX_RETRY_DELAY_MS as int {
            2 * delay_ms as int
        } else {
            MAX_RETRY_DELAY_MS as int
        },
{
    if delay_ms <= MAX_RETRY_DELAY_MS / 2 {
        2 * delay_ms
    } else {
        MAX_RETRY_DELAY_MS
    }
}


/// Frame one message for the stdio transport: the canonical wire text of
/// the message followed by a line feed. A legal message serializes without
/// any internal line feed, so the frame is exactly one line.
pub fn frame_stdio_line(m: &JsonRpcMessage) -> (r: String)
    ensures
        r@ == ser_json(enc_msg(m@)) + seq!['\n'],
        wf_msg(m@) ==> forall|k: int| 0 <= k < r@.len() - 1 ==> #[trigger] r@[k] != '\n',
{
    let mut out = encode_message_text(m);
    out.append("\n");
    proof {
        reveal_strlit("\n");
        assert("\n"@ =~= seq!['\n']);
        if wf_msg(m@) {
            lemma_wf_enc_msg(m@);
            lemma_ser_no_lf(enc_msg(m@));
        }
    }
    out
}

/// Interpret one line read from a server's output: empty lines carry
/// nothing, a line holding the canonical text of a legal message yields
/// that message, and anything else is a malformed frame the reader drops.
pub fn parse_stdio_line(line: &str) -> (r: Option<JsonRpcMessage>)
    ensures
        forall|m: JsonRpcMessageV|
            wf_msg(m) && line@ == ser_json(enc_msg(m)) ==> (r matches Some(out) && out@ == m),
{
    if line.unicode_len() == 0 {
        proof {
            assert forall|m: JsonRpcMessageV|
                !(wf_msg(m) && line@ == ser_json(enc_msg(m))) by {
                if wf_msg(m) && line@ == ser_json(enc_msg(m)) {
                    lemma_wf_enc_msg(m);
                    crate::jtext::lemma_ser_shape(enc_msg(m));
                }
            }
        }
        return None;
    }
    decode_message_text(line)
}

/// What the SSE reader observed during one pass of its loop.
#[derive(Debug)]
pub enum SseEvent {
    /// The GET connected and the event stream opened.
    Connected,
    /// The connection attempt failed.
    ConnectFailed,
    /// An open event stream ended.
    StreamEnded,
    /// The transport was asked to shut down.
    Shutdown,
}

/// What the SSE reader loop does next.
#[derive(Debug)]
pub enum SseStep {
    /// Keep reading events from the open stream.
    Read,
    /// Sleep this many milliseconds, then reconnect.
    Backoff { delay_ms: u64 },
    /// Stop: the transport is closed.
    Exit,
}

/// The connection state of a transport: open until closed, closed for good.
pub struct TransportCore {
    closed: bool,
    retry_delay_ms: u64,
}

impl TransportCore {
    /// The retry delay stays within its bounds.
    pub closed spec fn wf(&self) -> bool {
        INITIAL_RETRY_DELAY_MS <= self.retry_delay_ms <= MAX_RETRY_DELAY_MS
    }

    /// Whether `close` has been called.
    pub closed spec fn spec_closed(&self) -> bool {
        self.closed
    }

    /// The delay before the next reconnection attempt.
    pub closed spec fn spec_retry_delay(&self) -> u64 {
        self.retry_delay_ms
    }

    /// A fresh open transport with the initial backoff.
    pub fn new() -> (r: TransportCore)
        ensures
            r.wf(),
            !r.spec_closed(),
            r.spec_retry_delay() == INITIAL_RETRY_DELAY_MS,
    {
        TransportCore { closed: false, retry_delay_ms: INITIAL_RETRY_DELAY_MS }
    }

    /// Release the connection: idempotent, and closed is forever.
    pub fn close(&mut self)
        requires
            old(self).wf(),
        ensures
            final(self).wf(),
            final(self).spec_closed(),
            final(self).spec_retry_delay() == old(self).spec_retry_delay(),
    {
        self.closed = true;
    }

    /// Whether the transport has been closed.
    pub fn is_closed(&self) -> (r: bool)
        ensures
            r == self.spec_closed(),
    {
        self.closed
    }

    /// The error a `receive` on a closed transport fails with; an open
    /// transport may go on waiting.
    pub fn receive_disposition(&self) -> (r: Option<McpError>)
        ensures
            self.spec_closed() ==> (r matches Some(e) && e@ == McpErrorV::ConnectionClosed),
            !self.spec_closed() ==> r is None,
    {
        if self.closed {
            Some(McpError::ConnectionClosed)
        } else {
            None
        }
    }

    /// Advance the SSE reader state machine by one observation: a successful
    /// connection resets the backoff to its initial value; a failed
    /// connection or an ended stream waits the current backoff and doubles
    /// it up to the ceiling; a shutdown, or a transport already closed,
    /// exits.
    pub fn on_sse_event(&mut self, event: SseEvent) -> (r: SseStep)
        requires
            old(self).wf(),
        ensures
            final(self).wf(),
            old(self).spec_closed() ==> final(self).spec_closed(),
            match event {
                SseEvent::Shutdown => final(self).spec_closed() && r is Exit,
                _ => final(self).spec_closed() == old(self).spec_closed(),
            },
            !old(self).spec_closed() ==> match event {
                SseEvent::Connected => {
                    &&& final(self).spec_retry_delay() == INITIAL_RETRY_DELAY_MS
                    &&& r is Read
                },
                SseEvent::ConnectFailed | SseEvent::StreamEnded => {
                    &&& (r matches SseStep::Backoff { delay_ms } && delay_ms == old(
                        self,
                    ).spec_retry_delay())
                    &&& final(self).spec_retry_delay() == if 2 * old(self).spec_retry_delay()
                        <= MAX_RETRY_DELAY_MS as int {
                        2 * old(self).spec_retry_delay() as int
                    } else {
                        MAX_RETRY_DELAY_MS as int
                    }
                },
                SseEvent::Shutdown => r is Exit,
            },
            old(self).spec_closed() ==> r is Exit && final(self).spec_retry_delay() == old(
                self,
            ).spec_retry_delay(),
    {
        if self.closed {
            if let SseEvent::Shutdown = event {
            }
            return SseStep::Exit;
        }
        match event {
            SseEvent::Connected => {
                self.retry_delay_ms = INITIAL_RETRY_DELAY_MS;
                SseStep::Read
            },
            SseEvent::ConnectFailed | SseEvent::StreamEnded => {
                let delay = self.retry_delay_ms;
                self.retry_delay_ms = next_retry_delay(delay);
                SseStep::Backoff { delay_ms: delay }
            },
            SseEvent::Shutdown => {
                self.closed = true;
                SseStep::Exit
            },
        }
    }
}

} // verus!
