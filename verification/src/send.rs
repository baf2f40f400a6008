//! Writing a buffer to a printer chunk by chunk, retrying failed writes.
//!
//! The caller owns the connection: it asks [`ChunkedSend::next_write`] which bytes to
//! write, performs the write, and reports the outcome with [`ChunkedSend::wrote`] or
//! [`ChunkedSend::failed`]; after an accepted failure it pauses [`RETRY_PAUSE_MS`]
//! milliseconds before asking again.

use vstd::prelude::*;
use vstd::string::*;

use crate::error::{is_transport, SlipbridgeError};
use crate::text::{push_str, string_of};
use crate::transport::TransportKind;

verus! {

/// Milliseconds to wait after a failed write before trying it again.
pub const RETRY_PAUSE_MS: u64 = 30;

/// Where a chunked send stands.
pub struct SendProgress {
    pub total: nat,
    pub chunk_size: nat,
    pub retries: nat,
    pub chunk_start: nat,
    pub offset: nat,
    pub attempts: nat,
}

/// End of the chunk being written: one chunk size further, or the end of the buffer.
pub open spec fn chunk_end(s: SendProgress) -> nat {
    if s.chunk_start + s.chunk_size <= s.total {
        s.chunk_start + s.chunk_size
    } else {
        s.total
    }
}

/// Every byte has been handed over.
pub open spec fn send_done(s: SendProgress) -> bool {
    s.chunk_start >= s.total
}

/// The state a send starts in.
pub open spec fn send_start(total: nat, chunk_size: nat, retries: nat) -> SendProgress {
    SendProgress {
        total,
        chunk_size: if chunk_size >= 1 {
            chunk_size
        } else {
            1
        },
        retries,
        chunk_start: 0,
        offset: 0,
        attempts: 0,
    }
}

/// The bytes `[start, end)` to write next, unless the send is done.
pub open spec fn next_range(s: SendProgress) -> Option<(nat, nat)> {
    if send_done(s) {
        None
    } else {
        Some(((s.chunk_start + s.offset) as nat, chunk_end(s)))
    }
}

/// The state after a write handed over `n > 0` bytes: further into the chunk, or on to
/// the next chunk once this one is complete; the failure count starts again.
pub open spec fn after_write(s: SendProgress, n: nat) -> SendProgress {
    if s.chunk_start + s.offset + n < chunk_end(s) {
        SendProgress { offset: s.offset + n, attempts: 0, ..s }
    } else {
        SendProgress { chunk_start: chunk_end(s), offset: 0, attempts: 0, ..s }
    }
}

/// The state after a failed write that will be tried again.
pub open spec fn after_failure(s: SendProgress) -> SendProgress {
    SendProgress { attempts: s.attempts + 1, ..s }
}

/// The state is one a send can reach.
pub open spec fn send_wf(s: SendProgress) -> bool {
    &&& s.chunk_size >= 1
    &&& s.chunk_start <= s.total
    &&& s.attempts <= s.retries
    &&& s.chunk_start < s.total ==> s.chunk_start + s.offset < chunk_end(s)
    &&& s.chunk_start == s.total ==> s.offset == 0
}

/// Message of the error a zero-byte write ends a send with.
pub open spec fn zero_write_message(kind: TransportKind) -> Seq<char> {
    match kind {
        TransportKind::Tcp => "network write returned 0 bytes"@,
        TransportKind::Usb => "USB write returned 0 bytes"@,
    }
}

/// Message of the error a write failure beyond the retries ends a send with.
pub open spec fn failed_write_message(kind: TransportKind, detail: Seq<char>) -> Seq<char> {
    match kind {
        TransportKind::Tcp => "network write failed: "@ + detail,
        TransportKind::Usb => "USB write failed: "@ + detail,
    }
}

/// A buffer of `total` bytes being written in chunks of `chunk_size` bytes.
pub struct ChunkedSend {
    total: usize,
    chunk_size: usize,
    retries: u8,
    chunk_start: usize,
    offset: usize,
    attempts: u8,
    kind: TransportKind,
}

impl ChunkedSend {
    /// Where the send stands.
    pub closed spec fn progress(&self) -> SendProgress {
        SendProgress {
            total: self.total as nat,
            chunk_size: self.chunk_size as nat,
            retries: self.retries as nat,
            chunk_start: self.chunk_start as nat,
            offset: self.offset as nat,
            attempts: self.attempts as nat,
        }
    }

    /// The transport the bytes go over.
    pub closed spec fn transport_kind(&self) -> TransportKind {
        self.kind
    }

    /// The fields agree with one another.
    pub closed spec fn wf(&self) -> bool {
        send_wf(self.progress())
    }

    /// Starts a send of `total` bytes in chunks of `chunk_size` bytes (at least one),
    /// each failed write retried up to `retries` times.
    pub fn new(total: usize, chunk_size: usize, retries: u8, kind: TransportKind) -> (s: Self)
        ensures
            s.wf(),
            s.progress() == send_start(total as nat, chunk_size as nat, retries as nat),
            s.transport_kind() == kind,
    {
        let chunk_size = if chunk_size >= 1 {
            chunk_size
        } else {
            1
        };
        ChunkedSend { total, chunk_size, retries, chunk_start: 0, offset: 0, attempts: 0, kind }
    }

    fn current_chunk_end(&self) -> (e: usize)
        requires
            self.wf(),
        ensures
            e == chunk_end(self.progress()),
    {
        if self.total - self.chunk_start <= self.chunk_size {
            self.total
        } else {
            self.chunk_start + self.chunk_size
        }
    }

    /// The bytes `[start, end)` to write next, or `None` once every byte went out.
    pub fn next_write(&self) -> (r: Option<(usize, usize)>)
        requires
            self.wf(),
        ensures
            match next_range(self.progress()) {
                Some((a, b)) => r == Some((a as usize, b as usize)),
                None => r is None,
            },
    {
        if self.chunk_start >= self.total {
            None
        } else {
            Some((self.chunk_start + self.offset, self.current_chunk_end()))
        }
    }

    /// Reports that a write handed over `n` bytes; zero bytes ends the send with an error.
    pub fn wrote(&mut self, n: usize) -> (r: Result<(), SlipbridgeError>)
        requires
            old(self).wf(),
            !send_done(old(self).progress()),
        ensures
            final(self).wf(),
            final(self).transport_kind() == old(self).transport_kind(),
            n == 0 ==> (r matches Err(e) && is_transport(e, zero_write_message(old(self).transport_kind()))),
            n == 0 ==> final(self).progress() == old(self).progress(),
            n > 0 ==> r is Ok && final(self).progress() == after_write(old(self).progress(), n as nat),
    {
        if n == 0 {
            let m = match self.kind {
                TransportKind::Tcp => string_of("network write returned 0 bytes"),
                TransportKind::Usb => string_of("USB write returned 0 bytes"),
            };
            return Err(SlipbridgeError::transport(m));
        }
        let end = self.current_chunk_end();
        let remaining = end - (self.chunk_start + self.offset);
        if n < remaining {
            self.offset = self.offset + n;
        } else {
            self.chunk_start = end;
            self.offset = 0;
        }
        self.attempts = 0;
        Ok(())
    }

    /// Reports that a write failed with the error text `detail`. `Ok` means the write is to
    /// be tried again after a pause; once the retries are spent the send ends with an error.
    pub fn failed(&mut self, detail: &str) -> (r: Result<(), SlipbridgeError>)
        requires
            old(self).wf(),
            !send_done(old(self).progress()),
        ensures
            final(self).wf(),
            final(self).transport_kind() == old(self).transport_kind(),
            old(self).progress().attempts >= old(self).progress().retries ==> (r matches Err(e)
                && is_transport(e, failed_write_message(old(self).transport_kind(), detail@))),
            old(self).progress().attempts >= old(self).progress().retries ==> final(self).progress()
                == old(self).progress(),
            old(self).progress().attempts < old(self).progress().retries ==> r is Ok
                && final(self).progress() == after_failure(old(self).progress()),
    {
        if self.attempts >= self.retries {
            let mut m = match self.kind {
                TransportKind::Tcp => string_of("network write failed: "),
                TransportKind::Usb => string_of("USB write failed: "),
            };
            push_str(&mut m, detail);
            return Err(SlipbridgeError::transport(m));
        }
        self.attempts = self.attempts + 1;
        Ok(())
    }
}

/// How many bytes have been handed over.
pub open spec fn sent_position(s: SendProgress) -> nat {
    (s.chunk_start + s.offset) as nat
}

/// The state after the whole next range has been written, `k` times over.
pub open spec fn after_full_writes(s: SendProgress, k: nat) -> SendProgress
    decreases k,
{
    if k == 0 || send_done(s) {
        s
    } else {
        after_full_writes(after_write(s, (chunk_end(s) - sent_position(s)) as nat), (k - 1) as nat)
    }
}

/// The state after `k` failed writes that are all tried again.
pub open spec fn after_failures(s: SendProgress, k: nat) -> SendProgress
    decreases k,
{
    if k == 0 {
        s
    } else {
        after_failure(after_failures(s, (k - 1) as nat))
    }
}

/// A write of `n` bytes, no more than were offered, moves the send exactly `n` bytes on:
/// the next write starts where this one ended, so no byte is skipped or sent twice.
pub proof fn law_write_advances(s: SendProgress, n: nat)
    requires
        send_wf(s),
        !send_done(s),
        1 <= n <= chunk_end(s) - sent_position(s),
    ensures
        send_wf(after_write(s, n)),
        sent_position(after_write(s, n)) == sent_position(s) + n,
        sent_position(after_write(s, n)) <= s.total,
        after_write(s, n).attempts == 0,
{
}

/// When every write hands over all it was offered, the send writes the buffer in
/// consecutive chunks of `chunk_size` bytes (the last one shorter): after `k` writes the
/// first `min(k * chunk_size, total)` bytes are out and the next write is chunk `k`.
pub proof fn law_full_writes_follow_chunks(total: nat, chunk_size: nat, retries: nat, k: nat)
    requires
        chunk_size >= 1,
    ensures
        ({
            let s = after_full_writes(send_start(total, chunk_size, retries), k);
            &&& send_wf(s)
            &&& s.total == total && s.chunk_size == chunk_size && s.retries == retries
            &&& s.offset == 0
            &&& s.chunk_start == if k * chunk_size <= total {
                k * chunk_size
            } else {
                total
            }
            &&& k * chunk_size < total ==> next_range(s) == Some(
                (
                    k * chunk_size,
                    if (k + 1) * chunk_size <= total {
                        ((k + 1) * chunk_size) as nat
                    } else {
                        total
                    },
                ),
            )
        }),
    decreases k,
{
    let s0 = send_start(total, chunk_size, retries);
    let c = chunk_size;
    assert((k + 1) * c == k * c + c) by (nonlinear_arith);
    if k == 0 {
        assert(k * c == 0) by (nonlinear_arith)
            requires
                k == 0,
        ;
    } else {
        let j = (k - 1) as nat;
        law_full_writes_follow_chunks(total, chunk_size, retries, j);
        lemma_full_writes_step(s0, j);
        assert(j * c + c == k * c) by (nonlinear_arith)
            requires
                j + 1 == k,
        ;
        let prev = after_full_writes(s0, j);
        if j * c >= total {
            assert(send_done(prev));
        } else {
            assert(prev.chunk_start == j * c);
            assert(!send_done(prev));
        }
    }
}

proof fn lemma_full_writes_step(s: SendProgress, k: nat)
    ensures
        after_full_writes(s, k + 1) == (if send_done(after_full_writes(s, k)) {
            after_full_writes(s, k)
        } else {
            after_write(
                after_full_writes(s, k),
                (chunk_end(after_full_writes(s, k)) - sent_position(after_full_writes(s, k))) as nat,
            )
        }),
    decreases k,
{
    if !send_done(s) {
        let s1 = after_write(s, (chunk_end(s) - sent_position(s)) as nat);
        if k > 0 {
            lemma_full_writes_step(s1, (k - 1) as nat);
        } else {
            assert(after_full_writes(s1, 0) == s1);
        }
    }
}

/// A failed write is tried again `retries` times, without moving the send, and then
/// given up: after `k <= retries` failures the count is `k`, and the next failure is
/// accepted exactly when `k < retries`.
pub proof fn law_failures_bounded(s: SendProgress, k: nat)
    requires
        send_wf(s),
        s.attempts == 0,
        k <= s.retries,
    ensures
        send_wf(after_failures(s, k)),
        after_failures(s, k) == (SendProgress { attempts: k, ..s }),
        (after_failures(s, k).attempts < s.retries) == (k < s.retries),
    decreases k,
{
    if k > 0 {
        law_failures_bounded(s, (k - 1) as nat);
    }
}

} // verus!
