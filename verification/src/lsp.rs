//! The protocol-state core of the LSP client: unique request ids, the
//! pending-request table with its deadlines, the session handshake state,
//! and `Content-Length` framing of JSON-RPC messages.
//!
//! The wire itself — spawning the server process, writing frames to its
//! standard input and reading them from its standard output — lives outside
//! the library; this module decides what those loops do.

use vstd::prelude::*;
use vstd::string::StringSliceAdditionalSpecFns;

use crate::CallGraphError;
use crate::config::LspConfig;
use crate::text::{all_digits, dec_str, dec_val, is_space, parse_dec, push_u64_dec, range_eq_str, trim_range};

verus! {

/// One outstanding request: its correlation id and its deadline.
#[derive(Debug, Clone, Copy, PartialEq, Eq, Structural)]
pub struct PendingRequest {
    pub id: u64,
    pub deadline_ms: u64,
}

/// The handshake state of the session.
#[derive(Debug, Clone, Copy, PartialEq, Eq, Structural)]
pub enum SessionState {
    /// `initialize` has not completed; requests are refused.
    NotInitialized,
    /// The handshake succeeded; requests may be issued.
    Ready,
    /// `shutdown` ran; all requests are refused.
    ShutDown,
}

/// The client-side protocol state: id allocation, the pending-request
/// table, the handshake state, and the per-request timeout.
#[derive(Debug)]
pub struct LspClient {
    /// The next correlation id to hand out; ids are never reused.
    pub next_id: u64,
    /// The outstanding requests, in the order they were sent.
    pub pending: Vec<PendingRequest>,
    pub state: SessionState,
    /// The per-request timeout, in milliseconds.
    pub timeout_ms: u64,
}

/// Some pending entry carries the id.
pub open spec fn has_id(pending: Seq<PendingRequest>, id: u64) -> bool {
    exists|k: int| 0 <= k < pending.len() && pending[k].id == id
}

/// The index of the entry carrying `id` (meaningful when `has_id` holds and
/// ids are distinct).
pub open spec fn id_index(pending: Seq<PendingRequest>, id: u64) -> int {
    choose|k: int| 0 <= k < pending.len() && pending[k].id == id
}

/// The entry is past its deadline at time `now_ms`.
pub open spec fn expired(p: PendingRequest, now_ms: u64) -> bool {
    p.deadline_ms <= now_ms
}

/// `a + b`, saturating at the largest `u64`.
pub open spec fn sat_add_u64(a: u64, b: u64) -> u64 {
    if a + b > u64::MAX {
        u64::MAX
    } else {
        (a + b) as u64
    }
}

impl LspClient {
    /// The table invariant: at most one entry per id, every recorded id was
    /// allocated before `next_id` — so a fresh id can never collide.
    pub open spec fn wf(&self) -> bool {
        &&& (forall|k: int, l: int|
            0 <= k < l < self.pending@.len() ==> (#[trigger] self.pending@[k]).id
                != (#[trigger] self.pending@[l]).id)
        &&& (forall|k: int|
            0 <= k < self.pending@.len() ==> (#[trigger] self.pending@[k]).id < self.next_id)
    }

    /// A fresh, not yet initialized client with an empty table.
    pub fn new(lsp: &LspConfig) -> (c: LspClient)
        ensures
            c.wf(),
            c.next_id == 0,
            c.pending@.len() == 0,
            c.state == SessionState::NotInitialized,
            c.timeout_ms == sat_mul_1000(lsp.timeout_seconds),
    {
        let timeout_ms = match lsp.timeout_seconds.checked_mul(1000) {
            Some(v) => v,
            None => u64::MAX,
        };
        LspClient {
            next_id: 0,
            pending: Vec::new(),
            state: SessionState::NotInitialized,
            timeout_ms,
        }
    }

    /// Complete the handshake on the capabilities the server announced.
    ///
    /// Document-symbol and call-hierarchy support are load-bearing for the
    /// traversal: if either is missing the session fails with
    /// `CapabilityError` and never becomes ready, and no traversal is
    /// attempted. Initializing twice is a protocol error.
    pub fn initialize(&mut self, has_document_symbols: bool, has_call_hierarchy: bool) -> (r:
        Result<(), CallGraphError>)
        requires
            old(self).wf(),
        ensures
            final(self).wf(),
            final(self).pending == old(self).pending,
            final(self).next_id == old(self).next_id,
            final(self).timeout_ms == old(self).timeout_ms,
            ({
                if old(self).state != SessionState::NotInitialized {
                    r matches Err(e) && e is ProtocolError && final(self).state == old(self).state
                } else if !has_document_symbols {
                    r matches Err(e) && e is CapabilityError && final(self).state
                        == SessionState::NotInitialized
                } else if !has_call_hierarchy {
                    r matches Err(e) && e is CapabilityError && final(self).state
                        == SessionState::NotInitialized
                } else {
                    r is Ok && final(self).state == SessionState::Ready
                }
            }),
    {
        match self.state {
            SessionState::NotInitialized => {
                if !has_document_symbols {
                    return Err(
                        CallGraphError::CapabilityError(
                            "server does not support document symbols".to_owned(),
                        ),
                    );
                }
                if !has_call_hierarchy {
                    return Err(
                        CallGraphError::CapabilityError(
                            "server does not support call hierarchy".to_owned(),
                        ),
                    );
                }
                self.state = SessionState::Ready;
                Ok(())
            },
            _ => Err(
                CallGraphError::ProtocolError("session was already initialized".to_owned()),
            ),
        }
    }

    /// Allocate a fresh id for a request sent at `now_ms` and record it in
    /// the table with its deadline. Ids are unique for the session's
    /// lifetime; a request before the handshake or after shutdown is
    /// refused.
    pub fn register_request(&mut self, now_ms: u64) -> (r: Result<u64, CallGraphError>)
        requires
            old(self).wf(),
            old(self).next_id < u64::MAX,
        ensures
            final(self).wf(),
            final(self).state == old(self).state,
            final(self).timeout_ms == old(self).timeout_ms,
            ({
                match old(self).state {
                    SessionState::NotInitialized => r matches Err(e) && e is NotInitializedError
                        && *final(self) == *old(self),
                    SessionState::ShutDown => r matches Err(e) && e is ShutdownError
                        && *final(self) == *old(self),
                    SessionState::Ready => r matches Ok(id) && id == old(self).next_id
                        && final(self).next_id == old(self).next_id + 1
                        && final(self).pending@ == old(self).pending@.push(
                        PendingRequest { id, deadline_ms: sat_add_u64(now_ms, old(self).timeout_ms) },
                    ),
                }
            }),
    {
        match self.state {
            SessionState::NotInitialized => Err(CallGraphError::NotInitializedError),
            SessionState::ShutDown => Err(CallGraphError::ShutdownError),
            SessionState::Ready => {
                let id = self.next_id;
                self.next_id = id + 1;
                let deadline_ms = if now_ms > u64::MAX - self.timeout_ms {
                    u64::MAX
                } else {
                    now_ms + self.timeout_ms
                };
                self.pending.push(PendingRequest { id, deadline_ms });
                proof {
                    assert forall|k: int, l: int|
                        0 <= k < l < self.pending@.len() implies (#[trigger] self.pending@[k]).id
                        != (#[trigger] self.pending@[l]).id by {
                        if l == self.pending@.len() - 1 {
                            assert(self.pending@[k] == old(self).pending@[k]);
                            assert(old(self).pending@[k].id < id);
                        } else {
                            assert(self.pending@[k] == old(self).pending@[k]);
                            assert(self.pending@[l] == old(self).pending@[l]);
                        }
                    }
                }
                Ok(id)
            },
        }
    }

    /// Remove the entry a response or error with this id completes. The
    /// result says whether one was pending: a response whose id matches
    /// nothing (for instance, one arriving after its timeout fired) is
    /// reported unmatched and changes nothing.
    pub fn complete_request(&mut self, id: u64) -> (found: bool)
        requires
            old(self).wf(),
        ensures
            final(self).wf(),
            final(self).next_id == old(self).next_id,
            final(self).state == old(self).state,
            final(self).timeout_ms == old(self).timeout_ms,
            found == has_id(old(self).pending@, id),
            found ==> final(self).pending@ == old(self).pending@.remove(
                id_index(old(self).pending@, id),
            ),
            !found ==> final(self).pending@ == old(self).pending@,
    {
        let mut k: usize = 0;
        while k < self.pending.len()
            invariant
                old(self).wf(),
                k <= self.pending@.len(),
                *self == *old(self),
                forall|j: int| 0 <= j < k ==> (#[trigger] self.pending@[j]).id != id,
            decreases self.pending@.len() - k,
        {
            if self.pending[k].id == id {
                let ghost p0 = old(self).pending@;
                proof {
                    assert(self.pending@ == p0);
                    assert(p0[k as int].id == id);
                    assert(has_id(p0, id));
                    let kk = id_index(p0, id);
                    assert(0 <= kk < p0.len() && p0[kk].id == id);
                    if kk < k as int {
                        assert(p0[kk].id != p0[k as int].id);
                        assert(false);
                    }
                    if kk > k as int {
                        assert(p0[k as int].id != p0[kk].id);
                        assert(false);
                    }
                }
                self.pending.remove(k);
                proof {
                    p0.remove_ensures(k as int);
                    assert forall|x: int, l: int|
                        0 <= x < l < self.pending@.len() implies (#[trigger] self.pending@[x]).id
                        != (#[trigger] self.pending@[l]).id by {
                        let xx: int = if x < k { x } else { x + 1 };
                        let ll: int = if l < k { l } else { l + 1 };
                        assert(self.pending@[x] == p0[xx] && self.pending@[l] == p0[ll]);
                        assert(p0[xx].id != p0[ll].id);
                    }
                }
                return true;
            }
            k += 1;
        }
        false
    }

    /// Remove and return the id of the first entry past its deadline at
    /// `now_ms`, if any; the awaiting caller gets `TimeoutError` and a late
    /// response will find nothing to match. Entries keep their send order,
    /// and expiry touches nothing else, so sibling requests are unaffected.
    pub fn expire_next(&mut self, now_ms: u64) -> (r: Option<u64>)
        requires
            old(self).wf(),
        ensures
            final(self).wf(),
            final(self).next_id == old(self).next_id,
            final(self).state == old(self).state,
            final(self).timeout_ms == old(self).timeout_ms,
            match r {
                Some(id) => exists|k: int|
                    {
                        &&& 0 <= k < old(self).pending@.len()
                        &&& expired(#[trigger] old(self).pending@[k], now_ms)
                        &&& (forall|j: int|
                            0 <= j < k ==> !expired(#[trigger] old(self).pending@[j], now_ms))
                        &&& id == old(self).pending@[k].id
                        &&& final(self).pending@ == old(self).pending@.remove(k)
                    },
                None => final(self).pending@ == old(self).pending@ && (forall|k: int|
                    0 <= k < old(self).pending@.len() ==> !expired(
                        #[trigger] old(self).pending@[k],
                        now_ms,
                    )),
            },
    {
        let mut k: usize = 0;
        while k < self.pending.len()
            invariant
                old(self).wf(),
                k <= self.pending@.len(),
                *self == *old(self),
                forall|j: int| 0 <= j < k ==> !expired(#[trigger] self.pending@[j], now_ms),
            decreases self.pending@.len() - k,
        {
            if self.pending[k].deadline_ms <= now_ms {
                let id = self.pending[k].id;
                let ghost p0 = old(self).pending@;
                proof {
                    assert(self.pending@ == p0);
                    assert(p0[k as int].id == id);
                }
                self.pending.remove(k);
                proof {
                    p0.remove_ensures(k as int);
                    assert(expired(p0[k as int], now_ms));
                    assert(self.pending@ =~= p0.remove(k as int));
                    assert forall|x: int, l: int|
                        0 <= x < l < self.pending@.len() implies (#[trigger] self.pending@[x]).id
                        != (#[trigger] self.pending@[l]).id by {
                        let xx: int = if x < k { x } else { x + 1 };
                        let ll: int = if l < k { l } else { l + 1 };
                        assert(self.pending@[x] == p0[xx] && self.pending@[l] == p0[ll]);
                        assert(p0[xx].id != p0[ll].id);
                    }
                }
                return Some(id);
            }
            k += 1;
        }
        None
    }

    /// Shut the session down: every still-pending id is returned so its
    /// caller can be failed with `ShutdownError`, the table empties, and no
    /// request is accepted afterwards.
    pub fn shutdown(&mut self) -> (failed: Vec<u64>)
        requires
            old(self).wf(),
        ensures
            final(self).wf(),
            final(self).state == SessionState::ShutDown,
            final(self).pending@.len() == 0,
            final(self).next_id == old(self).next_id,
            final(self).timeout_ms == old(self).timeout_ms,
            failed@ == old(self).pending@.map_values(|p: PendingRequest| p.id),
    {
        self.state = SessionState::ShutDown;
        let mut failed: Vec<u64> = Vec::new();
        let mut k: usize = 0;
        while k < self.pending.len()
            invariant
                k <= self.pending@.len(),
                self.pending == old(self).pending,
                failed@ == self.pending@.map_values(|p: PendingRequest| p.id).take(k as int),
            decreases self.pending@.len() - k,
        {
            failed.push(self.pending[k].id);
            proof {
                assert(failed@ =~= self.pending@.map_values(|p: PendingRequest| p.id).take(
                    k as int + 1,
                ));
            }
            k += 1;
        }
        self.pending.clear();
        proof {
            assert(failed@ =~= old(self).pending@.map_values(|p: PendingRequest| p.id));
        }
        failed
    }

    /// The number of outstanding requests.
    pub fn pending_count(&self) -> (n: usize)
        ensures
            n == self.pending@.len(),
    {
        self.pending.len()
    }
}

/// `seconds * 1000`, saturating at the largest `u64`.
pub open spec fn sat_mul_1000(seconds: u64) -> u64 {
    if seconds * 1000 > u64::MAX {
        u64::MAX
    } else {
        (seconds * 1000) as u64
    }
}

/// The `Content-Length` frame around a message body: the header names the
/// byte length of the body, a blank line separates the two.
pub open spec fn frame_text(body: Seq<char>, byte_len: nat) -> Seq<char> {
    "Content-Length: "@ + dec_str(byte_len) + "\r\n\r\n"@ + body
}

/// Wrap a message body in a `Content-Length` frame; the header carries the
/// byte length of the body.
pub fn encode_frame(body: &str) -> (r: String)
    ensures
        r@ == frame_text(body@, body.len() as nat),
{
    let mut s = String::new();
    s.append("Content-Length: ");
    proof {
        assert(s@ =~= "Content-Length: "@);
    }
    push_u64_dec(&mut s, body.len() as u64);
    s.append("\r\n\r\n");
    s.append(body);
    proof {
        assert(s@ =~= frame_text(body@, body.len() as nat));
    }
    s
}

/// The line carries `Content-Length:` followed by the digits of `n`, with
/// nothing but blanks around the digits.
pub open spec fn is_content_length_line(line: Seq<u8>, n: u64, lo: int, hi: int) -> bool {
    &&& line.len() >= 15
    &&& line.subrange(0, 15) == "Content-Length:".spec_bytes()
    &&& 15 <= lo <= hi <= line.len()
    &&& (forall|i: int| 15 <= i < lo ==> is_space(#[trigger] line[i]))
    &&& (forall|i: int| hi <= i < line.len() ==> is_space(#[trigger] line[i]))
    &&& 1 <= hi - lo
    &&& all_digits(line.subrange(lo, hi))
    &&& n == dec_val(line.subrange(lo, hi))
}

/// Read a `Content-Length` header line (without its line break): the value
/// when the line is that header, `None` for any other header line.
pub fn parse_content_length(line: &[u8]) -> (r: Option<u64>)
    ensures
        match r {
            Some(n) => exists|lo: int, hi: int| is_content_length_line(line@, n, lo, hi),
            None => forall|n: u64, lo: int, hi: int| !is_content_length_line(line@, n, lo, hi),
        },
{
    if line.len() < 15 {
        return None;
    }
    if !range_eq_str(line, 0, 15, "Content-Length:") {
        return None;
    }
    let (lo, hi) = trim_range(line, 15, line.len());
    match parse_dec(line, lo, hi) {
        Some(n) => {
            proof {
                assert(is_content_length_line(line@, n, lo as int, hi as int));
            }
            Some(n)
        },
        None => {
            proof {
                let li = lo as int;
                let hi_i = hi as int;
                assert forall|n: u64, l: int, h: int| !is_content_length_line(
                    line@,
                    n,
                    l,
                    h,
                ) by {
                    if is_content_length_line(line@, n, l, h) {
                        // digits are not blanks, so a digit range with only
                        // blanks around it can only be the trimmed range
                        assert(48 <= line@.subrange(l, h)[0] <= 57);
                        assert(line@[l] == line@.subrange(l, h)[0]);
                        assert(l >= li) by {
                            if l < li {
                                assert(is_space(line@[l]));
                            }
                        }
                        assert(l <= li) by {
                            if l > li {
                                assert(li < hi_i) by {
                                    if li == hi_i {
                                        assert(is_space(line@[l]));
                                    }
                                }
                                assert(!is_space(line@[li]));
                                assert(is_space(line@[li]));
                            }
                        }
                        assert(48 <= line@.subrange(l, h)[h - 1 - l] <= 57);
                        assert(line@[h - 1] == line@.subrange(l, h)[h - 1 - l]);
                        assert(h <= hi_i) by {
                            if h > hi_i {
                                assert(is_space(line@[h - 1]));
                            }
                        }
                        assert(h >= hi_i) by {
                            if h < hi_i {
                                assert(li < hi_i);
                                assert(!is_space(line@[hi_i - 1]));
                                assert(is_space(line@[hi_i - 1]));
                            }
                        }
                        assert(line@.subrange(l, h) == line@.subrange(li, hi_i));
                        assert(false);
                    }
                }
            }
            None
        },
    }
}

} // verus!
