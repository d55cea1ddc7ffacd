//! Judging a liveness probe: the in-band health check that runs on a pooled
//! socket just before it is handed out again.
use vstd::prelude::*;
use vstd::string::StringSliceAdditionalSpecFns;

verus! {

/// The request written on a socket to check that its backend is alive.
pub const HEALTH_REQUEST: &'static str = "GET /health HTTP/1.1\r\n\r\n";

/// The success status that a passing reply must contain.
pub const STATUS_MARKER: &'static str = "200 OK";

/// The explicit OK that a passing reply must contain.
pub const OK_MARKER: &'static str = "OK";

/// Whether `needle` occurs in `hay` as a contiguous run of bytes.
pub open spec fn contains(hay: Seq<u8>, needle: Seq<u8>) -> bool {
    exists|i: int| 0 <= i && i + needle.len() <= hay.len() && #[trigger] hay.subrange(i, i + needle.len()) == needle
}

/// A probe passes when its reply is non-empty and holds both the success
/// status and the explicit OK.
pub open spec fn probe_passes(reply: Seq<u8>) -> bool {
    &&& reply.len() > 0
    &&& contains(reply, STATUS_MARKER.spec_bytes())
    &&& contains(reply, OK_MARKER.spec_bytes())
}

/// Whether `needle` occurs in `hay`.
pub fn contains_bytes(hay: &[u8], needle: &[u8]) -> (r: bool)
    ensures
        r == contains(hay@, needle@),
{
    if needle.len() > hay.len() {
        return false;
    }
    let last = hay.len() - needle.len();
    let mut i: usize = 0;
    while i <= last
        invariant
            last + needle@.len() == hay@.len(),
            i <= last,
            forall|j: int| 0 <= j < i ==> #[trigger] hay@.subrange(j, j + needle@.len()) != needle@,
        decreases last + 1 - i,
    {
        let mut k: usize = 0;
        while k < needle.len() && hay[i + k] == needle[k]
            invariant
                i <= last,
                last + needle@.len() == hay@.len(),
                k <= needle@.len(),
                hay@.len() == hay.len(),
                forall|t: int| 0 <= t < k ==> hay@[i + t] == needle@[t],
            decreases needle@.len() - k,
        {
            k += 1;
        }
        if k == needle.len() {
            assert(hay@.subrange(i as int, i + needle@.len()) =~= needle@);
            return true;
        }
        assert(hay@.subrange(i as int, i + needle@.len())[k as int] != needle@[k as int]);
        if i == last {
            return false;
        }
        i += 1;
    }
    false
}

/// Judges the reply that a liveness probe read back: a reply that is empty,
/// partial or lacks either marker fails the probe.
pub fn check_connection_health(reply: &[u8]) -> (r: bool)
    ensures
        r == probe_passes(reply@),
{
    reply.len() > 0 && contains_bytes(reply, STATUS_MARKER.as_bytes()) && contains_bytes(reply, OK_MARKER.as_bytes())
}

} // verus!
