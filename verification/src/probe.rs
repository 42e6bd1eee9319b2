use vstd::prelude::*;

use vstd::string::StringSliceAdditionalSpecFns;
use vstd::string::StrSliceExecFns;

verus! {

/// ASCII lower-casing of one byte.
pub open spec fn lower8(b: u8) -> u8 {
    if 65 <= b <= 90 {
        (b + 32) as u8
    } else {
        b
    }
}

/// The needle occurs at position `i` of the haystack, ASCII-case-insensitively.
pub open spec fn ci_match_at(h: Seq<u8>, n: Seq<u8>, i: int) -> bool {
    forall|k: int| 0 <= k < n.len() ==> lower8(h[i + k]) == lower8(#[trigger] n[k])
}

/// The haystack holds the needle somewhere, ASCII-case-insensitively.
pub open spec fn contains_ci(h: Seq<u8>, n: Seq<u8>) -> bool {
    exists|i: int| 0 <= i <= h.len() - n.len() && ci_match_at(h, n, i)
}

/// The marker with which a probe response reports that no replica is ready.
pub open spec fn not_ready_marker() -> Seq<u8> {
    "no ready replicas".spec_bytes()
}

fn lower_byte(b: u8) -> (r: u8)
    ensures
        r == lower8(b),
{
    if 65 <= b && b <= 90 {
        b + 32
    } else {
        b
    }
}

/// Whether a haystack holds a needle, comparing bytes ASCII-case-insensitively.
fn find_ci(h: &Vec<u8>, n: &Vec<u8>) -> (r: bool)
    ensures
        r == contains_ci(h@, n@),
{
    let hn = h.len();
    let nn = n.len();
    if nn > hn {
        return false;
    }
    let last = hn - nn;
    let mut i: usize = 0;
    while i <= last
        invariant
            hn == h@.len(),
            nn == n@.len(),
            nn <= hn,
            last == hn - nn,
            i <= last + 1,
            forall|j: int| 0 <= j < i ==> !ci_match_at(h@, n@, j),
        decreases last + 1 - i,
    {
        let mut k: usize = 0;
        let mut matched = true;
        while k < nn
            invariant
                hn == h@.len(),
                nn == n@.len(),
                i + nn <= hn,
                k <= nn,
                matched ==> forall|t: int| 0 <= t < k ==> lower8(h@[i + t]) == lower8(n@[t]),
                !matched ==> !ci_match_at(h@, n@, i as int),
            decreases nn - k,
        {
            if lower_byte(h[i + k]) != lower_byte(n[k]) {
                matched = false;
                proof {
                    assert(!ci_match_at(h@, n@, i as int));
                }
                k = nn;
            } else {
                k = k + 1;
            }
        }
        if matched {
            proof {
                assert(ci_match_at(h@, n@, i as int));
            }
            return true;
        }
        i = i + 1;
    }
    false
}

/// Whether a readiness-probe response body still reports "no ready
/// replicas", compared ASCII-case-insensitively.
pub fn reports_not_ready(body: &str) -> (r: bool)
    ensures
        r == contains_ci(body.spec_bytes(), not_ready_marker()),
{
    let h = body.as_bytes_vec();
    let marker = "no ready replicas";
    let n = marker.as_bytes_vec();
    find_ci(&h, &n)
}

} // verus!
