//! A genie is a small daemon that supervises one long-running task, caches the
//! task's most recent result, and serves that result over a local socket with
//! a tiny text protocol.  This crate holds the verified core: the wire codec,
//! the result cache with long-poll deduplication, the line patterns that
//! segment a compiler's output into cycles, the two supervision state
//! machines, the per-connection server logic, and socket-file discovery.

use vstd::prelude::*;

pub mod cache;
pub mod client;
pub mod codec;
pub mod discovery;
pub mod patterns;
pub mod runner;
pub mod server;

verus! {

/// True of the bytes a request cookie may contain: ASCII letters and digits.
pub open spec fn is_alnum_byte(b: u8) -> bool {
    (('a' as u8) <= b <= ('z' as u8)) || (('A' as u8) <= b <= ('Z' as u8)) || (('0' as u8) <= b
        <= ('9' as u8))
}

/// Executable twin of [`is_alnum_byte`].
pub fn alnum_byte(b: u8) -> (r: bool)
    ensures
        r == is_alnum_byte(b),
{
    (('a' as u8) <= b && b <= ('z' as u8)) || (('A' as u8) <= b && b <= ('Z' as u8)) || (('0'
        as u8) <= b && b <= ('9' as u8))
}

/// An owned copy of a byte vector, equal to it as a sequence.
pub fn copy_bytes(v: &Vec<u8>) -> (r: Vec<u8>)
    ensures
        r@ == v@,
{
    let mut r: Vec<u8> = Vec::new();
    let mut i: usize = 0;
    while i < v.len()
        invariant
            i <= v@.len(),
            r@ == v@.subrange(0, i as int),
        decreases v@.len() - i,
    {
        r.push(v[i]);
        proof {
            assert(r@ =~= v@.subrange(0, i + 1 as int));
        }
        i += 1;
    }
    proof {
        assert(r@ =~= v@);
    }
    r
}

/// True exactly when two byte vectors hold the same sequence.
pub fn bytes_eq(a: &Vec<u8>, b: &Vec<u8>) -> (r: bool)
    ensures
        r == (a@ == b@),
{
    if a.len() != b.len() {
        return false;
    }
    let mut i: usize = 0;
    while i < a.len()
        invariant
            a@.len() == b@.len(),
            i <= a@.len(),
            forall|j: int| 0 <= j < i ==> a@[j] == b@[j],
        decreases a@.len() - i,
    {
        if a[i] != b[i] {
            return false;
        }
        i += 1;
    }
    proof {
        assert(a@ =~= b@);
    }
    true
}

} // verus!
