//! Memory-hygiene helpers: constant-time comparison and scrubbing of debug text.

use vstd::prelude::*;

verus! {

/// Which access a region of protected memory allows.
#[derive(Debug, Clone, Copy, PartialEq, Eq, Structural)]
pub enum MemoryProtection {
    /// Read-write access.
    ReadWrite,
    /// Read-only access.
    ReadOnly,
    /// No access (secret data).
    NoAccess,
}

/// Guard rails against disclosing secret memory.
pub struct MemoryGuard;

/// The character that stands in for a hexadecimal digit in scrubbed text.
pub open spec fn scrub_char(c: char) -> char {
    if ('0' <= c && c <= '9') || ('a' <= c && c <= 'f') || ('A' <= c && c <= 'F') {
        '*'
    } else {
        c
    }
}

impl MemoryGuard {
    /// Equality of two byte strings whose running time depends only on their lengths.
    pub fn constant_time_eq(a: &[u8], b: &[u8]) -> (r: bool)
        ensures
            r == (a@ == b@),
    {
        if a.len() != b.len() {
            return false;
        }
        let mut diff: u8 = 0;
        let mut i: usize = 0;
        while i < a.len()
            invariant
                a.len() == b.len(),
                i <= a.len(),
                diff == 0 <==> (forall|j: int| 0 <= j < i ==> a@[j] == b@[j]),
            decreases a.len() - i,
        {
            let x = a[i];
            let y = b[i];
            let d = diff;
            assert((d | (x ^ y)) == 0u8 <==> (d == 0u8 && x == y)) by (bit_vector);
            diff = d | (x ^ y);
            i = i + 1;
        }
        if diff == 0 {
            assert(a@ =~= b@);
        }
        diff == 0
    }

    /// Replace every ASCII hexadecimal digit by `*`, so that no key material leaks
    /// into a debug log.
    pub fn sanitize_debug_output(output: &str) -> (r: String)
        ensures
            r@ == output@.map_values(|c: char| scrub_char(c)),
    {
        let mut out = String::new();
        let n = output.unicode_len();
        let mut i: usize = 0;
        while i < n
            invariant
                n == output@.len(),
                i <= n,
                out@ == output@.subrange(0, i as int).map_values(|c: char| scrub_char(c)),
            decreases n - i,
        {
            let c = output.get_char(i);
            let is_hex = ('0' <= c && c <= '9') || ('a' <= c && c <= 'f') || ('A' <= c && c <= 'F');
            assert(scrub_char(c) == (if is_hex { '*' } else { c }));
            if is_hex {
                let star = "*";
                proof {
                    reveal_strlit("*");
                }
                assert(star@ =~= seq!['*']);
                out.append(star);
            } else {
                let one = output.substring_char(i, i + 1);
                assert(one@ =~= seq![c]);
                out.append(one);
            }
            assert(output@.subrange(0, i + 1) =~= output@.subrange(0, i as int).push(c));
            assert(out@ =~= output@.subrange(0, i + 1).map_values(|c: char| scrub_char(c)));
            i = i + 1;
        }
        assert(output@.subrange(0, n as int) =~= output@);
        out
    }
}

} // verus!
