//! Integers behind the scalar field: the group order and little-endian byte strings.

use vstd::prelude::*;

verus! {

/// The order of the Ristretto255 group, 2^252 + 27742317777372353535851937790883648493.
pub open spec fn group_order() -> nat {
    7237005577332262213973186563042994240857116359379907606001950938285454250989nat
}

/// The inverse of `a` modulo the group order by Fermat's little theorem, `a^(l-2) mod l`;
/// zero maps to zero.
pub open spec fn inverse_of(a: nat) -> nat {
    (vstd::arithmetic::power::pow(a as int, (group_order() - 2) as nat) % (group_order() as int)) as nat
}

/// The integer that a little-endian byte string stands for.
pub open spec fn le_nat(s: Seq<u8>) -> nat
    decreases s.len(),
{
    if s.len() == 0 {
        0
    } else {
        s[0] as nat + 256 * le_nat(s.drop_first())
    }
}

/// Two byte strings of one length that stand for the same integer are equal.
pub proof fn lemma_le_nat_injective(a: Seq<u8>, b: Seq<u8>)
    requires
        a.len() == b.len(),
        le_nat(a) == le_nat(b),
    ensures
        a == b,
    decreases a.len(),
{
    if a.len() > 0 {
        let ra = le_nat(a.drop_first());
        let rb = le_nat(b.drop_first());
        assert(a[0] as nat + 256 * ra == b[0] as nat + 256 * rb);
        assert(a[0] == b[0] && ra == rb) by (nonlinear_arith)
            requires
                a[0] as nat + 256 * ra == b[0] as nat + 256 * rb,
                a[0] < 256,
                b[0] < 256,
        ;
        lemma_le_nat_injective(a.drop_first(), b.drop_first());
        assert(a =~= seq![a[0]] + a.drop_first());
        assert(b =~= seq![b[0]] + b.drop_first());
    } else {
        assert(a =~= b);
    }
}

} // verus!
