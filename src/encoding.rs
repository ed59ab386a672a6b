//! Canonical byte layouts used on the wire and in hashes.

use vstd::prelude::*;
use vstd::arithmetic::div_mod::lemma_fundamental_div_mod_converse;

verus! {

/// The 4-byte little-endian encoding of a `u32`.
pub open spec fn u32_le(x: u32) -> Seq<u8> {
    seq![
        (x % 256) as u8,
        ((x / 256) % 256) as u8,
        ((x / 65536) % 256) as u8,
        (x / 16777216) as u8,
    ]
}

/// The 8-byte little-endian encoding of a `u64`.
pub open spec fn u64_le(x: u64) -> Seq<u8> {
    u32_le((x % 4294967296) as u32) + u32_le((x / 4294967296) as u32)
}

/// Reading 4 little-endian bytes and encoding the result gives the bytes back.
pub proof fn lemma_u32_le_read(b0: u8, b1: u8, b2: u8, b3: u8)
    ensures
        ({
            let x = b0 as int + 256 * (b1 as int + 256 * (b2 as int + 256 * b3 as int));
            0 <= x <= u32::MAX && u32_le(x as u32) == seq![b0, b1, b2, b3]
        }),
{
    let hi = b2 as int + 256 * b3 as int;
    let mid = b1 as int + 256 * hi;
    let x = b0 as int + 256 * mid;
    lemma_fundamental_div_mod_converse(x, 256, mid, b0 as int);
    lemma_fundamental_div_mod_converse(mid, 256, hi, b1 as int);
    lemma_fundamental_div_mod_converse(hi, 256, b3 as int, b2 as int);
    assert(x / 256 == mid);
    vstd::arithmetic::div_mod::lemma_div_denominator(x, 256, 256);
    vstd::arithmetic::div_mod::lemma_div_denominator(x, 65536, 256);
    assert(x / 65536 == hi);
    assert(x / 16777216 == b3);
    assert(u32_le(x as u32) =~= seq![b0, b1, b2, b3]);
}

/// Read a `u32` from 4 little-endian bytes.
pub fn u32_from_le(b0: u8, b1: u8, b2: u8, b3: u8) -> (r: u32)
    ensures
        u32_le(r) == seq![b0, b1, b2, b3],
{
    proof {
        lemma_u32_le_read(b0, b1, b2, b3);
    }
    (b0 as u32) + 256 * ((b1 as u32) + 256 * ((b2 as u32) + 256 * (b3 as u32)))
}

/// The 4-byte encoding determines the integer.
pub proof fn lemma_u32_le_injective(x: u32, y: u32)
    requires
        u32_le(x) == u32_le(y),
    ensures
        x == y,
{
    let xs = u32_le(x);
    let ys = u32_le(y);
    assert(xs[0] == ys[0] && xs[1] == ys[1] && xs[2] == ys[2] && xs[3] == ys[3]);
    lemma_u32_le_value(x);
    lemma_u32_le_value(y);
}

/// A `u32` is the little-endian value of its 4 bytes.
proof fn lemma_u32_le_value(x: u32)
    ensures
        x as int == (u32_le(x)[0] as int) + 256 * ((u32_le(x)[1] as int) + 256 * ((u32_le(x)[2] as int)
            + 256 * (u32_le(x)[3] as int))),
{
    let v = x as int;
    vstd::arithmetic::div_mod::lemma_fundamental_div_mod(v, 256);
    vstd::arithmetic::div_mod::lemma_fundamental_div_mod(v / 256, 256);
    vstd::arithmetic::div_mod::lemma_fundamental_div_mod(v / 65536, 256);
    vstd::arithmetic::div_mod::lemma_div_denominator(v, 256, 256);
    vstd::arithmetic::div_mod::lemma_div_denominator(v, 65536, 256);
    assert(v / 256 / 256 == v / 65536);
    assert(v / 65536 / 256 == v / 16777216);
}

/// The 8-byte encoding determines the integer.
pub proof fn lemma_u64_le_injective(x: u64, y: u64)
    requires
        u64_le(x) == u64_le(y),
    ensures
        x == y,
{
    let lx = u32_le((x % 4294967296) as u32);
    let hx = u32_le((x / 4294967296) as u32);
    let ly = u32_le((y % 4294967296) as u32);
    let hy = u32_le((y / 4294967296) as u32);
    assert(lx =~= u64_le(x).subrange(0, 4));
    assert(ly =~= u64_le(y).subrange(0, 4));
    assert(hx =~= u64_le(x).subrange(4, 8));
    assert(hy =~= u64_le(y).subrange(4, 8));
    lemma_u32_le_injective((x % 4294967296) as u32, (y % 4294967296) as u32);
    lemma_u32_le_injective((x / 4294967296) as u32, (y / 4294967296) as u32);
    vstd::arithmetic::div_mod::lemma_fundamental_div_mod(x as int, 4294967296);
    vstd::arithmetic::div_mod::lemma_fundamental_div_mod(y as int, 4294967296);
}

/// Encode a `u32` in 4 little-endian bytes.
pub fn u32_to_le(x: u32) -> (r: [u8; 4])
    ensures
        r@ == u32_le(x),
{
    let r = [
        (x % 256) as u8,
        ((x / 256) % 256) as u8,
        ((x / 65536) % 256) as u8,
        (x / 16777216) as u8,
    ];
    assert(r@ =~= u32_le(x));
    r
}

/// Encode a `u64` in 8 little-endian bytes.
pub fn u64_to_le(x: u64) -> (r: Vec<u8>)
    ensures
        r@ == u64_le(x),
{
    let lo = u32_to_le((x % 4294967296) as u32);
    let hi = u32_to_le((x / 4294967296) as u32);
    let mut v: Vec<u8> = Vec::new();
    append_bytes(&mut v, &lo);
    append_bytes(&mut v, &hi);
    assert(v@ =~= u64_le(x));
    v
}

/// Append a byte string to a buffer.
pub fn append_bytes(v: &mut Vec<u8>, s: &[u8])
    ensures
        final(v)@ == old(v)@ + s@,
{
    let ghost start = v@;
    let mut i: usize = 0;
    while i < s.len()
        invariant
            i <= s.len(),
            v@ == start + s@.subrange(0, i as int),
        decreases s.len() - i,
    {
        v.push(s[i]);
        i = i + 1;
        assert(v@ =~= start + s@.subrange(0, i as int));
    }
    assert(s@.subrange(0, s@.len() as int) =~= s@);
}

/// The decimal digits of an integer, most significant first.
pub open spec fn decimal_of(n: u64) -> Seq<char>
    decreases n,
{
    if n < 10 {
        seq![digit_char(n as nat)]
    } else {
        decimal_of(n / 10).push(digit_char((n % 10) as nat))
    }
}

/// The character of a decimal digit.
pub open spec fn digit_char(d: nat) -> char {
    if d == 0 { '0' }
    else if d == 1 { '1' }
    else if d == 2 { '2' }
    else if d == 3 { '3' }
    else if d == 4 { '4' }
    else if d == 5 { '5' }
    else if d == 6 { '6' }
    else if d == 7 { '7' }
    else if d == 8 { '8' }
    else { '9' }
}

/// The one-character string of a decimal digit.
fn digit_str(d: u64) -> (r: &'static str)
    requires
        d < 10,
    ensures
        r@ == seq![digit_char(d as nat)],
{
    let r = if d == 0 {
        "0"
    } else if d == 1 {
        "1"
    } else if d == 2 {
        "2"
    } else if d == 3 {
        "3"
    } else if d == 4 {
        "4"
    } else if d == 5 {
        "5"
    } else if d == 6 {
        "6"
    } else if d == 7 {
        "7"
    } else if d == 8 {
        "8"
    } else {
        "9"
    };
    proof {
        reveal_strlit("0");
        reveal_strlit("1");
        reveal_strlit("2");
        reveal_strlit("3");
        reveal_strlit("4");
        reveal_strlit("5");
        reveal_strlit("6");
        reveal_strlit("7");
        reveal_strlit("8");
        reveal_strlit("9");
    }
    assert(r@ =~= seq![digit_char(d as nat)]);
    r
}

/// The decimal digits of an integer, without sign or leading zeros.
pub fn decimal_string(n: u64) -> (r: String)
    ensures
        r@ == decimal_of(n),
    decreases n,
{
    if n < 10 {
        String::from_str(digit_str(n))
    } else {
        let mut s = decimal_string(n / 10);
        s.append(digit_str(n % 10));
        assert(s@ =~= decimal_of(n));
        s
    }
}

} // verus!
