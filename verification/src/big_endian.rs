//! Big-endian (network order) integers: the mathematical model and the
//! executable routines that every fixed-width field is built from.
use vstd::prelude::*;

verus! {

/// 256 raised to `width`: the number of values that `width` bytes can hold.
pub open spec fn pow256(width: nat) -> nat
    decreases width,
{
    if width == 0 {
        1
    } else {
        256 * pow256((width - 1) as nat)
    }
}

/// The `width` bytes that hold `v` in network order, most significant byte first.
/// Only the low `width` bytes of `v` are kept.
pub open spec fn be_bytes(v: nat, width: nat) -> Seq<u8>
    decreases width,
{
    if width == 0 {
        Seq::empty()
    } else {
        be_bytes(v / 256, (width - 1) as nat).push((v % 256) as u8)
    }
}

/// The number that a row of bytes holds in network order.
pub open spec fn be_value(s: Seq<u8>) -> nat
    decreases s.len(),
{
    if s.len() == 0 {
        0
    } else {
        be_value(s.drop_last()) * 256 + s.last() as nat
    }
}

/// Two's complement: the unsigned number that stands for `x` in `width` bytes.
pub open spec fn twos_complement(x: int, width: nat) -> nat {
    if x >= 0 {
        x as nat
    } else {
        (x + pow256(width)) as nat
    }
}

/// The signed number that the unsigned `v` stands for in `width` bytes.
pub open spec fn from_twos_complement(v: nat, width: nat) -> int {
    if 2 * v < pow256(width) {
        v as int
    } else {
        v - pow256(width)
    }
}

pub proof fn lemma_pow256_values()
    ensures
        pow256(0) == 1,
        pow256(1) == 0x100,
        pow256(2) == 0x1_0000,
        pow256(4) == 0x1_0000_0000,
        pow256(8) == 0x1_0000_0000_0000_0000,
        pow256(16) == 0x1_0000_0000_0000_0000_0000_0000_0000_0000,
{
    reveal_with_fuel(pow256, 9);
    assert(pow256(8) == 0x1_0000_0000_0000_0000);
    assert(pow256(16) == pow256(8) * pow256(8)) by {
        lemma_pow256_sum(8, 8);
    }
    assert(0x1_0000_0000_0000_0000 * 0x1_0000_0000_0000_0000
        == 0x1_0000_0000_0000_0000_0000_0000_0000_0000) by (nonlinear_arith);
}

pub proof fn lemma_pow256_sum(a: nat, b: nat)
    ensures
        pow256(a + b) == pow256(a) * pow256(b),
    decreases a,
{
    if a == 0 {
        assert(pow256(0 + b) == 1 * pow256(b));
    } else {
        lemma_pow256_sum((a - 1) as nat, b);
        assert(pow256(a + b) == 256 * pow256((a - 1 + b) as nat));
        assert(256 * (pow256((a - 1) as nat) * pow256(b)) == (256 * pow256((a - 1) as nat))
            * pow256(b)) by (nonlinear_arith);
    }
}

pub proof fn lemma_pow256_monotone(a: nat, b: nat)
    requires
        a <= b,
    ensures
        0 < pow256(a) <= pow256(b),
    decreases b,
{
    if b == 0 {
    } else if a == b {
        lemma_pow256_monotone((a - 1) as nat, (b - 1) as nat);
    } else {
        lemma_pow256_monotone(a, (b - 1) as nat);
    }
}

pub proof fn lemma_be_bytes_len(v: nat, width: nat)
    ensures
        be_bytes(v, width).len() == width,
    decreases width,
{
    if width > 0 {
        lemma_be_bytes_len(v / 256, (width - 1) as nat);
    }
}

pub proof fn lemma_be_value_bound(s: Seq<u8>)
    ensures
        be_value(s) < pow256(s.len()),
    decreases s.len(),
{
    if s.len() > 0 {
        lemma_be_value_bound(s.drop_last());
    }
}

/// Reading back the bytes written for `v` gives `v`, as far as it fits in `width` bytes.
pub proof fn lemma_be_value_of_bytes(v: nat, width: nat)
    requires
        v < pow256(width),
    ensures
        be_value(be_bytes(v, width)) == v,
    decreases width,
{
    if width > 0 {
        let head = be_bytes(v / 256, (width - 1) as nat);
        lemma_be_bytes_len(v / 256, (width - 1) as nat);
        lemma_be_value_of_bytes(v / 256, (width - 1) as nat);
        assert(be_bytes(v, width).drop_last() =~= head);
    }
}

/// Writing the number that a row of bytes holds gives the same bytes back.
pub proof fn lemma_be_bytes_of_value(s: Seq<u8>)
    ensures
        be_bytes(be_value(s), s.len()) == s,
    decreases s.len(),
{
    if s.len() > 0 {
        lemma_be_bytes_of_value(s.drop_last());
        let v = be_value(s);
        assert(v / 256 == be_value(s.drop_last()));
        assert(v % 256 == s.last() as nat);
        assert(be_bytes(v, s.len()) =~= s);
    } else {
        assert(be_bytes(be_value(s), s.len()) =~= s);
    }
}

pub proof fn lemma_twos_complement_round_trip(x: int, width: nat)
    requires
        -pow256(width) <= 2 * x < pow256(width),
    ensures
        twos_complement(x, width) < pow256(width),
        from_twos_complement(twos_complement(x, width), width) == x,
{
}

/// Appends to `out` the `width` bytes that hold `v` in network order.
pub fn be_push(out: &mut Vec<u8>, v: u128, width: usize)
    ensures
        final(out)@ == old(out)@ + be_bytes(v as nat, width as nat),
    decreases width,
{
    if width > 0 {
        be_push(out, v / 256, (width - 1) as usize);
        out.push((v % 256) as u8);
        assert(out@ =~= old(out)@ + be_bytes(v as nat, width as nat));
    } else {
        assert(out@ =~= old(out)@ + be_bytes(v as nat, width as nat));
    }
}

/// The number that `data[from..from + width]` holds in network order.
pub fn be_read(data: &[u8], from: usize, width: usize) -> (v: u128)
    requires
        width <= 16,
        from + width <= data@.len(),
    ensures
        v == be_value(data@.subrange(from as int, from + width)),
{
    let len: usize = data.len();
    let mut acc: u128 = 0;
    let mut i: usize = 0;
    while i < width
        invariant
            i <= width <= 16,
            from + width <= data@.len() == len,
            acc == be_value(data@.subrange(from as int, from + i)),
        decreases width - i,
    {
        let b: u8 = data[from + i];
        proof {
            let prev = data@.subrange(from as int, from + i);
            let next = data@.subrange(from as int, from + i + 1);
            assert(next.drop_last() =~= prev);
            assert(next.last() == b);
            lemma_be_value_bound(next);
            lemma_pow256_monotone((i + 1) as nat, 16);
            lemma_pow256_values();
        }
        acc = acc * 256 + b as u128;
        i = i + 1;
    }
    acc
}

} // verus!
