//! Fixed-width integers as byte strings.

use vstd::prelude::*;

verus! {

/// `256` to the power `n`: the number of values that `n` bytes can hold.
pub open spec fn pow256(n: nat) -> nat
    decreases n,
{
    if n == 0 {
        1
    } else {
        256 * pow256((n - 1) as nat)
    }
}

/// The `n` low bytes of `x`, least significant byte first.
pub open spec fn le_bytes(x: nat, n: nat) -> Seq<u8>
    decreases n,
{
    if n == 0 {
        Seq::empty()
    } else {
        seq![(x % 256) as u8] + le_bytes(x / 256, (n - 1) as nat)
    }
}

/// The number that a byte string denotes, least significant byte first.
pub open spec fn le_value(s: Seq<u8>) -> nat
    decreases s.len(),
{
    if s.len() == 0 {
        0
    } else {
        s[0] as nat + 256 * le_value(s.skip(1))
    }
}

/// The `n` low bytes of `x`, most significant byte first.
pub open spec fn be_bytes(x: nat, n: nat) -> Seq<u8>
    decreases n,
{
    if n == 0 {
        Seq::empty()
    } else {
        be_bytes(x / 256, (n - 1) as nat).push((x % 256) as u8)
    }
}

/// The number that a byte string denotes, most significant byte first.
pub open spec fn be_value(s: Seq<u8>) -> nat
    decreases s.len(),
{
    if s.len() == 0 {
        0
    } else {
        256 * be_value(s.drop_last()) + s.last() as nat
    }
}

/// Reading little-endian bytes gives back the number that was written.
pub proof fn le_round_trip(x: nat, n: nat)
    requires
        x < pow256(n),
    ensures
        le_bytes(x, n).len() == n,
        le_value(le_bytes(x, n)) == x,
    decreases n,
{
    if n > 0 {
        le_round_trip(x / 256, (n - 1) as nat);
        let s = le_bytes(x, n);
        assert(s.skip(1) =~= le_bytes(x / 256, (n - 1) as nat));
        assert(s[0] == (x % 256) as u8);
    }
}

/// Writing the number that little-endian bytes denote gives back the bytes.
pub proof fn le_round_trip_bytes(s: Seq<u8>)
    ensures
        le_value(s) < pow256(s.len()),
        le_bytes(le_value(s), s.len()) == s,
    decreases s.len(),
{
    if s.len() > 0 {
        let t = s.skip(1);
        le_round_trip_bytes(t);
        let x = le_value(s);
        assert(x % 256 == s[0] as nat);
        assert(x / 256 == le_value(t));
        assert(le_bytes(x, s.len()) =~= seq![s[0]] + t);
        assert(seq![s[0]] + t =~= s);
    } else {
        assert(le_bytes(0, 0) =~= s);
    }
}

/// Reading big-endian bytes gives back the number that was written.
pub proof fn be_round_trip(x: nat, n: nat)
    requires
        x < pow256(n),
    ensures
        be_bytes(x, n).len() == n,
        be_value(be_bytes(x, n)) == x,
    decreases n,
{
    if n > 0 {
        be_round_trip(x / 256, (n - 1) as nat);
        let s = be_bytes(x, n);
        assert(s.drop_last() =~= be_bytes(x / 256, (n - 1) as nat));
        assert(s.last() == (x % 256) as u8);
    }
}

/// Writing the number that big-endian bytes denote gives back the bytes.
pub proof fn be_round_trip_bytes(s: Seq<u8>)
    ensures
        be_value(s) < pow256(s.len()),
        be_bytes(be_value(s), s.len()) == s,
    decreases s.len(),
{
    if s.len() > 0 {
        let t = s.drop_last();
        be_round_trip_bytes(t);
        let x = be_value(s);
        assert(x % 256 == s.last() as nat);
        assert(x / 256 == be_value(t));
        assert(be_bytes(x, s.len()) =~= t.push(s.last()));
        assert(t.push(s.last()) =~= s);
    } else {
        assert(be_bytes(0, 0) =~= s);
    }
}

/// The number of values of the widths used here.
pub proof fn pow256_widths()
    ensures
        pow256(4) == 0x1_0000_0000,
        pow256(8) == 0x1_0000_0000_0000_0000,
        pow256(16) == 0x1_0000_0000_0000_0000_0000_0000_0000_0000int,
{
    reveal_with_fuel(pow256, 17);
}

/// Appends `x` as four little-endian bytes.
pub fn push_le_u32(out: &mut Vec<u8>, x: u32)
    ensures
        final(out)@ == old(out)@ + le_bytes(x as nat, 4),
{
    let ghost before = out@;
    out.push((x % 256) as u8);
    out.push((x / 256 % 256) as u8);
    out.push((x / 65536 % 256) as u8);
    out.push((x / 16777216) as u8);
    proof {
        reveal_with_fuel(le_bytes, 5);
        let n = x as nat;
        assert(n / 256 / 256 == n / 65536);
        assert(n / 65536 / 256 == n / 16777216);
        assert(n / 16777216 % 256 == n / 16777216);
        assert(le_bytes(n, 4) =~= seq![
            (x % 256) as u8,
            (x / 256 % 256) as u8,
            (x / 65536 % 256) as u8,
            (x / 16777216) as u8,
        ]);
        assert(out@ =~= before + le_bytes(n, 4));
    }
}

/// Appends `x` as eight little-endian bytes.
pub fn push_le_u64(out: &mut Vec<u8>, x: u64)
    ensures
        final(out)@ == old(out)@ + le_bytes(x as nat, 8),
{
    let ghost before = out@;
    let mut rest: u64 = x;
    let mut i: usize = 0;
    while i < 8
        invariant
            i <= 8,
            out@ + le_bytes(rest as nat, (8 - i) as nat) == before + le_bytes(x as nat, 8),
        decreases 8 - i,
    {
        let byte: u8 = (rest % 256) as u8;
        let ghost shorter = le_bytes((rest / 256) as nat, (8 - i - 1) as nat);
        assert(out@ + le_bytes(rest as nat, (8 - i) as nat) =~= out@.push(byte) + shorter);
        out.push(byte);
        rest = rest / 256;
        i = i + 1;
    }
    assert(out@ + le_bytes(rest as nat, 0) =~= out@);
}

/// Appends the `width` low bytes of `x`, most significant byte first.
pub fn push_be(out: &mut Vec<u8>, x: u128, width: usize)
    ensures
        final(out)@ == old(out)@ + be_bytes(x as nat, width as nat),
    decreases width,
{
    let ghost before = out@;
    if width > 0 {
        push_be(out, x / 256, width - 1);
        out.push((x % 256) as u8);
    }
    assert(out@ =~= before + be_bytes(x as nat, width as nat));
}

/// Appends `x` as sixteen big-endian bytes.
pub fn push_be_u128(out: &mut Vec<u8>, x: u128)
    ensures
        final(out)@ == old(out)@ + be_bytes(x as nat, 16),
{
    push_be(out, x, 16);
}

/// Reads four little-endian bytes at `at`.
pub fn read_le_u32(data: &[u8], at: usize) -> (x: u32)
    requires
        at + 4 <= data@.len(),
    ensures
        x as nat == le_value(data@.subrange(at as int, at + 4)),
{
    let x: u32 = data[at] as u32 + 256 * (data[at + 1] as u32) + 65536 * (data[at + 2] as u32)
        + 16777216 * (data[at + 3] as u32);
    proof {
        let s = data@.subrange(at as int, at + 4);
        reveal_with_fuel(le_value, 5);
        assert(s.skip(1)[0] == s[1]);
        assert(s.skip(1).skip(1)[0] == s[2]);
        assert(s.skip(1).skip(1).skip(1)[0] == s[3]);
    }
    x
}

/// Reads eight little-endian bytes at `at`.
pub fn read_le_u64(data: &[u8], at: usize) -> (x: u64)
    requires
        at + 8 <= data@.len(),
    ensures
        x as nat == le_value(data@.subrange(at as int, at + 8)),
{
    let end: usize = data.len();
    let low: u32 = read_le_u32(data, at);
    let high: u32 = read_le_u32(data, at + 4);
    proof {
        let s = data@.subrange(at as int, at + 8);
        reveal_with_fuel(le_value, 5);
        let t = data@.subrange(at as int, at + 4);
        let u = data@.subrange(at + 4, at + 8);
        assert(s.skip(1).skip(1).skip(1).skip(1) =~= u);
        assert(s.skip(1)[0] == s[1] && s.skip(1).skip(1)[0] == s[2]
            && s.skip(1).skip(1).skip(1)[0] == s[3]);
        assert(t.skip(1)[0] == s[1] && t.skip(1).skip(1)[0] == s[2]
            && t.skip(1).skip(1).skip(1)[0] == s[3]);
        assert(le_value(s) == le_value(t) + 0x1_0000_0000 * le_value(u));
    }
    low as u64 + 0x1_0000_0000 * (high as u64)
}

/// Reads sixteen big-endian bytes at `at`.
pub fn read_be_u128(data: &[u8], at: usize) -> (x: u128)
    requires
        at + 16 <= data@.len(),
    ensures
        x as nat == be_value(data@.subrange(at as int, at + 16)),
{
    let end: usize = data.len();
    let mut x: u128 = 0;
    let mut i: usize = 0;
    proof {
        reveal_with_fuel(be_value, 1);
        assert(be_value(data@.subrange(at as int, at as int)) == 0);
    }
    while i < 16
        invariant
            i <= 16,
            at + 16 <= data@.len(),
            data@.len() == end,
            x as nat == be_value(data@.subrange(at as int, at + i)),
        decreases 16 - i,
    {
        proof {
            let s = data@.subrange(at as int, at + i + 1);
            assert(s.drop_last() =~= data@.subrange(at as int, at + i));
            be_round_trip_bytes(s);
            pow256_monotone((i + 1) as nat, 16);
            pow256_widths();
        }
        x = 256 * x + data[at + i] as u128;
        i = i + 1;
    }
    x
}

proof fn pow256_monotone(a: nat, b: nat)
    requires
        a <= b,
    ensures
        pow256(a) <= pow256(b),
    decreases b,
{
    if a < b {
        pow256_monotone(a, (b - 1) as nat);
    }
}

/// A copy of `data[from..to]`.
pub fn copy_range(data: &[u8], from: usize, to: usize) -> (out: Vec<u8>)
    requires
        from <= to <= data@.len(),
    ensures
        out@ == data@.subrange(from as int, to as int),
{
    let mut out: Vec<u8> = Vec::new();
    append_range(&mut out, data, from, to);
    assert(out@ =~= data@.subrange(from as int, to as int));
    out
}

/// Appends `data[from..to]` to `out`.
pub fn append_range(out: &mut Vec<u8>, data: &[u8], from: usize, to: usize)
    requires
        from <= to <= data@.len(),
    ensures
        final(out)@ == old(out)@ + data@.subrange(from as int, to as int),
{
    let ghost before = out@;
    let mut i: usize = from;
    while i < to
        invariant
            from <= i <= to <= data@.len(),
            out@ == before + data@.subrange(from as int, i as int),
        decreases to - i,
    {
        out.push(data[i]);
        assert(data@.subrange(from as int, i + 1) =~= data@.subrange(from as int, i as int).push(
            data@[i as int],
        ));
        i = i + 1;
    }
}

/// Whether two byte strings are equal.
pub fn bytes_equal(a: &[u8], b: &[u8]) -> (equal: bool)
    ensures
        equal == (a@ == b@),
{
    if a.len() != b.len() {
        return false;
    }
    let mut i: usize = 0;
    while i < a.len()
        invariant
            i <= a@.len(),
            a@.len() == b@.len(),
            forall|j: int| 0 <= j < i ==> a@[j] == b@[j],
        decreases a@.len() - i,
    {
        if a[i] != b[i] {
            return false;
        }
        i = i + 1;
    }
    assert(a@ =~= b@);
    true
}

/// The bytes of a number stand in the order of their weight: the lowest first in one notation, and
/// last in the other.
pub proof fn bytes_stand_by_weight(x: nat, n: nat, i: nat)
    requires
        i < n,
    ensures
        le_bytes(x, n).len() == n,
        be_bytes(x, n).len() == n,
        le_bytes(x, n)[i as int] == x / pow256(i) % 256,
        be_bytes(x, n)[n - 1 - i] == x / pow256(i) % 256,
    decreases n,
{
    bytes_are_as_many(x, n);
    if i == 0 {
        assert(pow256(0) == 1);
        assert(x / 1 == x) by (nonlinear_arith);
    } else {
        let less = (n - 1) as nat;
        let before = (i - 1) as nat;
        bytes_stand_by_weight(x / 256, less, before);
        weight_is_positive(before);
        vstd::arithmetic::div_mod::lemma_div_denominator(x as int, 256, pow256(before) as int);
        assert(pow256(i) == 256 * pow256(before));
        bytes_are_as_many(x / 256, less);
        assert(le_bytes(x, n)[i as int] == le_bytes(x / 256, less)[before as int]);
        assert(be_bytes(x, n)[n - 1 - i] == be_bytes(x / 256, less)[less - 1 - before]);
    }
}

proof fn bytes_are_as_many(x: nat, n: nat)
    ensures
        le_bytes(x, n).len() == n,
        be_bytes(x, n).len() == n,
    decreases n,
{
    if n > 0 {
        bytes_are_as_many(x / 256, (n - 1) as nat);
    }
}

proof fn weight_is_positive(n: nat)
    ensures
        pow256(n) > 0,
    decreases n,
{
    if n > 0 {
        weight_is_positive((n - 1) as nat);
    }
}

/// Nothing has no weight in any place.
pub proof fn zero_has_no_weight(i: nat)
    ensures
        0nat / pow256(i) % 256 == 0,
{
    weight_is_positive(i);
    vstd::arithmetic::div_mod::lemma_div_basics(pow256(i) as int);
}

} // verus!
