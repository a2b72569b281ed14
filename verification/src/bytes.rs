//! Fixed-width unsigned integers as big-endian and little-endian byte
//! strings, with the lemmas that make encoding and decoding inverse.

use vstd::prelude::*;

verus! {

/// `256^n`.
pub open spec fn pow256(n: nat) -> nat
    decreases n,
{
    if n == 0 {
        1
    } else {
        256 * pow256((n - 1) as nat)
    }
}

/// The number that the bytes `s` spell, most significant byte first.
pub open spec fn be_value(s: Seq<u8>) -> nat
    decreases s.len(),
{
    if s.len() == 0 {
        0
    } else {
        be_value(s.drop_last()) * 256 + (s.last() as nat)
    }
}

/// The `n` low-order bytes of `x`, most significant byte first.
pub open spec fn be_bytes(x: nat, n: nat) -> Seq<u8>
    decreases n,
{
    if n == 0 {
        Seq::empty()
    } else {
        be_bytes(x / 256, (n - 1) as nat).push((x % 256) as u8)
    }
}

/// The number that the bytes `s` spell, least significant byte first.
pub open spec fn le_value(s: Seq<u8>) -> nat
    decreases s.len(),
{
    if s.len() == 0 {
        0
    } else {
        (s[0] as nat) + 256 * le_value(s.drop_first())
    }
}

/// The `n` low-order bytes of `x`, least significant byte first.
pub open spec fn le_bytes(x: nat, n: nat) -> Seq<u8>
    decreases n,
{
    if n == 0 {
        Seq::empty()
    } else {
        seq![(x % 256) as u8] + le_bytes(x / 256, (n - 1) as nat)
    }
}

/// Byte order: a big-endian encoding ends with the lowest byte of the
/// number and a little-endian one starts with it; two bytes spell 256 times
/// the first plus the second when read big-endian, and the first plus 256
/// times the second when read little-endian.
pub proof fn lemma_byte_order(x: nat, n: nat, a: u8, b: u8)
    requires
        n >= 1,
    ensures
        be_bytes(x, n)[n - 1] == (x % 256) as u8,
        le_bytes(x, n)[0] == (x % 256) as u8,
        be_value(seq![a, b]) == 256 * a + b,
        le_value(seq![a, b]) == a + 256 * b,
{
    lemma_be_bytes_len(x / 256, (n - 1) as nat);
    let s = seq![a, b];
    assert(s.drop_last() =~= seq![a]);
    assert(seq![a].drop_last() =~= Seq::<u8>::empty());
    assert(s.drop_first() =~= seq![b]);
    assert(seq![b].drop_first() =~= Seq::<u8>::empty());
    assert(be_value(Seq::<u8>::empty()) == 0);
    assert(le_value(Seq::<u8>::empty()) == 0);
    assert(seq![a].last() == a);
    assert(seq![b][0] == b);
    assert(be_value(seq![a]) == a);
    assert(le_value(seq![b]) == b);
    assert(s.last() == b);
    assert(s[0] == a);
}

/// A power of 256 is at least 1.
pub proof fn lemma_pow256_positive(n: nat)
    ensures
        pow256(n) >= 1,
    decreases n,
{
    if n > 0 {
        lemma_pow256_positive((n - 1) as nat);
    }
}

/// The powers of 256 that the fixed-width fields use.
pub proof fn lemma_pow256_values()
    ensures
        pow256(1) == 0x100,
        pow256(2) == 0x1_0000,
        pow256(4) == 0x1_0000_0000,
        pow256(8) == 0x1_0000_0000_0000_0000,
{
    reveal_with_fuel(pow256, 9);
}

proof fn lemma_div_mod_256(x: nat)
    ensures
        x == (x / 256) * 256 + x % 256,
        x % 256 < 256,
{
}

proof fn lemma_div_bound(x: nat, p: nat)
    requires
        x < 256 * p,
    ensures
        x / 256 < p,
{
    assert(x / 256 < p) by (nonlinear_arith)
        requires
            x < 256 * p,
    ;
}

proof fn lemma_recombine(v: nat, b: nat)
    requires
        b < 256,
    ensures
        (v * 256 + b) / 256 == v,
        (v * 256 + b) % 256 == b,
{
    assert((v * 256 + b) / 256 == v && (v * 256 + b) % 256 == b) by (nonlinear_arith)
        requires
            b < 256,
    ;
}

/// The big-endian encoding in `n` bytes has `n` bytes.
pub proof fn lemma_be_bytes_len(x: nat, n: nat)
    ensures
        be_bytes(x, n).len() == n,
    decreases n,
{
    if n > 0 {
        lemma_be_bytes_len(x / 256, (n - 1) as nat);
    }
}

/// The little-endian encoding in `n` bytes has `n` bytes.
pub proof fn lemma_le_bytes_len(x: nat, n: nat)
    ensures
        le_bytes(x, n).len() == n,
    decreases n,
{
    if n > 0 {
        lemma_le_bytes_len(x / 256, (n - 1) as nat);
    }
}

/// Encoding a number that fits in `n` bytes and reading it back gives it again.
pub proof fn lemma_be_roundtrip(x: nat, n: nat)
    requires
        x < pow256(n),
    ensures
        be_value(be_bytes(x, n)) == x,
        be_bytes(x, n).len() == n,
    decreases n,
{
    lemma_be_bytes_len(x, n);
    if n > 0 {
        lemma_div_bound(x, pow256((n - 1) as nat));
        lemma_be_roundtrip(x / 256, (n - 1) as nat);
        lemma_div_mod_256(x);
        let s = be_bytes(x, n);
        assert(s.drop_last() =~= be_bytes(x / 256, (n - 1) as nat));
    }
}

/// Reading `n` bytes as a number and encoding it in `n` bytes gives them again.
pub proof fn lemma_be_value_roundtrip(s: Seq<u8>)
    ensures
        be_bytes(be_value(s), s.len()) == s,
        be_value(s) < pow256(s.len()),
    decreases s.len(),
{
    if s.len() > 0 {
        lemma_be_value_roundtrip(s.drop_last());
        let v = be_value(s.drop_last());
        lemma_recombine(v, s.last() as nat);
        assert(be_value(s) < pow256(s.len())) by (nonlinear_arith)
            requires
                be_value(s) == v * 256 + s.last(),
                v < pow256((s.len() - 1) as nat),
                s.last() < 256,
                pow256(s.len()) == 256 * pow256((s.len() - 1) as nat),
        ;
        assert(be_bytes(be_value(s), s.len()) =~= s.drop_last().push(s.last()));
        assert(s.drop_last().push(s.last()) =~= s);
    }
}

/// Encoding a number that fits in `n` bytes little-endian and reading it
/// back gives it again.
pub proof fn lemma_le_roundtrip(x: nat, n: nat)
    requires
        x < pow256(n),
    ensures
        le_value(le_bytes(x, n)) == x,
        le_bytes(x, n).len() == n,
    decreases n,
{
    lemma_le_bytes_len(x, n);
    if n > 0 {
        lemma_div_bound(x, pow256((n - 1) as nat));
        lemma_le_roundtrip(x / 256, (n - 1) as nat);
        lemma_div_mod_256(x);
        let s = le_bytes(x, n);
        assert(s.drop_first() =~= le_bytes(x / 256, (n - 1) as nat));
    }
}

/// Reading `n` bytes as a little-endian number and encoding it in `n` bytes
/// gives them again.
pub proof fn lemma_le_value_roundtrip(s: Seq<u8>)
    ensures
        le_bytes(le_value(s), s.len()) == s,
        le_value(s) < pow256(s.len()),
    decreases s.len(),
{
    if s.len() > 0 {
        lemma_le_value_roundtrip(s.drop_first());
        let v = le_value(s.drop_first());
        lemma_recombine(v, s[0] as nat);
        assert(le_value(s) == v * 256 + s[0]) by (nonlinear_arith)
            requires
                le_value(s) == s[0] + 256 * v,
        ;
        assert(le_value(s) < pow256(s.len())) by (nonlinear_arith)
            requires
                le_value(s) == v * 256 + s[0],
                v < pow256((s.len() - 1) as nat),
                s[0] < 256,
                pow256(s.len()) == 256 * pow256((s.len() - 1) as nat),
        ;
        assert(le_bytes(le_value(s), s.len()) =~= seq![s[0]] + s.drop_first());
        assert(seq![s[0]] + s.drop_first() =~= s);
    }
}

/// Powers of 256 grow with the exponent.
pub proof fn lemma_pow256_mono(a: nat, b: nat)
    requires
        a <= b,
    ensures
        pow256(a) <= pow256(b),
    decreases b,
{
    if a < b {
        lemma_pow256_mono(a, (b - 1) as nat);
        lemma_pow256_positive((b - 1) as nat);
    }
}

/// Appends the `n` low-order bytes of `x` to `out`, most significant first.
pub fn push_be(out: &mut Vec<u8>, x: u64, n: usize)
    requires
        n <= 8,
    ensures
        final(out)@ == old(out)@ + be_bytes(x as nat, n as nat),
    decreases n,
{
    if n > 0 {
        push_be(out, x / 256, n - 1);
        let ghost mid = out@;
        out.push((x % 256) as u8);
        assert(out@ =~= old(out)@ + be_bytes(x as nat, n as nat));
    } else {
        assert(out@ =~= old(out)@ + be_bytes(x as nat, n as nat));
    }
}

/// Appends the `n` low-order bytes of `x` to `out`, least significant first.
pub fn push_le(out: &mut Vec<u8>, x: u64, n: usize)
    requires
        n <= 8,
    ensures
        final(out)@ == old(out)@ + le_bytes(x as nat, n as nat),
    decreases n,
{
    if n > 0 {
        out.push((x % 256) as u8);
        push_le(out, x / 256, n - 1);
        assert(out@ =~= old(out)@ + le_bytes(x as nat, n as nat));
    } else {
        assert(out@ =~= old(out)@ + le_bytes(x as nat, n as nat));
    }
}

/// Reads `n` bytes of `data` from `start` as a big-endian number.
pub fn read_be(data: &[u8], start: usize, n: usize) -> (v: u64)
    requires
        n <= 8,
        start + n <= data@.len(),
    ensures
        v == be_value(data@.subrange(start as int, start + n)),
{
    let mut acc: u64 = 0;
    let mut i: usize = 0;
    proof {
        lemma_pow256_values();
        assert(data@.subrange(start as int, start as int) =~= Seq::<u8>::empty());
    }
    while i < n
        invariant
            i <= n,
            n <= 8,
            start + n <= data.len(),
            acc == be_value(data@.subrange(start as int, start + i)),
            pow256(8) == 0x1_0000_0000_0000_0000,
        decreases n - i,
    {
        let ghost prefix = data@.subrange(start as int, start + i);
        proof {
            lemma_be_value_roundtrip(prefix);
            lemma_pow256_mono(i as nat, 7);
            lemma_pow256_mono(7, 8);
            assert(pow256(8) == 256 * pow256(7));
            assert(acc * 256 + 255 < 0x1_0000_0000_0000_0000) by (nonlinear_arith)
                requires
                    acc < pow256(i as nat),
                    pow256(i as nat) <= pow256(7),
                    256 * pow256(7) == 0x1_0000_0000_0000_0000,
            ;
        }
        let b = data[start + i];
        acc = acc * 256 + b as u64;
        i = i + 1;
        assert(data@.subrange(start as int, start + i).drop_last() =~= prefix);
    }
    acc
}

/// Reads `n` bytes of `data` from `start` as a little-endian number.
pub fn read_le(data: &[u8], start: usize, n: usize) -> (v: u64)
    requires
        n <= 8,
        start + n <= data@.len(),
    ensures
        v == le_value(data@.subrange(start as int, start + n)),
{
    let mut acc: u64 = 0;
    let mut i: usize = n;
    proof {
        lemma_pow256_values();
        assert(data@.subrange(start + n, start + n) =~= Seq::<u8>::empty());
    }
    while i > 0
        invariant
            i <= n,
            n <= 8,
            start + n <= data.len(),
            acc == le_value(data@.subrange(start + i, start + n)),
            pow256(8) == 0x1_0000_0000_0000_0000,
        decreases i,
    {
        let ghost suffix = data@.subrange(start + i, start + n);
        proof {
            lemma_le_value_roundtrip(suffix);
            lemma_pow256_mono((n - i) as nat, 7);
            assert(pow256(8) == 256 * pow256(7));
            assert(acc * 256 + 255 < 0x1_0000_0000_0000_0000) by (nonlinear_arith)
                requires
                    acc < pow256((n - i) as nat),
                    pow256((n - i) as nat) <= pow256(7),
                    256 * pow256(7) == 0x1_0000_0000_0000_0000,
            ;
        }
        let b = data[start + i - 1];
        acc = b as u64 + 256 * acc;
        i = i - 1;
        assert(data@.subrange(start + i, start + n).drop_first() =~= suffix);
    }
    acc
}

/// The bytes `data[start..start + len]` as a new vector.
pub fn copy_range(data: &[u8], start: usize, len: usize) -> (v: Vec<u8>)
    requires
        start + len <= data@.len(),
    ensures
        v@ == data@.subrange(start as int, start + len),
{
    let mut v: Vec<u8> = Vec::new();
    let mut i: usize = 0;
    while i < len
        invariant
            i <= len,
            start + len <= data.len(),
            v@ == data@.subrange(start as int, start + i),
        decreases len - i,
    {
        v.push(data[start + i]);
        i = i + 1;
        assert(v@ =~= data@.subrange(start as int, start + i));
    }
    v
}

/// Appends all of `bytes` to `out`.
pub fn append_bytes(out: &mut Vec<u8>, bytes: &[u8])
    ensures
        final(out)@ == old(out)@ + bytes@,
{
    let mut i: usize = 0;
    while i < bytes.len()
        invariant
            i <= bytes@.len(),
            out@ == old(out)@ + bytes@.subrange(0, i as int),
        decreases bytes@.len() - i,
    {
        out.push(bytes[i]);
        i = i + 1;
        assert(out@ =~= old(out)@ + bytes@.subrange(0, i as int));
    }
    assert(bytes@.subrange(0, bytes@.len() as int) =~= bytes@);
}

} // verus!
