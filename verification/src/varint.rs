//! Big-endian integers and the variable-length integer encoding.
//!
//! A variable-length integer is a big-endian number of 1, 2, 4 or 8 bytes
//! whose two most significant bits give the length and whose remaining bits
//! give the value, so values range over `0 ..= 2^62 - 1`.

use vstd::prelude::*;

verus! {

/// Largest value a variable-length integer can carry.
pub const VARINT_MAX: u64 = 0x3FFF_FFFF_FFFF_FFFF;

/// `256^n`.
pub open spec fn pow256(n: nat) -> nat
    decreases n,
{
    if n == 0 {
        1
    } else {
        256 * pow256((n - 1) as nat)
    }
}

/// The number that the bytes of `s` spell in big-endian order.
pub open spec fn be_value(s: Seq<u8>) -> nat
    decreases s.len(),
{
    if s.len() == 0 {
        0
    } else {
        be_value(s.drop_last()) * 256 + s.last() as nat
    }
}

/// The `n` low-order bytes of `v` in big-endian order.
pub open spec fn be_bytes(v: nat, n: nat) -> Seq<u8>
    decreases n,
{
    if n == 0 {
        Seq::empty()
    } else {
        be_bytes(v / 256, (n - 1) as nat).push((v % 256) as u8)
    }
}

/// The powers of 256 that fit eight bytes.
pub proof fn lemma_pow256_values()
    ensures
        pow256(0) == 1,
        pow256(1) == 0x100,
        pow256(2) == 0x1_0000,
        pow256(3) == 0x100_0000,
        pow256(4) == 0x1_0000_0000,
        pow256(5) == 0x100_0000_0000,
        pow256(6) == 0x1_0000_0000_0000,
        pow256(7) == 0x100_0000_0000_0000,
        pow256(8) == 0x1_0000_0000_0000_0000,
{
    reveal_with_fuel(pow256, 10);
}

/// A number is encoded in as many bytes as asked for.
pub proof fn lemma_be_bytes_len(v: nat, n: nat)
    ensures
        be_bytes(v, n).len() == n,
    decreases n,
{
    if n > 0 {
        lemma_be_bytes_len(v / 256, (n - 1) as nat);
    }
}

/// The value of `n` bytes is below `256^n`.
pub proof fn lemma_be_value_bound(s: Seq<u8>)
    ensures
        be_value(s) < pow256(s.len()),
    decreases s.len(),
{
    if s.len() > 0 {
        lemma_be_value_bound(s.drop_last());
    }
}

/// Decoding the big-endian bytes of a number that fits gives the number back.
pub proof fn lemma_be_value_of_bytes(v: nat, n: nat)
    requires
        v < pow256(n),
    ensures
        be_value(be_bytes(v, n)) == v,
    decreases n,
{
    if n > 0 {
        let rest = be_bytes(v / 256, (n - 1) as nat);
        lemma_be_value_of_bytes(v / 256, (n - 1) as nat);
        assert(be_bytes(v, n).drop_last() =~= rest);
    }
}

/// Length in bytes of the variable-length integer whose first byte is `first`.
pub open spec fn varint_width(first: u8) -> nat {
    if first < 0x40 {
        1
    } else if first < 0x80 {
        2
    } else if first < 0xc0 {
        4
    } else {
        8
    }
}

/// Length in bytes of the shortest variable-length encoding of `v`.
pub open spec fn varint_len(v: u64) -> nat {
    if v < 0x40 {
        1
    } else if v < 0x4000 {
        2
    } else if v < 0x4000_0000 {
        4
    } else {
        8
    }
}

/// The variable-length integer that starts at `at`, with the position after
/// it; `None` where its bytes run past the end of `s`.
///
/// The low six bits of the first byte are the most significant bits of the
/// value; the remaining bytes follow in big-endian order.
pub open spec fn parse_varint(s: Seq<u8>, at: int) -> Option<(u64, int)> {
    if 0 <= at < s.len() {
        let w = varint_width(s[at]);
        if at + w <= s.len() {
            let high = (s[at] % 0x40) as nat;
            let low = be_value(s.subrange(at + 1, at + w));
            let v = if w == 1 {
                high
            } else if w == 2 {
                high * 0x100 + low
            } else if w == 4 {
                high * 0x100_0000 + low
            } else {
                high * 0x100_0000_0000_0000 + low
            };
            Some((v as u64, at + w))
        } else {
            None
        }
    } else {
        None
    }
}

/// The shortest variable-length encoding of `v`.
pub open spec fn varint_bytes(v: u64) -> Seq<u8>
    recommends
        v <= VARINT_MAX,
{
    if v < 0x40 {
        seq![v as u8]
    } else if v < 0x4000 {
        seq![(0x40 + v / 0x100) as u8] + be_bytes(v as nat % 0x100, 1)
    } else if v < 0x4000_0000 {
        seq![(0x80 + v / 0x100_0000) as u8] + be_bytes(v as nat % 0x100_0000, 3)
    } else {
        seq![(0xc0 + v / 0x100_0000_0000_0000) as u8] + be_bytes(
            v as nat % 0x100_0000_0000_0000,
            7,
        )
    }
}

/// The shortest encoding has the length that [`varint_len`] gives.
pub proof fn lemma_varint_bytes_len(v: u64)
    ensures
        varint_bytes(v).len() == varint_len(v),
        1 <= varint_len(v) <= 8,
{
    lemma_be_bytes_len(v as nat % 0x100, 1);
    lemma_be_bytes_len(v as nat % 0x100_0000, 3);
    lemma_be_bytes_len(v as nat % 0x100_0000_0000_0000, 7);
}

/// A parsed variable-length integer never exceeds [`VARINT_MAX`], and the
/// position moves forward by 1 to 8 bytes.
pub proof fn lemma_parse_varint_bounds(s: Seq<u8>, at: int)
    requires
        parse_varint(s, at) is Some,
    ensures
        parse_varint(s, at).unwrap().0 <= VARINT_MAX,
        at < parse_varint(s, at).unwrap().1 <= s.len(),
        parse_varint(s, at).unwrap().1 <= at + 8,
{
    let w = varint_width(s[at]);
    lemma_pow256_values();
    lemma_be_value_bound(s.subrange(at + 1, at + w));
}

/// Reading back the encoding of `v`, wherever it stands in `s`, gives `v`
/// and the position after the encoding.
pub proof fn lemma_parse_varint_bytes(s: Seq<u8>, at: int, v: u64)
    requires
        v <= VARINT_MAX,
        0 <= at,
        at + varint_bytes(v).len() <= s.len(),
        s.subrange(at, at + varint_bytes(v).len()) == varint_bytes(v),
    ensures
        parse_varint(s, at) == Some((v, at + varint_len(v))),
{
    let w = varint_len(v);
    let enc = varint_bytes(v);
    lemma_pow256_values();
    lemma_varint_bytes_len(v);
    let unit: nat = if w == 1 {
        1
    } else if w == 2 {
        0x100
    } else if w == 4 {
        0x100_0000
    } else {
        0x100_0000_0000_0000
    };
    let low = be_bytes(v as nat % unit, (w - 1) as nat);
    lemma_be_bytes_len(v as nat % unit, (w - 1) as nat);
    lemma_be_value_of_bytes(v as nat % unit, (w - 1) as nat);
    assert(enc =~= seq![enc[0]] + low);
    assert(s.subrange(at + 1, at + w) =~= low) by {
        assert forall|i: int| 0 <= i < w - 1 implies s.subrange(at + 1, at + w)[i] == low[i] by {
            assert(s.subrange(at, at + enc.len())[i + 1] == enc[i + 1]);
        }
    }
}

/// Powers of 256 grow with the exponent.
pub proof fn lemma_pow256_monotonic(a: nat, b: nat)
    requires
        a <= b,
    ensures
        pow256(a) <= pow256(b),
        pow256(a) >= 1,
    decreases b,
{
    if a < b {
        lemma_pow256_monotonic(a, (b - 1) as nat);
    } else if a > 0 {
        lemma_pow256_monotonic((a - 1) as nat, (b - 1) as nat);
    }
}

/// Reads the big-endian number of `n` bytes at `at`. The bytes must lie
/// in `buf` and be at most eight.
pub fn read_uint(buf: &[u8], at: usize, n: usize) -> (r: u64)
    requires
        n <= 8,
        at + n <= buf@.len(),
    ensures
        r == be_value(buf@.subrange(at as int, at + n)),
{
    let mut acc: u64 = 0;
    let mut i: usize = 0;
    let len: usize = buf.len();
    while i < n
        invariant
            i <= n <= 8,
            at + n <= buf@.len(),
            buf@.len() == len,
            acc == be_value(buf@.subrange(at as int, at + i)),
        decreases n - i,
    {
        proof {
            lemma_pow256_values();
            lemma_be_value_bound(buf@.subrange(at as int, at + i));
            lemma_pow256_monotonic(i as nat, 7);
            assert(buf@.subrange(at as int, at + i + 1).drop_last() =~= buf@.subrange(
                at as int,
                at + i,
            ));
        }
        acc = acc * 256 + buf[at + i] as u64;
        i += 1;
    }
    acc
}

/// Decodes the variable-length integer at `at`.
///
/// Returns the value and the position after it, or `None` where the
/// integer runs past the end of `buf`.
pub fn decode_varint(buf: &[u8], at: usize) -> (r: Option<(u64, usize)>)
    ensures
        match r {
            Some((v, next)) => parse_varint(buf@, at as int) == Some((v, next as int)),
            None => parse_varint(buf@, at as int) is None,
        },
{
    if at >= buf.len() {
        return None;
    }
    let first: u8 = buf[at];
    let w: usize = if first < 0x40 {
        1
    } else if first < 0x80 {
        2
    } else if first < 0xc0 {
        4
    } else {
        8
    };
    if buf.len() - at < w {
        return None;
    }
    let low: u64 = read_uint(buf, at + 1, w - 1);
    let high: u64 = (first % 0x40) as u64;
    proof {
        lemma_pow256_values();
        lemma_be_value_bound(buf@.subrange(at + 1, at + w));
    }
    let v: u64 = if w == 1 {
        high
    } else if w == 2 {
        high * 0x100 + low
    } else if w == 4 {
        high * 0x100_0000 + low
    } else {
        high * 0x100_0000_0000_0000 + low
    };
    Some((v, at + w))
}

/// Appends the `n` low-order bytes of `v`, most significant first.
pub fn write_uint(out: &mut Vec<u8>, v: u64, n: usize)
    ensures
        final(out)@ == old(out)@ + be_bytes(v as nat, n as nat),
    decreases n,
{
    if n > 0 {
        write_uint(out, v / 256, n - 1);
        out.push((v % 256) as u8);
    }
}

/// Appends the shortest variable-length encoding of `v`, which must not
/// exceed [`VARINT_MAX`].
pub fn encode_varint(out: &mut Vec<u8>, v: u64)
    requires
        v <= VARINT_MAX,
    ensures
        final(out)@ == old(out)@ + varint_bytes(v),
{
    proof {
        lemma_pow256_values();
    }
    if v < 0x40 {
        out.push(v as u8);
    } else if v < 0x4000 {
        out.push((0x40 + v / 0x100) as u8);
        write_uint(out, v % 0x100, 1);
    } else if v < 0x4000_0000 {
        out.push((0x80 + v / 0x100_0000) as u8);
        write_uint(out, v % 0x100_0000, 3);
    } else {
        out.push((0xc0 + v / 0x100_0000_0000_0000) as u8);
        write_uint(out, v % 0x100_0000_0000_0000, 7);
    }
}

} // verus!
