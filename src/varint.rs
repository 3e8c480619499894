//! Base-128 variable-length unsigned integers, at most five groups.

use vstd::prelude::*;

use crate::DemoError;

verus! {

/// 128 to the power `n`.
pub open spec fn pow128(n: nat) -> nat
    decreases n,
{
    if n == 0 {
        1
    } else {
        128 * pow128((n - 1) as nat)
    }
}

/// Reads at most `groups` groups from the front of `b`: the value (not yet
/// cut to 32 bits) and the number of bytes taken.
pub open spec fn varint_scan(b: Seq<u8>, groups: nat) -> Result<(nat, nat), DemoError>
    decreases groups,
{
    if groups == 0 {
        Err(DemoError::InvalidVarint)
    } else if b.len() == 0 {
        Err(DemoError::Truncated)
    } else if b[0] < 128 {
        Ok((b[0] as nat, 1nat))
    } else {
        match varint_scan(b.drop_first(), (groups - 1) as nat) {
            Ok((v, n)) => Ok((((b[0] - 128) + 128 * v) as nat, n + 1)),
            Err(e) => Err(e),
        }
    }
}

/// The varint at the front of `b`: its value in 32 bits and its length.
pub open spec fn varuint_spec(b: Seq<u8>) -> Result<(u32, nat), DemoError> {
    match varint_scan(b, 5) {
        Ok((v, n)) => Ok(((v % 0x1_0000_0000) as u32, n)),
        Err(e) => Err(e),
    }
}

/// The bytes that encode `v`: seven bits per byte, lowest group first.
pub open spec fn varuint_encoding(v: nat) -> Seq<u8>
    decreases v,
{
    if v < 128 {
        seq![v as u8]
    } else {
        seq![((v % 128) + 128) as u8] + varuint_encoding(v / 128)
    }
}

pub proof fn lemma_varint_scan_bounds(b: Seq<u8>, groups: nat)
    ensures
        varint_scan(b, groups) matches Ok((v, n)) ==> v < pow128(n) && 1 <= n <= groups
            && n <= b.len(),
    decreases groups,
{
    reveal_with_fuel(pow128, 2);
    if groups > 0 && b.len() > 0 && b[0] >= 128 {
        lemma_varint_scan_bounds(b.drop_first(), (groups - 1) as nat);
        if let Ok((v, n)) = varint_scan(b.drop_first(), (groups - 1) as nat) {
            assert(pow128(n + 1) == 128 * pow128(n));
        }
    }
}

pub proof fn lemma_pow128_monotonic(a: nat, b: nat)
    requires
        a <= b,
    ensures
        pow128(a) <= pow128(b),
    decreases b,
{
    if a < b {
        lemma_pow128_monotonic(a, (b - 1) as nat);
    }
}

proof fn lemma_scan_encoding(v: nat, rest: Seq<u8>, groups: nat)
    requires
        v < pow128(groups),
        groups >= 1,
    ensures
        varint_scan(varuint_encoding(v) + rest, groups) == Ok::<(nat, nat), DemoError>(
            (v, varuint_encoding(v).len()),
        ),
        varuint_encoding(v).len() <= groups,
    decreases v,
{
    let s = varuint_encoding(v) + rest;
    if v < 128 {
        assert(s[0] == v as u8);
        assert(varuint_encoding(v).len() == 1);
    } else {
        assert(s[0] == ((v % 128) + 128) as u8);
        let tail = varuint_encoding(v / 128);
        assert(s.drop_first() =~= tail + rest);
        assert(groups > 1) by {
            if groups <= 1 {
                reveal_with_fuel(pow128, 2);
            }
        }
        assert(pow128(groups) == 128 * pow128((groups - 1) as nat));
        assert(v / 128 < pow128((groups - 1) as nat));
        lemma_scan_encoding(v / 128, rest, (groups - 1) as nat);
        assert((s[0] - 128) + 128 * (v / 128) == v);
    }
}

/// Decoding the encoding of any 32-bit value gives the value back and takes
/// every byte of the encoding, which is at most five bytes long.
pub proof fn lemma_varuint_round_trip(v: u32, rest: Seq<u8>)
    ensures
        varuint_spec(varuint_encoding(v as nat) + rest) == Ok::<(u32, nat), DemoError>(
            (v, varuint_encoding(v as nat).len()),
        ),
        varuint_encoding(v as nat).len() <= 5,
{
    reveal_with_fuel(pow128, 6);
    lemma_scan_encoding(v as nat, rest, 5);
}

/// Zero is one byte long.
pub proof fn lemma_varuint_zero()
    ensures
        varuint_spec(varuint_encoding(0)) == Ok::<(u32, nat), DemoError>((0u32, 1nat)),
{
    assert(varuint_encoding(0)[0] == 0u8);
}

/// Five bytes that all carry the continuation bit are no varint.
pub proof fn lemma_varuint_overlong(b: Seq<u8>)
    requires
        b.len() >= 5,
        forall|i: int| 0 <= i < 5 ==> b[i] >= 128,
    ensures
        varuint_spec(b) == Err::<(u32, nat), DemoError>(DemoError::InvalidVarint),
{
    let b1 = b.drop_first();
    let b2 = b1.drop_first();
    let b3 = b2.drop_first();
    let b4 = b3.drop_first();
    let b5 = b4.drop_first();
    assert(b1[0] == b[1] && b2[0] == b[2] && b3[0] == b[3] && b4[0] == b[4]);
    assert(varint_scan(b5, 0) == Err::<(nat, nat), DemoError>(DemoError::InvalidVarint));
    reveal_with_fuel(varint_scan, 6);
}

fn scan_at(data: &[u8], pos: usize, end: usize, groups: u8) -> (r: Result<(u64, usize), DemoError>)
    requires
        pos <= end <= data@.len(),
        groups <= 5,
    ensures
        match varint_scan(data@.subrange(pos as int, end as int), groups as nat) {
            Ok((v, n)) => r == Ok::<(u64, usize), DemoError>((v as u64, n as usize)),
            Err(e) => r == Err::<(u64, usize), DemoError>(e),
        },
    decreases groups,
{
    let ghost b = data@.subrange(pos as int, end as int);
    if groups == 0 {
        return Err(DemoError::InvalidVarint);
    }
    if pos == end {
        return Err(DemoError::Truncated);
    }
    let byte = data[pos];
    assert(b[0] == byte);
    if byte < 128 {
        return Ok((byte as u64, 1));
    }
    assert(b.drop_first() =~= data@.subrange(pos + 1, end as int));
    match scan_at(data, pos + 1, end, groups - 1) {
        Ok((v, n)) => {
            proof {
                lemma_varint_scan_bounds(b.drop_first(), (groups - 1) as nat);
                lemma_pow128_monotonic(n as nat, 4);
                reveal_with_fuel(pow128, 5);
            }
            Ok(((byte - 128) as u64 + 128 * v, n + 1))
        },
        Err(e) => Err(e),
    }
}

/// Decodes the varint in `data[pos..end]` (see `read_varuint`).
pub fn read_varuint_at(data: &[u8], pos: usize, end: usize) -> (r: Result<(u32, usize), DemoError>)
    requires
        pos <= end <= data@.len(),
    ensures
        match varuint_spec(data@.subrange(pos as int, end as int)) {
            Ok((v, n)) => r == Ok::<(u32, usize), DemoError>((v, n as usize)),
            Err(e) => r == Err::<(u32, usize), DemoError>(e),
        },
{
    proof {
        let b = data@.subrange(pos as int, end as int);
        lemma_varint_scan_bounds(b, 5);
        if let Ok((v, n)) = varint_scan(b, 5) {
            lemma_pow128_monotonic(n, 5);
            reveal_with_fuel(pow128, 6);
        }
    }
    match scan_at(data, pos, end, 5) {
        Ok((v, n)) => Ok(((v % 0x1_0000_0000) as u32, n)),
        Err(e) => Err(e),
    }
}

/// Decodes the varint at the front of `bytes`: its value and how many bytes
/// it took. Fails with `Truncated` when the bytes end inside it, and with
/// `InvalidVarint` when its fifth byte still has the continuation bit.
pub fn read_varuint(bytes: &[u8]) -> (r: Result<(u32, usize), DemoError>)
    ensures
        match varuint_spec(bytes@) {
            Ok((v, n)) => r == Ok::<(u32, usize), DemoError>((v, n as usize)),
            Err(e) => r == Err::<(u32, usize), DemoError>(e),
        },
{
    assert(bytes@.subrange(0, bytes@.len() as int) =~= bytes@);
    read_varuint_at(bytes, 0, bytes.len())
}

/// The encoding of `v`, which `read_varuint` reads back.
pub fn encode_varuint(v: u32) -> (r: Vec<u8>)
    ensures
        r@ == varuint_encoding(v as nat),
{
    let mut out: Vec<u8> = Vec::new();
    let mut rest: u32 = v;
    while rest >= 128
        invariant
            out@ + varuint_encoding(rest as nat) == varuint_encoding(v as nat),
        decreases rest,
    {
        out.push((rest % 128 + 128) as u8);
        rest = rest / 128;
    }
    out.push(rest as u8);
    out
}

} // verus!
