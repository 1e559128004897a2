use vstd::prelude::*;

use crate::error::{at_int, DecodeError};

verus! {

/// `128` raised to the power `n`.
pub open spec fn pow128(n: nat) -> nat
    decreases n,
{
    if n == 0 {
        1
    } else {
        128 * pow128((n - 1) as nat)
    }
}

/// The number whose base-128 digits, least significant first, are the low
/// seven bits of each byte of `s`.
pub open spec fn varuint_payload(s: Seq<u8>) -> nat
    decreases s.len(),
{
    if s.len() == 0 {
        0
    } else {
        (s[0] % 128) as nat + 128 * varuint_payload(s.skip(1))
    }
}

/// Length of the VarUInt that starts at `pos`, looking from its `i`-th byte on:
/// it ends at the first byte with the high bit clear, within ten bytes.
pub open spec fn varuint_extent(bytes: Seq<u8>, pos: int, i: nat) -> Result<nat, DecodeError>
    decreases 10 - i,
{
    if i >= 10 {
        Err(DecodeError::MalformedVarInt)
    } else if pos + i >= bytes.len() {
        Err(DecodeError::TruncatedStream)
    } else if bytes[pos + i] < 128 {
        Ok(i + 1)
    } else {
        varuint_extent(bytes, pos, i + 1)
    }
}

/// The VarUInt at `pos`: its value, wrapped to 64 bits, and the position after it.
pub open spec fn varuint_at(bytes: Seq<u8>, pos: int) -> Result<(u64, int), DecodeError> {
    match varuint_extent(bytes, pos, 0) {
        Ok(n) => Ok(
            (
                (varuint_payload(bytes.subrange(pos, pos + n)) % 0x1_0000_0000_0000_0000) as u64,
                pos + n,
            ),
        ),
        Err(e) => Err(e),
    }
}

/// The shortest VarUInt encoding of `v`.
pub open spec fn varuint_encoding(v: nat) -> Seq<u8>
    decreases v,
{
    if v < 128 {
        seq![v as u8]
    } else {
        seq![(v % 128 + 128) as u8] + varuint_encoding(v / 128)
    }
}

proof fn lemma_payload_push(s: Seq<u8>, b: u8)
    ensures
        varuint_payload(s.push(b)) == varuint_payload(s) + (b % 128) as nat * pow128(s.len()),
    decreases s.len(),
{
    if s.len() == 0 {
        assert(s.push(b).skip(1) =~= Seq::<u8>::empty());
        assert(varuint_payload(Seq::<u8>::empty()) == 0);
        assert(s.push(b)[0] == b);
        assert(pow128(0) == 1);
        assert(varuint_payload(s.push(b)) == (b % 128) as nat);
    } else {
        assert(s.push(b).skip(1) =~= s.skip(1).push(b));
        assert(s.push(b)[0] == s[0]);
        lemma_payload_push(s.skip(1), b);
        let t = (b % 128) as nat;
        let q = pow128((s.len() - 1) as nat);
        let p = varuint_payload(s.skip(1));
        assert(128 * (p + t * q) == 128 * p + t * (128 * q)) by (nonlinear_arith);
        assert(pow128(s.len()) == 128 * q);
        assert(varuint_payload(s) == (s[0] % 128) as nat + 128 * p);
        assert(varuint_payload(s.push(b)) == (s[0] % 128) as nat + 128 * (p + t * q));
    }
}

proof fn lemma_payload_bound(s: Seq<u8>)
    ensures
        varuint_payload(s) < pow128(s.len()),
    decreases s.len(),
{
    if s.len() > 0 {
        lemma_payload_bound(s.skip(1));
        let p = varuint_payload(s.skip(1));
        assert(128 * p + 128 <= 128 * pow128((s.len() - 1) as nat)) by (nonlinear_arith)
            requires p < pow128((s.len() - 1) as nat);
    }
}

/// Reads the VarUInt at `pos`: up to ten bytes, seven payload bits each,
/// least significant first, the last one with its high bit clear.
pub fn read_var_u64(bytes: &[u8], pos: usize) -> (r: Result<(u64, usize), DecodeError>)
    requires
        pos <= bytes@.len(),
    ensures
        at_int(r) == varuint_at(bytes@, pos as int),
        r is Ok ==> pos < r->Ok_0.1 <= bytes@.len(),
{
    let ghost s = bytes@;
    let mut x: u64 = 0;
    let mut mult: u64 = 1;
    let mut i: usize = 0;
    proof {
        reveal_with_fuel(pow128, 10);
        assert(s.subrange(pos as int, pos as int) =~= Seq::<u8>::empty());
    }
    while i < 10
        invariant
            pos <= s.len(),
            s == bytes@,
            i <= 9 ==> i < 10,
            i <= 10,
            i < 10 ==> mult == pow128(i as nat),
            i < 10 ==> pos + i <= s.len(),
            i < 10 ==> x == varuint_payload(s.subrange(pos as int, pos + i)),
            varuint_extent(s, pos as int, 0) == varuint_extent(s, pos as int, i as nat),
        decreases 10 - i,
    {
        if i >= bytes.len() - pos {
            return Err(DecodeError::TruncatedStream);
        }
        let b = bytes[pos + i];
        let ghost prefix = s.subrange(pos as int, pos + i);
        proof {
            assert(s.subrange(pos as int, pos + i + 1) =~= prefix.push(b));
            lemma_payload_push(prefix, b);
            lemma_payload_bound(prefix);
            reveal_with_fuel(pow128, 10);
        }
        let ghost full = varuint_payload(s.subrange(pos as int, pos + i + 1));
        if i < 9 {
            proof {
                assert((b % 128) as nat * mult <= 127 * mult) by (nonlinear_arith);
                assert(pow128(i as nat) <= pow128(8)) by {
                    lemma_pow128_mono(i as nat, 8);
                }
            }
            x = x + ((b % 128) as u64) * mult;
            assert(x == full);
            assert(x < 0x1_0000_0000_0000_0000);
        } else {
            let ghost y = (b % 128) as int;
            let ghost p63: int = 0x8000_0000_0000_0000int;
            proof {
                assert(mult == p63);
                assert(y * p63 == (y / 2) * (2 * p63) + (y % 2) * p63) by (nonlinear_arith);
                vstd::arithmetic::div_mod::lemma_mod_multiples_vanish(
                    y / 2,
                    x + (y % 2) * p63,
                    2 * p63,
                );
                assert((b % 2) as int == y % 2);
            }
            x = x + ((b % 2) as u64) * 0x8000_0000_0000_0000;
            assert(x as int == (full as int) % 0x1_0000_0000_0000_0000);
        }
        if b < 128 {
            proof {
                lemma_payload_bound(s.subrange(pos as int, pos + i + 1));
                if i < 9 {
                    lemma_pow128_mono((i + 1) as nat, 9);
                    vstd::arithmetic::div_mod::lemma_small_mod(full, 0x1_0000_0000_0000_0000);
                }
            }
            return Ok((x, pos + i + 1));
        }
        if i < 9 {
            mult = mult * 128;
        }
        i = i + 1;
    }
    Err(DecodeError::MalformedVarInt)
}

proof fn lemma_pow128_mono(a: nat, b: nat)
    requires
        a <= b,
    ensures
        pow128(a) <= pow128(b),
    decreases b - a,
{
    if a < b {
        lemma_pow128_mono(a, (b - 1) as nat);
    }
}

/// Writes `v` as a VarUInt: seven bits per byte, least significant first,
/// the high bit set on every byte but the last.
pub fn encode_var_u64(v: u64) -> (r: Vec<u8>)
    ensures
        r@ == varuint_encoding(v as nat),
{
    let mut out: Vec<u8> = Vec::new();
    let mut rest: u64 = v;
    while rest >= 128
        invariant
            out@ + varuint_encoding(rest as nat) == varuint_encoding(v as nat),
        decreases rest,
    {
        let b: u8 = (rest % 128 + 128) as u8;
        proof {
            assert(varuint_encoding(rest as nat) == seq![b] + varuint_encoding((rest / 128) as nat));
            assert(out@.push(b) + varuint_encoding((rest / 128) as nat) =~= out@ + (seq![b]
                + varuint_encoding((rest / 128) as nat)));
        }
        out.push(b);
        rest = rest / 128;
    }
    proof {
        assert(varuint_encoding(rest as nat) == seq![rest as u8]);
        assert(out@.push(rest as u8) =~= out@ + seq![rest as u8]);
    }
    out.push(rest as u8);
    out
}

proof fn lemma_encoding_shape(v: nat)
    ensures
        varuint_encoding(v).len() >= 1,
        varuint_payload(varuint_encoding(v)) == v,
        varuint_encoding(v)[varuint_encoding(v).len() - 1] < 128,
        forall|k: int| 0 <= k < varuint_encoding(v).len() - 1 ==> varuint_encoding(v)[k] >= 128,
        forall|n: nat| v < pow128(n) && n >= 1 ==> varuint_encoding(v).len() <= n,
    decreases v,
{
    let e = varuint_encoding(v);
    if v < 128 {
        assert(e.skip(1) =~= Seq::<u8>::empty());
        assert(varuint_payload(Seq::<u8>::empty()) == 0);
    } else {
        let r = varuint_encoding(v / 128);
        lemma_encoding_shape(v / 128);
        assert(e.skip(1) =~= r);
        assert(e[0] % 128 == v % 128);
        assert forall|k: int| 0 <= k < e.len() - 1 implies e[k] >= 128 by {
            if k > 0 {
                assert(e[k] == r[k - 1]);
            }
        }
        assert(e[e.len() - 1] == r[r.len() - 1]);
        assert forall|n: nat| v < pow128(n) && n >= 1 implies e.len() <= n by {
            if n == 1 {
                assert(pow128(1) == 128 * pow128(0));
            } else {
                assert(pow128(n) == 128 * pow128((n - 1) as nat));
                assert(v / 128 < pow128((n - 1) as nat));
            }
        }
    }
}

proof fn lemma_extent_of_terminated(bytes: Seq<u8>, pos: int, n: nat, i: nat)
    requires
        0 <= pos,
        i < n <= 10,
        pos + n <= bytes.len(),
        bytes[pos + n - 1] < 128,
        forall|k: int| pos <= k < pos + n - 1 ==> bytes[k] >= 128,
    ensures
        varuint_extent(bytes, pos, i) == Ok::<nat, DecodeError>(n),
    decreases n - i,
{
    if i + 1 < n {
        lemma_extent_of_terminated(bytes, pos, n, i + 1);
    }
}

/// Decoding the encoding of any 64-bit value gives the value back and
/// consumes exactly the encoding, at most ten bytes.
pub proof fn lemma_var_u64_round_trip(v: u64)
    ensures
        varuint_encoding(v as nat).len() <= 10,
        varuint_at(varuint_encoding(v as nat), 0) == Ok::<(u64, int), DecodeError>(
            (v, varuint_encoding(v as nat).len() as int),
        ),
{
    let e = varuint_encoding(v as nat);
    lemma_encoding_shape(v as nat);
    reveal_with_fuel(pow128, 11);
    assert(v < pow128(10));
    lemma_extent_of_terminated(e, 0, e.len(), 0);
    assert(e.subrange(0, e.len() as int) =~= e);
    vstd::arithmetic::div_mod::lemma_small_mod(v as nat, 0x1_0000_0000_0000_0000);
}

/// Ten bytes in a row that all carry the continuation bit are no VarUInt.
pub proof fn lemma_ten_continuation_bytes_malformed(bytes: Seq<u8>, pos: int)
    requires
        0 <= pos,
        pos + 10 <= bytes.len(),
        forall|k: int| pos <= k < pos + 10 ==> bytes[k] >= 128,
    ensures
        varuint_at(bytes, pos) == Err::<(u64, int), DecodeError>(DecodeError::MalformedVarInt),
{
    reveal_with_fuel(varuint_extent, 11);
    assert(bytes[pos] >= 128 && bytes[pos + 1] >= 128 && bytes[pos + 2] >= 128);
    assert(bytes[pos + 3] >= 128 && bytes[pos + 4] >= 128 && bytes[pos + 5] >= 128);
    assert(bytes[pos + 6] >= 128 && bytes[pos + 7] >= 128 && bytes[pos + 8] >= 128);
    assert(bytes[pos + 9] >= 128);
}

} // verus!
