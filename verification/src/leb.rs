//! Unsigned LEB128 varints.
//!
//! Counts in the byte-stream run-length format and every field of the
//! pixel-block header are stored in this form: seven value bits per byte,
//! least-significant group first, the high bit of every byte but the last set.

use vstd::prelude::*;
use crate::serialize::DeserializeError;

verus! {

/// The LEB128 encoding of `n`.
pub open spec fn leb_bytes(n: nat) -> Seq<u8>
    decreases n,
{
    if n < 128 {
        seq![n as u8]
    } else {
        seq![(n % 128 + 128) as u8] + leb_bytes(n / 128)
    }
}

/// What a LEB128 decoder finds at the front of `s`: the value and the number
/// of bytes consumed, or nothing when `s` ends inside a varint. The value is
/// unbounded: a reader that must fit it in a machine word rejects large
/// values separately.
pub open spec fn leb_dec(s: Seq<u8>) -> Option<(nat, nat)>
    decreases s.len(),
{
    if s.len() == 0 {
        None
    } else if s[0] < 128 {
        Some((s[0] as nat, 1))
    } else {
        match leb_dec(s.skip(1)) {
            None => None,
            Some((v, u)) => Some(((s[0] - 128) as nat + 128 * v, (u + 1) as nat)),
        }
    }
}

/// 128 raised to `k`.
pub open spec fn pow128(k: nat) -> nat
    decreases k,
{
    if k == 0 {
        1
    } else {
        128 * pow128((k - 1) as nat)
    }
}

/// Decoding inverts encoding, whatever follows the varint.
pub proof fn lemma_leb_round_trip(n: nat, rest: Seq<u8>)
    ensures
        leb_bytes(n).len() >= 1,
        leb_dec(leb_bytes(n) + rest) == Some((n, leb_bytes(n).len())),
    decreases n,
{
    let e = leb_bytes(n);
    if n < 128 {
        assert((e + rest)[0] == n as u8);
        assert(leb_dec(e + rest) == Some((n, 1nat)));
    } else {
        lemma_leb_round_trip(n / 128, rest);
        let b = (n % 128 + 128) as u8;
        assert((e + rest)[0] == b);
        assert((e + rest).skip(1) =~= leb_bytes(n / 128) + rest);
        vstd::arithmetic::div_mod::lemma_fundamental_div_mod(n as int, 128);
        assert((b - 128) as nat + 128 * (n / 128) == n);
    }
}

/// Append the LEB128 encoding of `val` to `out`.
pub fn leb_write(out: &mut Vec<u8>, val: u64)
    ensures
        final(out)@ == old(out)@ + leb_bytes(val as nat),
{
    let mut v: u64 = val;
    while v >= 128
        invariant
            old(out)@ + leb_bytes(val as nat) == out@ + leb_bytes(v as nat),
        decreases v,
    {
        let b: u8 = ((v % 128) + 128) as u8;
        proof {
            assert(leb_bytes(v as nat) == seq![b] + leb_bytes((v / 128) as nat));
            assert(out@.push(b) + leb_bytes((v / 128) as nat) =~= out@ + (seq![b] + leb_bytes(
                (v / 128) as nat,
            )));
        }
        out.push(b);
        v = v / 128;
    }
    proof {
        assert(leb_bytes(v as nat) == seq![v as u8]);
        assert(out@.push(v as u8) =~= out@ + leb_bytes(v as nat));
    }
    out.push(v as u8);
}

/// Read a LEB128 varint from `buf` at `pos`.
///
/// Returns the value and the position just past the varint. Fails with
/// `UnexpectedEof` exactly when the buffer ends inside the varint, and with
/// `CountOverflow` exactly when the encoded value does not fit in a `u64`.
pub fn leb_read(buf: &[u8], pos: usize) -> (r: Result<(u64, usize), DeserializeError>)
    requires
        pos <= buf@.len(),
    ensures
        match r {
            Ok((v, newpos)) => {
                &&& leb_dec(buf@.skip(pos as int)) == Some((v as nat, (newpos - pos) as nat))
                &&& pos < newpos <= buf@.len()
            },
            Err(DeserializeError::UnexpectedEof) => leb_dec(buf@.skip(pos as int)) is None,
            Err(DeserializeError::CountOverflow) => {
                &&& leb_dec(buf@.skip(pos as int)) is Some
                &&& leb_dec(buf@.skip(pos as int)).unwrap().0 > u64::MAX
            },
            Err(_) => false,
        },
{
    let ghost whole = buf@.skip(pos as int);
    let mut p: usize = pos;
    let mut v: u64 = 0;
    let mut mult: u64 = 1;
    let mut mult_over: bool = false;
    let mut too_big: bool = false;
    let ghost mut acc: nat = 0nat;
    proof {
        assert(pow128(0nat) == 1);
        match leb_dec(whole) {
            None => {},
            Some((vv, uu)) => {
                assert((0 + pow128(0nat) * vv) as nat == vv);
            },
        }
    }
    loop
        invariant
            pos <= p <= buf@.len(),
            whole == buf@.skip(pos as int),
            leb_dec(whole) == match leb_dec(buf@.skip(p as int)) {
                None => None::<(nat, nat)>,
                Some((vv, uu)) => Some(
                    ((acc + pow128((p - pos) as nat) * vv) as nat, ((p - pos) as nat + uu) as nat),
                ),
            },
            !mult_over ==> mult as nat == pow128((p - pos) as nat) && acc < mult as nat,
            mult_over ==> pow128((p - pos) as nat) > u64::MAX,
            !too_big ==> acc == v as nat,
            too_big ==> acc > u64::MAX,
        decreases buf@.len() - p,
    {
        let ghost pw = pow128((p - pos) as nat);
        proof {
            assert(pw >= 1) by {
                lemma_pow128_pos((p - pos) as nat);
            }
        }
        if p >= buf.len() {
            assert(buf@.skip(p as int).len() == 0);
            return Err(DeserializeError::UnexpectedEof);
        }
        let b: u8 = buf[p];
        let low: u8 = b % 128;
        proof {
            assert(buf@.skip(p as int)[0] == b);
            assert(buf@.skip(p as int).skip(1) =~= buf@.skip(p as int + 1));
        }
        // Fold this byte's seven value bits into the running value. The ghost
        // accumulator takes the exact mathematical contribution; the machine
        // value follows it only while it still fits.
        let ghost pre = acc;
        proof {
            acc = acc + low as nat * pw;
            if low == 0 {
                assert(low as nat * pw == 0) by (nonlinear_arith)
                    requires low as nat == 0;
            }
        }
        if low > 0 && !too_big {
            if mult_over {
                too_big = true;
                proof {
                    assert(low as nat * pw >= pw) by (nonlinear_arith)
                        requires pw >= 1 && low as nat >= 1;
                }
            } else {
                let room: u64 = (u64::MAX - v) / mult;
                if low as u64 <= room {
                    proof {
                        assert(low as int * mult as int <= (u64::MAX - v) as int)
                            by (nonlinear_arith)
                            requires
                                mult as int >= 1,
                                low as int <= (u64::MAX - v) as int / mult as int,
                        ;
                    }
                    v = v + (low as u64) * mult;
                } else {
                    too_big = true;
                    proof {
                        assert(low as int * mult as int > (u64::MAX - v) as int)
                            by (nonlinear_arith)
                            requires
                                mult as int >= 1,
                                low as int > (u64::MAX - v) as int / mult as int,
                        ;
                    }
                }
            }
        }
        if b < 128 {
            // Terminating byte: the value at `p` is just `b`.
            proof {
                assert(leb_dec(buf@.skip(p as int)) == Some((b as nat, 1nat)));
                assert(pre + pw * (b as nat) == acc) by (nonlinear_arith)
                    requires acc == pre + (b as nat) * pw;
            }
            if too_big {
                return Err(DeserializeError::CountOverflow);
            }
            return Ok((v, p + 1));
        }
        // Continuation byte: what starts at `p` is `low + 128 *` what starts
        // at `p + 1`.
        proof {
            assert(b as nat - 128 == low as nat);
            let tail = leb_dec(buf@.skip(p as int + 1));
            match tail {
                None => {
                    assert(leb_dec(buf@.skip(p as int)) is None);
                }
                Some((vv, uu)) => {
                    assert(leb_dec(buf@.skip(p as int)) == Some(
                        ((low as nat + 128 * vv) as nat, (uu + 1) as nat),
                    ));
                    assert(pre + pw * (low as nat + 128 * vv) == acc + (pw * 128) * vv)
                        by (nonlinear_arith)
                        requires acc == pre + low as nat * pw;
                }
            }
            assert(pow128((p + 1 - pos) as nat) == 128 * pw);
            assert(128 * pw == pw * 128) by (nonlinear_arith);
        }
        if !mult_over {
            proof {
                assert(acc < 128 * (mult as nat)) by (nonlinear_arith)
                    requires
                        acc == pre + low as nat * (mult as nat),
                        pre < mult as nat,
                        low as nat <= 127,
                ;
            }
            if mult <= u64::MAX / 128 {
                proof {
                    assert(mult as int * 128 <= u64::MAX) by (nonlinear_arith)
                        requires mult as int <= u64::MAX as int / 128;
                }
                mult = mult * 128;
            } else {
                mult_over = true;
                proof {
                    assert(mult as int * 128 > u64::MAX) by (nonlinear_arith)
                        requires mult as int > u64::MAX as int / 128;
                    assert(128 * pw > u64::MAX);
                }
            }
        } else {
            proof {
                assert(128 * pw >= pw) by (nonlinear_arith) requires pw >= 0;
            }
        }
        p = p + 1;
    }
}

/// A decoded varint occupies at least one byte and at most the whole input.
pub proof fn lemma_leb_dec_len(s: Seq<u8>)
    ensures
        match leb_dec(s) {
            Some((v, u)) => 1 <= u <= s.len(),
            None => true,
        },
    decreases s.len(),
{
    if s.len() > 0 && s[0] >= 128 {
        lemma_leb_dec_len(s.skip(1));
    }
}

/// `pow128` is positive.
pub proof fn lemma_pow128_pos(k: nat)
    ensures
        pow128(k) >= 1,
    decreases k,
{
    if k > 0 {
        lemma_pow128_pos((k - 1) as nat);
        assert(128 * pow128((k - 1) as nat) >= pow128((k - 1) as nat)) by (nonlinear_arith)
            requires pow128((k - 1) as nat) >= 0;
    }
}


/// [`leb_dec`] with absolute positions: the value at `pos` in `buf` and the
/// position just past it.
pub open spec fn leb_at(buf: Seq<u8>, pos: nat) -> Option<(nat, nat)> {
    match leb_dec(buf.skip(pos as int)) {
        None => None,
        Some((v, u)) => Some((v, pos + u)),
    }
}

/// Where a varint was written, [`leb_at`] finds its value.
pub proof fn lemma_leb_at(buf: Seq<u8>, pos: nat, v: nat)
    requires
        pos + leb_bytes(v).len() <= buf.len(),
        buf.subrange(pos as int, pos as int + leb_bytes(v).len() as int) == leb_bytes(v),
    ensures
        leb_at(buf, pos) == Some((v, pos + leb_bytes(v).len())),
{
    let e = leb_bytes(v);
    let rest = buf.skip(pos as int + e.len() as int);
    assert(buf.skip(pos as int) =~= e + rest);
    lemma_leb_round_trip(v, rest);
}


/// A varint written at `c` reads back, and the cursor lands on what follows.
pub proof fn lemma_leb_seq_at(buf: Seq<u8>, c: nat, v: nat, rest: Seq<u8>)
    requires
        buf.skip(c as int) == leb_bytes(v) + rest,
        c <= buf.len(),
    ensures
        leb_at(buf, c) == Some((v, c + leb_bytes(v).len())),
        buf.skip((c + leb_bytes(v).len()) as int) == rest,
{
    let e = leb_bytes(v);
    lemma_leb_round_trip(v, rest);
    assert(buf.skip((c + e.len()) as int) =~= rest) by {
        assert(buf.skip(c as int).len() == buf.len() - c);
        assert forall|m: int| 0 <= m < rest.len() implies buf.skip((c + e.len()) as int)[m]
            == rest[m] by {
            assert(buf.skip(c as int)[e.len() + m] == (e + rest)[e.len() + m]);
        }
    }
}

} // verus!


