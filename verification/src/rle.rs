//! Run-length encoding for pixel data.
//!
//! A slice's contents are written as alternating runs and literals:
//!
//! - a *run* is a count followed by one value, and stands for that many
//!   repetitions of the value;
//! - a *literal* is a count followed by that many values, written out as they
//!   are.
//!
//! The stream is either empty or starts with a run, and runs and literals then
//! alternate strictly; a literal's count may be zero. The encoder switches
//! from a literal back to a run as soon as it sees four equal values in a
//! row — a fixed threshold, simple rather than optimal.
//!
//! The same scheme serves two element types. Byte streams store counts as
//! LEB128 varints; 32-bit-word streams store each count as one word, which
//! keeps the stream word-aligned provided it starts aligned.

use vstd::prelude::*;
use crate::leb;
use crate::serialize::DeserializeError;

verus! {

/// An element type that the run-length codec can carry: it knows how counts
/// are written in a stream of itself.
pub trait RleElem: Sized + Copy {
    /// An upper bound up to which the count encoding is exact. Byte streams
    /// count in LEB128, which carries any length a platform slice can have;
    /// word streams store the count as one word, which caps it.
    spec fn max_count() -> nat;

    /// The encoding of the count `n` as elements.
    spec fn count_enc(n: nat) -> Seq<Self>;

    /// What a count decoder finds at the front of `s`: the count and how many
    /// elements it occupies, or nothing if `s` ends inside the count.
    spec fn count_dec(s: Seq<Self>) -> Option<(nat, nat)>;

    /// Count decoding inverts count encoding, whatever follows.
    proof fn lemma_count_round_trip(n: nat, rest: Seq<Self>)
        requires
            n <= Self::max_count(),
        ensures
            Self::count_enc(n).len() >= 1,
            Self::count_dec(Self::count_enc(n) + rest) == Some((n, Self::count_enc(n).len())),
    ;

    /// A decoded count occupies at least one element and at most the input.
    proof fn lemma_count_dec_len(s: Seq<Self>)
        ensures
            match Self::count_dec(s) {
                Some((v, u)) => 1 <= u <= s.len(),
                None => true,
            },
    ;

    /// Element equality, usable from executable code.
    fn elem_eq(a: &Self, b: &Self) -> (r: bool)
        ensures
            r == (*a == *b),
    ;

    /// Append the encoding of the count `n` to `out`.
    fn write_count(out: &mut Vec<Self>, n: usize)
        requires
            n <= Self::max_count(),
        ensures
            final(out)@ == old(out)@ + Self::count_enc(n as nat),
    ;

    /// Read one count from `buf` at `pos`.
    fn read_count(buf: &[Self], pos: usize) -> (r: Result<(usize, usize), DeserializeError>)
        requires
            pos <= buf@.len(),
        ensures
            match r {
                Ok((n, newpos)) => {
                    &&& Self::count_dec(buf@.skip(pos as int)) == Some(
                        (n as nat, (newpos - pos) as nat),
                    )
                    &&& pos < newpos <= buf@.len()
                },
                Err(e) => match Self::count_dec(buf@.skip(pos as int)) {
                    None => e == DeserializeError::UnexpectedEof,
                    Some((v, u)) => v > usize::MAX && e == DeserializeError::CountOverflow,
                },
            },
    ;
}

impl RleElem for u8 {
    open spec fn max_count() -> nat {
        usize::MAX as nat
    }

    open spec fn count_enc(n: nat) -> Seq<u8> {
        leb::leb_bytes(n)
    }

    open spec fn count_dec(s: Seq<u8>) -> Option<(nat, nat)> {
        leb::leb_dec(s)
    }

    proof fn lemma_count_round_trip(n: nat, rest: Seq<u8>) {
        leb::lemma_leb_round_trip(n, rest);
    }

    proof fn lemma_count_dec_len(s: Seq<u8>) {
        leb::lemma_leb_dec_len(s);
    }

    fn elem_eq(a: &u8, b: &u8) -> (r: bool) {
        *a == *b
    }

    fn write_count(out: &mut Vec<u8>, n: usize) {
        leb::leb_write(out, n as u64);
    }

    fn read_count(buf: &[u8], pos: usize) -> (r: Result<(usize, usize), DeserializeError>) {
        match leb::leb_read(buf, pos) {
            Ok((v, newpos)) => {
                if v <= usize::MAX as u64 {
                    Ok((v as usize, newpos))
                } else {
                    Err(DeserializeError::CountOverflow)
                }
            },
            Err(e) => Err(e),
        }
    }
}

impl RleElem for u32 {
    open spec fn max_count() -> nat {
        u32::MAX as nat
    }

    open spec fn count_enc(n: nat) -> Seq<u32> {
        seq![n as u32]
    }

    open spec fn count_dec(s: Seq<u32>) -> Option<(nat, nat)> {
        if s.len() == 0 {
            None
        } else {
            Some((s[0] as nat, 1nat))
        }
    }

    proof fn lemma_count_round_trip(n: nat, rest: Seq<u32>) {
        assert((seq![n as u32] + rest)[0] == n as u32);
    }

    proof fn lemma_count_dec_len(s: Seq<u32>) {
    }

    fn elem_eq(a: &u32, b: &u32) -> (r: bool) {
        *a == *b
    }

    fn write_count(out: &mut Vec<u32>, n: usize) {
        out.push(n as u32);
        assert(out@ =~= old(out)@ + seq![n as u32]);
    }

    fn read_count(buf: &[u32], pos: usize) -> (r: Result<(usize, usize), DeserializeError>) {
        if pos < buf.len() {
            let w: u32 = buf[pos];
            assert(buf@.skip(pos as int)[0] == w);
            Ok((w as usize, pos + 1))
        } else {
            assert(buf@.skip(pos as int).len() == 0);
            Err(DeserializeError::UnexpectedEof)
        }
    }
}

/// The length of the run of equal elements that starts at `i`.
pub open spec fn run_len_at<T>(data: Seq<T>, i: int) -> nat
    decreases data.len() - i,
{
    if 0 <= i && i + 1 < data.len() && data[i + 1] == data[i] {
        (1 + run_len_at(data, i + 1)) as nat
    } else {
        1nat
    }
}

/// Whether four equal elements stand at `k`: the encoder's threshold for
/// ending a literal.
pub open spec fn is_run4_at<T>(data: Seq<T>, k: int) -> bool {
    &&& 0 <= k
    &&& k + 4 <= data.len()
    &&& data[k + 1] == data[k]
    &&& data[k + 2] == data[k]
    &&& data[k + 3] == data[k]
}

/// How many elements the literal starting at `j` covers: everything up to the
/// next four-in-a-row, or to the end of the data if there is none.
pub open spec fn literal_len_from<T>(data: Seq<T>, j: int) -> nat
    decreases data.len() - j,
{
    if j + 4 > data.len() {
        if 0 <= j <= data.len() {
            (data.len() - j) as nat
        } else {
            0nat
        }
    } else if is_run4_at(data, j) {
        0nat
    } else {
        (1 + literal_len_from(data, j + 1)) as nat
    }
}

/// The run-length encoding of `data` from position `i` on, where `i` starts a
/// run.
pub open spec fn rle_encode_from<T: RleElem>(data: Seq<T>, i: int) -> Seq<T>
    decreases data.len() - i,
{
    if !(0 <= i < data.len()) {
        Seq::empty()
    } else {
        let r = run_len_at(data, i);
        let j = i + r;
        let run_part = T::count_enc(r) + seq![data[i]];
        if j >= data.len() {
            run_part
        } else {
            let lit = literal_len_from(data, j);
            let k = j + lit;
            let lit_part = T::count_enc(lit) + data.subrange(j, k);
            run_part + lit_part + if k < data.len() {
                rle_encode_from(data, k)
            } else {
                Seq::empty()
            }
        }
    }
}

/// The run-length encoding of `data`.
pub open spec fn rle_encode<T: RleElem>(data: Seq<T>) -> Seq<T> {
    rle_encode_from(data, 0)
}

/// What decoding an alternating run/literal stream yields, or nothing if the
/// stream is malformed: truncated, or holding a run count this platform
/// cannot materialize.
pub open spec fn rle_decode<T: RleElem>(enc: Seq<T>) -> Option<Seq<T>>
    decreases enc.len(),
{
    if enc.len() == 0 {
        Some(Seq::empty())
    } else {
        match T::count_dec(enc) {
            None => None,
            Some((rn, used)) => {
                if !(1 <= used && used < enc.len() && rn <= usize::MAX) {
                    None
                } else {
                    let value = enc[used as int];
                    let run = Seq::new(rn, |m: int| value);
                    let rest1 = enc.skip(used as int + 1);
                    if rest1.len() == 0 {
                        Some(run)
                    } else {
                        match T::count_dec(rest1) {
                            None => None,
                            Some((ln, used2)) => {
                                if !(1 <= used2 && used2 + ln <= rest1.len()) {
                                    None
                                } else {
                                    let lit = rest1.subrange(
                                        used2 as int,
                                        used2 as int + ln as int,
                                    );
                                    let rest2 = rest1.skip(used2 as int + ln as int);
                                    match rle_decode::<T>(rest2) {
                                        None => None,
                                        Some(tail) => Some(run + lit + tail),
                                    }
                                }
                            },
                        }
                    }
                }
            },
        }
    }
}

/// The run at `i` is non-empty, stays inside the data, consists of elements
/// equal to `data[i]`, and is maximal.
pub proof fn lemma_run_len<T>(data: Seq<T>, i: int)
    requires
        0 <= i < data.len(),
    ensures
        1 <= run_len_at(data, i) <= data.len() - i,
        forall|m: int| i <= m < i + run_len_at(data, i) ==> data[m] == data[i],
        i + run_len_at(data, i) < data.len() ==> data[i + run_len_at(data, i)] != data[i],
    decreases data.len() - i,
{
    if i + 1 < data.len() && data[i + 1] == data[i] {
        lemma_run_len(data, i + 1);
    }
}

/// Exactly `r` equal elements stand at `i`: the characterization the encoder
/// loop establishes.
pub proof fn lemma_run_len_char<T>(data: Seq<T>, i: int, r: int)
    requires
        0 <= i < data.len(),
        1 <= r,
        i + r <= data.len(),
        forall|m: int| i <= m < i + r ==> data[m] == data[i],
        i + r < data.len() ==> data[i + r] != data[i],
    ensures
        run_len_at(data, i) == r,
    decreases data.len() - i,
{
    if r == 1 {
        if i + 1 < data.len() {
            assert(data[i + 1] != data[i]);
        }
    } else {
        assert(data[i + 1] == data[i]);
        assert forall|m: int| i + 1 <= m < i + 1 + (r - 1) implies #[trigger] data[m] == data[i
            + 1] by {
            assert(data[m] == data[i]);
        }
        lemma_run_len_char(data, i + 1, r - 1);
    }
}

/// The literal starting at `j` stays inside the data, ends at the next
/// four-in-a-row if there is one, and contains none itself.
pub proof fn lemma_literal_len<T>(data: Seq<T>, j: int)
    requires
        0 <= j <= data.len(),
    ensures
        j + literal_len_from(data, j) <= data.len(),
        j + literal_len_from(data, j) < data.len() ==> is_run4_at(
            data,
            j + literal_len_from(data, j),
        ),
        forall|k: int| j <= k < j + literal_len_from(data, j) ==> !is_run4_at(data, k),
    decreases data.len() - j,
{
    if j + 4 > data.len() {
        assert forall|k: int| j <= k < j + literal_len_from(data, j) implies !is_run4_at(
            data,
            k,
        ) by {
            assert(k + 4 > data.len());
        }
    } else if is_run4_at(data, j) {
    } else {
        lemma_literal_len(data, j + 1);
    }
}

/// Decoding inverts encoding, from any run start `i`.
proof fn lemma_rle_round_trip_from<T: RleElem>(data: Seq<T>, i: int)
    requires
        0 <= i <= data.len(),
        data.len() <= T::max_count(),
        data.len() <= usize::MAX,
    ensures
        rle_decode::<T>(rle_encode_from(data, i)) == Some(data.skip(i)),
    decreases data.len() - i,
{
    if i == data.len() {
        assert(rle_encode_from(data, i) =~= Seq::<T>::empty());
        assert(data.skip(i) =~= Seq::<T>::empty());
    } else {
        lemma_run_len(data, i);
        let r = run_len_at(data, i);
        let j = i + r;
        let v = data[i];
        let run = Seq::new(r, |m: int| v);
        assert(run =~= data.subrange(i, j));
        if j >= data.len() {
            let enc = rle_encode_from(data, i);
            let rest = seq![v];
            assert(enc =~= T::count_enc(r) + rest);
            T::lemma_count_round_trip(r, rest);
            let used = T::count_enc(r).len() as int;
            assert(enc[used] == v);
            assert(enc.skip(used + 1) =~= Seq::<T>::empty());
            assert(rle_decode::<T>(enc) == Some(run));
            assert(run =~= data.skip(i));
        } else {
            lemma_literal_len(data, j);
            let lit_n = literal_len_from(data, j);
            let k = j + lit_n;
            let lit = data.subrange(j, k);
            let tail_enc = if k < data.len() {
                rle_encode_from(data, k)
            } else {
                Seq::<T>::empty()
            };
            let enc = rle_encode_from(data, i);
            let rest = seq![v] + T::count_enc(lit_n) + lit + tail_enc;
            assert(enc =~= T::count_enc(r) + rest);
            T::lemma_count_round_trip(r, rest);
            let used = T::count_enc(r).len() as int;
            assert(enc[used] == v);
            let rest1 = enc.skip(used + 1);
            assert(rest1 =~= T::count_enc(lit_n) + (lit + tail_enc));
            T::lemma_count_round_trip(lit_n, lit + tail_enc);
            let used2 = T::count_enc(lit_n).len() as int;
            assert(rest1.len() > 0);
            assert(rest1.subrange(used2, used2 + lit_n as int) =~= lit);
            let rest2 = rest1.skip(used2 + lit_n as int);
            assert(rest2 =~= tail_enc);
            if k < data.len() {
                lemma_rle_round_trip_from(data, k);
                assert(rle_decode::<T>(tail_enc) == Some(data.skip(k)));
                assert(run + lit + data.skip(k) =~= data.skip(i));
            } else {
                assert(rle_decode::<T>(tail_enc) == Some(Seq::<T>::empty()));
                assert(run + lit + Seq::<T>::empty() =~= data.skip(i));
            }
        }
    }
}

/// The run-length round trip: decoding the encoding of any data the platform
/// can hold reproduces the data exactly.
pub proof fn lemma_rle_round_trip<T: RleElem>(data: Seq<T>)
    requires
        data.len() <= T::max_count(),
        data.len() <= usize::MAX,
    ensures
        rle_decode::<T>(rle_encode(data)) == Some(data),
{
    lemma_rle_round_trip_from(data, 0);
    assert(data.skip(0) =~= data);
}


/// Write `data` with run-length encoding, appending to `out`.
///
/// Appends exactly the alternating run/literal stream `rle_encode(data@)`:
/// nothing when `data` is empty, else a run first, then literals and runs in
/// strict alternation, switching back to a run at each four-in-a-row.
pub fn write_general<T: RleElem>(out: &mut Vec<T>, data: &[T])
    requires
        data@.len() <= T::max_count(),
    ensures
        final(out)@ == old(out)@ + rle_encode(data@),
{
    let len: usize = data.len();
    if len == 0 {
        assert(rle_encode(data@) =~= Seq::<T>::empty());
        assert(out@ =~= old(out)@ + rle_encode(data@));
        return ;
    }
    let mut i: usize = 0;
    loop
        invariant
            0 <= i < len,
            len == data@.len() <= T::max_count(),
            out@ + rle_encode_from(data@, i as int) == old(out)@ + rle_encode(data@),
        decreases len - i,
    {
        // Extend the run at `i` as far as it goes.
        let mut r: usize = 1;
        while i + r < len && T::elem_eq(&data[i + r], &data[i])
            invariant
                0 <= i < len == data@.len(),
                1 <= r,
                i + r <= len,
                forall|m: int| i <= m < i + r ==> data@[m] == data@[i as int],
            decreases len - i - r,
        {
            r = r + 1;
        }
        proof {
            lemma_run_len_char(data@, i as int, r as int);
        }
        let ghost pre = out@;
        T::write_count(out, r);
        out.push(data[i]);
        let j: usize = i + r;
        if j == len {
            proof {
                assert(rle_encode_from(data@, i as int) == T::count_enc(r as nat) + seq![
                    data@[i as int],
                ]);
                assert(out@ =~= pre + rle_encode_from(data@, i as int));
            }
            return ;
        }
        // Find where the next worthwhile run starts: the first four-in-a-row.
        let mut k: usize = j;
        loop
            invariant
                j <= k <= len,
                len == data@.len(),
                literal_len_from(data@, j as int) == k - j + literal_len_from(data@, k as int),
            ensures
                j <= k <= len,
                literal_len_from(data@, j as int) == k - j,
                k < len ==> is_run4_at(data@, k as int),
            decreases len - k,
        {
            if len - k < 4 {
                proof {
                    assert(literal_len_from(data@, k as int) == len - k);
                }
                k = len;
                break ;
            }
            if T::elem_eq(&data[k + 1], &data[k]) && T::elem_eq(&data[k + 2], &data[k])
                && T::elem_eq(&data[k + 3], &data[k]) {
                assert(is_run4_at(data@, k as int));
                assert(literal_len_from(data@, k as int) == 0);
                break ;
            }
            assert(!is_run4_at(data@, k as int));
            k = k + 1;
        }
        // Emit everything scanned, except the four-in-a-row, as one literal.
        T::write_count(out, k - j);
        let mut m: usize = j;
        while m < k
            invariant
                j <= m <= k <= len == data@.len(),
                out@ == pre + T::count_enc(r as nat) + seq![data@[i as int]] + T::count_enc(
                    (k - j) as nat,
                ) + data@.subrange(j as int, m as int),
            decreases k - m,
        {
            let ghost before = out@;
            out.push(data[m]);
            proof {
                assert(data@.subrange(j as int, m + 1) =~= data@.subrange(j as int, m as int)
                    + seq![data@[m as int]]);
                assert(out@ =~= before + seq![data@[m as int]]);
            }
            m = m + 1;
        }
        proof {
            let chunk = T::count_enc(r as nat) + seq![data@[i as int]] + T::count_enc(
                (k - j) as nat,
            ) + data@.subrange(j as int, k as int);
            if k < len {
                assert(rle_encode_from(data@, i as int) == chunk + rle_encode_from(
                    data@,
                    k as int,
                ));
                assert(out@ + rle_encode_from(data@, k as int) =~= pre + rle_encode_from(
                    data@,
                    i as int,
                ));
            } else {
                assert(rle_encode_from(data@, i as int) == chunk + Seq::<T>::empty());
                assert(out@ =~= pre + rle_encode_from(data@, i as int));
            }
        }
        if k == len {
            return ;
        }
        i = k;
    }
}

/// Read run-length-encoded data, expanding the whole of `buf`.
///
/// Succeeds with exactly the expansion `rle_decode(buf@)` describes, and fails
/// exactly when that is undefined: a truncated count, a truncated value, a
/// truncated literal, or a run count this platform cannot hold.
pub fn read_general<T: RleElem>(buf: &[T]) -> (r: Result<Vec<T>, DeserializeError>)
    ensures
        match r {
            Ok(v) => rle_decode::<T>(buf@) == Some(v@),
            Err(e) => rle_decode::<T>(buf@) is None,
        },
{
    let len: usize = buf.len();
    let mut out: Vec<T> = Vec::new();
    let mut pos: usize = 0;
    proof {
        match rle_decode::<T>(buf@.skip(0)) {
            None => {},
            Some(tail) => {
                assert(buf@.skip(0) =~= buf@);
                assert(Seq::<T>::empty() + tail =~= tail);
            },
        }
        assert(buf@.skip(0) =~= buf@);
    }
    loop
        invariant
            pos <= len,
            len == buf@.len(),
            match rle_decode::<T>(buf@.skip(pos as int)) {
                None => rle_decode::<T>(buf@) is None,
                Some(tail) => rle_decode::<T>(buf@) == Some(out@ + tail),
            },
        decreases len - pos,
    {
        let ghost enc = buf@.skip(pos as int);
        if pos == len {
            proof {
                assert(enc.len() == 0);
                assert(out@ + Seq::<T>::empty() =~= out@);
            }
            return Ok(out);
        }
        // Expand a run.
        let (rn, p1) = match T::read_count(buf, pos) {
            Ok(x) => x,
            Err(e) => {
                return Err(e);
            },
        };
        let ghost used = (p1 - pos) as nat;
        if p1 == len {
            proof {
                T::lemma_count_dec_len(enc);
                assert(!(used < enc.len()));
            }
            return Err(DeserializeError::UnexpectedEof);
        }
        let value: T = buf[p1];
        proof {
            assert(enc[used as int] == buf@[p1 as int]);
        }
        let ghost run = Seq::new(rn as nat, |m: int| value);
        let ghost pre = out@;
        let mut c: usize = 0;
        while c < rn
            invariant
                c <= rn,
                out@ == pre + Seq::new(c as nat, |m: int| value),
            decreases rn - c,
        {
            let ghost before = out@;
            out.push(value);
            proof {
                assert(Seq::new((c + 1) as nat, |m: int| value) =~= Seq::new(c as nat, |m: int| value)
                    + seq![value]);
                assert(out@ =~= before + seq![value]);
            }
            c = c + 1;
        }
        let p2: usize = p1 + 1;
        proof {
            assert(enc.skip(used as int + 1) =~= buf@.skip(p2 as int));
        }
        if p2 == len {
            proof {
                assert(buf@.skip(p2 as int).len() == 0);
                assert(rle_decode::<T>(enc) == Some(run));
                assert(out@ =~= pre + run);
            }
            return Ok(out);
        }
        // Expand a literal.
        let ghost rest1 = buf@.skip(p2 as int);
        let (ln, p3) = match T::read_count(buf, p2) {
            Ok(x) => x,
            Err(e) => {
                return Err(e);
            },
        };
        let ghost used2 = (p3 - p2) as nat;
        if ln > len - p3 {
            proof {
                assert(!(used2 + ln as nat <= rest1.len()));
            }
            return Err(DeserializeError::UnexpectedEof);
        }
        let p4: usize = p3 + ln;
        let ghost lit = rest1.subrange(used2 as int, used2 as int + ln as int);
        let ghost pre2 = out@;
        let mut m: usize = p3;
        while m < p4
            invariant
                p3 <= m <= p4 <= len == buf@.len(),
                out@ == pre2 + buf@.subrange(p3 as int, m as int),
            decreases p4 - m,
        {
            let ghost before = out@;
            out.push(buf[m]);
            proof {
                assert(buf@.subrange(p3 as int, m + 1) =~= buf@.subrange(p3 as int, m as int)
                    + seq![buf@[m as int]]);
                assert(out@ =~= before + seq![buf@[m as int]]);
            }
            m = m + 1;
        }
        proof {
            assert(lit =~= buf@.subrange(p3 as int, p4 as int));
            assert(rest1.skip(used2 as int + ln as int) =~= buf@.skip(p4 as int));
            assert(out@ =~= pre + run + lit);
            match rle_decode::<T>(buf@.skip(p4 as int)) {
                None => {
                    assert(rle_decode::<T>(enc) is None);
                },
                Some(tail) => {
                    assert(rle_decode::<T>(enc) == Some(run + lit + tail));
                    assert(pre + (run + lit + tail) =~= out@ + tail);
                },
            }
        }
        pos = p4;
    }
}

/// Write a slice of bytes with run-length encoding; counts are LEB128.
pub fn write_u8(out: &mut Vec<u8>, data: &[u8])
    ensures
        final(out)@ == old(out)@ + rle_encode(data@),
{
    let n: usize = data.len();
    assert(data@.len() == n <= usize::MAX);
    write_general::<u8>(out, data);
}

/// Write a slice of 32-bit words with run-length encoding; counts are single
/// words, so a word-aligned stream stays word-aligned.
pub fn write_u32(out: &mut Vec<u32>, data: &[u32])
    requires
        data@.len() <= u32::MAX,
    ensures
        final(out)@ == old(out)@ + rle_encode(data@),
{
    write_general::<u32>(out, data);
}

/// Read run-length-encoded bytes, expanding the whole of `buf`.
pub fn read_u8(buf: &[u8]) -> (r: Result<Vec<u8>, DeserializeError>)
    ensures
        match r {
            Ok(v) => rle_decode::<u8>(buf@) == Some(v@),
            Err(e) => rle_decode::<u8>(buf@) is None,
        },
{
    read_general::<u8>(buf)
}

/// Read run-length-encoded 32-bit words, expanding the whole of `buf`.
pub fn read_u32(buf: &[u32]) -> (r: Result<Vec<u32>, DeserializeError>)
    ensures
        match r {
            Ok(v) => rle_decode::<u32>(buf@) == Some(v@),
            Err(e) => rle_decode::<u32>(buf@) is None,
        },
{
    read_general::<u32>(buf)
}

} // verus!

