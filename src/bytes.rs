//! Fixed-width little-endian integers, written and read through borsh.

use borsh::{BorshDeserialize, BorshSerialize};
use vstd::prelude::*;

verus! {

/// Why a decode, a lookup or a reconstruction failed.
#[derive(Debug, Clone, Copy, PartialEq, Eq, Structural)]
pub enum CacheError {
    /// The buffer ends in the middle of a field.
    TruncatedInput,
    /// A discriminant byte names no known variant.
    UnknownVariant,
    /// No offset index entry governs the queried offset.
    OffsetNotCovered,
    /// A diff reference is out of range or does not point strictly backwards.
    DiffChainCorrupt,
    /// A recorded size disagrees with the content.
    SizeMismatch,
    /// The exception table holds no entry for the offset.
    ExceptionLookupMiss,
    /// Map entries are not in strictly ascending key order.
    UnorderedKeys,
    /// A stored integer does not fit in `usize` on this machine.
    ValueTooLarge,
}

/// The eight little-endian bytes of `x`.
pub open spec fn le_u64(x: u64) -> Seq<u8> {
    seq![
        (x & 0xff) as u8,
        ((x >> 8u64) & 0xff) as u8,
        ((x >> 16u64) & 0xff) as u8,
        ((x >> 24u64) & 0xff) as u8,
        ((x >> 32u64) & 0xff) as u8,
        ((x >> 40u64) & 0xff) as u8,
        ((x >> 48u64) & 0xff) as u8,
        ((x >> 56u64) & 0xff) as u8,
    ]
}

/// The four little-endian bytes of `x`.
pub open spec fn le_u32(x: u32) -> Seq<u8> {
    seq![
        (x & 0xff) as u8,
        ((x >> 8u32) & 0xff) as u8,
        ((x >> 16u32) & 0xff) as u8,
        ((x >> 24u32) & 0xff) as u8,
    ]
}

/// The integer whose little-endian bytes are the first four of `b`.
pub open spec fn u32_of(b: Seq<u8>) -> u32 {
    (b[0] as u32) | ((b[1] as u32) << 8u32) | ((b[2] as u32) << 16u32) | ((b[3] as u32) << 24u32)
}

/// The stored form of a count: a `u32`.
pub open spec fn le_count(n: usize) -> Seq<u8> {
    le_u32(n as u32)
}

/// Reads a count at the front of `s`.
pub open spec fn parse_count(s: Seq<u8>) -> Result<(usize, nat), CacheError> {
    if s.len() < 4 {
        Err(CacheError::TruncatedInput)
    } else {
        Ok((u32_of(s) as usize, 4))
    }
}

/// The integer whose little-endian bytes are the first eight of `b`.
pub open spec fn u64_of(b: Seq<u8>) -> u64 {
    (b[0] as u64) | ((b[1] as u64) << 8u64) | ((b[2] as u64) << 16u64) | ((b[3] as u64)
        << 24u64) | ((b[4] as u64) << 32u64) | ((b[5] as u64) << 40u64) | ((b[6] as u64)
        << 48u64) | ((b[7] as u64) << 56u64)
}

/// The four little-endian bytes of `x` in two's complement.
pub open spec fn le_i32(x: i32) -> Seq<u8> {
    let u = x as u32;
    seq![
        (u & 0xff) as u8,
        ((u >> 8u32) & 0xff) as u8,
        ((u >> 16u32) & 0xff) as u8,
        ((u >> 24u32) & 0xff) as u8,
    ]
}

/// The integer whose two's-complement little-endian bytes are the first four of `b`.
pub open spec fn i32_of(b: Seq<u8>) -> i32 {
    ((b[0] as u32) | ((b[1] as u32) << 8u32) | ((b[2] as u32) << 16u32) | ((b[3] as u32)
        << 24u32)) as i32
}

/// Reads a `u64` at the front of `s`.
pub open spec fn parse_u64(s: Seq<u8>) -> Result<(u64, nat), CacheError> {
    if s.len() < 8 {
        Err(CacheError::TruncatedInput)
    } else {
        Ok((u64_of(s), 8))
    }
}

/// Reads a `usize`, stored as a `u64`, at the front of `s`.
pub open spec fn parse_usize(s: Seq<u8>) -> Result<(usize, nat), CacheError> {
    if s.len() < 8 {
        Err(CacheError::TruncatedInput)
    } else if u64_of(s) > usize::MAX {
        Err(CacheError::ValueTooLarge)
    } else {
        Ok((u64_of(s) as usize, 8))
    }
}

/// The stored form of a `usize`.
pub open spec fn le_usize(x: usize) -> Seq<u8> {
    le_u64(x as u64)
}

/// Reads an `i32` at the front of `s`.
pub open spec fn parse_i32(s: Seq<u8>) -> Result<(i32, nat), CacheError> {
    if s.len() < 4 {
        Err(CacheError::TruncatedInput)
    } else {
        Ok((i32_of(s), 4))
    }
}

/// Reads one discriminant byte at the front of `s`.
pub open spec fn parse_tag(s: Seq<u8>) -> Result<(u8, nat), CacheError> {
    if s.len() < 1 {
        Err(CacheError::TruncatedInput)
    } else {
        Ok((s[0], 1))
    }
}

/// What follows position `pos` of `b`.
pub open spec fn rest(b: Seq<u8>, pos: int) -> Seq<u8> {
    b.subrange(pos, b.len() as int)
}

pub proof fn lemma_u64_round_trip(x: u64, tail: Seq<u8>)
    ensures
        u64_of(le_u64(x) + tail) == x,
{
    let b = le_u64(x) + tail;
    let b0 = b[0];
    let b1 = b[1];
    let b2 = b[2];
    let b3 = b[3];
    let b4 = b[4];
    let b5 = b[5];
    let b6 = b[6];
    let b7 = b[7];
    assert(b0 == (x & 0xff) as u8);
    assert(b7 == ((x >> 56u64) & 0xff) as u8);
    assert((b0 as u64) | ((b1 as u64) << 8u64) | ((b2 as u64) << 16u64) | ((b3 as u64) << 24u64)
        | ((b4 as u64) << 32u64) | ((b5 as u64) << 40u64) | ((b6 as u64) << 48u64) | ((b7 as u64)
        << 56u64) == x) by (bit_vector)
        requires
            b0 == (x & 0xff) as u8,
            b1 == ((x >> 8u64) & 0xff) as u8,
            b2 == ((x >> 16u64) & 0xff) as u8,
            b3 == ((x >> 24u64) & 0xff) as u8,
            b4 == ((x >> 32u64) & 0xff) as u8,
            b5 == ((x >> 40u64) & 0xff) as u8,
            b6 == ((x >> 48u64) & 0xff) as u8,
            b7 == ((x >> 56u64) & 0xff) as u8,
    ;
}

pub proof fn lemma_u32_round_trip(x: u32, tail: Seq<u8>)
    ensures
        u32_of(le_u32(x) + tail) == x,
{
    let b = le_u32(x) + tail;
    let b0 = b[0];
    let b1 = b[1];
    let b2 = b[2];
    let b3 = b[3];
    assert(b3 == ((x >> 24u32) & 0xff) as u8);
    assert((b0 as u32) | ((b1 as u32) << 8u32) | ((b2 as u32) << 16u32) | ((b3 as u32) << 24u32)
        == x) by (bit_vector)
        requires
            b0 == (x & 0xff) as u8,
            b1 == ((x >> 8u32) & 0xff) as u8,
            b2 == ((x >> 16u32) & 0xff) as u8,
            b3 == ((x >> 24u32) & 0xff) as u8,
    ;
}

pub proof fn lemma_count_round_trip(n: usize, tail: Seq<u8>)
    requires
        n <= u32::MAX,
    ensures
        parse_count(le_count(n) + tail) == Ok::<(usize, nat), CacheError>((n, 4)),
{
    lemma_u32_round_trip(n as u32, tail);
}

/// Relies on borsh's `BorshSerialize` for `u32`: it writes `to_le_bytes`,
/// and writing into a `Vec` does not fail.
#[verifier::external_body]
pub(crate) fn put_u32(out: &mut Vec<u8>, x: u32)
    ensures
        final(out)@ == old(out)@ + le_u32(x),
{
    let _ = BorshSerialize::serialize(&x, out);
}

/// Relies on borsh's `BorshDeserialize` for `u32`: it reads four bytes with
/// `from_le_bytes`, and fails when fewer are left.
#[verifier::external_body]
pub(crate) fn get_u32(buf: &[u8], pos: usize) -> (r: Option<u32>)
    requires
        pos <= buf@.len(),
    ensures
        r == (if buf@.len() - pos < 4 {
            None::<u32>
        } else {
            Some(u32_of(rest(buf@, pos as int)))
        }),
{
    let mut s = &buf[pos..];
    <u32 as BorshDeserialize>::deserialize(&mut s).ok()
}

/// Appends a count.
pub fn write_count(out: &mut Vec<u8>, n: usize)
    requires
        n <= u32::MAX,
    ensures
        final(out)@ == old(out)@ + le_count(n),
{
    put_u32(out, n as u32);
}

/// Reads a count at `pos`, returning it with the position after it.
pub fn read_count(buf: &[u8], pos: usize) -> (r: Result<(usize, usize), CacheError>)
    requires
        pos <= buf@.len(),
    ensures
        match parse_count(rest(buf@, pos as int)) {
            Ok((v, n)) => r matches Ok((x, p)) && x == v && p == pos + n,
            Err(e) => r == Err::<(usize, usize), CacheError>(e),
        },
{
    proof {
        assert(buf.len() == buf@.len());
    }
    match get_u32(buf, pos) {
        Some(v) => Ok((v as usize, pos + 4)),
        None => Err(CacheError::TruncatedInput),
    }
}

pub proof fn lemma_i32_round_trip(x: i32, tail: Seq<u8>)
    ensures
        i32_of(le_i32(x) + tail) == x,
{
    let b = le_i32(x) + tail;
    let u = x as u32;
    let b0 = b[0];
    let b1 = b[1];
    let b2 = b[2];
    let b3 = b[3];
    assert(b3 == ((u >> 24u32) & 0xff) as u8);
    assert((b0 as u32) | ((b1 as u32) << 8u32) | ((b2 as u32) << 16u32) | ((b3 as u32) << 24u32)
        == u) by (bit_vector)
        requires
            b0 == (u & 0xff) as u8,
            b1 == ((u >> 8u32) & 0xff) as u8,
            b2 == ((u >> 16u32) & 0xff) as u8,
            b3 == ((u >> 24u32) & 0xff) as u8,
    ;
    assert(((x as u32) as i32) == x) by (bit_vector);
}

/// Relies on borsh's `BorshSerialize` for `u64`: it writes `to_le_bytes`,
/// and writing into a `Vec` does not fail.
#[verifier::external_body]
pub(crate) fn put_u64(out: &mut Vec<u8>, x: u64)
    ensures
        final(out)@ == old(out)@ + le_u64(x),
{
    let _ = BorshSerialize::serialize(&x, out);
}

/// Relies on borsh's `BorshSerialize` for `i32`: it writes `to_le_bytes`,
/// and writing into a `Vec` does not fail.
#[verifier::external_body]
pub(crate) fn put_i32(out: &mut Vec<u8>, x: i32)
    ensures
        final(out)@ == old(out)@ + le_i32(x),
{
    let _ = BorshSerialize::serialize(&x, out);
}

/// Relies on borsh's `BorshDeserialize` for `u64`: it reads eight bytes with
/// `from_le_bytes`, and fails when fewer are left.
#[verifier::external_body]
pub(crate) fn get_u64(buf: &[u8], pos: usize) -> (r: Option<u64>)
    requires
        pos <= buf@.len(),
    ensures
        r == (if buf@.len() - pos < 8 {
            None::<u64>
        } else {
            Some(u64_of(rest(buf@, pos as int)))
        }),
{
    let mut s = &buf[pos..];
    <u64 as BorshDeserialize>::deserialize(&mut s).ok()
}

/// Relies on borsh's `BorshDeserialize` for `i32`: it reads four bytes with
/// `from_le_bytes`, and fails when fewer are left.
#[verifier::external_body]
pub(crate) fn get_i32(buf: &[u8], pos: usize) -> (r: Option<i32>)
    requires
        pos <= buf@.len(),
    ensures
        r == (if buf@.len() - pos < 4 {
            None::<i32>
        } else {
            Some(i32_of(rest(buf@, pos as int)))
        }),
{
    let mut s = &buf[pos..];
    <i32 as BorshDeserialize>::deserialize(&mut s).ok()
}

/// Reads a `u64` at `pos`, returning it with the position after it.
pub fn read_u64(buf: &[u8], pos: usize) -> (r: Result<(u64, usize), CacheError>)
    requires
        pos <= buf@.len(),
    ensures
        match parse_u64(rest(buf@, pos as int)) {
            Ok((v, n)) => r matches Ok((x, p)) && x == v && p == pos + n,
            Err(e) => r == Err::<(u64, usize), CacheError>(e),
        },
{
    proof {
        assert(buf.len() == buf@.len());
    }
    match get_u64(buf, pos) {
        Some(v) => Ok((v, pos + 8)),
        None => Err(CacheError::TruncatedInput),
    }
}

/// Reads a `usize` at `pos`, returning it with the position after it.
pub fn read_usize(buf: &[u8], pos: usize) -> (r: Result<(usize, usize), CacheError>)
    requires
        pos <= buf@.len(),
    ensures
        match parse_usize(rest(buf@, pos as int)) {
            Ok((v, n)) => r matches Ok((x, p)) && x == v && p == pos + n,
            Err(e) => r == Err::<(usize, usize), CacheError>(e),
        },
{
    proof {
        assert(buf.len() == buf@.len());
    }
    match get_u64(buf, pos) {
        Some(v) => {
            if v <= usize::MAX as u64 {
                Ok((v as usize, pos + 8))
            } else {
                Err(CacheError::ValueTooLarge)
            }
        },
        None => Err(CacheError::TruncatedInput),
    }
}

/// Appends the stored form of a `usize`.
pub fn write_usize(out: &mut Vec<u8>, x: usize)
    ensures
        final(out)@ == old(out)@ + le_usize(x),
{
    put_u64(out, x as u64);
}

pub proof fn lemma_usize_round_trip(x: usize, tail: Seq<u8>)
    ensures
        parse_usize(le_usize(x) + tail) == Ok::<(usize, nat), CacheError>((x, 8)),
{
    lemma_u64_round_trip(x as u64, tail);
}

/// The bytes of `xs`, each encoded by `enc`, one after another.
pub open spec fn list_bytes<T>(xs: Seq<T>, enc: spec_fn(T) -> Seq<u8>) -> Seq<u8>
    decreases xs.len(),
{
    if xs.len() == 0 {
        Seq::empty()
    } else {
        list_bytes(xs.drop_last(), enc) + enc(xs.last())
    }
}

/// Reads `n` items with `dec`, one after another, at the front of `s`.
pub open spec fn parse_list<T>(
    s: Seq<u8>,
    n: nat,
    dec: spec_fn(Seq<u8>) -> Result<(T, nat), CacheError>,
) -> Result<(Seq<T>, nat), CacheError>
    decreases n,
{
    if n == 0 {
        Ok((Seq::empty(), 0))
    } else {
        match parse_list(s, (n - 1) as nat, dec) {
            Ok((xs, k)) => {
                if k > s.len() {
                    Err(CacheError::TruncatedInput)
                } else {
                    match dec(s.subrange(k as int, s.len() as int)) {
                        Ok((x, m)) => Ok((xs.push(x), k + m)),
                        Err(e) => Err(e),
                    }
                }
            },
            Err(e) => Err(e),
        }
    }
}

/// A count followed by the items of `xs`.
pub open spec fn counted_bytes<T>(xs: Seq<T>, enc: spec_fn(T) -> Seq<u8>) -> Seq<u8> {
    le_count(xs.len() as usize) + list_bytes(xs, enc)
}

/// Reads a count, then that many items with `dec`.
pub open spec fn parse_counted<T>(
    s: Seq<u8>,
    dec: spec_fn(Seq<u8>) -> Result<(T, nat), CacheError>,
) -> Result<(Seq<T>, nat), CacheError> {
    match parse_count(s) {
        Ok((n, k)) => match parse_list(s.subrange(k as int, s.len() as int), n as nat, dec) {
            Ok((xs, m)) => Ok((xs, k + m)),
            Err(e) => Err(e),
        },
        Err(e) => Err(e),
    }
}

/// Items encoded one after another read back as the same items.
pub proof fn lemma_list_round_trip<T>(
    xs: Seq<T>,
    tail: Seq<u8>,
    enc: spec_fn(T) -> Seq<u8>,
    dec: spec_fn(Seq<u8>) -> Result<(T, nat), CacheError>,
)
    requires
        forall|i: int, t: Seq<u8>|
            0 <= i < xs.len() ==> #[trigger] dec(enc(xs[i]) + t) == Ok::<(T, nat), CacheError>(
                (xs[i], enc(xs[i]).len()),
            ),
    ensures
        parse_list(list_bytes(xs, enc) + tail, xs.len(), dec) == Ok::<(Seq<T>, nat), CacheError>(
            (xs, list_bytes(xs, enc).len()),
        ),
    decreases xs.len(),
{
    if xs.len() > 0 {
        let init = xs.drop_last();
        let last = xs.last();
        let s = list_bytes(xs, enc) + tail;
        let t2 = enc(last) + tail;
        assert(s =~= list_bytes(init, enc) + t2);
        assert forall|i: int, t: Seq<u8>| 0 <= i < init.len() implies #[trigger] dec(
            enc(init[i]) + t,
        ) == Ok::<(T, nat), CacheError>((init[i], enc(init[i]).len())) by {
            assert(init[i] == xs[i]);
        }
        lemma_list_round_trip(init, t2, enc, dec);
        let k = list_bytes(init, enc).len();
        assert(s.subrange(k as int, s.len() as int) =~= t2);
        assert(dec(enc(xs[xs.len() - 1]) + tail) == Ok::<(T, nat), CacheError>(
            (xs[xs.len() - 1], enc(xs[xs.len() - 1]).len()),
        ));
        assert(init.push(last) =~= xs);
        assert(parse_list(s, (xs.len() - 1) as nat, dec) == Ok::<(Seq<T>, nat), CacheError>(
            (init, k),
        ));
        assert(k <= s.len());
        assert(dec(s.subrange(k as int, s.len() as int)) == Ok::<(T, nat), CacheError>(
            (last, enc(last).len()),
        ));
        assert(list_bytes(xs, enc) == list_bytes(init, enc) + enc(last));
        assert(parse_list(s, xs.len(), dec) == Ok::<(Seq<T>, nat), CacheError>(
            (init.push(last), k + enc(last).len()),
        ));
    } else {
        assert(xs =~= Seq::<T>::empty());
    }
}

/// Once reading a list fails, reading a longer one fails the same way.
pub proof fn lemma_list_err_stays<T>(
    s: Seq<u8>,
    j: nat,
    m: nat,
    dec: spec_fn(Seq<u8>) -> Result<(T, nat), CacheError>,
)
    requires
        j <= m,
        parse_list(s, j, dec) is Err,
    ensures
        parse_list(s, m, dec) == parse_list(s, j, dec),
    decreases m - j,
{
    if j < m {
        lemma_list_err_stays(s, j, (m - 1) as nat, dec);
    }
}

/// A counted list read back as the same items.
pub proof fn lemma_counted_round_trip<T>(
    xs: Seq<T>,
    tail: Seq<u8>,
    enc: spec_fn(T) -> Seq<u8>,
    dec: spec_fn(Seq<u8>) -> Result<(T, nat), CacheError>,
)
    requires
        xs.len() <= u32::MAX,
        forall|i: int, t: Seq<u8>|
            0 <= i < xs.len() ==> #[trigger] dec(enc(xs[i]) + t) == Ok::<(T, nat), CacheError>(
                (xs[i], enc(xs[i]).len()),
            ),
    ensures
        parse_counted(counted_bytes(xs, enc) + tail, dec) == Ok::<(Seq<T>, nat), CacheError>(
            (xs, counted_bytes(xs, enc).len()),
        ),
{
    let s = counted_bytes(xs, enc) + tail;
    let body = list_bytes(xs, enc) + tail;
    assert(s =~= le_count(xs.len() as usize) + body);
    lemma_count_round_trip(xs.len() as usize, body);
    assert(s.subrange(4, s.len() as int) =~= body);
    lemma_list_round_trip(xs, tail, enc, dec);
}

/// The stored form of a `usize` as a spec closure.
pub open spec fn usize_enc() -> spec_fn(usize) -> Seq<u8> {
    |x: usize| le_usize(x)
}

/// Reading a `usize` as a spec closure.
pub open spec fn usize_dec() -> spec_fn(Seq<u8>) -> Result<(usize, nat), CacheError> {
    |s: Seq<u8>| parse_usize(s)
}

/// Appends a counted list of `usize`s.
pub fn write_usizes(out: &mut Vec<u8>, xs: &Vec<usize>)
    requires
        xs@.len() <= u32::MAX,
    ensures
        final(out)@ == old(out)@ + counted_bytes(xs@, usize_enc()),
{
    write_count(out, xs.len());
    let ghost start = out@;
    let mut i: usize = 0;
    while i < xs.len()
        invariant
            i <= xs@.len(),
            out@ == start + list_bytes(xs@.take(i as int), usize_enc()),
        decreases xs@.len() - i,
    {
        write_usize(out, xs[i]);
        proof {
            let t = xs@.take(i + 1);
            assert(t.drop_last() == xs@.take(i as int));
        }
        i = i + 1;
    }
    assert(xs@.take(xs@.len() as int) =~= xs@);
}

/// Reads a counted list of `usize`s at `pos`.
pub fn read_usizes(buf: &[u8], pos: usize) -> (r: Result<(Vec<usize>, usize), CacheError>)
    requires
        pos <= buf@.len(),
    ensures
        match parse_counted(rest(buf@, pos as int), usize_dec()) {
            Ok((v, n)) => r matches Ok((xs, p)) && xs@ == v && p == pos + n && p <= buf@.len()
                && xs@.len() <= u32::MAX,
            Err(e) => r == Err::<(Vec<usize>, usize), CacheError>(e),
        },
{
    let (n, p0) = match read_count(buf, pos) {
        Ok(x) => x,
        Err(e) => return Err(e),
    };
    let ghost s = rest(buf@, p0 as int);
    assert(rest(buf@, pos as int).subrange(4, rest(buf@, pos as int).len() as int) =~= s);
    let mut xs: Vec<usize> = Vec::new();
    let mut p = p0;
    let mut i: usize = 0;
    while i < n
        invariant
            pos + 4 == p0,
            n <= u32::MAX,
            xs@.len() == i,
            p0 <= p <= buf@.len(),
            i <= n,
            s == rest(buf@, p0 as int),
            s == rest(buf@, pos as int).subrange(4, rest(buf@, pos as int).len() as int),
            parse_count(rest(buf@, pos as int)) == Ok::<(usize, nat), CacheError>((n, 4)),
            parse_list(s, i as nat, usize_dec()) == Ok::<(Seq<usize>, nat), CacheError>(
                (xs@, (p - p0) as nat),
            ),
        decreases n - i,
    {
        let ghost k = (p - p0) as nat;
        assert(s.subrange(k as int, s.len() as int) =~= rest(buf@, p as int));
        let (x, p1) = match read_usize(buf, p) {
            Ok(x) => x,
            Err(e) => {
                proof {
                    assert(parse_list(s, (i + 1) as nat, usize_dec()) == Err::<(Seq<usize>, nat), CacheError>(e));
                    lemma_list_err_stays(s, (i + 1) as nat, n as nat, usize_dec());
                }
                return Err(e);
            },
        };
        xs.push(x);
        p = p1;
        i = i + 1;
    }
    Ok((xs, p))
}

/// Reads an `i32` at `pos`, returning it with the position after it.
pub fn read_i32(buf: &[u8], pos: usize) -> (r: Result<(i32, usize), CacheError>)
    requires
        pos <= buf@.len(),
    ensures
        match parse_i32(rest(buf@, pos as int)) {
            Ok((v, n)) => r matches Ok((x, p)) && x == v && p == pos + n,
            Err(e) => r == Err::<(i32, usize), CacheError>(e),
        },
{
    proof {
        assert(buf.len() == buf@.len());
    }
    match get_i32(buf, pos) {
        Some(v) => Ok((v, pos + 4)),
        None => Err(CacheError::TruncatedInput),
    }
}

/// Reads a discriminant byte at `pos`, returning it with the position after it.
pub fn read_tag(buf: &[u8], pos: usize) -> (r: Result<(u8, usize), CacheError>)
    requires
        pos <= buf@.len(),
    ensures
        match parse_tag(rest(buf@, pos as int)) {
            Ok((v, n)) => r matches Ok((x, p)) && x == v && p == pos + n,
            Err(e) => r == Err::<(u8, usize), CacheError>(e),
        },
{
    if pos < buf.len() {
        Ok((buf[pos], pos + 1))
    } else {
        Err(CacheError::TruncatedInput)
    }
}

} // verus!
