//! The binary layout: integers at full width, least significant byte first,
//! and the record fields built from them.

use vstd::prelude::*;

use crate::temporal::{calendar_has_day, day_in_range, Duration, Timestamp, NANOS_PER_SECOND, SECONDS_PER_DAY};

verus! {

/// The format version a value was written with: (major, minor, patch).
#[derive(Clone, Copy, Debug, PartialEq, Eq, Structural)]
pub struct Version(pub u16, pub u16, pub u16);

/// How integers are packed. This format has one mode: each integer at its
/// full width, least significant byte first.
#[derive(Clone, Copy, Debug, PartialEq, Eq, Structural)]
pub enum PrimitiveRepr {
    Varint,
}

/// Why bytes could not be read back as a value.
#[derive(Clone, Copy, Debug, PartialEq, Eq, Structural)]
pub enum DecodeError {
    /// The bytes ended before the value did.
    UnexpectedEnd,
    /// The day count names no day of the calendar.
    InvalidDate,
    /// The second or nanosecond is out of its range.
    InvalidTime,
    /// The record's identifier is not the expected one.
    WrongTag,
}

/// Why a value could not be written.
#[derive(Clone, Copy, Debug, PartialEq, Eq, Structural)]
pub enum EncodeError {
    /// The duration has more nanoseconds than an `i64` holds.
    TooLarge,
}

impl DecodeError {
    /// Every decode error but a premature end is a case of invalid data.
    pub fn is_invalid_data(&self) -> (r: bool)
        ensures
            r == !(self == DecodeError::UnexpectedEnd),
    {
        !matches!(self, DecodeError::UnexpectedEnd)
    }
}

pub open spec fn u16_bytes(v: u16) -> Seq<u8> {
    seq![(v & 0xff) as u8, ((v >> 8u16) & 0xff) as u8]
}

pub open spec fn u16_of(b: Seq<u8>) -> u16 {
    (b[0] as u16) | ((b[1] as u16) << 8u16)
}

pub open spec fn u32_bytes(v: u32) -> Seq<u8> {
    seq![
        (v & 0xff) as u8,
        ((v >> 8u32) & 0xff) as u8,
        ((v >> 16u32) & 0xff) as u8,
        ((v >> 24u32) & 0xff) as u8,
    ]
}

pub open spec fn u32_of(b: Seq<u8>) -> u32 {
    (b[0] as u32) | ((b[1] as u32) << 8u32) | ((b[2] as u32) << 16u32) | ((b[3] as u32)
        << 24u32)
}

pub open spec fn u64_bytes(v: u64) -> Seq<u8> {
    seq![
        (v & 0xff) as u8,
        ((v >> 8u64) & 0xff) as u8,
        ((v >> 16u64) & 0xff) as u8,
        ((v >> 24u64) & 0xff) as u8,
        ((v >> 32u64) & 0xff) as u8,
        ((v >> 40u64) & 0xff) as u8,
        ((v >> 48u64) & 0xff) as u8,
        ((v >> 56u64) & 0xff) as u8,
    ]
}

pub open spec fn u64_of(b: Seq<u8>) -> u64 {
    (b[0] as u64) | ((b[1] as u64) << 8u64) | ((b[2] as u64) << 16u64) | ((b[3] as u64)
        << 24u64) | ((b[4] as u64) << 32u64) | ((b[5] as u64) << 40u64) | ((b[6] as u64)
        << 48u64) | ((b[7] as u64) << 56u64)
}

pub proof fn lemma_u16_round_trip(v: u16)
    ensures
        u16_of(u16_bytes(v)) == v,
{
    assert(((v & 0xff) as u8 as u16) | ((((v >> 8u16) & 0xff) as u8 as u16) << 8u16) == v)
        by (bit_vector);
}

pub proof fn lemma_u32_round_trip(v: u32)
    ensures
        u32_of(u32_bytes(v)) == v,
{
    assert(((v & 0xff) as u8 as u32) | ((((v >> 8u32) & 0xff) as u8 as u32) << 8u32) | ((((v
        >> 16u32) & 0xff) as u8 as u32) << 16u32) | ((((v >> 24u32) & 0xff) as u8 as u32)
        << 24u32) == v) by (bit_vector);
}

pub proof fn lemma_u64_round_trip(v: u64)
    ensures
        u64_of(u64_bytes(v)) == v,
{
    assert(((v & 0xff) as u8 as u64) | ((((v >> 8u64) & 0xff) as u8 as u64) << 8u64) | ((((v
        >> 16u64) & 0xff) as u8 as u64) << 16u64) | ((((v >> 24u64) & 0xff) as u8 as u64)
        << 24u64) | ((((v >> 32u64) & 0xff) as u8 as u64) << 32u64) | ((((v >> 40u64) & 0xff)
        as u8 as u64) << 40u64) | ((((v >> 48u64) & 0xff) as u8 as u64) << 48u64) | ((((v
        >> 56u64) & 0xff) as u8 as u64) << 56u64) == v) by (bit_vector);
}

pub fn put_u16(to: &mut Vec<u8>, v: u16)
    ensures
        final(to)@ == old(to)@ + u16_bytes(v),
{
    to.push((v & 0xff) as u8);
    to.push(((v >> 8u16) & 0xff) as u8);
    assert(final(to)@ =~= old(to)@ + u16_bytes(v));
}

pub fn put_u32(to: &mut Vec<u8>, v: u32)
    ensures
        final(to)@ == old(to)@ + u32_bytes(v),
{
    to.push((v & 0xff) as u8);
    to.push(((v >> 8u32) & 0xff) as u8);
    to.push(((v >> 16u32) & 0xff) as u8);
    to.push(((v >> 24u32) & 0xff) as u8);
    assert(final(to)@ =~= old(to)@ + u32_bytes(v));
}

pub fn put_u64(to: &mut Vec<u8>, v: u64)
    ensures
        final(to)@ == old(to)@ + u64_bytes(v),
{
    to.push((v & 0xff) as u8);
    to.push(((v >> 8u64) & 0xff) as u8);
    to.push(((v >> 16u64) & 0xff) as u8);
    to.push(((v >> 24u64) & 0xff) as u8);
    to.push(((v >> 32u64) & 0xff) as u8);
    to.push(((v >> 40u64) & 0xff) as u8);
    to.push(((v >> 48u64) & 0xff) as u8);
    to.push(((v >> 56u64) & 0xff) as u8);
    assert(final(to)@ =~= old(to)@ + u64_bytes(v));
}

/// Bytes being read front to back: `data` from `pos` on is still to come.
pub struct ByteSource {
    pub data: Vec<u8>,
    pub pos: usize,
}

impl ByteSource {
    pub open spec fn wf(&self) -> bool {
        self.pos <= self.data@.len()
    }

    /// The bytes not read yet.
    pub open spec fn rest(&self) -> Seq<u8> {
        self.data@.subrange(self.pos as int, self.data@.len() as int)
    }

    pub fn new(data: Vec<u8>) -> (r: ByteSource)
        ensures
            r.wf(),
            r.rest() == data@,
    {
        let r = ByteSource { data, pos: 0 };
        assert(r.rest() =~= r.data@);
        r
    }

    /// Reads `n` bytes, where that many are left.
    pub fn take(&mut self, n: usize) -> (r: Option<Vec<u8>>)
        requires
            old(self).wf(),
        ensures
            final(self).wf(),
            r is Some <==> n <= old(self).rest().len(),
            r is Some ==> r->0@ == old(self).rest().subrange(0, n as int) && final(self).rest()
                == old(self).rest().subrange(n as int, old(self).rest().len() as int),
    {
        if n > self.data.len() - self.pos {
            return None;
        }
        let mut out: Vec<u8> = Vec::new();
        let end: usize = self.pos + n;
        let mut i: usize = 0;
        while i < n
            invariant
                self.wf(),
                i <= n,
                end == self.pos + n,
                end <= self.data@.len(),
                out@ == self.data@.subrange(self.pos as int, self.pos + i),
            decreases n - i,
        {
            out.push(self.data[self.pos + i]);
            i = i + 1;
            assert(out@ =~= self.data@.subrange(self.pos as int, self.pos + i));
        }
        let ghost before = self.rest();
        self.pos = self.pos + n;
        assert(out@ =~= before.subrange(0, n as int));
        assert(self.rest() =~= before.subrange(n as int, before.len() as int));
        Some(out)
    }

    pub fn take_u16(&mut self) -> (r: Option<u16>)
        requires
            old(self).wf(),
        ensures
            final(self).wf(),
            r is Some <==> 2 <= old(self).rest().len(),
            r is Some ==> r->0 == u16_of(old(self).rest()) && final(self).rest()
                == old(self).rest().subrange(2, old(self).rest().len() as int),
    {
        match self.take(2) {
            Some(b) => Some((b[0] as u16) | ((b[1] as u16) << 8u16)),
            None => None,
        }
    }

    pub fn take_u32(&mut self) -> (r: Option<u32>)
        requires
            old(self).wf(),
        ensures
            final(self).wf(),
            r is Some <==> 4 <= old(self).rest().len(),
            r is Some ==> r->0 == u32_of(old(self).rest()) && final(self).rest()
                == old(self).rest().subrange(4, old(self).rest().len() as int),
    {
        match self.take(4) {
            Some(b) => Some(
                (b[0] as u32) | ((b[1] as u32) << 8u32) | ((b[2] as u32) << 16u32) | ((
                b[3] as u32) << 24u32),
            ),
            None => None,
        }
    }

    pub fn take_u64(&mut self) -> (r: Option<u64>)
        requires
            old(self).wf(),
        ensures
            final(self).wf(),
            r is Some <==> 8 <= old(self).rest().len(),
            r is Some ==> r->0 == u64_of(old(self).rest()) && final(self).rest()
                == old(self).rest().subrange(8, old(self).rest().len() as int),
    {
        match self.take(8) {
            Some(b) => Some(
                (b[0] as u64) | ((b[1] as u64) << 8u64) | ((b[2] as u64) << 16u64) | ((
                b[3] as u64) << 24u64) | ((b[4] as u64) << 32u64) | ((b[5] as u64) << 40u64)
                    | ((b[6] as u64) << 48u64) | ((b[7] as u64) << 56u64),
            ),
            None => None,
        }
    }
}


/// The layout of an instant: day count, second of the day, nanosecond.
pub open spec fn datetime_bytes(t: Timestamp) -> Seq<u8> {
    u32_bytes(#[verifier::truncate] (t.epoch_day as u32)) + u32_bytes(t.second) + u32_bytes(t.nanosecond)
}

/// The instant that `b` starts with, or why there is none.
pub open spec fn datetime_from(b: Seq<u8>) -> Result<Timestamp, DecodeError> {
    if b.len() < 12 {
        Err(DecodeError::UnexpectedEnd)
    } else {
        let day = #[verifier::truncate] (u32_of(b) as i32);
        let second = u32_of(b.subrange(4, b.len() as int));
        let nanosecond = u32_of(b.subrange(8, b.len() as int));
        if !day_in_range(day as int) {
            Err(DecodeError::InvalidDate)
        } else if second >= SECONDS_PER_DAY || nanosecond >= NANOS_PER_SECOND {
            Err(DecodeError::InvalidTime)
        } else {
            Ok(Timestamp { epoch_day: day, second, nanosecond })
        }
    }
}

/// The layout of a span: its signed count of nanoseconds.
pub open spec fn timedelta_bytes(nanos: i64) -> Seq<u8> {
    u64_bytes(#[verifier::truncate] (nanos as u64))
}

/// The count of nanoseconds that `b` starts with.
pub open spec fn timedelta_from(b: Seq<u8>) -> Result<i64, DecodeError> {
    if b.len() < 8 {
        Err(DecodeError::UnexpectedEnd)
    } else {
        Ok(#[verifier::truncate] (u64_of(b) as i64))
    }
}

/// Writes the instant `date`. The version and packing mode are those of the
/// surrounding record; the layout does not vary with them.
pub fn encode_datetime(date: &Timestamp, to: &mut Vec<u8>, version: Version, repr: PrimitiveRepr)
    ensures
        final(to)@ == old(to)@ + datetime_bytes(*date),
{
    put_u32(to, date.epoch_day as u32);
    put_u32(to, date.second);
    put_u32(to, date.nanosecond);
    assert(final(to)@ =~= old(to)@ + datetime_bytes(*date));
}

/// Reads an instant and checks that it names a day of the calendar and a time of day.
pub fn decode_datetime(from: &mut ByteSource, version: Version, repr: PrimitiveRepr) -> (r: Result<
    Timestamp,
    DecodeError,
>)
    requires
        old(from).wf(),
    ensures
        final(from).wf(),
        r == datetime_from(old(from).rest()),
        r is Ok ==> final(from).rest() == old(from).rest().subrange(
            12,
            old(from).rest().len() as int,
        ),
{
    let ghost b = from.rest();
    let day = match from.take_u32() {
        Some(v) => v as i32,
        None => return Err(DecodeError::UnexpectedEnd),
    };
    let second = match from.take_u32() {
        Some(v) => v,
        None => return Err(DecodeError::UnexpectedEnd),
    };
    let nanosecond = match from.take_u32() {
        Some(v) => v,
        None => return Err(DecodeError::UnexpectedEnd),
    };
    assert(b.subrange(4, b.len() as int).subrange(4, b.len() - 4) =~= b.subrange(
        8,
        b.len() as int,
    ));
    assert(from.rest() =~= b.subrange(12, b.len() as int));
    if !calendar_has_day(day) {
        Err(DecodeError::InvalidDate)
    } else if second >= SECONDS_PER_DAY || nanosecond >= NANOS_PER_SECOND {
        Err(DecodeError::InvalidTime)
    } else {
        Ok(Timestamp { epoch_day: day, second, nanosecond })
    }
}

/// Writes the span `delta` as a count of nanoseconds; fails, writing nothing,
/// where that count does not fit in an `i64`.
pub fn encode_timedelta(
    delta: &Duration,
    to: &mut Vec<u8>,
    version: Version,
    repr: PrimitiveRepr,
) -> (r: Result<(), EncodeError>)
    ensures
        r is Ok <==> i64::MIN <= delta.nanos() <= i64::MAX,
        r is Ok ==> final(to)@ == old(to)@ + timedelta_bytes(delta.nanos() as i64),
        r is Err ==> r == Err::<(), EncodeError>(EncodeError::TooLarge) && final(to)@ == old(
            to,
        )@,
{
    match delta.num_nanoseconds() {
        Some(n) => {
            put_u64(to, n as u64);
            Ok(())
        },
        None => Err(EncodeError::TooLarge),
    }
}

/// Reads a span written as a count of nanoseconds.
pub fn decode_timedelta(from: &mut ByteSource, version: Version, repr: PrimitiveRepr) -> (r:
    Result<Duration, DecodeError>)
    requires
        old(from).wf(),
    ensures
        final(from).wf(),
        r is Ok <==> timedelta_from(old(from).rest()) is Ok,
        r is Err ==> r == Err::<Duration, DecodeError>(DecodeError::UnexpectedEnd),
        r is Ok ==> r->Ok_0.wf() && r->Ok_0.nanos() == timedelta_from(old(from).rest())->Ok_0
            && final(from).rest() == old(from).rest().subrange(8, old(from).rest().len() as int),
{
    match from.take_u64() {
        Some(v) => Ok(Duration::from_nanos(v as i64)),
        None => Err(DecodeError::UnexpectedEnd),
    }
}

/// Two well-formed spans of the same length are the same value.
pub proof fn lemma_duration_eq(a: Duration, b: Duration)
    requires
        a.wf(),
        b.wf(),
        a.nanos() == b.nanos(),
    ensures
        a == b,
{
    assert(a.seconds == b.seconds) by (nonlinear_arith)
        requires
            a.seconds * 1000000000 + a.nanosecond == b.seconds * 1000000000 + b.nanosecond,
            0 <= a.nanosecond < 1000000000,
            0 <= b.nanosecond < 1000000000,
    ;
}

/// Reading back the bytes written for a valid instant gives that instant,
/// whatever follows them.
pub proof fn lemma_datetime_round_trip(t: Timestamp, rest: Seq<u8>)
    requires
        t.wf(),
    ensures
        datetime_from(datetime_bytes(t) + rest) == Ok::<Timestamp, DecodeError>(t),
{
    let b = datetime_bytes(t) + rest;
    let day = t.epoch_day;
    assert(#[verifier::truncate] (day as u32) as i32 == day) by (bit_vector);
    lemma_u32_round_trip(#[verifier::truncate] (day as u32));
    lemma_u32_round_trip(t.second);
    lemma_u32_round_trip(t.nanosecond);
    assert(b.subrange(0, 4) =~= u32_bytes(#[verifier::truncate] (day as u32)));
    assert(b.subrange(4, 8) =~= u32_bytes(t.second));
    assert(b.subrange(8, 12) =~= u32_bytes(t.nanosecond));
    assert(u32_of(b) == u32_of(b.subrange(0, 4)));
    assert(u32_of(b.subrange(4, b.len() as int)) == u32_of(b.subrange(4, 8)));
    assert(u32_of(b.subrange(8, b.len() as int)) == u32_of(b.subrange(8, 12)));
}

/// Reading back the bytes written for a span whose length fits in an `i64`
/// gives that length, whatever follows them, and the only well-formed span of
/// that length is the one written.
pub proof fn lemma_timedelta_round_trip(d: Duration, rest: Seq<u8>)
    requires
        d.wf(),
        i64::MIN <= d.nanos() <= i64::MAX,
    ensures
        timedelta_from(timedelta_bytes(d.nanos() as i64) + rest) == Ok::<i64, DecodeError>(
            d.nanos() as i64,
        ),
        forall|e: Duration| #[trigger] e.wf() && e.nanos() == d.nanos() ==> e == d,
{
    assert forall|e: Duration| #[trigger] e.wf() && e.nanos() == d.nanos() implies e == d by {
        lemma_duration_eq(e, d);
    }
    let n = d.nanos() as i64;
    let b = timedelta_bytes(n) + rest;
    assert(#[verifier::truncate] (n as u64) as i64 == n) by (bit_vector);
    lemma_u64_round_trip(#[verifier::truncate] (n as u64));
    assert(b.subrange(0, 8) =~= u64_bytes(#[verifier::truncate] (n as u64)));
    assert(u64_of(b) == u64_of(b.subrange(0, 8)));
}

} // verus!
