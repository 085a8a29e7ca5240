//! The schedule record: a format version, a type tag, the next time it fires
//! and how far apart its firings are.

use vstd::prelude::*;

use core::marker::PhantomData;

use crate::codec::{
    datetime_bytes, datetime_from, decode_datetime, decode_timedelta, encode_datetime,
    encode_timedelta, lemma_datetime_round_trip, lemma_duration_eq, lemma_timedelta_round_trip,
    lemma_u16_round_trip, timedelta_bytes, timedelta_from, u16_bytes, u16_of, ByteSource,
    DecodeError, EncodeError, PrimitiveRepr, Version,
};
use crate::temporal::{instant_in_range, Duration, Timestamp};

verus! {

/// A record kind with a fixed eight-byte identifier written at the head of
/// each record of that kind.
pub trait ScheduleID {
    spec fn spec_id() -> Seq<u8>;

    fn id_bytes() -> (r: [u8; 8])
        ensures
            r@ == Self::spec_id(),
    ;

    /// The kind's name, for messages.
    fn id_name() -> &'static str;
}

/// The identifier of the record kind `T`. It holds nothing: having one means
/// that the identifier was read and matched.
pub struct ID<T: ScheduleID>(pub PhantomData<T>);

/// Whether `b` starts with the identifier `id`, or why not.
pub open spec fn id_from(b: Seq<u8>, id: Seq<u8>) -> Result<(), DecodeError> {
    if b.len() < 8 {
        Err(DecodeError::UnexpectedEnd)
    } else if b.subrange(0, 8) == id {
        Ok(())
    } else {
        Err(DecodeError::WrongTag)
    }
}

impl<T: ScheduleID> ID<T> {
    /// Writes the identifier as it is: it is not a value and does not vary
    /// with the version or the packing mode.
    pub fn encode(&self, to: &mut Vec<u8>, version: Version, repr: PrimitiveRepr)
        ensures
            final(to)@ == old(to)@ + T::spec_id(),
    {
        let id = T::id_bytes();
        let mut i: usize = 0;
        while i < 8
            invariant
                i <= 8,
                id@ == T::spec_id(),
                to@ == old(to)@ + T::spec_id().subrange(0, i as int),
            decreases 8 - i,
        {
            to.push(id[i]);
            i = i + 1;
            assert(to@ =~= old(to)@ + T::spec_id().subrange(0, i as int));
        }
        assert(T::spec_id().subrange(0, 8) =~= T::spec_id());
    }

    /// Reads eight bytes and checks that they are the identifier of `T`.
    pub fn decode(from: &mut ByteSource, version: Version, repr: PrimitiveRepr) -> (r: Result<
        ID<T>,
        DecodeError,
    >)
        requires
            old(from).wf(),
        ensures
            final(from).wf(),
            r is Ok <==> id_from(old(from).rest(), T::spec_id()) is Ok,
            r is Err ==> r->Err_0 == id_from(old(from).rest(), T::spec_id())->Err_0,
            r is Ok ==> final(from).rest() == old(from).rest().subrange(
                8,
                old(from).rest().len() as int,
            ),
    {
        let ghost b = from.rest();
        let id = T::id_bytes();
        let bytes = match from.take(8) {
            Some(v) => v,
            None => return Err(DecodeError::UnexpectedEnd),
        };
        let mut i: usize = 0;
        while i < 8
            invariant
                i <= 8,
                id@ == T::spec_id(),
                from.wf(),
                b == old(from).rest(),
                b.len() >= 8,
                from.rest() == b.subrange(8, b.len() as int),
                bytes@ == b.subrange(0, 8),
                forall|k: int| 0 <= k < i ==> bytes@[k] == id@[k],
            decreases 8 - i,
        {
            if bytes[i] != id[i] {
                assert(b.subrange(0, 8)[i as int] != T::spec_id()[i as int]);
                return Err(DecodeError::WrongTag);
            }
            i = i + 1;
        }
        assert(b.subrange(0, 8) =~= T::spec_id());
        Ok(ID(PhantomData))
    }
}

/// Whether records of version `v` carry the type tag (from 0.0.2 on).
pub open spec fn has_id(v: Version) -> bool {
    v.0 > 0 || v.1 > 0 || v.2 >= 2
}

/// The version this library writes.
pub open spec fn latest() -> Version {
    Version(0, 0, 2)
}

/// The version this library writes.
pub fn latest_version() -> (r: Version)
    ensures
        r == latest(),
{
    Version(0, 0, 2)
}

pub open spec fn version_bytes(v: Version) -> Seq<u8> {
    u16_bytes(v.0) + u16_bytes(v.1) + u16_bytes(v.2)
}

pub open spec fn regular_id() -> Seq<u8> {
    seq![114u8, 101u8, 103u8, 117u8, 108u8, 97u8, 114u8, 32u8]
}

/// A schedule that fires at `next`, then every `interval` after it.
#[derive(Clone, Copy, Debug, PartialEq, Eq, Structural)]
pub struct RegularSchedule {
    pub version: Version,
    pub next: Timestamp,
    pub interval: Duration,
}

impl ScheduleID for RegularSchedule {
    open spec fn spec_id() -> Seq<u8> {
        regular_id()
    }

    fn id_bytes() -> (r: [u8; 8]) {
        let r: [u8; 8] = [114u8, 101u8, 103u8, 117u8, 108u8, 97u8, 114u8, 32u8];
        assert(r@ =~= regular_id());
        r
    }

    fn id_name() -> &'static str {
        "regular schedule"
    }
}

/// The bytes of a record: version, tag where the version has one, next
/// firing, interval.
pub open spec fn schedule_bytes(s: RegularSchedule) -> Seq<u8> {
    version_bytes(s.version) + (if has_id(s.version) {
        regular_id()
    } else {
        Seq::empty()
    }) + datetime_bytes(s.next) + timedelta_bytes(s.interval.nanos() as i64)
}

/// The version at the head of `b`.
pub open spec fn version_of(b: Seq<u8>) -> Version {
    Version(u16_of(b), u16_of(b.subrange(2, b.len() as int)), u16_of(b.subrange(4, b.len() as int)))
}

/// What the fields after the version hold in a record of version `v`: next
/// firing and interval in nanoseconds; or why they hold no record.
pub open spec fn body_from(v: Version, b: Seq<u8>) -> Result<(Version, Timestamp, i64), DecodeError> {
    let tag = if has_id(v) {
        id_from(b, regular_id())
    } else {
        Ok(())
    };
    let fields = if has_id(v) {
        b.subrange(8, b.len() as int)
    } else {
        b
    };
    match tag {
        Err(e) => Err(e),
        Ok(_) => match datetime_from(fields) {
            Err(e) => Err(e),
            Ok(t) => match timedelta_from(fields.subrange(12, fields.len() as int)) {
                Err(e) => Err(e),
                Ok(n) => Ok((v, t, n)),
            },
        },
    }
}

/// What a record read from `b` holds: version, next firing and interval in
/// nanoseconds; or why `b` holds no record.
pub open spec fn schedule_from(b: Seq<u8>) -> Result<(Version, Timestamp, i64), DecodeError> {
    if b.len() < 6 {
        Err(DecodeError::UnexpectedEnd)
    } else {
        body_from(version_of(b), b.subrange(6, b.len() as int))
    }
}

impl RegularSchedule {
    pub open spec fn wf(self) -> bool {
        self.next.wf() && self.interval.wf()
    }

    /// A new schedule of the current version, first firing at `start`.
    pub fn create(start: Timestamp, every: Duration) -> (r: RegularSchedule)
        ensures
            r == (RegularSchedule { version: latest(), next: start, interval: every }),
    {
        RegularSchedule { version: latest_version(), next: start, interval: every }
    }

    /// Writes the record, with the layout of its own version.
    pub fn encode(&self, to: &mut Vec<u8>, version: Version, repr: PrimitiveRepr) -> (r: Result<
        (),
        EncodeError,
    >)
        ensures
            r is Ok <==> i64::MIN <= self.interval.nanos() <= i64::MAX,
            r is Ok ==> final(to)@ == old(to)@ + schedule_bytes(*self),
    {
        crate::codec::put_u16(to, self.version.0);
        crate::codec::put_u16(to, self.version.1);
        crate::codec::put_u16(to, self.version.2);
        if self.version.0 > 0 || self.version.1 > 0 || self.version.2 >= 2 {
            let id: ID<RegularSchedule> = ID(PhantomData);
            id.encode(to, version, repr);
        }
        encode_datetime(&self.next, to, version, repr);
        let r = encode_timedelta(&self.interval, to, version, repr);
        assert(r is Ok ==> final(to)@ =~= old(to)@ + schedule_bytes(*self));
        r
    }

    /// Reads a record: its version first, then the fields that version has.
    pub fn decode(from: &mut ByteSource, version: Version, repr: PrimitiveRepr) -> (r: Result<
        RegularSchedule,
        DecodeError,
    >)
        requires
            old(from).wf(),
        ensures
            final(from).wf(),
            r is Ok <==> schedule_from(old(from).rest()) is Ok,
            r is Err ==> r->Err_0 == schedule_from(old(from).rest())->Err_0,
            r is Ok ==> {
                let (v, t, n) = schedule_from(old(from).rest())->Ok_0;
                &&& r->Ok_0.wf()
                &&& r->Ok_0.version == v
                &&& r->Ok_0.next == t
                &&& r->Ok_0.interval.nanos() == n
            },
    {
        let ghost b = from.rest();
        let v0 = match from.take_u16() {
            Some(x) => x,
            None => return Err(DecodeError::UnexpectedEnd),
        };
        let v1 = match from.take_u16() {
            Some(x) => x,
            None => return Err(DecodeError::UnexpectedEnd),
        };
        let v2 = match from.take_u16() {
            Some(x) => x,
            None => return Err(DecodeError::UnexpectedEnd),
        };
        assert(b.subrange(2, b.len() as int).subrange(2, b.len() - 2) =~= b.subrange(
            4,
            b.len() as int,
        ));
        assert(b.subrange(4, b.len() as int).subrange(2, b.len() - 4) =~= b.subrange(
            6,
            b.len() as int,
        ));
        let stored = Version(v0, v1, v2);
        if v0 > 0 || v1 > 0 || v2 >= 2 {
            match ID::<RegularSchedule>::decode(from, stored, repr) {
                Ok(_) => {},
                Err(e) => return Err(e),
            }
        }
        let next = match decode_datetime(from, stored, repr) {
            Ok(t) => t,
            Err(e) => return Err(e),
        };
        let interval = match decode_timedelta(from, stored, repr) {
            Ok(d) => d,
            Err(e) => return Err(e),
        };
        Ok(RegularSchedule { version: stored, next, interval })
    }

    /// Reads a record from the whole contents of a file.
    pub fn open(bytes: Vec<u8>) -> (r: Result<RegularSchedule, DecodeError>)
        ensures
            r is Ok <==> schedule_from(bytes@) is Ok,
            r is Err ==> r->Err_0 == schedule_from(bytes@)->Err_0,
            r is Ok ==> {
                let (v, t, n) = schedule_from(bytes@)->Ok_0;
                &&& r->Ok_0.wf()
                &&& r->Ok_0.version == v
                &&& r->Ok_0.next == t
                &&& r->Ok_0.interval.nanos() == n
            },
    {
        let mut from = ByteSource::new(bytes);
        RegularSchedule::decode(&mut from, Version(0, 0, 0), PrimitiveRepr::Varint)
    }

    /// Stamps the record with the current version and returns the contents of
    /// its file; fails where the interval has more nanoseconds than an `i64` holds.
    pub fn save(&mut self) -> (r: Result<Vec<u8>, EncodeError>)
        ensures
            *final(self) == (RegularSchedule { version: latest(), ..*old(self) }),
            r is Ok <==> i64::MIN <= old(self).interval.nanos() <= i64::MAX,
            r is Ok ==> r->Ok_0@ == schedule_bytes(*final(self)),
            r is Err ==> r->Err_0 == EncodeError::TooLarge,
    {
        self.version = latest_version();
        let mut out: Vec<u8> = Vec::new();
        match self.encode(&mut out, latest_version(), PrimitiveRepr::Varint) {
            Ok(()) => {
                assert(out@ =~= schedule_bytes(*self));
                Ok(out)
            },
            Err(e) => Err(e),
        }
    }

    /// Moves the next firing on by one interval, where the result is a day the
    /// calendar holds; otherwise leaves the record as it is.
    pub fn advance(&mut self) -> (r: bool)
        requires
            old(self).wf(),
        ensures
            final(self).wf(),
            r == instant_in_range(old(self).next.nanos() + old(self).interval.nanos()),
            r ==> final(self).version == old(self).version && final(self).interval == old(
                self,
            ).interval && final(self).next.nanos() == old(self).next.nanos() + old(
                self,
            ).interval.nanos(),
            !r ==> *final(self) == *old(self),
    {
        match self.next.checked_add(self.interval) {
            Some(t) => {
                self.next = t;
                true
            },
            None => false,
        }
    }
}


/// The version at the head of a record reads back as written.
proof fn lemma_version_prefix(v: Version, b: Seq<u8>)
    ensures
        ({
            let all = version_bytes(v) + b;
            &&& all.len() >= 6
            &&& version_of(all) == v
            &&& all.subrange(6, all.len() as int) == b
        }),
{
    let all = version_bytes(v) + b;
    lemma_u16_round_trip(v.0);
    lemma_u16_round_trip(v.1);
    lemma_u16_round_trip(v.2);
    assert(all.subrange(0, 2) =~= u16_bytes(v.0));
    assert(all.subrange(2, 4) =~= u16_bytes(v.1));
    assert(all.subrange(4, 6) =~= u16_bytes(v.2));
    assert(u16_of(all) == u16_of(all.subrange(0, 2)));
    assert(u16_of(all.subrange(2, all.len() as int)) == u16_of(all.subrange(2, 4)));
    assert(u16_of(all.subrange(4, all.len() as int)) == u16_of(all.subrange(4, 6)));
    assert(all.subrange(6, all.len() as int) =~= b);
}

/// The fields after the version read back as written.
proof fn lemma_body_round_trip(s: RegularSchedule, rest: Seq<u8>)
    requires
        s.wf(),
        i64::MIN <= s.interval.nanos() <= i64::MAX,
    ensures
        body_from(
            s.version,
            (if has_id(s.version) {
                regular_id()
            } else {
                Seq::empty()
            }) + datetime_bytes(s.next) + timedelta_bytes(s.interval.nanos() as i64) + rest,
        ) == Ok::<(Version, Timestamp, i64), DecodeError>(
            (s.version, s.next, s.interval.nanos() as i64),
        ),
{
    let tag = if has_id(s.version) {
        regular_id()
    } else {
        Seq::<u8>::empty()
    };
    let ts = timedelta_bytes(s.interval.nanos() as i64) + rest;
    let body = datetime_bytes(s.next) + ts;
    let b1 = tag + datetime_bytes(s.next) + timedelta_bytes(s.interval.nanos() as i64) + rest;
    assert(b1 =~= tag + body);
    if has_id(s.version) {
        assert(b1.subrange(0, 8) =~= regular_id());
        assert(b1.subrange(8, b1.len() as int) =~= body);
    } else {
        assert(b1 =~= body);
    }
    lemma_datetime_round_trip(s.next, ts);
    assert(body.subrange(12, body.len() as int) =~= ts);
    lemma_timedelta_round_trip(s.interval, rest);
}

/// Reading the bytes of a well-formed record gives back its fields, whatever
/// follows them; the only well-formed record with those fields is the one written.
pub proof fn lemma_save_open(s: RegularSchedule, rest: Seq<u8>)
    requires
        s.wf(),
        i64::MIN <= s.interval.nanos() <= i64::MAX,
    ensures
        schedule_from(schedule_bytes(s) + rest) == Ok::<(Version, Timestamp, i64), DecodeError>(
            (s.version, s.next, s.interval.nanos() as i64),
        ),
        forall|r: RegularSchedule|
            #[trigger] r.wf() && r.version == s.version && r.next == s.next
                && r.interval.nanos() == s.interval.nanos() ==> r == s,
{
    let tail = (if has_id(s.version) {
        regular_id()
    } else {
        Seq::<u8>::empty()
    }) + datetime_bytes(s.next) + timedelta_bytes(s.interval.nanos() as i64) + rest;
    assert(schedule_bytes(s) + rest =~= version_bytes(s.version) + tail);
    lemma_version_prefix(s.version, tail);
    lemma_body_round_trip(s, rest);
    lemma_record_eq(s);
}

proof fn lemma_record_eq(s: RegularSchedule)
    requires
        s.wf(),
    ensures
        forall|r: RegularSchedule|
            #[trigger] r.wf() && r.version == s.version && r.next == s.next
                && r.interval.nanos() == s.interval.nanos() ==> r == s,
{
    assert forall|r: RegularSchedule|
        #[trigger] r.wf() && r.version == s.version && r.next == s.next
            && r.interval.nanos() == s.interval.nanos() implies r == s by {
        lemma_duration_eq(r.interval, s.interval);
    }
}

/// A record of a version that carries the tag is refused where the eight
/// bytes after the version are not the tag, whatever follows them.
pub proof fn lemma_wrong_tag(v: Version, b: Seq<u8>)
    requires
        has_id(v),
        b.len() >= 8,
        b.subrange(0, 8) != regular_id(),
    ensures
        schedule_from(version_bytes(v) + b) == Err::<(Version, Timestamp, i64), DecodeError>(
            DecodeError::WrongTag,
        ),
{
    lemma_version_prefix(v, b);
}

} // verus!
