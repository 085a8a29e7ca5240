//! What a command line asks for: an action and its arguments, checked and
//! parsed. Reading the arguments and carrying the action out is the caller's.

use vstd::prelude::*;

use crate::grammar::{
    datetime_from, duration_from, parse_datetime_at, parse_timedelta, ParseError,
};
use crate::temporal::{Duration, Timestamp, NANOS_PER_SECOND};

verus! {

/// The words of a command line still to be read, front to back.
pub struct ArgList {
    pub items: Vec<String>,
    pub pos: usize,
}

/// The words still to be read.
pub open spec fn words(items: Seq<String>, pos: int) -> Seq<Seq<char>> {
    items.subrange(pos, items.len() as int).map_values(|s: String| s@)
}

impl ArgList {
    pub open spec fn wf(&self) -> bool {
        self.pos <= self.items@.len()
    }

    pub open spec fn rest(&self) -> Seq<Seq<char>> {
        words(self.items@, self.pos as int)
    }

    pub fn new(items: Vec<String>) -> (r: ArgList)
        ensures
            r.wf(),
            r.rest() == items@.map_values(|s: String| s@),
    {
        let r = ArgList { items, pos: 0 };
        assert(r.items@.subrange(0, r.items@.len() as int) =~= r.items@);
        r
    }

    /// The next word, if any is left.
    pub fn next(&mut self) -> (r: Option<String>)
        requires
            old(self).wf(),
        ensures
            final(self).wf(),
            old(self).rest().len() == 0 ==> r is None && final(self).rest() == old(self).rest(),
            old(self).rest().len() > 0 ==> r is Some && r->0@ == old(self).rest()[0]
                && final(self).rest() == old(self).rest().drop_first(),
    {
        if self.pos >= self.items.len() {
            return None;
        }
        let w = self.items[self.pos].clone();
        let ghost before = self.rest();
        self.pos = self.pos + 1;
        assert(self.rest() =~= before.drop_first());
        Some(w)
    }
}

/// Why a command line was refused.
#[derive(Clone, Copy, Debug, PartialEq, Eq, Structural)]
pub enum ArgError {
    MissingName,
    /// A schedule's name is a file name: it cannot hold `/`.
    SlashInName,
    MissingDate,
    MissingInterval,
    UnknownAction,
    /// The start date did not parse.
    Date(ParseError),
    /// The interval did not parse.
    Interval(ParseError),
}

/// What a command line asks for.
pub enum Action {
    /// Show every schedule.
    List,
    /// Make the schedule `name`, first firing at `start`, then every `every`.
    New { name: String, start: Timestamp, every: Duration },
    /// Move the named schedule on by one interval.
    Step(String),
    /// Show when the named schedule fires next.
    Next(String),
}

/// An action as values: a name as its characters, a start as nanoseconds
/// since the epoch.
pub enum ActionModel {
    List,
    New { name: Seq<char>, start: int, every: Duration },
    Step(Seq<char>),
    Next(Seq<char>),
}

impl Action {
    pub open spec fn model(&self) -> ActionModel {
        match self {
            Action::List => ActionModel::List,
            Action::New { name, start, every } => ActionModel::New {
                name: name@,
                start: start.nanos(),
                every: *every,
            },
            Action::Step(n) => ActionModel::Step(n@),
            Action::Next(n) => ActionModel::Next(n@),
        }
    }
}

/// The schedule name at the head of `w`, or why there is none.
pub open spec fn name_from(w: Seq<Seq<char>>) -> Result<Seq<char>, ArgError> {
    if w.len() == 0 {
        Err(ArgError::MissingName)
    } else if w[0].contains('/') {
        Err(ArgError::SlashInName)
    } else {
        Ok(w[0])
    }
}

/// The action that the words `w` ask for, given the current instant `now`.
pub open spec fn action_from(w: Seq<Seq<char>>, now: Timestamp) -> Result<ActionModel, ArgError> {
    if w.len() == 0 || w[0] == seq!['l', 'i', 's', 't'] {
        Ok(ActionModel::List)
    } else if w[0] == seq!['s', 't', 'e', 'p'] {
        match name_from(w.drop_first()) {
            Ok(n) => Ok(ActionModel::Step(n)),
            Err(e) => Err(e),
        }
    } else if w[0] == seq!['n', 'e', 'x', 't'] {
        match name_from(w.drop_first()) {
            Ok(n) => Ok(ActionModel::Next(n)),
            Err(e) => Err(e),
        }
    } else if w[0] == seq!['n', 'e', 'w'] {
        match name_from(w.drop_first()) {
            Err(e) => Err(e),
            Ok(n) => if w.len() < 3 {
                Err(ArgError::MissingDate)
            } else {
                match datetime_from(w[2], now) {
                    Err(e) => Err(ArgError::Date(e)),
                    Ok(start) => if w.len() < 4 {
                        Err(ArgError::MissingInterval)
                    } else {
                        match duration_from(w[3]) {
                            Err(e) => Err(ArgError::Interval(e)),
                            Ok(secs) => Ok(
                                ActionModel::New {
                                    name: n,
                                    start,
                                    every: Duration { seconds: secs as i64, nanosecond: 0 },
                                },
                            ),
                        }
                    },
                }
            },
        }
    } else {
        Err(ArgError::UnknownAction)
    }
}

fn has_slash(s: &str) -> (r: bool)
    ensures
        r == s@.contains('/'),
{
    let n = s.unicode_len();
    let mut i: usize = 0;
    while i < n
        invariant
            n == s@.len(),
            i <= n,
            forall|j: int| 0 <= j < i ==> s@[j] != '/',
        decreases n - i,
    {
        if s.get_char(i) == '/' {
            return true;
        }
        i = i + 1;
    }
    false
}

fn same_word(a: &str, b: &str) -> (r: bool)
    ensures
        r == (a@ == b@),
{
    let n = a.unicode_len();
    if n != b.unicode_len() {
        return false;
    }
    let mut i: usize = 0;
    while i < n
        invariant
            n == a@.len(),
            n == b@.len(),
            i <= n,
            forall|j: int| 0 <= j < i ==> a@[j] == b@[j],
        decreases n - i,
    {
        if a.get_char(i) != b.get_char(i) {
            return false;
        }
        i = i + 1;
    }
    assert(a@ =~= b@);
    true
}

/// Reads a schedule name: it must be there and hold no `/`.
pub fn name(args: &mut ArgList) -> (r: Result<String, ArgError>)
    requires
        old(args).wf(),
    ensures
        final(args).wf(),
        r is Ok <==> name_from(old(args).rest()) is Ok,
        r is Ok ==> r->Ok_0@ == name_from(old(args).rest())->Ok_0,
        r is Err ==> r->Err_0 == name_from(old(args).rest())->Err_0,
        old(args).rest().len() > 0 ==> final(args).rest() == old(args).rest().drop_first(),
{
    let path = match args.next() {
        Some(p) => p,
        None => return Err(ArgError::MissingName),
    };
    if has_slash(path.as_str()) {
        return Err(ArgError::SlashInName);
    }
    Ok(path)
}

/// Reads a start date, `<date>[+HH[:MM[:SS]]]`, where the current instant is `now`.
pub fn datetime(args: &mut ArgList, now: Timestamp) -> (r: Result<Timestamp, ArgError>)
    requires
        old(args).wf(),
        now.wf(),
    ensures
        final(args).wf(),
        old(args).rest().len() == 0 ==> r == Err::<Timestamp, ArgError>(ArgError::MissingDate),
        old(args).rest().len() > 0 ==> {
            let d = datetime_from(old(args).rest()[0], now);
            &&& final(args).rest() == old(args).rest().drop_first()
            &&& (r is Ok <==> d is Ok)
            &&& (r is Ok ==> r->Ok_0.wf() && r->Ok_0.nanos() == d->Ok_0)
            &&& (r is Err ==> r->Err_0 == ArgError::Date(d->Err_0))
        },
{
    let w = match args.next() {
        Some(w) => w,
        None => return Err(ArgError::MissingDate),
    };
    match parse_datetime_at(w.as_str(), now) {
        Ok(t) => Ok(t),
        Err(e) => Err(ArgError::Date(e)),
    }
}

/// Reads an interval, `HH[:MM[:SS]]`.
pub fn interval(args: &mut ArgList) -> (r: Result<Duration, ArgError>)
    requires
        old(args).wf(),
    ensures
        final(args).wf(),
        old(args).rest().len() == 0 ==> r == Err::<Duration, ArgError>(
            ArgError::MissingInterval,
        ),
        old(args).rest().len() > 0 ==> final(args).rest() == old(args).rest().drop_first() && match duration_from(old(args).rest()[0]) {
            Ok(secs) => r == Ok::<Duration, ArgError>(
                Duration { seconds: secs as i64, nanosecond: 0 },
            ),
            Err(e) => r == Err::<Duration, ArgError>(ArgError::Interval(e)),
        },
{
    let w = match args.next() {
        Some(w) => w,
        None => return Err(ArgError::MissingInterval),
    };
    match parse_timedelta(w.as_str()) {
        Ok(d) => Ok(d),
        Err(e) => Err(ArgError::Interval(e)),
    }
}

impl Action {
    /// Reads the action a command line asks for, where the current instant is
    /// `now`. No words at all ask for `List`.
    pub fn get(args: &mut ArgList, now: Timestamp) -> (r: Result<Action, ArgError>)
        requires
            old(args).wf(),
            now.wf(),
        ensures
            final(args).wf(),
            r is Ok <==> action_from(old(args).rest(), now) is Ok,
            r is Ok ==> r->Ok_0.model() == action_from(old(args).rest(), now)->Ok_0,
            r is Err ==> r->Err_0 == action_from(old(args).rest(), now)->Err_0,
            r is Ok ==> match r->Ok_0 {
                Action::New { start, .. } => start.wf(),
                _ => true,
            },
    {
        proof {
            reveal_strlit("list");
            reveal_strlit("new");
            reveal_strlit("step");
            reveal_strlit("next");
            assert("list"@ =~= seq!['l', 'i', 's', 't']);
            assert("new"@ =~= seq!['n', 'e', 'w']);
            assert("step"@ =~= seq!['s', 't', 'e', 'p']);
            assert("next"@ =~= seq!['n', 'e', 'x', 't']);
        }
        let ghost w = args.rest();
        let action = match args.next() {
            Some(a) => a,
            None => return Ok(Action::List),
        };
        if same_word(action.as_str(), "list") {
            Ok(Action::List)
        } else if same_word(action.as_str(), "new") {
            let name = match name(args) {
                Ok(n) => n,
                Err(e) => return Err(e),
            };
            let start = match datetime(args, now) {
                Ok(t) => t,
                Err(e) => return Err(e),
            };
            let every = match interval(args) {
                Ok(d) => d,
                Err(e) => return Err(e),
            };
            Ok(Action::New { name, start, every })
        } else if same_word(action.as_str(), "step") {
            match name(args) {
                Ok(n) => Ok(Action::Step(n)),
                Err(e) => Err(e),
            }
        } else if same_word(action.as_str(), "next") {
            match name(args) {
                Ok(n) => Ok(Action::Next(n)),
                Err(e) => Err(e),
            }
        } else {
            Err(ArgError::UnknownAction)
        }
    }
}


/// A span shown as `[-]HHhMMmSSs`: whole hours, then the minutes and seconds
/// left over, each counted on the span's length.
pub struct FormattedInterval(pub Duration);

/// Whole seconds in the length of `d`, leaving its sign aside.
pub open spec fn abs_seconds(d: Duration) -> int {
    (if d.nanos() < 0 {
        -d.nanos()
    } else {
        d.nanos()
    }) / NANOS_PER_SECOND as int
}

impl FormattedInterval {
    /// The sign, hours, minutes and seconds that the text shows.
    pub fn parts(&self) -> (r: (bool, u64, u8, u8))
        requires
            self.0.wf(),
        ensures
            r.0 == (self.0.nanos() < 0),
            r.1 == abs_seconds(self.0) / 3600,
            r.2 == (abs_seconds(self.0) / 60) % 60,
            r.3 == abs_seconds(self.0) % 60,
    {
        let span_part: i128 = self.0.seconds as i128 * NANOS_PER_SECOND as i128;
        proof {
            assert(-0x8000000000000000 * 1000000000 <= span_part <= 0x8000000000000000
                * 1000000000) by (nonlinear_arith)
                requires
                    span_part == self.0.seconds * 1000000000,
                    -0x8000000000000000 <= self.0.seconds <= 0x8000000000000000,
            ;
        }
        let n: i128 = span_part + self.0.nanosecond as i128;
        let a: u128 = if n < 0 {
            (-n) as u128
        } else {
            n as u128
        };
        let secs: u128 = a / NANOS_PER_SECOND as u128;
        proof {
            vstd::arithmetic::div_mod::lemma_div_is_ordered(
                a as int,
                0x8000000000000001int * 1000000000,
                1000000000,
            );
            vstd::arithmetic::div_mod::lemma_div_by_multiple(0x8000000000000001int, 1000000000);
        }
        (n < 0, (secs / 3600) as u64, ((secs / 60) % 60) as u8, (secs % 60) as u8)
    }
}

} // verus!
