//! Moments in time.

use vstd::prelude::*;

verus! {

/// A moment in UTC: whole seconds since 1970-01-01T00:00:00Z and the
/// nanoseconds past them.
#[derive(Debug, Clone, Copy, PartialEq, Eq, Structural)]
pub struct Instant {
    pub seconds: i64,
    pub nanos: u32,
}

impl Instant {
    pub open spec fn earlier(self, other: Instant) -> bool {
        self.seconds < other.seconds || (self.seconds == other.seconds && self.nanos < other.nanos)
    }

    /// Whether this moment comes before the other.
    pub fn is_before(self, other: Instant) -> (before: bool)
        ensures
            before == self.earlier(other),
    {
        self.seconds < other.seconds || (self.seconds == other.seconds && self.nanos < other.nanos)
    }

    /// A moment of chrono's calendar: of the years -262143 to 262142, within a second
    /// or within a leap second at the end of a minute.
    pub open spec fn on_calendar(self) -> bool {
        calendar_has(self.seconds, self.nanos)
    }
}

pub open spec fn calendar_has(seconds: i64, nanos: u32) -> bool {
    &&& -8334601228800 <= seconds <= 8210266876799
    &&& nanos < 1_000_000_000 || (nanos < 2_000_000_000 && seconds as int % 60 == 59)
}

/// What chrono reads off a text as a moment: its seconds and nanoseconds, or
/// why it is none.
pub uninterp spec fn instant_reading(text: Seq<char>) -> core::result::Result<
    (i64, u32),
    Seq<char>,
>;

pub open spec fn reads_as(text: Seq<char>, seconds: i64, nanos: u32) -> bool {
    instant_reading(text) == Ok::<(i64, u32), Seq<char>>((seconds, nanos))
}

/// How chrono writes a moment, with `Z` or with `+00:00` for the offset.
pub uninterp spec fn instant_writing(seconds: i64, nanos: u32, zulu: bool) -> Option<Seq<char>>;

/// `chrono::Utc::now`, as seconds since 1970 and nanoseconds below one second.
/// chrono panics where the clock of the machine stands before 1970.
#[verifier::external_body]
fn clock_reading() -> (now: (i64, u32))
    ensures
        now.0 >= 0,
        now.1 < 1_000_000_000,
{
    let now = chrono::Utc::now();
    (now.timestamp(), now.timestamp_subsec_nanos())
}

/// `<chrono::DateTime<Utc> as FromStr>::from_str`. What it makes of a text, and
/// what it says of a text that it refuses, depend on the text alone.
#[verifier::external_body]
fn parsed_instant(text: &str) -> (reading: core::result::Result<(i64, u32), String>)
    ensures
        match reading {
            Ok(moment) => instant_reading(text@) == Ok::<(i64, u32), Seq<char>>(moment),
            Err(why) => instant_reading(text@) == Err::<(i64, u32), Seq<char>>(why@),
        },
{
    match text.parse::<chrono::DateTime<chrono::Utc>>() {
        Ok(moment) => Ok((moment.timestamp(), moment.timestamp_subsec_nanos())),
        Err(why) => Err(why.to_string()),
    }
}

/// `chrono::DateTime::<Utc>::to_rfc3339_opts` with as many decimals as the moment
/// needs; nothing where `from_timestamp` knows no such moment, which is where the
/// day is beyond the calendar or the nanoseconds are neither below one second nor
/// those of a leap second. What is written is read back as that moment.
#[verifier::external_body]
fn formatted_instant(seconds: i64, nanos: u32, zulu: bool) -> (text: Option<String>)
    ensures
        text is Some <==> calendar_has(seconds, nanos),
        text is Some ==> instant_writing(seconds, nanos, zulu) == Some(text->0@),
        text is None ==> instant_writing(seconds, nanos, zulu) is None,
        text is Some ==> reads_as(text->0@, seconds, nanos),
{
    let moment = chrono::DateTime::from_timestamp(seconds, nanos)?;
    Some(moment.to_rfc3339_opts(chrono::SecondsFormat::AutoSi, zulu))
}

impl Instant {
    /// The moment that the machine's clock shows.
    pub fn now() -> (at: Instant)
        ensures
            at.seconds >= 0,
            at.nanos < 1_000_000_000,
    {
        let (seconds, nanos) = clock_reading();
        Instant { seconds, nanos }
    }

    /// The moment that a text names.
    pub fn read(text: &str) -> (reading: core::result::Result<Instant, String>)
        ensures
            match reading {
                Ok(at) => instant_reading(text@) == Ok::<(i64, u32), Seq<char>>(
                    (at.seconds, at.nanos),
                ),
                Err(why) => instant_reading(text@) == Err::<(i64, u32), Seq<char>>(why@),
            },
    {
        match parsed_instant(text) {
            Ok((seconds, nanos)) => Ok(Instant { seconds, nanos }),
            Err(why) => Err(why),
        }
    }

    /// The moment as text; nothing for one that has none.
    pub open spec fn wire(self) -> Option<Seq<char>> {
        instant_writing(self.seconds, self.nanos, true)
    }

    pub fn to_wire(self) -> (text: Option<String>)
        ensures
            crate::views::opt_view(text) == self.wire(),
            text is Some <==> self.on_calendar(),
            text is Some ==> reads_as(text->0@, self.seconds, self.nanos),
    {
        formatted_instant(self.seconds, self.nanos, true)
    }

    /// The moment as documents and messages show it; empty for one beyond all
    /// calendars.
    pub open spec fn shown(self) -> Seq<char> {
        match instant_writing(self.seconds, self.nanos, false) {
            Some(text) => text,
            None => Seq::empty(),
        }
    }

    pub fn to_rfc3339(self) -> (text: String)
        ensures
            text@ == self.shown(),
    {
        match formatted_instant(self.seconds, self.nanos, false) {
            Some(text) => text,
            None => String::new(),
        }
    }
}

} // verus!
