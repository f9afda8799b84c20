//! Points in time.
use vstd::prelude::*;

verus! {

/// A UTC instant: whole seconds since the Unix epoch, and nanoseconds within
/// the second.
#[derive(Debug, Clone, Copy, PartialEq, Eq, Structural)]
pub struct Timestamp {
    pub secs: i64,
    pub nanos: u32,
}

/// The first second of the calendar (in the year -262143).
pub const MIN_SECS: i64 = -8_334_601_228_800;

/// The last second of the calendar (in the year 262142).
pub const MAX_SECS: i64 = 8_210_266_876_799;

/// How an instant reads in a message: date and time with a space between them,
/// and the zone. `None` when the calendar does not hold the instant.
pub uninterp spec fn utc_text(secs: i64, nanos: u32) -> Option<Seq<char>>;

/// How an instant reads on the wire, in RFC 3339 form with a `Z`. `None` when
/// the calendar does not hold the instant.
pub uninterp spec fn rfc3339_text(secs: i64, nanos: u32) -> Option<Seq<char>>;

/// `chrono::DateTime<Utc>`'s `Display`, on the instant that
/// `DateTime::from_timestamp` makes of the two numbers.
#[verifier::external_body]
fn format_utc(secs: i64, nanos: u32) -> (r: Option<String>)
    ensures
        r.deep_view() == utc_text(secs, nanos),
{
    match chrono::DateTime::<chrono::Utc>::from_timestamp(secs, nanos) {
        Some(t) => Some(t.to_string()),
        None => None,
    }
}

/// `chrono::DateTime::to_rfc3339_opts` with automatic precision and a `Z`, on
/// the instant that `DateTime::from_timestamp` makes of the two numbers.
#[verifier::external_body]
fn format_rfc3339(secs: i64, nanos: u32) -> (r: Option<String>)
    ensures
        r.deep_view() == rfc3339_text(secs, nanos),
{
    match chrono::DateTime::<chrono::Utc>::from_timestamp(secs, nanos) {
        Some(t) => Some(t.to_rfc3339_opts(chrono::SecondsFormat::AutoSi, true)),
        None => None,
    }
}

/// The text, or the empty text when there is none.
pub open spec fn or_empty(t: Option<Seq<char>>) -> Seq<char> {
    match t {
        Some(s) => s,
        None => Seq::empty(),
    }
}

impl Timestamp {
    /// `self` is earlier than `other`.
    pub open spec fn before(self, other: Timestamp) -> bool {
        self.secs < other.secs || (self.secs == other.secs && self.nanos < other.nanos)
    }

    /// The instant `seconds` later. A count of nanoseconds of a second or more
    /// marks an instant within a leap second, which any whole second leaves.
    pub open spec fn later(self, seconds: nat) -> Timestamp {
        Timestamp {
            secs: (self.secs + seconds) as i64,
            nanos: if seconds > 0 && self.nanos >= 1_000_000_000 {
                (self.nanos - 1_000_000_000) as u32
            } else {
                self.nanos
            },
        }
    }

    /// The calendar holds the instant `seconds` later.
    pub open spec fn can_add(self, seconds: nat) -> bool {
        MIN_SECS <= self.secs && self.secs + seconds <= MAX_SECS
    }

    /// How the instant reads in a message.
    pub open spec fn message_text(self) -> Seq<char> {
        or_empty(utc_text(self.secs, self.nanos))
    }

    /// How the instant reads on the wire.
    pub open spec fn wire_text(self) -> Seq<char> {
        or_empty(rfc3339_text(self.secs, self.nanos))
    }

    /// Whether `self` is earlier than `other`.
    pub fn is_before(&self, other: &Timestamp) -> (r: bool)
        ensures
            r == self.before(*other),
    {
        self.secs < other.secs || (self.secs == other.secs && self.nanos < other.nanos)
    }

    /// Whether the calendar holds the instant `seconds` later.
    pub fn holds_later(&self, seconds: u64) -> (r: bool)
        ensures
            r == self.can_add(seconds as nat),
    {
        if self.secs < MIN_SECS || seconds > i64::MAX as u64 {
            return false;
        }
        if self.secs > MAX_SECS {
            return false;
        }
        seconds as i64 <= MAX_SECS - self.secs
    }

    /// The instant `seconds` later.
    pub fn plus_seconds(&self, seconds: u64) -> (r: Timestamp)
        requires
            self.can_add(seconds as nat),
        ensures
            r == self.later(seconds as nat),
    {
        let nanos: u32 = if seconds > 0 && self.nanos >= 1_000_000_000 {
            self.nanos - 1_000_000_000
        } else {
            self.nanos
        };
        Timestamp { secs: self.secs + (seconds as i64), nanos }
    }

    /// How the instant reads in a message; empty when the calendar does not
    /// hold it.
    pub fn to_message(&self) -> (r: String)
        ensures
            r@ == self.message_text(),
    {
        match format_utc(self.secs, self.nanos) {
            Some(t) => t,
            None => String::new(),
        }
    }

    /// How the instant reads on the wire; empty when the calendar does not
    /// hold it.
    pub fn to_wire(&self) -> (r: String)
        ensures
            r@ == self.wire_text(),
    {
        match format_rfc3339(self.secs, self.nanos) {
            Some(t) => t,
            None => String::new(),
        }
    }
}

/// Of two instants exactly one holds: the one is earlier, they are the same, or the
/// other is earlier. Within one second the nanoseconds decide.
pub proof fn law_instants_are_ordered(a: Timestamp, b: Timestamp)
    ensures
        a.before(b) ==> !b.before(a) && a != b,
        a.before(b) || b.before(a) || a == b,
        a.secs < b.secs ==> a.before(b),
        a.secs == b.secs && a.nanos < b.nanos ==> a.before(b),
{
}

/// An instant that is some seconds later is that many seconds later, and not
/// before.
pub proof fn law_later_is_later(t: Timestamp, seconds: nat)
    requires
        t.can_add(seconds),
        t.nanos < 1_000_000_000,
    ensures
        t.later(seconds).secs == t.secs + seconds,
        t.later(seconds).nanos == t.nanos,
        seconds > 0 ==> t.before(t.later(seconds)),
        !t.later(seconds).before(t),
{
}

} // verus!
