//! Points in time as the terminal records them: milliseconds since the Unix
//! epoch together with the local UTC offset that was in force. Calendar
//! arithmetic and formatting are chrono's; this module only carries the
//! values and asks chrono for their text. The clock is read by the
//! application, which hands the reading in.
use vstd::prelude::*;

verus! {

/// The first and last millisecond chrono can represent: the starts of
/// -262143-01-01 and the end of 262142-12-31 (UTC).
pub open spec fn min_chrono_millis() -> int {
    -8_334_601_228_800_000
}

pub open spec fn max_chrono_millis() -> int {
    8_210_266_876_799_999
}

/// Whether `chrono::DateTime::from_timestamp_millis(millis)` yields a date:
/// exactly when it falls within chrono's range of years.
pub open spec fn chrono_millis_ok(millis: i64) -> bool {
    min_chrono_millis() <= millis <= max_chrono_millis()
}

/// The text chrono produces for the instant `millis` seen at the fixed UTC
/// offset `offset_secs`, formatted with the strftime pattern `pattern`.
pub uninterp spec fn chrono_text(millis: i64, offset_secs: i32, pattern: Seq<char>) -> Seq<char>;

/// The pattern of the timestamp prefix of a terminal line.
pub open spec fn entry_pattern() -> Seq<char> {
    "[%Y-%m-%d %H:%M:%S%.3f] "@
}

/// The pattern of a driver date.
pub open spec fn date_pattern() -> Seq<char> {
    "%Y-%m-%d"@
}

pub open spec fn offset_ok(offset_secs: i32) -> bool {
    -86_400 < offset_secs && offset_secs < 86_400
}

/// Asks chrono whether `millis` is a representable instant
/// (`chrono::DateTime::from_timestamp_millis(millis).is_some()`): it is when
/// the day `millis` falls on lies within chrono's years -262143 to 262142.
#[verifier::external_body]
fn chrono_accepts_millis(millis: i64) -> (b: bool)
    ensures
        b == chrono_millis_ok(millis),
{
    chrono::DateTime::from_timestamp_millis(millis).is_some()
}

/// chrono's text for an instant at a fixed offset:
/// `DateTime::from_timestamp_millis(millis)`, moved to
/// `FixedOffset::east_opt(offset_secs)`, then `format(pattern).to_string()`.
/// The claim is only that the text is chrono's function of the three
/// arguments. Both `unwrap`s succeed under `requires`; the two patterns
/// admitted hold only valid strftime items, so formatting cannot fail.
#[verifier::external_body]
fn chrono_format(millis: i64, offset_secs: i32, pattern: &str) -> (s: String)
    requires
        chrono_millis_ok(millis),
        offset_ok(offset_secs),
        pattern@ == entry_pattern() || pattern@ == date_pattern(),
    ensures
        s@ == chrono_text(millis, offset_secs, pattern@),
{
    let offset = chrono::FixedOffset::east_opt(offset_secs).unwrap();
    chrono::DateTime::from_timestamp_millis(millis).unwrap().with_timezone(&offset).format(
        pattern,
    ).to_string()
}

/// An instant with the local UTC offset in force at that instant.
#[derive(Clone, Copy, Debug)]
pub struct Timestamp {
    millis: i64,
    offset_secs: i32,
}

impl Timestamp {
    #[verifier::type_invariant]
    spec fn inv(self) -> bool {
        chrono_millis_ok(self.millis) && offset_ok(self.offset_secs)
    }

    pub closed spec fn spec_millis(self) -> i64 {
        self.millis
    }

    pub closed spec fn spec_offset(self) -> i32 {
        self.offset_secs
    }

    /// The timestamp for `millis` at offset `offset_secs`, when chrono can
    /// represent it.
    pub fn new(millis: i64, offset_secs: i32) -> (r: Option<Timestamp>)
        ensures
            r is Some <==> (chrono_millis_ok(millis) && offset_ok(offset_secs)),
            r matches Some(t) ==> t.spec_millis() == millis && t.spec_offset() == offset_secs,
    {
        if -86_400 < offset_secs && offset_secs < 86_400 && chrono_accepts_millis(millis) {
            Some(Timestamp { millis, offset_secs })
        } else {
            None
        }
    }

    pub fn millis(&self) -> (m: i64)
        ensures
            m == self.spec_millis(),
    {
        self.millis
    }

    pub fn offset_secs(&self) -> (o: i32)
        ensures
            o == self.spec_offset(),
    {
        self.offset_secs
    }

    /// The line prefix `[YYYY-MM-DD HH:MM:SS.mmm] ` for this instant.
    pub fn entry_prefix(&self) -> (s: String)
        ensures
            s@ == chrono_text(self.spec_millis(), self.spec_offset(), entry_pattern()),
    {
        proof {
            use_type_invariant(self);
        }
        chrono_format(self.millis, self.offset_secs, "[%Y-%m-%d %H:%M:%S%.3f] ")
    }
}

/// The calendar date `YYYY-MM-DD` (UTC) of `millis`, when chrono can
/// represent that instant.
pub fn utc_date_text(millis: i64) -> (r: Option<String>)
    ensures
        r is Some <==> chrono_millis_ok(millis),
        r matches Some(s) ==> s@ == chrono_text(millis, 0, date_pattern()),
{
    if chrono_accepts_millis(millis) {
        Some(chrono_format(millis, 0, "%Y-%m-%d"))
    } else {
        None
    }
}

} // verus!
