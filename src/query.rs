use vstd::prelude::*;
use crate::models::{Board, Card, Status};
use crate::text::{contains, contains_folded, is_substring, lower_of};

verus! {

/// Length of the recency window, in microseconds: one day.
pub const DAY_MICROS: i64 = 86_400_000_000;

/// A board or card created at `created_at` is recent at instant `now` when
/// it was created at most one day before `now`.
pub open spec fn is_recent(created_at: i64, now: i64) -> bool {
    created_at >= now - DAY_MICROS
}

/// The earliest recent instant at `now`, saturated at the range of `i64`.
pub fn recent_cutoff(now: i64) -> (r: i64)
    ensures
        r == if now - DAY_MICROS < i64::MIN {
            i64::MIN as int
        } else {
            now - DAY_MICROS
        },
{
    if now < i64::MIN + DAY_MICROS {
        i64::MIN
    } else {
        now - DAY_MICROS
    }
}

/// Relies on `DateTime<Utc>: From<SystemTime>` and
/// `DateTime::timestamp_micros`: the present instant of the system clock in
/// microseconds since the Unix epoch, negative for a clock set before it.
/// Nothing is promised of the value: it is whatever the clock reads.
#[verifier::external_body]
pub(crate) fn now_micros() -> (r: i64) {
    chrono::DateTime::<chrono::Utc>::from(std::time::SystemTime::now()).timestamp_micros()
}

/// Whether an instant lies in the recency window at `now`.
pub fn is_recent_at(created_at: i64, now: i64) -> (r: bool)
    ensures
        r == is_recent(created_at, now),
{
    created_at >= recent_cutoff(now)
}

/// Which boards a query or a delete selects.
pub enum BoardFilter {
    All,
    Id(i64),
    /// Exact name.
    Name(String),
    /// Case-sensitive substring of the name.
    NameContains(String),
    /// Created within the last day.
    Recent,
    /// Recent, and the lower-case fragment occurs in the lower-case name.
    RecentAndNameContains(String),
    /// Recent, or the lower-case fragment occurs in the lower-case name.
    RecentOrNameContains(String),
}

/// Whether `f` selects board `b` at instant `now`.
pub open spec fn board_selected(f: BoardFilter, b: Board, now: i64) -> bool {
    match f {
        BoardFilter::All => true,
        BoardFilter::Id(id) => b.id == id,
        BoardFilter::Name(n) => b.name@ == n@,
        BoardFilter::NameContains(frag) => is_substring(frag@, b.name@),
        BoardFilter::Recent => is_recent(b.created_at, now),
        BoardFilter::RecentAndNameContains(frag) => is_recent(b.created_at, now)
            && is_substring(lower_of(frag@), lower_of(b.name@)),
        BoardFilter::RecentOrNameContains(frag) => is_recent(b.created_at, now)
            || is_substring(lower_of(frag@), lower_of(b.name@)),
    }
}

/// Decides `board_selected`.
pub fn board_matches(f: &BoardFilter, b: &Board, now: i64) -> (r: bool)
    ensures
        r == board_selected(*f, *b, now),
{
    match f {
        BoardFilter::All => true,
        BoardFilter::Id(id) => b.id == *id,
        BoardFilter::Name(n) => b.name == *n,
        BoardFilter::NameContains(frag) => contains(b.name.as_str(), frag.as_str()),
        BoardFilter::Recent => is_recent_at(b.created_at, now),
        BoardFilter::RecentAndNameContains(frag) => is_recent_at(b.created_at, now)
            && contains_folded(b.name.as_str(), frag.as_str()),
        BoardFilter::RecentOrNameContains(frag) => is_recent_at(b.created_at, now)
            || contains_folded(b.name.as_str(), frag.as_str()),
    }
}

/// Which cards a query or a delete selects.
#[derive(Clone, Copy, Debug, PartialEq, Eq, Structural)]
pub enum CardFilter {
    All,
    Id(i64),
    Board(i64),
    Status(Status),
    /// Cards of one board in one status.
    BoardStatus(i64, Status),
}

/// Whether `f` selects card `c`.
pub open spec fn card_selected(f: CardFilter, c: Card) -> bool {
    match f {
        CardFilter::All => true,
        CardFilter::Id(id) => c.id == id,
        CardFilter::Board(board_id) => c.board_id == board_id,
        CardFilter::Status(s) => c.status == s,
        CardFilter::BoardStatus(board_id, s) => c.board_id == board_id && c.status == s,
    }
}

/// `card_selected` as a predicate on cards.
pub open spec fn card_pred(f: CardFilter) -> spec_fn(Card) -> bool {
    |c: Card| card_selected(f, c)
}

/// Decides `card_selected`.
pub fn card_matches(f: CardFilter, c: &Card) -> (r: bool)
    ensures
        r == card_selected(f, *c),
{
    match f {
        CardFilter::All => true,
        CardFilter::Id(id) => c.id == id,
        CardFilter::Board(board_id) => c.board_id == board_id,
        CardFilter::Status(s) => c.status == s,
        CardFilter::BoardStatus(board_id, s) => c.board_id == board_id && c.status == s,
    }
}

} // verus!
