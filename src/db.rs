use vstd::prelude::*;
use crate::error::DbError;
use crate::models::{
    Board,
    BoardSummary,
    Card,
    CreateBoard,
    CreateCard,
    Status,
    StatusCount,
    UpdateCard,
    status_total,
};
use crate::query::{
    BoardFilter,
    CardFilter,
    board_matches,
    board_selected,
    card_matches,
    card_pred,
    card_selected,
    is_recent,
    now_micros,
};
use crate::text::{is_substring, lower_of};
use crate::rows::{
    every,
    pairwise,
    lemma_filter_all,
    lemma_filter_every,
    lemma_filter_none,
    lemma_filter_pairwise,
    lemma_filter_prefix_step,
};

verus! {

broadcast use vstd::seq_lib::group_filter_ensures;

/// What the tables hold.
pub ghost struct Tables {
    /// Boards in insertion order.
    pub boards: Seq<Board>,
    /// Cards in insertion order.
    pub cards: Seq<Card>,
    /// The id the next board gets; every id handed out so far is below it.
    pub next_board_id: int,
    /// The id the next card gets; every id handed out so far is below it.
    pub next_card_id: int,
    /// The latest creation instant handed out so far.
    pub clock: int,
    /// Every board id handed out so far, deleted boards' included.
    pub board_ids: Set<i64>,
}

/// `a` was stored before `b`: smaller id, creation no later.
pub open spec fn board_before(a: Board, b: Board) -> bool {
    a.id < b.id && a.created_at <= b.created_at
}

/// `a` was stored before `b`: smaller id, creation no later.
pub open spec fn card_before(a: Card, b: Card) -> bool {
    a.id < b.id && a.created_at <= b.created_at
}

/// Rows come in order of creation time, earliest first.
pub open spec fn boards_by_creation(rows: Seq<Board>) -> bool {
    forall|i: int, j: int|
        0 <= i < j < rows.len() ==> #[trigger] rows[i].created_at <= #[trigger] rows[j].created_at
}

impl Tables {
    /// Ids and creation instants grow with insertion order and stay below
    /// the next id and the clock.
    pub open spec fn wf(self) -> bool {
        &&& forall|i: int, j: int|
            0 <= i < j < self.boards.len() ==> #[trigger] board_before(
                self.boards[i],
                self.boards[j],
            )
        &&& forall|i: int, j: int|
            0 <= i < j < self.cards.len() ==> #[trigger] card_before(self.cards[i], self.cards[j])
        &&& forall|i: int| 0 <= i < self.boards.len() ==> #[trigger] self.board_fits(self.boards[i])
        &&& forall|i: int| 0 <= i < self.cards.len() ==> #[trigger] self.card_fits(self.cards[i])
        &&& 1 <= self.next_board_id <= i64::MAX
        &&& 1 <= self.next_card_id <= i64::MAX
        &&& self.cards.len() < self.next_card_id
        &&& i64::MIN <= self.clock <= i64::MAX
        &&& forall|id: i64| #[trigger] self.board_ids.contains(id) ==> 1 <= id < self.next_board_id
    }

    /// A board's id was handed out and its instant is no later than the clock.
    pub open spec fn board_fits(self, b: Board) -> bool {
        1 <= b.id < self.next_board_id && b.created_at <= self.clock && self.board_ids.contains(b.id)
    }

    /// A card's id was handed out and its instant is no later than the clock.
    pub open spec fn card_fits(self, c: Card) -> bool {
        1 <= c.id < self.next_card_id && c.created_at <= self.clock
    }

    /// Number of cards of `board_id` in status `s`.
    pub open spec fn status_count(self, board_id: i64, s: Status) -> int {
        self.cards.filter(card_pred(CardFilter::BoardStatus(board_id, s))).len() as int
    }
}

/// A verified in-memory model of the two tables: it states, and computes,
/// which rows each query of the data-access layer selects and how each
/// command changes the tables. It persists nothing; the store itself is an
/// outside service.
pub struct Db {
    boards: Vec<Board>,
    cards: Vec<Card>,
    next_board_id: i64,
    next_card_id: i64,
    clock: i64,
    board_ids: Ghost<Set<i64>>,
}

impl View for Db {
    type V = Tables;

    closed spec fn view(&self) -> Tables {
        Tables {
            boards: self.boards@,
            cards: self.cards@,
            next_board_id: self.next_board_id as int,
            next_card_id: self.next_card_id as int,
            clock: self.clock as int,
            board_ids: self.board_ids@,
        }
    }
}

/// The rows of `rows` that `f` selects at `now` (`keep`), or the others.
fn filter_boards(rows: &Vec<Board>, f: &BoardFilter, now: i64, keep: bool) -> (r: Vec<Board>)
    ensures
        r@ == rows@.filter(|b: Board| board_selected(*f, b, now) == keep),
{
    let ghost p = |b: Board| board_selected(*f, b, now) == keep;
    let mut out: Vec<Board> = Vec::new();
    let mut i: usize = 0;
    proof {
        reveal(Seq::filter);
        assert(rows@.subrange(0, 0) =~= Seq::<Board>::empty());
    }
    while i < rows.len()
        invariant
            i <= rows@.len(),
            p == (|b: Board| board_selected(*f, b, now) == keep),
            out@ == rows@.subrange(0, i as int).filter(p),
        decreases rows@.len() - i,
    {
        proof {
            lemma_filter_prefix_step(rows@, i as int, p);
        }
        if board_matches(f, &rows[i], now) == keep {
            out.push(rows[i].clone());
        }
        i = i + 1;
    }
    assert(rows@.subrange(0, rows@.len() as int) =~= rows@);
    out
}

/// The rows of `rows` that `f` selects (`keep`), or the others.
fn filter_cards(rows: &Vec<Card>, f: CardFilter, keep: bool) -> (r: Vec<Card>)
    ensures
        r@ == rows@.filter(|c: Card| card_selected(f, c) == keep),
{
    let ghost p = |c: Card| card_selected(f, c) == keep;
    let mut out: Vec<Card> = Vec::new();
    let mut i: usize = 0;
    proof {
        reveal(Seq::filter);
        assert(rows@.subrange(0, 0) =~= Seq::<Card>::empty());
    }
    while i < rows.len()
        invariant
            i <= rows@.len(),
            p == (|c: Card| card_selected(f, c) == keep),
            out@ == rows@.subrange(0, i as int).filter(p),
        decreases rows@.len() - i,
    {
        proof {
            lemma_filter_prefix_step(rows@, i as int, p);
        }
        if card_matches(f, &rows[i]) == keep {
            out.push(rows[i].clone());
        }
        i = i + 1;
    }
    assert(rows@.subrange(0, rows@.len() as int) =~= rows@);
    out
}

/// How many rows of `rows` `f` selects.
fn count_cards(rows: &Vec<Card>, f: CardFilter) -> (r: i64)
    requires
        rows@.len() <= i64::MAX,
    ensures
        r == rows@.filter(card_pred(f)).len(),
{
    let ghost p = card_pred(f);
    let mut n: i64 = 0;
    let mut i: usize = 0;
    proof {
        reveal(Seq::filter);
        assert(rows@.subrange(0, 0) =~= Seq::<Card>::empty());
    }
    while i < rows.len()
        invariant
            i <= rows@.len() <= i64::MAX,
            p == card_pred(f),
            n == rows@.subrange(0, i as int).filter(p).len(),
            n <= i,
        decreases rows@.len() - i,
    {
        proof {
            lemma_filter_prefix_step(rows@, i as int, p);
        }
        if card_matches(f, &rows[i]) {
            n = n + 1;
        }
        i = i + 1;
    }
    assert(rows@.subrange(0, rows@.len() as int) =~= rows@);
    n
}

/// `rows` in the opposite order.
fn reversed(rows: Vec<Board>) -> (r: Vec<Board>)
    ensures
        r@ == rows@.reverse(),
{
    let mut out: Vec<Board> = Vec::new();
    let mut k: usize = rows.len();
    while k > 0
        invariant
            k <= rows@.len(),
            out@ =~= rows@.reverse().subrange(0, rows@.len() - k),
        decreases k,
    {
        k = k - 1;
        out.push(rows[k].clone());
    }
    out
}

/// The instant a row created at `now` gets: `now`, or the latest instant
/// handed out so far if that is later, so that creation order and time agree.
pub open spec fn creation_instant(t: Tables, now: i64) -> int {
    if now >= t.clock {
        now as int
    } else {
        t.clock
    }
}

/// Boards created within the last day at `now`, latest first.
pub open spec fn recent_boards(boards: Seq<Board>, now: i64) -> Seq<Board> {
    boards.filter(|b: Board| is_recent(b.created_at, now)).reverse()
}

/// Recent boards at `now` whose lower-case name holds the lower-case
/// `fragment`, latest first.
pub open spec fn recent_boards_named(boards: Seq<Board>, fragment: Seq<char>, now: i64) -> Seq<
    Board,
> {
    boards.filter(
        |b: Board|
            is_recent(b.created_at, now) && is_substring(lower_of(fragment), lower_of(b.name@)),
    ).reverse()
}

/// Boards that are recent at `now` or whose lower-case name holds the
/// lower-case `fragment`, latest first.
pub open spec fn recent_or_named_boards(
    boards: Seq<Board>,
    fragment: Seq<char>,
    now: i64,
) -> Seq<Board> {
    boards.filter(
        |b: Board|
            is_recent(b.created_at, now) || is_substring(lower_of(fragment), lower_of(b.name@)),
    ).reverse()
}

/// Some row of `rows` has id `id`.
pub open spec fn has_board(rows: Seq<Board>, id: i64) -> bool {
    exists|i: int| 0 <= i < rows.len() && #[trigger] rows[i].id == id
}

/// Some row of `rows` has id `id`.
pub open spec fn has_card(rows: Seq<Card>, id: i64) -> bool {
    exists|i: int| 0 <= i < rows.len() && #[trigger] rows[i].id == id
}

/// `c` with the description and status that `upd` gives.
pub open spec fn updated_card(c: Card, upd: UpdateCard) -> Card {
    Card { description: upd.description, status: upd.status, ..c }
}

/// Keeping some of the boards keeps the tables well formed.
proof fn lemma_keep_boards_wf(t: Tables, p: spec_fn(Board) -> bool)
    requires
        t.wf(),
    ensures
        (Tables { boards: t.boards.filter(p), ..t }).wf(),
{
    let rel = |a: Board, b: Board| board_before(a, b);
    let fits = |b: Board| t.board_fits(b);
    assert(pairwise(t.boards, rel)) by {
        assert forall|i: int, j: int| 0 <= i < j < t.boards.len() implies #[trigger] rel(
            t.boards[i],
            t.boards[j],
        ) by {
            assert(board_before(t.boards[i], t.boards[j]));
        }
    }
    assert(every(t.boards, fits)) by {
        assert forall|i: int| 0 <= i < t.boards.len() implies #[trigger] fits(t.boards[i]) by {
            assert(t.board_fits(t.boards[i]));
        }
    }
    lemma_filter_pairwise(t.boards, p, rel);
    lemma_filter_every(t.boards, p, fits);
    let f = t.boards.filter(p);
    assert forall|i: int, j: int| 0 <= i < j < f.len() implies #[trigger] board_before(
        f[i],
        f[j],
    ) by {
        assert(rel(f[i], f[j]));
    }
    let t2 = Tables { boards: f, ..t };
    assert forall|i: int| 0 <= i < f.len() implies #[trigger] t2.board_fits(f[i]) by {
        assert(fits(f[i]));
    }
    assert forall|i: int| 0 <= i < t.cards.len() implies #[trigger] t2.card_fits(t.cards[i]) by {
        assert(t.card_fits(t.cards[i]));
    }
}

/// Keeping some of the cards keeps the tables well formed.
proof fn lemma_keep_cards_wf(t: Tables, p: spec_fn(Card) -> bool)
    requires
        t.wf(),
    ensures
        (Tables { cards: t.cards.filter(p), ..t }).wf(),
{
    let rel = |a: Card, b: Card| card_before(a, b);
    let fits = |c: Card| t.card_fits(c);
    assert(pairwise(t.cards, rel)) by {
        assert forall|i: int, j: int| 0 <= i < j < t.cards.len() implies #[trigger] rel(
            t.cards[i],
            t.cards[j],
        ) by {
            assert(card_before(t.cards[i], t.cards[j]));
        }
    }
    assert(every(t.cards, fits)) by {
        assert forall|i: int| 0 <= i < t.cards.len() implies #[trigger] fits(t.cards[i]) by {
            assert(t.card_fits(t.cards[i]));
        }
    }
    lemma_filter_pairwise(t.cards, p, rel);
    lemma_filter_every(t.cards, p, fits);
    let f = t.cards.filter(p);
    assert forall|i: int, j: int| 0 <= i < j < f.len() implies #[trigger] card_before(
        f[i],
        f[j],
    ) by {
        assert(rel(f[i], f[j]));
    }
    let t2 = Tables { cards: f, ..t };
    assert forall|i: int| 0 <= i < f.len() implies #[trigger] t2.card_fits(f[i]) by {
        assert(fits(f[i]));
    }
    assert forall|i: int| 0 <= i < t.boards.len() implies #[trigger] t2.board_fits(
        t.boards[i],
    ) by {
        assert(t.board_fits(t.boards[i]));
    }
    assert(f.len() <= t.cards.len());
}

impl Db {
    /// Empty tables.
    pub fn new() -> (r: Db)
        ensures
            r@.wf(),
            r@ == (Tables {
                boards: Seq::empty(),
                cards: Seq::empty(),
                next_board_id: 1,
                next_card_id: 1,
                clock: i64::MIN as int,
                board_ids: Set::empty(),
            }),
    {
        let r = Db {
            boards: Vec::new(),
            cards: Vec::new(),
            next_board_id: 1,
            next_card_id: 1,
            clock: i64::MIN,
            board_ids: Ghost(Set::empty()),
        };
        assert(r@.boards =~= Seq::empty());
        assert(r@.cards =~= Seq::empty());
        r
    }

    /// Boards that `f` selects at `now`, in insertion order.
    fn select_boards(&self, f: &BoardFilter, now: i64) -> (r: Vec<Board>)
        ensures
            r@ == self@.boards.filter(|b: Board| board_selected(*f, b, now) == true),
    {
        filter_boards(&self.boards, f, now, true)
    }

    /// Stores a board named as `board` says, created at `now` (or at the
    /// latest instant handed out, if later), under the next unused id.
    /// Fails with `QueryError` once ids are exhausted.
    pub fn create_board_at(&mut self, board: CreateBoard, now: i64) -> (r: Result<Board, DbError>)
        requires
            old(self)@.wf(),
        ensures
            final(self)@.wf(),
            old(self)@.next_board_id == i64::MAX ==> r == Err::<Board, DbError>(DbError::QueryError)
                && final(self)@ == old(self)@,
            old(self)@.next_board_id < i64::MAX ==> r == Ok::<Board, DbError>(
                Board {
                    id: old(self)@.next_board_id as i64,
                    name: board.name,
                    created_at: creation_instant(old(self)@, now) as i64,
                },
            ) && final(self)@ == (Tables {
                boards: old(self)@.boards.push(r->Ok_0),
                next_board_id: old(self)@.next_board_id + 1,
                clock: creation_instant(old(self)@, now),
                board_ids: old(self)@.board_ids.insert(r->Ok_0.id),
                ..old(self)@
            }),
    {
        if self.next_board_id == i64::MAX {
            return Err(DbError::QueryError);
        }
        let created_at = if now >= self.clock {
            now
        } else {
            self.clock
        };
        let b = Board { id: self.next_board_id, name: board.name, created_at };
        let ghost old_t = self@;
        self.boards.push(b.clone());
        self.next_board_id = self.next_board_id + 1;
        self.clock = created_at;
        self.board_ids = Ghost(self.board_ids@.insert(b.id));
        proof {
            let t = self@;
            assert forall|i: int, j: int| 0 <= i < j < t.boards.len() implies #[trigger] board_before(
                t.boards[i],
                t.boards[j],
            ) by {
                if j < t.boards.len() - 1 {
                    assert(board_before(old_t.boards[i], old_t.boards[j]));
                } else {
                    assert(old_t.board_fits(old_t.boards[i]));
                }
            }
            assert forall|i: int| 0 <= i < t.boards.len() implies #[trigger] t.board_fits(
                t.boards[i],
            ) by {
                if i < t.boards.len() - 1 {
                    assert(old_t.board_fits(old_t.boards[i]));
                }
            }
            assert forall|i: int| 0 <= i < t.cards.len() implies #[trigger] t.card_fits(
                t.cards[i],
            ) by {
                assert(old_t.card_fits(old_t.cards[i]));
            }
        }
        Ok(b)
    }

    /// Creates a board at the present instant; see `create_board_at`.
    pub fn create_board(&mut self, board: CreateBoard) -> (r: Result<Board, DbError>)
        requires
            old(self)@.wf(),
        ensures
            final(self)@.wf(),
            old(self)@.next_board_id == i64::MAX ==> r == Err::<Board, DbError>(DbError::QueryError)
                && final(self)@ == old(self)@,
            old(self)@.next_board_id < i64::MAX ==> exists|now: i64|
                r == Ok::<Board, DbError>(
                    Board {
                        id: old(self)@.next_board_id as i64,
                        name: board.name,
                        created_at: creation_instant(old(self)@, now) as i64,
                    },
                ) && final(self)@ == (Tables {
                    boards: old(self)@.boards.push(r->Ok_0),
                    next_board_id: old(self)@.next_board_id + 1,
                    clock: creation_instant(old(self)@, now),
                    board_ids: old(self)@.board_ids.insert(r->Ok_0.id),
                    ..old(self)@
                }),
    {
        let now = now_micros();
        self.create_board_at(board, now)
    }

    /// Every board, earliest created first.
    pub fn get_all_boards(&self) -> (r: Result<Vec<Board>, DbError>)
        ensures
            r is Ok,
            r->Ok_0@ == self@.boards,
    {
        let v = self.select_boards(&BoardFilter::All, 0);
        proof {
            lemma_filter_all(self@.boards, |b: Board| board_selected(BoardFilter::All, b, 0) == true);
        }
        Ok(v)
    }

    /// The board with id `id`; `NotFound` when there is none.
    pub fn get_board_by_id(&self, id: i64) -> (r: Result<Board, DbError>)
        ensures
            r is Err <==> !has_board(self@.boards, id),
            r is Err ==> r == Err::<Board, DbError>(DbError::NotFound),
            r is Ok ==> r->Ok_0.id == id && self@.boards.contains(r->Ok_0),
    {
        let f = BoardFilter::Id(id);
        let found = self.select_boards(&f, 0);
        let ghost p = |b: Board| board_selected(f, b, 0) == true;
        if found.len() == 0 {
            proof {
                if has_board(self@.boards, id) {
                    let i = choose|i: int| 0 <= i < self@.boards.len() && #[trigger] self@.boards[i].id == id;
                    self@.boards.lemma_filter_contains(p, i);
                }
            }
            Err(DbError::NotFound)
        } else {
            proof {
                self@.boards.lemma_filter_pred(p, 0);
                self@.boards.lemma_filter_contains_rev(p, found@[0]);
            }
            Ok(found[0].clone())
        }
    }

    /// Boards whose name is exactly `name`, in insertion order.
    pub fn get_board_by_name(&self, name: &str) -> (r: Result<Vec<Board>, DbError>)
        ensures
            r is Ok,
            r->Ok_0@ == self@.boards.filter(|b: Board| b.name@ == name@),
    {
        let f = BoardFilter::Name(name.to_owned());
        let v = self.select_boards(&f, 0);
        assert((|b: Board| board_selected(f, b, 0) == true) =~= (|b: Board| b.name@ == name@));
        Ok(v)
    }

    /// Boards whose name holds `fragment`, matching case, in insertion order.
    pub fn get_board_name_contains(&self, fragment: &str) -> (r: Result<Vec<Board>, DbError>)
        ensures
            r is Ok,
            r->Ok_0@ == self@.boards.filter(|b: Board| is_substring(fragment@, b.name@)),
    {
        let f = BoardFilter::NameContains(fragment.to_owned());
        let v = self.select_boards(&f, 0);
        assert((|b: Board| board_selected(f, b, 0) == true) =~= (|b: Board| is_substring(
            fragment@,
            b.name@,
        )));
        Ok(v)
    }

    /// Boards created within the day before `now`, latest first.
    pub fn get_recent_boards_at(&self, now: i64) -> (r: Result<Vec<Board>, DbError>)
        ensures
            r is Ok,
            r->Ok_0@ == recent_boards(self@.boards, now),
    {
        let f = BoardFilter::Recent;
        let v = self.select_boards(&f, now);
        assert((|b: Board| board_selected(f, b, now) == true) =~= (|b: Board| is_recent(
            b.created_at,
            now,
        )));
        Ok(reversed(v))
    }

    /// Boards created within the last day, latest first.
    pub fn get_recent_boards(&self) -> (r: Result<Vec<Board>, DbError>)
        ensures
            r is Ok,
            exists|now: i64| r->Ok_0@ == recent_boards(self@.boards, now),
    {
        let now = now_micros();
        self.get_recent_boards_at(now)
    }

    /// Boards created within the day before `now` whose lower-case name
    /// holds the lower-case `fragment`, latest first.
    pub fn get_recent_boards_name_contains_at(&self, fragment: &str, now: i64) -> (r: Result<
        Vec<Board>,
        DbError,
    >)
        ensures
            r is Ok,
            r->Ok_0@ == recent_boards_named(self@.boards, fragment@, now),
    {
        let f = BoardFilter::RecentAndNameContains(fragment.to_owned());
        let v = self.select_boards(&f, now);
        assert((|b: Board| board_selected(f, b, now) == true) =~= (|b: Board|
            is_recent(b.created_at, now) && is_substring(lower_of(fragment@), lower_of(b.name@))));
        Ok(reversed(v))
    }

    /// Boards created within the last day whose lower-case name holds the
    /// lower-case `fragment`, latest first.
    pub fn get_recent_boards_name_contains(&self, fragment: &str) -> (r: Result<
        Vec<Board>,
        DbError,
    >)
        ensures
            r is Ok,
            exists|now: i64| r->Ok_0@ == recent_boards_named(self@.boards, fragment@, now),
    {
        let now = now_micros();
        self.get_recent_boards_name_contains_at(fragment, now)
    }

    /// Boards created within the day before `now`, or whose lower-case name
    /// holds the lower-case `fragment`, latest first.
    pub fn get_recent_boards_or_name_contains_at(&self, fragment: &str, now: i64) -> (r: Result<
        Vec<Board>,
        DbError,
    >)
        ensures
            r is Ok,
            r->Ok_0@ == recent_or_named_boards(self@.boards, fragment@, now),
    {
        let f = BoardFilter::RecentOrNameContains(fragment.to_owned());
        let v = self.select_boards(&f, now);
        assert((|b: Board| board_selected(f, b, now) == true) =~= (|b: Board|
            is_recent(b.created_at, now) || is_substring(lower_of(fragment@), lower_of(b.name@))));
        Ok(reversed(v))
    }

    /// Boards created within the last day, or whose lower-case name holds
    /// the lower-case `fragment`, latest first.
    pub fn get_recent_boards_or_name_contains(&self, fragment: &str) -> (r: Result<
        Vec<Board>,
        DbError,
    >)
        ensures
            r is Ok,
            exists|now: i64| r->Ok_0@ == recent_or_named_boards(self@.boards, fragment@, now),
    {
        let now = now_micros();
        self.get_recent_boards_or_name_contains_at(fragment, now)
    }

    /// Removes every board; cards stay.
    pub fn delete_all_boards(&mut self) -> (r: Result<(), DbError>)
        requires
            old(self)@.wf(),
        ensures
            r is Ok,
            final(self)@.wf(),
            final(self)@ == (Tables { boards: Seq::empty(), ..old(self)@ }),
    {
        proof {
            lemma_keep_boards_wf(self@, |b: Board| false);
            lemma_filter_none(self@.boards, |b: Board| false);
        }
        self.boards = Vec::new();
        assert(self@.boards =~= old(self)@.boards.filter(|b: Board| false));
        Ok(())
    }

    /// Removes the board with id `id`, if there is one; its cards stay.
    pub fn delete_board_by_id(&mut self, id: i64) -> (r: Result<(), DbError>)
        requires
            old(self)@.wf(),
        ensures
            r is Ok,
            final(self)@.wf(),
            final(self)@ == (Tables {
                boards: old(self)@.boards.filter(|b: Board| b.id != id),
                ..old(self)@
            }),
    {
        let f = BoardFilter::Id(id);
        let kept = filter_boards(&self.boards, &f, 0, false);
        assert((|b: Board| board_selected(f, b, 0) == false) =~= (|b: Board| b.id != id));
        proof {
            lemma_keep_boards_wf(self@, |b: Board| b.id != id);
        }
        self.boards = kept;
        Ok(())
    }

    /// Cards that `f` selects, in insertion order.
    fn select_cards(&self, f: CardFilter) -> (r: Vec<Card>)
        ensures
            r@ == self@.cards.filter(|c: Card| card_selected(f, c) == true),
    {
        filter_cards(&self.cards, f, true)
    }

    /// Removes the cards that `f` selects.
    fn remove_cards(&mut self, f: CardFilter)
        requires
            old(self)@.wf(),
        ensures
            final(self)@.wf(),
            final(self)@ == (Tables {
                cards: old(self)@.cards.filter(|c: Card| card_selected(f, c) == false),
                ..old(self)@
            }),
    {
        let kept = filter_cards(&self.cards, f, false);
        proof {
            lemma_keep_cards_wf(self@, |c: Card| card_selected(f, c) == false);
        }
        self.cards = kept;
    }

    /// Stores a card on board `card.board_id` in status `Todo`, created at
    /// `now` (or at the latest instant handed out, if later), under the next
    /// unused id. Fails with `ConstraintViolation` when no board has that id,
    /// and otherwise with `QueryError` once ids are exhausted.
    pub fn create_card_at(&mut self, card: CreateCard, now: i64) -> (r: Result<Card, DbError>)
        requires
            old(self)@.wf(),
        ensures
            final(self)@.wf(),
            !has_board(old(self)@.boards, card.board_id) ==> r == Err::<Card, DbError>(
                DbError::ConstraintViolation,
            ) && final(self)@ == old(self)@,
            has_board(old(self)@.boards, card.board_id) && old(self)@.next_card_id == i64::MAX
                ==> r == Err::<Card, DbError>(DbError::QueryError) && final(self)@ == old(self)@,
            has_board(old(self)@.boards, card.board_id) && old(self)@.next_card_id < i64::MAX
                ==> r == Ok::<Card, DbError>(
                Card {
                    id: old(self)@.next_card_id as i64,
                    board_id: card.board_id,
                    description: card.description,
                    status: Status::Todo,
                    created_at: creation_instant(old(self)@, now) as i64,
                },
            ) && final(self)@ == (Tables {
                cards: old(self)@.cards.push(r->Ok_0),
                next_card_id: old(self)@.next_card_id + 1,
                clock: creation_instant(old(self)@, now),
                ..old(self)@
            }),
    {
        if self.get_board_by_id(card.board_id).is_err() {
            return Err(DbError::ConstraintViolation);
        }
        if self.next_card_id == i64::MAX {
            return Err(DbError::QueryError);
        }
        let created_at = if now >= self.clock {
            now
        } else {
            self.clock
        };
        let c = Card {
            id: self.next_card_id,
            board_id: card.board_id,
            description: card.description,
            status: Status::Todo,
            created_at,
        };
        let ghost old_t = self@;
        self.cards.push(c.clone());
        self.next_card_id = self.next_card_id + 1;
        self.clock = created_at;
        proof {
            let t = self@;
            assert forall|i: int, j: int| 0 <= i < j < t.cards.len() implies #[trigger] card_before(
                t.cards[i],
                t.cards[j],
            ) by {
                if j < t.cards.len() - 1 {
                    assert(card_before(old_t.cards[i], old_t.cards[j]));
                } else {
                    assert(old_t.card_fits(old_t.cards[i]));
                }
            }
            assert forall|i: int| 0 <= i < t.cards.len() implies #[trigger] t.card_fits(
                t.cards[i],
            ) by {
                if i < t.cards.len() - 1 {
                    assert(old_t.card_fits(old_t.cards[i]));
                }
            }
            assert forall|i: int| 0 <= i < t.boards.len() implies #[trigger] t.board_fits(
                t.boards[i],
            ) by {
                assert(old_t.board_fits(old_t.boards[i]));
            }
        }
        Ok(c)
    }

    /// Creates a card at the present instant; see `create_card_at`.
    pub fn create_card(&mut self, card: CreateCard) -> (r: Result<Card, DbError>)
        requires
            old(self)@.wf(),
        ensures
            final(self)@.wf(),
            !has_board(old(self)@.boards, card.board_id) ==> r == Err::<Card, DbError>(
                DbError::ConstraintViolation,
            ) && final(self)@ == old(self)@,
            has_board(old(self)@.boards, card.board_id) && old(self)@.next_card_id == i64::MAX
                ==> r == Err::<Card, DbError>(DbError::QueryError) && final(self)@ == old(self)@,
            has_board(old(self)@.boards, card.board_id) && old(self)@.next_card_id < i64::MAX
                ==> exists|now: i64|
                r == Ok::<Card, DbError>(
                    Card {
                        id: old(self)@.next_card_id as i64,
                        board_id: card.board_id,
                        description: card.description,
                        status: Status::Todo,
                        created_at: creation_instant(old(self)@, now) as i64,
                    },
                ) && final(self)@ == (Tables {
                    cards: old(self)@.cards.push(r->Ok_0),
                    next_card_id: old(self)@.next_card_id + 1,
                    clock: creation_instant(old(self)@, now),
                    ..old(self)@
                }),
    {
        let now = now_micros();
        self.create_card_at(card, now)
    }

    /// Replaces the description and status of the card with id `card_id`
    /// and returns it; `NotFound` when there is no such card.
    pub fn update_card(&mut self, card_id: i64, update_card: UpdateCard) -> (r: Result<
        Card,
        DbError,
    >)
        requires
            old(self)@.wf(),
        ensures
            final(self)@.wf(),
            r is Err <==> !has_card(old(self)@.cards, card_id),
            r is Err ==> r == Err::<Card, DbError>(DbError::NotFound) && final(self)@ == old(
                self,
            )@,
            r is Ok ==> exists|i: int|
                0 <= i < old(self)@.cards.len() && old(self)@.cards[i].id == card_id && r->Ok_0
                    == updated_card(old(self)@.cards[i], update_card),
            r is Ok ==> final(self)@ == (Tables {
                cards: old(self)@.cards.map_values(
                    |c: Card|
                        if c.id == card_id {
                            updated_card(c, update_card)
                        } else {
                            c
                        },
                ),
                ..old(self)@
            }),
    {
        let mut i: usize = 0;
        while i < self.cards.len() && self.cards[i].id != card_id
            invariant
                i <= self.cards@.len(),
                forall|k: int| 0 <= k < i ==> self.cards@[k].id != card_id,
            decreases self.cards@.len() - i,
        {
            i = i + 1;
        }
        if i == self.cards.len() {
            return Err(DbError::NotFound);
        }
        let ghost old_t = self@;
        let c = Card {
            id: self.cards[i].id,
            board_id: self.cards[i].board_id,
            description: update_card.description,
            status: update_card.status,
            created_at: self.cards[i].created_at,
        };
        self.cards.set(i, c.clone());
        proof {
            let t = self@;
            let g = |c: Card|
                if c.id == card_id {
                    updated_card(c, update_card)
                } else {
                    c
                };
            assert forall|k: int| 0 <= k < t.cards.len() implies t.cards[k] == g(old_t.cards[k]) by {
                if k != i {
                    if k < i {
                        assert(card_before(old_t.cards[k], old_t.cards[i as int]));
                    } else {
                        assert(card_before(old_t.cards[i as int], old_t.cards[k]));
                    }
                }
            }
            assert(t.cards =~= old_t.cards.map_values(g));
            assert forall|a: int, b: int| 0 <= a < b < t.cards.len() implies #[trigger] card_before(
                t.cards[a],
                t.cards[b],
            ) by {
                assert(card_before(old_t.cards[a], old_t.cards[b]));
            }
            assert forall|k: int| 0 <= k < t.cards.len() implies #[trigger] t.card_fits(
                t.cards[k],
            ) by {
                assert(old_t.card_fits(old_t.cards[k]));
            }
            assert forall|k: int| 0 <= k < t.boards.len() implies #[trigger] t.board_fits(
                t.boards[k],
            ) by {
                assert(old_t.board_fits(old_t.boards[k]));
            }
        }
        Ok(c)
    }

    /// Every card, earliest created first.
    pub fn get_all_cards(&self) -> (r: Result<Vec<Card>, DbError>)
        ensures
            r is Ok,
            r->Ok_0@ == self@.cards,
    {
        let v = self.select_cards(CardFilter::All);
        proof {
            lemma_filter_all(self@.cards, |c: Card| card_selected(CardFilter::All, c) == true);
        }
        Ok(v)
    }

    /// Cards of board `board_id`, earliest created first.
    pub fn get_card_by_board_id(&self, board_id: i64) -> (r: Result<Vec<Card>, DbError>)
        ensures
            r is Ok,
            r->Ok_0@ == self@.cards.filter(|c: Card| c.board_id == board_id),
    {
        let f = CardFilter::Board(board_id);
        let v = self.select_cards(f);
        assert((|c: Card| card_selected(f, c) == true) =~= (|c: Card| c.board_id == board_id));
        Ok(v)
    }

    /// Cards in status `status`, across boards, earliest created first.
    pub fn get_card_by_status(&self, status: Status) -> (r: Result<Vec<Card>, DbError>)
        ensures
            r is Ok,
            r->Ok_0@ == self@.cards.filter(|c: Card| c.status == status),
    {
        let f = CardFilter::Status(status);
        let v = self.select_cards(f);
        assert((|c: Card| card_selected(f, c) == true) =~= (|c: Card| c.status == status));
        Ok(v)
    }

    /// Removes every card.
    pub fn delete_all_cards(&mut self) -> (r: Result<(), DbError>)
        requires
            old(self)@.wf(),
        ensures
            r is Ok,
            final(self)@.wf(),
            final(self)@ == (Tables { cards: Seq::empty(), ..old(self)@ }),
    {
        proof {
            lemma_keep_cards_wf(self@, |c: Card| false);
            lemma_filter_none(self@.cards, |c: Card| false);
        }
        self.cards = Vec::new();
        assert(self@.cards =~= old(self)@.cards.filter(|c: Card| false));
        Ok(())
    }

    /// Removes the card with id `card_id`, if there is one.
    pub fn delete_card_by_id(&mut self, card_id: i64) -> (r: Result<(), DbError>)
        requires
            old(self)@.wf(),
        ensures
            r is Ok,
            final(self)@.wf(),
            final(self)@ == (Tables {
                cards: old(self)@.cards.filter(|c: Card| c.id != card_id),
                ..old(self)@
            }),
    {
        let f = CardFilter::Id(card_id);
        self.remove_cards(f);
        assert((|c: Card| card_selected(f, c) == false) =~= (|c: Card| c.id != card_id));
        Ok(())
    }

    /// Removes every card of board `board_id`.
    pub fn delete_cards_by_board_id(&mut self, board_id: i64) -> (r: Result<(), DbError>)
        requires
            old(self)@.wf(),
        ensures
            r is Ok,
            final(self)@.wf(),
            final(self)@ == (Tables {
                cards: old(self)@.cards.filter(|c: Card| c.board_id != board_id),
                ..old(self)@
            }),
    {
        let f = CardFilter::Board(board_id);
        self.remove_cards(f);
        assert((|c: Card| card_selected(f, c) == false) =~= (|c: Card| c.board_id != board_id));
        Ok(())
    }

    /// Removes the cards of board `board_id` that are `Done`.
    pub fn delete_done_cards_by_board_id(&mut self, board_id: i64) -> (r: Result<(), DbError>)
        requires
            old(self)@.wf(),
        ensures
            r is Ok,
            final(self)@.wf(),
            final(self)@ == (Tables {
                cards: old(self)@.cards.filter(
                    |c: Card| !(c.board_id == board_id && c.status == Status::Done),
                ),
                ..old(self)@
            }),
    {
        let f = CardFilter::BoardStatus(board_id, Status::Done);
        self.remove_cards(f);
        assert((|c: Card| card_selected(f, c) == false) =~= (|c: Card|
            !(c.board_id == board_id && c.status == Status::Done)));
        Ok(())
    }

    /// The group-by-status count of the cards of board `board_id`: one row
    /// per status.
    pub fn status_counts(&self, board_id: i64) -> (r: Vec<StatusCount>)
        requires
            self@.wf(),
        ensures
            r@ == seq![
                StatusCount { count: self@.status_count(board_id, Status::Todo) as i64, status: Status::Todo },
                StatusCount { count: self@.status_count(board_id, Status::Doing) as i64, status: Status::Doing },
                StatusCount { count: self@.status_count(board_id, Status::Done) as i64, status: Status::Done },
            ],
            self@.status_count(board_id, Status::Todo) <= self@.cards.len(),
            self@.status_count(board_id, Status::Doing) <= self@.cards.len(),
            self@.status_count(board_id, Status::Done) <= self@.cards.len(),
    {
        let todo = count_cards(&self.cards, CardFilter::BoardStatus(board_id, Status::Todo));
        let doing = count_cards(&self.cards, CardFilter::BoardStatus(board_id, Status::Doing));
        let done = count_cards(&self.cards, CardFilter::BoardStatus(board_id, Status::Done));
        let mut rows: Vec<StatusCount> = Vec::new();
        rows.push(StatusCount { count: todo, status: Status::Todo });
        rows.push(StatusCount { count: doing, status: Status::Doing });
        rows.push(StatusCount { count: done, status: Status::Done });
        assert(rows@ =~= seq![
            StatusCount { count: todo, status: Status::Todo },
            StatusCount { count: doing, status: Status::Doing },
            StatusCount { count: done, status: Status::Done },
        ]);
        rows
    }

    /// How many cards of board `board_id` are in each status; zero for a
    /// board without cards.
    pub fn board_summary(&self, board_id: i64) -> (r: Result<BoardSummary, DbError>)
        requires
            self@.wf(),
        ensures
            r == Ok::<BoardSummary, DbError>(
                BoardSummary {
                    todo: self@.status_count(board_id, Status::Todo) as i64,
                    doing: self@.status_count(board_id, Status::Doing) as i64,
                    done: self@.status_count(board_id, Status::Done) as i64,
                },
            ),
    {
        let rows = self.status_counts(board_id);
        proof {
            reveal_with_fuel(status_total, 4);
            assert(rows@.drop_last().drop_last().drop_last() =~= Seq::<StatusCount>::empty());
        }
        Ok(BoardSummary::from(rows))
    }
}

} // verus!
