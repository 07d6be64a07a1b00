use vstd::prelude::*;
use crate::db::{
    Tables,
    board_before,
    boards_by_creation,
    card_before,
    creation_instant,
    has_board,
    has_card,
};
use crate::models::{Board, Card, CreateBoard, CreateCard, Status};
use crate::query::{CardFilter, card_pred};
use crate::rows::{lemma_filter_all, lemma_filter_none, lemma_filter_push, lemma_filter_twice, every};

verus! {

broadcast use vstd::seq_lib::group_filter_ensures;

/// Creating a board and then looking its id up finds that very board: it
/// carries the name it was given, no other board has its id, and no board
/// ever stored before, deleted ones included, had it.
pub proof fn lemma_created_board_found(before: Tables, board: CreateBoard, now: i64)
    requires
        before.wf(),
        before.next_board_id < i64::MAX,
    ensures
        ({
            let b = Board {
                id: before.next_board_id as i64,
                name: board.name,
                created_at: creation_instant(before, now) as i64,
            };
            let after = before.boards.push(b);
            &&& has_board(after, b.id)
            &&& forall|i: int| 0 <= i < after.len() && after[i].id == b.id ==> after[i] == b
            &&& b.name@ == board.name@
            &&& !has_board(before.boards, b.id)
            &&& !before.board_ids.contains(b.id)
        }),
{
    let b = Board {
        id: before.next_board_id as i64,
        name: board.name,
        created_at: creation_instant(before, now) as i64,
    };
    let after = before.boards.push(b);
    assert(after[after.len() - 1] == b);
    assert forall|i: int| 0 <= i < before.boards.len() implies before.boards[i].id != b.id by {
        assert(before.board_fits(before.boards[i]));
    }
    assert forall|i: int| 0 <= i < after.len() && after[i].id == b.id implies after[i] == b by {
        if i < before.boards.len() {
            assert(before.board_fits(before.boards[i]));
        }
    }
}

/// Once the board with id `id` is deleted, looking `id` up finds nothing.
pub proof fn lemma_deleted_board_absent(before: Tables, id: i64)
    ensures
        !has_board(before.boards.filter(|b: Board| b.id != id), id),
{
    let p = |b: Board| b.id != id;
    let after = before.boards.filter(p);
    if has_board(after, id) {
        let i = choose|i: int| 0 <= i < after.len() && #[trigger] after[i].id == id;
        before.boards.lemma_filter_pred(p, i);
    }
}

/// The full listing of boards comes in order of creation time.
pub proof fn lemma_boards_listed_by_creation(t: Tables)
    requires
        t.wf(),
    ensures
        boards_by_creation(t.boards),
{
    assert forall|i: int, j: int| 0 <= i < j < t.boards.len() implies #[trigger] t.boards[i].created_at
        <= #[trigger] t.boards[j].created_at by {
        assert(board_before(t.boards[i], t.boards[j]));
    }
}

/// Deleting the done cards of a board empties its `Done` count and leaves
/// every other count, of that board and of every other board, as it was.
pub proof fn lemma_delete_done_cards_counts(before: Tables, board_id: i64)
    ensures
        ({
            let after = Tables {
                cards: before.cards.filter(
                    |c: Card| !(c.board_id == board_id && c.status == Status::Done),
                ),
                ..before
            };
            &&& after.status_count(board_id, Status::Done) == 0
            &&& forall|o: i64, s: Status|
                !(o == board_id && s == Status::Done) ==> #[trigger] after.status_count(o, s)
                    == before.status_count(o, s)
        }),
{
    let p = |c: Card| !(c.board_id == board_id && c.status == Status::Done);
    let kept = before.cards.filter(p);
    let done = card_pred(CardFilter::BoardStatus(board_id, Status::Done));
    assert forall|i: int| 0 <= i < kept.len() implies !done(kept[i]) by {
        before.cards.lemma_filter_pred(p, i);
    }
    lemma_filter_none(kept, done);
    assert forall|o: i64, s: Status| !(o == board_id && s == Status::Done) implies kept.filter(
        card_pred(CardFilter::BoardStatus(o, s)),
    ) == before.cards.filter(card_pred(CardFilter::BoardStatus(o, s))) by {
        lemma_filter_twice(before.cards, p, card_pred(CardFilter::BoardStatus(o, s)));
    }
}

/// Deleting a card id is idempotent: deleting it twice leaves the cards as
/// deleting it once, and deleting an id that no card has changes nothing.
pub proof fn lemma_delete_card_idempotent(cards: Seq<Card>, card_id: i64)
    ensures
        cards.filter(|c: Card| c.id != card_id).filter(|c: Card| c.id != card_id) == cards.filter(
            |c: Card| c.id != card_id,
        ),
        !has_card(cards, card_id) ==> cards.filter(|c: Card| c.id != card_id) == cards,
{
    let p = |c: Card| c.id != card_id;
    lemma_filter_twice(cards, p, p);
    if !has_card(cards, card_id) {
        assert(every(cards, p));
        lemma_filter_all(cards, p);
    }
}

/// No two stored cards share an id.
pub proof fn lemma_card_ids_distinct(t: Tables)
    requires
        t.wf(),
    ensures
        forall|i: int, j: int|
            0 <= i < t.cards.len() && 0 <= j < t.cards.len() && i != j ==> t.cards[i].id
                != t.cards[j].id,
{
    assert forall|i: int, j: int|
        0 <= i < t.cards.len() && 0 <= j < t.cards.len() && i != j implies t.cards[i].id
        != t.cards[j].id by {
        if i < j {
            assert(card_before(t.cards[i], t.cards[j]));
        } else {
            assert(card_before(t.cards[j], t.cards[i]));
        }
    }
}

/// Creating a card lists it among its board's cards under an id no stored
/// card has, and every card listed for that board before stays listed; so
/// after any number of creations on one board, all the cards created are
/// listed, each under its own id.
pub proof fn lemma_created_card_listed(before: Tables, card: CreateCard, now: i64)
    requires
        before.wf(),
        has_board(before.boards, card.board_id),
        before.next_card_id < i64::MAX,
    ensures
        ({
            let c = Card {
                id: before.next_card_id as i64,
                board_id: card.board_id,
                description: card.description,
                status: Status::Todo,
                created_at: creation_instant(before, now) as i64,
            };
            let on_board = |x: Card| x.board_id == card.board_id;
            let after = before.cards.push(c);
            &&& after.filter(on_board).contains(c)
            &&& !has_card(before.cards, c.id)
            &&& forall|x: Card|
                before.cards.filter(on_board).contains(x) ==> after.filter(on_board).contains(x)
        }),
{
    let c = Card {
        id: before.next_card_id as i64,
        board_id: card.board_id,
        description: card.description,
        status: Status::Todo,
        created_at: creation_instant(before, now) as i64,
    };
    let on_board = |x: Card| x.board_id == card.board_id;
    lemma_filter_push(before.cards, c, on_board);
    let f = before.cards.filter(on_board);
    assert(f.push(c)[f.len() as int] == c);
    assert forall|x: Card| f.contains(x) implies f.push(c).contains(x) by {
        let k = choose|k: int| 0 <= k < f.len() && f[k] == x;
        assert(f.push(c)[k] == x);
    }
    assert forall|i: int| 0 <= i < before.cards.len() implies before.cards[i].id != c.id by {
        assert(before.card_fits(before.cards[i]));
    }
}

} // verus!
