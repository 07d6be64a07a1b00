use vstd::prelude::*;
use crate::error::DbError;

verus! {

/// Workflow state of a card: a closed classification with no order.
#[derive(Clone, Copy, Debug, PartialEq, Eq, Structural)]
pub enum Status {
    Todo,
    Doing,
    Done,
}

/// A stored board. `created_at` is the insertion instant in microseconds
/// since the Unix epoch, assigned by the store.
#[derive(Debug)]
pub struct Board {
    pub id: i64,
    pub name: String,
    pub created_at: i64,
}

impl Clone for Board {
    fn clone(&self) -> (r: Self)
        ensures
            r == *self,
    {
        Board { id: self.id, name: self.name.clone(), created_at: self.created_at }
    }
}

/// A stored card; `board_id` refers to the board that holds it.
#[derive(Debug)]
pub struct Card {
    pub id: i64,
    pub board_id: i64,
    pub description: String,
    pub status: Status,
    pub created_at: i64,
}

impl Clone for Card {
    fn clone(&self) -> (r: Self)
        ensures
            r == *self,
    {
        Card {
            id: self.id,
            board_id: self.board_id,
            description: self.description.clone(),
            status: self.status,
            created_at: self.created_at,
        }
    }
}

/// Count of cards per status for one board, at one instant.
#[derive(Clone, Copy, Debug, PartialEq, Eq, Structural)]
pub struct BoardSummary {
    pub todo: i64,
    pub doing: i64,
    pub done: i64,
}

/// One row of the group-by-status aggregate: how many cards have `status`.
#[derive(Clone, Copy, Debug, PartialEq, Eq, Structural)]
pub struct StatusCount {
    pub count: i64,
    pub status: Status,
}

/// Sum of the counts of the rows whose status is `s`.
pub open spec fn status_total(rows: Seq<StatusCount>, s: Status) -> int
    decreases rows.len(),
{
    if rows.len() == 0 {
        0
    } else {
        status_total(rows.drop_last(), s) + if rows.last().status == s {
            rows.last().count as int
        } else {
            0
        }
    }
}

/// Every row counts zero or more cards.
pub open spec fn counts_nonneg(rows: Seq<StatusCount>) -> bool {
    forall|i: int| 0 <= i < rows.len() ==> rows[i].count >= 0
}

/// A status total of rows with nonnegative counts is nonnegative.
pub proof fn lemma_status_total_nonneg(rows: Seq<StatusCount>, s: Status)
    requires
        counts_nonneg(rows),
    ensures
        status_total(rows, s) >= 0,
    decreases rows.len(),
{
    if rows.len() > 0 {
        lemma_status_total_nonneg(rows.drop_last(), s);
    }
}

/// A status total of rows with nonnegative counts bounds those of its prefixes.
pub proof fn lemma_status_total_prefix(rows: Seq<StatusCount>, n: int, s: Status)
    requires
        counts_nonneg(rows),
        0 <= n <= rows.len(),
    ensures
        0 <= status_total(rows.subrange(0, n), s) <= status_total(rows, s),
    decreases rows.len(),
{
    lemma_status_total_nonneg(rows, s);
    if n == rows.len() {
        assert(rows.subrange(0, n) =~= rows);
    } else {
        let p = rows.drop_last();
        lemma_status_total_prefix(p, n, s);
        assert(p.subrange(0, n) =~= rows.subrange(0, n));
        lemma_status_total_nonneg(p, s);
    }
}

impl Default for BoardSummary {
    /// The summary with every counter at zero.
    fn default() -> (r: BoardSummary)
        ensures
            r == (BoardSummary { todo: 0, doing: 0, done: 0 }),
    {
        BoardSummary { todo: 0, doing: 0, done: 0 }
    }
}

impl BoardSummary {

    /// Folds the rows of a group-by-status count into the three counters;
    /// a status with no row stays at zero, and rows of one status add up.
    pub fn from(counts: Vec<StatusCount>) -> (r: BoardSummary)
        requires
            counts_nonneg(counts@),
            status_total(counts@, Status::Todo) <= i64::MAX,
            status_total(counts@, Status::Doing) <= i64::MAX,
            status_total(counts@, Status::Done) <= i64::MAX,
        ensures
            r.todo == status_total(counts@, Status::Todo),
            r.doing == status_total(counts@, Status::Doing),
            r.done == status_total(counts@, Status::Done),
    {
        let mut summary = BoardSummary::default();
        let mut i: usize = 0;
        while i < counts.len()
            invariant
                i <= counts@.len(),
                counts_nonneg(counts@),
                status_total(counts@, Status::Todo) <= i64::MAX,
                status_total(counts@, Status::Doing) <= i64::MAX,
                status_total(counts@, Status::Done) <= i64::MAX,
                summary.todo == status_total(counts@.subrange(0, i as int), Status::Todo),
                summary.doing == status_total(counts@.subrange(0, i as int), Status::Doing),
                summary.done == status_total(counts@.subrange(0, i as int), Status::Done),
            decreases counts@.len() - i,
        {
            let row = counts[i];
            proof {
                let next = counts@.subrange(0, i + 1);
                assert(next.drop_last() =~= counts@.subrange(0, i as int));
                lemma_status_total_prefix(counts@, i + 1, Status::Todo);
                lemma_status_total_prefix(counts@, i + 1, Status::Doing);
                lemma_status_total_prefix(counts@, i + 1, Status::Done);
            }
            match row.status {
                Status::Todo => summary.todo = summary.todo + row.count,
                Status::Doing => summary.doing = summary.doing + row.count,
                Status::Done => summary.done = summary.done + row.count,
            }
            i = i + 1;
        }
        assert(counts@.subrange(0, counts@.len() as int) =~= counts@);
        summary
    }

    /// Folds aggregate rows as they come from the store, refusing them
    /// with `QueryError` when a count is negative or a status total does
    /// not fit in an `i64`.
    pub fn from_rows(counts: Vec<StatusCount>) -> (r: Result<BoardSummary, DbError>)
        ensures
            r is Ok <==> counts_nonneg(counts@) && status_total(counts@, Status::Todo)
                <= i64::MAX && status_total(counts@, Status::Doing) <= i64::MAX && status_total(
                counts@,
                Status::Done,
            ) <= i64::MAX,
            r is Err ==> r == Err::<BoardSummary, DbError>(DbError::QueryError),
            r is Ok ==> r->Ok_0.todo == status_total(counts@, Status::Todo) && r->Ok_0.doing
                == status_total(counts@, Status::Doing) && r->Ok_0.done == status_total(
                counts@,
                Status::Done,
            ),
    {
        let mut i: usize = 0;
        while i < counts.len()
            invariant
                i <= counts@.len(),
                forall|k: int| 0 <= k < i ==> counts@[k].count >= 0,
            decreases counts@.len() - i,
        {
            if counts[i].count < 0 {
                return Err(DbError::QueryError);
            }
            i = i + 1;
        }
        let mut todo: i64 = 0;
        let mut doing: i64 = 0;
        let mut done: i64 = 0;
        let mut j: usize = 0;
        while j < counts.len()
            invariant
                j <= counts@.len(),
                counts_nonneg(counts@),
                todo == status_total(counts@.subrange(0, j as int), Status::Todo),
                doing == status_total(counts@.subrange(0, j as int), Status::Doing),
                done == status_total(counts@.subrange(0, j as int), Status::Done),
            decreases counts@.len() - j,
        {
            let row = counts[j];
            proof {
                assert(counts@.subrange(0, j + 1).drop_last() =~= counts@.subrange(0, j as int));
                lemma_status_total_prefix(counts@, j + 1, Status::Todo);
                lemma_status_total_prefix(counts@, j + 1, Status::Doing);
                lemma_status_total_prefix(counts@, j + 1, Status::Done);
                lemma_status_total_prefix(counts@, j as int, Status::Todo);
                lemma_status_total_prefix(counts@, j as int, Status::Doing);
                lemma_status_total_prefix(counts@, j as int, Status::Done);
            }
            match row.status {
                Status::Todo => {
                    if row.count > i64::MAX - todo {
                        return Err(DbError::QueryError);
                    }
                    todo = todo + row.count;
                },
                Status::Doing => {
                    if row.count > i64::MAX - doing {
                        return Err(DbError::QueryError);
                    }
                    doing = doing + row.count;
                },
                Status::Done => {
                    if row.count > i64::MAX - done {
                        return Err(DbError::QueryError);
                    }
                    done = done + row.count;
                },
            }
            j = j + 1;
        }
        assert(counts@.subrange(0, counts@.len() as int) =~= counts@);
        Ok(BoardSummary::from(counts))
    }
}

/// The status that a label of the store's enumeration names.
pub open spec fn status_of_label(label: Seq<char>) -> Option<Status> {
    if label == "todo"@ {
        Some(Status::Todo)
    } else if label == "doing"@ {
        Some(Status::Doing)
    } else if label == "done"@ {
        Some(Status::Done)
    } else {
        None
    }
}

impl Status {
    /// Reads a label of the store's enumeration: `todo`, `doing` or `done`.
    pub fn from_label(label: &str) -> (r: Option<Status>)
        ensures
            r == status_of_label(label@),
    {
        let l = label.to_owned();
        if l == "todo".to_owned() {
            Some(Status::Todo)
        } else if l == "doing".to_owned() {
            Some(Status::Doing)
        } else if l == "done".to_owned() {
            Some(Status::Done)
        } else {
            None
        }
    }
}

/// Input of the create-board command.
pub struct CreateBoard {
    pub name: String,
}

/// Input of the create-card command; the status starts at `Todo`.
pub struct CreateCard {
    pub board_id: i64,
    pub description: String,
}

/// Input of the update-card command: both fields are replaced together.
pub struct UpdateCard {
    pub description: String,
    pub status: Status,
}

} // verus!
