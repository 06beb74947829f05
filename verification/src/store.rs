//! The store itself: three tables of rows with caller-visible ids, plus the
//! next auto-increment id of each table. Well-formedness asks that ids are
//! unique and below the next id, and that every child row references an
//! existing parent row.

use vstd::prelude::*;
use crate::board::{BoardResponse, BoardView, boards_vw};
use crate::column::{ColumnResponse, ColumnView, columns_vw};
use crate::task::{TaskResponse, TaskView, tasks_vw};

verus! {

/// The whole store, as held in memory by the command surface.
pub struct KanbanStore {
    pub boards: Vec<BoardResponse>,
    pub columns: Vec<ColumnResponse>,
    pub tasks: Vec<TaskResponse>,
    pub next_board_id: i32,
    pub next_column_id: i32,
    pub next_task_id: i32,
}

/// The mathematical model of the store.
#[verifier::ext_equal]
pub ghost struct StoreView {
    pub boards: Seq<BoardView>,
    pub columns: Seq<ColumnView>,
    pub tasks: Seq<TaskView>,
    pub next_board_id: int,
    pub next_column_id: int,
    pub next_task_id: int,
}

impl View for KanbanStore {
    type V = StoreView;

    open spec fn view(&self) -> StoreView {
        StoreView {
            boards: boards_vw(self.boards@),
            columns: columns_vw(self.columns@),
            tasks: tasks_vw(self.tasks@),
            next_board_id: self.next_board_id as int,
            next_column_id: self.next_column_id as int,
            next_task_id: self.next_task_id as int,
        }
    }
}

/// The model of a store with no rows, whose first id of each table is 1.
pub open spec fn empty_store() -> StoreView {
    StoreView {
        boards: Seq::<BoardView>::empty(),
        columns: Seq::<ColumnView>::empty(),
        tasks: Seq::<TaskView>::empty(),
        next_board_id: 1,
        next_column_id: 1,
        next_task_id: 1,
    }
}

impl KanbanStore {
    /// A store with no rows at all.
    pub fn empty() -> (r: KanbanStore)
        ensures
            r@ == empty_store(),
    {
        let r = KanbanStore {
            boards: Vec::new(),
            columns: Vec::new(),
            tasks: Vec::new(),
            next_board_id: 1,
            next_column_id: 1,
            next_task_id: 1,
        };
        proof {
            assert(r@ =~= empty_store());
        }
        r
    }
}

pub open spec fn unique_board_ids(bs: Seq<BoardView>) -> bool {
    forall|i: int, j: int|
        #![trigger bs[i], bs[j]]
        0 <= i < bs.len() && 0 <= j < bs.len() && i != j ==> bs[i].id != bs[j].id
}

pub open spec fn unique_column_ids(cs: Seq<ColumnView>) -> bool {
    forall|i: int, j: int|
        #![trigger cs[i], cs[j]]
        0 <= i < cs.len() && 0 <= j < cs.len() && i != j ==> cs[i].id != cs[j].id
}

pub open spec fn unique_task_ids(ts: Seq<TaskView>) -> bool {
    forall|i: int, j: int|
        #![trigger ts[i], ts[j]]
        0 <= i < ts.len() && 0 <= j < ts.len() && i != j ==> ts[i].id != ts[j].id
}

/// Some board row carries this id.
pub open spec fn has_board(bs: Seq<BoardView>, id: int) -> bool {
    exists|i: int| 0 <= i < bs.len() && (#[trigger] bs[i]).id == id
}

/// Some column row carries this id.
pub open spec fn has_column(cs: Seq<ColumnView>, id: int) -> bool {
    exists|i: int| 0 <= i < cs.len() && (#[trigger] cs[i]).id == id
}

/// Some task row carries this id.
pub open spec fn has_task(ts: Seq<TaskView>, id: int) -> bool {
    exists|i: int| 0 <= i < ts.len() && (#[trigger] ts[i]).id == id
}

/// Some column row carries this id and belongs to this board.
pub open spec fn column_of_board(cs: Seq<ColumnView>, column_id: int, board_id: int) -> bool {
    exists|i: int|
        0 <= i < cs.len() && (#[trigger] cs[i]).id == column_id && cs[i].board_id == board_id
}

/// Well-formedness of the store: ids are unique and below the table's next
/// id, every column belongs to an existing board, and every task belongs to
/// an existing column.
pub open spec fn wf_store(s: StoreView) -> bool {
    &&& unique_board_ids(s.boards)
    &&& unique_column_ids(s.columns)
    &&& unique_task_ids(s.tasks)
    &&& forall|i: int| 0 <= i < s.boards.len() ==> (#[trigger] s.boards[i]).id < s.next_board_id
    &&& forall|i: int| 0 <= i < s.columns.len() ==> (#[trigger] s.columns[i]).id < s.next_column_id
    &&& forall|i: int| 0 <= i < s.tasks.len() ==> (#[trigger] s.tasks[i]).id < s.next_task_id
    &&& forall|i: int|
        0 <= i < s.columns.len() ==> has_board(s.boards, (#[trigger] s.columns[i]).board_id)
    &&& forall|i: int|
        0 <= i < s.tasks.len() ==> has_column(s.columns, (#[trigger] s.tasks[i]).column_id)
}

/// Keeps the boards other than this one.
pub open spec fn bpred_not_id(id: int) -> spec_fn(BoardView) -> bool {
    |b: BoardView| b.id != id
}

/// Keeps the columns other than this one.
pub open spec fn cpred_not_id(id: int) -> spec_fn(ColumnView) -> bool {
    |c: ColumnView| c.id != id
}

/// Keeps the tasks other than this one.
pub open spec fn tpred_not_id(id: int) -> spec_fn(TaskView) -> bool {
    |t: TaskView| t.id != id
}

/// Keeps the columns that belong to this board.
pub open spec fn cpred_of_board(bid: int) -> spec_fn(ColumnView) -> bool {
    |c: ColumnView| c.board_id == bid
}

/// Keeps the columns that do not belong to this board.
pub open spec fn cpred_not_board(bid: int) -> spec_fn(ColumnView) -> bool {
    |c: ColumnView| c.board_id != bid
}

/// Keeps the tasks that belong to this column.
pub open spec fn tpred_of_column(cid: int) -> spec_fn(TaskView) -> bool {
    |t: TaskView| t.column_id == cid
}

/// Keeps the tasks that do not belong to this column.
pub open spec fn tpred_not_column(cid: int) -> spec_fn(TaskView) -> bool {
    |t: TaskView| t.column_id != cid
}

/// Keeps the tasks whose column does not belong to this board.
pub open spec fn tpred_not_board(cs: Seq<ColumnView>, bid: int) -> spec_fn(TaskView) -> bool {
    |t: TaskView| !column_of_board(cs, t.column_id, bid)
}

/// One step of `Seq::filter`: filtering a pushed element appends it exactly
/// when it satisfies the predicate.
pub proof fn lemma_filter_push<A>(s: Seq<A>, x: A, pred: spec_fn(A) -> bool)
    ensures
        pred(x) ==> s.push(x).filter(pred) == s.filter(pred).push(x),
        !pred(x) ==> s.push(x).filter(pred) == s.filter(pred),
{
    reveal(Seq::filter);
    assert(s.push(x).drop_last() =~= s);
    assert(s.push(x).last() == x);
    assert(s.push(x).len() == s.len() + 1);
}

/// Every element of a filtered sequence satisfies the predicate and comes
/// from the original, and every original element that satisfies the
/// predicate appears in the filtered sequence.
pub proof fn lemma_filter_props<A>(s: Seq<A>, pred: spec_fn(A) -> bool)
    ensures
        forall|i: int| 0 <= i < s.filter(pred).len() ==> pred(#[trigger] s.filter(pred)[i]),
        forall|i: int| 0 <= i < s.filter(pred).len()
            ==> exists|j: int| 0 <= j < s.len() && s[j] == #[trigger] s.filter(pred)[i],
        forall|j: int| 0 <= j < s.len() && pred(#[trigger] s[j])
            ==> exists|i: int| 0 <= i < s.filter(pred).len() && s.filter(pred)[i] == s[j],
    decreases s.len(),
{
    reveal(Seq::filter);
    if s.len() == 0 {
    } else {
        let rest = s.drop_last();
        lemma_filter_props(rest, pred);
        assert(rest.len() == s.len() - 1);
        assert(forall|j: int| 0 <= j < rest.len() ==> rest[j] == #[trigger] s[j]);
        assert forall|i: int| 0 <= i < s.filter(pred).len() implies
            exists|j: int| 0 <= j < s.len() && s[j] == #[trigger] s.filter(pred)[i] by {
            if i < rest.filter(pred).len() {
                assert(s.filter(pred)[i] == rest.filter(pred)[i]);
                let j = choose|j: int| 0 <= j < rest.len() && rest[j] == rest.filter(pred)[i];
                assert(s[j] == s.filter(pred)[i]);
            } else {
                assert(pred(s.last()));
                assert(s[s.len() - 1] == s.filter(pred)[i]);
            }
        }
        assert forall|j: int| 0 <= j < s.len() && pred(#[trigger] s[j]) implies
            exists|i: int| 0 <= i < s.filter(pred).len() && s.filter(pred)[i] == s[j] by {
            if j < rest.len() {
                assert(pred(rest[j]));
                let i = choose|i: int| 0 <= i < rest.filter(pred).len() && rest.filter(pred)[i] == rest[j];
                assert(s.filter(pred)[i] == s[j]);
            } else {
                assert(pred(s.last()));
                assert(s.filter(pred)[s.filter(pred).len() - 1] == s[j]);
            }
        }
    }
}

/// Creating a board under the fresh id keeps the store well formed.
pub proof fn lemma_wf_create_board(s: StoreView, s2: StoreView, b: BoardView)
    requires
        wf_store(s),
        b.id == s.next_board_id,
        s2.boards == s.boards.push(b),
        s2.columns == s.columns,
        s2.tasks == s.tasks,
        s2.next_board_id == s.next_board_id + 1,
        s2.next_column_id == s.next_column_id,
        s2.next_task_id == s.next_task_id,
    ensures
        wf_store(s2),
{
    assert forall|i: int| 0 <= i < s2.columns.len() implies
        has_board(s2.boards, (#[trigger] s2.columns[i]).board_id) by {
        let k = choose|k: int| 0 <= k < s.boards.len()
            && (#[trigger] s.boards[k]).id == s.columns[i].board_id;
        assert(s2.boards[k].id == s.columns[i].board_id);
    }
}

/// Replacing a board row by one with the same id keeps the store well
/// formed.
pub proof fn lemma_wf_update_board(s: StoreView, s2: StoreView, i: int, b: BoardView)
    requires
        wf_store(s),
        0 <= i < s.boards.len(),
        b.id == s.boards[i].id,
        s2.boards == s.boards.update(i, b),
        s2.columns == s.columns,
        s2.tasks == s.tasks,
        s2.next_board_id == s.next_board_id,
        s2.next_column_id == s.next_column_id,
        s2.next_task_id == s.next_task_id,
    ensures
        wf_store(s2),
{
    assert(forall|j: int| 0 <= j < s2.boards.len()
        ==> (#[trigger] s2.boards[j]).id == s.boards[j].id);
    assert forall|k: int| 0 <= k < s2.columns.len() implies
        has_board(s2.boards, (#[trigger] s2.columns[k]).board_id) by {
        let j = choose|j: int| 0 <= j < s.boards.len()
            && (#[trigger] s.boards[j]).id == s.columns[k].board_id;
        assert(s2.boards[j].id == s.columns[k].board_id);
    }
}


/// Two distinct positions of a filtered sequence come from distinct
/// positions of the original, so a projection that is unique there stays
/// unique.
pub proof fn lemma_filter_distinct<A>(
    s: Seq<A>,
    pred: spec_fn(A) -> bool,
    proj: spec_fn(A) -> int,
    a: int,
    b: int,
)
    requires
        forall|i: int, j: int|
            #![trigger s[i], s[j]]
            0 <= i < s.len() && 0 <= j < s.len() && i != j ==> proj(s[i]) != proj(s[j]),
        0 <= a < s.filter(pred).len(),
        0 <= b < s.filter(pred).len(),
        a != b,
    ensures
        proj(s.filter(pred)[a]) != proj(s.filter(pred)[b]),
    decreases s.len(),
{
    reveal(Seq::filter);
    if s.len() == 0 {
    } else {
        let rest = s.drop_last();
        assert(forall|j: int| 0 <= j < rest.len() ==> rest[j] == #[trigger] s[j]);
        let f = s.filter(pred);
        let rf = rest.filter(pred);
        if pred(s.last()) {
            if a < rf.len() && b < rf.len() {
                lemma_filter_distinct(rest, pred, proj, a, b);
            } else {
                let low = if a < rf.len() { a } else { b };
                assert(f[low] == rf[low]);
                lemma_filter_props(rest, pred);
                let j = choose|j: int| 0 <= j < rest.len() && rest[j] == rf[low];
                assert(s[j] == rf[low]);
                assert(proj(s[s.len() - 1]) != proj(s[j]));
            }
        } else {
            lemma_filter_distinct(rest, pred, proj, a, b);
        }
    }
}

/// Deleting a board together with its columns and their tasks keeps the
/// store well formed.
pub proof fn lemma_wf_delete_board(s: StoreView, s2: StoreView, bid: int)
    requires
        wf_store(s),
        s2.boards == s.boards.filter(bpred_not_id(bid)),
        s2.columns == s.columns.filter(cpred_not_board(bid)),
        s2.tasks == s.tasks.filter(tpred_not_board(s.columns, bid)),
        s2.next_board_id == s.next_board_id,
        s2.next_column_id == s.next_column_id,
        s2.next_task_id == s.next_task_id,
    ensures
        wf_store(s2),
{
    let bpred = bpred_not_id(bid);
    let cpred = cpred_not_board(bid);
    let tpred = tpred_not_board(s.columns, bid);
    lemma_filter_props(s.boards, bpred);
    lemma_filter_props(s.columns, cpred);
    lemma_filter_props(s.tasks, tpred);
    assert forall|a: int, b: int|
        #![trigger s2.boards[a], s2.boards[b]]
        0 <= a < s2.boards.len() && 0 <= b < s2.boards.len() && a != b implies
        s2.boards[a].id != s2.boards[b].id by {
        lemma_filter_distinct(s.boards, bpred, |x: BoardView| x.id, a, b);
    }
    assert forall|a: int, b: int|
        #![trigger s2.columns[a], s2.columns[b]]
        0 <= a < s2.columns.len() && 0 <= b < s2.columns.len() && a != b implies
        s2.columns[a].id != s2.columns[b].id by {
        lemma_filter_distinct(s.columns, cpred, |x: ColumnView| x.id, a, b);
    }
    assert forall|a: int, b: int|
        #![trigger s2.tasks[a], s2.tasks[b]]
        0 <= a < s2.tasks.len() && 0 <= b < s2.tasks.len() && a != b implies
        s2.tasks[a].id != s2.tasks[b].id by {
        lemma_filter_distinct(s.tasks, tpred, |x: TaskView| x.id, a, b);
    }
    assert forall|a: int| 0 <= a < s2.boards.len() implies
        (#[trigger] s2.boards[a]).id < s2.next_board_id by {
        let j = choose|j: int| 0 <= j < s.boards.len() && s.boards[j] == s2.boards[a];
        assert(s.boards[j].id < s.next_board_id);
    }
    assert forall|a: int| 0 <= a < s2.columns.len() implies
        (#[trigger] s2.columns[a]).id < s2.next_column_id by {
        let j = choose|j: int| 0 <= j < s.columns.len() && s.columns[j] == s2.columns[a];
        assert(s.columns[j].id < s.next_column_id);
    }
    assert forall|a: int| 0 <= a < s2.tasks.len() implies
        (#[trigger] s2.tasks[a]).id < s2.next_task_id by {
        let j = choose|j: int| 0 <= j < s.tasks.len() && s.tasks[j] == s2.tasks[a];
        assert(s.tasks[j].id < s.next_task_id);
    }
    assert forall|a: int| 0 <= a < s2.columns.len() implies
        has_board(s2.boards, (#[trigger] s2.columns[a]).board_id) by {
        let c = s2.columns[a];
        assert(cpred(c));
        let m = choose|m: int| 0 <= m < s.columns.len() && s.columns[m] == c;
        let j = choose|j: int| 0 <= j < s.boards.len()
            && (#[trigger] s.boards[j]).id == c.board_id;
        assert(bpred(s.boards[j]));
        let n = choose|n: int| 0 <= n < s2.boards.len() && s2.boards[n] == s.boards[j];
        assert(s2.boards[n].id == c.board_id);
    }
    assert forall|a: int| 0 <= a < s2.tasks.len() implies
        has_column(s2.columns, (#[trigger] s2.tasks[a]).column_id) by {
        let t = s2.tasks[a];
        assert(tpred(t));
        let m = choose|m: int| 0 <= m < s.tasks.len() && s.tasks[m] == t;
        let j = choose|j: int| 0 <= j < s.columns.len()
            && (#[trigger] s.columns[j]).id == t.column_id;
        assert(s.columns[j].board_id != bid) by {
            if s.columns[j].board_id == bid {
                assert(column_of_board(s.columns, t.column_id, bid));
            }
        }
        assert(cpred(s.columns[j]));
        let n = choose|n: int| 0 <= n < s2.columns.len() && s2.columns[n] == s.columns[j];
        assert(s2.columns[n].id == t.column_id);
    }
}

/// Creating a column under the fresh id, for an existing board, keeps the
/// store well formed.
pub proof fn lemma_wf_create_column(s: StoreView, s2: StoreView, c: ColumnView)
    requires
        wf_store(s),
        c.id == s.next_column_id,
        has_board(s.boards, c.board_id),
        s2.boards == s.boards,
        s2.columns == s.columns.push(c),
        s2.tasks == s.tasks,
        s2.next_board_id == s.next_board_id,
        s2.next_column_id == s.next_column_id + 1,
        s2.next_task_id == s.next_task_id,
    ensures
        wf_store(s2),
{
    assert forall|i: int| 0 <= i < s2.tasks.len() implies
        has_column(s2.columns, (#[trigger] s2.tasks[i]).column_id) by {
        let k = choose|k: int| 0 <= k < s.columns.len()
            && (#[trigger] s.columns[k]).id == s.tasks[i].column_id;
        assert(s2.columns[k].id == s.tasks[i].column_id);
    }
}

/// Replacing a column row by one with the same id and board keeps the store
/// well formed.
pub proof fn lemma_wf_update_column(s: StoreView, s2: StoreView, i: int, c: ColumnView)
    requires
        wf_store(s),
        0 <= i < s.columns.len(),
        c.id == s.columns[i].id,
        c.board_id == s.columns[i].board_id,
        s2.boards == s.boards,
        s2.columns == s.columns.update(i, c),
        s2.tasks == s.tasks,
        s2.next_board_id == s.next_board_id,
        s2.next_column_id == s.next_column_id,
        s2.next_task_id == s.next_task_id,
    ensures
        wf_store(s2),
{
    assert(forall|j: int| 0 <= j < s2.columns.len()
        ==> (#[trigger] s2.columns[j]).id == s.columns[j].id
            && s2.columns[j].board_id == s.columns[j].board_id);
    assert forall|k: int| 0 <= k < s2.tasks.len() implies
        has_column(s2.columns, (#[trigger] s2.tasks[k]).column_id) by {
        let j = choose|j: int| 0 <= j < s.columns.len()
            && (#[trigger] s.columns[j]).id == s.tasks[k].column_id;
        assert(s2.columns[j].id == s.tasks[k].column_id);
    }
    assert forall|k: int| 0 <= k < s2.columns.len() implies
        has_board(s2.boards, (#[trigger] s2.columns[k]).board_id) by {
        assert(has_board(s.boards, s.columns[k].board_id));
    }
}

/// Deleting a column together with its tasks keeps the store well formed.
pub proof fn lemma_wf_delete_column(s: StoreView, s2: StoreView, cid: int)
    requires
        wf_store(s),
        s2.boards == s.boards,
        s2.columns == s.columns.filter(cpred_not_id(cid)),
        s2.tasks == s.tasks.filter(tpred_not_column(cid)),
        s2.next_board_id == s.next_board_id,
        s2.next_column_id == s.next_column_id,
        s2.next_task_id == s.next_task_id,
    ensures
        wf_store(s2),
{
    let cpred = cpred_not_id(cid);
    let tpred = tpred_not_column(cid);
    lemma_filter_props(s.columns, cpred);
    lemma_filter_props(s.tasks, tpred);
    assert forall|a: int, b: int|
        #![trigger s2.columns[a], s2.columns[b]]
        0 <= a < s2.columns.len() && 0 <= b < s2.columns.len() && a != b implies
        s2.columns[a].id != s2.columns[b].id by {
        lemma_filter_distinct(s.columns, cpred, |x: ColumnView| x.id, a, b);
    }
    assert forall|a: int, b: int|
        #![trigger s2.tasks[a], s2.tasks[b]]
        0 <= a < s2.tasks.len() && 0 <= b < s2.tasks.len() && a != b implies
        s2.tasks[a].id != s2.tasks[b].id by {
        lemma_filter_distinct(s.tasks, tpred, |x: TaskView| x.id, a, b);
    }
    assert forall|a: int| 0 <= a < s2.columns.len() implies
        (#[trigger] s2.columns[a]).id < s2.next_column_id
            && has_board(s2.boards, s2.columns[a].board_id) by {
        let j = choose|j: int| 0 <= j < s.columns.len() && s.columns[j] == s2.columns[a];
        assert(s.columns[j].id < s.next_column_id);
        assert(has_board(s.boards, s.columns[j].board_id));
    }
    assert forall|a: int| 0 <= a < s2.tasks.len() implies
        (#[trigger] s2.tasks[a]).id < s2.next_task_id by {
        let j = choose|j: int| 0 <= j < s.tasks.len() && s.tasks[j] == s2.tasks[a];
        assert(s.tasks[j].id < s.next_task_id);
    }
    assert forall|a: int| 0 <= a < s2.tasks.len() implies
        has_column(s2.columns, (#[trigger] s2.tasks[a]).column_id) by {
        let t = s2.tasks[a];
        assert(tpred(t));
        let m = choose|m: int| 0 <= m < s.tasks.len() && s.tasks[m] == t;
        let j = choose|j: int| 0 <= j < s.columns.len()
            && (#[trigger] s.columns[j]).id == t.column_id;
        assert(cpred(s.columns[j]));
        let n = choose|n: int| 0 <= n < s2.columns.len() && s2.columns[n] == s.columns[j];
        assert(s2.columns[n].id == t.column_id);
    }
}

/// Creating a task under the fresh id, for an existing column, keeps the
/// store well formed.
pub proof fn lemma_wf_create_task(s: StoreView, s2: StoreView, t: TaskView)
    requires
        wf_store(s),
        t.id == s.next_task_id,
        has_column(s.columns, t.column_id),
        s2.boards == s.boards,
        s2.columns == s.columns,
        s2.tasks == s.tasks.push(t),
        s2.next_board_id == s.next_board_id,
        s2.next_column_id == s.next_column_id,
        s2.next_task_id == s.next_task_id + 1,
    ensures
        wf_store(s2),
{
}

/// Replacing a task row by one with the same id, whose column exists, keeps
/// the store well formed.
pub proof fn lemma_wf_update_task(s: StoreView, s2: StoreView, i: int, t: TaskView)
    requires
        wf_store(s),
        0 <= i < s.tasks.len(),
        t.id == s.tasks[i].id,
        has_column(s.columns, t.column_id),
        s2.boards == s.boards,
        s2.columns == s.columns,
        s2.tasks == s.tasks.update(i, t),
        s2.next_board_id == s.next_board_id,
        s2.next_column_id == s.next_column_id,
        s2.next_task_id == s.next_task_id,
    ensures
        wf_store(s2),
{
    assert(forall|j: int| 0 <= j < s2.tasks.len()
        ==> (#[trigger] s2.tasks[j]).id == s.tasks[j].id);
    assert forall|k: int| 0 <= k < s2.tasks.len() implies
        has_column(s2.columns, (#[trigger] s2.tasks[k]).column_id) by {
        if k != i {
            assert(has_column(s.columns, s.tasks[k].column_id));
        }
    }
}

/// Deleting a task keeps the store well formed.
pub proof fn lemma_wf_delete_task(s: StoreView, s2: StoreView, tid: int)
    requires
        wf_store(s),
        s2.boards == s.boards,
        s2.columns == s.columns,
        s2.tasks == s.tasks.filter(tpred_not_id(tid)),
        s2.next_board_id == s.next_board_id,
        s2.next_column_id == s.next_column_id,
        s2.next_task_id == s.next_task_id,
    ensures
        wf_store(s2),
{
    let tpred = tpred_not_id(tid);
    lemma_filter_props(s.tasks, tpred);
    assert forall|a: int, b: int|
        #![trigger s2.tasks[a], s2.tasks[b]]
        0 <= a < s2.tasks.len() && 0 <= b < s2.tasks.len() && a != b implies
        s2.tasks[a].id != s2.tasks[b].id by {
        lemma_filter_distinct(s.tasks, tpred, |x: TaskView| x.id, a, b);
    }
    assert forall|a: int| 0 <= a < s2.tasks.len() implies
        (#[trigger] s2.tasks[a]).id < s2.next_task_id
            && has_column(s2.columns, s2.tasks[a].column_id) by {
        let j = choose|j: int| 0 <= j < s.tasks.len() && s.tasks[j] == s2.tasks[a];
        assert(s.tasks[j].id < s.next_task_id);
        assert(has_column(s.columns, s.tasks[j].column_id));
    }
}

} // verus!
