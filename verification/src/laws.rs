//! Laws of the store, stated over the model and proved once and for all.
//! Each speaks of the same spec functions that the commands' contracts use.

use vstd::prelude::*;
use crate::model::{Patch, opt_view};
use crate::store::{
    StoreView, has_board, has_column, has_task, column_of_board, wf_store,
    bpred_not_id, cpred_not_board, cpred_of_board, tpred_not_board,
    lemma_filter_props,
};
use crate::board::{BoardView, CreateBoardRequest, UpdateBoardRequest, board_created, board_patched};
use crate::column::ColumnView;
use crate::task::{TaskView, UpdateTaskRequest, task_patched};

verus! {

/// A board just created under the store's fresh id carries the name and
/// description of the request and equal timestamps, and it is the one row
/// of the new table that a fetch of its id finds.
pub proof fn lemma_create_board_then_get(s: StoreView, request: CreateBoardRequest, now: Seq<char>)
    requires
        wf_store(s),
    ensures
        ({
            let b = board_created(request, s.next_board_id, now);
            let boards2 = s.boards.push(b);
            &&& b.name == request.name@
            &&& b.description == opt_view(request.description)
            &&& b.created_at == b.updated_at
            &&& forall|i: int|
                0 <= i < boards2.len() && (#[trigger] boards2[i]).id == b.id ==> boards2[i] == b
        }),
{
    let b = board_created(request, s.next_board_id, now);
    let bs2 = s.boards.push(b);
    assert forall|i: int| 0 <= i < bs2.len() && (#[trigger] bs2[i]).id == s.next_board_id implies
        bs2[i] == b by {
        if i < s.boards.len() {
            assert(s.boards[i].id < s.next_board_id);
        }
    }
}

/// An update touches the description exactly when it is supplied: a value
/// replaces it, a null clears it, and an omitted field leaves it alone;
/// the name moves only when supplied, and `created_at` never moves.
pub proof fn lemma_board_update_presence(b: BoardView, request: UpdateBoardRequest, now: Seq<char>)
    ensures
        request.description matches Patch::Put(d)
            ==> board_patched(b, request, now).description == Some(d@),
        request.description is Clear ==> board_patched(b, request, now).description is None,
        request.description is Omit ==> board_patched(b, request, now).description
            == b.description,
        request.name is None ==> board_patched(b, request, now).name == b.name,
        board_patched(b, request, now).created_at == b.created_at,
        board_patched(b, request, now).updated_at == now,
{
}

/// After a board is deleted, no row of any table refers to it: the board id
/// is gone, every column of the board is gone, and every task of such a
/// column is gone, so a fetch of any of their ids finds nothing.
pub proof fn lemma_delete_board_cascade(s: StoreView, s2: StoreView, bid: int)
    requires
        wf_store(s),
        s2.boards == s.boards.filter(bpred_not_id(bid)),
        s2.columns == s.columns.filter(cpred_not_board(bid)),
        s2.tasks == s.tasks.filter(tpred_not_board(s.columns, bid)),
    ensures
        !has_board(s2.boards, bid),
        forall|k: int|
            0 <= k < s.columns.len() && (#[trigger] s.columns[k]).board_id == bid
                ==> !has_column(s2.columns, s.columns[k].id),
        forall|k: int|
            0 <= k < s.tasks.len()
                && column_of_board(s.columns, (#[trigger] s.tasks[k]).column_id, bid)
                ==> !has_task(s2.tasks, s.tasks[k].id),
{
    let bpred = bpred_not_id(bid);
    let cpred = cpred_not_board(bid);
    let tpred = tpred_not_board(s.columns, bid);
    lemma_filter_props(s.boards, bpred);
    lemma_filter_props(s.columns, cpred);
    lemma_filter_props(s.tasks, tpred);
    assert(!has_board(s2.boards, bid)) by {
        if has_board(s2.boards, bid) {
            let n = choose|n: int| 0 <= n < s2.boards.len() && (#[trigger] s2.boards[n]).id == bid;
            assert(bpred(s2.boards[n]));
        }
    }
    assert forall|k: int|
        0 <= k < s.columns.len() && (#[trigger] s.columns[k]).board_id == bid implies
        !has_column(s2.columns, s.columns[k].id) by {
        if has_column(s2.columns, s.columns[k].id) {
            let n = choose|n: int|
                0 <= n < s2.columns.len() && (#[trigger] s2.columns[n]).id == s.columns[k].id;
            assert(cpred(s2.columns[n]));
            let m = choose|m: int| 0 <= m < s.columns.len() && s.columns[m] == s2.columns[n];
            assert(s.columns[m].id == s.columns[k].id);
            assert(m == k);
        }
    }
    assert forall|k: int|
        0 <= k < s.tasks.len()
            && column_of_board(s.columns, (#[trigger] s.tasks[k]).column_id, bid) implies
        !has_task(s2.tasks, s.tasks[k].id) by {
        if has_task(s2.tasks, s.tasks[k].id) {
            let n = choose|n: int|
                0 <= n < s2.tasks.len() && (#[trigger] s2.tasks[n]).id == s.tasks[k].id;
            assert(tpred(s2.tasks[n]));
            let m = choose|m: int| 0 <= m < s.tasks.len() && s.tasks[m] == s2.tasks[n];
            assert(s.tasks[m].id == s.tasks[k].id);
            assert(m == k);
        }
    }
}

/// A listing scoped by board holds exactly the columns of that board:
/// everything it returns carries the board's id, and every column row that
/// carries it is returned.
pub proof fn lemma_list_columns_scoped(cs: Seq<ColumnView>, bid: int)
    ensures
        forall|i: int|
            0 <= i < cs.filter(cpred_of_board(bid)).len()
                ==> (#[trigger] cs.filter(cpred_of_board(bid))[i]).board_id == bid,
        forall|j: int|
            0 <= j < cs.len() && (#[trigger] cs[j]).board_id == bid
                ==> exists|i: int|
                    0 <= i < cs.filter(cpred_of_board(bid)).len()
                        && cs.filter(cpred_of_board(bid))[i] == cs[j],
{
    lemma_filter_props(cs, cpred_of_board(bid));
}

/// An update moves the position exactly on the call that supplies it: an
/// omitted position changes nothing, and a supplied one lands whatever an
/// earlier omitted call did.
pub proof fn lemma_task_position_presence(
    t: TaskView,
    first: UpdateTaskRequest,
    second: UpdateTaskRequest,
    now1: Seq<char>,
    now2: Seq<char>,
)
    requires
        first.position is None,
        second.position is Some,
    ensures
        task_patched(t, first, now1).position == t.position,
        second.position matches Some(p)
            ==> task_patched(task_patched(t, first, now1), second, now2).position == p as int,
{
}

} // verus!
