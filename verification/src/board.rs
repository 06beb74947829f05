//! Boards: the root entity. Commands list, fetch, create, update and delete
//! boards; deleting a board cascades to its columns and their tasks.

use vstd::prelude::*;
use crate::model::{Entity, KanbanError, Patch, opt_view, clone_opt_string};
use crate::store::{
    has_board, wf_store, bpred_not_id, cpred_not_board, tpred_not_board,
    lemma_filter_push,
    lemma_wf_create_board, lemma_wf_update_board, lemma_wf_delete_board,
};
use crate::column::{ColumnResponse, columns_vw, exists_column_of_board};
use crate::task::{TaskResponse, tasks_vw};
use crate::db::{AppState, initialized, store_view, wf_state};
use crate::dates::current_timestamp;

verus! {

/// A board row as stored and as returned, timestamps rendered as text.
#[derive(Debug, Clone, PartialEq, Eq)]
#[verifier::ext_equal]
pub struct BoardResponse {
    pub id: i32,
    pub name: String,
    pub description: Option<String>,
    pub created_at: String,
    pub updated_at: String,
}

/// The model of a board row.
#[verifier::ext_equal]
pub ghost struct BoardView {
    pub id: int,
    pub name: Seq<char>,
    pub description: Option<Seq<char>>,
    pub created_at: Seq<char>,
    pub updated_at: Seq<char>,
}

impl View for BoardResponse {
    type V = BoardView;

    open spec fn view(&self) -> BoardView {
        BoardView {
            id: self.id as int,
            name: self.name@,
            description: opt_view(self.description),
            created_at: self.created_at@,
            updated_at: self.updated_at@,
        }
    }
}

/// The model of a whole board table.
pub open spec fn boards_vw(s: Seq<BoardResponse>) -> Seq<BoardView> {
    s.map_values(|b: BoardResponse| b@)
}

impl BoardResponse {
    /// An explicit copy, equal to the original row.
    pub fn duplicate(&self) -> (r: BoardResponse)
        ensures
            r == *self,
    {
        let r = BoardResponse {
            id: self.id,
            name: self.name.clone(),
            description: clone_opt_string(&self.description),
            created_at: self.created_at.clone(),
            updated_at: self.updated_at.clone(),
        };
        proof {
            assert(r =~= *self);
        }
        r
    }
}

pub struct CreateBoardRequest {
    pub name: String,
    pub description: Option<String>,
}

/// `name` is touched only when supplied; `description` is touched whenever
/// supplied, a null clearing the stored value.
pub struct UpdateBoardRequest {
    pub name: Option<String>,
    pub description: Patch<String>,
}

/// The row that a create request makes, under a fresh id at a given time.
pub open spec fn board_created(request: CreateBoardRequest, id: int, now: Seq<char>) -> BoardView {
    BoardView {
        id,
        name: request.name@,
        description: opt_view(request.description),
        created_at: now,
        updated_at: now,
    }
}

/// The row that an update request leaves, at a given time: `name` only when
/// supplied, `description` whenever supplied (null clears), `created_at`
/// untouched, `updated_at` refreshed.
pub open spec fn board_patched(b: BoardView, request: UpdateBoardRequest, now: Seq<char>) -> BoardView {
    BoardView {
        id: b.id,
        name: match request.name {
            Some(n) => n@,
            None => b.name,
        },
        description: match request.description {
            Patch::Omit => b.description,
            Patch::Clear => None,
            Patch::Put(d) => Some(d@),
        },
        created_at: b.created_at,
        updated_at: now,
    }
}

/// The index of the first board row with this id.
pub(crate) fn find_board_index(boards: &Vec<BoardResponse>, id: i32) -> (r: Option<usize>)
    ensures
        match r {
            Some(i) => i < boards@.len() && boards@[i as int]@.id == id as int,
            None => !has_board(boards_vw(boards@), id as int),
        },
{
    let mut i: usize = 0;
    while i < boards.len()
        invariant
            i <= boards@.len(),
            forall|j: int| 0 <= j < i ==> (#[trigger] boards@[j])@.id != id as int,
        decreases boards@.len() - i,
    {
        if boards[i].id == id {
            return Some(i);
        }
        i += 1;
    }
    proof {
        assert(forall|j: int| 0 <= j < boards@.len()
            ==> (#[trigger] boards_vw(boards@)[j]).id != id as int);
    }
    None
}

/// Returns every board row, in store order.
pub fn get_all_boards(state: &AppState) -> (r: Result<Vec<BoardResponse>, KanbanError>)
    ensures
        match r {
            Ok(list) => initialized(*state) && boards_vw(list@) == store_view(*state).boards,
            Err(e) => e == KanbanError::NotInitialized && !initialized(*state),
        },
{
    match &state.store {
        None => Err(KanbanError::NotInitialized),
        Some(store) => {
            let mut list: Vec<BoardResponse> = Vec::new();
            let mut i: usize = 0;
            while i < store.boards.len()
                invariant
                    i <= store.boards@.len(),
                    list@.len() == i,
                    forall|j: int| 0 <= j < i ==> #[trigger] list@[j] == store.boards@[j],
                decreases store.boards@.len() - i,
            {
                let b = store.boards[i].duplicate();
                list.push(b);
                i += 1;
            }
            proof {
                assert(boards_vw(list@) =~= boards_vw(store.boards@));
            }
            Ok(list)
        },
    }
}

/// Returns the board row with this id, or `NotFound`.
pub fn get_board_by_id(state: &AppState, id: i32) -> (r: Result<BoardResponse, KanbanError>)
    ensures
        match r {
            Ok(b) => {
                &&& initialized(*state)
                &&& b@.id == id as int
                &&& exists|i: int| 0 <= i < store_view(*state).boards.len()
                    && #[trigger] store_view(*state).boards[i] == b@
            },
            Err(e) => match e {
                KanbanError::NotInitialized => !initialized(*state),
                KanbanError::NotFound(ent, eid) => ent == Entity::Board && eid == id
                    && initialized(*state) && !has_board(store_view(*state).boards, id as int),
                _ => false,
            },
        },
{
    match &state.store {
        None => Err(KanbanError::NotInitialized),
        Some(store) => match find_board_index(&store.boards, id) {
            None => Err(KanbanError::NotFound(Entity::Board, id)),
            Some(i) => {
                let b = store.boards[i].duplicate();
                proof {
                    assert(store_view(*state).boards[i as int] == b@);
                }
                Ok(b)
            },
        },
    }
}

/// Creates a board under a fresh id; `created_at` and `updated_at` are both
/// the current time.
pub fn create_board(state: &mut AppState, request: CreateBoardRequest) -> (r: Result<
    BoardResponse,
    KanbanError,
>)
    ensures
        initialized(*final(state)) == initialized(*old(state)),
        wf_state(*old(state)) ==> wf_state(*final(state)),
        match r {
            Ok(b) => {
                &&& initialized(*old(state))
                &&& store_view(*old(state)).next_board_id < i32::MAX as int
                &&& b@ == board_created(request, store_view(*old(state)).next_board_id, b@.created_at)
                &&& b@.updated_at == b@.created_at
                &&& store_view(*final(state)).boards == store_view(*old(state)).boards.push(b@)
                &&& store_view(*final(state)).columns == store_view(*old(state)).columns
                &&& store_view(*final(state)).tasks == store_view(*old(state)).tasks
                &&& store_view(*final(state)).next_board_id == store_view(*old(state)).next_board_id + 1
                &&& store_view(*final(state)).next_column_id == store_view(*old(state)).next_column_id
                &&& store_view(*final(state)).next_task_id == store_view(*old(state)).next_task_id
            },
            Err(e) => {
                &&& *final(state) == *old(state)
                &&& (e == KanbanError::NotInitialized <==> !initialized(*old(state)))
                &&& (e == KanbanError::StorageError <==> initialized(*old(state))
                    && store_view(*old(state)).next_board_id == i32::MAX as int)
                &&& (e is NotInitialized || e is StorageError)
            },
        },
{
    match &mut state.store {
        None => Err(KanbanError::NotInitialized),
        Some(store) => {
            if store.next_board_id == i32::MAX {
                return Err(KanbanError::StorageError);
            }
            let ghost osv = store@;
            let now = current_timestamp();
            let id = store.next_board_id;
            let b = BoardResponse {
                id,
                name: request.name,
                description: request.description,
                created_at: now.clone(),
                updated_at: now,
            };
            let resp = b.duplicate();
            store.next_board_id = id + 1;
            store.boards.push(b);
            proof {
                assert(store@.boards =~= osv.boards.push(resp@));
                assert(resp@ =~= board_created(request, osv.next_board_id, resp@.created_at));
                if wf_store(osv) {
                    lemma_wf_create_board(osv, store@, resp@);
                }
            }
            Ok(resp)
        },
    }
}

/// Updates the board with this id: `name` only when supplied, `description`
/// whenever supplied (null clears); `updated_at` is refreshed, `created_at`
/// kept.
pub fn update_board(state: &mut AppState, id: i32, request: UpdateBoardRequest) -> (r: Result<
    BoardResponse,
    KanbanError,
>)
    ensures
        initialized(*final(state)) == initialized(*old(state)),
        wf_state(*old(state)) ==> wf_state(*final(state)),
        match r {
            Ok(b) => {
                &&& initialized(*old(state))
                &&& exists|i: int| {
                    &&& 0 <= i < store_view(*old(state)).boards.len()
                    &&& (#[trigger] store_view(*old(state)).boards[i]).id == id as int
                    &&& b@ == board_patched(store_view(*old(state)).boards[i], request, b@.updated_at)
                    &&& store_view(*final(state)).boards == store_view(*old(state)).boards.update(i, b@)
                }
                &&& store_view(*final(state)).columns == store_view(*old(state)).columns
                &&& store_view(*final(state)).tasks == store_view(*old(state)).tasks
                &&& store_view(*final(state)).next_board_id == store_view(*old(state)).next_board_id
                &&& store_view(*final(state)).next_column_id == store_view(*old(state)).next_column_id
                &&& store_view(*final(state)).next_task_id == store_view(*old(state)).next_task_id
            },
            Err(e) => {
                &&& *final(state) == *old(state)
                &&& match e {
                    KanbanError::NotInitialized => !initialized(*old(state)),
                    KanbanError::NotFound(ent, eid) => ent == Entity::Board && eid == id
                        && initialized(*old(state))
                        && !has_board(store_view(*old(state)).boards, id as int),
                    _ => false,
                }
            },
        },
{
    match &mut state.store {
        None => Err(KanbanError::NotInitialized),
        Some(store) => {
            let ghost osv = store@;
            match find_board_index(&store.boards, id) {
                None => Err(KanbanError::NotFound(Entity::Board, id)),
                Some(i) => {
                    let old_b = store.boards[i].duplicate();
                    let now = current_timestamp();
                    let UpdateBoardRequest { name, description } = request;
                    let new_name = match name {
                        Some(n) => n,
                        None => old_b.name.clone(),
                    };
                    let new_desc = match description {
                        Patch::Omit => clone_opt_string(&old_b.description),
                        Patch::Clear => None,
                        Patch::Put(d) => Some(d),
                    };
                    let b = BoardResponse {
                        id: old_b.id,
                        name: new_name,
                        description: new_desc,
                        created_at: old_b.created_at.clone(),
                        updated_at: now,
                    };
                    let resp = b.duplicate();
                    store.boards.set(i, b);
                    proof {
                        assert(resp@ =~= board_patched(osv.boards[i as int], request, resp@.updated_at));
                        assert(store@.boards =~= osv.boards.update(i as int, resp@));
                        assert((i as int) < osv.boards.len()
                            && osv.boards[i as int].id == id as int
                            && resp@ == board_patched(osv.boards[i as int], request, resp@.updated_at)
                            && store@.boards == osv.boards.update(i as int, resp@));
                        if wf_store(osv) {
                            lemma_wf_update_board(osv, store@, i as int, resp@);
                        }
                    }
                    Ok(resp)
                },
            }
        },
    }
}

/// Deletes the board with this id, together with its columns and their
/// tasks.
pub fn delete_board(state: &mut AppState, id: i32) -> (r: Result<(), KanbanError>)
    ensures
        initialized(*final(state)) == initialized(*old(state)),
        wf_state(*old(state)) ==> wf_state(*final(state)),
        match r {
            Ok(_) => {
                &&& initialized(*old(state))
                &&& has_board(store_view(*old(state)).boards, id as int)
                &&& store_view(*final(state)).boards == store_view(*old(state)).boards.filter(
                    bpred_not_id(id as int),
                )
                &&& store_view(*final(state)).columns == store_view(*old(state)).columns.filter(
                    cpred_not_board(id as int),
                )
                &&& store_view(*final(state)).tasks == store_view(*old(state)).tasks.filter(
                    tpred_not_board(store_view(*old(state)).columns, id as int),
                )
                &&& store_view(*final(state)).next_board_id == store_view(*old(state)).next_board_id
                &&& store_view(*final(state)).next_column_id == store_view(*old(state)).next_column_id
                &&& store_view(*final(state)).next_task_id == store_view(*old(state)).next_task_id
            },
            Err(e) => {
                &&& *final(state) == *old(state)
                &&& match e {
                    KanbanError::NotInitialized => !initialized(*old(state)),
                    KanbanError::NotFound(ent, eid) => ent == Entity::Board && eid == id
                        && initialized(*old(state))
                        && !has_board(store_view(*old(state)).boards, id as int),
                    _ => false,
                }
            },
        },
{
    match &mut state.store {
        None => Err(KanbanError::NotInitialized),
        Some(store) => {
            let ghost osv = store@;
            match find_board_index(&store.boards, id) {
                None => Err(KanbanError::NotFound(Entity::Board, id)),
                Some(i) => {
                    // Tasks survive exactly when their column does not belong
                    // to the deleted board.
                    let ghost tpred = tpred_not_board(osv.columns, id as int);
                    let mut kept_tasks: Vec<TaskResponse> = Vec::new();
                    let mut j: usize = 0;
                    while j < store.tasks.len()
                        invariant
                            j <= store.tasks@.len(),
                            tasks_vw(store.tasks@) == osv.tasks,
                            columns_vw(store.columns@) == osv.columns,
                            tasks_vw(kept_tasks@) == osv.tasks.take(j as int).filter(tpred),
                            tpred == tpred_not_board(osv.columns, id as int),
                        decreases store.tasks@.len() - j,
                    {
                        let t = &store.tasks[j];
                        let doomed = exists_column_of_board(&store.columns, t.column_id, id);
                        proof {
                            assert(osv.tasks.take(j as int + 1).drop_last() =~= osv.tasks.take(j as int));
                            assert(osv.tasks.take(j as int + 1).last() == osv.tasks[j as int]);
                            lemma_filter_push(osv.tasks.take(j as int), osv.tasks[j as int], tpred);
                            assert(osv.tasks.take(j as int + 1) =~= osv.tasks.take(j as int).push(osv.tasks[j as int]));
                        }
                        if !doomed {
                            let copy = t.duplicate();
                            kept_tasks.push(copy);
                            proof {
                                assert(tasks_vw(kept_tasks@) =~= osv.tasks.take(j as int).filter(tpred).push(osv.tasks[j as int]));
                            }
                        }
                        j += 1;
                    }
                    proof {
                        assert(osv.tasks.take(osv.tasks.len() as int) =~= osv.tasks);
                    }
                    // Columns survive exactly when they do not belong to the
                    // deleted board.
                    let ghost cpred = cpred_not_board(id as int);
                    let mut kept_columns: Vec<ColumnResponse> = Vec::new();
                    let mut k: usize = 0;
                    while k < store.columns.len()
                        invariant
                            k <= store.columns@.len(),
                            columns_vw(store.columns@) == osv.columns,
                            columns_vw(kept_columns@) == osv.columns.take(k as int).filter(cpred),
                            cpred == cpred_not_board(id as int),
                        decreases store.columns@.len() - k,
                    {
                        let c = &store.columns[k];
                        proof {
                            assert(osv.columns.take(k as int + 1).drop_last() =~= osv.columns.take(k as int));
                            assert(osv.columns.take(k as int + 1).last() == osv.columns[k as int]);
                            lemma_filter_push(osv.columns.take(k as int), osv.columns[k as int], cpred);
                            assert(osv.columns.take(k as int + 1) =~= osv.columns.take(k as int).push(osv.columns[k as int]));
                        }
                        if c.board_id != id {
                            let copy = c.duplicate();
                            kept_columns.push(copy);
                            proof {
                                assert(columns_vw(kept_columns@) =~= osv.columns.take(k as int).filter(cpred).push(osv.columns[k as int]));
                            }
                        }
                        k += 1;
                    }
                    proof {
                        assert(osv.columns.take(osv.columns.len() as int) =~= osv.columns);
                    }
                    // Boards survive exactly when they do not carry the id.
                    let ghost bpred = bpred_not_id(id as int);
                    let mut kept_boards: Vec<BoardResponse> = Vec::new();
                    let mut m: usize = 0;
                    while m < store.boards.len()
                        invariant
                            m <= store.boards@.len(),
                            boards_vw(store.boards@) == osv.boards,
                            boards_vw(kept_boards@) == osv.boards.take(m as int).filter(bpred),
                            bpred == bpred_not_id(id as int),
                        decreases store.boards@.len() - m,
                    {
                        let b = &store.boards[m];
                        proof {
                            assert(osv.boards.take(m as int + 1).drop_last() =~= osv.boards.take(m as int));
                            assert(osv.boards.take(m as int + 1).last() == osv.boards[m as int]);
                            lemma_filter_push(osv.boards.take(m as int), osv.boards[m as int], bpred);
                            assert(osv.boards.take(m as int + 1) =~= osv.boards.take(m as int).push(osv.boards[m as int]));
                        }
                        if b.id != id {
                            let copy = b.duplicate();
                            kept_boards.push(copy);
                            proof {
                                assert(boards_vw(kept_boards@) =~= osv.boards.take(m as int).filter(bpred).push(osv.boards[m as int]));
                            }
                        }
                        m += 1;
                    }
                    proof {
                        assert(osv.boards.take(osv.boards.len() as int) =~= osv.boards);
                        assert(osv.boards[i as int].id == id as int);
                    }
                    store.boards = kept_boards;
                    store.columns = kept_columns;
                    store.tasks = kept_tasks;
                    proof {
                        if wf_store(osv) {
                            lemma_wf_delete_board(osv, store@, id as int);
                        }
                    }
                    Ok(())
                },
            }
        },
    }
}

} // verus!
