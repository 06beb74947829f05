//! Columns: ordered stages within a board. Listing is scoped by board;
//! deleting a column cascades to its tasks.

use vstd::prelude::*;
use crate::model::{Entity, KanbanError, clone_opt_string};
use crate::store::{
    has_board, has_column, column_of_board, wf_store,
    cpred_of_board, cpred_not_id, tpred_not_column,
    lemma_filter_push,
    lemma_wf_create_column, lemma_wf_update_column, lemma_wf_delete_column,
};
use crate::board::find_board_index;
use crate::task::{TaskResponse, tasks_vw};
use crate::db::{AppState, initialized, store_view, wf_state};
use crate::dates::current_timestamp;

verus! {

/// A column row as stored and as returned, timestamps rendered as text.
#[derive(Debug, Clone, PartialEq, Eq)]
#[verifier::ext_equal]
pub struct ColumnResponse {
    pub id: i32,
    pub board_id: i32,
    pub name: String,
    pub position: i32,
    pub created_at: String,
    pub updated_at: String,
}

/// The model of a column row.
#[verifier::ext_equal]
pub ghost struct ColumnView {
    pub id: int,
    pub board_id: int,
    pub name: Seq<char>,
    pub position: int,
    pub created_at: Seq<char>,
    pub updated_at: Seq<char>,
}

impl View for ColumnResponse {
    type V = ColumnView;

    open spec fn view(&self) -> ColumnView {
        ColumnView {
            id: self.id as int,
            board_id: self.board_id as int,
            name: self.name@,
            position: self.position as int,
            created_at: self.created_at@,
            updated_at: self.updated_at@,
        }
    }
}

/// The model of a whole column table.
pub open spec fn columns_vw(s: Seq<ColumnResponse>) -> Seq<ColumnView> {
    s.map_values(|c: ColumnResponse| c@)
}

impl ColumnResponse {
    /// An explicit copy, equal to the original row.
    pub fn duplicate(&self) -> (r: ColumnResponse)
        ensures
            r == *self,
    {
        let r = ColumnResponse {
            id: self.id,
            board_id: self.board_id,
            name: self.name.clone(),
            position: self.position,
            created_at: self.created_at.clone(),
            updated_at: self.updated_at.clone(),
        };
        proof {
            assert(r =~= *self);
        }
        r
    }
}

pub struct CreateColumnRequest {
    pub board_id: i32,
    pub name: String,
    pub position: i32,
}

/// Both fields are touched only when supplied.
pub struct UpdateColumnRequest {
    pub name: Option<String>,
    pub position: Option<i32>,
}

/// Whether some column row carries this id and belongs to this board.
pub(crate) fn exists_column_of_board(columns: &Vec<ColumnResponse>, column_id: i32, board_id: i32) -> (r:
    bool)
    ensures
        r == column_of_board(columns_vw(columns@), column_id as int, board_id as int),
{
    let mut i: usize = 0;
    while i < columns.len()
        invariant
            i <= columns@.len(),
            forall|j: int| 0 <= j < i
                ==> !((#[trigger] columns@[j])@.id == column_id as int
                    && columns@[j]@.board_id == board_id as int),
        decreases columns@.len() - i,
    {
        if columns[i].id == column_id && columns[i].board_id == board_id {
            proof {
                assert(columns_vw(columns@)[i as int].id == column_id as int
                    && columns_vw(columns@)[i as int].board_id == board_id as int);
            }
            return true;
        }
        i += 1;
    }
    proof {
        assert(forall|j: int| 0 <= j < columns@.len()
            ==> !((#[trigger] columns_vw(columns@)[j]).id == column_id as int
                && columns_vw(columns@)[j].board_id == board_id as int));
    }
    false
}

/// The index of the first column row with this id.
pub(crate) fn find_column_index(columns: &Vec<ColumnResponse>, id: i32) -> (r: Option<usize>)
    ensures
        match r {
            Some(i) => i < columns@.len() && columns@[i as int]@.id == id as int,
            None => !has_column(columns_vw(columns@), id as int),
        },
{
    let mut i: usize = 0;
    while i < columns.len()
        invariant
            i <= columns@.len(),
            forall|j: int| 0 <= j < i ==> (#[trigger] columns@[j])@.id != id as int,
        decreases columns@.len() - i,
    {
        if columns[i].id == id {
            return Some(i);
        }
        i += 1;
    }
    proof {
        assert(forall|j: int| 0 <= j < columns@.len()
            ==> (#[trigger] columns_vw(columns@)[j]).id != id as int);
    }
    None
}

/// The row that a create request makes, under a fresh id at a given time.
pub open spec fn column_created(request: CreateColumnRequest, id: int, now: Seq<char>) -> ColumnView {
    ColumnView {
        id,
        board_id: request.board_id as int,
        name: request.name@,
        position: request.position as int,
        created_at: now,
        updated_at: now,
    }
}

/// The row that an update request leaves, at a given time: `name` and
/// `position` only when supplied, `created_at` untouched, `updated_at`
/// refreshed.
pub open spec fn column_patched(c: ColumnView, request: UpdateColumnRequest, now: Seq<char>) -> ColumnView {
    ColumnView {
        id: c.id,
        board_id: c.board_id,
        name: match request.name {
            Some(n) => n@,
            None => c.name,
        },
        position: match request.position {
            Some(p) => p as int,
            None => c.position,
        },
        created_at: c.created_at,
        updated_at: now,
    }
}

/// Returns the column rows of this board, in store order and nothing else.
pub fn get_columns_by_board(state: &AppState, board_id: i32) -> (r: Result<
    Vec<ColumnResponse>,
    KanbanError,
>)
    ensures
        match r {
            Ok(list) => initialized(*state) && columns_vw(list@) == store_view(*state).columns.filter(
                cpred_of_board(board_id as int),
            ),
            Err(e) => e == KanbanError::NotInitialized && !initialized(*state),
        },
{
    match &state.store {
        None => Err(KanbanError::NotInitialized),
        Some(store) => {
            let ghost cv = columns_vw(store.columns@);
            let ghost pred = cpred_of_board(board_id as int);
            let mut list: Vec<ColumnResponse> = Vec::new();
            let mut i: usize = 0;
            while i < store.columns.len()
                invariant
                    i <= store.columns@.len(),
                    columns_vw(store.columns@) == cv,
                    columns_vw(list@) == cv.take(i as int).filter(pred),
                    pred == cpred_of_board(board_id as int),
                decreases store.columns@.len() - i,
            {
                let c = &store.columns[i];
                proof {
                    assert(cv.take(i as int + 1).drop_last() =~= cv.take(i as int));
                    assert(cv.take(i as int + 1).last() == cv[i as int]);
                    lemma_filter_push(cv.take(i as int), cv[i as int], pred);
                    assert(cv.take(i as int + 1) =~= cv.take(i as int).push(cv[i as int]));
                }
                if c.board_id == board_id {
                    let copy = c.duplicate();
                    list.push(copy);
                    proof {
                        assert(columns_vw(list@) =~= cv.take(i as int).filter(pred).push(cv[i as int]));
                    }
                }
                i += 1;
            }
            proof {
                assert(cv.take(cv.len() as int) =~= cv);
            }
            Ok(list)
        },
    }
}

/// Returns the column row with this id, or `NotFound`.
pub fn get_column_by_id(state: &AppState, id: i32) -> (r: Result<ColumnResponse, KanbanError>)
    ensures
        match r {
            Ok(c) => {
                &&& initialized(*state)
                &&& c@.id == id as int
                &&& exists|i: int| 0 <= i < store_view(*state).columns.len()
                    && #[trigger] store_view(*state).columns[i] == c@
            },
            Err(e) => match e {
                KanbanError::NotInitialized => !initialized(*state),
                KanbanError::NotFound(ent, eid) => ent == Entity::Column && eid == id
                    && initialized(*state) && !has_column(store_view(*state).columns, id as int),
                _ => false,
            },
        },
{
    match &state.store {
        None => Err(KanbanError::NotInitialized),
        Some(store) => match find_column_index(&store.columns, id) {
            None => Err(KanbanError::NotFound(Entity::Column, id)),
            Some(i) => {
                let c = store.columns[i].duplicate();
                proof {
                    assert(store_view(*state).columns[i as int] == c@);
                }
                Ok(c)
            },
        },
    }
}

/// Creates a column under a fresh id, for an existing board; `created_at`
/// and `updated_at` are both the current time.
pub fn create_column(state: &mut AppState, request: CreateColumnRequest) -> (r: Result<
    ColumnResponse,
    KanbanError,
>)
    ensures
        initialized(*final(state)) == initialized(*old(state)),
        wf_state(*old(state)) ==> wf_state(*final(state)),
        match r {
            Ok(c) => {
                &&& initialized(*old(state))
                &&& store_view(*old(state)).next_column_id < i32::MAX as int
                &&& has_board(store_view(*old(state)).boards, request.board_id as int)
                &&& c@ == column_created(request, store_view(*old(state)).next_column_id, c@.created_at)
                &&& c@.updated_at == c@.created_at
                &&& store_view(*final(state)).boards == store_view(*old(state)).boards
                &&& store_view(*final(state)).columns == store_view(*old(state)).columns.push(c@)
                &&& store_view(*final(state)).tasks == store_view(*old(state)).tasks
                &&& store_view(*final(state)).next_board_id == store_view(*old(state)).next_board_id
                &&& store_view(*final(state)).next_column_id == store_view(*old(state)).next_column_id + 1
                &&& store_view(*final(state)).next_task_id == store_view(*old(state)).next_task_id
            },
            Err(e) => {
                &&& *final(state) == *old(state)
                &&& (e == KanbanError::NotInitialized <==> !initialized(*old(state)))
                &&& (e == KanbanError::StorageError <==> initialized(*old(state))
                    && (store_view(*old(state)).next_column_id == i32::MAX as int
                        || !has_board(store_view(*old(state)).boards, request.board_id as int)))
                &&& (e is NotInitialized || e is StorageError)
            },
        },
{
    match &mut state.store {
        None => Err(KanbanError::NotInitialized),
        Some(store) => {
            if store.next_column_id == i32::MAX {
                return Err(KanbanError::StorageError);
            }
            match find_board_index(&store.boards, request.board_id) {
                None => Err(KanbanError::StorageError),
                Some(bi) => {
                    let ghost osv = store@;
                    proof {
                        assert(osv.boards[bi as int].id == request.board_id as int);
                    }
                    let now = current_timestamp();
                    let id = store.next_column_id;
                    let c = ColumnResponse {
                        id,
                        board_id: request.board_id,
                        name: request.name,
                        position: request.position,
                        created_at: now.clone(),
                        updated_at: now,
                    };
                    let resp = c.duplicate();
                    store.next_column_id = id + 1;
                    store.columns.push(c);
                    proof {
                        assert(store@.columns =~= osv.columns.push(resp@));
                        assert(resp@ =~= column_created(request, osv.next_column_id, resp@.created_at));
                        if wf_store(osv) {
                            lemma_wf_create_column(osv, store@, resp@);
                        }
                    }
                    Ok(resp)
                },
            }
        },
    }
}

/// Updates the column with this id: `name` and `position` only when
/// supplied; `updated_at` is refreshed, `created_at` and the owning board
/// kept.
pub fn update_column(state: &mut AppState, id: i32, request: UpdateColumnRequest) -> (r: Result<
    ColumnResponse,
    KanbanError,
>)
    ensures
        initialized(*final(state)) == initialized(*old(state)),
        wf_state(*old(state)) ==> wf_state(*final(state)),
        match r {
            Ok(c) => {
                &&& initialized(*old(state))
                &&& exists|i: int| {
                    &&& 0 <= i < store_view(*old(state)).columns.len()
                    &&& (#[trigger] store_view(*old(state)).columns[i]).id == id as int
                    &&& c@ == column_patched(store_view(*old(state)).columns[i], request, c@.updated_at)
                    &&& store_view(*final(state)).columns == store_view(*old(state)).columns.update(i, c@)
                }
                &&& store_view(*final(state)).boards == store_view(*old(state)).boards
                &&& store_view(*final(state)).tasks == store_view(*old(state)).tasks
                &&& store_view(*final(state)).next_board_id == store_view(*old(state)).next_board_id
                &&& store_view(*final(state)).next_column_id == store_view(*old(state)).next_column_id
                &&& store_view(*final(state)).next_task_id == store_view(*old(state)).next_task_id
            },
            Err(e) => {
                &&& *final(state) == *old(state)
                &&& match e {
                    KanbanError::NotInitialized => !initialized(*old(state)),
                    KanbanError::NotFound(ent, eid) => ent == Entity::Column && eid == id
                        && initialized(*old(state))
                        && !has_column(store_view(*old(state)).columns, id as int),
                    _ => false,
                }
            },
        },
{
    match &mut state.store {
        None => Err(KanbanError::NotInitialized),
        Some(store) => {
            let ghost osv = store@;
            match find_column_index(&store.columns, id) {
                None => Err(KanbanError::NotFound(Entity::Column, id)),
                Some(i) => {
                    let old_c = store.columns[i].duplicate();
                    let now = current_timestamp();
                    let UpdateColumnRequest { name, position } = request;
                    let new_name = match name {
                        Some(n) => n,
                        None => old_c.name.clone(),
                    };
                    let new_pos = match position {
                        Some(p) => p,
                        None => old_c.position,
                    };
                    let c = ColumnResponse {
                        id: old_c.id,
                        board_id: old_c.board_id,
                        name: new_name,
                        position: new_pos,
                        created_at: old_c.created_at.clone(),
                        updated_at: now,
                    };
                    let resp = c.duplicate();
                    store.columns.set(i, c);
                    proof {
                        assert(resp@ =~= column_patched(osv.columns[i as int], request, resp@.updated_at));
                        assert(store@.columns =~= osv.columns.update(i as int, resp@));
                        assert((i as int) < osv.columns.len()
                            && osv.columns[i as int].id == id as int
                            && resp@ == column_patched(osv.columns[i as int], request, resp@.updated_at)
                            && store@.columns == osv.columns.update(i as int, resp@));
                        if wf_store(osv) {
                            lemma_wf_update_column(osv, store@, i as int, resp@);
                        }
                    }
                    Ok(resp)
                },
            }
        },
    }
}

/// Deletes the column with this id, together with its tasks.
pub fn delete_column(state: &mut AppState, id: i32) -> (r: Result<(), KanbanError>)
    ensures
        initialized(*final(state)) == initialized(*old(state)),
        wf_state(*old(state)) ==> wf_state(*final(state)),
        match r {
            Ok(_) => {
                &&& initialized(*old(state))
                &&& has_column(store_view(*old(state)).columns, id as int)
                &&& store_view(*final(state)).boards == store_view(*old(state)).boards
                &&& store_view(*final(state)).columns == store_view(*old(state)).columns.filter(
                    cpred_not_id(id as int),
                )
                &&& store_view(*final(state)).tasks == store_view(*old(state)).tasks.filter(
                    tpred_not_column(id as int),
                )
                &&& store_view(*final(state)).next_board_id == store_view(*old(state)).next_board_id
                &&& store_view(*final(state)).next_column_id == store_view(*old(state)).next_column_id
                &&& store_view(*final(state)).next_task_id == store_view(*old(state)).next_task_id
            },
            Err(e) => {
                &&& *final(state) == *old(state)
                &&& match e {
                    KanbanError::NotInitialized => !initialized(*old(state)),
                    KanbanError::NotFound(ent, eid) => ent == Entity::Column && eid == id
                        && initialized(*old(state))
                        && !has_column(store_view(*old(state)).columns, id as int),
                    _ => false,
                }
            },
        },
{
    match &mut state.store {
        None => Err(KanbanError::NotInitialized),
        Some(store) => {
            let ghost osv = store@;
            match find_column_index(&store.columns, id) {
                None => Err(KanbanError::NotFound(Entity::Column, id)),
                Some(ci) => {
                    proof {
                        assert(osv.columns[ci as int].id == id as int);
                    }
                    // Tasks survive exactly when they do not belong to the
                    // deleted column.
                    let ghost tpred = tpred_not_column(id as int);
                    let mut kept_tasks: Vec<TaskResponse> = Vec::new();
                    let mut j: usize = 0;
                    while j < store.tasks.len()
                        invariant
                            j <= store.tasks@.len(),
                            tasks_vw(store.tasks@) == osv.tasks,
                            tasks_vw(kept_tasks@) == osv.tasks.take(j as int).filter(tpred),
                            tpred == tpred_not_column(id as int),
                        decreases store.tasks@.len() - j,
                    {
                        let t = &store.tasks[j];
                        proof {
                            assert(osv.tasks.take(j as int + 1).drop_last() =~= osv.tasks.take(j as int));
                            assert(osv.tasks.take(j as int + 1).last() == osv.tasks[j as int]);
                            lemma_filter_push(osv.tasks.take(j as int), osv.tasks[j as int], tpred);
                            assert(osv.tasks.take(j as int + 1) =~= osv.tasks.take(j as int).push(osv.tasks[j as int]));
                        }
                        if t.column_id != id {
                            let copy = t.duplicate();
                            kept_tasks.push(copy);
                            proof {
                                assert(tasks_vw(kept_tasks@) =~= osv.tasks.take(j as int).filter(tpred).push(osv.tasks[j as int]));
                            }
                        }
                        j += 1;
                    }
                    proof {
                        assert(osv.tasks.take(osv.tasks.len() as int) =~= osv.tasks);
                    }
                    // Columns survive exactly when they do not carry the id.
                    let ghost cpred = cpred_not_id(id as int);
                    let mut kept_columns: Vec<ColumnResponse> = Vec::new();
                    let mut k: usize = 0;
                    while k < store.columns.len()
                        invariant
                            k <= store.columns@.len(),
                            columns_vw(store.columns@) == osv.columns,
                            columns_vw(kept_columns@) == osv.columns.take(k as int).filter(cpred),
                            cpred == cpred_not_id(id as int),
                        decreases store.columns@.len() - k,
                    {
                        let c = &store.columns[k];
                        proof {
                            assert(osv.columns.take(k as int + 1).drop_last() =~= osv.columns.take(k as int));
                            assert(osv.columns.take(k as int + 1).last() == osv.columns[k as int]);
                            lemma_filter_push(osv.columns.take(k as int), osv.columns[k as int], cpred);
                            assert(osv.columns.take(k as int + 1) =~= osv.columns.take(k as int).push(osv.columns[k as int]));
                        }
                        if c.id != id {
                            let copy = c.duplicate();
                            kept_columns.push(copy);
                            proof {
                                assert(columns_vw(kept_columns@) =~= osv.columns.take(k as int).filter(cpred).push(osv.columns[k as int]));
                            }
                        }
                        k += 1;
                    }
                    proof {
                        assert(osv.columns.take(osv.columns.len() as int) =~= osv.columns);
                    }
                    store.columns = kept_columns;
                    store.tasks = kept_tasks;
                    proof {
                        if wf_store(osv) {
                            lemma_wf_delete_column(osv, store@, id as int);
                        }
                    }
                    Ok(())
                },
            }
        },
    }
}

} // verus!
