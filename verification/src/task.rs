//! Tasks: leaf work items within a column, with an optional free-text
//! priority and an optional due date that must be a well-formed RFC 3339
//! string.

use vstd::prelude::*;
use crate::model::{Entity, KanbanError, opt_view, clone_opt_string, Patch};
use crate::store::{
    has_column, has_task, wf_store,
    tpred_of_column, tpred_not_id,
    lemma_filter_push,
    lemma_wf_create_task, lemma_wf_update_task, lemma_wf_delete_task,
};
use crate::column::find_column_index;
use crate::db::{AppState, initialized, store_view, wf_state};
use crate::dates::{rfc3339_parse, parse_rfc3339, current_timestamp};

verus! {

/// A task row as stored and as returned; timestamps and the due date are
/// rendered as text.
#[derive(Debug, Clone, PartialEq, Eq)]
#[verifier::ext_equal]
pub struct TaskResponse {
    pub id: i32,
    pub column_id: i32,
    pub title: String,
    pub description: Option<String>,
    pub position: i32,
    pub priority: Option<String>,
    pub due_date: Option<String>,
    pub created_at: String,
    pub updated_at: String,
}

/// The model of a task row.
#[verifier::ext_equal]
pub ghost struct TaskView {
    pub id: int,
    pub column_id: int,
    pub title: Seq<char>,
    pub description: Option<Seq<char>>,
    pub position: int,
    pub priority: Option<Seq<char>>,
    pub due_date: Option<Seq<char>>,
    pub created_at: Seq<char>,
    pub updated_at: Seq<char>,
}

impl View for TaskResponse {
    type V = TaskView;

    open spec fn view(&self) -> TaskView {
        TaskView {
            id: self.id as int,
            column_id: self.column_id as int,
            title: self.title@,
            description: opt_view(self.description),
            position: self.position as int,
            priority: opt_view(self.priority),
            due_date: opt_view(self.due_date),
            created_at: self.created_at@,
            updated_at: self.updated_at@,
        }
    }
}

/// The model of a whole task table.
pub open spec fn tasks_vw(s: Seq<TaskResponse>) -> Seq<TaskView> {
    s.map_values(|t: TaskResponse| t@)
}

impl TaskResponse {
    /// An explicit copy, equal to the original row.
    pub fn duplicate(&self) -> (r: TaskResponse)
        ensures
            r == *self,
    {
        let r = TaskResponse {
            id: self.id,
            column_id: self.column_id,
            title: self.title.clone(),
            description: clone_opt_string(&self.description),
            position: self.position,
            priority: clone_opt_string(&self.priority),
            due_date: clone_opt_string(&self.due_date),
            created_at: self.created_at.clone(),
            updated_at: self.updated_at.clone(),
        };
        proof {
            assert(r =~= *self);
        }
        r
    }
}

pub struct CreateTaskRequest {
    pub column_id: i32,
    pub title: String,
    pub description: Option<String>,
    pub position: i32,
    pub priority: Option<String>,
    pub due_date: Option<String>,
}

/// `column_id`, `title`, `position` and `due_date` are touched only when
/// supplied; `description` and `priority` are touched whenever supplied, a
/// null clearing the stored value. A supplied `due_date` is validated anew.
pub struct UpdateTaskRequest {
    pub column_id: Option<i32>,
    pub title: Option<String>,
    pub description: Patch<String>,
    pub position: Option<i32>,
    pub priority: Patch<String>,
    pub due_date: Option<String>,
}

/// The index of the first task row with this id.
pub(crate) fn find_task_index(tasks: &Vec<TaskResponse>, id: i32) -> (r: Option<usize>)
    ensures
        match r {
            Some(i) => i < tasks@.len() && tasks@[i as int]@.id == id as int,
            None => !has_task(tasks_vw(tasks@), id as int),
        },
{
    let mut i: usize = 0;
    while i < tasks.len()
        invariant
            i <= tasks@.len(),
            forall|j: int| 0 <= j < i ==> (#[trigger] tasks@[j])@.id != id as int,
        decreases tasks@.len() - i,
    {
        if tasks[i].id == id {
            return Some(i);
        }
        i += 1;
    }
    proof {
        assert(forall|j: int| 0 <= j < tasks@.len()
            ==> (#[trigger] tasks_vw(tasks@)[j]).id != id as int);
    }
    None
}

/// Whether the due date of a request, if supplied, is a well-formed RFC 3339
/// string.
pub open spec fn due_ok(o: Option<String>) -> bool {
    match o {
        None => true,
        Some(d) => rfc3339_parse(d@) is Some,
    }
}

/// The stored form of a supplied due date: absent when absent, else the
/// canonical rendering of the parsed value.
pub open spec fn due_view(o: Option<String>) -> Option<Seq<char>> {
    match o {
        None => None,
        Some(d) => rfc3339_parse(d@),
    }
}

/// The row that a create request makes, under a fresh id at a given time.
pub open spec fn task_created(request: CreateTaskRequest, id: int, now: Seq<char>) -> TaskView {
    TaskView {
        id,
        column_id: request.column_id as int,
        title: request.title@,
        description: opt_view(request.description),
        position: request.position as int,
        priority: opt_view(request.priority),
        due_date: due_view(request.due_date),
        created_at: now,
        updated_at: now,
    }
}

/// The row that an update request leaves, at a given time: `column_id`,
/// `title`, `position` and `due_date` only when supplied; `description` and
/// `priority` whenever supplied (null clears); `created_at` untouched,
/// `updated_at` refreshed.
pub open spec fn task_patched(t: TaskView, request: UpdateTaskRequest, now: Seq<char>) -> TaskView {
    TaskView {
        id: t.id,
        column_id: match request.column_id {
            Some(c) => c as int,
            None => t.column_id,
        },
        title: match request.title {
            Some(s) => s@,
            None => t.title,
        },
        description: match request.description {
            Patch::Omit => t.description,
            Patch::Clear => None,
            Patch::Put(d) => Some(d@),
        },
        position: match request.position {
            Some(p) => p as int,
            None => t.position,
        },
        priority: match request.priority {
            Patch::Omit => t.priority,
            Patch::Clear => None,
            Patch::Put(p) => Some(p@),
        },
        due_date: match request.due_date {
            Some(d) => rfc3339_parse(d@),
            None => t.due_date,
        },
        created_at: t.created_at,
        updated_at: now,
    }
}

/// Returns the task rows of this column, in store order and nothing else.
pub fn get_tasks_by_column(state: &AppState, column_id: i32) -> (r: Result<
    Vec<TaskResponse>,
    KanbanError,
>)
    ensures
        match r {
            Ok(list) => initialized(*state) && tasks_vw(list@) == store_view(*state).tasks.filter(
                tpred_of_column(column_id as int),
            ),
            Err(e) => e == KanbanError::NotInitialized && !initialized(*state),
        },
{
    match &state.store {
        None => Err(KanbanError::NotInitialized),
        Some(store) => {
            let ghost tv = tasks_vw(store.tasks@);
            let ghost pred = tpred_of_column(column_id as int);
            let mut list: Vec<TaskResponse> = Vec::new();
            let mut i: usize = 0;
            while i < store.tasks.len()
                invariant
                    i <= store.tasks@.len(),
                    tasks_vw(store.tasks@) == tv,
                    tasks_vw(list@) == tv.take(i as int).filter(pred),
                    pred == tpred_of_column(column_id as int),
                decreases store.tasks@.len() - i,
            {
                let t = &store.tasks[i];
                proof {
                    assert(tv.take(i as int + 1).drop_last() =~= tv.take(i as int));
                    assert(tv.take(i as int + 1).last() == tv[i as int]);
                    lemma_filter_push(tv.take(i as int), tv[i as int], pred);
                    assert(tv.take(i as int + 1) =~= tv.take(i as int).push(tv[i as int]));
                }
                if t.column_id == column_id {
                    let copy = t.duplicate();
                    list.push(copy);
                    proof {
                        assert(tasks_vw(list@) =~= tv.take(i as int).filter(pred).push(tv[i as int]));
                    }
                }
                i += 1;
            }
            proof {
                assert(tv.take(tv.len() as int) =~= tv);
            }
            Ok(list)
        },
    }
}

/// Returns the task row with this id, or `NotFound`.
pub fn get_task_by_id(state: &AppState, id: i32) -> (r: Result<TaskResponse, KanbanError>)
    ensures
        match r {
            Ok(t) => {
                &&& initialized(*state)
                &&& t@.id == id as int
                &&& exists|i: int| 0 <= i < store_view(*state).tasks.len()
                    && #[trigger] store_view(*state).tasks[i] == t@
            },
            Err(e) => match e {
                KanbanError::NotInitialized => !initialized(*state),
                KanbanError::NotFound(ent, eid) => ent == Entity::Task && eid == id
                    && initialized(*state) && !has_task(store_view(*state).tasks, id as int),
                _ => false,
            },
        },
{
    match &state.store {
        None => Err(KanbanError::NotInitialized),
        Some(store) => match find_task_index(&store.tasks, id) {
            None => Err(KanbanError::NotFound(Entity::Task, id)),
            Some(i) => {
                let t = store.tasks[i].duplicate();
                proof {
                    assert(store_view(*state).tasks[i as int] == t@);
                }
                Ok(t)
            },
        },
    }
}

/// Creates a task under a fresh id, for an existing column; a supplied due
/// date must be well formed; `created_at` and `updated_at` are both the
/// current time.
pub fn create_task(state: &mut AppState, request: CreateTaskRequest) -> (r: Result<
    TaskResponse,
    KanbanError,
>)
    ensures
        initialized(*final(state)) == initialized(*old(state)),
        wf_state(*old(state)) ==> wf_state(*final(state)),
        match r {
            Ok(t) => {
                &&& initialized(*old(state))
                &&& due_ok(request.due_date)
                &&& store_view(*old(state)).next_task_id < i32::MAX as int
                &&& has_column(store_view(*old(state)).columns, request.column_id as int)
                &&& t@ == task_created(request, store_view(*old(state)).next_task_id, t@.created_at)
                &&& t@.updated_at == t@.created_at
                &&& store_view(*final(state)).boards == store_view(*old(state)).boards
                &&& store_view(*final(state)).columns == store_view(*old(state)).columns
                &&& store_view(*final(state)).tasks == store_view(*old(state)).tasks.push(t@)
                &&& store_view(*final(state)).next_board_id == store_view(*old(state)).next_board_id
                &&& store_view(*final(state)).next_column_id == store_view(*old(state)).next_column_id
                &&& store_view(*final(state)).next_task_id == store_view(*old(state)).next_task_id + 1
            },
            Err(e) => {
                &&& *final(state) == *old(state)
                &&& (e == KanbanError::NotInitialized <==> !initialized(*old(state)))
                &&& (e == KanbanError::InvalidInput <==> initialized(*old(state))
                    && !due_ok(request.due_date))
                &&& (e == KanbanError::StorageError <==> initialized(*old(state))
                    && due_ok(request.due_date)
                    && (store_view(*old(state)).next_task_id == i32::MAX as int
                        || !has_column(store_view(*old(state)).columns, request.column_id as int)))
                &&& (e is NotInitialized || e is InvalidInput || e is StorageError)
            },
        },
{
    match &mut state.store {
        None => Err(KanbanError::NotInitialized),
        Some(store) => {
            let parsed: Option<String>;
            match &request.due_date {
                None => {
                    parsed = None;
                },
                Some(d) => {
                    match parse_rfc3339(d.as_str()) {
                        None => {
                            return Err(KanbanError::InvalidInput);
                        },
                        Some(p) => {
                            parsed = Some(p);
                        },
                    }
                },
            }
            proof {
                assert(due_ok(request.due_date));
                assert(opt_view(parsed) == due_view(request.due_date));
            }
            if store.next_task_id == i32::MAX {
                return Err(KanbanError::StorageError);
            }
            match find_column_index(&store.columns, request.column_id) {
                None => Err(KanbanError::StorageError),
                Some(ci) => {
                    let ghost osv = store@;
                    proof {
                        assert(osv.columns[ci as int].id == request.column_id as int);
                    }
                    let now = current_timestamp();
                    let id = store.next_task_id;
                    let t = TaskResponse {
                        id,
                        column_id: request.column_id,
                        title: request.title,
                        description: request.description,
                        position: request.position,
                        priority: request.priority,
                        due_date: parsed,
                        created_at: now.clone(),
                        updated_at: now,
                    };
                    let resp = t.duplicate();
                    store.next_task_id = id + 1;
                    store.tasks.push(t);
                    proof {
                        assert(store@.tasks =~= osv.tasks.push(resp@));
                        assert(resp@ =~= task_created(request, osv.next_task_id, resp@.created_at));
                        if wf_store(osv) {
                            lemma_wf_create_task(osv, store@, resp@);
                        }
                    }
                    Ok(resp)
                },
            }
        },
    }
}

/// Updates the task with this id: `column_id`, `title`, `position` and
/// `due_date` only when supplied; `description` and `priority` whenever
/// supplied (null clears); a supplied due date must be well formed and a
/// supplied column must exist; `updated_at` is refreshed, `created_at` kept.
pub fn update_task(state: &mut AppState, id: i32, request: UpdateTaskRequest) -> (r: Result<
    TaskResponse,
    KanbanError,
>)
    ensures
        initialized(*final(state)) == initialized(*old(state)),
        wf_state(*old(state)) ==> wf_state(*final(state)),
        match r {
            Ok(t) => {
                &&& initialized(*old(state))
                &&& due_ok(request.due_date)
                &&& exists|i: int| {
                    &&& 0 <= i < store_view(*old(state)).tasks.len()
                    &&& (#[trigger] store_view(*old(state)).tasks[i]).id == id as int
                    &&& t@ == task_patched(store_view(*old(state)).tasks[i], request, t@.updated_at)
                    &&& store_view(*final(state)).tasks == store_view(*old(state)).tasks.update(i, t@)
                }
                &&& (request.column_id matches Some(c)
                    ==> has_column(store_view(*old(state)).columns, c as int))
                &&& store_view(*final(state)).boards == store_view(*old(state)).boards
                &&& store_view(*final(state)).columns == store_view(*old(state)).columns
                &&& store_view(*final(state)).next_board_id == store_view(*old(state)).next_board_id
                &&& store_view(*final(state)).next_column_id == store_view(*old(state)).next_column_id
                &&& store_view(*final(state)).next_task_id == store_view(*old(state)).next_task_id
            },
            Err(e) => {
                &&& *final(state) == *old(state)
                &&& match e {
                    KanbanError::NotInitialized => !initialized(*old(state)),
                    KanbanError::NotFound(ent, eid) => ent == Entity::Task && eid == id
                        && initialized(*old(state))
                        && !has_task(store_view(*old(state)).tasks, id as int),
                    KanbanError::InvalidInput => initialized(*old(state))
                        && has_task(store_view(*old(state)).tasks, id as int)
                        && !due_ok(request.due_date),
                    KanbanError::StorageError => initialized(*old(state))
                        && has_task(store_view(*old(state)).tasks, id as int)
                        && due_ok(request.due_date)
                        && (request.column_id matches Some(c)
                            && !has_column(store_view(*old(state)).columns, c as int)),
                }
            },
        },
{
    match &mut state.store {
        None => Err(KanbanError::NotInitialized),
        Some(store) => {
            let ghost osv = store@;
            match find_task_index(&store.tasks, id) {
                None => Err(KanbanError::NotFound(Entity::Task, id)),
                Some(i) => {
                    proof {
                        assert(osv.tasks[i as int].id == id as int);
                    }
                    let old_t = store.tasks[i].duplicate();
                    let new_due: Option<String>;
                    match &request.due_date {
                        None => {
                            new_due = clone_opt_string(&old_t.due_date);
                        },
                        Some(d) => {
                            match parse_rfc3339(d.as_str()) {
                                None => {
                                    return Err(KanbanError::InvalidInput);
                                },
                                Some(p) => {
                                    new_due = Some(p);
                                },
                            }
                        },
                    }
                    let new_col: i32;
                    match request.column_id {
                        None => {
                            new_col = old_t.column_id;
                        },
                        Some(c) => {
                            match find_column_index(&store.columns, c) {
                                None => {
                                    return Err(KanbanError::StorageError);
                                },
                                Some(ci) => {
                                    proof {
                                        assert(osv.columns[ci as int].id == c as int);
                                    }
                                    new_col = c;
                                },
                            }
                        },
                    }
                    let now = current_timestamp();
                    let UpdateTaskRequest {
                        column_id: _,
                        title,
                        description,
                        position,
                        priority,
                        due_date: _,
                    } = request;
                    let new_title = match title {
                        Some(s) => s,
                        None => old_t.title.clone(),
                    };
                    let new_desc = match description {
                        Patch::Omit => clone_opt_string(&old_t.description),
                        Patch::Clear => None,
                        Patch::Put(d) => Some(d),
                    };
                    let new_pos = match position {
                        Some(p) => p,
                        None => old_t.position,
                    };
                    let new_prio = match priority {
                        Patch::Omit => clone_opt_string(&old_t.priority),
                        Patch::Clear => None,
                        Patch::Put(p) => Some(p),
                    };
                    let t = TaskResponse {
                        id: old_t.id,
                        column_id: new_col,
                        title: new_title,
                        description: new_desc,
                        position: new_pos,
                        priority: new_prio,
                        due_date: new_due,
                        created_at: old_t.created_at.clone(),
                        updated_at: now,
                    };
                    let resp = t.duplicate();
                    store.tasks.set(i, t);
                    proof {
                        assert(resp@ =~= task_patched(osv.tasks[i as int], request, resp@.updated_at));
                        assert(store@.tasks =~= osv.tasks.update(i as int, resp@));
                        assert((i as int) < osv.tasks.len()
                            && osv.tasks[i as int].id == id as int
                            && resp@ == task_patched(osv.tasks[i as int], request, resp@.updated_at)
                            && store@.tasks == osv.tasks.update(i as int, resp@));
                        if wf_store(osv) {
                            if request.column_id is None {
                                assert(has_column(osv.columns, osv.tasks[i as int].column_id));
                            }
                            assert(has_column(osv.columns, resp@.column_id));
                            lemma_wf_update_task(osv, store@, i as int, resp@);
                        }
                    }
                    Ok(resp)
                },
            }
        },
    }
}

/// Deletes the task with this id.
pub fn delete_task(state: &mut AppState, id: i32) -> (r: Result<(), KanbanError>)
    ensures
        initialized(*final(state)) == initialized(*old(state)),
        wf_state(*old(state)) ==> wf_state(*final(state)),
        match r {
            Ok(_) => {
                &&& initialized(*old(state))
                &&& has_task(store_view(*old(state)).tasks, id as int)
                &&& store_view(*final(state)).boards == store_view(*old(state)).boards
                &&& store_view(*final(state)).columns == store_view(*old(state)).columns
                &&& store_view(*final(state)).tasks == store_view(*old(state)).tasks.filter(
                    tpred_not_id(id as int),
                )
                &&& store_view(*final(state)).next_board_id == store_view(*old(state)).next_board_id
                &&& store_view(*final(state)).next_column_id == store_view(*old(state)).next_column_id
                &&& store_view(*final(state)).next_task_id == store_view(*old(state)).next_task_id
            },
            Err(e) => {
                &&& *final(state) == *old(state)
                &&& match e {
                    KanbanError::NotInitialized => !initialized(*old(state)),
                    KanbanError::NotFound(ent, eid) => ent == Entity::Task && eid == id
                        && initialized(*old(state))
                        && !has_task(store_view(*old(state)).tasks, id as int),
                    _ => false,
                }
            },
        },
{
    match &mut state.store {
        None => Err(KanbanError::NotInitialized),
        Some(store) => {
            let ghost osv = store@;
            match find_task_index(&store.tasks, id) {
                None => Err(KanbanError::NotFound(Entity::Task, id)),
                Some(ti) => {
                    proof {
                        assert(osv.tasks[ti as int].id == id as int);
                    }
                    let ghost tpred = tpred_not_id(id as int);
                    let mut kept_tasks: Vec<TaskResponse> = Vec::new();
                    let mut j: usize = 0;
                    while j < store.tasks.len()
                        invariant
                            j <= store.tasks@.len(),
                            tasks_vw(store.tasks@) == osv.tasks,
                            tasks_vw(kept_tasks@) == osv.tasks.take(j as int).filter(tpred),
                            tpred == tpred_not_id(id as int),
                        decreases store.tasks@.len() - j,
                    {
                        let t = &store.tasks[j];
                        proof {
                            assert(osv.tasks.take(j as int + 1).drop_last() =~= osv.tasks.take(j as int));
                            assert(osv.tasks.take(j as int + 1).last() == osv.tasks[j as int]);
                            lemma_filter_push(osv.tasks.take(j as int), osv.tasks[j as int], tpred);
                            assert(osv.tasks.take(j as int + 1) =~= osv.tasks.take(j as int).push(osv.tasks[j as int]));
                        }
                        if t.id != id {
                            let copy = t.duplicate();
                            kept_tasks.push(copy);
                            proof {
                                assert(tasks_vw(kept_tasks@) =~= osv.tasks.take(j as int).filter(tpred).push(osv.tasks[j as int]));
                            }
                        }
                        j += 1;
                    }
                    proof {
                        assert(osv.tasks.take(osv.tasks.len() as int) =~= osv.tasks);
                    }
                    store.tasks = kept_tasks;
                    proof {
                        if wf_store(osv) {
                            lemma_wf_delete_task(osv, store@, id as int);
                        }
                    }
                    Ok(())
                },
            }
        },
    }
}

} // verus!
