use kanban_core::board::{
    create_board, delete_board, get_all_boards, get_board_by_id, update_board, CreateBoardRequest,
    UpdateBoardRequest,
};
use kanban_core::column::{
    create_column, delete_column, get_column_by_id, get_columns_by_board, update_column,
    CreateColumnRequest, UpdateColumnRequest,
};
use kanban_core::db::{init_db, AppState};
use kanban_core::model::{Entity, KanbanError, Patch};
use kanban_core::store::KanbanStore;
use kanban_core::task::{
    create_task, delete_task, get_task_by_id, get_tasks_by_column, update_task, CreateTaskRequest,
    UpdateTaskRequest,
};

fn ready() -> AppState {
    let mut state = AppState::new();
    init_db(&mut state, KanbanStore::empty());
    state
}

fn board_req(name: &str, description: Option<&str>) -> CreateBoardRequest {
    CreateBoardRequest {
        name: name.to_string(),
        description: description.map(|d| d.to_string()),
    }
}

fn column_req(board_id: i32, name: &str, position: i32) -> CreateColumnRequest {
    CreateColumnRequest {
        board_id,
        name: name.to_string(),
        position,
    }
}

fn task_req(column_id: i32, title: &str, position: i32, due_date: Option<&str>) -> CreateTaskRequest {
    CreateTaskRequest {
        column_id,
        title: title.to_string(),
        description: None,
        position,
        priority: None,
        due_date: due_date.map(|d| d.to_string()),
    }
}

fn no_task_change() -> UpdateTaskRequest {
    UpdateTaskRequest {
        column_id: None,
        title: None,
        description: Patch::Omit,
        position: None,
        priority: Patch::Omit,
        due_date: None,
    }
}

#[test]
fn create_board_then_get_matches() {
    let mut state = ready();
    let made = create_board(&mut state, board_req("Roadmap", Some("plans"))).unwrap();
    assert_eq!(made.name, "Roadmap");
    assert_eq!(made.description.as_deref(), Some("plans"));
    assert_eq!(made.created_at, made.updated_at);
    let fetched = get_board_by_id(&state, made.id).unwrap();
    assert_eq!(fetched, made);
}

#[test]
fn list_boards_returns_all_in_order() {
    let mut state = ready();
    let a = create_board(&mut state, board_req("A", None)).unwrap();
    let b = create_board(&mut state, board_req("B", None)).unwrap();
    let all = get_all_boards(&state).unwrap();
    assert_eq!(all, vec![a, b]);
}

#[test]
fn update_board_description_presence() {
    let mut state = ready();
    let made = create_board(&mut state, board_req("Board", Some("before"))).unwrap();
    let kept = update_board(
        &mut state,
        made.id,
        UpdateBoardRequest {
            name: Some("Renamed".to_string()),
            description: Patch::Omit,
        },
    )
    .unwrap();
    assert_eq!(kept.name, "Renamed");
    assert_eq!(kept.description.as_deref(), Some("before"));
    assert_eq!(kept.created_at, made.created_at);
    let replaced = update_board(
        &mut state,
        made.id,
        UpdateBoardRequest {
            name: None,
            description: Patch::Put("after".to_string()),
        },
    )
    .unwrap();
    assert_eq!(replaced.name, "Renamed");
    assert_eq!(replaced.description.as_deref(), Some("after"));
    let cleared = update_board(
        &mut state,
        made.id,
        UpdateBoardRequest {
            name: None,
            description: Patch::Clear,
        },
    )
    .unwrap();
    assert_eq!(cleared.name, "Renamed");
    assert_eq!(cleared.description, None);
    assert_eq!(get_board_by_id(&state, made.id).unwrap(), cleared);
}

#[test]
fn delete_board_cascades() {
    let mut state = ready();
    let board = create_board(&mut state, board_req("Board", None)).unwrap();
    let column = create_column(&mut state, column_req(board.id, "Todo", 0)).unwrap();
    let task = create_task(&mut state, task_req(column.id, "Task", 0, None)).unwrap();
    delete_board(&mut state, board.id).unwrap();
    assert_eq!(
        get_board_by_id(&state, board.id),
        Err(KanbanError::NotFound(Entity::Board, board.id))
    );
    assert_eq!(
        get_column_by_id(&state, column.id),
        Err(KanbanError::NotFound(Entity::Column, column.id))
    );
    assert_eq!(
        get_task_by_id(&state, task.id),
        Err(KanbanError::NotFound(Entity::Task, task.id))
    );
    assert_eq!(get_all_boards(&state).unwrap(), vec![]);
}

#[test]
fn delete_board_leaves_other_boards_alone() {
    let mut state = ready();
    let doomed = create_board(&mut state, board_req("Doomed", None)).unwrap();
    let kept = create_board(&mut state, board_req("Kept", None)).unwrap();
    let doomed_col = create_column(&mut state, column_req(doomed.id, "A", 0)).unwrap();
    let kept_col = create_column(&mut state, column_req(kept.id, "B", 0)).unwrap();
    let kept_task = create_task(&mut state, task_req(kept_col.id, "stay", 0, None)).unwrap();
    delete_board(&mut state, doomed.id).unwrap();
    assert_eq!(get_all_boards(&state).unwrap(), vec![kept.clone()]);
    assert_eq!(get_column_by_id(&state, kept_col.id).unwrap(), kept_col);
    assert_eq!(get_task_by_id(&state, kept_task.id).unwrap(), kept_task);
    assert_eq!(
        get_column_by_id(&state, doomed_col.id),
        Err(KanbanError::NotFound(Entity::Column, doomed_col.id))
    );
}

#[test]
fn create_task_invalid_due_date_rejected() {
    let mut state = ready();
    let board = create_board(&mut state, board_req("Board", None)).unwrap();
    let column = create_column(&mut state, column_req(board.id, "Todo", 0)).unwrap();
    let before = get_tasks_by_column(&state, column.id).unwrap();
    let r = create_task(&mut state, task_req(column.id, "Task", 0, Some("not-a-date")));
    assert_eq!(r, Err(KanbanError::InvalidInput));
    let after = get_tasks_by_column(&state, column.id).unwrap();
    assert_eq!(before, after);
}

#[test]
fn due_date_is_validated_and_canonicalized() {
    let mut state = ready();
    let board = create_board(&mut state, board_req("Board", None)).unwrap();
    let column = create_column(&mut state, column_req(board.id, "Todo", 0)).unwrap();
    let task = create_task(
        &mut state,
        task_req(column.id, "Task", 0, Some("2024-01-15T10:30:00+00:00")),
    )
    .unwrap();
    assert_eq!(task.due_date.as_deref(), Some("2024-01-15 10:30:00 +00:00"));
    let moved = update_task(
        &mut state,
        task.id,
        UpdateTaskRequest {
            due_date: Some("2030-06-01T08:00:00+02:00".to_string()),
            ..no_task_change()
        },
    )
    .unwrap();
    assert_eq!(moved.due_date.as_deref(), Some("2030-06-01 08:00:00 +02:00"));
}

#[test]
fn update_task_invalid_due_date_rejected() {
    let mut state = ready();
    let board = create_board(&mut state, board_req("Board", None)).unwrap();
    let column = create_column(&mut state, column_req(board.id, "Todo", 0)).unwrap();
    let task = create_task(&mut state, task_req(column.id, "Task", 0, None)).unwrap();
    let r = update_task(
        &mut state,
        task.id,
        UpdateTaskRequest {
            due_date: Some("soon".to_string()),
            ..no_task_change()
        },
    );
    assert_eq!(r, Err(KanbanError::InvalidInput));
    assert_eq!(get_task_by_id(&state, task.id).unwrap(), task);
}

#[test]
fn list_columns_scoped_to_board() {
    let mut state = ready();
    let first = create_board(&mut state, board_req("First", None)).unwrap();
    let second = create_board(&mut state, board_req("Second", None)).unwrap();
    let c1 = create_column(&mut state, column_req(first.id, "A", 0)).unwrap();
    let c2 = create_column(&mut state, column_req(second.id, "B", 0)).unwrap();
    let c3 = create_column(&mut state, column_req(first.id, "C", 1)).unwrap();
    assert_eq!(get_columns_by_board(&state, first.id).unwrap(), vec![c1, c3]);
    assert_eq!(get_columns_by_board(&state, second.id).unwrap(), vec![c2]);
    assert_eq!(get_columns_by_board(&state, 999).unwrap(), vec![]);
}

#[test]
fn commands_before_init_not_initialized() {
    let mut state = AppState::new();
    assert_eq!(get_all_boards(&state), Err(KanbanError::NotInitialized));
    assert_eq!(get_board_by_id(&state, 1), Err(KanbanError::NotInitialized));
    assert_eq!(
        create_board(&mut state, board_req("B", None)),
        Err(KanbanError::NotInitialized)
    );
    assert_eq!(
        update_board(
            &mut state,
            1,
            UpdateBoardRequest { name: None, description: Patch::Omit }
        ),
        Err(KanbanError::NotInitialized)
    );
    assert_eq!(delete_board(&mut state, 1), Err(KanbanError::NotInitialized));
    assert_eq!(get_columns_by_board(&state, 1), Err(KanbanError::NotInitialized));
    assert_eq!(get_column_by_id(&state, 1), Err(KanbanError::NotInitialized));
    assert_eq!(
        create_column(&mut state, column_req(1, "C", 0)),
        Err(KanbanError::NotInitialized)
    );
    assert_eq!(
        update_column(&mut state, 1, UpdateColumnRequest { name: None, position: None }),
        Err(KanbanError::NotInitialized)
    );
    assert_eq!(delete_column(&mut state, 1), Err(KanbanError::NotInitialized));
    assert_eq!(get_tasks_by_column(&state, 1), Err(KanbanError::NotInitialized));
    assert_eq!(get_task_by_id(&state, 1), Err(KanbanError::NotInitialized));
    assert_eq!(
        create_task(&mut state, task_req(1, "T", 0, None)),
        Err(KanbanError::NotInitialized)
    );
    assert_eq!(
        update_task(&mut state, 1, no_task_change()),
        Err(KanbanError::NotInitialized)
    );
    assert_eq!(delete_task(&mut state, 1), Err(KanbanError::NotInitialized));
}

#[test]
fn task_position_updates_only_when_supplied() {
    let mut state = ready();
    let board = create_board(&mut state, board_req("Board", None)).unwrap();
    let column = create_column(&mut state, column_req(board.id, "Todo", 0)).unwrap();
    let task = create_task(&mut state, task_req(column.id, "Task", 3, None)).unwrap();
    let untouched = update_task(
        &mut state,
        task.id,
        UpdateTaskRequest {
            title: Some("Renamed".to_string()),
            ..no_task_change()
        },
    )
    .unwrap();
    assert_eq!(untouched.position, 3);
    let moved = update_task(
        &mut state,
        task.id,
        UpdateTaskRequest {
            position: Some(7),
            ..no_task_change()
        },
    )
    .unwrap();
    assert_eq!(moved.position, 7);
    assert_eq!(get_task_by_id(&state, task.id).unwrap().position, 7);
}

#[test]
fn update_task_clears_description_and_priority() {
    let mut state = ready();
    let board = create_board(&mut state, board_req("Board", None)).unwrap();
    let column = create_column(&mut state, column_req(board.id, "Todo", 0)).unwrap();
    let mut req = task_req(column.id, "Task", 0, None);
    req.description = Some("details".to_string());
    req.priority = Some("high".to_string());
    let task = create_task(&mut state, req).unwrap();
    assert_eq!(task.description.as_deref(), Some("details"));
    assert_eq!(task.priority.as_deref(), Some("high"));
    let kept = update_task(&mut state, task.id, no_task_change()).unwrap();
    assert_eq!(kept.description.as_deref(), Some("details"));
    assert_eq!(kept.priority.as_deref(), Some("high"));
    let cleared = update_task(
        &mut state,
        task.id,
        UpdateTaskRequest {
            description: Patch::Clear,
            priority: Patch::Put("low".to_string()),
            ..no_task_change()
        },
    )
    .unwrap();
    assert_eq!(cleared.description, None);
    assert_eq!(cleared.priority.as_deref(), Some("low"));
}

#[test]
fn update_column_name_and_position_presence() {
    let mut state = ready();
    let board = create_board(&mut state, board_req("Board", None)).unwrap();
    let column = create_column(&mut state, column_req(board.id, "Todo", 2)).unwrap();
    let renamed = update_column(
        &mut state,
        column.id,
        UpdateColumnRequest {
            name: Some("Doing".to_string()),
            position: None,
        },
    )
    .unwrap();
    assert_eq!(renamed.name, "Doing");
    assert_eq!(renamed.position, 2);
    assert_eq!(renamed.board_id, board.id);
    let moved = update_column(
        &mut state,
        column.id,
        UpdateColumnRequest {
            name: None,
            position: Some(5),
        },
    )
    .unwrap();
    assert_eq!(moved.name, "Doing");
    assert_eq!(moved.position, 5);
    assert_eq!(moved.created_at, column.created_at);
}

#[test]
fn update_task_moves_between_columns() {
    let mut state = ready();
    let board = create_board(&mut state, board_req("Board", None)).unwrap();
    let todo = create_column(&mut state, column_req(board.id, "Todo", 0)).unwrap();
    let done = create_column(&mut state, column_req(board.id, "Done", 1)).unwrap();
    let task = create_task(&mut state, task_req(todo.id, "Task", 0, None)).unwrap();
    let moved = update_task(
        &mut state,
        task.id,
        UpdateTaskRequest {
            column_id: Some(done.id),
            ..no_task_change()
        },
    )
    .unwrap();
    assert_eq!(moved.column_id, done.id);
    assert_eq!(get_tasks_by_column(&state, todo.id).unwrap(), vec![]);
    assert_eq!(get_tasks_by_column(&state, done.id).unwrap(), vec![moved]);
}

#[test]
fn delete_column_cascades_to_tasks() {
    let mut state = ready();
    let board = create_board(&mut state, board_req("Board", None)).unwrap();
    let doomed = create_column(&mut state, column_req(board.id, "Doomed", 0)).unwrap();
    let kept = create_column(&mut state, column_req(board.id, "Kept", 1)).unwrap();
    let gone_task = create_task(&mut state, task_req(doomed.id, "gone", 0, None)).unwrap();
    let kept_task = create_task(&mut state, task_req(kept.id, "stays", 0, None)).unwrap();
    delete_column(&mut state, doomed.id).unwrap();
    assert_eq!(
        get_task_by_id(&state, gone_task.id),
        Err(KanbanError::NotFound(Entity::Task, gone_task.id))
    );
    assert_eq!(get_task_by_id(&state, kept_task.id).unwrap(), kept_task);
    assert_eq!(get_columns_by_board(&state, board.id).unwrap(), vec![kept]);
}

#[test]
fn delete_task_removes_only_that_row() {
    let mut state = ready();
    let board = create_board(&mut state, board_req("Board", None)).unwrap();
    let column = create_column(&mut state, column_req(board.id, "Todo", 0)).unwrap();
    let gone = create_task(&mut state, task_req(column.id, "gone", 0, None)).unwrap();
    let kept = create_task(&mut state, task_req(column.id, "kept", 1, None)).unwrap();
    delete_task(&mut state, gone.id).unwrap();
    assert_eq!(
        get_task_by_id(&state, gone.id),
        Err(KanbanError::NotFound(Entity::Task, gone.id))
    );
    assert_eq!(get_tasks_by_column(&state, column.id).unwrap(), vec![kept]);
}

#[test]
fn lookups_on_missing_ids_not_found() {
    let mut state = ready();
    assert_eq!(
        get_board_by_id(&state, 42),
        Err(KanbanError::NotFound(Entity::Board, 42))
    );
    assert_eq!(
        update_board(
            &mut state,
            42,
            UpdateBoardRequest { name: None, description: Patch::Omit }
        ),
        Err(KanbanError::NotFound(Entity::Board, 42))
    );
    assert_eq!(delete_board(&mut state, 42), Err(KanbanError::NotFound(Entity::Board, 42)));
    assert_eq!(
        get_column_by_id(&state, 7),
        Err(KanbanError::NotFound(Entity::Column, 7))
    );
    assert_eq!(
        update_column(&mut state, 7, UpdateColumnRequest { name: None, position: None }),
        Err(KanbanError::NotFound(Entity::Column, 7))
    );
    assert_eq!(delete_column(&mut state, 7), Err(KanbanError::NotFound(Entity::Column, 7)));
    assert_eq!(get_task_by_id(&state, 9), Err(KanbanError::NotFound(Entity::Task, 9)));
    assert_eq!(
        update_task(&mut state, 9, no_task_change()),
        Err(KanbanError::NotFound(Entity::Task, 9))
    );
    assert_eq!(delete_task(&mut state, 9), Err(KanbanError::NotFound(Entity::Task, 9)));
}

#[test]
fn create_under_missing_parent_storage_error() {
    let mut state = ready();
    assert_eq!(
        create_column(&mut state, column_req(12, "C", 0)),
        Err(KanbanError::StorageError)
    );
    assert_eq!(
        create_task(&mut state, task_req(34, "T", 0, None)),
        Err(KanbanError::StorageError)
    );
    let board = create_board(&mut state, board_req("Board", None)).unwrap();
    let column = create_column(&mut state, column_req(board.id, "Todo", 0)).unwrap();
    let task = create_task(&mut state, task_req(column.id, "Task", 0, None)).unwrap();
    let r = update_task(
        &mut state,
        task.id,
        UpdateTaskRequest {
            column_id: Some(999),
            ..no_task_change()
        },
    );
    assert_eq!(r, Err(KanbanError::StorageError));
    assert_eq!(get_task_by_id(&state, task.id).unwrap(), task);
}

#[test]
fn invalid_due_date_wins_over_missing_column() {
    let mut state = ready();
    let r = create_task(&mut state, task_req(5, "T", 0, Some("not-a-date")));
    assert_eq!(r, Err(KanbanError::InvalidInput));
}
