use clipsave::download::task_queue::TaskQueue;
use clipsave::models::{DownloadTask, MediaType, Platform, TaskStatus};

fn make_task() -> DownloadTask {
    DownloadTask::new("https://example.com/video.mp4".to_string(), Platform::Douyin, MediaType::Video)
}

#[test]
fn test_enqueue_and_get_all() {
    let mut queue = TaskQueue::new(3);
    let task = make_task();
    let id = task.id.clone();
    queue.enqueue(task);
    let all = queue.get_all();
    assert_eq!(all.len(), 1);
    assert_eq!(all[0].id, id);
}

#[test]
fn test_promote_next_respects_concurrency() {
    let mut queue = TaskQueue::new(1);
    let mut task1 = make_task();
    task1.status = TaskStatus::Downloading;
    queue.enqueue(task1);
    queue.enqueue(make_task());
    let promoted = queue.promote_next();
    assert!(promoted.is_none());
}

#[test]
fn test_promote_next_fifo_order() {
    let mut queue = TaskQueue::new(3);
    let task1 = make_task();
    let id1 = task1.id.clone();
    queue.enqueue(task1);
    queue.enqueue(make_task());
    let promoted = queue.promote_next();
    assert_eq!(promoted, Some(id1));
}

#[test]
fn test_update_status_valid_transition() {
    let mut queue = TaskQueue::new(3);
    let task = make_task();
    let id = task.id.clone();
    queue.enqueue(task);
    assert!(queue.update_status(&id, TaskStatus::Parsing).is_ok());
}

#[test]
fn test_update_status_invalid_transition() {
    let mut queue = TaskQueue::new(3);
    let task = make_task();
    let id = task.id.clone();
    queue.enqueue(task);
    assert!(queue.update_status(&id, TaskStatus::Completed).is_err());
}

#[test]
fn test_concurrency_invariant() {
    let mut queue = TaskQueue::new(2);
    for _ in 0..5 {
        queue.enqueue(make_task());
    }
    queue.promote_next();
    queue.promote_next();
    let third = queue.promote_next();
    assert!(third.is_none());
    assert_eq!(queue.active_count(), 0);
}

#[test]
fn test_unknown_task_and_removal() {
    let mut queue = TaskQueue::new(3);
    assert!(queue.update_status("missing", TaskStatus::Parsing).is_err());
    let task = make_task();
    let id = task.id.clone();
    queue.enqueue(task);
    assert!(queue.get_task(&id).is_some());
    let removed = queue.remove_task(&id).unwrap();
    assert_eq!(removed.id, id);
    assert!(queue.get_all().is_empty());
    assert!(queue.remove_task(&id).is_none());
}

#[test]
fn test_set_max_concurrency_clamps() {
    let mut queue = TaskQueue::new(1);
    queue.set_max_concurrency(0);
    for _ in 0..3 {
        queue.enqueue(make_task());
    }
    assert!(queue.promote_next().is_some());
    assert!(queue.promote_next().is_none());
    queue.set_max_concurrency(200);
    assert!(queue.promote_next().is_some());
}

#[test]
fn test_update_status_at_sets_time() {
    let mut queue = TaskQueue::new(3);
    let task = DownloadTask::with_identity("t1".to_string(), "u".to_string(), Platform::Douyin, MediaType::Video, 5);
    queue.enqueue(task);
    queue.update_status_at("t1", TaskStatus::Parsing, 99).unwrap();
    let t = queue.get_task("t1").unwrap();
    assert_eq!(t.status, TaskStatus::Parsing);
    assert_eq!(t.updated_at, 99);
    assert_eq!(t.created_at, 5);
}
