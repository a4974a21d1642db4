use truce::tasks::{AnyTaskSpawner, InitContext, TaskPool, TASK_QUEUE_PREALLOC};

/// Drains the instance that waited longest, with nobody else at the pool.
fn drain(pool: &mut TaskPool) -> Option<Vec<u64>> {
    let mut place = pool.begin_drain()?;
    let mut ran = Vec::new();
    while let Some((task, rest)) = pool.next_task(place) {
        ran.push(task);
        place = rest;
    }
    Some(ran)
}

#[test]
fn runs_scheduled_tasks_off_thread() {
    let mut pool = TaskPool::new(2);
    let spawner = pool.register();
    for n in 1..=10u64 {
        pool.try_spawn(&spawner, n).expect("queue has room");
    }
    let mut count = 0;
    let mut sum = 0;
    while let Some(tasks) = drain(&mut pool) {
        for n in tasks {
            count += 1;
            sum += n;
        }
    }
    assert_eq!(count, 10);
    assert_eq!(sum, 55);
}

#[test]
fn full_queue_returns_the_task() {
    let mut pool = TaskPool::new(1);
    let spawner = pool.register();
    let mut rejected = 0u32;
    for n in 0..(TASK_QUEUE_PREALLOC as u64 + 64) {
        match pool.try_spawn(&spawner, n) {
            Ok(_) => {}
            Err(back) => {
                assert_eq!(back, n);
                rejected += 1;
            }
        }
    }
    assert_eq!(rejected, 64);
}

#[test]
fn coalescing_never_rejects() {
    let mut pool = TaskPool::new(1);
    let spawner = pool.register();
    let mut last = 0;
    for n in 0..(TASK_QUEUE_PREALLOC as u64 * 4) {
        let _ = pool.spawn_coalescing(&spawner, n);
    }
    while let Some(tasks) = drain(&mut pool) {
        for n in tasks {
            last = n;
        }
    }
    assert_eq!(last, TASK_QUEUE_PREALLOC as u64 * 4 - 1);
}

#[test]
fn coalescing_collapses_to_the_newest() {
    let mut pool = TaskPool::new(1);
    let spawner = pool.register();
    for n in 1..=1000u64 {
        let _ = pool.spawn_coalescing(&spawner, n);
    }
    assert_eq!(drain(&mut pool), Some(vec![1000]));
}

#[test]
fn an_instance_waits_once_however_many_tasks_it_has() {
    let mut pool = TaskPool::new(2);
    let a = pool.register();
    let b = pool.register();
    assert!(matches!(pool.try_spawn(&a, 1), Ok(Some(_))));
    assert!(matches!(pool.try_spawn(&a, 2), Ok(None)));
    assert!(matches!(pool.try_spawn(&b, 3), Ok(Some(_))));
    assert_eq!(drain(&mut pool), Some(vec![1, 2]));
    assert_eq!(drain(&mut pool), Some(vec![3]));
    assert_eq!(drain(&mut pool), None);
    // A task that comes later is not left behind.
    assert!(matches!(pool.try_spawn(&a, 4), Ok(Some(_))));
    assert_eq!(drain(&mut pool), Some(vec![4]));
}

#[test]
fn a_handle_is_found_by_the_type_of_its_tasks() {
    let mut pool = TaskPool::new(1);
    let spawner = pool.register();
    let any = AnyTaskSpawner::new(&spawner, 7);
    assert_eq!(any.downcast(7).map(|s| s.sink), Some(spawner.sink));
    assert!(any.downcast(8).is_none());
    let context = InitContext::new(Some(any));
    assert!(context.tasks(7).is_some());
    assert!(context.tasks(8).is_none());
    assert!(InitContext::new(None).tasks(7).is_none());
}

#[test]
fn a_core_stays_free_for_the_host() {
    assert_eq!(truce::tasks::worker_count(Some(8)), 7);
    assert_eq!(truce::tasks::worker_count(Some(2)), 1);
    assert_eq!(truce::tasks::worker_count(Some(1)), 1);
    assert_eq!(truce::tasks::worker_count(Some(0)), 1);
    assert_eq!(truce::tasks::worker_count(None), 1);
}

#[test]
fn workers_take_turns() {
    let mut pool = TaskPool::new(2);
    let a = pool.register();
    let b = pool.register();
    let c = pool.register();
    assert_eq!(pool.try_spawn(&a, 1), Ok(Some(0)));
    assert_eq!(pool.try_spawn(&a, 2), Ok(None));
    assert_eq!(pool.spawn_coalescing(&b, 3), Some(1));
    assert_eq!(pool.try_spawn(&c, 4), Ok(Some(0)));
    assert_eq!(drain(&mut pool), Some(vec![1, 2]));
    assert_eq!(pool.try_spawn(&a, 5), Ok(Some(1)));
    let mut idle = TaskPool::new(0);
    let d = idle.register();
    assert_eq!(idle.try_spawn(&d, 6), Ok(None));
    assert_eq!(drain(&mut idle), Some(vec![6]));
}

#[test]
fn tasks_that_wait_behind_a_running_one_keep_their_places() {
    let mut pool = TaskPool::new(1);
    let spawner = pool.register();
    pool.try_spawn(&spawner, 0).expect("queue has room");
    // The first task is picked up and runs for long; the queue fills behind it.
    let place = pool.begin_drain().expect("an instance waits");
    let (task, place) = pool.next_task(place).expect("a task waits");
    assert_eq!(task, 0);
    let mut rejected = 0u32;
    for n in 1..(TASK_QUEUE_PREALLOC as u64 + 64) {
        if pool.try_spawn(&spawner, n).is_err() {
            rejected += 1;
        }
    }
    assert_eq!(rejected, 63);
    // One that is taken out makes room for one.
    let (task, place) = pool.next_task(place).expect("a task waits");
    assert_eq!(task, 1);
    assert!(pool.try_spawn(&spawner, 500).is_ok());
    assert_eq!(pool.try_spawn(&spawner, 501), Err(501));
    assert_eq!(pool.next_task(place).map(|(task, _)| task), Some(2));
}

#[test]
fn each_drain_reads_the_slot_once_and_first() {
    let mut pool = TaskPool::new(1);
    let spawner = pool.register();
    pool.try_spawn(&spawner, 1).expect("queue has room");
    pool.try_spawn(&spawner, 2).expect("queue has room");
    assert_eq!(pool.spawn_coalescing(&spawner, 10), None);
    let place = pool.begin_drain().expect("an instance waits");
    let (task, place) = pool.next_task(place).expect("a task waits");
    assert_eq!(task, 10);
    // A newer one waits for the next drain, for which the instance queues again.
    assert_eq!(pool.spawn_coalescing(&spawner, 11), Some(0));
    assert_eq!(pool.spawn_coalescing(&spawner, 12), None);
    let (task, place) = pool.next_task(place).expect("a task waits");
    assert_eq!(task, 1);
    let (task, place) = pool.next_task(place).expect("a task waits");
    assert_eq!(task, 2);
    assert!(pool.next_task(place).is_none());
    assert_eq!(drain(&mut pool), Some(vec![12]));
    assert_eq!(drain(&mut pool), None);
}
