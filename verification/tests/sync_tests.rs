use rcore_os::sync::{
    MutexKind, ProcessSync, ResourceTable, SyncAction, WaitStep, DEADLOCK_ERROR_VALUE,
    MUTEX_RESOURCE, SEMAPHORE_RESOURCE,
};

fn table(threads: usize) -> ResourceTable {
    ResourceTable { available: vec![], need: vec![vec![]; threads], allocation: vec![vec![]; threads] }
}

fn process(threads: usize) -> ProcessSync {
    ProcessSync {
        mutex_list: vec![],
        semaphore_list: vec![],
        condvar_list: vec![],
        mutexes: table(threads),
        semaphores: table(threads),
        enable_deadlock_detect: false,
    }
}

#[test]
fn mutex_create_appends_then_reuses_free_slots() {
    let mut p = process(2);
    assert_eq!(p.sys_mutex_create(false), 0);
    assert_eq!(p.sys_mutex_create(true), 1);
    assert_eq!(p.mutex_list, vec![Some(MutexKind::Spin), Some(MutexKind::Blocking)]);
    assert_eq!(p.mutexes.available, vec![1, 1]);
    assert_eq!(p.mutexes.need, vec![vec![0, 0], vec![0, 0]]);
    assert_eq!(p.mutexes.allocation, vec![vec![0, 0], vec![0, 0]]);
    p.mutex_list[0] = None;
    p.mutexes.available[0] = 0;
    assert_eq!(p.sys_mutex_create(true), 0);
    assert_eq!(p.mutex_list[0], Some(MutexKind::Blocking));
    assert_eq!(p.mutexes.available, vec![1, 1]);
    assert_eq!(p.mutexes.need.len(), 2);
}

#[test]
fn semaphore_create_sets_available_units() {
    let mut p = process(1);
    assert_eq!(p.sys_semaphore_create(3), 0);
    assert_eq!(p.sys_semaphore_create(0), 1);
    assert_eq!(p.semaphores.available, vec![3, 0]);
    assert_eq!(p.semaphore_list, vec![Some(3), Some(0)]);
    assert_eq!(p.semaphores.need, vec![vec![0, 0]]);
    p.semaphore_list[1] = None;
    assert_eq!(p.sys_semaphore_create(5), 1);
    assert_eq!(p.semaphores.available, vec![3, 5]);
    assert!(p.mutex_list.is_empty());
}

#[test]
fn condvar_create_reuses_slots() {
    let mut p = process(1);
    assert_eq!(p.sys_condvar_create(), 0);
    assert_eq!(p.sys_condvar_create(), 1);
    p.condvar_list[0] = None;
    assert_eq!(p.sys_condvar_create(), 0);
    assert_eq!(p.condvar_list.len(), 2);
    assert_eq!(p.sys_condvar_signal(1), SyncAction::Signal(1));
}

#[test]
fn mutex_lock_steps_and_unlock() {
    let mut p = process(2);
    p.sys_mutex_create(true);
    assert_eq!(p.sys_mutex_lock(1, 0, WaitStep::Request), SyncAction::DetectDeadlock(MUTEX_RESOURCE));
    assert_eq!(p.mutexes.need[1][0], 1);
    assert_eq!(p.sys_mutex_lock(1, 0, WaitStep::Checked(false)), SyncAction::Wait(0));
    assert_eq!(p.sys_mutex_lock(1, 0, WaitStep::Acquired), SyncAction::Return(0));
    assert_eq!(p.mutexes.need[1][0], 0);
    assert_eq!(p.mutexes.allocation[1][0], 1);
    assert_eq!(p.mutexes.available[0], 0);
    assert_eq!(p.sys_mutex_unlock(1, 0), SyncAction::Unlock(0));
    assert_eq!(p.mutexes.allocation[1][0], 0);
    assert_eq!(p.mutexes.available[0], 1);
    assert_eq!(p.sys_condvar_create(), 0);
    assert_eq!(p.sys_condvar_wait(0, 0), SyncAction::WaitCondvar(0, 0));
}

#[test]
fn mutex_lock_reports_deadlock() {
    let mut p = process(1);
    p.sys_mutex_create(false);
    p.sys_mutex_lock(0, 0, WaitStep::Request);
    assert_eq!(
        p.sys_mutex_lock(0, 0, WaitStep::Checked(true)),
        SyncAction::Return(DEADLOCK_ERROR_VALUE)
    );
    assert_eq!(DEADLOCK_ERROR_VALUE, -0xDEAD);
    assert_eq!(p.mutexes.need[0][0], 1);
    assert_eq!(p.mutexes.available[0], 1);
}

#[test]
fn semaphore_down_and_up() {
    let mut p = process(2);
    p.sys_semaphore_create(1);
    assert_eq!(
        p.sys_semaphore_down(0, 0, WaitStep::Request),
        SyncAction::DetectDeadlock(SEMAPHORE_RESOURCE)
    );
    assert_eq!(p.sys_semaphore_down(0, 0, WaitStep::Checked(false)), SyncAction::Wait(0));
    assert_eq!(p.sys_semaphore_down(0, 0, WaitStep::Acquired), SyncAction::Return(0));
    assert_eq!(p.semaphores.available[0], 0);
    assert_eq!(p.semaphores.allocation[0][0], 1);
    // a second holder while nothing is left: the count stays at zero
    p.sys_semaphore_down(1, 0, WaitStep::Request);
    assert_eq!(p.sys_semaphore_down(1, 0, WaitStep::Acquired), SyncAction::Return(0));
    assert_eq!(p.semaphores.available[0], 0);
    assert_eq!(p.semaphores.allocation[1][0], 1);
    assert_eq!(p.sys_semaphore_up(0, 0), SyncAction::Up(0));
    assert_eq!(p.semaphores.available[0], 1);
    assert_eq!(p.semaphores.allocation[0][0], 0);
}

#[test]
fn lock_then_unlock_restores_tables() {
    let mut p = process(3);
    p.sys_mutex_create(true);
    p.sys_mutex_create(true);
    let before = (p.mutexes.available.clone(), p.mutexes.need.clone(), p.mutexes.allocation.clone());
    p.sys_mutex_lock(2, 1, WaitStep::Request);
    p.sys_mutex_lock(2, 1, WaitStep::Checked(false));
    p.sys_mutex_lock(2, 1, WaitStep::Acquired);
    p.sys_mutex_unlock(2, 1);
    assert_eq!((p.mutexes.available, p.mutexes.need, p.mutexes.allocation), before);
}

#[test]
fn enable_deadlock_detect_accepts_zero_and_one() {
    let mut p = process(1);
    assert_eq!(p.sys_enable_deadlock_detect(1), 0);
    assert!(p.enable_deadlock_detect);
    assert_eq!(p.sys_enable_deadlock_detect(2), -1);
    assert!(p.enable_deadlock_detect);
    assert_eq!(p.sys_enable_deadlock_detect(0), 0);
    assert!(!p.enable_deadlock_detect);
}
