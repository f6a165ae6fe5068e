use rvos::buffer::Buffer;
use rvos::cpu::{Registers, TrapFrame, CONTEXT_SWITCH_TIME};
use rvos::lock::{sleep_lock_step, spin_lock_step, LockStep, Mutex, DEFAULT_LOCK_SLEEP};
use rvos::page::PageTable;
use rvos::process::{ProcessList, ProcessState};

fn list_of(n: usize) -> ProcessList {
    let mut l = ProcessList::new();
    for _ in 0..n {
        l.add_process(TrapFrame::new(), PageTable::new()).unwrap();
    }
    l
}

#[test]
fn new_frame_is_zeroed() {
    let f = TrapFrame::new();
    assert!(f.regs.iter().all(|r| *r == 0));
    assert!(f.fregs.iter().all(|r| *r == 0));
    assert_eq!(f.qm, 1);
    assert_eq!(f.pc, 0);
}

#[test]
fn register_zero_reads_zero() {
    let mut f = TrapFrame::new();
    f.regs[0] = 77;
    assert_eq!(f.reg(Registers::Zero), 0);
    f.set_reg(Registers::A0, 5);
    assert_eq!(f.reg(Registers::A0), 5);
    assert_eq!(f.regs[10], 5);
    f.set_reg(Registers::Zero, 9);
    assert_eq!(f.regs[0], 77);
    assert_eq!(Registers::A7.index(), 17);
}

#[test]
fn time_slice_length() {
    assert_eq!(CONTEXT_SWITCH_TIME, 20_000);
}

#[test]
fn add_process_gives_fresh_pids() {
    let mut l = ProcessList::new();
    let a = l.add_process(TrapFrame::new(), PageTable::new()).unwrap();
    let b = l.add_process(TrapFrame::new(), PageTable::new()).unwrap();
    assert_ne!(a, b);
    assert_eq!(l.frame(1).pid, b as u64);
    assert_eq!(l.get_by_pid(a), Some(0));
    assert_eq!(l.get_by_pid(99), None);
}

#[test]
fn round_robin_visits_every_ready_process() {
    let mut l = list_of(3);
    let mut seen = [false; 3];
    for _ in 0..3 {
        let i = l.schedule(0).unwrap();
        seen[i] = true;
    }
    assert!(seen.iter().all(|s| *s));
}

#[test]
fn round_robin_order() {
    let mut l = list_of(3);
    assert_eq!(l.schedule(0), Some(1));
    assert_eq!(l.schedule(0), Some(2));
    assert_eq!(l.schedule(0), Some(0));
    assert_eq!(l.schedule(0), Some(1));
}

#[test]
fn sleeping_process_is_skipped_until_deadline() {
    let mut l = list_of(2);
    let pid1 = l.frame(1).pid as u16;
    assert!(l.set_sleeping(pid1, 100, 50));
    assert_eq!(l.schedule(60), Some(0));
    assert_eq!(l.schedule(149), Some(0));
    assert_eq!(l.schedule(150), Some(1));
    assert_eq!(l.schedule(150), Some(0));
    assert_eq!(l.schedule(150), Some(1));
}

#[test]
fn waiting_process_runs_after_wakeup() {
    let mut l = list_of(2);
    let pid1 = l.frame(1).pid as u16;
    assert!(l.set_waiting(pid1));
    assert_eq!(l.schedule(0), Some(0));
    assert_eq!(l.schedule(0), Some(0));
    assert!(l.set_running(pid1));
    assert_eq!(l.schedule(0), Some(1));
}

#[test]
fn nothing_to_schedule() {
    let mut l = ProcessList::new();
    assert_eq!(l.schedule(0), None);
    let mut l = list_of(1);
    let pid = l.frame(0).pid as u16;
    assert!(l.set_waiting(pid));
    assert_eq!(l.schedule(0), None);
}

#[test]
fn deleted_process_is_never_scheduled() {
    let mut l = list_of(3);
    let gone = l.frame(1).pid as u16;
    assert!(l.delete_process(gone));
    assert!(!l.delete_process(gone));
    assert_eq!(l.get_by_pid(gone), None);
    for _ in 0..6 {
        let i = l.schedule(0).unwrap();
        assert_ne!(l.frame(i).pid as u16, gone);
    }
}

#[test]
fn unknown_pid_changes_nothing() {
    let mut l = list_of(1);
    assert!(!l.set_sleeping(500, 1, 1));
    assert!(!l.set_waiting(500));
    assert!(!l.delete_process(500));
    assert_eq!(l.schedule(0), Some(0));
}

#[test]
fn mutex_exchange_protocol() {
    let mut m = Mutex::new();
    assert!(!m.is_locked());
    assert!(m.try_lock());
    assert!(m.is_locked());
    assert!(!m.try_lock());
    assert!(m.is_locked());
    m.unlock();
    assert!(!m.is_locked());
    m.unlock();
    assert!(!m.is_locked());
    assert!(m.try_lock());
}

#[test]
fn lock_steps() {
    assert_eq!(spin_lock_step(true), LockStep::Acquired);
    assert_eq!(spin_lock_step(false), LockStep::Retry);
    assert_eq!(sleep_lock_step(false), LockStep::Sleep(DEFAULT_LOCK_SLEEP));
    assert_eq!(sleep_lock_step(true), LockStep::Acquired);
}

#[test]
fn buffer_is_zero_filled() {
    let mut b: Buffer<16> = Buffer::new();
    assert_eq!(b.len(), 16);
    assert!(b.get().iter().all(|x| *x == 0));
    let d: Buffer<4> = Buffer::default();
    assert_eq!(d.len(), 4);
    b.get_mut()[3] = 9;
    assert_eq!(b.get()[3], 9);
}

#[test]
fn process_state_values() {
    let mut l = list_of(1);
    let pid = l.frame(0).pid as u16;
    l.set_sleeping(pid, u64::MAX, 10);
    assert_eq!(l.schedule(u64::MAX - 1), None);
    assert_eq!(l.schedule(u64::MAX), Some(0));
    let _ = ProcessState::Dead;
}
