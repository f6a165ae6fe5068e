use rvos::cpu::{build_satp, SatpMode, TrapFrame};
use rvos::page::{EntryBits, PageTable};
use rvos::process::ProcessList;
use rvos::syscall::{
    do_syscall, event_targets, exec_result, framebuffer_result, FRAMEBUFFER_VADDR, MAX_FRAMEBUFFER_PAGES, syscall_block_read, syscall_execv, syscall_exit, syscall_fs_read,
    syscall_get_pid, syscall_sleep, Syscall, SyscallAction, SyscallOutcome,
};
use rvos::trap::{classify, handle_trap, resume_after, TrapCause, TrapDecision, TrapWork};

fn one_process() -> (ProcessList, TrapFrame) {
    let mut l = ProcessList::new();
    l.add_process(TrapFrame::new(), PageTable::new()).unwrap();
    let f = l.frame(0);
    (l, f)
}

fn call(f: &mut TrapFrame, n: u64, a0: u64) {
    f.regs[17] = n;
    f.regs[10] = a0;
}

#[test]
fn syscall_numbers_round_trip() {
    assert_eq!(Syscall::try_from(93), Ok(Syscall::Exit));
    assert_eq!(Syscall::try_from(1062), Ok(Syscall::GetTime));
    assert_eq!(Syscall::try_from(7), Err(7));
    assert_eq!(Syscall::BlockRead.number(), 180);
}

#[test]
fn user_side_requests() {
    assert_eq!(syscall_exit().number, 93);
    let r = syscall_execv(0x100, 0x200);
    assert_eq!((r.number, r.args), (11, [0x100, 0x200, 0, 0, 0, 0]));
    let r = syscall_fs_read(8, 3, 0x5000, 512, 1024);
    assert_eq!((r.number, r.args), (63, [8, 3, 0x5000, 512, 1024, 0]));
    let r = syscall_block_read(8, 0x6000, 512, 4096);
    assert_eq!((r.number, r.args), (180, [8, 0x6000, 512, 4096, 0, 0]));
    assert_eq!(syscall_sleep(10000).args[0], 10000);
    assert_eq!(syscall_get_pid().number, 172);
}

#[test]
fn unknown_syscall_changes_nothing_and_yields() {
    let (mut l, mut f) = one_process();
    call(&mut f, 4242, 1);
    let before = f;
    let out = do_syscall(0x1000, &mut f, &mut l, 5);
    assert_eq!(out, SyscallOutcome { pc: 0, action: SyscallAction::Nothing });
    assert_eq!(f.regs, before.regs);
    assert_eq!(l.num_processes(), 1);
    assert_eq!(l.schedule(0), Some(0));
}

#[test]
fn exit_removes_caller() {
    let (mut l, mut f) = one_process();
    call(&mut f, 93, 0);
    let out = do_syscall(0x1000, &mut f, &mut l, 0);
    assert_eq!(out.pc, 0);
    assert_eq!(l.num_processes(), 0);
    assert_eq!(l.schedule(0), None);
}

#[test]
fn get_pid_time_and_dump() {
    let (mut l, mut f) = one_process();
    call(&mut f, 172, 0);
    do_syscall(0x1000, &mut f, &mut l, 0);
    assert_eq!(f.regs[10], f.pid);
    call(&mut f, 1062, 0);
    do_syscall(0x1000, &mut f, &mut l, 777);
    assert_eq!(f.regs[10], 777);
    call(&mut f, 8, 0);
    let out = do_syscall(0x1000, &mut f, &mut l, 0);
    assert_eq!(out, SyscallOutcome { pc: 0x1004, action: SyscallAction::DumpRegisters });
    call(&mut f, 2, 0x141);
    let out = do_syscall(0x1000, &mut f, &mut l, 0);
    assert_eq!(out.action, SyscallAction::PutChar(0x41));
}

#[test]
fn sleep_syscall_puts_caller_to_sleep() {
    let (mut l, mut f) = one_process();
    call(&mut f, 10, 100);
    let out = do_syscall(0x1000, &mut f, &mut l, 1000);
    assert_eq!(out.pc, 0);
    assert_eq!(l.schedule(1099), None);
    assert_eq!(l.schedule(1100), Some(0));
}

#[test]
fn read_with_translation_fault_returns_sentinel() {
    let (mut l, mut f) = one_process();
    f.satp = build_satp(SatpMode::Sv39, 1, 0x8000_0000);
    call(&mut f, 63, 8);
    f.regs[12] = 0x7000;
    let out = do_syscall(0x1000, &mut f, &mut l, 0);
    assert_eq!(out, SyscallOutcome { pc: 0, action: SyscallAction::Nothing });
    assert_eq!(f.regs[10], u64::MAX);
    assert_eq!(l.schedule(0), Some(0));
}

#[test]
fn block_read_translates_buffer_and_waits() {
    let mut t = PageTable::new();
    rvos::page::map(&mut t, 0x7000, 0x8030_0000, EntryBits::UserReadWrite.val(), 0).unwrap();
    let mut l = ProcessList::new();
    let pid = l.add_process(TrapFrame::new(), t).unwrap();
    let mut f = l.frame(0);
    f.satp = build_satp(SatpMode::Sv39, pid as u64, 0x8000_0000);
    call(&mut f, 180, 8);
    f.regs[11] = 0x7010;
    f.regs[12] = 512;
    f.regs[13] = 0;
    let out = do_syscall(0x1000, &mut f, &mut l, 0);
    assert_eq!(out.action, SyscallAction::BlockRead(8, 0x8030_0010, 512, 0, pid));
    assert_eq!(l.schedule(0), None);
    assert!(l.set_running(pid));
    assert_eq!(l.schedule(0), Some(0));
}

#[test]
fn exec_without_translation_and_results() {
    let (mut l, mut f) = one_process();
    call(&mut f, 11, 0x9000);
    let out = do_syscall(0x1000, &mut f, &mut l, 0);
    assert_eq!(out.action, SyscallAction::Exec(0x9000));
    assert_eq!(exec_result(0x1000, &mut f, &mut l, false), 0x1004);
    assert_eq!(f.regs[10], u64::MAX);
    assert_eq!(exec_result(0x1000, &mut f, &mut l, true), 0);
    assert_eq!(l.num_processes(), 0);
}

#[test]
fn trap_causes() {
    assert_eq!(classify((1 << 63) | 7), TrapCause::TimerInterrupt);
    assert_eq!(classify((1 << 63) | 11), TrapCause::ExternalInterrupt);
    assert_eq!(classify(8), TrapCause::Syscall);
    assert_eq!(classify(13), TrapCause::PageFault);
    assert_eq!(classify(2), TrapCause::IllegalInstruction);
    assert_eq!(classify(30), TrapCause::UnknownException(30));
}

#[test]
fn timer_trap_switches_round_robin() {
    let mut l = ProcessList::new();
    l.add_process(TrapFrame::new(), PageTable::new()).unwrap();
    l.add_process(TrapFrame::new(), PageTable::new()).unwrap();
    let mut f = l.frame(0);
    let r = handle_trap(0x2000, (1 << 63) | 7, &mut f, &mut l, 0);
    assert_eq!(r.decision, TrapDecision::Switch(1));
    assert_eq!(r.work, TrapWork::RearmTimer(20_000));
}

#[test]
fn syscall_trap_resumes_or_reschedules() {
    let (mut l, mut f) = one_process();
    call(&mut f, 8, 0);
    let r = handle_trap(0x2000, 8, &mut f, &mut l, 0);
    assert_eq!(r.decision, TrapDecision::Resume(0x2004));
    call(&mut f, 172, 0);
    let r = handle_trap(0x2000, 8, &mut f, &mut l, 0);
    assert_eq!(r.decision, TrapDecision::Switch(0));
}

#[test]
fn fault_kills_user_process_and_halts_kernel() {
    let (mut l, mut f) = one_process();
    let r = handle_trap(0x2000, 13, &mut f, &mut l, 0);
    assert_eq!(r.decision, TrapDecision::Idle);
    assert_eq!(l.num_processes(), 0);
    let (mut l, mut f) = one_process();
    f.mode = 3;
    let r = handle_trap(0x2000, 2, &mut f, &mut l, 0);
    assert_eq!(r.decision, TrapDecision::Fatal(2));
    assert_eq!(l.num_processes(), 1);
}

#[test]
fn other_traps() {
    let (mut l, mut f) = one_process();
    let r = handle_trap(0x2000, (1 << 63) | 11, &mut f, &mut l, 0);
    assert_eq!((r.decision, r.work), (TrapDecision::Resume(0x2000), TrapWork::ClaimExternal));
    let r = handle_trap(0x2000, (1 << 63) | 3, &mut f, &mut l, 0);
    assert_eq!(r.decision, TrapDecision::Resume(0x2000));
    let r = handle_trap(0x2000, 3, &mut f, &mut l, 0);
    assert_eq!(r.decision, TrapDecision::Resume(0x2002));
    let r = handle_trap(0x2000, 31, &mut f, &mut l, 0);
    assert_eq!(r.decision, TrapDecision::Fatal(31));
    let r = handle_trap(0x2000, (1 << 63) | 7, &mut f, &mut l, u64::MAX - 5);
    assert_eq!(r.work, TrapWork::RearmTimer(u64::MAX));
}

#[test]
fn framebuffer_is_mapped_for_caller() {
    let mut l = ProcessList::new();
    let pid = l.add_process(TrapFrame::new(), PageTable::new()).unwrap();
    let mut f = l.frame(0);
    f.satp = build_satp(SatpMode::Sv39, pid as u64, 0);
    assert!(framebuffer_result(&mut f, &mut l, Some((0x8100_0000, 3 * 4096))));
    assert_eq!(f.regs[10], FRAMEBUFFER_VADDR);
    assert_eq!(l.translate_pid(pid, FRAMEBUFFER_VADDR + 0x10), Some(0x8100_0010));
    assert_eq!(l.translate_pid(pid, FRAMEBUFFER_VADDR + 2 * 4096), Some(0x8100_2000));
    assert!(!framebuffer_result(&mut f, &mut l, None));
    assert_eq!(f.regs[10], 0);
    assert!(!framebuffer_result(&mut f, &mut l, Some((0x8100_0000, (MAX_FRAMEBUFFER_PAGES + 1) * 4096))));
    assert_eq!(f.regs[10], 0);
    f.satp = 0;
    assert!(framebuffer_result(&mut f, &mut l, Some((0x8100_0000, 4096))));
    assert_eq!(f.regs[10], FRAMEBUFFER_VADDR);
}

#[test]
fn event_slots_stop_at_first_fault() {
    let mut t = PageTable::new();
    rvos::page::map(&mut t, 0x7000, 0x8030_0000, EntryBits::UserReadWrite.val(), 0).unwrap();
    let mut l = ProcessList::new();
    let pid = l.add_process(TrapFrame::new(), t).unwrap();
    let mut f = l.frame(0);
    f.satp = build_satp(SatpMode::Sv39, pid as u64, 0);
    let slots = event_targets(&mut f, &l, 0x7ff0, 10, 5);
    assert_eq!(slots, vec![0x8030_0ff0, 0x8030_0ff8]);
    assert_eq!(f.regs[10], 2);
    let slots = event_targets(&mut f, &l, 0x7000, 10, 3);
    assert_eq!(slots.len(), 3);
    f.satp = 0;
    let slots = event_targets(&mut f, &l, 0x100, 2, 5);
    assert_eq!(slots, vec![0x100, 0x108]);
}

#[test]
fn framebuffer_request_checks_device_number() {
    let (mut l, mut f) = one_process();
    call(&mut f, 1000, 6);
    let out = do_syscall(0x1000, &mut f, &mut l, 0);
    assert_eq!(out.action, SyscallAction::GetFramebuffer(6));
    assert_eq!(f.regs[10], 0);
    call(&mut f, 1000, 9);
    let out = do_syscall(0x1000, &mut f, &mut l, 0);
    assert_eq!(out.action, SyscallAction::Nothing);
    call(&mut f, 1000, 0);
    let out = do_syscall(0x1000, &mut f, &mut l, 0);
    assert_eq!(out.action, SyscallAction::Nothing);
    call(&mut f, 1001, 1);
    f.regs[11] = 2;
    f.regs[12] = 3;
    f.regs[13] = 4;
    f.regs[14] = 5;
    let out = do_syscall(0x1000, &mut f, &mut l, 0);
    assert_eq!(out.action, SyscallAction::TransferRectangle(1, 2, 3, 4, 5));
    call(&mut f, 1002, 0x7000);
    f.regs[11] = 16;
    let out = do_syscall(0x1000, &mut f, &mut l, 0);
    assert_eq!(out.action, SyscallAction::KeyboardEvents(0x7000, 16));
}

#[test]
fn exec_trap_waits_for_lookup_then_resumes() {
    let (mut l, mut f) = one_process();
    call(&mut f, 11, 0x9000);
    let r = handle_trap(0x2000, 8, &mut f, &mut l, 0);
    assert_eq!(r.decision, TrapDecision::Pending);
    assert_eq!(r.work, TrapWork::Syscall(SyscallAction::Exec(0x9000)));
    let pc = exec_result(0x2000, &mut f, &mut l, false);
    assert_eq!(resume_after(&mut l, 0, pc), TrapDecision::Resume(0x2004));
    assert_eq!(f.regs[10], u64::MAX);
    let pc = exec_result(0x2000, &mut f, &mut l, true);
    assert_eq!(resume_after(&mut l, 0, pc), TrapDecision::Idle);
}

#[test]
fn fs_read_names_the_caller() {
    let (mut l, mut f) = one_process();
    call(&mut f, 63, 8);
    f.regs[11] = 3;
    f.regs[12] = 0x5000;
    f.regs[13] = 512;
    f.regs[14] = 0;
    let out = do_syscall(0x1000, &mut f, &mut l, 0);
    assert_eq!(out.action, SyscallAction::FsRead(8, 3, 0x5000, 512, 0, f.pid as u16));
    assert_eq!(l.schedule(0), None);
}

#[test]
fn framebuffer_mapping_stops_at_a_blocked_page() {
    let mut t = PageTable::new();
    rvos::page::map(&mut t, 0x3020_0000, 0x9000_0000, EntryBits::ReadWrite.val(), 1).unwrap();
    let mut l = ProcessList::new();
    let pid = l.add_process(TrapFrame::new(), t).unwrap();
    let mut f = l.frame(0);
    f.satp = build_satp(SatpMode::Sv39, pid as u64, 0);
    assert!(!framebuffer_result(&mut f, &mut l, Some((0x8100_0000, 0x201 * 4096))));
    assert_eq!(f.regs[10], 0);
    assert_eq!(l.translate_pid(pid, FRAMEBUFFER_VADDR), Some(0x8100_0000));
    assert_eq!(l.translate_pid(pid, FRAMEBUFFER_VADDR + 0x1ff * 4096), Some(0x8100_0000 + 0x1ff * 4096));
    assert_eq!(l.translate_pid(pid, 0x3020_0010), Some(0x9000_0010));
}
