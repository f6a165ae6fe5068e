use vstd::prelude::*;

use crate::cpu::{TrapFrame, CONTEXT_SWITCH_TIME};
use crate::process::{delete_post, lemma_round_robin_visits_all, schedule_post, ProcessList, ProcessState};
use crate::syscall::{awaits_result, do_syscall, syscall_post, Syscall, SyscallAction, SyscallOutcome};

verus! {

/// What raised a trap, from the cause register.
#[derive(Clone, Copy, Debug, PartialEq, Eq, Structural)]
pub enum TrapCause {
    SoftwareInterrupt,
    TimerInterrupt,
    ExternalInterrupt,
    UnknownInterrupt(u64),
    IllegalInstruction,
    Breakpoint,
    AccessFault,
    Syscall,
    PageFault,
    UnknownException(u64),
}

/// The cause that cause-register value `mcause` encodes: the top bit tells
/// interrupts from exceptions, the low twelve bits give the code.
pub open spec fn cause_of(mcause: u64) -> TrapCause {
    let code = mcause & 0xfff;
    if mcause >> 63u64 != 0 {
        if code == 3 {
            TrapCause::SoftwareInterrupt
        } else if code == 7 {
            TrapCause::TimerInterrupt
        } else if code == 11 {
            TrapCause::ExternalInterrupt
        } else {
            TrapCause::UnknownInterrupt(code)
        }
    } else {
        if code == 2 {
            TrapCause::IllegalInstruction
        } else if code == 3 {
            TrapCause::Breakpoint
        } else if code == 7 {
            TrapCause::AccessFault
        } else if code == 8 || code == 9 || code == 11 {
            TrapCause::Syscall
        } else if code == 12 || code == 13 || code == 15 {
            TrapCause::PageFault
        } else {
            TrapCause::UnknownException(code)
        }
    }
}

/// Classify a trap by its cause-register value.
pub fn classify(mcause: u64) -> (r: TrapCause)
    ensures
        r == cause_of(mcause),
{
    let code = mcause & 0xfff;
    if mcause >> 63u64 != 0 {
        if code == 3 {
            TrapCause::SoftwareInterrupt
        } else if code == 7 {
            TrapCause::TimerInterrupt
        } else if code == 11 {
            TrapCause::ExternalInterrupt
        } else {
            TrapCause::UnknownInterrupt(code)
        }
    } else {
        if code == 2 {
            TrapCause::IllegalInstruction
        } else if code == 3 {
            TrapCause::Breakpoint
        } else if code == 7 {
            TrapCause::AccessFault
        } else if code == 8 || code == 9 || code == 11 {
            TrapCause::Syscall
        } else if code == 12 || code == 13 || code == 15 {
            TrapCause::PageFault
        } else {
            TrapCause::UnknownException(code)
        }
    }
}

/// Where execution goes once a trap has been handled.
#[derive(Clone, Copy, Debug, PartialEq, Eq, Structural)]
pub enum TrapDecision {
    /// Return to the trapped code at this program counter.
    Resume(u64),
    /// Run the process at this index of the list, from its saved frame.
    Switch(usize),
    /// No process can run: wait for the next interrupt.
    Idle,
    /// A fault in privileged code: halt with this cause value.
    Fatal(u64),
    /// The system call waits on an outside lookup: finish it, then pass the
    /// program counter its completion returns to `resume_after`.
    Pending,
}

/// Work outside the core that the trap needs.
#[derive(Clone, Copy, Debug, PartialEq, Eq, Structural)]
pub enum TrapWork {
    Nothing,
    /// Program the timer to fire at this value.
    RearmTimer(u64),
    /// Claim and serve the pending device interrupt.
    ClaimExternal,
    /// Carry out what the system call asked for.
    Syscall(SyscallAction),
}

/// Outcome of the trap handler.
#[derive(Clone, Copy, Debug, PartialEq, Eq, Structural)]
pub struct TrapResult {
    pub decision: TrapDecision,
    pub work: TrapWork,
}

/// When the timer fires next: one time slice after `now`, saturating.
pub open spec fn next_deadline(now: u64) -> u64 {
    if now + CONTEXT_SWITCH_TIME > u64::MAX {
        u64::MAX
    } else {
        (now + CONTEXT_SWITCH_TIME) as u64
    }
}

/// The decision that a scheduling result stands for.
pub open spec fn decision_of(p: Option<usize>) -> TrapDecision {
    match p {
        Some(i) => TrapDecision::Switch(i),
        None => TrapDecision::Idle,
    }
}

fn reschedule(procs: &mut ProcessList, now: u64) -> (r: TrapDecision)
    requires
        old(procs).wf(),
    ensures
        final(procs).wf(),
        exists|p: Option<usize>| schedule_post(*old(procs), now, *final(procs), p) && r == decision_of(p),
{
    let p = procs.schedule(now);
    assert(schedule_post(*old(procs), now, *procs, p));
    let d = match p {
        Some(i) => TrapDecision::Switch(i),
        None => TrapDecision::Idle,
    };
    assert(schedule_post(*old(procs), now, *procs, p) && d == decision_of(p));
    d
}

/// A fault: in user code the process is ended and another one chosen; in
/// privileged code the machine halts.
fn fault(mcause: u64, frame: &TrapFrame, procs: &mut ProcessList, now: u64) -> (r: TrapResult)
    requires
        old(procs).wf(),
    ensures
        final(procs).wf(),
        fault_post(mcause, *frame, *old(procs), now, *final(procs), r),
{
    if frame.mode == 0 {
        let ghost s = *procs;
        let pid = frame.pid as u16;
        procs.delete_process(pid);
        let ghost t1 = *procs;
        let d = reschedule(procs, now);
        assert(delete_post(s, pid, t1, s.pids().contains(pid)));
        TrapResult { decision: d, work: TrapWork::Nothing }
    } else {
        TrapResult { decision: TrapDecision::Fatal(mcause), work: TrapWork::Nothing }
    }
}

/// What a fault does to the list `s`, giving `t`.
pub open spec fn fault_post(mcause: u64, f: TrapFrame, s: ProcessList, now: u64, t: ProcessList, r: TrapResult) -> bool {
    &&& r.work == TrapWork::Nothing
    &&& f.mode == 0 ==> exists|t1: ProcessList, p: Option<usize>|
        delete_post(s, f.pid as u16, t1, s.pids().contains(f.pid as u16)) && schedule_post(t1, now, t, p)
            && r.decision == decision_of(p)
    &&& f.mode != 0 ==> t == s && r.decision == TrapDecision::Fatal(mcause)
}

/// Handle the trap with cause `mcause` taken at `mepc` while `frame` was
/// live, at timer value `now`.
pub fn handle_trap(mepc: u64, mcause: u64, frame: &mut TrapFrame, procs: &mut ProcessList, now: u64) -> (r: TrapResult)
    requires
        old(procs).wf(),
    ensures
        final(procs).wf(),
        trap_post(mepc, mcause, *old(frame), *old(procs), now, *final(frame), *final(procs), r),
{
    match classify(mcause) {
        TrapCause::SoftwareInterrupt => TrapResult { decision: TrapDecision::Resume(mepc), work: TrapWork::Nothing },
        TrapCause::TimerInterrupt => {
            let d = reschedule(procs, now);
            let deadline = now.saturating_add(CONTEXT_SWITCH_TIME);
            TrapResult { decision: d, work: TrapWork::RearmTimer(deadline) }
        },
        TrapCause::ExternalInterrupt => TrapResult {
            decision: TrapDecision::Resume(mepc),
            work: TrapWork::ClaimExternal,
        },
        TrapCause::Breakpoint => {
            let pc = if mepc <= u64::MAX - 2 { mepc + 2 } else { mepc - (u64::MAX - 1) };
            TrapResult { decision: TrapDecision::Resume(pc), work: TrapWork::Nothing }
        },
        TrapCause::Syscall => {
            let ghost f0 = *frame;
            let ghost s0 = *procs;
            let out = do_syscall(mepc, frame, procs, now);
            let ghost g1 = *frame;
            let ghost t1 = *procs;
            assert(syscall_post(mepc, f0, s0, now, g1, t1, out));
            let pending = match out.action {
                SyscallAction::Exec(_) | SyscallAction::GetFramebuffer(_) => true,
                _ => false,
            };
            if pending {
                TrapResult { decision: TrapDecision::Pending, work: TrapWork::Syscall(out.action) }
            } else if out.pc == 0 {
                let d = reschedule(procs, now);
                TrapResult { decision: d, work: TrapWork::Syscall(out.action) }
            } else {
                TrapResult { decision: TrapDecision::Resume(out.pc), work: TrapWork::Syscall(out.action) }
            }
        },
        TrapCause::IllegalInstruction | TrapCause::AccessFault | TrapCause::PageFault => fault(mcause, frame, procs, now),
        TrapCause::UnknownInterrupt(_) | TrapCause::UnknownException(_) => TrapResult {
            decision: TrapDecision::Fatal(mcause),
            work: TrapWork::Nothing,
        },
    }
}

/// Where execution goes once a pending system call has been completed with
/// program counter `pc`: 0 reschedules, anything else resumes the caller
/// there.
pub fn resume_after(procs: &mut ProcessList, now: u64, pc: u64) -> (r: TrapDecision)
    requires
        old(procs).wf(),
    ensures
        final(procs).wf(),
        pc != 0 ==> r == TrapDecision::Resume(pc) && *final(procs) == *old(procs),
        pc == 0 ==> exists|p: Option<usize>| schedule_post(*old(procs), now, *final(procs), p) && r == decision_of(p),
{
    if pc == 0 {
        reschedule(procs, now)
    } else {
        TrapDecision::Resume(pc)
    }
}

/// What `handle_trap` does: `g` and `t` are the frame and list after it.
pub open spec fn trap_post(
    mepc: u64,
    mcause: u64,
    f: TrapFrame,
    s: ProcessList,
    now: u64,
    g: TrapFrame,
    t: ProcessList,
    r: TrapResult,
) -> bool {
    match cause_of(mcause) {
        TrapCause::SoftwareInterrupt => g == f && t == s && r == (TrapResult {
            decision: TrapDecision::Resume(mepc),
            work: TrapWork::Nothing,
        }),
        TrapCause::TimerInterrupt => g == f && r.work == TrapWork::RearmTimer(next_deadline(now)) && exists|p: Option<usize>|
            schedule_post(s, now, t, p) && r.decision == decision_of(p),
        TrapCause::ExternalInterrupt => g == f && t == s && r == (TrapResult {
            decision: TrapDecision::Resume(mepc),
            work: TrapWork::ClaimExternal,
        }),
        TrapCause::Breakpoint => g == f && t == s && r == (TrapResult {
            decision: TrapDecision::Resume(if mepc <= u64::MAX - 2 { (mepc + 2) as u64 } else { (mepc + 2 - 0x1_0000_0000_0000_0000) as u64 }),
            work: TrapWork::Nothing,
        }),
        TrapCause::Syscall => exists|g1: TrapFrame, t1: ProcessList, out: SyscallOutcome|
            syscall_post(mepc, f, s, now, g1, t1, out) && g == g1 && r.work == TrapWork::Syscall(out.action) && if awaits_result(out.action) {
                t == t1 && r.decision == TrapDecision::Pending
            } else if out.pc == 0 {
                exists|p: Option<usize>| schedule_post(t1, now, t, p) && r.decision == decision_of(p)
            } else {
                t == t1 && r.decision == TrapDecision::Resume(out.pc)
            },
        TrapCause::IllegalInstruction | TrapCause::AccessFault | TrapCause::PageFault => g == f && fault_post(mcause, f, s, now, t, r),
        _ => g == f && t == s && r == (TrapResult { decision: TrapDecision::Fatal(mcause), work: TrapWork::Nothing }),
    }
}

} // verus!

verus! {

/// The decisions of a run of trap results, in order.
pub open spec fn decisions(results: Seq<TrapResult>) -> Seq<TrapDecision> {
    results.map_values(|r: TrapResult| r.decision)
}

proof fn lemma_get_pid_trap_schedules(
    mepc: u64,
    f: TrapFrame,
    s: ProcessList,
    now: u64,
    g: TrapFrame,
    t: ProcessList,
    r: TrapResult,
)
    requires
        f.regs@[17] == Syscall::GetPid.spec_number(),
        trap_post(mepc, 8, f, s, now, g, t, r),
    ensures
        exists|p: Option<usize>| schedule_post(s, now, t, p) && r.decision == decision_of(p),
{
    assert(8u64 >> 63u64 == 0) by (bit_vector);
    assert(8u64 & 0xfff == 8) by (bit_vector);
    assert(cause_of(8) == TrapCause::Syscall);
    let (g1, t1, out) = choose|g1: TrapFrame, t1: ProcessList, out: SyscallOutcome|
        syscall_post(mepc, f, s, now, g1, t1, out) && g == g1 && r.work == TrapWork::Syscall(out.action) && if awaits_result(
            out.action,
        ) {
            t == t1 && r.decision == TrapDecision::Pending
        } else if out.pc == 0 {
            exists|p: Option<usize>| schedule_post(t1, now, t, p) && r.decision == decision_of(p)
        } else {
            t == t1 && r.decision == TrapDecision::Resume(out.pc)
        };
    assert(t1 == s);
    assert(out.pc == 0 && out.action == SyscallAction::Nothing);
}

/// Round robin through the trap path: when all `k` processes are ready and
/// each of `k` consecutive traps is a system call that yields without
/// touching any process (get-pid), the `k` decisions switch to every one of
/// the processes at least once.
pub proof fn lemma_yielding_traps_visit_all(
    lists: Seq<ProcessList>,
    frames: Seq<TrapFrame>,
    after: Seq<TrapFrame>,
    pcs: Seq<u64>,
    nows: Seq<u64>,
    results: Seq<TrapResult>,
)
    requires
        lists.len() == results.len() + 1,
        frames.len() == results.len(),
        after.len() == results.len(),
        pcs.len() == results.len(),
        nows.len() == results.len(),
        results.len() == lists[0].len(),
        lists[0].len() > 0,
        lists[0].wf(),
        forall|i: int| 0 <= i < lists[0].len() ==> lists[0].states()[i] == ProcessState::Running,
        forall|j: int|
            0 <= j < results.len() ==> frames[j].regs@[17] == Syscall::GetPid.spec_number() && trap_post(
                pcs[j],
                8,
                frames[j],
                lists[j],
                nows[j],
                after[j],
                lists[j + 1],
                results[j],
            ),
    ensures
        forall|i: usize|
            i < lists[0].len() ==> #[trigger] decisions(results).contains(TrapDecision::Switch(i)),
{
    let k = results.len();
    let picks = Seq::new(
        k,
        |j: int|
            choose|p: Option<usize>|
                schedule_post(lists[j], nows[j], lists[j + 1], p) && results[j].decision == decision_of(p),
    );
    assert forall|j: int| 0 <= j < k implies schedule_post(lists[j], nows[j], lists[j + 1], picks[j])
        && results[j].decision == decision_of(picks[j]) by {
        lemma_get_pid_trap_schedules(pcs[j], frames[j], lists[j], nows[j], after[j], lists[j + 1], results[j]);
    }
    lemma_round_robin_visits_all(lists, nows, picks);
    let ds = decisions(results);
    assert forall|i: usize| i < lists[0].len() implies #[trigger] ds.contains(TrapDecision::Switch(i)) by {
        assert(picks.contains(Some(i)));
        let j = choose|j: int| 0 <= j < picks.len() && picks[j] == Some(i);
        assert(ds[j] == TrapDecision::Switch(i));
    }
}

} // verus!
