use vstd::prelude::*;

use crate::cpu::{reg_value, Registers, TrapFrame};
use crate::page::{leaf_addr, leaf_entry, map_succeeds, same_path, vpn};
use crate::process::{
    delete_post, lemma_removed_never_scheduled_again, schedule_post, state_change_post, ProcessList,
    ProcessState,
};

verus! {

/// The supported system calls.
#[derive(Clone, Copy, Debug, PartialEq, Eq, Structural)]
pub enum Syscall {
    PutChar,
    DumpRegisters,
    Sleep,
    Execv,
    Read,
    Exit,
    GetPid,
    BlockRead,
    GetFramebuffer,
    TransferRectangleAndInvalidate,
    WaitForKeyboardEvents,
    WaitForAbsEvents,
    GetTime,
}

impl Syscall {
    /// The call's number in the calling convention.
    pub open spec fn spec_number(self) -> u64 {
        match self {
            Syscall::PutChar => 2,
            Syscall::DumpRegisters => 8,
            Syscall::Sleep => 10,
            Syscall::Execv => 11,
            Syscall::Read => 63,
            Syscall::Exit => 93,
            Syscall::GetPid => 172,
            Syscall::BlockRead => 180,
            Syscall::GetFramebuffer => 1000,
            Syscall::TransferRectangleAndInvalidate => 1001,
            Syscall::WaitForKeyboardEvents => 1002,
            Syscall::WaitForAbsEvents => 1004,
            Syscall::GetTime => 1062,
        }
    }

    /// The call's number.
    pub fn number(self) -> (r: u64)
        ensures
            r == self.spec_number(),
    {
        match self {
            Syscall::PutChar => 2,
            Syscall::DumpRegisters => 8,
            Syscall::Sleep => 10,
            Syscall::Execv => 11,
            Syscall::Read => 63,
            Syscall::Exit => 93,
            Syscall::GetPid => 172,
            Syscall::BlockRead => 180,
            Syscall::GetFramebuffer => 1000,
            Syscall::TransferRectangleAndInvalidate => 1001,
            Syscall::WaitForKeyboardEvents => 1002,
            Syscall::WaitForAbsEvents => 1004,
            Syscall::GetTime => 1062,
        }
    }

    /// The call with number `n`, or `Err(n)` when no call has that number.
    pub fn try_from(n: u64) -> (r: Result<Syscall, u64>)
        ensures
            match r {
                Ok(c) => c.spec_number() == n,
                Err(m) => m == n && forall|c: Syscall| c.spec_number() != n,
            },
    {
        match n {
            2 => Ok(Syscall::PutChar),
            8 => Ok(Syscall::DumpRegisters),
            10 => Ok(Syscall::Sleep),
            11 => Ok(Syscall::Execv),
            63 => Ok(Syscall::Read),
            93 => Ok(Syscall::Exit),
            172 => Ok(Syscall::GetPid),
            180 => Ok(Syscall::BlockRead),
            1000 => Ok(Syscall::GetFramebuffer),
            1001 => Ok(Syscall::TransferRectangleAndInvalidate),
            1002 => Ok(Syscall::WaitForKeyboardEvents),
            1004 => Ok(Syscall::WaitForAbsEvents),
            1062 => Ok(Syscall::GetTime),
            _ => Err(n),
        }
    }
}

/// Registers of a system call as user code loads them: the number and six
/// arguments.
#[derive(Clone, Copy, Debug)]
pub struct SyscallRequest {
    pub number: u64,
    pub args: [u64; 6],
}

fn request(number: u64, a0: u64, a1: u64, a2: u64, a3: u64, a4: u64, a5: u64) -> (r: SyscallRequest)
    ensures
        r.number == number,
        r.args@ == seq![a0, a1, a2, a3, a4, a5],
{
    let r = SyscallRequest { number, args: [a0, a1, a2, a3, a4, a5] };
    assert(r.args@ =~= seq![a0, a1, a2, a3, a4, a5]);
    r
}

/// The request that ends the calling process.
pub fn syscall_exit() -> (r: SyscallRequest)
    ensures
        r.number == Syscall::Exit.spec_number(),
        r.args@ == seq![0u64, 0, 0, 0, 0, 0],
{
    request(Syscall::Exit.number(), 0, 0, 0, 0, 0, 0)
}

/// The request that replaces the calling process by the program at `path`.
pub fn syscall_execv(path: u64, argv: u64) -> (r: SyscallRequest)
    ensures
        r.number == Syscall::Execv.spec_number(),
        r.args@ == seq![path, argv, 0, 0, 0, 0],
{
    request(Syscall::Execv.number(), path, argv, 0, 0, 0, 0)
}

/// The request that reads `size` bytes at `offset` of file `inode` on
/// device `dev` into `buffer`.
pub fn syscall_fs_read(dev: u64, inode: u32, buffer: u64, size: u32, offset: u32) -> (r: SyscallRequest)
    ensures
        r.number == Syscall::Read.spec_number(),
        r.args@ == seq![dev, inode as u64, buffer, size as u64, offset as u64, 0],
{
    request(Syscall::Read.number(), dev, inode as u64, buffer, size as u64, offset as u64, 0)
}

/// The request that reads `size` bytes at `offset` of block device `dev`
/// into `buffer`.
pub fn syscall_block_read(dev: u64, buffer: u64, size: u32, offset: u32) -> (r: SyscallRequest)
    ensures
        r.number == Syscall::BlockRead.spec_number(),
        r.args@ == seq![dev, buffer, size as u64, offset as u64, 0, 0],
{
    request(Syscall::BlockRead.number(), dev, buffer, size as u64, offset as u64, 0, 0)
}

/// The request that puts the caller to sleep for `duration` timer ticks.
pub fn syscall_sleep(duration: u64) -> (r: SyscallRequest)
    ensures
        r.number == Syscall::Sleep.spec_number(),
        r.args@ == seq![duration, 0, 0, 0, 0, 0],
{
    request(Syscall::Sleep.number(), duration, 0, 0, 0, 0, 0)
}

/// The request for the caller's process id.
pub fn syscall_get_pid() -> (r: SyscallRequest)
    ensures
        r.number == Syscall::GetPid.spec_number(),
        r.args@ == seq![0u64, 0, 0, 0, 0, 0],
{
    request(Syscall::GetPid.number(), 0, 0, 0, 0, 0, 0)
}

/// Device or console work that a system call hands to the caller of the
/// dispatcher; every address in it is physical.
#[derive(Clone, Copy, Debug, PartialEq, Eq, Structural)]
pub enum SyscallAction {
    Nothing,
    /// Print one character.
    PutChar(u8),
    /// Print the caller's registers.
    DumpRegisters,
    /// Open the program whose path is at the address and run it in place of
    /// the caller.
    Exec(u64),
    /// File read: device, inode, buffer, size, offset, process to wake when
    /// done.
    FsRead(u64, u32, u64, u32, u32, u16),
    /// Block read: device, buffer, size, offset, process to wake when done.
    BlockRead(u64, u64, u32, u64, u16),
    /// Hand the framebuffer of a device to the caller.
    GetFramebuffer(u64),
    /// Transfer and invalidate a rectangle: device, x, y, width, height.
    TransferRectangle(u64, u32, u32, u32, u32),
    /// Copy up to `max` pending keyboard events to a user buffer: buffer, max.
    KeyboardEvents(u64, u64),
    /// Copy up to `max` pending pointer events to a user buffer: buffer, max.
    AbsEvents(u64, u64),
}

/// Graphics devices are numbered from 1 to this.
pub const GPU_DEVICES: u64 = 8;

/// The outcome depends on a lookup outside the core: the caller finishes it
/// with `exec_result` or `framebuffer_result` before anything runs.
pub open spec fn awaits_result(a: SyscallAction) -> bool {
    a is Exec || a is GetFramebuffer
}

/// What the trap handler does after a system call: `pc` 0 means reschedule,
/// anything else resumes the caller there.
#[derive(Clone, Copy, Debug, PartialEq, Eq, Structural)]
pub struct SyscallOutcome {
    pub pc: u64,
    pub action: SyscallAction,
}

/// The program counter just past the trapping instruction at `mepc`.
pub open spec fn advance(mepc: u64) -> u64 {
    if mepc <= u64::MAX - 4 {
        (mepc + 4) as u64
    } else {
        (mepc + 4 - 0x1_0000_0000_0000_0000) as u64
    }
}

fn advance_exec(mepc: u64) -> (r: u64)
    ensures
        r == advance(mepc),
{
    if mepc <= u64::MAX - 4 {
        mepc + 4
    } else {
        mepc - (u64::MAX - 3)
    }
}

/// Where user pointer `v` of the caller described by `f` lies in physical
/// memory: through the caller's table when translation is on, as is when
/// it is off.
pub open spec fn user_pointer(f: TrapFrame, procs: ProcessList, v: u64) -> Option<u64> {
    if f.satp >> 60u64 != 0 {
        procs.translate_for(f.pid as u16, v)
    } else {
        Some(v)
    }
}

fn user_pointer_exec(f: &TrapFrame, procs: &ProcessList, v: u64) -> (r: Option<u64>)
    requires
        procs.wf(),
    ensures
        r == user_pointer(*f, *procs, v),
{
    if f.translation_on() {
        procs.translate_pid(f.pid as u16, v)
    } else {
        Some(v)
    }
}

/// `g` is `f` with register a0 set to `v`.
pub open spec fn a0_set(f: TrapFrame, g: TrapFrame, v: u64) -> bool {
    &&& g.regs@ == f.regs@.update(10, v)
    &&& g.fregs == f.fregs
    &&& g.satp == f.satp
    &&& g.pc == f.pc
    &&& g.hartid == f.hartid
    &&& g.qm == f.qm
    &&& g.pid == f.pid
    &&& g.mode == f.mode
}

/// Dispatch the system call in `frame` (number in a7, arguments in a0 to a4)
/// trapped at `mepc`, at timer value `now`. Unknown numbers change nothing
/// and yield.
pub fn do_syscall(mepc: u64, frame: &mut TrapFrame, procs: &mut ProcessList, now: u64) -> (r: SyscallOutcome)
    requires
        old(procs).wf(),
    ensures
        final(procs).wf(),
        syscall_post(mepc, *old(frame), *old(procs), now, *final(frame), *final(procs), r),
{
    let n = frame.reg(Registers::A7);
    let a0 = frame.reg(Registers::A0);
    let a1 = frame.reg(Registers::A1);
    let a2 = frame.reg(Registers::A2);
    let a3 = frame.reg(Registers::A3);
    let a4 = frame.reg(Registers::A4);
    let pid = frame.pid as u16;
    let nothing = SyscallAction::Nothing;
    match Syscall::try_from(n) {
        Err(_) => SyscallOutcome { pc: 0, action: nothing },
        Ok(Syscall::Exit) => {
            procs.delete_process(pid);
            SyscallOutcome { pc: 0, action: nothing }
        },
        Ok(Syscall::PutChar) => SyscallOutcome { pc: 0, action: SyscallAction::PutChar(a0 as u8) },
        Ok(Syscall::DumpRegisters) => SyscallOutcome { pc: advance_exec(mepc), action: SyscallAction::DumpRegisters },
        Ok(Syscall::Sleep) => {
            procs.set_sleeping(pid, a0, now);
            SyscallOutcome { pc: 0, action: nothing }
        },
        Ok(Syscall::Execv) => match user_pointer_exec(frame, procs, a0) {
            None => {
                frame.set_reg(Registers::A0, u64::MAX);
                SyscallOutcome { pc: advance_exec(mepc), action: nothing }
            },
            Some(path) => SyscallOutcome { pc: 0, action: SyscallAction::Exec(path) },
        },
        Ok(Syscall::Read) => match user_pointer_exec(frame, procs, a2) {
            None => {
                frame.set_reg(Registers::A0, u64::MAX);
                SyscallOutcome { pc: 0, action: nothing }
            },
            Some(buffer) => {
                procs.set_waiting(pid);
                SyscallOutcome { pc: 0, action: SyscallAction::FsRead(a0, a1 as u32, buffer, a3 as u32, a4 as u32, pid) }
            },
        },
        Ok(Syscall::GetPid) => {
            let p = frame.pid;
            frame.set_reg(Registers::A0, p);
            SyscallOutcome { pc: 0, action: nothing }
        },
        Ok(Syscall::BlockRead) => match user_pointer_exec(frame, procs, a1) {
            None => {
                frame.set_reg(Registers::A0, u64::MAX);
                SyscallOutcome { pc: 0, action: nothing }
            },
            Some(buffer) => {
                procs.set_waiting(pid);
                SyscallOutcome { pc: 0, action: SyscallAction::BlockRead(a0, buffer, a2 as u32, a3, pid) }
            },
        },
        Ok(Syscall::GetFramebuffer) => {
            frame.set_reg(Registers::A0, 0);
            if 1 <= a0 && a0 <= GPU_DEVICES {
                SyscallOutcome { pc: 0, action: SyscallAction::GetFramebuffer(a0) }
            } else {
                SyscallOutcome { pc: 0, action: nothing }
            }
        },
        Ok(Syscall::TransferRectangleAndInvalidate) => SyscallOutcome {
            pc: 0,
            action: SyscallAction::TransferRectangle(a0, a1 as u32, a2 as u32, a3 as u32, a4 as u32),
        },
        Ok(Syscall::WaitForKeyboardEvents) => SyscallOutcome { pc: 0, action: SyscallAction::KeyboardEvents(a0, a1) },
        Ok(Syscall::WaitForAbsEvents) => SyscallOutcome { pc: 0, action: SyscallAction::AbsEvents(a0, a1) },
        Ok(Syscall::GetTime) => {
            frame.set_reg(Registers::A0, now);
            SyscallOutcome { pc: 0, action: nothing }
        },
    }
}

/// What `do_syscall(mepc, f, procs, now)` does: `g` and `t` are the frame
/// and list after it, `r` its outcome.
pub open spec fn syscall_post(
    mepc: u64,
    f: TrapFrame,
    s: ProcessList,
    now: u64,
    g: TrapFrame,
    t: ProcessList,
    r: SyscallOutcome,
) -> bool {
    let n = f.regs@[17];
    let a0 = f.regs@[10];
    let a1 = f.regs@[11];
    let a2 = f.regs@[12];
    let a3 = f.regs@[13];
    let a4 = f.regs@[14];
    let pid = f.pid as u16;
    let same = g == f && t == s;
    let nothing = SyscallAction::Nothing;
    &&& (forall|c: Syscall| c.spec_number() != n) ==> same && r == (SyscallOutcome { pc: 0, action: nothing })
    &&& n == Syscall::Exit.spec_number() ==> g == f && delete_post(s, pid, t, s.pids().contains(pid))
        && r == (SyscallOutcome { pc: 0, action: nothing })
    &&& n == Syscall::PutChar.spec_number() ==> same && r == (SyscallOutcome {
        pc: 0,
        action: SyscallAction::PutChar(a0 as u8),
    })
    &&& n == Syscall::DumpRegisters.spec_number() ==> same && r == (SyscallOutcome {
        pc: advance(mepc),
        action: SyscallAction::DumpRegisters,
    })
    &&& n == Syscall::Sleep.spec_number() ==> g == f && state_change_post(
        s,
        pid,
        ProcessState::Sleeping(if now + a0 > u64::MAX { u64::MAX } else { (now + a0) as u64 }),
        t,
        s.pids().contains(pid),
    ) && r == (SyscallOutcome { pc: 0, action: nothing })
    &&& n == Syscall::Execv.spec_number() ==> t == s && match user_pointer(f, s, a0) {
        None => a0_set(f, g, u64::MAX) && r == (SyscallOutcome { pc: advance(mepc), action: nothing }),
        Some(path) => g == f && r == (SyscallOutcome { pc: 0, action: SyscallAction::Exec(path) }),
    }
    &&& n == Syscall::Read.spec_number() ==> match user_pointer(f, s, a2) {
        None => t == s && a0_set(f, g, u64::MAX) && r == (SyscallOutcome { pc: 0, action: nothing }),
        Some(b) => g == f && state_change_post(s, pid, ProcessState::Waiting, t, s.pids().contains(pid))
            && r == (SyscallOutcome {
            pc: 0,
            action: SyscallAction::FsRead(a0, a1 as u32, b, a3 as u32, a4 as u32, pid),
        }),
    }
    &&& n == Syscall::GetPid.spec_number() ==> t == s && a0_set(f, g, f.pid) && r == (SyscallOutcome {
        pc: 0,
        action: nothing,
    })
    &&& n == Syscall::BlockRead.spec_number() ==> match user_pointer(f, s, a1) {
        None => t == s && a0_set(f, g, u64::MAX) && r == (SyscallOutcome { pc: 0, action: nothing }),
        Some(b) => g == f && state_change_post(s, pid, ProcessState::Waiting, t, s.pids().contains(pid))
            && r == (SyscallOutcome {
            pc: 0,
            action: SyscallAction::BlockRead(a0, b, a2 as u32, a3, pid),
        }),
    }
    &&& n == Syscall::GetFramebuffer.spec_number() ==> t == s && a0_set(f, g, 0) && r == (SyscallOutcome {
        pc: 0,
        action: if 1 <= a0 <= GPU_DEVICES {
            SyscallAction::GetFramebuffer(a0)
        } else {
            nothing
        },
    })
    &&& n == Syscall::TransferRectangleAndInvalidate.spec_number() ==> same && r == (SyscallOutcome {
        pc: 0,
        action: SyscallAction::TransferRectangle(a0, a1 as u32, a2 as u32, a3 as u32, a4 as u32),
    })
    &&& n == Syscall::WaitForKeyboardEvents.spec_number() ==> same && r == (SyscallOutcome {
        pc: 0,
        action: SyscallAction::KeyboardEvents(a0, a1),
    })
    &&& n == Syscall::WaitForAbsEvents.spec_number() ==> same && r == (SyscallOutcome {
        pc: 0,
        action: SyscallAction::AbsEvents(a0, a1),
    })
    &&& n == Syscall::GetTime.spec_number() ==> t == s && a0_set(f, g, now) && r == (SyscallOutcome {
        pc: 0,
        action: nothing,
    })
}

/// Finish an exec call once the path has been looked up: when the program
/// was found (`opened`) the caller is removed, its replacement having been
/// started, and the hart reschedules; otherwise the caller gets -1 in a0 and
/// resumes after the call.
pub fn exec_result(mepc: u64, frame: &mut TrapFrame, procs: &mut ProcessList, opened: bool) -> (r: u64)
    requires
        old(procs).wf(),
    ensures
        final(procs).wf(),
        opened ==> r == 0 && *final(frame) == *old(frame) && delete_post(
            *old(procs),
            old(frame).pid as u16,
            *final(procs),
            old(procs).pids().contains(old(frame).pid as u16),
        ),
        !opened ==> r == advance(mepc) && *final(procs) == *old(procs) && a0_set(*old(frame), *final(frame), u64::MAX),
{
    if opened {
        procs.delete_process(frame.pid as u16);
        0
    } else {
        frame.set_reg(Registers::A0, u64::MAX);
        advance_exec(mepc)
    }
}

/// Virtual address at which a process sees a framebuffer.
pub const FRAMEBUFFER_VADDR: u64 = 0x3000_0000;

/// Bytes of one input event as user code receives it.
pub const EVENT_SIZE: u64 = 8;

/// Most framebuffer pages a process can be given.
pub const MAX_FRAMEBUFFER_PAGES: u64 = 0x4_0000;

/// Page `j` of the framebuffer at `addr` is mapped for process `pid`.
pub open spec fn fb_page_mapped(procs: ProcessList, pid: u16, addr: u64, j: int) -> bool {
    procs.translate_for(pid, (FRAMEBUFFER_VADDR + j * 4096) as u64) == Some(
        leaf_addr(leaf_entry((addr + j * 4096) as u64, 22), (FRAMEBUFFER_VADDR + j * 4096) as u64, 0),
    )
}

proof fn lemma_fb_pages_distinct(j: u64, i: u64)
    requires
        j < i < MAX_FRAMEBUFFER_PAGES,
    ensures
        !same_path((FRAMEBUFFER_VADDR + j * 4096) as u64, (FRAMEBUFFER_VADDR + i * 4096) as u64, 2, 0),
{
    let a = (FRAMEBUFFER_VADDR + j * 4096) as u64;
    let b = (FRAMEBUFFER_VADDR + i * 4096) as u64;
    assert(a >> 12u64 == 0x30000 + j) by (bit_vector)
        requires
            a == 0x3000_0000u64 + j * 4096u64,
            j < 0x4_0000,
    ;
    assert(b >> 12u64 == 0x30000 + i) by (bit_vector)
        requires
            b == 0x3000_0000u64 + i * 4096u64,
            i < 0x4_0000,
    ;
    if same_path(a, b, 2, 0) {
        assert(vpn(a, 0) == vpn(b, 0));
        assert(vpn(a, 1) == vpn(b, 1));
        assert(vpn(a, 2) == vpn(b, 2));
        assert(a >> 12u64 == b >> 12u64) by (bit_vector)
            requires
                a < 0x80_0000_0000,
                b < 0x80_0000_0000,
                (a >> 12u64) & 0x1ff == (b >> 12u64) & 0x1ff,
                (a >> 21u64) & 0x1ff == (b >> 21u64) & 0x1ff,
                (a >> 30u64) & 0x1ff == (b >> 30u64) & 0x1ff,
        ;
    }
}

/// The framebuffer pages that mapping can start on: the caller exists,
/// there are at most `MAX_FRAMEBUFFER_PAGES` of them, and the last one's
/// physical address fits in a word.
pub open spec fn fb_mappable(procs: ProcessList, pid: u16, addr: u64, bytes: u64) -> bool {
    &&& procs.pids().contains(pid)
    &&& bytes / 4096 <= MAX_FRAMEBUFFER_PAGES
    &&& (bytes / 4096 == 0 || addr + (bytes / 4096 - 1) * 4096 <= u64::MAX)
}

/// What mapping the framebuffer of `bytes` bytes at `addr` for process
/// `pid` does to the list `s`, giving `t` and result `r`.
pub open spec fn fb_post(s: ProcessList, t: ProcessList, pid: u16, addr: u64, bytes: u64, r: bool) -> bool {
    let n = bytes / 4096;
    &&& r ==> fb_mappable(s, pid, addr, bytes)
    &&& r ==> forall|j: int| 0 <= j < n ==> #[trigger] fb_page_mapped(t, pid, addr, j)
    &&& !fb_mappable(s, pid, addr, bytes) ==> t == s
    &&& !r && fb_mappable(s, pid, addr, bytes) ==> exists|j: int| 0 <= j < n && #[trigger] fb_fails_at(t, pid, addr, j)
}

/// Pages before `j` of the framebuffer at `addr` are mapped for `pid`, and
/// page `j` cannot be.
pub open spec fn fb_fails_at(t: ProcessList, pid: u16, addr: u64, j: int) -> bool {
    &&& forall|i: int| 0 <= i < j ==> #[trigger] fb_page_mapped(t, pid, addr, i)
    &&& !map_succeeds(t.table_of(pid), (FRAMEBUFFER_VADDR + j * 4096) as u64, 0)
}

/// Finish a framebuffer request once the device has been looked up: `fb` is
/// the framebuffer's physical address and size in bytes, `None` when the
/// device has none. With translation off the caller gets `FRAMEBUFFER_VADDR`
/// in a0. With translation on, the framebuffer's pages are mapped read-write
/// for the caller from `FRAMEBUFFER_VADDR` on, one after the other; the
/// caller gets that address once all of them are mapped, and 0 when it does
/// not exist, the framebuffer is too large, or a page cannot be mapped, in
/// which case the pages before it stay mapped.
pub fn framebuffer_result(frame: &mut TrapFrame, procs: &mut ProcessList, fb: Option<(u64, u64)>) -> (r: bool)
    requires
        old(procs).wf(),
    ensures
        final(procs).wf(),
        final(procs).pids() == old(procs).pids(),
        final(procs).states() == old(procs).states(),
        final(procs).frames() == old(procs).frames(),
        a0_set(*old(frame), *final(frame), if r { FRAMEBUFFER_VADDR } else { 0 }),
        fb is None ==> !r && *final(procs) == *old(procs),
        fb is Some && old(frame).satp >> 60u64 == 0 ==> r && *final(procs) == *old(procs),
        old(frame).satp >> 60u64 != 0 ==> match fb {
            Some((addr, bytes)) => fb_post(*old(procs), *final(procs), old(frame).pid as u16, addr, bytes, r),
            None => true,
        },
{
    let (addr, bytes) = match fb {
        None => {
            frame.set_reg(Registers::A0, 0);
            return false;
        },
        Some(x) => x,
    };
    if !frame.translation_on() {
        frame.set_reg(Registers::A0, FRAMEBUFFER_VADDR);
        return true;
    }
    let pid = frame.pid as u16;
    let num_pages = bytes / 4096;
    let found = procs.get_by_pid(pid);
    if found.is_none() || num_pages > MAX_FRAMEBUFFER_PAGES || (num_pages > 0 && addr > u64::MAX - (num_pages - 1)
        * 4096) {
        frame.set_reg(Registers::A0, 0);
        return false;
    }
    proof {
        assert(procs.pids().contains(pid));
    }
    let mut i: u64 = 0;
    while i < num_pages
        invariant
            procs.wf(),
            procs.pids() == old(procs).pids(),
            procs.states() == old(procs).states(),
            procs.frames() == old(procs).frames(),
            *frame == *old(frame),
            num_pages == bytes / 4096,
            i <= num_pages,
            fb == Some((addr, bytes)),
            old(frame).satp >> 60u64 != 0,
            pid == old(frame).pid as u16,
            fb_mappable(*old(procs), pid, addr, bytes),
            forall|j: int| 0 <= j < i ==> #[trigger] fb_page_mapped(*procs, pid, addr, j),
        decreases num_pages - i,
    {
        let off = i * 4096;
        assert(22u64 & 0xe != 0) by (bit_vector);
        let ghost before = *procs;
        match procs.map_pid(pid, FRAMEBUFFER_VADDR + off, addr + off, 22, 0) {
            Some(Ok(())) => {
                proof {
                    assert forall|j: int| 0 <= j < i + 1 implies #[trigger] fb_page_mapped(*procs, pid, addr, j) by {
                        if j < i {
                            lemma_fb_pages_distinct(j as u64, i);
                            assert(fb_page_mapped(before, pid, addr, j));
                            assert(procs.translate_for(pid, (FRAMEBUFFER_VADDR + j * 4096) as u64) == before.translate_for(
                                pid,
                                (FRAMEBUFFER_VADDR + j * 4096) as u64,
                            ));
                        }
                    }
                }
            },
            _ => {
                proof {
                    assert(procs.tables() == before.tables());
                    assert(procs.table_of(pid) == before.table_of(pid));
                    assert forall|j: int| 0 <= j < i implies #[trigger] fb_page_mapped(*procs, pid, addr, j) by {
                        assert(fb_page_mapped(before, pid, addr, j));
                        assert(procs.translate_for(pid, (FRAMEBUFFER_VADDR + j * 4096) as u64) == before.translate_for(
                            pid,
                            (FRAMEBUFFER_VADDR + j * 4096) as u64,
                        ));
                    }
                    assert(!map_succeeds(procs.table_of(pid), (FRAMEBUFFER_VADDR + i * 4096) as u64, 0));
                    assert(fb_fails_at(*procs, pid, addr, i as int));
                }
                frame.set_reg(Registers::A0, 0);
                return false;
            },
        }
        i = i + 1;
    }
    frame.set_reg(Registers::A0, FRAMEBUFFER_VADDR);
    true
}

/// Address of event slot `j` of a user buffer at `vaddr`.
pub open spec fn event_slot(vaddr: u64, j: int) -> int {
    vaddr + j * EVENT_SIZE
}

/// Each of `slots` is where the matching event slot of the buffer at `vaddr`
/// lies in physical memory.
pub open spec fn slots_translate(f: TrapFrame, procs: ProcessList, vaddr: u64, slots: Seq<u64>) -> bool {
    forall|j: int|
        0 <= j < slots.len() ==> event_slot(vaddr, j) <= u64::MAX && user_pointer(
            f,
            procs,
            event_slot(vaddr, j) as u64,
        ) == Some(#[trigger] slots[j])
}

/// Where the pending input events go: for up to `max` of the `pending`
/// events, the physical address of each slot of the caller's buffer at
/// `vaddr`, stopping at the first slot that does not translate. The caller
/// gets the number of slots in a0.
pub fn event_targets(frame: &mut TrapFrame, procs: &ProcessList, vaddr: u64, max: u64, pending: u64) -> (r: Vec<u64>)
    requires
        procs.wf(),
    ensures
        r@.len() <= max,
        r@.len() <= pending,
        slots_translate(*old(frame), *procs, vaddr, r@),
        r@.len() < max && r@.len() < pending ==> event_slot(vaddr, r@.len() as int) > u64::MAX
            || user_pointer(*old(frame), *procs, event_slot(vaddr, r@.len() as int) as u64) is None,
        a0_set(*old(frame), *final(frame), r@.len() as u64),
{
    let limit = if max <= pending { max } else { pending };
    let mut out: Vec<u64> = Vec::new();
    let mut j: u64 = 0;
    while j < limit
        invariant
            procs.wf(),
            limit <= max,
            limit <= pending,
            j <= limit,
            out@.len() == j,
            *frame == *old(frame),
            slots_translate(*old(frame), *procs, vaddr, out@),
        ensures
            j <= limit,
            out@.len() == j,
            *frame == *old(frame),
            slots_translate(*old(frame), *procs, vaddr, out@),
            j < limit ==> event_slot(vaddr, j as int) > u64::MAX || user_pointer(
                *old(frame),
                *procs,
                event_slot(vaddr, j as int) as u64,
            ) is None,
        decreases limit - j,
    {
        if j > (u64::MAX - vaddr) / EVENT_SIZE {
            assert(vaddr + j * 8 > u64::MAX) by (nonlinear_arith)
                requires
                    j > (u64::MAX - vaddr) / 8,
                    vaddr <= u64::MAX,
            ;
            break;
        }
        assert(j * 8 <= u64::MAX - vaddr) by (nonlinear_arith)
            requires
                j <= (u64::MAX - vaddr) / 8,
                vaddr <= u64::MAX,
        ;
        let v = vaddr + j * EVENT_SIZE;
        match user_pointer_exec(frame, procs, v) {
            None => break,
            Some(p) => {
                let ghost before = out@;
                out.push(p);
                assert forall|k: int| 0 <= k < out@.len() implies event_slot(vaddr, k) <= u64::MAX && user_pointer(
                    *old(frame),
                    *procs,
                    event_slot(vaddr, k) as u64,
                ) == Some(#[trigger] out@[k]) by {
                    if k < before.len() {
                        assert(out@[k] == before[k]);
                    }
                }
            },
        }
        j = j + 1;
    }
    frame.set_reg(Registers::A0, j);
    out
}

/// A call with an unknown number leaves the caller's registers and every
/// process as they were and yields the hart; it never ends the caller.
pub proof fn lemma_unknown_syscall_yields(
    mepc: u64,
    f: TrapFrame,
    s: ProcessList,
    now: u64,
    g: TrapFrame,
    t: ProcessList,
    r: SyscallOutcome,
)
    requires
        syscall_post(mepc, f, s, now, g, t, r),
        forall|c: Syscall| c.spec_number() != f.regs@[17],
    ensures
        g == f,
        t == s,
        t.states() == s.states(),
        r.pc == 0,
        r.action == SyscallAction::Nothing,
{
}

/// An exit call removes the caller from the process list for good: no list
/// that later scheduling decisions lead to holds it, and no decision picks
/// it.
pub proof fn lemma_exit_removes_caller(
    mepc: u64,
    f: TrapFrame,
    s: ProcessList,
    now: u64,
    g: TrapFrame,
    t: ProcessList,
    r: SyscallOutcome,
    lists: Seq<ProcessList>,
    nows: Seq<u64>,
    picks: Seq<Option<usize>>,
)
    requires
        syscall_post(mepc, f, s, now, g, t, r),
        f.regs@[17] == Syscall::Exit.spec_number(),
        lists.len() == picks.len() + 1,
        nows.len() == picks.len(),
        lists[0] == t,
        forall|j: int| 0 <= j < picks.len() ==> schedule_post(lists[j], nows[j], lists[j + 1], picks[j]),
    ensures
        r.pc == 0,
        !t.pids().contains(f.pid as u16),
        forall|j: int| 0 <= j < lists.len() ==> !(#[trigger] lists[j]).pids().contains(f.pid as u16),
        forall|j: int|
            0 <= j < picks.len() ==> (#[trigger] picks[j] matches Some(i) ==> lists[j + 1].pids()[i as int]
                != f.pid as u16),
{
    lemma_removed_never_scheduled_again(lists, nows, picks, f.pid as u16);
}

} // verus!
