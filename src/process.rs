use vstd::prelude::*;

use crate::cpu::TrapFrame;
use crate::page::{leaf_addr, leaf_entry, map_succeeds, path_blocked, same_path, MapError, PageTable};

verus! {

/// Lifecycle state of a process.
#[derive(Clone, Copy, Debug, PartialEq, Eq, Structural)]
pub enum ProcessState {
    /// Ready to run.
    Running,
    /// Asleep until the timer reaches the deadline.
    Sleeping(u64),
    /// Blocked until a device completion wakes it.
    Waiting,
    /// Finished; never scheduled again.
    Dead,
}

/// A process: identity, state, saved registers and address space.
pub struct Process {
    pub pid: u16,
    pub state: ProcessState,
    pub frame: TrapFrame,
    pub table: PageTable,
    /// Program break.
    pub brk: u64,
}

/// A process in `s` may be picked at time `now`: it is ready, or asleep with
/// a deadline that has passed.
pub open spec fn eligible(s: ProcessState, now: u64) -> bool {
    match s {
        ProcessState::Running => true,
        ProcessState::Sleeping(w) => w <= now,
        _ => false,
    }
}

/// Position `o` steps after `start` in a ring of `len` slots, for `o < len`.
pub open spec fn ring(start: int, o: int, len: int) -> int {
    if start + o >= len {
        start + o - len
    } else {
        start + o
    }
}

/// The slot after `cur` in a ring of `len` slots.
pub open spec fn ring_next(cur: int, len: int) -> int {
    if cur + 1 >= len {
        0
    } else {
        cur + 1
    }
}

/// Round-robin choice: the first eligible process met going around the ring
/// from `start`, having already passed `o` of them.
pub open spec fn pick(st: Seq<ProcessState>, start: int, now: u64, o: int) -> Option<int>
    decreases st.len() - o,
{
    if o < 0 || o >= st.len() {
        None
    } else if eligible(st[ring(start, o, st.len() as int)], now) {
        Some(ring(start, o, st.len() as int))
    } else {
        pick(st, start, now, o + 1)
    }
}

/// The process list and the round-robin position of the scheduler.
pub struct ProcessList {
    procs: Vec<Process>,
    current: usize,
    next_pid: u16,
}

impl ProcessList {
    pub closed spec fn states(&self) -> Seq<ProcessState> {
        self.procs@.map_values(|p: Process| p.state)
    }

    pub closed spec fn pids(&self) -> Seq<u16> {
        self.procs@.map_values(|p: Process| p.pid)
    }

    pub closed spec fn frames(&self) -> Seq<TrapFrame> {
        self.procs@.map_values(|p: Process| p.frame)
    }

    pub closed spec fn tables(&self) -> Seq<PageTable> {
        self.procs@.map_values(|p: Process| p.table)
    }

    /// The id the next created process gets.
    pub closed spec fn pid_counter(&self) -> u16 {
        self.next_pid
    }

    /// Index of the process that ran last.
    pub closed spec fn cur(&self) -> int {
        self.current as int
    }

    pub open spec fn len(&self) -> nat {
        self.states().len()
    }

    pub closed spec fn wf(&self) -> bool {
        &&& (if self.procs@.len() == 0 { self.current == 0 } else { self.current < self.procs@.len() })
        &&& forall|i: int| 0 <= i < self.procs@.len() ==> (#[trigger] self.procs@[i]).table.wf()
        &&& forall|i: int| 0 <= i < self.procs@.len() ==> (#[trigger] self.procs@[i]).pid < self.next_pid
        &&& forall|i: int, j: int|
            0 <= i < j < self.procs@.len() ==> (#[trigger] self.procs@[i]).pid != (#[trigger] self.procs@[j]).pid
        &&& self.next_pid >= 1
        &&& self.procs@.len() <= usize::MAX
    }

    /// An empty list.
    pub fn new() -> (r: ProcessList)
        ensures
            r.wf(),
            r.len() == 0,
    {
        ProcessList { procs: Vec::new(), current: 0, next_pid: 1 }
    }

    /// Number of processes in the list.
    pub fn num_processes(&self) -> (r: usize)
        ensures
            r == self.len(),
    {
        self.procs.len()
    }

    /// Index of the process with id `pid`.
    pub fn get_by_pid(&self, pid: u16) -> (r: Option<usize>)
        requires
            self.wf(),
        ensures
            match r {
                Some(i) => i < self.len() && self.pids()[i as int] == pid,
                None => !self.pids().contains(pid),
            },
            r is Some <==> self.pids().contains(pid),
    {
        let mut i: usize = 0;
        while i < self.procs.len()
            invariant
                i <= self.procs@.len(),
                forall|j: int| 0 <= j < i ==> self.pids()[j] != pid,
            decreases self.procs@.len() - i,
        {
            if self.procs[i].pid == pid {
                assert(self.pids()[i as int] == pid);
                return Some(i);
            }
            i = i + 1;
        }
        None
    }

    /// Enqueue a new ready process with saved registers `frame` and address
    /// space `table`; its id, also stored in the frame, is returned. Fails
    /// once every process id has been handed out.
    pub fn add_process(&mut self, frame: TrapFrame, table: PageTable) -> (r: Option<u16>)
        requires
            old(self).wf(),
            table.wf(),
        ensures
            final(self).wf(),
            r is Some <==> old(self).pid_counter() < u16::MAX,
            match r {
                Some(pid) => {
                    &&& pid == old(self).pid_counter()
                    &&& final(self).pid_counter() == pid + 1
                    &&& !old(self).pids().contains(pid)
                    &&& final(self).pids() == old(self).pids().push(pid)
                    &&& final(self).states() == old(self).states().push(ProcessState::Running)
                    &&& final(self).frames() == old(self).frames().push((TrapFrame { pid: pid as u64, ..frame }))
                    &&& final(self).tables() == old(self).tables().push(table)
                    &&& final(self).cur() == old(self).cur()
                },
                None => *final(self) == *old(self),
            },
    {
        if self.next_pid == u16::MAX {
            return None;
        }
        let pid = self.next_pid;
        let mut f = frame;
        f.pid = pid as u64;
        let ghost t = table;
        self.procs.push(Process { pid, state: ProcessState::Running, frame: f, table, brk: 0 });
        proof {
            assert(self.procs.len() == self.procs@.len());
        }
        self.next_pid = pid + 1;
        assert(self.pids() =~= old(self).pids().push(pid));
        assert(self.states() =~= old(self).states().push(ProcessState::Running));
        assert(self.frames() =~= old(self).frames().push((TrapFrame { pid: pid as u64, ..frame })));
        assert(self.tables() =~= old(self).tables().push(t));
        assert(!old(self).pids().contains(pid)) by {
            if old(self).pids().contains(pid) {
                let i = choose|i: int| 0 <= i < old(self).pids().len() && old(self).pids()[i] == pid;
                assert(old(self).procs@[i].pid < old(self).next_pid);
            }
        }
        assert forall|i: int, j: int| 0 <= i < j < self.procs@.len() implies (#[trigger] self.procs@[i]).pid != (#[trigger] self.procs@[j]).pid by {
            if j == self.procs@.len() - 1 {
                assert(old(self).procs@[i].pid < old(self).next_pid);
            } else {
                assert(self.procs@[i] == old(self).procs@[i]);
                assert(self.procs@[j] == old(self).procs@[j]);
            }
        }
        assert forall|a: int| 0 <= a < self.procs@.len() implies (#[trigger] self.procs@[a]).table.wf() by {
            if a < old(self).procs@.len() {
                assert(self.procs@[a] == old(self).procs@[a]);
            }
        }
        assert forall|a: int| 0 <= a < self.procs@.len() implies (#[trigger] self.procs@[a]).pid < self.next_pid by {
            if a < old(self).procs@.len() {
                assert(self.procs@[a] == old(self).procs@[a]);
            }
        }
        Some(pid)
    }

    /// Remove the process with id `pid` for good; false, changing nothing,
    /// when there is none.
    pub fn delete_process(&mut self, pid: u16) -> (r: bool)
        requires
            old(self).wf(),
        ensures
            delete_post(*old(self), pid, *final(self), r),
    {
        match self.get_by_pid(pid) {
            None => false,
            Some(i) => {
                let ghost o = *old(self);
                let _gone = self.procs.remove(i);
                let len = self.procs.len();
                if self.current > i {
                    self.current = self.current - 1;
                } else if self.current == i {
                    if i > 0 {
                        self.current = i - 1;
                    } else if len > 0 {
                        self.current = len - 1;
                    } else {
                        self.current = 0;
                    }
                }
                assert(self.pids() =~= o.pids().remove(i as int));
                assert(self.states() =~= o.states().remove(i as int));
                assert(self.frames() =~= o.frames().remove(i as int));
                assert(self.tables() =~= o.tables().remove(i as int));
                assert forall|a: int| 0 <= a < self.procs@.len() implies (#[trigger] self.procs@[a]).table.wf() by {
                    if a < i {
                        assert(self.procs@[a] == o.procs@[a]);
                    } else {
                        assert(self.procs@[a] == o.procs@[a + 1]);
                    }
                }
                assert forall|a: int| 0 <= a < self.procs@.len() implies (#[trigger] self.procs@[a]).pid < self.next_pid by {
                    if a < i {
                        assert(self.procs@[a] == o.procs@[a]);
                    } else {
                        assert(self.procs@[a] == o.procs@[a + 1]);
                    }
                }
                assert forall|a: int, b: int| 0 <= a < b < self.procs@.len() implies (#[trigger] self.procs@[a]).pid != (#[trigger] self.procs@[b]).pid by {
                    let a1 = if a < i { a } else { a + 1 };
                    let b1 = if b < i { b } else { b + 1 };
                    assert(self.procs@[a] == o.procs@[a1]);
                    assert(self.procs@[b] == o.procs@[b1]);
                }
                assert(!self.pids().contains(pid)) by {
                    if self.pids().contains(pid) {
                        let a = choose|a: int| 0 <= a < self.pids().len() && self.pids()[a] == pid;
                        let a1 = if a < i { a } else { a + 1 };
                        assert(self.procs@[a] == o.procs@[a1]);
                        assert(o.procs@[i as int].pid == pid);
                    }
                }
                true
            },
        }
    }

    fn set_state(&mut self, i: usize, st: ProcessState)
        requires
            old(self).wf(),
            i < old(self).len(),
        ensures
            final(self).wf(),
            final(self).states() == old(self).states().update(i as int, st),
            final(self).pids() == old(self).pids(),
            final(self).frames() == old(self).frames(),
            final(self).tables() == old(self).tables(),
            final(self).cur() == old(self).cur(),
            final(self).pid_counter() == old(self).pid_counter(),
    {
        self.procs[i].state = st;
        assert(self.states() =~= old(self).states().update(i as int, st));
        assert(self.pids() =~= old(self).pids());
        assert(self.frames() =~= old(self).frames());
        assert(self.tables() =~= old(self).tables());
        proof {
            lemma_same_shape_wf(*old(self), *self);
        }
    }

    /// Put process `pid` to sleep until `now + duration` (saturating); false,
    /// changing nothing, when there is no such process.
    pub fn set_sleeping(&mut self, pid: u16, duration: u64, now: u64) -> (r: bool)
        requires
            old(self).wf(),
        ensures
            state_change_post(*old(self), pid, ProcessState::Sleeping(
                if now + duration > u64::MAX { u64::MAX } else { (now + duration) as u64 },
            ), *final(self), r),
    {
        match self.get_by_pid(pid) {
            None => false,
            Some(i) => {
                self.set_state(i, ProcessState::Sleeping(now.saturating_add(duration)));
                true
            },
        }
    }

    /// Block process `pid` until a device completion; false, changing
    /// nothing, when there is no such process.
    pub fn set_waiting(&mut self, pid: u16) -> (r: bool)
        requires
            old(self).wf(),
        ensures
            state_change_post(*old(self), pid, ProcessState::Waiting, *final(self), r),
    {
        match self.get_by_pid(pid) {
            None => false,
            Some(i) => {
                self.set_state(i, ProcessState::Waiting);
                true
            },
        }
    }

    /// Make process `pid` ready again, as a device completion does; false,
    /// changing nothing, when there is no such process.
    pub fn set_running(&mut self, pid: u16) -> (r: bool)
        requires
            old(self).wf(),
        ensures
            state_change_post(*old(self), pid, ProcessState::Running, *final(self), r),
    {
        match self.get_by_pid(pid) {
            None => false,
            Some(i) => {
                self.set_state(i, ProcessState::Running);
                true
            },
        }
    }

    /// Saved registers of process `i`.
    pub fn frame(&self, i: usize) -> (r: TrapFrame)
        requires
            i < self.len(),
        ensures
            r == self.frames()[i as int],
    {
        self.procs[i].frame
    }

    /// Replace the saved registers of process `i`.
    pub fn set_frame(&mut self, i: usize, f: TrapFrame)
        requires
            old(self).wf(),
            i < old(self).len(),
        ensures
            final(self).wf(),
            final(self).frames() == old(self).frames().update(i as int, f),
            final(self).states() == old(self).states(),
            final(self).pids() == old(self).pids(),
            final(self).tables() == old(self).tables(),
            final(self).cur() == old(self).cur(),
            final(self).pid_counter() == old(self).pid_counter(),
    {
        self.procs[i].frame = f;
        assert(self.states() =~= old(self).states());
        assert(self.pids() =~= old(self).pids());
        assert(self.frames() =~= old(self).frames().update(i as int, f));
        assert(self.tables() =~= old(self).tables());
        proof {
            lemma_same_shape_wf(*old(self), *self);
        }
    }

    /// The physical address that `v` translates to in the address space of
    /// process `i`.
    pub fn translate(&self, i: usize, v: u64) -> (r: Option<u64>)
        requires
            self.wf(),
            i < self.len(),
        ensures
            r == self.tables()[i as int].translate(v),
    {
        crate::page::virt_to_phys(&self.procs[i].table, v)
    }

    /// Translation of `v` in the address space of process `pid`; `None`
    /// when there is no such process.
    pub open spec fn translate_for(&self, pid: u16, v: u64) -> Option<u64> {
        if self.pids().contains(pid) {
            let i = choose|i: int| 0 <= i < self.len() && self.pids()[i] == pid;
            self.tables()[i].translate(v)
        } else {
            None
        }
    }

    /// The address space of process `pid`, when there is one.
    pub open spec fn table_of(&self, pid: u16) -> PageTable {
        let i = choose|i: int| 0 <= i < self.len() && self.pids()[i] == pid;
        self.tables()[i]
    }

    /// The physical address that `v` translates to for process `pid`.
    pub fn translate_pid(&self, pid: u16, v: u64) -> (r: Option<u64>)
        requires
            self.wf(),
        ensures
            r == self.translate_for(pid, v),
    {
        match self.get_by_pid(pid) {
            None => None,
            Some(i) => {
                proof {
                    let j = choose|j: int| 0 <= j < self.len() && self.pids()[j] == pid;
                    assert(self.pids()[j] == self.procs@[j].pid);
                    assert(self.pids()[i as int] == self.procs@[i as int].pid);
                    assert(i == j);
                }
                self.translate(i, v)
            },
        }
    }

    /// Map `v` to `p` with `bits` at `level` in the address space of process
    /// `pid`; `None` when there is no such process.
    pub fn map_pid(&mut self, pid: u16, v: u64, p: u64, bits: u64, level: usize) -> (r: Option<Result<(), MapError>>)
        requires
            old(self).wf(),
            level <= 2,
            bits & 0xe != 0,
        ensures
            final(self).wf(),
            final(self).pids() == old(self).pids(),
            final(self).states() == old(self).states(),
            final(self).frames() == old(self).frames(),
            final(self).cur() == old(self).cur(),
            final(self).pid_counter() == old(self).pid_counter(),
            r is None <==> !old(self).pids().contains(pid),
            r is None ==> *final(self) == *old(self),
            r is Some ==> (r->0 is Ok <==> map_succeeds(old(self).table_of(pid), v, level as int)),
            r is Some ==> (r->0 == Err::<(), MapError>(MapError::LeafInPath) <==> path_blocked(
                old(self).table_of(pid)@,
                0,
                v,
                2,
                level as int,
            )),
            (r matches Some(Err(_))) ==> final(self).tables() == old(self).tables(),
            (r matches Some(Ok(_))) ==> final(self).translate_for(pid, v) == Some(
                leaf_addr(leaf_entry(p, bits), v, level as int),
            ),
            forall|q: u16, w: u64|
                #[trigger] final(self).translate_for(q, w) == if q == pid && (r matches Some(Ok(_)))
                    && same_path(w, v, 2, level as int) {
                    Some(leaf_addr(leaf_entry(p, bits), w, level as int))
                } else {
                    old(self).translate_for(q, w)
                },
    {
        match self.get_by_pid(pid) {
            None => {
                assert forall|q: u16, w: u64| #[trigger] self.translate_for(q, w) == old(self).translate_for(q, w) by {}
                None
            },
            Some(i) => {
                let r = crate::page::map(&mut self.procs[i].table, v, p, bits, level);
                assert(self.states() =~= old(self).states());
                assert(self.pids() =~= old(self).pids());
                assert(self.frames() =~= old(self).frames());
                proof {
                    lemma_same_shape_wf(*old(self), *self);
                }
                proof {
                    let j = choose|j: int| 0 <= j < self.len() && self.pids()[j] == pid;
                    assert(self.pids()[j] == self.procs@[j].pid);
                    assert(self.pids()[i as int] == self.procs@[i as int].pid);
                    assert(i == j);
                    assert(self.tables()[i as int] == self.procs@[i as int].table);
                    assert(old(self).tables()[i as int] == old(self).procs@[i as int].table);
                    assert(old(self).table_of(pid) == old(self).procs@[i as int].table);
                    if r is Err {
                        assert(self.tables() =~= old(self).tables());
                    }
                    assert forall|q: u16, w: u64|
                        #[trigger] self.translate_for(q, w) == if q == pid && r is Ok && same_path(w, v, 2, level as int) {
                            Some(leaf_addr(leaf_entry(p, bits), w, level as int))
                        } else {
                            old(self).translate_for(q, w)
                        } by {
                        if self.pids().contains(q) {
                            let a = choose|a: int| 0 <= a < self.len() && self.pids()[a] == q;
                            assert(old(self).pids()[a] == q);
                            assert(old(self).pids().contains(q));
                            let b = choose|b: int| 0 <= b < old(self).len() && old(self).pids()[b] == q;
                            assert(old(self).pids()[b] == old(self).procs@[b].pid);
                            assert(old(self).pids()[a] == old(self).procs@[a].pid);
                            assert(a == b);
                            assert(self.procs@[i as int].pid == pid);
                            assert(self.pids()[a] == self.procs@[a].pid);
                            assert(self.tables()[a] == self.procs@[a].table);
                            assert(old(self).tables()[a] == old(self).procs@[a].table);
                            if a != i {
                                assert(self.procs@[a] == old(self).procs@[a]);
                                assert(q != pid);
                            } else {
                                assert(q == pid);
                            }
                        }
                    }
                }
                Some(r)
            },
        }
    }

    /// Round-robin selection at time `now`: the first eligible process after
    /// the current one becomes current and ready, and its index is returned.
    pub fn schedule(&mut self, now: u64) -> (r: Option<usize>)
        requires
            old(self).wf(),
        ensures
            schedule_post(*old(self), now, *final(self), r),
    {
        let len = self.procs.len();
        if len == 0 {
            return None;
        }
        let start = if self.current + 1 >= len { 0 } else { self.current + 1 };
        let mut o: usize = 0;
        while o < len
            invariant
                self == old(self),
                old(self).wf(),
                len == self.procs@.len(),
                len > 0,
                start < len,
                start == ring_next(old(self).cur(), len as int),
                o <= len,
                pick(self.states(), start as int, now, 0) == pick(self.states(), start as int, now, o as int),
            decreases len - o,
        {
            let idx = if o >= len - start { o - (len - start) } else { start + o };
            let ok = match self.procs[idx].state {
                ProcessState::Running => true,
                ProcessState::Sleeping(w) => w <= now,
                _ => false,
            };
            assert(self.states()[idx as int] == self.procs@[idx as int].state);
            if ok {
                self.procs[idx].state = ProcessState::Running;
                self.current = idx;
                assert(self.states() =~= old(self).states().update(idx as int, ProcessState::Running));
                assert(self.pids() =~= old(self).pids());
                assert(self.frames() =~= old(self).frames());
                assert(self.tables() =~= old(self).tables());
                proof {
                    lemma_same_shape_wf(*old(self), *self);
                }
                return Some(idx);
            }
            o = o + 1;
        }
        None
    }
}

/// The round-robin position after removing slot `i`, leaving `len` slots:
/// it stays on the same process, or, when that process was the one removed,
/// moves back one slot so that the next decision starts with its successor.
pub open spec fn cur_after_removal(cur: int, i: int, len: int) -> int {
    if cur > i {
        cur - 1
    } else if cur == i {
        if i > 0 {
            i - 1
        } else if len > 0 {
            len - 1
        } else {
            0
        }
    } else {
        cur
    }
}

/// Process `pid` leaves the list `s` for good, giving `t`; `r` says whether
/// it was there.
pub open spec fn delete_post(s: ProcessList, pid: u16, t: ProcessList, r: bool) -> bool {
    &&& t.wf()
    &&& r == s.pids().contains(pid)
    &&& !t.pids().contains(pid)
    &&& t.pid_counter() == s.pid_counter()
    &&& r ==> exists|i: int|
        0 <= i < s.len() && s.pids()[i] == pid && t.pids() == s.pids().remove(i) && t.states()
            == s.states().remove(i) && t.frames() == s.frames().remove(i) && t.tables()
            == s.tables().remove(i) && t.cur() == cur_after_removal(s.cur(), i, t.len() as int)
    &&& !r ==> t == s
}

/// Process `pid` gets state `st` when it exists, and nothing else changes.
pub open spec fn state_change_post(s: ProcessList, pid: u16, st: ProcessState, t: ProcessList, r: bool) -> bool {
    &&& t.wf()
    &&& r == s.pids().contains(pid)
    &&& t.pids() == s.pids()
    &&& t.frames() == s.frames()
    &&& t.tables() == s.tables()
    &&& t.cur() == s.cur()
    &&& t.pid_counter() == s.pid_counter()
    &&& r ==> exists|i: int| 0 <= i < s.len() && s.pids()[i] == pid && t.states() == s.states().update(i, st)
    &&& !r ==> t.states() == s.states()
}

/// What `schedule(now)` does to the list `s`, ending in `t` with result `r`.
pub open spec fn schedule_post(s: ProcessList, now: u64, t: ProcessList, r: Option<usize>) -> bool {
    &&& t.wf()
    &&& t.pids() == s.pids()
    &&& t.frames() == s.frames()
    &&& t.tables() == s.tables()
    &&& t.pid_counter() == s.pid_counter()
    &&& (s.len() == 0 ==> r is None)
    &&& (s.len() > 0 ==> r == match pick(s.states(), ring_next(s.cur(), s.len() as int), now, 0) {
        Some(i) => Some(i as usize),
        None => None::<usize>,
    })
    &&& match r {
        Some(i) => {
            &&& t.states() == s.states().update(i as int, ProcessState::Running)
            &&& t.cur() == i
        },
        None => {
            &&& t.states() == s.states()
            &&& t.cur() == s.cur()
        },
    }
}

} // verus!

verus! {

/// A list whose processes keep their ids, position and id counter, and
/// whose tables are unchanged or still well formed, is well formed.
proof fn lemma_same_shape_wf(s: ProcessList, t: ProcessList)
    requires
        s.wf(),
        t.procs@.len() == s.procs@.len(),
        t.pids() == s.pids(),
        t.current == s.current || t.current < t.procs@.len(),
        t.next_pid == s.next_pid,
        t.tables() == s.tables() || forall|a: int| 0 <= a < t.procs@.len() ==> (#[trigger] t.procs@[a]).table.wf(),
    ensures
        t.wf(),
{
    assert forall|a: int| 0 <= a < t.procs@.len() implies (#[trigger] t.procs@[a]).table.wf() by {
        if t.tables() == s.tables() {
            assert(t.tables()[a] == s.tables()[a]);
        }
    }
    assert forall|a: int| 0 <= a < t.procs@.len() implies (#[trigger] t.procs@[a]).pid < t.next_pid by {
        assert(t.pids()[a] == s.pids()[a]);
        assert(t.procs@[a].pid == t.pids()[a]);
        assert(s.procs@[a].pid == s.pids()[a]);
    }
    assert forall|a: int, b: int| 0 <= a < b < t.procs@.len() implies (#[trigger] t.procs@[a]).pid != (#[trigger] t.procs@[b]).pid by {
        assert(t.pids()[a] == s.pids()[a]);
        assert(t.pids()[b] == s.pids()[b]);
        assert(t.procs@[a].pid == t.pids()[a]);
        assert(s.procs@[a].pid == s.pids()[a]);
        assert(t.procs@[b].pid == t.pids()[b]);
        assert(s.procs@[b].pid == s.pids()[b]);
    }
}

/// `x` brought back into a ring of `k` slots, for `x < 2 * k`.
pub open spec fn wrap(x: int, k: int) -> int {
    if x >= k {
        x - k
    } else {
        x
    }
}

proof fn lemma_round_robin_steps(
    states: Seq<ProcessList>,
    nows: Seq<u64>,
    picks: Seq<Option<usize>>,
    j: int,
)
    requires
        states.len() == picks.len() + 1,
        nows.len() == picks.len(),
        picks.len() == states[0].len(),
        states[0].len() > 0,
        states[0].wf(),
        forall|i: int| 0 <= i < states[0].len() ==> states[0].states()[i] == ProcessState::Running,
        forall|j: int| 0 <= j < picks.len() ==> schedule_post(states[j], nows[j], states[j + 1], picks[j]),
        0 <= j <= picks.len(),
    ensures
        states[j].states() == states[0].states(),
        states[j].cur() == wrap(states[0].cur() + j, picks.len() as int),
        j < picks.len() ==> picks[j] == Some(wrap(states[0].cur() + j + 1, picks.len() as int) as usize),
    decreases j,
{
    let k = picks.len() as int;
    assert(states[0].cur() < k);
    if j > 0 {
        lemma_round_robin_steps(states, nows, picks, j - 1);
        let s = states[j - 1];
        let start = ring_next(s.cur(), k);
        assert(s.len() == k);
        assert(pick(s.states(), start, nows[j - 1], 0) == Some(start));
        assert(schedule_post(states[j - 1], nows[j - 1], states[j], picks[j - 1]));
        assert(picks[j - 1] == Some(start as usize));
        assert(states[j].cur() == start);
        assert(states[j].states() =~= states[0].states());
    }
    if j < k {
        let s = states[j];
        let start = ring_next(s.cur(), k);
        assert(s.len() == k);
        assert(pick(s.states(), start, nows[j], 0) == Some(start));
        assert(schedule_post(states[j], nows[j], states[j + 1], picks[j]));
    }
}

/// Round robin is fair: when all `k` processes are ready, `k` consecutive
/// decisions pick every one of them at least once.
pub proof fn lemma_round_robin_visits_all(
    states: Seq<ProcessList>,
    nows: Seq<u64>,
    picks: Seq<Option<usize>>,
)
    requires
        states.len() == picks.len() + 1,
        nows.len() == picks.len(),
        picks.len() == states[0].len(),
        states[0].len() > 0,
        states[0].wf(),
        forall|i: int| 0 <= i < states[0].len() ==> states[0].states()[i] == ProcessState::Running,
        forall|j: int| 0 <= j < picks.len() ==> schedule_post(states[j], nows[j], states[j + 1], picks[j]),
    ensures
        forall|i: usize| 0 <= i < states[0].len() ==> #[trigger] picks.contains(Some(i)),
{
    let k = picks.len() as int;
    let c0 = states[0].cur();
    assert forall|i: usize| 0 <= i < states[0].len() implies #[trigger] picks.contains(Some(i)) by {
        let j = if i > c0 { i - c0 - 1 } else { i + k - c0 - 1 };
        lemma_round_robin_steps(states, nows, picks, j);
        assert(picks[j] == Some(i));
    }
}

/// A process that is gone from the list is never picked again, however many
/// scheduling decisions follow: no later list holds it and no decision
/// chooses it.
pub proof fn lemma_removed_never_scheduled_again(
    lists: Seq<ProcessList>,
    nows: Seq<u64>,
    picks: Seq<Option<usize>>,
    pid: u16,
)
    requires
        lists.len() == picks.len() + 1,
        nows.len() == picks.len(),
        !lists[0].pids().contains(pid),
        forall|j: int| 0 <= j < picks.len() ==> schedule_post(lists[j], nows[j], lists[j + 1], picks[j]),
    ensures
        forall|j: int| 0 <= j < lists.len() ==> !(#[trigger] lists[j]).pids().contains(pid),
        forall|j: int|
            0 <= j < picks.len() ==> (#[trigger] picks[j] matches Some(i) ==> lists[j + 1].pids()[i as int] != pid),
    decreases picks.len(),
{
    if picks.len() > 0 {
        let n = picks.len() - 1;
        lemma_removed_never_scheduled_again(lists.take(n + 1), nows.take(n), picks.take(n), pid);
        assert(lists.take(n + 1)[n] == lists[n]);
        assert(schedule_post(lists[n], nows[n], lists[n + 1], picks[n]));
        assert(!lists[n].pids().contains(pid)) by {
            assert(lists.take(n + 1)[n as int] == lists[n as int]);
        }
        lemma_removed_never_scheduled(lists[n], pid, nows[n], lists[n + 1], picks[n]);
        assert forall|j: int| 0 <= j < lists.len() implies !(#[trigger] lists[j]).pids().contains(pid) by {
            if j <= n {
                assert(lists.take(n + 1)[j] == lists[j]);
            }
        }
        assert forall|j: int|
            0 <= j < picks.len() implies (#[trigger] picks[j] matches Some(i) ==> lists[j + 1].pids()[i as int] != pid) by {
            if j < n {
                assert(picks.take(n)[j] == picks[j]);
                assert(lists.take(n + 1)[j + 1] == lists[j + 1]);
            }
        }
    }
}

/// A process that is gone from the list is never picked again: scheduling
/// neither brings it back nor chooses it.
pub proof fn lemma_removed_never_scheduled(s: ProcessList, pid: u16, now: u64, t: ProcessList, r: Option<usize>)
    requires
        !s.pids().contains(pid),
        schedule_post(s, now, t, r),
    ensures
        !t.pids().contains(pid),
        r matches Some(i) ==> i < t.len() && t.pids()[i as int] != pid,
{
    if let Some(i) = r {
        let p = pick(s.states(), ring_next(s.cur(), s.len() as int), now, 0);
        lemma_pick_in_range(s.states(), ring_next(s.cur(), s.len() as int), now, 0);
        assert(s.pids()[i as int] != pid);
    }
}

proof fn lemma_pick_in_range(st: Seq<ProcessState>, start: int, now: u64, o: int)
    requires
        0 <= start < st.len(),
    ensures
        pick(st, start, now, o) matches Some(i) ==> 0 <= i < st.len(),
    decreases st.len() - o,
{
    if 0 <= o < st.len() && !eligible(st[ring(start, o, st.len() as int)], now) {
        lemma_pick_in_range(st, start, now, o + 1);
    }
}

} // verus!
