//! The table of processes and the round-robin scheduler.

use vstd::prelude::*;
use crate::interrupts::trapframe::TrapFrame;
use crate::memory::stack_allocator::StackAllocator;
use crate::paging::ActivePageTable;
use crate::process::process::{Pid, Process, Status, KERNEL_STACK_PAGES};

verus! {

/// The process that runs after `current`: the one with the smallest number
/// above that of `current` or, where there is none, the one with the
/// smallest number of all. `pids` holds the numbers in rising order.
pub open spec fn next_pid(pids: Seq<Pid>, current: Pid) -> Pid {
    if exists|i: int| 0 <= i < pids.len() && pids[i] > current {
        pids[choose|i: int| 0 <= i < pids.len() && pids[i] > current && forall|j: int| 0 <= j < i ==> pids[j] <= current]
    } else {
        pids[0]
    }
}

/// The smallest number that is not in `pids`, which holds numbers in rising
/// order: the first index at which the number is not the index.
pub open spec fn first_free_pid(pids: Seq<Pid>) -> Pid {
    if exists|i: int| 0 <= i < pids.len() && pids[i] != i {
        (choose|i: int| 0 <= i < pids.len() && pids[i] != i && forall|j: int| 0 <= j < i ==> pids[j] == j) as Pid
    } else {
        pids.len() as Pid
    }
}

/// The numbers rise strictly.
pub open spec fn strictly_rising(pids: Seq<Pid>) -> bool {
    forall|i: int, j: int| #![trigger pids[i], pids[j]] 0 <= i < j < pids.len() ==> pids[i] < pids[j]
}

/// The process table: the processes in the order of their numbers, the
/// number of the one that is running, and the loaded page table, with which
/// address spaces are built.
pub struct Processor {
    pub active_table: ActivePageTable,
    pub procs: Vec<Process>,
    pub current_pid: Pid,
}

/// What a switch from `before` to `after` does when the stack pointer of the
/// interrupted process is `rsp_in`: where the process that runs next is
/// another one, the interrupted process becomes ready and keeps `rsp_in`,
/// the other one becomes running, and `rsp_out` is the stack pointer that
/// was kept for it. Where it is the same one nothing changes. No other
/// process is touched.
pub open spec fn switched(before: Processor, after: Processor, rsp_in: u64, rsp_out: u64) -> bool {
    let next = next_pid(before.pids(), before.current_pid);
    &&& after.current_pid == next
    &&& after.active_table == before.active_table
    &&& after.procs@.len() == before.procs@.len()
    &&& next == before.current_pid ==> after.procs@ == before.procs@ && rsp_out == rsp_in
    &&& next != before.current_pid ==> forall|i: int|
        0 <= i < before.procs@.len() ==> #[trigger] after.procs@[i] == (if before.procs@[i].pid
            == before.current_pid {
            Process { status: Status::Ready, rsp: rsp_in, ..before.procs@[i] }
        } else if before.procs@[i].pid == next {
            Process { status: Status::Running, ..before.procs@[i] }
        } else {
            before.procs@[i]
        })
    &&& next != before.current_pid ==> exists|i: int|
        0 <= i < before.procs@.len() && (#[trigger] before.procs@[i]).pid == next && rsp_out
            == before.procs@[i].rsp
}

/// What a fork does to the table: a process is put in under the smallest
/// free number, ready to run from the state `tf` on a new stack of its own.
/// No other process is touched.
pub open spec fn forked(
    before: Processor,
    after: Processor,
    tf: TrapFrame,
    stacks_before: StackAllocator,
    stacks_after: StackAllocator,
) -> bool {
    let pid = first_free_pid(before.pids());
    &&& after.current_pid == before.current_pid
    &&& after.active_table == before.active_table
    &&& after.procs@.len() == before.procs@.len() + 1
    &&& forall|i: int| 0 <= i < pid ==> #[trigger] after.procs@[i] == before.procs@[i]
    &&& forall|i: int|
        pid < i < after.procs@.len() ==> #[trigger] after.procs@[i] == before.procs@[i - 1]
    &&& after.procs@[pid as int].pid == pid
    &&& after.procs@[pid as int].kstack.spec_bottom() == (stacks_before.next_page() + 1) * 4096
    &&& after.procs@[pid as int].kstack.spec_top() == (stacks_before.next_page() + 1
        + KERNEL_STACK_PAGES) * 4096
    &&& after.procs@[pid as int].is_runnable_from(
        Process::forked_frame(tf, after.procs@[pid as int].kstack.spec_top()),
    )
    &&& stacks_after.next_page() == stacks_before.next_page() + 1 + KERNEL_STACK_PAGES
    &&& stacks_after.last_page() == stacks_before.last_page()
}

/// Where the number at index `i` is the first above `current`, it is the
/// number of the process that runs next, and the smallest above `current`.
pub proof fn lemma_first_above(pids: Seq<Pid>, current: Pid, i: int)
    requires
        strictly_rising(pids),
        0 <= i < pids.len(),
        pids[i] > current,
        forall|j: int| 0 <= j < i ==> pids[j] <= current,
    ensures
        next_pid(pids, current) == pids[i],
        forall|p: Pid| pids.contains(p) && p > current ==> pids[i] <= p,
{
    let c = choose|c: int|
        0 <= c < pids.len() && pids[c] > current && forall|j: int| 0 <= j < c ==> pids[j] <= current;
    if c < i {
        assert(pids[c] <= current);
    }
    if i < c {
        assert(pids[i] <= current);
    }
    assert forall|p: Pid| pids.contains(p) && p > current implies pids[i] <= p by {
        let k = choose|k: int| 0 <= k < pids.len() && pids[k] == p;
        if k < i {
            assert(pids[k] <= current);
        } else if k > i {
            assert(pids[i] < pids[k]);
        }
    }
}

/// Where no number lies above `current`, the process that runs next is the
/// one with the smallest number.
pub proof fn lemma_none_above(pids: Seq<Pid>, current: Pid)
    requires
        strictly_rising(pids),
        pids.len() > 0,
        forall|j: int| 0 <= j < pids.len() ==> pids[j] <= current,
    ensures
        next_pid(pids, current) == pids[0],
        forall|p: Pid| pids.contains(p) ==> pids[0] <= p && p <= current,
{
    assert forall|p: Pid| pids.contains(p) implies pids[0] <= p && p <= current by {
        let k = choose|k: int| 0 <= k < pids.len() && pids[k] == p;
        if k > 0 {
            assert(pids[0] < pids[k]);
        }
    }
}

/// The index of the first of the first `n` numbers that lies above
/// `current`, or `n` where none does.
pub open spec fn first_above(pids: Seq<Pid>, current: Pid, n: int) -> int
    decreases n,
{
    if n <= 0 {
        0
    } else {
        let before = first_above(pids, current, n - 1);
        if before < n - 1 {
            before
        } else if pids[n - 1] > current {
            n - 1
        } else {
            n
        }
    }
}

/// The first of the first `n` numbers that lies above `current` is the
/// first: the numbers before it do not lie above.
pub proof fn lemma_first_above_is_first(pids: Seq<Pid>, current: Pid, n: int)
    requires
        0 <= n <= pids.len(),
    ensures
        0 <= first_above(pids, current, n) <= n,
        first_above(pids, current, n) < n ==> pids[first_above(pids, current, n)] > current,
        forall|j: int| 0 <= j < first_above(pids, current, n) ==> pids[j] <= current,
    decreases n,
{
    if n > 0 {
        lemma_first_above_is_first(pids, current, n - 1);
    }
}

/// The scheduler goes round in the order of the numbers.
///
/// The process that runs next is one of the table. Where a process has a
/// number above that of the current one, it is the one with the smallest
/// such number; where none has, it is the one with the smallest number of
/// all. Where the current process is the only one, it is the one that runs
/// next.
pub proof fn lemma_round_robin(pids: Seq<Pid>, current: Pid)
    requires
        strictly_rising(pids),
        pids.len() > 0,
    ensures
        pids.contains(next_pid(pids, current)),
        (exists|p: Pid| pids.contains(p) && p > current) ==> next_pid(pids, current) > current
            && forall|p: Pid| pids.contains(p) && p > current ==> next_pid(pids, current) <= p,
        (forall|p: Pid| pids.contains(p) ==> p <= current) ==> forall|p: Pid|
            pids.contains(p) ==> next_pid(pids, current) <= p,
        pids.len() == 1 && pids.contains(current) ==> next_pid(pids, current) == current,
{
    let n = pids.len() as int;
    lemma_first_above_is_first(pids, current, n);
    let i = first_above(pids, current, n);
    if i < n {
        lemma_first_above(pids, current, i);
        assert(pids[i] == next_pid(pids, current));
    } else {
        lemma_none_above(pids, current);
        assert(pids[0] == next_pid(pids, current));
        if exists|p: Pid| pids.contains(p) && p > current {
            let p = choose|p: Pid| pids.contains(p) && p > current;
            let k = choose|k: int| 0 <= k < pids.len() && pids[k] == p;
            assert(pids[k] <= current);
        }
    }
    if pids.len() == 1 && pids.contains(current) {
        let k = choose|k: int| 0 <= k < pids.len() && pids[k] == current;
        assert(k == 0);
    }
}

/// Putting a process that was forked into the table under the smallest free
/// number is what a fork does to the table.
pub proof fn lemma_forked(
    before: Processor,
    after: Processor,
    new: Process,
    tf: TrapFrame,
    stacks_before: StackAllocator,
    stacks_after: StackAllocator,
)
    requires
        first_free_pid(before.pids()) <= before.procs@.len(),
        after.procs@ == before.procs@.insert(
            first_free_pid(before.pids()) as int,
            Process { pid: first_free_pid(before.pids()), ..new },
        ),
        after.current_pid == before.current_pid,
        after.active_table == before.active_table,
        new.kstack.spec_bottom() == (stacks_before.next_page() + 1) * 4096,
        new.kstack.spec_top() == (stacks_before.next_page() + 1 + KERNEL_STACK_PAGES) * 4096,
        new.is_runnable_from(Process::forked_frame(tf, new.kstack.spec_top())),
        stacks_after.next_page() == stacks_before.next_page() + 1 + KERNEL_STACK_PAGES,
        stacks_after.last_page() == stacks_before.last_page(),
    ensures
        forked(before, after, tf, stacks_before, stacks_after),
{
    let pid = first_free_pid(before.pids());
    let added = Process { pid, ..new };
    assert(after.procs@[pid as int] == added);
}

impl Processor {
    /// The numbers of the processes, in the order of the table.
    pub open spec fn pids(&self) -> Seq<Pid> {
        Seq::new(self.procs@.len(), |i: int| self.procs@[i].pid)
    }

    /// The numbers of the processes rise strictly, and the running process
    /// is in the table unless the table is empty.
    pub open spec fn wf(&self) -> bool {
        &&& strictly_rising(self.pids())
        &&& self.procs@.len() > 0 ==> self.pids().contains(self.current_pid)
        &&& self.procs@.len() == 0 ==> self.current_pid == 0
    }

    /// The running process is marked as running, and no other is.
    pub open spec fn one_running(&self) -> bool {
        forall|i: int|
            0 <= i < self.procs@.len() ==> ((#[trigger] self.procs@[i]).status == Status::Running
                <==> self.procs@[i].pid == self.current_pid)
    }

    /// An empty table, with `act` as the loaded page table.
    pub fn new(act: ActivePageTable) -> (processor: Processor)
        ensures
            processor.wf(),
            processor.active_table == act,
            processor.procs@.len() == 0,
            processor.current_pid == 0,
            processor.one_running(),
    {
        Processor { active_table: act, procs: Vec::new(), current_pid: 0 }
    }

    /// The smallest number that no process has.
    pub fn alloc_pid(&self) -> (pid: Pid)
        requires
            self.wf(),
        ensures
            pid == first_free_pid(self.pids()),
            !self.pids().contains(pid),
            forall|p: Pid| p < pid ==> self.pids().contains(p),
            pid <= self.procs@.len(),
            forall|i: int| 0 <= i < pid ==> self.pids()[i] == i,
            pid < self.procs@.len() ==> self.pids()[pid as int] > pid,
    {
        let mut next: Pid = 0;
        let mut i: usize = 0;
        while i < self.procs.len()
            invariant
                self.wf(),
                i <= self.procs@.len(),
                next == i,
                forall|j: int| 0 <= j < i ==> self.pids()[j] == j,
            decreases self.procs@.len() - i,
        {
            let pid = self.procs[i].pid;
            assert(self.pids()[i as int] == pid);
            if pid != next {
                proof {
                    self.lemma_first_gap(i as int);
                }
                return next;
            } else {
                next = pid + 1;
            }
            i += 1;
        }
        proof {
            let pids = self.pids();
            assert(!(exists|i: int| 0 <= i < pids.len() && pids[i] != i));
            assert forall|p: Pid| p < next implies pids.contains(p) by {
                assert(pids[p as int] == p);
            }
            if pids.contains(next) {
                let k = choose|k: int| 0 <= k < pids.len() && pids[k] == next;
                assert(pids[k] == k);
            }
        }
        next
    }

    /// Where the numbers up to index `i` are their indices and the one at
    /// `i` is not, `i` is the smallest free number.
    proof fn lemma_first_gap(&self, i: int)
        requires
            self.wf(),
            0 <= i < self.procs@.len(),
            forall|j: int| 0 <= j < i ==> self.pids()[j] == j,
            self.pids()[i] != i,
        ensures
            first_free_pid(self.pids()) == i,
            !self.pids().contains(i as Pid),
            forall|p: Pid| p < i ==> self.pids().contains(p),
            self.pids()[i] > i,
    {
        let pids = self.pids();
        let c = choose|c: int|
            0 <= c < pids.len() && pids[c] != c && forall|j: int| 0 <= j < c ==> pids[j] == j;
        assert(0 <= i < pids.len() && pids[i] != i && forall|j: int| 0 <= j < i ==> pids[j] == j);
        if c < i {
            assert(pids[c] == c);
        }
        if i < c {
            assert(pids[i] == i);
        }
        assert forall|p: Pid| p < i implies pids.contains(p) by {
            assert(pids[p as int] == p);
        }
        if i > 0 {
            assert(pids[i - 1] < pids[i]);
        }
        if pids.contains(i as Pid) {
            let k = choose|k: int| 0 <= k < pids.len() && pids[k] == i;
            if k < i {
                assert(pids[k] == k);
            } else if k > i {
                assert(pids[i] < pids[k]);
            }
        }
    }

    /// Puts `process` into the table under the smallest number that no
    /// process has.
    pub fn add(&mut self, process: Process)
        requires
            old(self).wf(),
            old(self).procs@.len() < usize::MAX,
        ensures
            final(self).wf(),
            final(self).current_pid == old(self).current_pid,
            final(self).active_table == old(self).active_table,
            final(self).procs@ == old(self).procs@.insert(
                first_free_pid(old(self).pids()) as int,
                Process { pid: first_free_pid(old(self).pids()), ..process },
            ),
            !old(self).pids().contains(first_free_pid(old(self).pids())),
            first_free_pid(old(self).pids()) <= old(self).procs@.len(),
            old(self).one_running() && (process.status == Status::Running <==> first_free_pid(
                old(self).pids(),
            ) == old(self).current_pid) ==> final(self).one_running(),
    {
        let pid = self.alloc_pid();
        let mut process = process;
        process.pid = pid;
        let ghost before = self.pids();
        self.procs.insert(pid, process);
        proof {
            let after = self.pids();
            assert forall|i: int, j: int| 0 <= i < j < after.len() implies after[i] < after[j] by {
                if j < pid {
                    assert(before[i] == i && before[j] == j);
                } else if j == pid {
                    assert(before[i] == i);
                } else if i < pid {
                    assert(before[i] == i);
                    assert(before[j - 1] >= before[pid as int]) by {
                        if j - 1 > pid {
                            assert(before[pid as int] < before[j - 1]);
                        }
                    }
                } else if i == pid {
                    assert(before[j - 1] >= before[pid as int]) by {
                        if j - 1 > pid {
                            assert(before[pid as int] < before[j - 1]);
                        }
                    }
                } else {
                    assert(before[i - 1] < before[j - 1]);
                }
            }
            if old(self).procs@.len() > 0 {
                let k = choose|k: int| 0 <= k < before.len() && before[k] == self.current_pid;
                if k < pid {
                    assert(after[k] == self.current_pid);
                } else {
                    assert(after[k + 1] == self.current_pid);
                }
            } else {
                assert(after[0] == 0);
            }
            if old(self).one_running() && (process.status == Status::Running <==> pid == old(self).current_pid) {
                assert forall|i: int| 0 <= i < self.procs@.len() implies ((
                #[trigger] self.procs@[i]).status == Status::Running <==> self.procs@[i].pid
                    == self.current_pid) by {
                    if i < pid {
                        assert(self.procs@[i] == old(self).procs@[i]);
                    } else if i > pid {
                        assert(self.procs@[i] == old(self).procs@[i - 1]);
                    }
                }
            }
        }
    }

    /// The index in the table of the process with the number `pid`.
    fn index_of(&self, pid: Pid) -> (index: usize)
        requires
            self.wf(),
            self.pids().contains(pid),
        ensures
            index < self.procs@.len(),
            self.procs@[index as int].pid == pid,
    {
        let mut i: usize = 0;
        while i < self.procs.len()
            invariant
                i <= self.procs@.len(),
                forall|j: int| 0 <= j < i ==> self.pids()[j] != pid,
                self.pids().contains(pid),
            decreases self.procs@.len() - i,
        {
            if self.procs[i].pid == pid {
                return i;
            }
            assert(self.pids()[i as int] != pid);
            i += 1;
        }
        proof {
            let k = choose|k: int| 0 <= k < self.pids().len() && self.pids()[k] == pid;
            assert(self.pids()[k] != pid);
        }
        0
    }

    /// The number of the process that runs next.
    pub fn find_next(&self) -> (pid: Pid)
        requires
            self.wf(),
            self.procs@.len() > 0,
        ensures
            pid == next_pid(self.pids(), self.current_pid),
            self.pids().contains(pid),
            // The smallest number above the current one, where there is one.
            pid > self.current_pid ==> forall|p: Pid|
                self.pids().contains(p) && p > self.current_pid ==> pid <= p,
            // Else the smallest number of all, and none lies above.
            pid <= self.current_pid ==> forall|p: Pid|
                self.pids().contains(p) ==> pid <= p && p <= self.current_pid,
    {
        let ghost pids = self.pids();
        let mut i: usize = 0;
        while i < self.procs.len()
            invariant
                self.wf(),
                pids == self.pids(),
                i <= self.procs@.len(),
                forall|j: int| 0 <= j < i ==> pids[j] <= self.current_pid,
            decreases self.procs@.len() - i,
        {
            let pid = self.procs[i].pid;
            assert(pids[i as int] == pid);
            if pid > self.current_pid {
                proof {
                    lemma_first_above(pids, self.current_pid, i as int);
                }
                return pid;
            }
            i += 1;
        }
        let pid = self.procs[0].pid;
        proof {
            assert(pids[0] == pid);
            lemma_none_above(pids, self.current_pid);
        }
        pid
    }

    /// Makes the process with the number `pid` the running one.
    fn switch_to(&mut self, pid: Pid, rsp: &mut u64)
        requires
            old(self).wf(),
            old(self).pids().contains(pid),
            pid == next_pid(old(self).pids(), old(self).current_pid),
        ensures
            final(self).wf(),
            final(self).pids() == old(self).pids(),
            switched(*old(self), *final(self), *old(rsp), *final(rsp)),
            old(self).one_running() ==> final(self).one_running(),
    {
        if pid == self.current_pid {
            return;
        }
        let current = self.index_of(self.current_pid);
        let target = self.index_of(pid);
        let ghost before = *self;
        self.procs[current].status = Status::Ready;
        self.procs[current].rsp = *rsp;
        self.procs[target].status = Status::Running;
        *rsp = self.procs[target].rsp;
        self.current_pid = pid;
        proof {
            assert(self.pids() =~= before.pids());
            assert forall|i: int| 0 <= i < before.procs@.len() implies #[trigger] self.procs@[i] == (
            if before.procs@[i].pid == before.current_pid {
                Process { status: Status::Ready, rsp: *old(rsp), ..before.procs@[i] }
            } else if before.procs@[i].pid == pid {
                Process { status: Status::Running, ..before.procs@[i] }
            } else {
                before.procs@[i]
            }) by {
                assert(before.pids()[i] == before.procs@[i].pid);
                assert(before.pids()[current as int] == before.current_pid);
                assert(before.pids()[target as int] == pid);
                if i != current && before.procs@[i].pid == before.current_pid {
                    if i < current {
                        assert(before.pids()[i] < before.pids()[current as int]);
                    } else {
                        assert(before.pids()[current as int] < before.pids()[i]);
                    }
                }
                if i != target && before.procs@[i].pid == pid {
                    if i < target {
                        assert(before.pids()[i] < before.pids()[target as int]);
                    } else {
                        assert(before.pids()[target as int] < before.pids()[i]);
                    }
                }
            }
            assert(self.pids()[target as int] == pid);
        }
    }

    /// Picks the process that runs next, in the order of the numbers and
    /// starting over after the highest, and makes it the running one.
    pub fn schedule(&mut self, rsp: &mut u64)
        requires
            old(self).wf(),
            old(self).procs@.len() > 0,
        ensures
            final(self).wf(),
            final(self).current_pid == next_pid(old(self).pids(), old(self).current_pid),
            final(self).pids() == old(self).pids(),
            switched(*old(self), *final(self), *old(rsp), *final(rsp)),
            old(self).one_running() ==> final(self).one_running(),
            old(self).procs@.len() == 1 ==> final(self).procs@ == old(self).procs@ && *final(rsp)
                == *old(rsp) && final(self).current_pid == old(self).current_pid,
    {
        let pid = self.find_next();
        proof {
            if self.procs@.len() == 1 {
                let pids = self.pids();
                let k = choose|k: int| 0 <= k < pids.len() && pids[k] == self.current_pid;
                let m = choose|m: int| 0 <= m < pids.len() && pids[m] == pid;
                assert(k == 0 && m == 0);
            }
        }
        self.switch_to(pid, rsp);
    }

    /// Fork the current process: the fork is put into the table, ready to
    /// run from the state `tf` on a kernel stack of its own.
    pub fn fork(&mut self, tf: &TrapFrame, stacks: &mut StackAllocator)
        requires
            old(self).wf(),
            old(self).procs@.len() > 0,
            old(self).procs@.len() < usize::MAX,
            old(stacks).wf(),
            old(stacks).remaining() > KERNEL_STACK_PAGES,
        ensures
            final(self).wf(),
            final(stacks).wf(),
            forked(*old(self), *final(self), *tf, *old(stacks), *final(stacks)),
            old(self).one_running() ==> final(self).one_running(),
    {
        let current = self.index_of(self.current_pid);
        let new = self.procs[current].fork(tf, stacks);
        let ghost forked_process = new;
        proof {
            assert(self.pids()[current as int] == self.current_pid);
        }
        self.add(new);
        proof {
            lemma_forked(*old(self), *self, forked_process, *tf, *old(stacks), *stacks);
        }
    }

    /// The number of the running process.
    pub fn current_pid(&self) -> (pid: Pid)
        ensures
            pid == self.current_pid,
    {
        self.current_pid
    }

    /// The process with the number `pid`, if there is one.
    pub fn get(&self, pid: Pid) -> (process: Option<&Process>)
        requires
            self.wf(),
        ensures
            match process {
                Some(p) => p.pid == pid && exists|i: int|
                    0 <= i < self.procs@.len() && #[trigger] self.procs@[i] == *p,
                None => !self.pids().contains(pid),
            },
    {
        let mut i: usize = 0;
        while i < self.procs.len()
            invariant
                i <= self.procs@.len(),
                forall|j: int| 0 <= j < i ==> self.pids()[j] != pid,
            decreases self.procs@.len() - i,
        {
            if self.procs[i].pid == pid {
                return Some(&self.procs[i]);
            }
            assert(self.pids()[i as int] != pid);
            i += 1;
        }
        None
    }
}

} // verus!
