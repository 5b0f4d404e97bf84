//! Kernel state: physical frames, task table, the running task, and the
//! address-space manager that maps and unmaps page ranges of a task.
use vstd::prelude::*;

use crate::config::{MAX_SYSCALL_NUM, PAGE_SIZE};
use crate::copy::frames_fit;
use crate::frame::{free_count, FrameOwner, FrameTable, PhysMem};
use crate::page_table::{MapPermission, PageTableEntry};
use crate::task::{bumped, TaskControlBlock, TaskStatus};

verus! {

/// The whole kernel state that the syscalls read and change.
pub struct Kernel {
    pub frames: FrameTable,
    pub mem: PhysMem,
    pub tasks: Vec<TaskControlBlock>,
    pub current: Option<usize>,
}

impl Kernel {
    /// Page table of task `t`.
    pub open spec fn pt(&self, t: int) -> Map<usize, PageTableEntry> {
        self.tasks@[t].page_table@
    }

    /// Frame ownership: every mapped page owns the frame behind it, and
    /// every taken frame backs exactly the page that owns it.
    pub open spec fn frames_consistent(&self) -> bool {
        &&& forall|t: int, v: usize|
            0 <= t < self.tasks@.len() && #[trigger] self.pt(t).contains_key(v) ==> {
                &&& self.pt(t)[v].ppn < self.frames@.len()
                &&& self.frames@[self.pt(t)[v].ppn as int] == Some(
                    FrameOwner { task: t as usize, vpn: v },
                )
            }
        &&& forall|p: int|
            0 <= p < self.frames@.len() && (#[trigger] self.frames@[p]) is Some ==> {
                let o = self.frames@[p]->Some_0;
                &&& o.task < self.tasks@.len()
                &&& self.pt(o.task as int).contains_key(o.vpn)
                &&& self.pt(o.task as int)[o.vpn].ppn == p
            }
    }

    /// Well-formedness of the kernel state.
    pub open spec fn wf(&self) -> bool {
        &&& self.mem@.len() == self.frames@.len() * PAGE_SIZE
        &&& self.tasks@.len() <= usize::MAX
        &&& self.current matches Some(c) ==> c < self.tasks@.len()
        &&& forall|t: int|
            0 <= t < self.tasks@.len() ==> ((#[trigger] self.tasks@[t].status
                == TaskStatus::Running) <==> self.current == Some(t as usize))
        &&& forall|t: int|
            0 <= t < self.tasks@.len() && #[trigger] self.tasks@[t].status == TaskStatus::Exited
                ==> self.pt(t).is_empty()
        &&& self.frames_consistent()
    }

    /// Everything but page tables and frames is the same in `self` and `k`.
    pub open spec fn same_bookkeeping(&self, k: &Kernel) -> bool {
        &&& self.tasks@.len() == k.tasks@.len()
        &&& self.current == k.current
        &&& self.mem@ == k.mem@
        &&& forall|t: int|
            0 <= t < self.tasks@.len() ==> {
                &&& (#[trigger] self.tasks@[t]).status == k.tasks@[t].status
                &&& self.tasks@[t].syscall_times@ == k.tasks@[t].syscall_times@
                &&& self.tasks@[t].first_run == k.tasks@[t].first_run
            }
    }

    /// `self` and `k` differ at most in their syscall counters.
    pub open spec fn same_except_counters(&self, k: &Kernel) -> bool {
        &&& self.tasks@.len() == k.tasks@.len()
        &&& self.current == k.current
        &&& self.mem@ == k.mem@
        &&& self.frames@ == k.frames@
        &&& forall|t: int|
            0 <= t < self.tasks@.len() ==> {
                &&& (#[trigger] self.tasks@[t]).status == k.tasks@[t].status
                &&& self.tasks@[t].first_run == k.tasks@[t].first_run
                &&& self.pt(t) == k.pt(t)
            }
    }

    /// A kernel with `n_frames` free, zeroed frames and `n_tasks` ready
    /// tasks, none of them running yet.
    pub fn new(n_frames: usize, n_tasks: usize) -> (r: Kernel)
        requires
            n_frames * PAGE_SIZE <= usize::MAX,
        ensures
            r.wf(),
            r.frames@.len() == n_frames,
            free_count(r.frames@) == n_frames,
            r.tasks@.len() == n_tasks,
            r.current is None,
            forall|t: int|
                0 <= t < n_tasks ==> (#[trigger] r.tasks@[t]).status == TaskStatus::Ready
                    && r.pt(t).is_empty() && r.tasks@[t].first_run is None,
    {
        let frames = FrameTable::new(n_frames);
        let mem = PhysMem::new(n_frames);
        let mut tasks: Vec<TaskControlBlock> = Vec::new();
        for i in 0..n_tasks
            invariant
                tasks@.len() == i,
                forall|t: int|
                    0 <= t < i ==> (#[trigger] tasks@[t]).status == TaskStatus::Ready
                        && tasks@[t].page_table@.is_empty() && tasks@[t].first_run is None,
        {
            tasks.push(TaskControlBlock::new());
        }
        proof {
            crate::frame::lemma_free_count_all_free(frames@);
        }
        Kernel { frames, mem, tasks, current: None }
    }

    /// In a well-formed kernel each task's pages have frames of their own
    /// inside physical memory.
    pub proof fn lemma_frames_fit(&self, t: int)
        requires
            self.wf(),
            0 <= t < self.tasks@.len(),
        ensures
            frames_fit(self.pt(t), self.mem@.len() as int),
    {
        let n = self.frames@.len();
        assert forall|v: usize| #[trigger] self.pt(t).contains_key(v) implies (self.pt(t)[v].ppn
            + 1) * PAGE_SIZE as int <= self.mem@.len() by {
            let p = self.pt(t)[v].ppn as int;
            assert(p < n);
            assert((p + 1) * 4096 <= n * 4096) by (nonlinear_arith)
                requires
                    p + 1 <= n,
            ;
        }
        assert forall|v: usize, w: usize|
            #[trigger] self.pt(t).contains_key(v) && #[trigger] self.pt(t).contains_key(w) && v
                != w implies self.pt(t)[v].ppn != self.pt(t)[w].ppn by {
            assert(self.frames@[self.pt(t)[v].ppn as int] == Some(
                FrameOwner { task: t as usize, vpn: v },
            ));
            assert(self.frames@[self.pt(t)[w].ppn as int] == Some(
                FrameOwner { task: t as usize, vpn: w },
            ));
        }
    }

    /// Maps pages `[start_vpn, end_vpn)` of task `t` to fresh frames with
    /// permission `perm`. All or nothing: fails, changing nothing, when the
    /// range is empty, when any page of it is already mapped, or when fewer
    /// free frames remain than the range has pages.
    pub fn map_area(&mut self, t: usize, start_vpn: usize, end_vpn: usize, perm: MapPermission) -> (r:
        bool)
        requires
            old(self).wf(),
            t < old(self).tasks@.len(),
            old(self).tasks@[t as int].status != TaskStatus::Exited,
        ensures
            final(self).wf(),
            r == (start_vpn < end_vpn && (forall|u: usize|
                start_vpn <= u < end_vpn ==> !#[trigger] old(self).pt(t as int).contains_key(u))
                && free_count(old(self).frames@) >= end_vpn - start_vpn),
            !r ==> *final(self) == *old(self),
            final(self).same_bookkeeping(old(self)),
            final(self).frames@.len() == old(self).frames@.len(),
            r ==> free_count(final(self).frames@) + (end_vpn - start_vpn) == free_count(
                old(self).frames@,
            ),
            r ==> forall|u: usize| #[trigger]
                final(self).pt(t as int).contains_key(u) == (old(self).pt(t as int).contains_key(u)
                    || start_vpn <= u < end_vpn),
            r ==> forall|u: usize|
                start_vpn <= u < end_vpn ==> (#[trigger] final(self).pt(t as int)[u]).perm == perm,
            r ==> forall|u: usize| #[trigger]
                old(self).pt(t as int).contains_key(u) ==> final(self).pt(t as int)[u] == old(self).pt(t as int)[u],
            forall|s: int|
                0 <= s < old(self).tasks@.len() && s != t ==> #[trigger] final(self).pt(s) == old(self).pt(s),
            forall|p: int|
                0 <= p < old(self).frames@.len() && #[trigger] final(self).frames@[p] != old(self).frames@[p] ==> old(self).frames@[p] is None,
    {
        if end_vpn <= start_vpn {
            return false;
        }
        let n: usize = end_vpn - start_vpn;
        let ppns: Vec<usize> = match self.frames.find_free(n) {
            Some(v) => v,
            None => {
                return false;
            },
        };
        let mut v: usize = start_vpn;
        while v < end_vpn
            invariant
                start_vpn <= v <= end_vpn,
                t < self.tasks@.len(),
                *self == *old(self),
                old(self).wf(),
                free_count(old(self).frames@) >= n,
                ppns@.len() == n,
                forall|j: int| 0 <= j < n ==> #[trigger] ppns@[j] < self.frames@.len(),
                forall|j: int| 0 <= j < n ==> self.frames@[#[trigger] ppns@[j] as int] is None,
                forall|j: int, k: int| 0 <= j < k < n ==> #[trigger] ppns@[j] < #[trigger] ppns@[k],
                forall|u: usize| start_vpn <= u < v ==> !#[trigger] self.pt(t as int).contains_key(u),
            decreases end_vpn - v,
        {
            if self.tasks[t].page_table.is_mapped(v) {
                assert(old(self).pt(t as int).contains_key(v));
                return false;
            }
            v = v + 1;
        }
        for i in 0..n
            invariant
                n == end_vpn - start_vpn,
                old(self).wf(),
                self.wf(),
                t < self.tasks@.len(),
                self.tasks@[t as int].status != TaskStatus::Exited,
                self.same_bookkeeping(old(self)),
                self.frames@.len() == old(self).frames@.len(),
                ppns@.len() == n,
                forall|j: int| 0 <= j < n ==> #[trigger] ppns@[j] < self.frames@.len(),
                forall|j: int, k: int| 0 <= j < k < n ==> #[trigger] ppns@[j] < #[trigger] ppns@[k],
                forall|j: int| i <= j < n ==> self.frames@[#[trigger] ppns@[j] as int] is None,
                forall|u: usize|
                    start_vpn + i <= u < end_vpn ==> !#[trigger] self.pt(t as int).contains_key(u),
                forall|u: usize| #[trigger]
                    self.pt(t as int).contains_key(u) == (old(self).pt(t as int).contains_key(u) || (
                    start_vpn <= u < start_vpn + i)),
                forall|u: usize|
                    start_vpn <= u < start_vpn + i ==> (#[trigger] self.pt(t as int)[u]).perm == perm,
                forall|u: usize| #[trigger]
                    old(self).pt(t as int).contains_key(u) ==> self.pt(t as int)[u] == old(self).pt(t as int)[u],
                forall|s: int|
                    0 <= s < old(self).tasks@.len() && s != t ==> #[trigger] self.pt(s) == old(self).pt(s),
                free_count(self.frames@) + i == free_count(old(self).frames@),
                forall|p: int|
                    0 <= p < old(self).frames@.len() && #[trigger] self.frames@[p] != old(self).frames@[p] ==> old(self).frames@[p] is None,
        {
            let u: usize = start_vpn + i;
            let p: usize = ppns[i];
            let ghost before = *self;
            assert(!self.pt(t as int).contains_key(u));
            self.frames.take(p, FrameOwner { task: t, vpn: u });
            self.tasks[t].page_table.map(u, PageTableEntry { ppn: p, perm });
            proof {
                assert(!before.pt(t as int).contains_key(u));
                assert(self.pt(t as int) == before.pt(t as int).insert(u, PageTableEntry { ppn: p, perm }));
                assert forall|s: int|
                    0 <= s < self.tasks@.len() && s != t implies #[trigger] self.pt(s) == before.pt(s) by {}
                assert forall|j: int| i + 1 <= j < n implies self.frames@[#[trigger] ppns@[j] as int] is None by {
                    assert(ppns@[i as int] < ppns@[j]);
                }
                assert forall|s: int, w: usize|
                    0 <= s < self.tasks@.len() && #[trigger] self.pt(s).contains_key(w) implies {
                        &&& self.pt(s)[w].ppn < self.frames@.len()
                        &&& self.frames@[self.pt(s)[w].ppn as int] == Some(
                            FrameOwner { task: s as usize, vpn: w },
                        )
                    } by {
                    if s != t || w != u {
                        assert(before.pt(s).contains_key(w));
                        assert(before.pt(s)[w] == self.pt(s)[w]);
                        assert(before.frames@[before.pt(s)[w].ppn as int] is Some);
                    }
                }
                assert forall|q: int|
                    0 <= q < self.frames@.len() && (#[trigger] self.frames@[q]) is Some implies {
                        let o = self.frames@[q]->Some_0;
                        &&& o.task < self.tasks@.len()
                        &&& self.pt(o.task as int).contains_key(o.vpn)
                        &&& self.pt(o.task as int)[o.vpn].ppn == q
                    } by {
                    if q != p {
                        let o = before.frames@[q]->Some_0;
                        assert(before.pt(o.task as int).contains_key(o.vpn));
                        if o.task == t && o.vpn == u {
                            assert(false);
                        }
                    }
                }
                assert forall|s: int| 0 <= s < self.tasks@.len() implies ((#[trigger] self.tasks@[s].status
                    == TaskStatus::Running) <==> self.current == Some(s as usize)) by {
                    assert(self.tasks@[s].status == before.tasks@[s].status);
                }
                assert forall|s: int|
                    0 <= s < self.tasks@.len() && #[trigger] self.tasks@[s].status == TaskStatus::Exited
                        implies self.pt(s).is_empty() by {
                    assert(self.tasks@[s].status == before.tasks@[s].status);
                }
            }
        }
        true
    }

    /// Unmaps pages `[start_vpn, end_vpn)` of task `t` and frees their
    /// frames. All or nothing: fails, changing nothing, when any page of
    /// the range is not mapped.
    pub fn unmap_area(&mut self, t: usize, start_vpn: usize, end_vpn: usize) -> (r: bool)
        requires
            old(self).wf(),
            t < old(self).tasks@.len(),
        ensures
            final(self).wf(),
            r == (forall|u: usize|
                start_vpn <= u < end_vpn ==> #[trigger] old(self).pt(t as int).contains_key(u)),
            !r ==> *final(self) == *old(self),
            final(self).same_bookkeeping(old(self)),
            final(self).frames@.len() == old(self).frames@.len(),
            r ==> free_count(final(self).frames@) == free_count(old(self).frames@) + (
            if start_vpn < end_vpn {
                end_vpn - start_vpn
            } else {
                0
            }),
            r ==> forall|u: usize| #[trigger]
                final(self).pt(t as int).contains_key(u) == (old(self).pt(t as int).contains_key(u)
                    && !(start_vpn <= u < end_vpn)),
            r ==> forall|u: usize| #[trigger]
                final(self).pt(t as int).contains_key(u) ==> final(self).pt(t as int)[u] == old(self).pt(t as int)[u],
            forall|s: int|
                0 <= s < old(self).tasks@.len() && s != t ==> #[trigger] final(self).pt(s) == old(self).pt(s),
            forall|p: int|
                0 <= p < old(self).frames@.len() && #[trigger] final(self).frames@[p] != old(self).frames@[p] ==> (final(self).frames@[p] is None && old(self).frames@[p] is Some && old(self).frames@[p]->Some_0.task == t && start_vpn <= old(self).frames@[p]->Some_0.vpn
                    < end_vpn),
    {
        let mut v: usize = start_vpn;
        while v < end_vpn
            invariant
                start_vpn <= v,
                v <= end_vpn || start_vpn >= end_vpn,
                t < self.tasks@.len(),
                *self == *old(self),
                old(self).wf(),
                forall|u: usize| start_vpn <= u < v ==> #[trigger] self.pt(t as int).contains_key(u),
            decreases end_vpn - v,
        {
            if !self.tasks[t].page_table.is_mapped(v) {
                assert(!old(self).pt(t as int).contains_key(v));
                return false;
            }
            v = v + 1;
        }
        if start_vpn >= end_vpn {
            return true;
        }
        let n: usize = end_vpn - start_vpn;
        for i in 0..n
            invariant
                n == end_vpn - start_vpn,
                self.wf(),
                t < self.tasks@.len(),
                self.same_bookkeeping(old(self)),
                self.frames@.len() == old(self).frames@.len(),
                forall|u: usize|
                    start_vpn + i <= u < end_vpn ==> #[trigger] self.pt(t as int).contains_key(u),
                forall|u: usize| #[trigger]
                    self.pt(t as int).contains_key(u) == (old(self).pt(t as int).contains_key(u) && !(
                    start_vpn <= u < start_vpn + i)),
                forall|u: usize| #[trigger]
                    self.pt(t as int).contains_key(u) ==> self.pt(t as int)[u] == old(self).pt(
                        t as int,
                    )[u],
                forall|s: int|
                    0 <= s < old(self).tasks@.len() && s != t ==> #[trigger] self.pt(s) == old(self).pt(s),
                free_count(self.frames@) == free_count(old(self).frames@) + i,
                forall|p: int|
                    0 <= p < old(self).frames@.len() && #[trigger] self.frames@[p] != old(self).frames@[p] ==> (self.frames@[p] is None && old(self).frames@[p] is Some && old(self).frames@[p]->Some_0.task == t && start_vpn <= old(self).frames@[p]->Some_0.vpn
                        < start_vpn + i),
        {
            let u: usize = start_vpn + i;
            let ghost before = *self;
            assert(self.pt(t as int).contains_key(u));
            let e: PageTableEntry = self.tasks[t].page_table.unmap(u);
            let p: usize = e.ppn;
            assert(before.frames@[p as int] == Some(FrameOwner { task: t, vpn: u }));
            self.frames.give_back(p);
            proof {
                assert(self.pt(t as int) == before.pt(t as int).remove(u));
                assert forall|s: int|
                    0 <= s < self.tasks@.len() && s != t implies #[trigger] self.pt(s) == before.pt(
                        s,
                    ) by {}
                assert forall|s: int, w: usize|
                    0 <= s < self.tasks@.len() && #[trigger] self.pt(s).contains_key(w) implies {
                        &&& self.pt(s)[w].ppn < self.frames@.len()
                        &&& self.frames@[self.pt(s)[w].ppn as int] == Some(
                            FrameOwner { task: s as usize, vpn: w },
                        )
                    } by {
                    assert(before.pt(s).contains_key(w));
                    assert(before.pt(s)[w] == self.pt(s)[w]);
                    assert(before.frames@[before.pt(s)[w].ppn as int] == Some(
                        FrameOwner { task: s as usize, vpn: w },
                    ));
                    if before.pt(s)[w].ppn == p {
                        assert(before.frames@[p as int] == Some(FrameOwner { task: t, vpn: u }));
                        assert(FrameOwner { task: s as usize, vpn: w } == FrameOwner {
                            task: t,
                            vpn: u,
                        });
                        assert(s == t && w == u);
                    }
                }
                assert forall|q: int|
                    0 <= q < self.frames@.len() && (#[trigger] self.frames@[q]) is Some implies {
                        let o = self.frames@[q]->Some_0;
                        &&& o.task < self.tasks@.len()
                        &&& self.pt(o.task as int).contains_key(o.vpn)
                        &&& self.pt(o.task as int)[o.vpn].ppn == q
                    } by {
                    let o = before.frames@[q]->Some_0;
                    assert(before.pt(o.task as int).contains_key(o.vpn));
                }
                assert forall|s: int|
                    0 <= s < self.tasks@.len() implies ((#[trigger] self.tasks@[s].status
                        == TaskStatus::Running) <==> self.current == Some(s as usize)) by {
                    assert(self.tasks@[s].status == before.tasks@[s].status);
                }
                assert forall|s: int|
                    0 <= s < self.tasks@.len() && #[trigger] self.tasks@[s].status
                        == TaskStatus::Exited implies self.pt(s).is_empty() by {
                    assert(self.tasks@[s].status == before.tasks@[s].status);
                    if s == t {
                        assert(before.pt(s).is_empty());
                        assert(before.pt(s).contains_key(u));
                    }
                }
            }
        }
        true
    }

    /// Unmaps every page of task `t` and frees the frames behind them.
    pub fn release_address_space(&mut self, t: usize)
        requires
            old(self).wf(),
            t < old(self).tasks@.len(),
        ensures
            final(self).wf(),
            final(self).same_bookkeeping(old(self)),
            final(self).pt(t as int).is_empty(),
            forall|s: int|
                0 <= s < old(self).tasks@.len() && s != t ==> #[trigger] final(self).pt(s) == old(self).pt(s),
            final(self).frames@.len() == old(self).frames@.len(),
            forall|p: int|
                0 <= p < old(self).frames@.len() ==> #[trigger] final(self).frames@[p] == (
                if old(self).frames@[p] is Some && old(self).frames@[p]->Some_0.task == t {
                    None
                } else {
                    old(self).frames@[p]
                }),
    {
        let ghost before = *self;
        self.frames.give_back_task(t);
        self.tasks[t].page_table.clear();
        proof {
            assert forall|s: int|
                0 <= s < self.tasks@.len() && s != t implies #[trigger] self.pt(s) == before.pt(s) by {}
            assert(self.pt(t as int) =~= Map::<usize, PageTableEntry>::empty());
            assert forall|s: int, w: usize|
                0 <= s < self.tasks@.len() && #[trigger] self.pt(s).contains_key(w) implies {
                    &&& self.pt(s)[w].ppn < self.frames@.len()
                    &&& self.frames@[self.pt(s)[w].ppn as int] == Some(
                        FrameOwner { task: s as usize, vpn: w },
                    )
                } by {
                if s == t {
                    assert(!self.pt(s).contains_key(w));
                }
                assert(before.pt(s).contains_key(w));
            }
            assert forall|q: int|
                0 <= q < self.frames@.len() && (#[trigger] self.frames@[q]) is Some implies {
                    let o = self.frames@[q]->Some_0;
                    &&& o.task < self.tasks@.len()
                    &&& self.pt(o.task as int).contains_key(o.vpn)
                    &&& self.pt(o.task as int)[o.vpn].ppn == q
                } by {
                let o = before.frames@[q]->Some_0;
                assert(before.pt(o.task as int).contains_key(o.vpn));
            }
            assert forall|s: int|
                0 <= s < self.tasks@.len() implies ((#[trigger] self.tasks@[s].status
                    == TaskStatus::Running) <==> self.current == Some(s as usize)) by {
                assert(self.tasks@[s].status == before.tasks@[s].status);
            }
            assert forall|s: int|
                0 <= s < self.tasks@.len() && #[trigger] self.tasks@[s].status == TaskStatus::Exited
                    implies self.pt(s).is_empty() by {
                assert(self.tasks@[s].status == before.tasks@[s].status);
            }
        }
    }

    /// A ready task to run next, searched round-robin from the task after
    /// `after` (from the first task when `after` is `None`); `None` when no
    /// task is ready.
    pub fn find_next_ready(&self, after: Option<usize>) -> (r: Option<usize>)
        requires
            after matches Some(a) ==> a < self.tasks@.len(),
        ensures
            r matches Some(c) ==> c < self.tasks@.len() && self.tasks@[c as int].status
                == TaskStatus::Ready,
            r is None <==> forall|s: int|
                0 <= s < self.tasks@.len() ==> #[trigger] self.tasks@[s].status != TaskStatus::Ready,
            after is Some && r == after ==> forall|s: int|
                0 <= s < self.tasks@.len() && s != after->Some_0 ==> #[trigger] self.tasks@[s].status
                    != TaskStatus::Ready,
    {
        let n: usize = self.tasks.len();
        let first: usize = match after {
            Some(a) => a + 1,
            None => 0,
        };
        let mut i: usize = first;
        while i < n
            invariant
                first <= i <= n,
                n == self.tasks@.len(),
                after is Some ==> first == after->Some_0 + 1,
                after is None ==> first == 0,
                forall|s: int| first <= s < i ==> #[trigger] self.tasks@[s].status != TaskStatus::Ready,
            decreases n - i,
        {
            if self.tasks[i].status == TaskStatus::Ready {
                return Some(i);
            }
            i = i + 1;
        }
        let mut j: usize = 0;
        while j < first
            invariant
                j <= first <= n,
                n == self.tasks@.len(),
                after is Some ==> first == after->Some_0 + 1,
                after is None ==> first == 0,
                forall|s: int| first <= s < n ==> #[trigger] self.tasks@[s].status != TaskStatus::Ready,
                forall|s: int| 0 <= s < j ==> #[trigger] self.tasks@[s].status != TaskStatus::Ready,
            decreases first - j,
        {
            if self.tasks[j].status == TaskStatus::Ready {
                return Some(j);
            }
            j = j + 1;
        }
        None
    }

    /// With no task running, picks the next ready task (round-robin after
    /// `after`), marks it running and records `now` as its first run if it
    /// never ran. When no task is ready, nothing runs.
    pub fn run_next(&mut self, after: Option<usize>, now: usize)
        requires
            old(self).wf(),
            old(self).current is None,
            after matches Some(a) ==> a < old(self).tasks@.len(),
        ensures
            final(self).wf(),
            final(self).frames@ == old(self).frames@,
            final(self).mem@ == old(self).mem@,
            final(self).tasks@.len() == old(self).tasks@.len(),
            match final(self).current {
                Some(c) => {
                    &&& c < old(self).tasks@.len()
                    &&& old(self).tasks@[c as int].status == TaskStatus::Ready
                    &&& final(self).tasks@[c as int].status == TaskStatus::Running
                    &&& final(self).tasks@[c as int].first_run == (match old(self).tasks@[c as int].first_run {
                        Some(f) => Some(f),
                        None => Some(now),
                    })
                    &&& final(self).pt(c as int) == old(self).pt(c as int)
                    &&& final(self).tasks@[c as int].syscall_times@ == old(self).tasks@[c as int].syscall_times@
                    &&& forall|s: int|
                        0 <= s < old(self).tasks@.len() && s != c ==> #[trigger] final(self).tasks@[s]
                            == old(self).tasks@[s]
                    &&& after == Some(c) ==> forall|s: int|
                        0 <= s < old(self).tasks@.len() && s != c ==> #[trigger] old(self).tasks@[s].status
                            != TaskStatus::Ready
                },
                None => {
                    &&& forall|s: int|
                        0 <= s < old(self).tasks@.len() ==> #[trigger] old(self).tasks@[s].status
                            != TaskStatus::Ready
                    &&& final(self).tasks@ == old(self).tasks@
                },
            },
    {
        match self.find_next_ready(after) {
            Some(c) => {
                let ghost before = *self;
                self.tasks[c].status = TaskStatus::Running;
                if self.tasks[c].first_run.is_none() {
                    self.tasks[c].first_run = Some(now);
                }
                self.current = Some(c);
                proof {
                    assert forall|s: int|
                        0 <= s < self.tasks@.len() && s != c implies #[trigger] self.tasks@[s]
                            == before.tasks@[s] by {}
                    assert forall|s: int| 0 <= s < self.tasks@.len() implies #[trigger] self.pt(s)
                        == before.pt(s) by {}
                    assert forall|s: int|
                        0 <= s < self.tasks@.len() implies ((#[trigger] self.tasks@[s].status
                            == TaskStatus::Running) <==> self.current == Some(s as usize)) by {
                        if s != c {
                            assert(self.tasks@[s].status == before.tasks@[s].status);
                            assert(before.current is None);
                        }
                    }
                    assert forall|s: int|
                        0 <= s < self.tasks@.len() && #[trigger] self.tasks@[s].status
                            == TaskStatus::Exited implies self.pt(s).is_empty() by {
                        assert(self.tasks@[s].status == before.tasks@[s].status);
                    }
                    lemma_frames_consistent_kept(&before, self);
                }
            },
            None => {},
        }
    }

    /// Takes the running task off the processor, leaving it in `status`.
    pub fn stop_current(&mut self, status: TaskStatus)
        requires
            old(self).wf(),
            old(self).current is Some,
            status != TaskStatus::Running,
            status == TaskStatus::Exited ==> old(self).pt(old(self).current->Some_0 as int).is_empty(),
        ensures
            final(self).wf(),
            final(self).current is None,
            final(self).frames@ == old(self).frames@,
            final(self).mem@ == old(self).mem@,
            final(self).tasks@.len() == old(self).tasks@.len(),
            final(self).tasks@[old(self).current->Some_0 as int].status == status,
            forall|s: int| 0 <= s < old(self).tasks@.len() ==> #[trigger] final(self).pt(s) == old(self).pt(s),
            forall|s: int|
                0 <= s < old(self).tasks@.len() ==> (#[trigger] final(self).tasks@[s]).syscall_times@
                    == old(self).tasks@[s].syscall_times@ && final(self).tasks@[s].first_run == old(self).tasks@[s].first_run,
            forall|s: int|
                0 <= s < old(self).tasks@.len() && s != old(self).current->Some_0 ==> #[trigger] final(self).tasks@[s] == old(self).tasks@[s],
    {
        let c: usize = match self.current {
            Some(c) => c,
            None => {
                return;
            },
        };
        let ghost before = *self;
        self.tasks[c].status = status;
        self.current = None;
        proof {
            assert forall|s: int| 0 <= s < self.tasks@.len() && s != c implies #[trigger] self.tasks@[s]
                == before.tasks@[s] by {}
            assert forall|s: int| 0 <= s < self.tasks@.len() implies #[trigger] self.pt(s) == before.pt(s) by {}
            assert forall|s: int|
                0 <= s < self.tasks@.len() implies ((#[trigger] self.tasks@[s].status
                    == TaskStatus::Running) <==> self.current == Some(s as usize)) by {
                if s != c {
                    assert(self.tasks@[s].status == before.tasks@[s].status);
                }
            }
            assert forall|s: int|
                0 <= s < self.tasks@.len() && #[trigger] self.tasks@[s].status == TaskStatus::Exited
                    implies self.pt(s).is_empty() by {
                assert(self.tasks@[s].status == before.tasks@[s].status || s == c);
            }
            lemma_frames_consistent_kept(&before, self);
        }
    }

    /// Counts one call of syscall `id` by the running task, saturating at
    /// `u32::MAX`.
    pub fn count_call(&mut self, id: usize)
        requires
            old(self).wf(),
            old(self).current is Some,
            id < MAX_SYSCALL_NUM,
        ensures
            final(self).wf(),
            final(self).current == old(self).current,
            final(self).frames@ == old(self).frames@,
            final(self).mem@ == old(self).mem@,
            final(self).tasks@.len() == old(self).tasks@.len(),
            final(self).tasks@[old(self).current->Some_0 as int].syscall_times@ == old(self).tasks@[old(self).current->Some_0 as int].syscall_times@.update(
                id as int,
                bumped(old(self).tasks@[old(self).current->Some_0 as int].syscall_times@[id as int]),
            ),
            forall|s: int|
                0 <= s < old(self).tasks@.len() ==> (#[trigger] final(self).tasks@[s]).status == old(self).tasks@[s].status && final(self).pt(s) == old(self).pt(s) && final(self).tasks@[s].first_run == old(self).tasks@[s].first_run,
            forall|s: int|
                0 <= s < old(self).tasks@.len() && s != old(self).current->Some_0 ==> #[trigger] final(self).tasks@[s] == old(self).tasks@[s],
    {
        let c: usize = match self.current {
            Some(c) => c,
            None => {
                return;
            },
        };
        let ghost before = *self;
        self.tasks[c].count_syscall(id);
        proof {
            assert forall|s: int| 0 <= s < self.tasks@.len() && s != c implies #[trigger] self.tasks@[s]
                == before.tasks@[s] by {}
            assert forall|s: int| 0 <= s < self.tasks@.len() implies #[trigger] self.pt(s) == before.pt(s) by {}
            assert forall|s: int|
                0 <= s < self.tasks@.len() implies ((#[trigger] self.tasks@[s].status
                    == TaskStatus::Running) <==> self.current == Some(s as usize)) by {
                assert(self.tasks@[s].status == before.tasks@[s].status);
            }
            assert forall|s: int|
                0 <= s < self.tasks@.len() && #[trigger] self.tasks@[s].status == TaskStatus::Exited
                    implies self.pt(s).is_empty() by {
                assert(self.tasks@[s].status == before.tasks@[s].status);
            }
            lemma_frames_consistent_kept(&before, self);
        }
    }
}

/// Frame ownership survives any change that keeps the frame table and
/// every page table.
pub proof fn lemma_frames_consistent_kept(before: &Kernel, after: &Kernel)
    requires
        before.frames_consistent(),
        after.frames@ == before.frames@,
        after.tasks@.len() == before.tasks@.len(),
        forall|s: int| 0 <= s < after.tasks@.len() ==> #[trigger] after.pt(s) == before.pt(s),
    ensures
        after.frames_consistent(),
{
    assert forall|s: int, w: usize|
        0 <= s < after.tasks@.len() && #[trigger] after.pt(s).contains_key(w) implies {
            &&& after.pt(s)[w].ppn < after.frames@.len()
            &&& after.frames@[after.pt(s)[w].ppn as int] == Some(
                FrameOwner { task: s as usize, vpn: w },
            )
        } by {
        assert(before.pt(s).contains_key(w));
    }
    assert forall|q: int|
        0 <= q < after.frames@.len() && (#[trigger] after.frames@[q]) is Some implies {
            let o = after.frames@[q]->Some_0;
            &&& o.task < after.tasks@.len()
            &&& after.pt(o.task as int).contains_key(o.vpn)
            &&& after.pt(o.task as int)[o.vpn].ppn == q
        } by {
        let o = before.frames@[q]->Some_0;
        assert(before.pt(o.task as int).contains_key(o.vpn));
    }
}

} // verus!
