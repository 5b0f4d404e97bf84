//! The process syscalls and the dispatcher that routes a trapped call to
//! them. Each returns the status word handed back to user mode: 0 on
//! success, -1 on any failure.
use vstd::prelude::*;

use crate::addr::{aligned, ceil_page, ceil_vpn, floor_page, is_aligned, vpn_of};
use crate::config::{
    MAX_SYSCALL_NUM, MICRO_PER_SEC, PAGE_SIZE, SYSCALL_EXIT, SYSCALL_GET_TIME, SYSCALL_MMAP,
    SYSCALL_MUNMAP, SYSCALL_SET_PRIORITY, SYSCALL_TASK_INFO, SYSCALL_YIELD,
};
use crate::copy::{copy_to_user, pa_of, span_mapped};
use crate::frame::{free_count, FrameOwner};
use crate::kernel::Kernel;
use crate::page_table::{MapPermission, PageTableEntry};
use crate::task::{bumped, TaskControlBlock, TaskStatus};

verus! {

/// A point in time as user space reads it: whole seconds, then the
/// microseconds past them.
#[derive(Clone, Copy, Debug, PartialEq, Eq, Structural)]
pub struct TimeVal {
    pub sec: usize,
    pub usec: usize,
}

/// The `TimeVal` of a clock reading of `us` microseconds.
pub open spec fn time_val_of(us: usize) -> TimeVal {
    TimeVal { sec: (us / MICRO_PER_SEC) as usize, usec: (us % MICRO_PER_SEC) as usize }
}

/// Microseconds that a `TimeVal` stands for.
pub open spec fn micros_of(tv: TimeVal) -> int {
    tv.sec * MICRO_PER_SEC + tv.usec
}

/// Whether `a` is no later than `b`: seconds first, then microseconds.
pub open spec fn time_le(a: TimeVal, b: TimeVal) -> bool {
    a.sec < b.sec || (a.sec == b.sec && a.usec <= b.usec)
}

/// Little-endian bytes of a machine word.
pub open spec fn word_bytes(x: usize) -> Seq<u8> {
    Seq::new(8, |k: int| ((x as u64) >> ((8 * k) as u64)) as u8)
}

/// The bytes of a `TimeVal` as user space lays it out: `sec`, then `usec`.
pub open spec fn time_val_bytes(tv: TimeVal) -> Seq<u8> {
    word_bytes(tv.sec) + word_bytes(tv.usec)
}

fn push_word(out: &mut Vec<u8>, x: usize)
    ensures
        final(out)@ == old(out)@ + word_bytes(x),
{
    let w: u64 = x as u64;
    let ghost start = out@;
    let mut k: u64 = 0;
    while k < 8
        invariant
            k <= 8,
            w == x as u64,
            out@.len() == start.len() + k,
            forall|j: int| 0 <= j < start.len() ==> #[trigger] out@[j] == start[j],
            forall|j: int|
                0 <= j < k ==> #[trigger] out@[start.len() + j] == word_bytes(x)[j],
        decreases 8 - k,
    {
        out.push((w >> (8 * k)) as u8);
        k = k + 1;
    }
    assert forall|j: int| 0 <= j < out@.len() implies #[trigger] out@[j] == (start + word_bytes(
        x,
    ))[j] by {
        if j >= start.len() {
            assert(out@[start.len() + (j - start.len())] == word_bytes(x)[j - start.len()]);
        }
    }
    assert(out@ =~= start + word_bytes(x));
}

impl TimeVal {
    /// The `TimeVal` of a clock reading of `us` microseconds.
    pub fn from_micros(us: usize) -> (r: TimeVal)
        ensures
            r == time_val_of(us),
            micros_of(r) == us,
            r.usec < MICRO_PER_SEC,
    {
        TimeVal { sec: us / MICRO_PER_SEC, usec: us % MICRO_PER_SEC }
    }

    /// The bytes that user space reads: `sec`, then `usec`, each a
    /// little-endian machine word.
    pub fn to_bytes(&self) -> (r: Vec<u8>)
        ensures
            r@ == time_val_bytes(*self),
    {
        let mut out: Vec<u8> = Vec::new();
        push_word(&mut out, self.sec);
        push_word(&mut out, self.usec);
        assert(out@ =~= time_val_bytes(*self));
        out
    }
}

/// What a task reports of itself: status, calls per syscall id, and the
/// microseconds since it first ran.
#[derive(Clone, Copy)]
pub struct TaskInfo {
    pub status: TaskStatus,
    pub syscall_times: [u32; MAX_SYSCALL_NUM],
    pub time: usize,
}

impl TaskInfo {
    /// The report of task `tcb` at time `now`.
    pub fn of_task(tcb: &TaskControlBlock, now: usize) -> (r: TaskInfo)
        ensures
            r.status == tcb.status,
            r.syscall_times@ == tcb.syscall_times@,
            r.time == (match tcb.first_run {
                Some(t) => if now >= t { (now - t) as usize } else { 0usize },
                None => 0usize,
            }),
    {
        TaskInfo { status: tcb.status, syscall_times: tcb.syscall_times, time: tcb.elapsed(now) }
    }
}

/// Whether an mmap `port` is acceptable: only the read, write and execute
/// bits, and at least one of them.
pub open spec fn port_ok(port: usize) -> bool {
    port & !0x7usize == 0 && port & 0x7usize != 0
}

/// Whether `mmap(start, len, port)` succeeds on page table `pt` with
/// `free` free frames.
pub open spec fn mmap_succeeds(
    pt: Map<usize, PageTableEntry>,
    free: nat,
    start: usize,
    len: usize,
    port: usize,
) -> bool {
    &&& port_ok(port)
    &&& is_aligned(start as int)
    &&& 0 < len
    &&& start + len <= usize::MAX
    &&& forall|u: usize|
        vpn_of(start as int) <= u < ceil_vpn(start + len) ==> !#[trigger] pt.contains_key(u)
    &&& free >= ceil_vpn(start + len) - vpn_of(start as int)
}

/// Whether `munmap(start, len)` succeeds on page table `pt`.
pub open spec fn munmap_succeeds(pt: Map<usize, PageTableEntry>, start: usize, len: usize) -> bool {
    &&& start + len <= usize::MAX
    &&& forall|u: usize|
        vpn_of(start as int) <= u < ceil_vpn(start + len) ==> #[trigger] pt.contains_key(u)
}

/// The task that makes the call.
pub open spec fn caller(k: &Kernel) -> int {
    k.current->Some_0 as int
}

/// Ends the calling task: it becomes `Exited` for good, every page of
/// its address space is unmapped and its frames freed, and the next ready
/// task runs. The exiting task never resumes.
pub fn sys_exit(k: &mut Kernel, _exit_code: i32, now: usize)
    requires
        old(k).wf(),
        old(k).current is Some,
    ensures
        final(k).wf(),
        final(k).tasks@.len() == old(k).tasks@.len(),
        final(k).tasks@[caller(old(k))].status == TaskStatus::Exited,
        final(k).pt(caller(old(k))).is_empty(),
        forall|s: int|
            0 <= s < old(k).tasks@.len() && #[trigger] old(k).tasks@[s].status
                == TaskStatus::Exited ==> final(k).tasks@[s].status == TaskStatus::Exited,
        forall|s: int|
            0 <= s < old(k).tasks@.len() ==> (#[trigger] final(k).tasks@[s]).syscall_times@ == old(k).tasks@[s].syscall_times@,
        final(k).frames@.len() == old(k).frames@.len(),
        forall|p: int|
            0 <= p < old(k).frames@.len() ==> #[trigger] final(k).frames@[p] == (
            if old(k).frames@[p] is Some && old(k).frames@[p]->Some_0.task == caller(old(k)) {
                None
            } else {
                old(k).frames@[p]
            }),
        forall|s: int|
            0 <= s < old(k).tasks@.len() && s != caller(old(k)) ==> #[trigger] final(k).pt(s)
                == old(k).pt(s),
        match final(k).current {
            Some(n) => n != caller(old(k)) && old(k).tasks@[n as int].status == TaskStatus::Ready,
            None => forall|s: int|
                0 <= s < old(k).tasks@.len() ==> #[trigger] old(k).tasks@[s].status
                    != TaskStatus::Ready,
        },
{
    let ghost k0 = *k;
    let c: usize = match k.current {
        Some(c) => c,
        None => {
            return;
        },
    };
    let ghost nt = k.tasks@.len();
    k.release_address_space(c);
    let ghost released = *k;
    k.stop_current(TaskStatus::Exited);
    let ghost pre = *k;
    k.run_next(Some(c), now);
    proof {
        assert(k0.tasks@[c as int].status == TaskStatus::Running);
        assert forall|s: int| 0 <= s < nt && s != c implies #[trigger] pre.tasks@[s].status
            == k0.tasks@[s].status by {
            assert(released.tasks@[s].status == k0.tasks@[s].status);
        }
        assert forall|s: int| 0 <= s < nt && s != c implies #[trigger] k.pt(s) == k0.pt(s) by {
            assert(k.pt(s) == pre.pt(s));
            assert(pre.pt(s) == released.pt(s));
        }
        match k.current {
            Some(n) => {
                assert(pre.tasks@[n as int].status == TaskStatus::Ready);
                assert(n != c);
            },
            None => {
                assert forall|s: int| 0 <= s < nt implies #[trigger] k0.tasks@[s].status
                    != TaskStatus::Ready by {
                    if s != c {
                        assert(pre.tasks@[s].status != TaskStatus::Ready);
                    }
                }
            },
        }
    }
}

/// Gives up the processor: the calling task becomes ready again and the
/// next ready task in round-robin order runs (the caller itself when no
/// other task is ready).
pub fn sys_yield(k: &mut Kernel, now: usize) -> (r: isize)
    requires
        old(k).wf(),
        old(k).current is Some,
    ensures
        r == 0,
        final(k).wf(),
        forall|s: int|
            0 <= s < old(k).tasks@.len() && #[trigger] old(k).tasks@[s].status
                == TaskStatus::Exited ==> final(k).tasks@[s].status == TaskStatus::Exited,
        final(k).frames@ == old(k).frames@,
        final(k).mem@ == old(k).mem@,
        final(k).tasks@.len() == old(k).tasks@.len(),
        forall|s: int| 0 <= s < old(k).tasks@.len() ==> #[trigger] final(k).pt(s) == old(k).pt(s),
        forall|s: int|
            0 <= s < old(k).tasks@.len() ==> (#[trigger] final(k).tasks@[s]).syscall_times@ == old(k).tasks@[s].syscall_times@,
        (exists|s: int|
            0 <= s < old(k).tasks@.len() && s != caller(old(k)) && #[trigger] old(k).tasks@[s].status
                == TaskStatus::Ready) ==> {
            &&& final(k).tasks@[caller(old(k))].status == TaskStatus::Ready
            &&& final(k).current matches Some(n) && n != caller(old(k)) && old(k).tasks@[n as int].status == TaskStatus::Ready && final(k).tasks@[n as int].status
                == TaskStatus::Running
        },
        (forall|s: int|
            0 <= s < old(k).tasks@.len() && s != caller(old(k)) ==> #[trigger] old(k).tasks@[s].status != TaskStatus::Ready) ==> {
            &&& final(k).current == old(k).current
            &&& final(k).tasks@[caller(old(k))].status == TaskStatus::Running
        },
{
    let ghost k0 = *k;
    let c: usize = match k.current {
        Some(c) => c,
        None => {
            return 0;
        },
    };
    let ghost nt = k.tasks@.len();
    k.stop_current(TaskStatus::Ready);
    let ghost pre = *k;
    k.run_next(Some(c), now);
    proof {
        assert(pre.tasks@[c as int].status == TaskStatus::Ready);
        assert forall|s: int| 0 <= s < nt implies #[trigger] k.pt(s) == k0.pt(s) by {
            assert(k.pt(s) == pre.pt(s));
        }
        assert forall|s: int| 0 <= s < nt && s != c implies #[trigger] pre.tasks@[s] == k0.tasks@[s] by {}
        match k.current {
            Some(n) => {
                if n != c {
                    assert(pre.tasks@[n as int] == k0.tasks@[n as int]);
                    assert(k.tasks@[c as int] == pre.tasks@[c as int]);
                } else {
                    assert forall|s: int| 0 <= s < nt && s != c implies #[trigger] k0.tasks@[s].status
                        != TaskStatus::Ready by {
                        assert(pre.tasks@[s].status != TaskStatus::Ready);
                    }
                }
            },
            None => {
                assert(pre.tasks@[c as int].status != TaskStatus::Ready);
            },
        }
    }
    0
}

/// Writes the time `now` (microseconds of the monotonic clock) as a
/// `TimeVal` to the calling task's user address `ts`. Fails when some byte
/// of the destination has no translation.
pub fn sys_get_time(k: &mut Kernel, ts: usize, _tz: usize, now: usize) -> (r: isize)
    requires
        old(k).wf(),
        old(k).current is Some,
    ensures
        r == (if span_mapped(old(k).pt(caller(old(k))), ts as int, 16) {
            0isize
        } else {
            -1isize
        }),
        final(k).wf(),
        final(k).frames@ == old(k).frames@,
        final(k).tasks@ == old(k).tasks@,
        final(k).current == old(k).current,
        final(k).mem@.len() == old(k).mem@.len(),
        r == 0 ==> forall|i: int|
            0 <= i < 16 ==> final(k).mem@[#[trigger] pa_of(old(k).pt(caller(old(k))), ts + i)]
                == time_val_bytes(time_val_of(now))[i],
        r == 0 ==> forall|a: int|
            0 <= a < old(k).mem@.len() && #[trigger] final(k).mem@[a] != old(k).mem@[a] ==> exists|
                i: int,
            | 0 <= i < 16 && #[trigger] pa_of(old(k).pt(caller(old(k))), ts + i) == a,
        r != 0 ==> final(k).mem@ == old(k).mem@,
{
    let c: usize = match k.current {
        Some(c) => c,
        None => {
            return -1;
        },
    };
    let tv: TimeVal = TimeVal::from_micros(now);
    let bytes: Vec<u8> = tv.to_bytes();
    let ghost k0 = *k;
    proof {
        k.lemma_frames_fit(c as int);
    }
    let ok: bool = copy_to_user(&mut k.mem, &k.tasks[c].page_table, ts, &bytes);
    proof {
        let pt = k0.pt(c as int);
        assert(k0 == *old(k));
        assert(k.frames@ == k0.frames@ && k.tasks@ == k0.tasks@ && k.mem@.len() == k0.mem@.len());
        assert forall|t: int| #[trigger] k.pt(t) == k0.pt(t) by {}
        assert forall|t: int| #[trigger] k.tasks@[t] == k0.tasks@[t] by {}
        if ok {
            assert forall|a: int|
                0 <= a < k0.mem@.len() && #[trigger] k.mem@[a] != k0.mem@[a] implies exists|i: int|
                0 <= i < 16 && #[trigger] pa_of(pt, ts + i) == a by {
                let i = choose|i: int| 0 <= i < bytes@.len() && #[trigger] pa_of(pt, ts + i) == a;
                assert(0 <= i < 16);
            }
        }
    }
    if ok {
        0
    } else {
        -1
    }
}

/// Priority scheduling is not offered: always fails.
pub fn sys_set_priority(_prio: isize) -> (r: isize)
    ensures
        r == -1,
{
    -1
}

/// Maps `[start, start + len)`, rounded out to whole pages, into the
/// calling task's address space with fresh frames and the permission
/// that `port` asks for (bit 0 read, bit 1 write, bit 2 execute; always
/// user-accessible). Fails, changing nothing, on a bad `port`, an
/// unaligned `start`, an empty or overflowing range, a page of the range
/// already mapped, or too few free frames.
pub fn sys_mmap(k: &mut Kernel, start: usize, len: usize, port: usize) -> (r: isize)
    requires
        old(k).wf(),
        old(k).current is Some,
    ensures
        r == (if mmap_succeeds(
            old(k).pt(caller(old(k))),
            free_count(old(k).frames@),
            start,
            len,
            port,
        ) {
            0isize
        } else {
            -1isize
        }),
        final(k).wf(),
        r != 0 ==> *final(k) == *old(k),
        final(k).same_bookkeeping(old(k)),
        final(k).frames@.len() == old(k).frames@.len(),
        r == 0 ==> free_count(final(k).frames@) + (ceil_vpn(start + len) - vpn_of(start as int))
            == free_count(old(k).frames@),
        r == 0 ==> forall|u: usize| #[trigger]
            final(k).pt(caller(old(k))).contains_key(u) == (old(k).pt(caller(old(k))).contains_key(
                u,
            ) || vpn_of(start as int) <= u < ceil_vpn(start + len)),
        r == 0 ==> forall|u: usize|
            vpn_of(start as int) <= u < ceil_vpn(start + len) ==> (#[trigger] final(k).pt(
                caller(old(k)),
            )[u]).perm == MapPermission::spec_from_port(port),
        r == 0 ==> forall|u: usize| #[trigger]
            old(k).pt(caller(old(k))).contains_key(u) ==> final(k).pt(caller(old(k)))[u] == old(k).pt(caller(old(k)))[u],
        forall|s: int|
            0 <= s < old(k).tasks@.len() && s != caller(old(k)) ==> #[trigger] final(k).pt(s)
                == old(k).pt(s),
        forall|p: int|
            0 <= p < old(k).frames@.len() && #[trigger] final(k).frames@[p] != old(k).frames@[p]
                ==> old(k).frames@[p] is None,
{
    let c: usize = match k.current {
        Some(c) => c,
        None => {
            return -1;
        },
    };
    if (port & !0x7 != 0) || (port & 0x7 == 0) || !aligned(start) {
        return -1;
    }
    if len == 0 || start > usize::MAX - len {
        return -1;
    }
    let first: usize = floor_page(start);
    let last: usize = ceil_page(start + len);
    let perm: MapPermission = MapPermission::from_port(port);
    assert(first < last);
    if k.map_area(c, first, last, perm) {
        0
    } else {
        -1
    }
}

/// Unmaps every page that `[start, start + len)` touches in the calling
/// task's address space and frees their frames. Fails, changing nothing,
/// when the range overflows or any of those pages is not mapped.
pub fn sys_munmap(k: &mut Kernel, start: usize, len: usize) -> (r: isize)
    requires
        old(k).wf(),
        old(k).current is Some,
    ensures
        r == (if munmap_succeeds(old(k).pt(caller(old(k))), start, len) {
            0isize
        } else {
            -1isize
        }),
        final(k).wf(),
        r != 0 ==> *final(k) == *old(k),
        final(k).same_bookkeeping(old(k)),
        final(k).frames@.len() == old(k).frames@.len(),
        r == 0 ==> free_count(final(k).frames@) == free_count(old(k).frames@) + (
        if vpn_of(start as int) < ceil_vpn(start + len) {
            ceil_vpn(start + len) - vpn_of(start as int)
        } else {
            0
        }),
        r == 0 ==> forall|u: usize| #[trigger]
            final(k).pt(caller(old(k))).contains_key(u) == (old(k).pt(caller(old(k))).contains_key(
                u,
            ) && !(vpn_of(start as int) <= u < ceil_vpn(start + len))),
        r == 0 ==> forall|u: usize| #[trigger]
            final(k).pt(caller(old(k))).contains_key(u) ==> final(k).pt(caller(old(k)))[u] == old(k).pt(caller(old(k)))[u],
        forall|s: int|
            0 <= s < old(k).tasks@.len() && s != caller(old(k)) ==> #[trigger] final(k).pt(s)
                == old(k).pt(s),
{
    let c: usize = match k.current {
        Some(c) => c,
        None => {
            return -1;
        },
    };
    if start > usize::MAX - len {
        return -1;
    }
    let first: usize = floor_page(start);
    let last: usize = ceil_page(start + len);
    if k.unmap_area(c, first, last) {
        0
    } else {
        -1
    }
}

/// Task introspection is not offered: always fails, writing nothing.
pub fn sys_task_info(_ti: usize) -> (r: isize)
    ensures
        r == -1,
{
    -1
}

/// Whether `id` names a syscall that the dispatcher routes.
pub open spec fn is_known_syscall(id: usize) -> bool {
    id == SYSCALL_EXIT || id == SYSCALL_YIELD || id == SYSCALL_GET_TIME || id
        == SYSCALL_SET_PRIORITY || id == SYSCALL_MMAP || id == SYSCALL_MUNMAP || id
        == SYSCALL_TASK_INFO
}

/// Routes syscall `id` of the running task with arguments `args`, at
/// clock reading `now`. A known call is first counted in the caller's
/// counter table (saturating), then carried out; an unknown one fails and
/// changes nothing. After `exit` the result goes to no one: the caller
/// never runs again.
pub fn syscall(k: &mut Kernel, id: usize, args: [usize; 3], now: usize) -> (r: isize)
    requires
        old(k).wf(),
        old(k).current is Some,
    ensures
        final(k).wf(),
        final(k).tasks@.len() == old(k).tasks@.len(),
        forall|s: int|
            0 <= s < old(k).tasks@.len() && #[trigger] old(k).tasks@[s].status
                == TaskStatus::Exited ==> final(k).tasks@[s].status == TaskStatus::Exited,
        !is_known_syscall(id) ==> r == -1 && *final(k) == *old(k),
        is_known_syscall(id) ==> final(k).tasks@[caller(old(k))].syscall_times@ == old(k).tasks@[caller(old(k))].syscall_times@.update(
            id as int,
            bumped(old(k).tasks@[caller(old(k))].syscall_times@[id as int]),
        ),
        id == SYSCALL_EXIT ==> final(k).tasks@[caller(old(k))].status == TaskStatus::Exited
            && final(k).pt(caller(old(k))).is_empty(),
        id == SYSCALL_YIELD ==> r == 0,
        id == SYSCALL_GET_TIME ==> r == (if span_mapped(
            old(k).pt(caller(old(k))),
            args@[0] as int,
            16,
        ) {
            0isize
        } else {
            -1isize
        }),
        id == SYSCALL_MMAP ==> r == (if mmap_succeeds(
            old(k).pt(caller(old(k))),
            free_count(old(k).frames@),
            args@[0],
            args@[1],
            args@[2],
        ) {
            0isize
        } else {
            -1isize
        }),
        id == SYSCALL_MUNMAP ==> r == (if munmap_succeeds(
            old(k).pt(caller(old(k))),
            args@[0],
            args@[1],
        ) {
            0isize
        } else {
            -1isize
        }),
        id == SYSCALL_SET_PRIORITY || id == SYSCALL_TASK_INFO ==> r == -1 && final(k).same_except_counters(old(k)),
        is_known_syscall(id) ==> forall|s: int|
            0 <= s < old(k).tasks@.len() && s != caller(old(k)) ==> (#[trigger] final(k).tasks@[s]).syscall_times@ == old(k).tasks@[s].syscall_times@,
        id == SYSCALL_YIELD && (exists|s: int|
            0 <= s < old(k).tasks@.len() && s != caller(old(k)) && #[trigger] old(k).tasks@[s].status
                == TaskStatus::Ready) ==> {
            &&& final(k).tasks@[caller(old(k))].status == TaskStatus::Ready
            &&& final(k).current matches Some(n) && n != caller(old(k)) && old(k).tasks@[n as int].status == TaskStatus::Ready && final(k).tasks@[n as int].status
                == TaskStatus::Running
        },
        id == SYSCALL_YIELD && (forall|s: int|
            0 <= s < old(k).tasks@.len() && s != caller(old(k)) ==> #[trigger] old(k).tasks@[s].status != TaskStatus::Ready) ==> {
            &&& final(k).current == old(k).current
            &&& final(k).tasks@[caller(old(k))].status == TaskStatus::Running
        },
        id == SYSCALL_YIELD ==> final(k).frames@ == old(k).frames@ && forall|s: int|
            0 <= s < old(k).tasks@.len() ==> #[trigger] final(k).pt(s) == old(k).pt(s),
        (id == SYSCALL_MMAP || id == SYSCALL_MUNMAP || id == SYSCALL_GET_TIME) && r != 0 ==> final(k).same_except_counters(old(k)),
        id == SYSCALL_MMAP && r == 0 ==> {
            &&& free_count(final(k).frames@) + (ceil_vpn(args@[0] + args@[1]) - vpn_of(
                args@[0] as int,
            )) == free_count(old(k).frames@)
            &&& forall|u: usize| #[trigger]
                final(k).pt(caller(old(k))).contains_key(u) == (old(k).pt(
                    caller(old(k)),
                ).contains_key(u) || vpn_of(args@[0] as int) <= u < ceil_vpn(args@[0] + args@[1]))
            &&& forall|u: usize|
                vpn_of(args@[0] as int) <= u < ceil_vpn(args@[0] + args@[1]) ==> (#[trigger] final(k).pt(caller(old(k)))[u]).perm == MapPermission::spec_from_port(args@[2])
            &&& forall|u: usize| #[trigger]
                old(k).pt(caller(old(k))).contains_key(u) ==> final(k).pt(caller(old(k)))[u] == old(k).pt(caller(old(k)))[u]
        },
        id == SYSCALL_MUNMAP && r == 0 ==> {
            &&& forall|u: usize| #[trigger]
                final(k).pt(caller(old(k))).contains_key(u) == (old(k).pt(
                    caller(old(k)),
                ).contains_key(u) && !(vpn_of(args@[0] as int) <= u < ceil_vpn(
                    args@[0] + args@[1],
                )))
            &&& forall|u: usize| #[trigger]
                final(k).pt(caller(old(k))).contains_key(u) ==> final(k).pt(caller(old(k)))[u]
                    == old(k).pt(caller(old(k)))[u]
        },
        (id == SYSCALL_MMAP || id == SYSCALL_MUNMAP) ==> forall|s: int|
            0 <= s < old(k).tasks@.len() && s != caller(old(k)) ==> #[trigger] final(k).pt(s)
                == old(k).pt(s),
        id == SYSCALL_GET_TIME && r == 0 ==> forall|i: int|
            0 <= i < 16 ==> final(k).mem@[#[trigger] pa_of(old(k).pt(caller(old(k))), args@[0] + i)]
                == time_val_bytes(time_val_of(now))[i],
{
    if !(id == SYSCALL_EXIT || id == SYSCALL_YIELD || id == SYSCALL_GET_TIME || id
        == SYSCALL_SET_PRIORITY || id == SYSCALL_MMAP || id == SYSCALL_MUNMAP || id
        == SYSCALL_TASK_INFO) {
        return -1;
    }
    let ghost c = caller(k);
    k.count_call(id);
    let ghost counted = *k;
    if id == SYSCALL_EXIT {
        sys_exit(k, args[0] as i32, now);
        assert(k.tasks@[c].syscall_times@ == counted.tasks@[c].syscall_times@);
        0
    } else if id == SYSCALL_YIELD {
        let r: isize = sys_yield(k, now);
        assert(k.tasks@[c].syscall_times@ == counted.tasks@[c].syscall_times@);
        assert forall|s: int| 0 <= s < counted.tasks@.len() implies #[trigger] old(k).tasks@[s].status
            == counted.tasks@[s].status by {
            assert(counted.tasks@[s].status == old(k).tasks@[s].status);
        }
        r
    } else if id == SYSCALL_GET_TIME {
        let r: isize = sys_get_time(k, args[0], args[1], now);
        r
    } else if id == SYSCALL_SET_PRIORITY {
        sys_set_priority(args[0] as isize)
    } else if id == SYSCALL_MMAP {
        let r: isize = sys_mmap(k, args[0], args[1], args[2]);
        assert(k.tasks@[c].syscall_times@ == counted.tasks@[c].syscall_times@);
        r
    } else if id == SYSCALL_MUNMAP {
        let r: isize = sys_munmap(k, args[0], args[1]);
        assert(k.tasks@[c].syscall_times@ == counted.tasks@[c].syscall_times@);
        r
    } else {
        sys_task_info(args[0])
    }
}

} // verus!
