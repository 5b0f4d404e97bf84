//! Facts about the syscalls that involve more than one call, proved over
//! the same spec functions their contracts use.
use vstd::prelude::*;

use crate::addr::{ceil_vpn, is_aligned, offset_of, vpn_of};
use crate::config::PAGE_SIZE;
use crate::copy::{frames_fit, pa_of, span_mapped};
use crate::page_table::PageTableEntry;
use crate::syscall::{
    micros_of, mmap_succeeds, munmap_succeeds, port_ok, time_le, time_val_bytes, time_val_of,
};

verus! {

/// An aligned, whole-page, non-empty mmap with any port from 1 to 7
/// succeeds on pages that are free (given enough frames), and a munmap of
/// the same range right after it, on the table the mmap left, succeeds
/// too.
pub proof fn lemma_mmap_then_munmap(
    pt: Map<usize, PageTableEntry>,
    free: nat,
    start: usize,
    len: usize,
    port: usize,
    after: Map<usize, PageTableEntry>,
)
    requires
        is_aligned(start as int),
        len % PAGE_SIZE == 0,
        0 < len,
        1 <= port <= 7,
        start + len <= usize::MAX,
        forall|u: usize|
            vpn_of(start as int) <= u < ceil_vpn(start + len) ==> !#[trigger] pt.contains_key(u),
        free >= len / PAGE_SIZE,
        forall|u: usize| #[trigger]
            after.contains_key(u) == (pt.contains_key(u) || vpn_of(start as int) <= u < ceil_vpn(
                start + len,
            )),
    ensures
        mmap_succeeds(pt, free, start, len, port),
        munmap_succeeds(after, start, len),
{
    assert(port & !0x7usize == 0 && port & 0x7usize != 0) by (bit_vector)
        requires
            1 <= port <= 7,
    ;
    assert(port_ok(port));
    assert(ceil_vpn(start + len) - vpn_of(start as int) == len / PAGE_SIZE);
}

/// A munmap whose range holds a page that is not mapped fails.
pub proof fn lemma_munmap_of_unmapped_fails(
    pt: Map<usize, PageTableEntry>,
    start: usize,
    len: usize,
    u: usize,
)
    requires
        vpn_of(start as int) <= u < ceil_vpn(start + len),
        !pt.contains_key(u),
    ensures
        !munmap_succeeds(pt, start, len),
{
}

/// After an mmap succeeds, a second mmap whose byte range overlaps the
/// first one fails.
pub proof fn lemma_overlapping_mmap_fails(
    pt: Map<usize, PageTableEntry>,
    free: nat,
    start: usize,
    len: usize,
    port: usize,
    after: Map<usize, PageTableEntry>,
    free_after: nat,
    start2: usize,
    len2: usize,
    port2: usize,
)
    requires
        mmap_succeeds(pt, free, start, len, port),
        forall|u: usize| #[trigger]
            after.contains_key(u) == (pt.contains_key(u) || vpn_of(start as int) <= u < ceil_vpn(
                start + len,
            )),
        start < start2 + len2,
        start2 < start + len,
    ensures
        !mmap_succeeds(after, free_after, start2, len2, port2),
{
    if mmap_succeeds(after, free_after, start2, len2, port2) {
        let b: int = if start < start2 {
            start2 as int
        } else {
            start as int
        };
        let u: usize = vpn_of(b) as usize;
        assert(vpn_of(start as int) <= u < ceil_vpn(start + len));
        assert(vpn_of(start2 as int) <= u < ceil_vpn(start2 + len2));
        assert(after.contains_key(u));
    }
}

/// An mmap with an unaligned start, a port bit other than read, write
/// or execute, or a zero port fails.
pub proof fn lemma_mmap_rejects_bad_arguments(
    pt: Map<usize, PageTableEntry>,
    free: nat,
    start: usize,
    len: usize,
    port: usize,
)
    requires
        !is_aligned(start as int) || port & !0x7usize != 0 || port == 0,
    ensures
        !mmap_succeeds(pt, free, start, len, port),
{
    if port == 0 {
        assert(port & 0x7usize == 0) by (bit_vector)
            requires
                port == 0,
        ;
    }
}

/// Later clock readings give `TimeVal`s that are no earlier, and a
/// `TimeVal` stands for exactly the microseconds it was made from.
pub proof fn lemma_time_monotonic(us1: usize, us2: usize)
    requires
        us1 <= us2,
    ensures
        time_le(time_val_of(us1), time_val_of(us2)),
        micros_of(time_val_of(us1)) == us1,
        micros_of(time_val_of(us2)) == us2,
{
    let a = us1 as int;
    let b = us2 as int;
    assert(a / 1_000_000 <= b / 1_000_000);
    if a / 1_000_000 == b / 1_000_000 {
        assert(a % 1_000_000 <= b % 1_000_000);
    }
}

/// Bytes written to a user range read back unchanged through the page
/// table; and when the range runs past the end of its first page, its
/// first and last bytes sit in two different frames.
pub proof fn lemma_copy_read_back(
    pt: Map<usize, PageTableEntry>,
    mem: Seq<u8>,
    dst: usize,
    data: Seq<u8>,
)
    requires
        frames_fit(pt, mem.len() as int),
        span_mapped(pt, dst as int, data.len() as int),
        forall|i: int| 0 <= i < data.len() ==> mem[#[trigger] pa_of(pt, dst + i)] == data[i],
    ensures
        Seq::new(data.len(), |i: int| mem[pa_of(pt, dst + i)]) == data,
        offset_of(dst as int) + data.len() > PAGE_SIZE ==> pt[vpn_of(dst as int) as usize].ppn
            != pt[vpn_of(dst + data.len() - 1) as usize].ppn,
{
    assert(Seq::new(data.len(), |i: int| mem[pa_of(pt, dst + i)]) =~= data);
    if offset_of(dst as int) + data.len() > PAGE_SIZE {
        let last = (data.len() - 1) as int;
        assert(pt.contains_key(vpn_of(dst + 0) as usize));
        assert(pt.contains_key(vpn_of(dst + last) as usize));
        assert(vpn_of(dst as int) != vpn_of(dst + last));
    }
}

/// Two successful time reads, the second at a clock reading no earlier
/// than the first: the bytes each one left at its destination read back
/// as the layout of a `TimeVal`, and the first `TimeVal` is no later than
/// the second.
pub proof fn lemma_get_time_calls_ordered(
    pt1: Map<usize, PageTableEntry>,
    mem1: Seq<u8>,
    ts1: usize,
    now1: usize,
    pt2: Map<usize, PageTableEntry>,
    mem2: Seq<u8>,
    ts2: usize,
    now2: usize,
)
    requires
        now1 <= now2,
        forall|i: int|
            0 <= i < 16 ==> mem1[#[trigger] pa_of(pt1, ts1 + i)] == time_val_bytes(
                time_val_of(now1),
            )[i],
        forall|i: int|
            0 <= i < 16 ==> mem2[#[trigger] pa_of(pt2, ts2 + i)] == time_val_bytes(
                time_val_of(now2),
            )[i],
    ensures
        Seq::new(16, |i: int| mem1[pa_of(pt1, ts1 + i)]) == time_val_bytes(time_val_of(now1)),
        Seq::new(16, |i: int| mem2[pa_of(pt2, ts2 + i)]) == time_val_bytes(time_val_of(now2)),
        time_le(time_val_of(now1), time_val_of(now2)),
{
    assert(Seq::new(16, |i: int| mem1[pa_of(pt1, ts1 + i)]) =~= time_val_bytes(time_val_of(now1)));
    assert(Seq::new(16, |i: int| mem2[pa_of(pt2, ts2 + i)]) =~= time_val_bytes(time_val_of(now2)));
    lemma_time_monotonic(now1, now2);
}

/// A user range of at most one page that runs past the end of its first
/// page splits in two: its head lies at the same offset in the frame of
/// the first page, its tail at the start of the frame of the next page.
pub proof fn lemma_copy_split_frames(pt: Map<usize, PageTableEntry>, dst: usize, len: int)
    requires
        span_mapped(pt, dst as int, len),
        len <= PAGE_SIZE,
        offset_of(dst as int) + len > PAGE_SIZE,
    ensures
        pt.contains_key(vpn_of(dst as int) as usize),
        pt.contains_key((vpn_of(dst as int) + 1) as usize),
        forall|i: int|
            0 <= i < PAGE_SIZE - offset_of(dst as int) ==> #[trigger] pa_of(pt, dst + i)
                == pt[vpn_of(dst as int) as usize].ppn * PAGE_SIZE + offset_of(dst as int) + i,
        forall|i: int|
            PAGE_SIZE - offset_of(dst as int) <= i < len ==> #[trigger] pa_of(pt, dst + i)
                == pt[(vpn_of(dst as int) + 1) as usize].ppn * PAGE_SIZE + (i - (PAGE_SIZE
                - offset_of(dst as int))),
{
    let o = offset_of(dst as int);
    let q = vpn_of(dst as int);
    assert(dst == q * 4096 + o);
    assert(pt.contains_key(vpn_of(dst + 0) as usize));
    let t = 4096 - o;
    assert(vpn_of(dst + t) == q + 1);
    assert(pt.contains_key(vpn_of(dst + t) as usize));
    assert forall|i: int| 0 <= i < 4096 - o implies #[trigger] pa_of(pt, dst + i) == pt[q as usize].ppn
        * 4096 + o + i by {
        assert(vpn_of(dst + i) == q);
        assert(offset_of(dst + i) == o + i);
    }
    assert forall|i: int| 4096 - o <= i < len implies #[trigger] pa_of(pt, dst + i) == pt[(q
        + 1) as usize].ppn * 4096 + (i - (4096 - o)) by {
        assert(dst + i == (q + 1) * 4096 + (i - (4096 - o)));
        assert(vpn_of(dst + i) == q + 1);
        assert(offset_of(dst + i) == i - (4096 - o));
    }
}

} // verus!
