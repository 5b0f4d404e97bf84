//! Copies between kernel values and memory named by user virtual addresses.
//! Every access goes through the page table: a user address is never used
//! as a physical one.
use vstd::prelude::*;

use crate::addr::{offset_of, vpn_of};
use crate::config::PAGE_SIZE;
use crate::frame::PhysMem;
use crate::page_table::{PageTable, PageTableEntry};

verus! {

/// Whether every byte of `[va, va + len)` lies in a mapped page of `pt`
/// (and the range ends inside the address space).
pub open spec fn span_mapped(pt: Map<usize, PageTableEntry>, va: int, len: int) -> bool {
    &&& va + len <= usize::MAX
    &&& forall|i: int| 0 <= i < len ==> pt.contains_key(#[trigger] vpn_of(va + i) as usize)
}

/// Physical address that the mapped virtual address `va` translates to.
pub open spec fn pa_of(pt: Map<usize, PageTableEntry>, va: int) -> int {
    pt[vpn_of(va) as usize].ppn * PAGE_SIZE as int + offset_of(va)
}

/// Every mapped page has its own frame, and that frame lies in memory of
/// `mem_len` bytes.
pub open spec fn frames_fit(pt: Map<usize, PageTableEntry>, mem_len: int) -> bool {
    &&& forall|v: usize| #[trigger]
        pt.contains_key(v) ==> (pt[v].ppn + 1) * PAGE_SIZE as int <= mem_len
    &&& forall|v: usize, w: usize|
        #[trigger] pt.contains_key(v) && #[trigger] pt.contains_key(w) && v != w ==> pt[v].ppn
            != pt[w].ppn
}

/// Two distinct mapped addresses translate to distinct physical addresses.
proof fn lemma_pa_injective(pt: Map<usize, PageTableEntry>, mem_len: int, a: int, b: int)
    requires
        frames_fit(pt, mem_len),
        0 <= a,
        0 <= b,
        a != b,
        pt.contains_key(vpn_of(a) as usize),
        pt.contains_key(vpn_of(b) as usize),
        a <= usize::MAX,
        b <= usize::MAX,
    ensures
        pa_of(pt, a) != pa_of(pt, b),
{
    let va = vpn_of(a) as usize;
    let vb = vpn_of(b) as usize;
    let pa = pt[va].ppn as int;
    let pb = pt[vb].ppn as int;
    let oa = offset_of(a);
    let ob = offset_of(b);
    assert(vpn_of(a) * 4096 + oa == a && 0 <= oa < 4096);
    assert(vpn_of(b) * 4096 + ob == b && 0 <= ob < 4096);
    if va == vb {
        assert(oa != ob);
    } else {
        assert(pa != pb);
        assert(pa * 4096 + oa != pb * 4096 + ob) by (nonlinear_arith)
            requires
                pa != pb,
                0 <= oa < 4096,
                0 <= ob < 4096,
        ;
    }
}

/// Writes `data` to the user range that starts at `dst`, page by page:
/// each page of the range is translated on its own, so a value that
/// straddles a page boundary lands in two unrelated frames. Fails, writing
/// nothing, when some byte of the range has no translation.
pub fn copy_to_user(mem: &mut PhysMem, pt: &PageTable, dst: usize, data: &Vec<u8>) -> (r: bool)
    requires
        frames_fit(pt@, old(mem)@.len() as int),
    ensures
        r == span_mapped(pt@, dst as int, data@.len() as int),
        final(mem)@.len() == old(mem)@.len(),
        r ==> forall|i: int|
            0 <= i < data@.len() ==> final(mem)@[#[trigger] pa_of(pt@, dst + i)] == data@[i],
        r ==> forall|a: int|
            0 <= a < old(mem)@.len() && #[trigger] final(mem)@[a] != old(mem)@[a] ==> exists|i: int|
                0 <= i < data@.len() && #[trigger] pa_of(pt@, dst + i) == a,
        !r ==> final(mem)@ == old(mem)@,
{
    let len: usize = data.len();
    if dst > usize::MAX - len {
        return false;
    }
    let end: usize = dst + len;
    // every page of the range must translate before anything is written
    let mut cur: usize = dst;
    while cur < end
        invariant
            dst <= cur,
            end == dst + data@.len(),
            end <= usize::MAX,
            forall|i: int|
                0 <= i && dst + i < cur ==> pt@.contains_key(#[trigger] vpn_of(dst + i) as usize),
        decreases end - cur,
    {
        let vpn: usize = cur / PAGE_SIZE;
        if !pt.is_mapped(vpn) {
            assert(vpn_of(dst + (cur - dst)) as usize == vpn);
            return false;
        }
        let next: usize = if vpn + 1 > end / PAGE_SIZE {
            end
        } else {
            (vpn + 1) * PAGE_SIZE
        };
        assert forall|i: int| 0 <= i && dst + i < next implies pt@.contains_key(
            #[trigger] vpn_of(dst + i) as usize,
        ) by {
            if dst + i >= cur {
                assert(vpn_of(dst + i) == vpn);
            }
        }
        cur = if next < end { next } else { end };
    }
    assert(span_mapped(pt@, dst as int, len as int)) by {
        assert forall|i: int| 0 <= i < len implies pt@.contains_key(
            #[trigger] vpn_of(dst + i) as usize,
        ) by {
            assert(dst + i < cur);
        }
    }
    // commit, one page at a time
    let ghost old_mem = mem@;
    let mut k: usize = 0;
    while k < len
        invariant
            k <= len,
            len == data@.len(),
            end == dst + len,
            end <= usize::MAX,
            span_mapped(pt@, dst as int, len as int),
            frames_fit(pt@, old_mem.len() as int),
            mem@.len() == old_mem.len(),
            forall|i: int| 0 <= i < k ==> mem@[#[trigger] pa_of(pt@, dst + i)] == data@[i],
            forall|a: int|
                0 <= a < old_mem.len() && #[trigger] mem@[a] != old_mem[a] ==> exists|i: int|
                    0 <= i < k && #[trigger] pa_of(pt@, dst + i) == a,
        decreases len - k,
    {
        let va: usize = dst + k;
        let vpn: usize = va / PAGE_SIZE;
        assert(vpn_of(dst + k) as usize == vpn);
        let ppn: usize = match pt.translate(vpn) {
            Some(e) => e.ppn,
            None => {
                return false;
            },
        };
        let off: usize = va % PAGE_SIZE;
        let room: usize = PAGE_SIZE - off;
        let stop: usize = if len - k < room { len } else { k + room };
        assert((ppn + 1) * 4096 <= old_mem.len());
        // the frame lies inside memory, whose size fits a usize
        let total: usize = mem.len();
        assert(old_mem.len() == total);
        let base: usize = ppn * PAGE_SIZE;
        let k0: usize = k;
        while k < stop
            invariant
                k0 <= k <= stop,
                stop <= len,
                stop - k0 <= PAGE_SIZE - off,
                off == offset_of(dst + k0),
                vpn == vpn_of(dst + k0),
                pt@.contains_key(vpn),
                ppn == pt@[vpn].ppn,
                base == ppn * PAGE_SIZE,
                (ppn + 1) * PAGE_SIZE <= old_mem.len(),
                len == data@.len(),
                end == dst + len,
                end <= usize::MAX,
                span_mapped(pt@, dst as int, len as int),
                frames_fit(pt@, old_mem.len() as int),
                mem@.len() == old_mem.len(),
                forall|i: int| 0 <= i < k ==> mem@[#[trigger] pa_of(pt@, dst + i)] == data@[i],
                forall|a: int|
                    0 <= a < old_mem.len() && #[trigger] mem@[a] != old_mem[a] ==> exists|i: int|
                        0 <= i < k && #[trigger] pa_of(pt@, dst + i) == a,
            decreases stop - k,
        {
            let pa: usize = base + off + (k - k0);
            proof {
                let a = dst + k;
                assert(vpn_of(a) == vpn && offset_of(a) == off + (k - k0));
                assert(pa == pa_of(pt@, a));
                assert forall|i: int| 0 <= i < k implies #[trigger] pa_of(pt@, dst + i) != pa by {
                    assert(pt@.contains_key(vpn_of(dst + i) as usize));
                    assert(pt@.contains_key(vpn_of(dst + k) as usize));
                    lemma_pa_injective(pt@, old_mem.len() as int, dst + i, dst + k);
                }
            }
            mem.write(pa, data[k]);
            proof {
                assert forall|a: int|
                    0 <= a < old_mem.len() && #[trigger] mem@[a] != old_mem[a] implies exists|
                    i: int,
                | 0 <= i < k + 1 && #[trigger] pa_of(pt@, dst + i) == a by {
                    if a == pa {
                        assert(pa_of(pt@, dst + k) == a);
                    }
                }
            }
            k = k + 1;
        }
    }
    true
}

/// Reads `len` bytes from the user range that starts at `src`, translating
/// each byte's address separately; `None` when some byte has no
/// translation.
pub fn copy_from_user(mem: &PhysMem, pt: &PageTable, src: usize, len: usize) -> (r: Option<
    Vec<u8>,
>)
    requires
        frames_fit(pt@, mem@.len() as int),
    ensures
        r is Some == span_mapped(pt@, src as int, len as int),
        r matches Some(v) ==> v@.len() == len && forall|i: int|
            0 <= i < len ==> v@[i] == mem@[#[trigger] pa_of(pt@, src + i)],
{
    if src > usize::MAX - len {
        return None;
    }
    let mut out: Vec<u8> = Vec::new();
    for k in 0..len
        invariant
            src + len <= usize::MAX,
            frames_fit(pt@, mem@.len() as int),
            out@.len() == k,
            forall|i: int| 0 <= i < k ==> pt@.contains_key(#[trigger] vpn_of(src + i) as usize),
            forall|i: int| 0 <= i < k ==> out@[i] == mem@[#[trigger] pa_of(pt@, src + i)],
    {
        let va: usize = src + k;
        let vpn: usize = va / PAGE_SIZE;
        assert(vpn_of(src + k) as usize == vpn);
        match pt.translate(vpn) {
            Some(e) => {
                assert((e.ppn + 1) * 4096 <= mem@.len());
                // the frame lies inside memory, whose size fits a usize
                let total: usize = mem.len();
                assert(mem@.len() == total);
                let pa: usize = e.ppn * PAGE_SIZE + va % PAGE_SIZE;
                assert(pa == pa_of(pt@, src + k));
                out.push(mem.read(pa));
            },
            None => {
                return None;
            },
        }
    }
    Some(out)
}

} // verus!
