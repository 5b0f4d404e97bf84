//! Physical frames: who owns each one, and the bytes they hold.
use vstd::prelude::*;

use crate::config::PAGE_SIZE;

verus! {

/// The virtual page that a frame backs: a task and a page number in its
/// address space.
#[derive(Clone, Copy, Debug, PartialEq, Eq, Structural)]
pub struct FrameOwner {
    pub task: usize,
    pub vpn: usize,
}

/// Number of free frames among the first `k` entries of `s`.
pub open spec fn free_prefix(s: Seq<Option<FrameOwner>>, k: int) -> nat
    decreases k,
{
    if k <= 0 {
        0
    } else {
        free_prefix(s, k - 1) + if s[k - 1] is None { 1nat } else { 0nat }
    }
}

/// Number of free frames in `s`.
pub open spec fn free_count(s: Seq<Option<FrameOwner>>) -> nat {
    free_prefix(s, s.len() as int)
}

/// Marking one free frame as taken lowers the free count of every prefix
/// that holds it by one.
proof fn lemma_free_prefix_take(s: Seq<Option<FrameOwner>>, p: int, o: FrameOwner, k: int)
    requires
        0 <= p < s.len(),
        s[p] is None,
        0 <= k <= s.len(),
    ensures
        p < k ==> free_prefix(s.update(p, Some(o)), k) + 1 == free_prefix(s, k),
        k <= p ==> free_prefix(s.update(p, Some(o)), k) == free_prefix(s, k),
    decreases k,
{
    if k > 0 {
        lemma_free_prefix_take(s, p, o, k - 1);
    }
}

/// Marking one taken frame as free raises the free count by one.
proof fn lemma_free_prefix_give(s: Seq<Option<FrameOwner>>, p: int, k: int)
    requires
        0 <= p < s.len(),
        s[p] is Some,
        0 <= k <= s.len(),
    ensures
        p < k ==> free_prefix(s.update(p, None), k) == free_prefix(s, k) + 1,
        k <= p ==> free_prefix(s.update(p, None), k) == free_prefix(s, k),
    decreases k,
{
    if k > 0 {
        lemma_free_prefix_give(s, p, k - 1);
    }
}

/// The frame allocator: one slot per physical frame, `None` when free.
pub struct FrameTable {
    owners: Vec<Option<FrameOwner>>,
}

impl View for FrameTable {
    type V = Seq<Option<FrameOwner>>;

    closed spec fn view(&self) -> Seq<Option<FrameOwner>> {
        self.owners@
    }
}

impl FrameTable {
    /// A table of `n` free frames.
    pub fn new(n: usize) -> (r: FrameTable)
        ensures
            r@.len() == n,
            forall|p: int| 0 <= p < n ==> #[trigger] r@[p] is None,
    {
        let mut owners: Vec<Option<FrameOwner>> = Vec::new();
        for i in 0..n
            invariant
                owners@.len() == i,
                forall|p: int| 0 <= p < i ==> #[trigger] owners@[p] is None,
        {
            owners.push(None);
        }
        FrameTable { owners }
    }

    /// Number of frames, free or not.
    pub fn len(&self) -> (r: usize)
        ensures
            r == self@.len(),
    {
        self.owners.len()
    }

    /// Who owns frame `ppn`, if anyone.
    pub fn owner(&self, ppn: usize) -> (r: Option<FrameOwner>)
        requires
            ppn < self@.len(),
        ensures
            r == self@[ppn as int],
    {
        self.owners[ppn]
    }

    /// The `n` lowest free frames, in increasing order; `None` when fewer
    /// than `n` frames are free. Nothing is taken.
    pub fn find_free(&self, n: usize) -> (r: Option<Vec<usize>>)
        ensures
            r is None <==> free_count(self@) < n,
            r matches Some(v) ==> {
                &&& v@.len() == n
                &&& forall|i: int| 0 <= i < n ==> #[trigger] v@[i] < self@.len()
                &&& forall|i: int| 0 <= i < n ==> self@[#[trigger] v@[i] as int] is None
                &&& forall|i: int, j: int| 0 <= i < j < n ==> #[trigger] v@[i] < #[trigger] v@[j]
            },
    {
        let mut found: Vec<usize> = Vec::new();
        let mut p: usize = 0;
        while p < self.owners.len() && found.len() < n
            invariant
                p <= self@.len(),
                found@.len() == free_prefix(self@, p as int),
                found@.len() <= n,
                forall|i: int| 0 <= i < found@.len() ==> #[trigger] found@[i] < p,
                forall|i: int| 0 <= i < found@.len() ==> self@[#[trigger] found@[i] as int] is None,
                forall|i: int, j: int|
                    0 <= i < j < found@.len() ==> #[trigger] found@[i] < #[trigger] found@[j],
            decreases self@.len() - p,
        {
            if self.owners[p].is_none() {
                found.push(p);
            }
            p = p + 1;
        }
        if found.len() < n {
            proof {
                assert(p == self@.len());
            }
            None
        } else {
            proof {
                lemma_free_prefix_monotone(self@, p as int, self@.len() as int);
            }
            Some(found)
        }
    }

    /// Gives the free frame `ppn` to `o`.
    pub fn take(&mut self, ppn: usize, o: FrameOwner)
        requires
            ppn < old(self)@.len(),
            old(self)@[ppn as int] is None,
        ensures
            final(self)@ == old(self)@.update(ppn as int, Some(o)),
            free_count(final(self)@) + 1 == free_count(old(self)@),
    {
        proof {
            lemma_free_prefix_take(self@, ppn as int, o, self@.len() as int);
        }
        self.owners.set(ppn, Some(o));
    }

    /// Returns the taken frame `ppn` to the free pool.
    pub fn give_back(&mut self, ppn: usize)
        requires
            ppn < old(self)@.len(),
            old(self)@[ppn as int] is Some,
        ensures
            final(self)@ == old(self)@.update(ppn as int, None),
            free_count(final(self)@) == free_count(old(self)@) + 1,
    {
        proof {
            lemma_free_prefix_give(self@, ppn as int, self@.len() as int);
        }
        self.owners.set(ppn, None);
    }

    /// Frees every frame owned by task `task`.
    pub fn give_back_task(&mut self, task: usize)
        ensures
            final(self)@.len() == old(self)@.len(),
            forall|p: int|
                0 <= p < old(self)@.len() ==> #[trigger] final(self)@[p] == (match old(self)@[p] {
                    Some(o) => if o.task == task { None } else { Some(o) },
                    None => None,
                }),
    {
        let n: usize = self.owners.len();
        for p in 0..n
            invariant
                n == old(self)@.len(),
                self@.len() == old(self)@.len(),
                forall|q: int|
                    0 <= q < p ==> #[trigger] self@[q] == (match old(self)@[q] {
                        Some(o) => if o.task == task { None } else { Some(o) },
                        None => None,
                    }),
                forall|q: int| p <= q < self@.len() ==> #[trigger] self@[q] == old(self)@[q],
        {
            if let Some(o) = self.owners[p] {
                if o.task == task {
                    self.owners.set(p, None);
                }
            }
        }
    }
}

/// The free count of a prefix never exceeds that of a longer prefix.
proof fn lemma_free_prefix_monotone(s: Seq<Option<FrameOwner>>, j: int, k: int)
    requires
        0 <= j <= k <= s.len(),
    ensures
        free_prefix(s, j) <= free_prefix(s, k),
    decreases k - j,
{
    if j < k {
        lemma_free_prefix_monotone(s, j, k - 1);
    }
}

/// A table with no frame taken has all its frames free.
pub proof fn lemma_free_count_all_free(s: Seq<Option<FrameOwner>>)
    requires
        forall|p: int| 0 <= p < s.len() ==> #[trigger] s[p] is None,
    ensures
        free_count(s) == s.len(),
{
    lemma_free_prefix_all_free(s, s.len() as int);
}

proof fn lemma_free_prefix_all_free(s: Seq<Option<FrameOwner>>, k: int)
    requires
        0 <= k <= s.len(),
        forall|p: int| 0 <= p < s.len() ==> #[trigger] s[p] is None,
    ensures
        free_prefix(s, k) == k,
    decreases k,
{
    if k > 0 {
        lemma_free_prefix_all_free(s, k - 1);
    }
}

/// Physical memory: `PAGE_SIZE` bytes per frame, frame after frame.
pub struct PhysMem {
    bytes: Vec<u8>,
}

impl View for PhysMem {
    type V = Seq<u8>;

    closed spec fn view(&self) -> Seq<u8> {
        self.bytes@
    }
}

impl PhysMem {
    /// Zero-filled memory of `frames` frames.
    pub fn new(frames: usize) -> (r: PhysMem)
        requires
            frames * PAGE_SIZE <= usize::MAX,
        ensures
            r@.len() == frames * PAGE_SIZE,
            forall|a: int| 0 <= a < r@.len() ==> #[trigger] r@[a] == 0,
    {
        let n: usize = frames * PAGE_SIZE;
        let mut bytes: Vec<u8> = Vec::new();
        for i in 0..n
            invariant
                bytes@.len() == i,
                forall|a: int| 0 <= a < i ==> #[trigger] bytes@[a] == 0,
        {
            bytes.push(0);
        }
        PhysMem { bytes }
    }

    /// Number of bytes.
    pub fn len(&self) -> (r: usize)
        ensures
            r == self@.len(),
    {
        self.bytes.len()
    }

    /// The byte at physical address `pa`.
    pub fn read(&self, pa: usize) -> (r: u8)
        requires
            pa < self@.len(),
        ensures
            r == self@[pa as int],
    {
        self.bytes[pa]
    }

    /// Stores `b` at physical address `pa`.
    pub fn write(&mut self, pa: usize, b: u8)
        requires
            pa < old(self)@.len(),
        ensures
            final(self)@ == old(self)@.update(pa as int, b),
    {
        self.bytes.set(pa, b);
    }
}

} // verus!
