//! The physical frame allocator: a bump pointer over a range of page
//! numbers, plus a stack of frames that were handed back.
use vstd::prelude::*;
use crate::address::{PhysAddr, PhysPageNum, page_ceil, page_floor};
use crate::config::MEMORY_END;

verus! {

/// The abstract state of a [`StackFrameAllocator`].
pub struct FrameAllocatorModel {
    /// First page number never handed out by the bump pointer.
    pub current: nat,
    /// First page number past the managed range.
    pub end: nat,
    /// Frames handed back, the most recent last.
    pub recycled: Seq<usize>,
}

impl FrameAllocatorModel {
    /// The state is consistent: the bump pointer stays within the range, and
    /// the recycled stack holds distinct frames that the bump pointer has passed.
    pub open spec fn wf(self) -> bool {
        &&& self.current <= self.end
        &&& self.end <= usize::MAX
        &&& self.recycled.no_duplicates()
        &&& forall|i: int| 0 <= i < self.recycled.len() ==> #[trigger] self.recycled[i] < self.current
    }

    /// Frame `ppn` is in use: the bump pointer has passed it and it is not on
    /// the recycled stack.
    pub open spec fn is_allocated(self, ppn: usize) -> bool {
        ppn < self.current && !self.recycled.contains(ppn)
    }

    /// The set of frames in use.
    pub open spec fn allocated(self) -> Set<usize> {
        Set::new(|ppn: usize| self.is_allocated(ppn))
    }

    /// Some frame can still be handed out.
    pub open spec fn has_free_frame(self) -> bool {
        self.recycled.len() > 0 || self.current < self.end
    }

    /// The frame that an allocation hands out: the most recently recycled
    /// frame if there is one, else the bump pointer, else none.
    pub open spec fn alloc_result(self) -> Option<usize> {
        if self.recycled.len() > 0 {
            Some(self.recycled.last())
        } else if self.current == self.end {
            None
        } else {
            Some(self.current as usize)
        }
    }

    /// The state after an allocation.
    pub open spec fn after_alloc(self) -> Self {
        if self.recycled.len() > 0 {
            FrameAllocatorModel { recycled: self.recycled.drop_last(), ..self }
        } else if self.current == self.end {
            self
        } else {
            FrameAllocatorModel { current: self.current + 1, ..self }
        }
    }

    /// The state after frame `ppn` is handed back.
    pub open spec fn after_dealloc(self, ppn: usize) -> Self {
        FrameAllocatorModel { recycled: self.recycled.push(ppn), ..self }
    }

    /// The state after the allocator is pointed at the range `[l, r)`.
    pub open spec fn after_init(self, l: usize, r: usize) -> Self {
        FrameAllocatorModel { current: l as nat, end: r as nat, ..self }
    }
}

/// Maps an optional page number to the optional frame index it holds.
pub open spec fn ppn_option(o: Option<PhysPageNum>) -> Option<usize> {
    match o {
        Some(p) => Some(p.0),
        None => None,
    }
}

/// Hands out physical frames: first the ones handed back, most recent first,
/// then fresh ones from a bump pointer over `[current, end)`.
#[derive(Debug)]
pub struct StackFrameAllocator {
    current: usize,
    end: usize,
    recycled: Vec<usize>,
}

impl View for StackFrameAllocator {
    type V = FrameAllocatorModel;

    closed spec fn view(&self) -> FrameAllocatorModel {
        FrameAllocatorModel {
            current: self.current as nat,
            end: self.end as nat,
            recycled: self.recycled@,
        }
    }
}

impl StackFrameAllocator {
    /// An allocator over the empty range `[0, 0)` with nothing recycled.
    pub fn new() -> (ret: Self)
        ensures
            ret@ == (FrameAllocatorModel { current: 0, end: 0, recycled: Seq::empty() }),
            ret@.wf(),
    {
        StackFrameAllocator { current: 0, end: 0, recycled: Vec::new() }
    }

    /// Points the bump pointer at the range `[l, r)`.
    ///
    /// The recycled stack is kept, so every frame on it must lie below `l`;
    /// otherwise such a frame could be handed out twice.
    pub fn init(&mut self, l: PhysPageNum, r: PhysPageNum)
        requires
            old(self)@.wf(),
            l.0 <= r.0,
            forall|i: int| 0 <= i < old(self)@.recycled.len() ==> #[trigger] old(self)@.recycled[i] < l.0,
        ensures
            final(self)@ == old(self)@.after_init(l.0, r.0),
            final(self)@.wf(),
    {
        self.current = l.0;
        self.end = r.0;
    }

    /// Hands out a frame: the most recently recycled one if any, else the
    /// next fresh one, else `None` when the range is used up.
    pub fn alloc_frame(&mut self) -> (ret: Option<PhysPageNum>)
        requires
            old(self)@.wf(),
        ensures
            final(self)@ == old(self)@.after_alloc(),
            ppn_option(ret) == old(self)@.alloc_result(),
            final(self)@.wf(),
            ret is None <==> !old(self)@.has_free_frame(),
            ret matches Some(p) ==> {
                &&& !old(self)@.is_allocated(p.0)
                &&& p.0 < old(self)@.end
                &&& final(self)@.allocated() == old(self)@.allocated().insert(p.0)
            },
            ret is None ==> final(self)@ == old(self)@,
    {
        proof {
            lemma_alloc_hands_out_free_frame(self@);
        }
        if let Some(ppn) = self.recycled.pop() {
            Some(PhysPageNum(ppn))
        } else {
            if self.current == self.end {
                None
            } else {
                self.current = self.current + 1;
                Some(PhysPageNum(self.current - 1))
            }
        }
    }

    /// Hands frame `ppn` back; it becomes the next frame that `alloc_frame` hands out.
    ///
    /// Only a frame in use may be handed back: see [`Self::is_allocated`].
    pub fn dealloc(&mut self, ppn: PhysPageNum)
        requires
            old(self)@.wf(),
            old(self)@.is_allocated(ppn.0),
        ensures
            final(self)@ == old(self)@.after_dealloc(ppn.0),
            final(self)@.wf(),
            final(self)@.allocated() == old(self)@.allocated().remove(ppn.0),
    {
        proof {
            lemma_dealloc_frees_frame(self@, ppn.0);
        }
        self.recycled.push(ppn.0);
    }

    /// Whether frame `ppn` is in use, that is, whether `dealloc` accepts it:
    /// the bump pointer has passed it and it is not on the recycled stack.
    pub fn is_allocated(&self, ppn: PhysPageNum) -> (b: bool)
        ensures
            b == self@.is_allocated(ppn.0),
    {
        if ppn.0 >= self.current {
            return false;
        }
        let mut i: usize = 0;
        while i < self.recycled.len()
            invariant
                i <= self.recycled@.len(),
                forall|j: int| 0 <= j < i ==> self.recycled@[j] != ppn.0,
            decreases self.recycled@.len() - i,
        {
            if self.recycled[i] == ppn.0 {
                return false;
            }
            i = i + 1;
        }
        true
    }
}

/// An allocation hands out a frame that is free and below the end of the
/// range, and afterwards exactly that frame has joined the frames in use.
/// It hands out nothing exactly when no frame is free.
pub proof fn lemma_alloc_hands_out_free_frame(s: FrameAllocatorModel)
    requires
        s.wf(),
    ensures
        s.after_alloc().wf(),
        s.alloc_result() is None <==> !s.has_free_frame(),
        s.alloc_result() is None ==> s.after_alloc() == s,
        s.alloc_result() matches Some(p) ==> {
            &&& !s.is_allocated(p)
            &&& p < s.end
            &&& s.after_alloc().allocated() == s.allocated().insert(p)
        },
{
    let t = s.after_alloc();
    if s.recycled.len() > 0 {
        let p = s.recycled.last();
        let rest = s.recycled.drop_last();
        assert(s.recycled.contains(p));
        assert forall|i: int| 0 <= i < rest.len() implies #[trigger] rest[i] < t.current by {
            assert(rest[i] == s.recycled[i]);
        }
        assert forall|q: usize| #[trigger] t.allocated().contains(q) == s.allocated().insert(p).contains(q) by {
            if q == p {
                if rest.contains(q) {
                    let k = choose|k: int| 0 <= k < rest.len() && rest[k] == q;
                    assert(s.recycled[k] == s.recycled[s.recycled.len() - 1]);
                }
                assert(s.recycled[s.recycled.len() - 1] < s.current);
            } else {
                if s.recycled.contains(q) {
                    let k = choose|k: int| 0 <= k < s.recycled.len() && s.recycled[k] == q;
                    assert(k < rest.len());
                    assert(rest[k] == q);
                }
                if rest.contains(q) {
                    let k = choose|k: int| 0 <= k < rest.len() && rest[k] == q;
                    assert(s.recycled[k] == q);
                }
            }
        }
        assert(t.allocated() =~= s.allocated().insert(p));
        assert(rest.no_duplicates()) by {
            assert forall|i: int, j: int| 0 <= i < rest.len() && 0 <= j < rest.len() && i != j
                implies rest[i] != rest[j] by {
                assert(rest[i] == s.recycled[i] && rest[j] == s.recycled[j]);
            }
        }
    } else if s.current == s.end {
    } else {
        let p = s.current as usize;
        assert(!s.recycled.contains(p));
        assert forall|q: usize| #[trigger] t.allocated().contains(q) == s.allocated().insert(p).contains(q) by {}
        assert(t.allocated() =~= s.allocated().insert(p));
    }
}

/// Handing back a frame in use removes exactly that frame from the frames in
/// use and keeps the state consistent.
pub proof fn lemma_dealloc_frees_frame(s: FrameAllocatorModel, ppn: usize)
    requires
        s.wf(),
        s.is_allocated(ppn),
    ensures
        s.after_dealloc(ppn).wf(),
        s.after_dealloc(ppn).allocated() == s.allocated().remove(ppn),
{
    let t = s.after_dealloc(ppn);
    assert forall|i: int| 0 <= i < t.recycled.len() implies #[trigger] t.recycled[i] < t.current by {
        if i < s.recycled.len() {
            assert(t.recycled[i] == s.recycled[i]);
        }
    }
    assert(t.recycled.no_duplicates()) by {
        assert forall|i: int, j: int| 0 <= i < t.recycled.len() && 0 <= j < t.recycled.len() && i != j
            implies t.recycled[i] != t.recycled[j] by {
            if i == s.recycled.len() {
                assert(t.recycled[j] == s.recycled[j]);
            } else if j == s.recycled.len() {
                assert(t.recycled[i] == s.recycled[i]);
            } else {
                assert(t.recycled[i] == s.recycled[i] && t.recycled[j] == s.recycled[j]);
            }
        }
    }
    assert forall|q: usize| #[trigger] t.allocated().contains(q) == s.allocated().remove(ppn).contains(q) by {
        if q != ppn {
            if t.recycled.contains(q) {
                let k = choose|k: int| 0 <= k < t.recycled.len() && t.recycled[k] == q;
                assert(k < s.recycled.len());
                assert(s.recycled[k] == q);
            }
            if s.recycled.contains(q) {
                let k = choose|k: int| 0 <= k < s.recycled.len() && s.recycled[k] == q;
                assert(t.recycled[k] == q);
            }
        } else {
            assert(t.recycled[s.recycled.len() as int] == ppn);
        }
    }
    assert(t.allocated() =~= s.allocated().remove(ppn));
}

/// A frame handed back is the next frame handed out, and that allocation
/// restores the allocator to its state before the frame was handed back.
pub proof fn lemma_dealloc_then_alloc(s: FrameAllocatorModel, ppn: usize)
    requires
        s.wf(),
        s.is_allocated(ppn),
    ensures
        s.after_dealloc(ppn).alloc_result() == Some(ppn),
        s.after_dealloc(ppn).after_alloc() == s,
{
    assert(s.after_dealloc(ppn).recycled.drop_last() =~= s.recycled);
}

/// Handing a frame out and then back leaves the same frames in use.
pub proof fn lemma_alloc_then_dealloc(s: FrameAllocatorModel)
    requires
        s.wf(),
        s.alloc_result() is Some,
    ensures
        s.after_alloc().is_allocated(s.alloc_result().unwrap()),
        s.after_alloc().after_dealloc(s.alloc_result().unwrap()).allocated() == s.allocated(),
{
    let p = s.alloc_result().unwrap();
    lemma_alloc_hands_out_free_frame(s);
    assert(s.after_alloc().allocated().contains(p));
    lemma_dealloc_frees_frame(s.after_alloc(), p);
    assert(s.allocated().insert(p).remove(p) =~= s.allocated());
}

/// Two allocations in a row never hand out the same frame.
pub proof fn lemma_successive_allocs_distinct(s: FrameAllocatorModel)
    requires
        s.wf(),
        s.alloc_result() is Some,
        s.after_alloc().alloc_result() is Some,
    ensures
        s.alloc_result().unwrap() != s.after_alloc().alloc_result().unwrap(),
{
    lemma_alloc_hands_out_free_frame(s);
    lemma_alloc_hands_out_free_frame(s.after_alloc());
    assert(s.after_alloc().allocated().contains(s.alloc_result().unwrap()));
}

/// A frame that some process holds: its page number.
pub struct FrameTracker {
    pub ppn: PhysPageNum,
}

impl FrameTracker {
    /// Takes charge of frame `ppn`.
    pub fn new(ppn: PhysPageNum) -> (ret: Self)
        ensures
            ret.ppn == ppn,
    {
        FrameTracker { ppn }
    }
}

/// Points `allocator` at the frames between the end of the kernel image,
/// `ekernel`, rounded up to a page, and `MEMORY_END`, rounded down.
pub fn init_frame_allocator(allocator: &mut StackFrameAllocator, ekernel: usize)
    requires
        old(allocator)@.wf(),
        page_ceil(ekernel as int) <= page_floor(MEMORY_END as int),
        forall|i: int| 0 <= i < old(allocator)@.recycled.len()
            ==> #[trigger] old(allocator)@.recycled[i] < page_ceil(ekernel as int),
    ensures
        final(allocator)@ == old(allocator)@.after_init(
            page_ceil(ekernel as int) as usize,
            page_floor(MEMORY_END as int) as usize,
        ),
        final(allocator)@.wf(),
{
    let l = PhysAddr(ekernel).ceil();
    let r = PhysAddr(MEMORY_END).floor();
    allocator.init(l, r);
}

/// Takes a frame from `allocator` and puts it in the charge of a new tracker;
/// `None` when no frame is free.
pub fn frame_alloc(allocator: &mut StackFrameAllocator) -> (ret: Option<FrameTracker>)
    requires
        old(allocator)@.wf(),
    ensures
        final(allocator)@ == old(allocator)@.after_alloc(),
        final(allocator)@.wf(),
        match ret {
            Some(t) => old(allocator)@.alloc_result() == Some(t.ppn.0),
            None => old(allocator)@.alloc_result() is None,
        },
{
    match allocator.alloc_frame() {
        Some(ppn) => Some(FrameTracker::new(ppn)),
        None => None,
    }
}

/// Hands frame `ppn` back to `allocator`.
pub fn frame_dealloc(allocator: &mut StackFrameAllocator, ppn: PhysPageNum)
    requires
        old(allocator)@.wf(),
        old(allocator)@.is_allocated(ppn.0),
    ensures
        final(allocator)@ == old(allocator)@.after_dealloc(ppn.0),
        final(allocator)@.wf(),
        final(allocator)@.allocated() == old(allocator)@.allocated().remove(ppn.0),
{
    allocator.dealloc(ppn);
}

} // verus!
