use vstd::prelude::*;

verus! {

/// Size and alignment of a physical frame and of a virtual page.
pub const FRAME_SIZE: u64 = 4096;

/// One record of the boot-time memory map: the physical range
/// `[start, end)` and whether it is free for the kernel to use.
#[derive(Debug, Clone, Copy, PartialEq, Eq, Structural)]
pub struct MemoryRegion {
    pub start: u64,
    pub end: u64,
    pub usable: bool,
}

/// `f` is the start of a whole, aligned frame inside the usable region `r`.
pub open spec fn frame_in_region(r: MemoryRegion, f: int) -> bool {
    &&& r.usable
    &&& f % (FRAME_SIZE as int) == 0
    &&& r.start <= f
    &&& f + FRAME_SIZE <= r.end
}

/// `f` is the start of a whole, aligned frame inside some usable region.
pub open spec fn is_usable_frame(regions: Seq<MemoryRegion>, f: int) -> bool {
    exists|i: int| 0 <= i < regions.len() && #[trigger] frame_in_region(regions[i], f)
}

/// `f` is the lowest usable frame at or above `from`.
pub open spec fn is_first_usable_from(regions: Seq<MemoryRegion>, from: int, f: int) -> bool {
    &&& is_usable_frame(regions, f)
    &&& from <= f
    &&& forall|g: int| #[trigger] is_usable_frame(regions, g) && from <= g ==> f <= g
}

/// What one call of `allocate_frame` does: it hands out the lowest usable
/// frame at or above the cursor and moves the cursor past it, or, when no
/// such frame is left, reports exhaustion and changes nothing.
pub open spec fn allocation_step(
    before: FrameAllocator,
    after: FrameAllocator,
    r: Option<u64>,
) -> bool {
    &&& after.regions() == before.regions()
    &&& match r {
        Some(f) => {
            &&& is_first_usable_from(before.regions(), before.cursor() as int, f as int)
            &&& after.cursor() == f + FRAME_SIZE
            &&& after.handed_out() == before.handed_out().insert(f)
        },
        None => {
            &&& forall|g: int| #[trigger]
                is_usable_frame(before.regions(), g) ==> g < before.cursor()
            &&& after.cursor() == before.cursor()
            &&& after.handed_out() == before.handed_out()
        },
    }
}

/// Hands out the usable frames of the boot memory map in increasing
/// address order, each at most once. Frames are never given back.
pub struct FrameAllocator {
    regions: Vec<MemoryRegion>,
    next: u64,
    handed_out: Ghost<Set<u64>>,
}

impl FrameAllocator {
    /// The memory map the allocator was built from.
    pub closed spec fn regions(self) -> Seq<MemoryRegion> {
        self.regions@
    }

    /// Every frame below the cursor has been handed out or is unusable.
    pub closed spec fn cursor(self) -> nat {
        self.next as nat
    }

    /// The frames handed out so far.
    pub closed spec fn handed_out(self) -> Set<u64> {
        self.handed_out@
    }

    pub closed spec fn wf(self) -> bool {
        &&& self.next % FRAME_SIZE == 0
        &&& forall|f: u64| #[trigger]
            self.handed_out@.contains(f) ==> f < self.next && is_usable_frame(self.regions@, f as int)
    }

    /// Wraps the boot memory map; nothing is handed out yet.
    pub fn init(regions: Vec<MemoryRegion>) -> (r: Self)
        ensures
            r.wf(),
            r.regions() == regions@,
            r.cursor() == 0,
            r.handed_out() == Set::<u64>::empty(),
    {
        FrameAllocator { regions, next: 0, handed_out: Ghost(Set::empty()) }
    }

    /// Returns the next unused usable frame, or `None` once the memory map
    /// is exhausted.
    pub fn allocate_frame(&mut self) -> (r: Option<u64>)
        requires
            old(self).wf(),
        ensures
            final(self).wf(),
            allocation_step(*old(self), *final(self), r),
            r matches Some(f) ==> !old(self).handed_out().contains(f),
    {
        let mut best: Option<u64> = None;
        let mut i: usize = 0;
        while i < self.regions.len()
            invariant
                self.wf(),
                self.regions@ == old(self).regions@,
                self.next == old(self).next,
                self.handed_out@ == old(self).handed_out@,
                0 <= i <= self.regions@.len(),
                match best {
                    Some(b) => {
                        &&& is_usable_frame(self.regions@, b as int)
                        &&& self.next <= b
                        &&& forall|j: int, g: int|
                            0 <= j < i && #[trigger] frame_in_region(self.regions@[j], g)
                                && self.next <= g ==> b <= g
                    },
                    None => forall|j: int, g: int|
                        0 <= j < i && #[trigger] frame_in_region(self.regions@[j], g) ==> g
                            < self.next,
                },
            decreases self.regions@.len() - i,
        {
            let region = self.regions[i];
            match first_frame_in(region, self.next) {
                Some(c) => {
                    assert(frame_in_region(self.regions@[i as int], c as int));
                    match best {
                        Some(b) => {
                            if c < b {
                                best = Some(c);
                            }
                        },
                        None => {
                            best = Some(c);
                        },
                    }
                },
                None => {},
            }
            i = i + 1;
        }
        match best {
            Some(f) => {
                assert forall|g: int| #[trigger]
                    is_usable_frame(self.regions@, g) && self.next <= g implies f <= g by {
                    let j = choose|j: int|
                        0 <= j < self.regions@.len() && #[trigger] frame_in_region(
                            self.regions@[j],
                            g,
                        );
                    assert(frame_in_region(self.regions@[j], g));
                }
                assert(!self.handed_out@.contains(f));
                proof {
                    let ghost regions = self.regions@;
                    assert(exists|j: int|
                        0 <= j < regions.len() && #[trigger] frame_in_region(regions[j], f as int));
                    let j = choose|j: int|
                        0 <= j < regions.len() && #[trigger] frame_in_region(regions[j], f as int);
                    assert(f + FRAME_SIZE <= regions[j].end);
                }
                self.next = f + FRAME_SIZE;
                self.handed_out = Ghost(self.handed_out@.insert(f));
                assert(self.next % FRAME_SIZE == 0);
                Some(f)
            },
            None => {
                assert forall|g: int| #[trigger]
                    is_usable_frame(self.regions@, g) implies g < self.next by {
                    let j = choose|j: int|
                        0 <= j < self.regions@.len() && #[trigger] frame_in_region(
                            self.regions@[j],
                            g,
                        );
                    assert(frame_in_region(self.regions@[j], g));
                }
                None
            },
        }
    }
}

/// Any aligned address at or above `x` is at or above `x` rounded up.
proof fn lemma_align_up(x: int, g: int)
    requires
        x >= 0,
        g >= x,
        g % 4096 == 0,
        x % 4096 != 0,
    ensures
        g >= x - x % 4096 + 4096,
{
    assert(g >= x - x % 4096 + 4096) by (nonlinear_arith)
        requires
            g >= x,
            g % 4096 == 0,
            x % 4096 != 0,
            x >= 0,
    {
        let q = g / 4096;
        let p = x / 4096;
        assert(g == 4096 * q);
        assert(x == 4096 * p + x % 4096);
        assert(q > p);
    }
}

proof fn lemma_align_up_is_aligned(x: int)
    requires
        x >= 0,
    ensures
        (x - x % 4096 + 4096) % 4096 == 0,
{
}

/// The lowest aligned frame of `r` at or above the aligned address `lo`.
fn first_frame_in(r: MemoryRegion, lo: u64) -> (c: Option<u64>)
    requires
        lo % FRAME_SIZE == 0,
    ensures
        c matches Some(f) ==> frame_in_region(r, f as int) && lo <= f,
        c matches Some(f) ==> forall|g: int|
            #[trigger] frame_in_region(r, g) && lo <= g ==> f <= g,
        c is None ==> forall|g: int| #[trigger] frame_in_region(r, g) ==> g < lo,
{
    if !r.usable {
        return None;
    }
    let rem = r.start % FRAME_SIZE;
    let aligned_start: u64;
    if rem == 0 {
        aligned_start = r.start;
    } else {
        if r.start > u64::MAX - FRAME_SIZE {
            assert forall|g: int| #[trigger] frame_in_region(r, g) implies g < lo by {
                assert(g != r.start);
            }
            return None;
        }
        aligned_start = r.start - rem + FRAME_SIZE;
        proof {
            assert forall|g: int| #[trigger] frame_in_region(r, g) implies aligned_start <= g by {
                lemma_align_up(r.start as int, g);
            }
            lemma_align_up_is_aligned(r.start as int);
        }
    }
    let c = if aligned_start < lo {
        lo
    } else {
        aligned_start
    };
    if c <= r.end && r.end - c >= FRAME_SIZE {
        Some(c)
    } else {
        None
    }
}

/// Across any sequence of calls of `allocate_frame`, no frame is handed out
/// twice, and every frame handed out is aligned to the frame size and lies
/// inside a region that the memory map marks usable.
pub proof fn lemma_frames_never_repeat(
    states: Seq<FrameAllocator>,
    results: Seq<Option<u64>>,
    i: int,
    j: int,
)
    requires
        states.len() == results.len() + 1,
        states[0].wf(),
        forall|k: int| 0 <= k < results.len() ==> allocation_step(#[trigger] states[k], states[k + 1], results[k]),
        0 <= i < j < results.len(),
        results[i] is Some,
        results[j] is Some,
    ensures
        results[i] != results[j],
        results[i]->0 % FRAME_SIZE == 0,
        is_usable_frame(states[0].regions(), results[i]->0 as int),
{
    lemma_steps_keep_regions_and_cursor(states, results, i + 1, j);
    let fi = results[i]->0;
    let fj = results[j]->0;
    assert(allocation_step(states[i], states[i + 1], results[i]));
    assert(allocation_step(states[j], states[j + 1], results[j]));
    lemma_steps_keep_regions_and_cursor(states, results, 0, i);
}

/// Along a run of steps the memory map stays the same and the cursor never
/// moves back.
proof fn lemma_steps_keep_regions_and_cursor(
    states: Seq<FrameAllocator>,
    results: Seq<Option<u64>>,
    a: int,
    b: int,
)
    requires
        states.len() == results.len() + 1,
        forall|k: int| 0 <= k < results.len() ==> allocation_step(#[trigger] states[k], states[k + 1], results[k]),
        0 <= a <= b <= results.len(),
    ensures
        states[b].regions() == states[a].regions(),
        states[a].cursor() <= states[b].cursor(),
    decreases b - a,
{
    if a < b {
        lemma_steps_keep_regions_and_cursor(states, results, a, b - 1);
        assert(allocation_step(states[b - 1], states[b], results[b - 1]));
    }
}

} // verus!
