//! Bitmap physical-frame allocator.
//!
//! One bit per 4096-byte frame over a capped physical-address ceiling records
//! whether the frame is allocated. Allocation is a first-fit scan inside the
//! active window `[range_begin, range_end)`; when the scan hits an allocated
//! frame it resumes immediately past it, never re-examining earlier frames.
//! The scan rule is written down exactly as the spec function `alloc_scan`,
//! and `allocate` is proved to return precisely its answer.

use vstd::prelude::*;

use crate::error::{OsError, OsErrorCode};
use crate::memory_map::{
    MemoryDescriptor, MemoryMap, UEFI_PAGE_SIZE, code_is_available, efi_memory_type_of,
    efi_memory_type_from_u32, is_available,
};

verus! {

/// Bytes covered by one frame.
pub const BYTE_PER_FRAME: usize = 4 * 1024;

/// Number of frames below the fixed physical-memory ceiling of the bitmap
/// (4 GiB divided into 4096-byte frames).
pub const FRAME_COUNT: usize = 1024 * 1024;

/// Bits stored per bitmap word.
pub const BITS_PER_MAP_LINE: usize = 32;

/// Number of bitmap words covering all frames.
pub const MAP_LINE_COUNT: usize = 32 * 1024;

/// Index of a fixed-size physical frame; the frame covers the bytes
/// `[id * BYTE_PER_FRAME, (id + 1) * BYTE_PER_FRAME)`.
#[derive(Clone, Copy, Debug, PartialEq, Eq, Structural)]
pub struct FrameId {
    pub id: usize,
}

impl FrameId {
    /// Wraps a frame index.
    pub fn new(id: usize) -> (r: FrameId)
        ensures
            r.id == id,
    {
        FrameId { id }
    }

    /// The frame index.
    pub fn id(&self) -> (r: usize)
        ensures
            r == self.id,
    {
        self.id
    }

    /// Physical byte address of the frame's first byte.
    pub fn frame(&self) -> (addr: usize)
        requires
            self.id < FRAME_COUNT,
        ensures
            addr == self.id * BYTE_PER_FRAME,
    {
        proof {
            assert(self.id * 4096 <= 0xffff_f000) by (nonlinear_arith)
                requires
                    self.id < 0x10_0000,
            ;
        }
        self.id * BYTE_PER_FRAME
    }
}

/// Whether bit `b` of word `line` is set.
pub open spec fn line_bit(line: u32, b: u32) -> bool {
    (line >> b) & 1u32 == 1u32
}

/// `bits` with every frame of `[start, start + n)` forced to `value` and all
/// other frames unchanged.
pub open spec fn mark_range(bits: Seq<bool>, start: int, n: int, value: bool) -> Seq<bool> {
    Seq::new(bits.len(), |f: int| if start <= f < start + n { value } else { bits[f] })
}

/// Outcome of probing the `n` frames starting at `start` against the window
/// end: the whole run is free, the run left the window, or frame
/// `start + i` is the first allocated frame hit.
pub enum RunCheck {
    Fit,
    OutOfRange,
    Blocked(int),
}

/// Probes frames `start + i .. start + n` in order: reports `OutOfRange` at
/// the first probe at or past `end`, `Blocked` at the first allocated frame,
/// and `Fit` when all `n` frames lie inside the window and are free.
pub open spec fn run_check(bits: Seq<bool>, start: int, end: int, n: int, i: int) -> RunCheck
    decreases n - i,
{
    if i >= n {
        RunCheck::Fit
    } else if start + i >= end {
        RunCheck::OutOfRange
    } else if bits[start + i] {
        RunCheck::Blocked(i)
    } else {
        run_check(bits, start, end, n, i + 1)
    }
}

/// The first-fit scan rule: starting at `start`, probe a run of `n` frames;
/// on a fit return its start, on leaving the window report failure, and on
/// hitting an allocated frame resume immediately past it.
pub open spec fn alloc_scan(bits: Seq<bool>, start: int, end: int, n: int) -> Option<int>
    decreases end - start,
        via alloc_scan_decreases
{
    match run_check(bits, start, end, n, 0) {
        RunCheck::Fit => Some(start),
        RunCheck::OutOfRange => None,
        RunCheck::Blocked(i) => {
            if 0 <= i && start + i + 1 <= end {
                alloc_scan(bits, start + i + 1, end, n)
            } else {
                None
            }
        },
    }
}

#[via_fn]
proof fn alloc_scan_decreases(bits: Seq<bool>, start: int, end: int, n: int) {
    match run_check(bits, start, end, n, 0) {
        RunCheck::Blocked(i) => {
            lemma_run_check_blocked(bits, start, end, n, 0);
        },
        _ => {},
    }
}

/// A `Blocked(i)` answer pins down what the probe saw: frames before offset
/// `i` were free and inside the window, and frame `start + i` is allocated.
proof fn lemma_run_check_blocked(bits: Seq<bool>, start: int, end: int, n: int, j: int)
    requires
        0 <= j,
    ensures
        match run_check(bits, start, end, n, j) {
            RunCheck::Blocked(i) => {
                &&& j <= i < n
                &&& start + i < end
                &&& bits[start + i]
            },
            _ => true,
        },
    decreases n - j,
{
    if j < n && start + j < end && !bits[start + j] {
        lemma_run_check_blocked(bits, start, end, n, j + 1);
    }
}

/// A `Fit` answer means every probed frame from offset `j` on lies inside
/// the window and is free.
proof fn lemma_run_check_fit(bits: Seq<bool>, start: int, end: int, n: int, j: int)
    requires
        0 <= j <= n,
        run_check(bits, start, end, n, j) == RunCheck::Fit,
    ensures
        j < n ==> start + n <= end,
        forall|k: int| j <= k < n ==> !(#[trigger] bits[start + k]),
    decreases n - j,
{
    if j < n {
        lemma_run_check_fit(bits, start, end, n, j + 1);
    }
}

/// A successful scan returns a run at or after its starting point, entirely
/// inside the window, with every frame of the run free.
pub proof fn lemma_alloc_scan_found(bits: Seq<bool>, start: int, end: int, n: int, s: int)
    requires
        n >= 1,
        alloc_scan(bits, start, end, n) == Some(s),
    ensures
        start <= s,
        s + n <= end,
        forall|k: int| 0 <= k < n ==> !(#[trigger] bits[s + k]),
    decreases end - start,
{
    match run_check(bits, start, end, n, 0) {
        RunCheck::Fit => {
            lemma_run_check_fit(bits, start, end, n, 0);
        },
        RunCheck::OutOfRange => {},
        RunCheck::Blocked(i) => {
            lemma_run_check_blocked(bits, start, end, n, 0);
            lemma_alloc_scan_found(bits, start + i + 1, end, n, s);
        },
    }
}

/// When every frame of the window is allocated, no run of one or more frames
/// can fit: the scan fails.
pub proof fn lemma_alloc_scan_exhausted(bits: Seq<bool>, start: int, end: int, n: int)
    requires
        n >= 1,
        forall|f: int| start <= f < end ==> bits[f],
    ensures
        alloc_scan(bits, start, end, n) is None,
    decreases end - start,
{
    if start < end {
        assert(bits[start + 0]);
        assert(run_check(bits, start, end, n, 0) == RunCheck::Blocked(0));
        lemma_alloc_scan_exhausted(bits, start + 1, end, n);
    } else {
        assert(run_check(bits, start, end, n, 0) == RunCheck::OutOfRange);
    }
}

/// Two successive successful allocations from the same window never overlap:
/// the second scan runs over the bitmap in which the first run is already
/// marked, so the runs are disjoint.
pub proof fn lemma_allocations_disjoint(
    bits: Seq<bool>,
    begin: int,
    end: int,
    n1: int,
    s1: int,
    n2: int,
    s2: int,
)
    requires
        n1 >= 1,
        n2 >= 1,
        0 <= begin,
        end <= bits.len(),
        alloc_scan(bits, begin, end, n1) == Some(s1),
        alloc_scan(mark_range(bits, s1, n1, true), begin, end, n2) == Some(s2),
    ensures
        s1 + n1 <= s2 || s2 + n2 <= s1,
{
    let bits2 = mark_range(bits, s1, n1, true);
    lemma_alloc_scan_found(bits, begin, end, n1, s1);
    lemma_alloc_scan_found(bits2, begin, end, n2, s2);
    if !(s1 + n1 <= s2 || s2 + n2 <= s1) {
        let f = if s1 >= s2 { s1 } else { s2 };
        assert(s1 <= f < s1 + n1);
        assert(s2 <= f < s2 + n2);
        assert(bits2[f]);
        assert(!bits2[s2 + (f - s2)]);
    }
}

/// Freeing a freshly allocated run restores the bitmap exactly, so an
/// immediate re-allocation of the same size returns the same starting frame.
pub proof fn lemma_first_fit_deterministic(bits: Seq<bool>, begin: int, end: int, n: int, s: int)
    requires
        n >= 1,
        0 <= begin,
        end <= bits.len(),
        alloc_scan(bits, begin, end, n) == Some(s),
    ensures
        alloc_scan(mark_range(mark_range(bits, s, n, true), s, n, false), begin, end, n)
            == Some(s),
{
    lemma_alloc_scan_found(bits, begin, end, n, s);
    let restored = mark_range(mark_range(bits, s, n, true), s, n, false);
    assert forall|f: int| 0 <= f < bits.len() implies restored[f] == bits[f] by {
        if s <= f < s + n {
            assert(!bits[s + (f - s)]);
        }
    }
    assert(restored =~= bits);
}

/// Bit `j` of a word after setting or clearing bit `b`.
proof fn lemma_line_bit_update(l: u32, b: u32, j: u32)
    by (bit_vector)
    requires
        b < 32,
        j < 32,
    ensures
        line_bit(l | (1u32 << b), j) == (j == b || line_bit(l, j)),
        line_bit(l & !(1u32 << b), j) == (j != b && line_bit(l, j)),
        (l & (1u32 << b) != 0u32) == line_bit(l, b),
{
}

/// Every bit of the zero word is clear.
proof fn lemma_line_bit_zero(j: u32)
    by (bit_vector)
    requires
        j < 32,
    ensures
        !line_bit(0u32, j),
{
}

/// Outcome of probing one candidate run, as computed at run time.
enum FrameRun {
    Fit,
    OutOfRange,
    Blocked(usize),
}

/// Tracks free and allocated fixed-size physical frames and services
/// first-fit allocation requests inside the active window.
pub struct BitmapMemoryManager {
    pub alloc_map: Vec<u32>,
    pub range_begin: FrameId,
    pub range_end: FrameId,
}

impl BitmapMemoryManager {
    /// Structural invariant: the bitmap covers every frame below the ceiling
    /// and the window end stays below the ceiling.
    pub open spec fn wf(self) -> bool {
        &&& self.alloc_map@.len() == MAP_LINE_COUNT
        &&& self.range_end.id <= FRAME_COUNT
    }

    /// Allocation state of every frame, as one boolean per frame.
    pub open spec fn bitmap(self) -> Seq<bool> {
        Seq::new(FRAME_COUNT as nat, |f: int| line_bit(self.alloc_map@[f / 32], (f % 32) as u32))
    }

    /// A manager with every frame free and the window covering all frames.
    pub fn new() -> (r: BitmapMemoryManager)
        ensures
            r.wf(),
            r.bitmap() =~= Seq::new(FRAME_COUNT as nat, |f: int| false),
            r.range_begin.id == 0,
            r.range_end.id == FRAME_COUNT,
    {
        let mut alloc_map: Vec<u32> = Vec::new();
        while alloc_map.len() < MAP_LINE_COUNT
            invariant
                alloc_map@.len() <= MAP_LINE_COUNT,
                forall|j: int| 0 <= j < alloc_map@.len() ==> alloc_map@[j] == 0u32,
            decreases MAP_LINE_COUNT - alloc_map@.len(),
        {
            alloc_map.push(0);
        }
        let r = BitmapMemoryManager {
            alloc_map,
            range_begin: FrameId::new(0),
            range_end: FrameId::new(FRAME_COUNT),
        };
        proof {
            assert forall|f: int| 0 <= f < FRAME_COUNT as int implies !r.bitmap()[f] by {
                lemma_line_bit_zero((f % 32) as u32);
            }
            assert(r.bitmap() =~= Seq::new(FRAME_COUNT as nat, |f: int| false));
        }
        r
    }

    /// Allocation state of one frame.
    fn get_bit(&self, frame: FrameId) -> (r: bool)
        requires
            self.wf(),
            frame.id < FRAME_COUNT,
        ensures
            r == self.bitmap()[frame.id as int],
    {
        let line_index = frame.id / BITS_PER_MAP_LINE;
        let bit_index = frame.id % BITS_PER_MAP_LINE;
        proof {
            lemma_line_bit_update(self.alloc_map@[line_index as int], bit_index as u32, 0u32);
        }
        (self.alloc_map[line_index] & (1u32 << (bit_index as u32))) != 0
    }

    /// Sets the allocation state of one frame, leaving all other frames and
    /// the window unchanged.
    fn set_bit(&mut self, frame: FrameId, allocated: bool)
        requires
            old(self).wf(),
            frame.id < FRAME_COUNT,
        ensures
            final(self).wf(),
            final(self).range_begin == old(self).range_begin,
            final(self).range_end == old(self).range_end,
            final(self).bitmap() =~= old(self).bitmap().update(frame.id as int, allocated),
    {
        let line_index = frame.id / BITS_PER_MAP_LINE;
        let bit_index = frame.id % BITS_PER_MAP_LINE;
        let line = self.alloc_map[line_index];
        let new_line = if allocated {
            line | (1u32 << (bit_index as u32))
        } else {
            line & !(1u32 << (bit_index as u32))
        };
        self.alloc_map.set(line_index, new_line);
        proof {
            let id = frame.id as int;
            assert forall|f: int| 0 <= f < FRAME_COUNT as int implies final(self).bitmap()[f] == (
                if f == id {
                    allocated
                } else {
                    old(self).bitmap()[f]
                }
            ) by {
                vstd::arithmetic::div_mod::lemma_fundamental_div_mod(f, 32);
                vstd::arithmetic::div_mod::lemma_fundamental_div_mod(id, 32);
                if f / 32 == id / 32 {
                    lemma_line_bit_update(
                        old(self).alloc_map@[id / 32],
                        (id % 32) as u32,
                        (f % 32) as u32,
                    );
                }
            }
            assert(final(self).bitmap() =~= old(self).bitmap().update(id, allocated));
        }
    }

    /// Sets `num_frames` frames starting at `start_frame` to allocated; used
    /// during bootstrap to reserve firmware-described non-free regions and
    /// unmapped gaps, and by `allocate` to record a granted run.
    pub fn mark_allocated(&mut self, start_frame: FrameId, num_frames: usize)
        requires
            old(self).wf(),
            num_frames > 0 ==> start_frame.id + num_frames <= FRAME_COUNT,
        ensures
            final(self).wf(),
            final(self).range_begin == old(self).range_begin,
            final(self).range_end == old(self).range_end,
            final(self).bitmap() =~= mark_range(
                old(self).bitmap(),
                start_frame.id as int,
                num_frames as int,
                true,
            ),
    {
        let mut i: usize = 0;
        while i < num_frames
            invariant
                self.wf(),
                i <= num_frames,
                num_frames > 0 ==> start_frame.id + num_frames <= FRAME_COUNT,
                self.range_begin == old(self).range_begin,
                self.range_end == old(self).range_end,
                self.bitmap() =~= mark_range(
                    old(self).bitmap(),
                    start_frame.id as int,
                    i as int,
                    true,
                ),
            decreases num_frames - i,
        {
            self.set_bit(FrameId::new(start_frame.id + i), true);
            proof {
                assert(self.bitmap() =~= mark_range(
                    old(self).bitmap(),
                    start_frame.id as int,
                    i + 1 as int,
                    true,
                ));
            }
            i = i + 1;
        }
    }

    /// Clears `num_frames` frames starting at `start_frame`. Always succeeds;
    /// there is no double-free detection, so the caller must supply a
    /// previously allocated, matching range.
    pub fn free(&mut self, start_frame: FrameId, num_frames: usize) -> (r: Result<(), OsError>)
        requires
            old(self).wf(),
            num_frames > 0 ==> start_frame.id + num_frames <= FRAME_COUNT,
        ensures
            final(self).wf(),
            final(self).range_begin == old(self).range_begin,
            final(self).range_end == old(self).range_end,
            final(self).bitmap() =~= mark_range(
                old(self).bitmap(),
                start_frame.id as int,
                num_frames as int,
                false,
            ),
            r == Ok::<(), OsError>(()),
    {
        let mut i: usize = 0;
        while i < num_frames
            invariant
                self.wf(),
                i <= num_frames,
                num_frames > 0 ==> start_frame.id + num_frames <= FRAME_COUNT,
                self.range_begin == old(self).range_begin,
                self.range_end == old(self).range_end,
                self.bitmap() =~= mark_range(
                    old(self).bitmap(),
                    start_frame.id as int,
                    i as int,
                    false,
                ),
            decreases num_frames - i,
        {
            self.set_bit(FrameId::new(start_frame.id + i), false);
            proof {
                assert(self.bitmap() =~= mark_range(
                    old(self).bitmap(),
                    start_frame.id as int,
                    i + 1 as int,
                    false,
                ));
            }
            i = i + 1;
        }
        Ok(())
    }

    /// Defines the allocation window; frames outside it are never allocation
    /// candidates regardless of bit state.
    pub fn set_memory_range(&mut self, range_begin: FrameId, range_end: FrameId)
        requires
            old(self).wf(),
            range_end.id <= FRAME_COUNT,
        ensures
            final(self).wf(),
            final(self).range_begin == range_begin,
            final(self).range_end == range_end,
            final(self).bitmap() =~= old(self).bitmap(),
    {
        self.range_begin = range_begin;
        self.range_end = range_end;
    }

    /// Probes the run of `num_frames` frames starting at `start` against the
    /// window end, mirroring the spec-level `run_check` exactly.
    fn check_frames(&self, start: usize, num_frames: usize) -> (r: FrameRun)
        requires
            self.wf(),
        ensures
            ({
                let c = run_check(
                    self.bitmap(),
                    start as int,
                    self.range_end.id as int,
                    num_frames as int,
                    0,
                );
                match r {
                    FrameRun::Fit => c == RunCheck::Fit,
                    FrameRun::OutOfRange => c == RunCheck::OutOfRange,
                    FrameRun::Blocked(i) => c == RunCheck::Blocked(i as int),
                }
            }),
    {
        let ghost bits = self.bitmap();
        let ghost end = self.range_end.id as int;
        let mut i: usize = 0;
        while i < num_frames
            invariant
                self.wf(),
                i <= num_frames,
                bits == self.bitmap(),
                end == self.range_end.id as int,
                i == 0 || start + i <= self.range_end.id,
                run_check(bits, start as int, end, num_frames as int, 0) == run_check(
                    bits,
                    start as int,
                    end,
                    num_frames as int,
                    i as int,
                ),
            decreases num_frames - i,
        {
            if start + i >= self.range_end.id {
                return FrameRun::OutOfRange;
            }
            if self.get_bit(FrameId::new(start + i)) {
                return FrameRun::Blocked(i);
            }
            i = i + 1;
        }
        FrameRun::Fit
    }

    /// First-fit allocation of `num_frames` contiguous frames inside the
    /// window: the granted run is exactly what the scan rule `alloc_scan`
    /// selects, its frames were free and are now marked allocated, and the
    /// request fails with `NoEnoughMemory` exactly when the scan finds no
    /// fit, leaving the bitmap unchanged.
    pub fn allocate(&mut self, num_frames: usize) -> (r: Result<FrameId, OsError>)
        requires
            old(self).wf(),
        ensures
            final(self).wf(),
            final(self).range_begin == old(self).range_begin,
            final(self).range_end == old(self).range_end,
            match r {
                Ok(frame) => {
                    &&& alloc_scan(
                        old(self).bitmap(),
                        old(self).range_begin.id as int,
                        old(self).range_end.id as int,
                        num_frames as int,
                    ) == Some(frame.id as int)
                    &&& final(self).bitmap() =~= mark_range(
                        old(self).bitmap(),
                        frame.id as int,
                        num_frames as int,
                        true,
                    )
                    &&& num_frames > 0 ==> {
                        &&& old(self).range_begin.id <= frame.id
                        &&& frame.id + num_frames <= old(self).range_end.id
                        &&& forall|k: int|
                            0 <= k < num_frames ==> !(#[trigger] old(self).bitmap()[frame.id + k])
                    }
                },
                Err(e) => {
                    &&& e.code == OsErrorCode::NoEnoughMemory
                    &&& alloc_scan(
                        old(self).bitmap(),
                        old(self).range_begin.id as int,
                        old(self).range_end.id as int,
                        num_frames as int,
                    ) is None
                    &&& *final(self) == *old(self)
                },
            },
    {
        let ghost bits = self.bitmap();
        let ghost begin = self.range_begin.id as int;
        let ghost end = self.range_end.id as int;
        let mut start_frame_id = self.range_begin.id();
        loop
            invariant
                self.wf(),
                *self == *old(self),
                bits == self.bitmap(),
                begin == self.range_begin.id as int,
                end == self.range_end.id as int,
                start_frame_id == self.range_begin.id || start_frame_id <= self.range_end.id,
                alloc_scan(bits, begin, end, num_frames as int) == alloc_scan(
                    bits,
                    start_frame_id as int,
                    end,
                    num_frames as int,
                ),
            decreases end - start_frame_id,
        {
            match self.check_frames(start_frame_id, num_frames) {
                FrameRun::Fit => {
                    proof {
                        assert(alloc_scan(bits, start_frame_id as int, end, num_frames as int)
                            == Some(start_frame_id as int));
                        if num_frames > 0 {
                            lemma_alloc_scan_found(
                                bits,
                                begin,
                                end,
                                num_frames as int,
                                start_frame_id as int,
                            );
                        }
                    }
                    self.mark_allocated(FrameId::new(start_frame_id), num_frames);
                    return Ok(FrameId::new(start_frame_id));
                },
                FrameRun::OutOfRange => {
                    proof {
                        assert(alloc_scan(bits, start_frame_id as int, end, num_frames as int)
                            is None);
                    }
                    return Err(OsError::new(OsErrorCode::NoEnoughMemory));
                },
                FrameRun::Blocked(i) => {
                    proof {
                        lemma_run_check_blocked(
                            bits,
                            start_frame_id as int,
                            end,
                            num_frames as int,
                            0,
                        );
                        assert(alloc_scan(bits, start_frame_id as int, end, num_frames as int)
                            == alloc_scan(
                            bits,
                            start_frame_id + i + 1 as int,
                            end,
                            num_frames as int,
                        ));
                    }
                    start_frame_id = start_frame_id + i + 1;
                },
            }
        }
    }
}

/// A firmware descriptor the bootstrap walk can process: its type code is
/// one the firmware interface defines, and the region it names lies below
/// the bitmap's physical ceiling.
pub open spec fn valid_descriptor(d: MemoryDescriptor) -> bool {
    &&& efi_memory_type_of(d.memory_type) is Some
    &&& d.physical_start + d.number_of_pages * UEFI_PAGE_SIZE <= FRAME_COUNT * BYTE_PER_FRAME
    &&& d.physical_start + d.number_of_pages * UEFI_PAGE_SIZE <= usize::MAX
}

/// Bitmap after processing one descriptor of the bootstrap walk: the gap
/// between the end of the available memory seen so far and the descriptor's
/// start is reserved, and so is the descriptor's own region unless its type
/// is available.
pub open spec fn bootstrap_step_bits(
    bits: Seq<bool>,
    available_end: int,
    d: MemoryDescriptor,
) -> Seq<bool> {
    let gap_marked = if available_end < d.physical_start {
        mark_range(
            bits,
            available_end / BYTE_PER_FRAME as int,
            (d.physical_start - available_end) / BYTE_PER_FRAME as int,
            true,
        )
    } else {
        bits
    };
    if code_is_available(d.memory_type) {
        gap_marked
    } else {
        mark_range(
            gap_marked,
            d.physical_start as int / BYTE_PER_FRAME as int,
            d.number_of_pages * UEFI_PAGE_SIZE as int / BYTE_PER_FRAME as int,
            true,
        )
    }
}

/// End of the available memory seen so far after processing one descriptor:
/// an available region extends it to the region's end, any other region
/// leaves it unchanged.
pub open spec fn bootstrap_step_end(available_end: int, d: MemoryDescriptor) -> int {
    if code_is_available(d.memory_type) {
        d.physical_start + d.number_of_pages * UEFI_PAGE_SIZE
    } else {
        available_end
    }
}

/// Bitmap after the whole bootstrap walk over `descs`.
pub open spec fn bootstrap_bits(
    bits: Seq<bool>,
    available_end: int,
    descs: Seq<MemoryDescriptor>,
) -> Seq<bool>
    decreases descs.len(),
{
    if descs.len() == 0 {
        bits
    } else {
        bootstrap_bits(
            bootstrap_step_bits(bits, available_end, descs[0]),
            bootstrap_step_end(available_end, descs[0]),
            descs.drop_first(),
        )
    }
}

/// End of available memory after the whole bootstrap walk over `descs`.
pub open spec fn bootstrap_end(available_end: int, descs: Seq<MemoryDescriptor>) -> int
    decreases descs.len(),
{
    if descs.len() == 0 {
        available_end
    } else {
        bootstrap_end(bootstrap_step_end(available_end, descs[0]), descs.drop_first())
    }
}

/// The sum of two floored quotients never exceeds the quotient of the sum.
proof fn lemma_div_sum_le(a: int, b: int, q: int)
    requires
        0 <= a,
        0 <= b,
        0 < q,
    ensures
        a / q + b / q <= (a + b) / q,
{
    vstd::arithmetic::div_mod::lemma_fundamental_div_mod(a, q);
    vstd::arithmetic::div_mod::lemma_fundamental_div_mod(b, q);
    vstd::arithmetic::div_mod::lemma_mod_division_less_than_divisor(a, q);
    vstd::arithmetic::div_mod::lemma_mod_division_less_than_divisor(b, q);
    let r = a % q + b % q;
    assert(a + b == (a / q + b / q) * q + r && a + b == (a / q + b / q + 1) * q + (r - q))
        by (nonlinear_arith)
        requires
            a == q * (a / q) + a % q,
            b == q * (b / q) + b % q,
            r == a % q + b % q,
    ;
    if r < q {
        vstd::arithmetic::div_mod::lemma_fundamental_div_mod_converse_div(
            a + b,
            q,
            a / q + b / q,
            r,
        );
    } else {
        vstd::arithmetic::div_mod::lemma_fundamental_div_mod_converse_div(
            a + b,
            q,
            a / q + b / q + 1,
            r - q,
        );
    }
}

/// Bounds needed to reserve the regions of one valid descriptor: both marked
/// ranges stay below the frame ceiling.
proof fn lemma_descriptor_mark_bounds(d: MemoryDescriptor, available_end: int)
    requires
        valid_descriptor(d),
        0 <= available_end,
    ensures
        available_end < d.physical_start ==> available_end / BYTE_PER_FRAME as int + (
        d.physical_start - available_end) / BYTE_PER_FRAME as int <= FRAME_COUNT as int,
        d.physical_start as int / BYTE_PER_FRAME as int + d.number_of_pages * UEFI_PAGE_SIZE
            as int / BYTE_PER_FRAME as int <= FRAME_COUNT as int,
        d.number_of_pages * UEFI_PAGE_SIZE as int / BYTE_PER_FRAME as int
            == d.number_of_pages as int,
{
    let q = BYTE_PER_FRAME as int;
    let ps = d.physical_start as int;
    let pages = d.number_of_pages as int;
    assert(pages <= FRAME_COUNT as int) by (nonlinear_arith)
        requires
            0 <= ps,
            0 <= pages,
            ps + pages * 4096 <= 0x10_0000 * 4096,
    ;
    vstd::arithmetic::div_mod::lemma_div_by_multiple(pages, q);
    vstd::arithmetic::div_mod::lemma_div_by_multiple(FRAME_COUNT as int - pages, q);
    vstd::arithmetic::div_mod::lemma_div_is_ordered(ps, (FRAME_COUNT as int - pages) * q, q);
    if available_end < ps {
        lemma_div_sum_le(available_end, ps - available_end, q);
        vstd::arithmetic::div_mod::lemma_div_by_multiple(FRAME_COUNT as int, q);
        vstd::arithmetic::div_mod::lemma_div_is_ordered(ps, FRAME_COUNT as int * q, q);
    }
}

/// Bootstraps the allocator from the firmware memory map: every region the
/// firmware reports as non-available, and every gap between reported
/// regions, is marked allocated, and the allocation window is set to
/// `[1, end of available memory)`. Unknown memory is never assumed free.
pub fn initialize_from_memory_map(manager: &mut BitmapMemoryManager, memory_map: &MemoryMap)
    requires
        old(manager).wf(),
        forall|j: int|
            0 <= j < memory_map.descriptors@.len() ==> valid_descriptor(
                #[trigger] memory_map.descriptors@[j],
            ),
    ensures
        final(manager).wf(),
        final(manager).bitmap() =~= bootstrap_bits(
            old(manager).bitmap(),
            0,
            memory_map.descriptors@,
        ),
        final(manager).range_begin.id == 1,
        final(manager).range_end.id as int == bootstrap_end(0, memory_map.descriptors@)
            / BYTE_PER_FRAME as int,
        (forall|j: int|
            0 <= j < memory_map.descriptors@.len() ==> (
            #[trigger] memory_map.descriptors@[j]).physical_start as int % BYTE_PER_FRAME as int
                == 0) ==> forall|f: int|
            0 <= f < final(manager).range_end.id && !(#[trigger] final(manager).bitmap()[f])
                ==> available_frame(memory_map.descriptors@, f),
{
    let ghost bits0 = old(manager).bitmap();
    let ghost descs = memory_map.descriptors@;
    proof {
        assert(descs.skip(0) =~= descs);
    }
    let mut available_end: usize = 0;
    let mut i: usize = 0;
    while i < memory_map.descriptors.len()
        invariant
            manager.wf(),
            descs == memory_map.descriptors@,
            forall|j: int| 0 <= j < descs.len() ==> valid_descriptor(#[trigger] descs[j]),
            i <= descs.len(),
            available_end as int <= FRAME_COUNT as int * BYTE_PER_FRAME as int,
            available_end as int <= usize::MAX,
            manager.range_begin == old(manager).range_begin,
            manager.range_end == old(manager).range_end,
            bootstrap_bits(manager.bitmap(), available_end as int, descs.skip(i as int))
                == bootstrap_bits(bits0, 0, descs),
            bootstrap_end(available_end as int, descs.skip(i as int)) == bootstrap_end(0, descs),
        decreases descs.len() - i,
    {
        let desc = memory_map.descriptors[i];
        let ghost bits_before = manager.bitmap();
        let ghost end_before = available_end as int;
        proof {
            lemma_descriptor_mark_bounds(desc, available_end as int);
            assert(descs.skip(i as int).drop_first() =~= descs.skip(i as int + 1));
            assert(descs.skip(i as int)[0] == descs[i as int]);
        }
        if available_end < desc.physical_start {
            manager.mark_allocated(
                FrameId::new(available_end / BYTE_PER_FRAME),
                (desc.physical_start - available_end) / BYTE_PER_FRAME,
            );
        }
        let physical_end = desc.physical_start + desc.number_of_pages as usize * UEFI_PAGE_SIZE;
        let memory_type = efi_memory_type_from_u32(desc.memory_type);
        if is_available(memory_type.unwrap()) {
            available_end = physical_end;
        } else {
            manager.mark_allocated(
                FrameId::new(desc.physical_start / BYTE_PER_FRAME),
                desc.number_of_pages as usize * UEFI_PAGE_SIZE / BYTE_PER_FRAME,
            );
        }
        proof {
            assert(manager.bitmap() =~= bootstrap_step_bits(bits_before, end_before, desc));
            assert(available_end as int == bootstrap_step_end(end_before, desc));
        }
        i = i + 1;
    }
    proof {
        vstd::arithmetic::div_mod::lemma_div_by_multiple(FRAME_COUNT as int, BYTE_PER_FRAME as int);
        vstd::arithmetic::div_mod::lemma_div_is_ordered(
            available_end as int,
            FRAME_COUNT as int * BYTE_PER_FRAME as int,
            BYTE_PER_FRAME as int,
        );
    }
    manager.set_memory_range(FrameId::new(1), FrameId::new(available_end / BYTE_PER_FRAME));
    proof {
        if forall|j: int|
            0 <= j < descs.len() ==> (#[trigger] descs[j]).physical_start as int
                % BYTE_PER_FRAME as int == 0 {
            assert forall|f: int|
                0 <= f < manager.range_end.id && !(#[trigger] manager.bitmap()[f]) implies
                available_frame(descs, f) by {
                lemma_bootstrap_conservative(bits0, 0, descs, f);
            }
        }
    }
}

/// Whether one descriptor's region fully covers frame `f`.
pub open spec fn covers_frame(d: MemoryDescriptor, f: int) -> bool {
    &&& d.physical_start <= f * BYTE_PER_FRAME
    &&& (f + 1) * BYTE_PER_FRAME <= d.physical_start + d.number_of_pages * UEFI_PAGE_SIZE
}

/// Whether some descriptor of an available type fully covers frame `f`.
pub open spec fn available_frame(descs: Seq<MemoryDescriptor>, f: int) -> bool {
    exists|i: int|
        0 <= i < descs.len() && code_is_available((#[trigger] descs[i]).memory_type)
            && covers_frame(descs[i], f)
}

/// The bootstrap walk never clears a mark: a frame marked going in stays
/// marked.
pub proof fn lemma_bootstrap_keeps_marks(
    bits: Seq<bool>,
    available_end: int,
    descs: Seq<MemoryDescriptor>,
    f: int,
)
    requires
        0 <= f < bits.len(),
        bits[f],
    ensures
        bootstrap_bits(bits, available_end, descs)[f],
    decreases descs.len(),
{
    if descs.len() > 0 {
        let bits1 = bootstrap_step_bits(bits, available_end, descs[0]);
        assert(bits1.len() == bits.len());
        assert(bits1[f]);
        lemma_bootstrap_keeps_marks(
            bits1,
            bootstrap_step_end(available_end, descs[0]),
            descs.drop_first(),
            f,
        );
    }
}

/// Frame-aligned regions keep the end of available memory frame-aligned
/// through every step of the walk.
proof fn lemma_bootstrap_step_end_aligned(available_end: int, d: MemoryDescriptor)
    requires
        available_end % BYTE_PER_FRAME as int == 0,
        d.physical_start as int % BYTE_PER_FRAME as int == 0,
    ensures
        bootstrap_step_end(available_end, d) % BYTE_PER_FRAME as int == 0,
{
    let q = BYTE_PER_FRAME as int;
    if code_is_available(d.memory_type) {
        let ps = d.physical_start as int;
        let pages = d.number_of_pages as int;
        vstd::arithmetic::div_mod::lemma_fundamental_div_mod(ps, q);
        assert(ps + pages * (UEFI_PAGE_SIZE as int) == (ps / q + pages) * q) by (nonlinear_arith)
            requires
                ps == q * (ps / q),
                q == 4096,
                UEFI_PAGE_SIZE as int == 4096,
        ;
        vstd::arithmetic::div_mod::lemma_mod_multiples_basic(ps / q + pages, q);
    }
}

/// The bootstrap walk is conservative. With every region frame-aligned, a
/// frame below the final end of available memory that the walk leaves free
/// lies entirely inside a region the firmware reported as available.
pub proof fn lemma_bootstrap_conservative(
    bits: Seq<bool>,
    available_end: int,
    descs: Seq<MemoryDescriptor>,
    f: int,
)
    requires
        bits.len() == FRAME_COUNT,
        0 <= available_end,
        available_end % BYTE_PER_FRAME as int == 0,
        forall|i: int|
            0 <= i < descs.len() ==> valid_descriptor(#[trigger] descs[i])
                && descs[i].physical_start as int % BYTE_PER_FRAME as int == 0,
        available_end / BYTE_PER_FRAME as int <= f < bootstrap_end(available_end, descs)
            / BYTE_PER_FRAME as int,
        0 <= f < FRAME_COUNT,
        !bootstrap_bits(bits, available_end, descs)[f],
    ensures
        available_frame(descs, f),
    decreases descs.len(),
{
    let q = BYTE_PER_FRAME as int;
    let ae = available_end;
    if descs.len() == 0 {
        assert(false);
    } else {
        let d = descs[0];
        let ps = d.physical_start as int;
        let pages = d.number_of_pages as int;
        let bits1 = bootstrap_step_bits(bits, ae, d);
        let ae1 = bootstrap_step_end(ae, d);
        lemma_bootstrap_step_end_aligned(ae, d);
        vstd::arithmetic::div_mod::lemma_fundamental_div_mod(ae, q);
        vstd::arithmetic::div_mod::lemma_fundamental_div_mod(ps, q);
        assert(bits1.len() == FRAME_COUNT);
        if f < ae1 / q {
            // The new end moved past this frame, so this descriptor is an
            // available region ending at `ae1`.
            assert(code_is_available(d.memory_type));
            let pe = ps + pages * (UEFI_PAGE_SIZE as int);
            assert(ae1 == pe);
            vstd::arithmetic::div_mod::lemma_fundamental_div_mod(pe, q);
            if ae < ps && f * q < ps {
                // The frame sits in the gap before the region; the gap was
                // marked whole, so the walk cannot have left it free.
                assert((ps - ae) / q == ps / q - ae / q) by {
                    vstd::arithmetic::div_mod::lemma_div_by_multiple(ps / q - ae / q, q);
                    assert(ps - ae == (ps / q - ae / q) * q) by (nonlinear_arith)
                        requires
                            ps == q * (ps / q) + ps % q,
                            ae == q * (ae / q) + ae % q,
                            ps % q == 0,
                            ae % q == 0,
                    ;
                }
                assert(f < ps / q) by (nonlinear_arith)
                    requires
                        f * q < ps,
                        ps == q * (ps / q),
                        q > 0,
                ;
                assert(bits1[f]);
                lemma_bootstrap_keeps_marks(bits1, ae1, descs.drop_first(), f);
                assert(false);
            } else {
                // The frame lies inside the region itself.
                assert(ae <= f * q) by (nonlinear_arith)
                    requires
                        ae / q <= f,
                        ae == q * (ae / q),
                        q > 0,
                ;
                assert(ps <= f * q);
                assert((f + 1) * q <= pe) by (nonlinear_arith)
                    requires
                        f < pe / q,
                        pe == q * (pe / q) + pe % q,
                        pe % q == 0,
                        q > 0,
                ;
                assert(covers_frame(d, f));
                assert(available_frame(descs, f)) by {
                    assert(code_is_available(descs[0].memory_type) && covers_frame(descs[0], f));
                }
            }
        } else {
            let rest = descs.drop_first();
            assert forall|i: int|
                0 <= i < rest.len() implies valid_descriptor(#[trigger] rest[i])
                && rest[i].physical_start as int % q == 0 by {
                assert(rest[i] == descs[i + 1]);
            }
            assert(0 <= ae1) by {
                if code_is_available(d.memory_type) {
                    assert(pages * (UEFI_PAGE_SIZE as int) >= 0) by (nonlinear_arith)
                        requires
                            pages >= 0,
                    ;
                }
            }
            lemma_bootstrap_conservative(bits1, ae1, rest, f);
            let j = choose|j: int|
                0 <= j < rest.len() && code_is_available((#[trigger] rest[j]).memory_type)
                    && covers_frame(rest[j], f);
            assert(descs[j + 1] == rest[j]);
            assert(available_frame(descs, f)) by {
                assert(code_is_available(descs[j + 1].memory_type) && covers_frame(
                    descs[j + 1],
                    f,
                ));
            }
        }
    }
}

/// Number of whole frames needed to cover `size` bytes.
pub fn frames_for_bytes(size: usize) -> (n: usize)
    requires
        size + BYTE_PER_FRAME - 1 <= usize::MAX,
    ensures
        n == (size + BYTE_PER_FRAME - 1) as int / BYTE_PER_FRAME as int,
{
    (size + (BYTE_PER_FRAME - 1)) / BYTE_PER_FRAME
}

/// Translates a byte-granular request into frames: rounds `size` up to whole
/// frames, allocates them first-fit, and returns the base physical address of
/// the run, or 0 when no run fits. Alignment finer than a frame needs no
/// separate handling, since every frame is frame-aligned. Callers must check
/// for 0 before use.
pub fn alloc_bytes(manager: &mut BitmapMemoryManager, size: usize) -> (addr: usize)
    requires
        old(manager).wf(),
        size >= 1,
        size + BYTE_PER_FRAME - 1 <= usize::MAX,
    ensures
        final(manager).wf(),
        final(manager).range_begin == old(manager).range_begin,
        final(manager).range_end == old(manager).range_end,
        ({
            let n = (size + BYTE_PER_FRAME - 1) as int / BYTE_PER_FRAME as int;
            match alloc_scan(
                old(manager).bitmap(),
                old(manager).range_begin.id as int,
                old(manager).range_end.id as int,
                n,
            ) {
                Some(s) => addr == s * BYTE_PER_FRAME && final(manager).bitmap() =~= mark_range(
                    old(manager).bitmap(),
                    s,
                    n,
                    true,
                ),
                None => addr == 0 && final(manager).bitmap() =~= old(manager).bitmap(),
            }
        }),
{
    let num_frames = frames_for_bytes(size);
    proof {
        vstd::arithmetic::div_mod::lemma_div_pos_is_pos(
            size + BYTE_PER_FRAME - 1,
            BYTE_PER_FRAME as int,
        );
        vstd::arithmetic::div_mod::lemma_div_non_zero(
            size + BYTE_PER_FRAME - 1,
            BYTE_PER_FRAME as int,
        );
    }
    match manager.allocate(num_frames) {
        Ok(frame) => frame.frame(),
        Err(_) => 0,
    }
}

/// Recomputes the frame run covered by an earlier byte allocation at `addr`
/// of `size` bytes and frees it.
pub fn dealloc_bytes(manager: &mut BitmapMemoryManager, addr: usize, size: usize)
    requires
        old(manager).wf(),
        size + BYTE_PER_FRAME - 1 <= usize::MAX,
        addr as int / BYTE_PER_FRAME as int + (size + BYTE_PER_FRAME - 1) as int
            / BYTE_PER_FRAME as int <= FRAME_COUNT,
    ensures
        final(manager).wf(),
        final(manager).range_begin == old(manager).range_begin,
        final(manager).range_end == old(manager).range_end,
        final(manager).bitmap() =~= mark_range(
            old(manager).bitmap(),
            addr as int / BYTE_PER_FRAME as int,
            (size + BYTE_PER_FRAME - 1) as int / BYTE_PER_FRAME as int,
            false,
        ),
{
    let num_frames = frames_for_bytes(size);
    let start_frame = FrameId::new(addr / BYTE_PER_FRAME);
    proof {
        vstd::arithmetic::div_mod::lemma_div_pos_is_pos(addr as int, BYTE_PER_FRAME as int);
        vstd::arithmetic::div_mod::lemma_div_pos_is_pos(
            size + BYTE_PER_FRAME - 1,
            BYTE_PER_FRAME as int,
        );
    }
    let _ = manager.free(start_frame, num_frames);
}

} // verus!
