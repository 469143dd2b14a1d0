//! Physical 4 KiB frame allocator over a fixed-size bitmap, seeded from the
//! loader-provided handoff record.
//!
//! The allocator tracks `TOTAL_FRAMES` frames. Each frame is either `Free`
//! or `Reserved`; a frame handed out by [`FrameAllocator::allocate_frame`]
//! stays reserved until released exactly once. Allocation scans the map
//! starting at a rotating cursor and returns the first free frame.

use vstd::prelude::*;

use crate::bootproto::{BootInfo, MemoryRegion, MemoryRegionKind};

verus! {

/// Size in bytes of one physical frame.
pub const FRAME_SIZE_BYTES: usize = 4096;

/// Number of frames the allocator tracks.
pub const TOTAL_FRAMES: usize = 128;

/// Number of low frames kept reserved for early-boot structures.
pub const BOOT_RESERVED_FRAMES: usize = 4;

/// A physical 4 KiB frame handed out by the allocator.
#[derive(Clone, Copy, PartialEq, Eq, Structural)]
pub struct Frame {
    number: u16,
}

impl Frame {
    /// The frame's index within the allocator's map.
    pub closed spec fn spec_number(&self) -> u16 {
        self.number
    }

    /// Returns the frame's index.
    #[verifier::when_used_as_spec(spec_number)]
    pub fn number(&self) -> (r: u16)
        ensures
            r == self.spec_number(),
    {
        self.number
    }

    /// Returns the physical address of the frame's first byte.
    pub fn start_addr(&self) -> (r: usize)
        requires
            self.spec_number() < TOTAL_FRAMES,
        ensures
            r == self.spec_number() * FRAME_SIZE_BYTES,
    {
        self.number as usize * FRAME_SIZE_BYTES
    }
}

#[derive(Clone, Copy, PartialEq, Eq, Structural)]
enum FrameState {
    Free,
    Reserved,
}

/// Counts the reserved entries of a frame map.
pub closed spec fn count_reserved(s: Seq<bool>) -> int
    decreases s.len(),
{
    if s.len() == 0 {
        0
    } else {
        count_reserved(s.drop_last()) + if s.last() {
            1int
        } else {
            0int
        }
    }
}

proof fn lemma_count_reserved_bounds(s: Seq<bool>)
    ensures
        0 <= count_reserved(s) <= s.len(),
    decreases s.len(),
{
    if s.len() > 0 {
        lemma_count_reserved_bounds(s.drop_last());
    }
}

proof fn lemma_count_reserved_update(s: Seq<bool>, i: int, v: bool)
    requires
        0 <= i < s.len(),
    ensures
        count_reserved(s.update(i, v)) == count_reserved(s) - (if s[i] {
            1int
        } else {
            0int
        }) + (if v {
            1int
        } else {
            0int
        }),
    decreases s.len(),
{
    let t = s.update(i, v);
    if i == s.len() - 1 {
        assert(t.drop_last() =~= s.drop_last());
    } else {
        assert(t.drop_last() =~= s.drop_last().update(i, v));
        lemma_count_reserved_update(s.drop_last(), i, v);
    }
}

proof fn lemma_count_reserved_prefix(s: Seq<bool>, n: int)
    requires
        0 <= n <= s.len(),
    ensures
        count_reserved(s.take(n)) + count_reserved(s.skip(n)) == count_reserved(s),
    decreases s.len() - n,
{
    if n == s.len() {
        assert(s.take(n) =~= s);
        assert(s.skip(n) =~= Seq::<bool>::empty());
    } else {
        lemma_count_reserved_prefix(s, n + 1);
        assert(s.take(n + 1).drop_last() =~= s.take(n));
        assert(s.skip(n) =~= seq![s[n]] + s.skip(n + 1));
        lemma_count_reserved_cons(s[n], s.skip(n + 1));
    }
}

proof fn lemma_count_reserved_cons(b: bool, s: Seq<bool>)
    ensures
        count_reserved(seq![b] + s) == (if b {
            1int
        } else {
            0int
        }) + count_reserved(s),
    decreases s.len(),
{
    let t = seq![b] + s;
    assert(count_reserved(t) == count_reserved(t.drop_last()) + (if t.last() {
        1int
    } else {
        0int
    }));
    if s.len() == 0 {
        assert(t.drop_last() =~= Seq::<bool>::empty());
        assert(t.last() == b);
        assert(count_reserved(t.drop_last()) == 0);
    } else {
        assert(t.drop_last() =~= seq![b] + s.drop_last());
        assert(t.last() == s.last());
        lemma_count_reserved_cons(b, s.drop_last());
    }
}

/// The index the allocator's scan picks: the first reserved-flag-clear slot
/// reached from `start`, wrapping modulo the map length, looking at most `k`
/// slots ahead.
pub closed spec fn scan_free(m: Seq<bool>, start: int, k: int) -> Option<int>
    recommends
        m.len() > 0,
    decreases k,
{
    if k <= 0 {
        None
    } else {
        let i = start % (m.len() as int);
        if !m[i] {
            Some(i)
        } else {
            scan_free(m, start + 1, k - 1)
        }
    }
}

/// A successful scan picks an index that is within bounds and not reserved.
pub proof fn lemma_scan_free_sound(m: Seq<bool>, start: int, k: int)
    requires
        m.len() > 0,
        start >= 0,
    ensures
        match scan_free(m, start, k) {
            Some(i) => 0 <= i < m.len() && !m[i],
            None => true,
        },
    decreases k,
{
    if k > 0 {
        let i = start % (m.len() as int);
        if m[i] {
            lemma_scan_free_sound(m, start + 1, k - 1);
        }
    }
}

/// A scan that looks at the whole map fails only when every slot is reserved.
pub proof fn lemma_scan_free_complete(m: Seq<bool>, start: int)
    requires
        m.len() > 0,
        start >= 0,
        scan_free(m, start, m.len() as int) is None,
    ensures
        forall|j: int| 0 <= j < m.len() ==> m[j],
{
    let len = m.len() as int;
    assert forall|j: int| 0 <= j < len implies m[j] by {
        let o = (j - start) % len;
        vstd::arithmetic::div_mod::lemma_mod_bound(j - start, len);
        vstd::arithmetic::div_mod::lemma_add_mod_noop(start, o, len);
        vstd::arithmetic::div_mod::lemma_add_mod_noop(start, j - start, len);
        vstd::arithmetic::div_mod::lemma_mod_self_0(len);
        vstd::arithmetic::div_mod::lemma_small_mod(j as nat, len as nat);
        vstd::arithmetic::div_mod::lemma_mod_twice(o, len);
        vstd::arithmetic::div_mod::lemma_mod_twice(j - start, len);
        assert((start + o) % len == j);
        lemma_scan_free_miss(m, start, len, j, o);
    }
}

proof fn lemma_scan_free_miss(m: Seq<bool>, start: int, k: int, j: int, o: int)
    requires
        m.len() > 0,
        start >= 0,
        0 <= j < m.len(),
        0 <= o < k,
        (start + o) % (m.len() as int) == j,
        scan_free(m, start, k) is None,
    ensures
        m[j],
    decreases k,
{
    let len = m.len() as int;
    let i = start % len;
    if i == j {
        assert(m[j]);
    } else {
        assert(o != 0);
        assert((start + 1 + (o - 1)) % len == j);
        lemma_scan_free_miss(m, start + 1, k - 1, j, o - 1);
    }
}

/// A scan without wraparound pins the first free index: if everything
/// before `i` (from `start`) is reserved and `i` is free, the scan picks
/// `i`.
pub proof fn lemma_scan_free_finds(m: Seq<bool>, start: int, i: int)
    requires
        0 < m.len() <= TOTAL_FRAMES,
        0 <= start <= i < m.len(),
        forall|j: int| start <= j < i ==> m[j],
        !m[i],
    ensures
        scan_free(m, start, m.len() as int) == Some(i),
    decreases i - start,
{
    vstd::arithmetic::div_mod::lemma_small_mod(start as nat, m.len() as nat);
    if start < i {
        lemma_scan_free_step(m, start + 1, i, m.len() as int - 1);
    }
}

proof fn lemma_scan_free_step(m: Seq<bool>, start: int, i: int, k: int)
    requires
        m.len() > 0,
        0 <= start <= i < m.len(),
        k >= m.len() - start,
        forall|j: int| start <= j < i ==> m[j],
        !m[i],
    ensures
        scan_free(m, start, k) == Some(i),
    decreases i - start,
{
    vstd::arithmetic::div_mod::lemma_small_mod(start as nat, m.len() as nat);
    if start < i {
        lemma_scan_free_step(m, start + 1, i, k - 1);
    }
}

/// A map that is reserved exactly below `k` counts `k` reserved frames.
pub proof fn lemma_count_reserved_ramp(m: Seq<bool>, k: int)
    requires
        0 <= k <= m.len(),
        forall|j: int| 0 <= j < m.len() ==> m[j] == (j < k),
    ensures
        count_reserved(m) == k,
    decreases m.len(),
{
    if m.len() > 0 {
        if k == m.len() {
            lemma_count_reserved_ramp(m.drop_last(), k - 1);
        } else {
            lemma_count_reserved_ramp(m.drop_last(), k);
        }
    }
}

/// Whether the physical byte range `[base, base + length)` covers frame
/// `j`: the frame range is inclusive of the frames holding the first and
/// last byte, and an empty range covers nothing.
pub open spec fn phys_range_covers(base: u64, length: u64, j: int) -> bool {
    length > 0 && base as int / FRAME_SIZE_BYTES as int <= j <= (base + length - 1)
        / FRAME_SIZE_BYTES as int
}

/// The reserved flag of frame `j` after seeding from the memory map:
/// every frame starts reserved, and each region in map order marks its
/// frames free exactly when it is usable RAM, later regions winning.
pub open spec fn seeded_reserved(regions: Seq<MemoryRegion>, j: int) -> bool
    decreases regions.len(),
{
    if regions.len() == 0 {
        true
    } else if phys_range_covers(regions.last().base, regions.last().length, j) {
        !(regions.last().kind is UsableRam)
    } else {
        seeded_reserved(regions.drop_last(), j)
    }
}

/// The reserved flag of frame `j` after the whole seeding pass: the map
/// pass, then the bootfs extent and the low boot frames re-reserved.
pub open spec fn boot_seeded_reserved(info: BootInfo, j: int) -> bool {
    ||| j < BOOT_RESERVED_FRAMES
    ||| phys_range_covers(info.bootfs.base, info.bootfs.length, j)
    ||| seeded_reserved(info.memory_map@, j)
}

/// The cursor position the seeding pass parks at: the first free frame,
/// or zero when every frame is reserved.
pub open spec fn first_free_or_zero(m: Seq<bool>) -> int {
    match scan_free(m, 0, TOTAL_FRAMES as int) {
        Some(i) => i,
        None => 0,
    }
}

/// Physical frame allocator over a fixed-size map of frame states.
pub struct FrameAllocator {
    map: Vec<FrameState>,
    next_search_idx: usize,
}

impl FrameAllocator {
    /// The allocator's map as a sequence of reserved flags: `true` at index
    /// `i` says frame `i` is reserved (allocated or firmware-reserved).
    pub closed spec fn reserved_map(&self) -> Seq<bool> {
        Seq::new(self.map@.len(), |i: int| self.map@[i] is Reserved)
    }

    /// True of frame index `i` when the allocator holds it reserved.
    pub closed spec fn frame_reserved(&self, i: int) -> bool {
        self.map@[i] is Reserved
    }

    /// The reserved map indexes through [`FrameAllocator::frame_reserved`].
    pub broadcast proof fn lemma_reserved_map_index(&self, i: int)
        requires
            0 <= i < self.reserved_map().len(),
        ensures
            #[trigger] self.reserved_map()[i] == self.frame_reserved(i),
    {
    }

    /// The allocator's scan cursor.
    pub closed spec fn spec_cursor(&self) -> int {
        self.next_search_idx as int
    }

    /// Number of frames currently reserved.
    pub open spec fn spec_reserved_count(&self) -> int {
        count_reserved(self.reserved_map())
    }

    /// Structural invariant: the map covers every tracked frame and the
    /// cursor stays inside it.
    pub open spec fn wf(&self) -> bool {
        &&& self.reserved_map().len() == TOTAL_FRAMES
        &&& 0 <= self.spec_cursor() < TOTAL_FRAMES
    }

    /// The index allocation from this state would pick, if any.
    pub open spec fn alloc_choice(&self) -> Option<int> {
        scan_free(self.reserved_map(), self.spec_cursor(), TOTAL_FRAMES as int)
    }

    /// Creates an allocator with every frame free.
    pub fn new() -> (r: FrameAllocator)
        ensures
            r.wf(),
            forall|j: int| 0 <= j < TOTAL_FRAMES ==> !r.frame_reserved(j),
            r.spec_cursor() == 0,
    {
        let mut map: Vec<FrameState> = Vec::new();
        let mut i: usize = 0;
        while i < TOTAL_FRAMES
            invariant
                i <= TOTAL_FRAMES,
                map@.len() == i,
                forall|j: int| 0 <= j < i ==> map@[j] is Free,
            decreases TOTAL_FRAMES - i,
        {
            map.push(FrameState::Free);
            i += 1;
        }
        FrameAllocator { map, next_search_idx: 0 }
    }

    /// Sets every frame to the given state and rewinds the cursor.
    fn reset(&mut self, reserved: bool)
        ensures
            final(self).wf(),
            forall|j: int| 0 <= j < TOTAL_FRAMES ==> final(self).frame_reserved(j) == reserved,
            final(self).spec_cursor() == 0,
    {
        let state = if reserved {
            FrameState::Reserved
        } else {
            FrameState::Free
        };
        let mut map: Vec<FrameState> = Vec::new();
        let mut i: usize = 0;
        while i < TOTAL_FRAMES
            invariant
                i <= TOTAL_FRAMES,
                map@.len() == i,
                forall|j: int| 0 <= j < i ==> (map@[j] is Reserved) == reserved,
                state == (if reserved {
                    FrameState::Reserved
                } else {
                    FrameState::Free
                }),
            decreases TOTAL_FRAMES - i,
        {
            map.push(state);
            i += 1;
        }
        self.map = map;
        self.next_search_idx = 0;
    }

    /// Marks the frames of `[start, end)`, clamped to the map, with the given
    /// reserved flag; frames outside the range keep their state.
    #[verifier::loop_isolation(false)]
    fn mark_range(&mut self, start: usize, end: usize, reserved: bool)
        requires
            old(self).wf(),
        ensures
            final(self).wf(),
            forall|j: int|
                0 <= j < TOTAL_FRAMES ==> final(self).frame_reserved(j) == (if start <= j < end {
                    reserved
                } else {
                    old(self).frame_reserved(j)
                }),
            final(self).spec_cursor() == old(self).spec_cursor(),
    {
        let state = if reserved {
            FrameState::Reserved
        } else {
            FrameState::Free
        };
        let hi = if end < TOTAL_FRAMES {
            end
        } else {
            TOTAL_FRAMES
        };
        let lo = if start < TOTAL_FRAMES {
            start
        } else {
            TOTAL_FRAMES
        };
        let ghost orig = *self;
        let mut idx = lo;
        while idx < hi
            invariant
                orig == *old(self),
                orig.wf(),
                self.wf(),
                lo == (if start < TOTAL_FRAMES {
                    start as int
                } else {
                    TOTAL_FRAMES as int
                }),
                hi == (if end < TOTAL_FRAMES {
                    end as int
                } else {
                    TOTAL_FRAMES as int
                }),
                lo <= idx <= TOTAL_FRAMES,
                idx <= hi || idx == lo,
                forall|j: int|
                    0 <= j < TOTAL_FRAMES ==> #[trigger] self.frame_reserved(j) == (if start <= j
                        < idx {
                        reserved
                    } else {
                        orig.frame_reserved(j)
                    }),
                self.spec_cursor() == orig.spec_cursor(),
                state == (if reserved {
                    FrameState::Reserved
                } else {
                    FrameState::Free
                }),
            decreases hi - idx,
        {
            let ghost prior = *self;
            self.map.set(idx, state);
            proof {
                assert(start <= idx);
                assert forall|j: int|
                    0 <= j < TOTAL_FRAMES implies #[trigger] self.frame_reserved(j) == (if start
                        <= j < idx + 1 {
                        reserved
                    } else {
                        orig.frame_reserved(j)
                    }) by {
                    if j == idx {
                        assert(self.frame_reserved(j) == reserved);
                    } else {
                        assert(self.frame_reserved(j) == prior.frame_reserved(j));
                    }
                }
                assert(self.reserved_map() =~= prior.reserved_map().update(idx as int, reserved));
            }
            idx += 1;
        }
    }

    /// Reserves `len` frames starting at frame `start`, clamped to the map.
    fn reserve_range(&mut self, start: usize, len: usize)
        requires
            old(self).wf(),
        ensures
            final(self).wf(),
            forall|j: int|
                0 <= j < TOTAL_FRAMES ==> final(self).frame_reserved(j) == (if start <= j < start
                    + len {
                    true
                } else {
                    old(self).frame_reserved(j)
                }),
            final(self).spec_cursor() == old(self).spec_cursor(),
    {
        let end = if len > TOTAL_FRAMES {
            TOTAL_FRAMES
        } else if start > TOTAL_FRAMES {
            TOTAL_FRAMES
        } else {
            // start + len with both bounded by the map size cannot overflow
            if start + len > TOTAL_FRAMES {
                TOTAL_FRAMES
            } else {
                start + len
            }
        };
        self.mark_range(start, end, true);
    }

    /// Marks the frames covered by the physical byte range
    /// `[base, base + length)` with the given reserved flag. A range whose
    /// end overflows the address space is clamped to the last frame.
    fn mark_phys_range(&mut self, base: u64, length: u64, reserved: bool)
        requires
            old(self).wf(),
        ensures
            final(self).wf(),
            forall|j: int|
                0 <= j < TOTAL_FRAMES ==> final(self).frame_reserved(j) == (if phys_range_covers(
                    base,
                    length,
                    j,
                ) {
                    reserved
                } else {
                    old(self).frame_reserved(j)
                }),
            final(self).spec_cursor() == old(self).spec_cursor(),
    {
        if length == 0 {
            return ;
        }
        let frame_size = FRAME_SIZE_BYTES as u64;
        let start_frame = base / frame_size;
        let last_byte = if length - 1 <= u64::MAX - base {
            base + (length - 1)
        } else {
            u64::MAX
        };
        let last_frame = last_byte / frame_size;
        proof {
            let s = base as int / FRAME_SIZE_BYTES as int;
            let e = (base as int + length as int - 1) / FRAME_SIZE_BYTES as int;
            vstd::arithmetic::div_mod::lemma_div_is_ordered(
                last_byte as int,
                base as int + length as int - 1,
                FRAME_SIZE_BYTES as int,
            );
            vstd::arithmetic::div_mod::lemma_div_is_ordered(
                base as int,
                last_byte as int,
                FRAME_SIZE_BYTES as int,
            );
            assert(s == start_frame as int);
            assert(last_frame as int <= e);
            assert(last_byte == base + length - 1 ==> last_frame as int == e);
            if length - 1 > u64::MAX - base {
                assert(last_frame >= TOTAL_FRAMES as u64);
            }
        }
        let start = if start_frame < TOTAL_FRAMES as u64 {
            start_frame as usize
        } else {
            TOTAL_FRAMES
        };
        let end = if last_frame < TOTAL_FRAMES as u64 {
            last_frame as usize + 1
        } else {
            TOTAL_FRAMES
        };
        self.mark_range(start, end, reserved);
    }

    /// Seeds the allocator from a handoff record, as
    /// [`boot_seeded_reserved`] states it: every frame starts reserved,
    /// each map region frees its frames exactly when it is usable RAM
    /// (later regions winning), the bootfs extent and the low boot frames
    /// are re-reserved, and the cursor parks at the first free frame, or
    /// zero. A record without a memory map instead frees everything except
    /// the low boot frames and leaves the cursor at zero.
    pub fn apply_boot_info(&mut self, info: &BootInfo)
        ensures
            final(self).wf(),
            info.memory_map@.len() == 0 ==> (forall|j: int|
                0 <= j < TOTAL_FRAMES ==> final(self).frame_reserved(j) == (j
                    < BOOT_RESERVED_FRAMES)) && final(self).spec_cursor() == 0,
            info.memory_map@.len() > 0 ==> (forall|j: int|
                0 <= j < TOTAL_FRAMES ==> #[trigger] final(self).frame_reserved(j)
                    == boot_seeded_reserved(*info, j)) && final(self).spec_cursor()
                == first_free_or_zero(final(self).reserved_map()),
    {
        if info.memory_map.len() == 0 {
            self.reset(false);
            self.reserve_range(0, BOOT_RESERVED_FRAMES);
            return ;
        }
        self.reset(true);

        let ghost regions = info.memory_map@;
        let mut r: usize = 0;
        proof {
            assert(regions.take(0) =~= Seq::<MemoryRegion>::empty());
        }
        while r < info.memory_map.len()
            invariant
                self.wf(),
                self.spec_cursor() == 0,
                regions == info.memory_map@,
                r <= regions.len(),
                forall|j: int|
                    0 <= j < TOTAL_FRAMES ==> #[trigger] self.frame_reserved(j) == seeded_reserved(
                        regions.take(r as int),
                        j,
                    ),
            decreases info.memory_map@.len() - r,
        {
            let region = &info.memory_map[r];
            let free = matches!(region.kind, MemoryRegionKind::UsableRam);
            self.mark_phys_range(region.base, region.length, !free);
            proof {
                assert(regions.take(r + 1).drop_last() =~= regions.take(r as int));
                assert(regions.take(r + 1).last() == regions[r as int]);
            }
            r += 1;
        }
        proof {
            assert(regions.take(regions.len() as int) =~= regions);
        }

        if info.bootfs.length != 0 {
            self.mark_phys_range(info.bootfs.base, info.bootfs.length, true);
        }

        self.reserve_range(0, BOOT_RESERVED_FRAMES);
        proof {
            assert forall|j: int| 0 <= j < TOTAL_FRAMES implies #[trigger] self.frame_reserved(j)
                == boot_seeded_reserved(*info, j) by {}
        }

        let ghost m = self.reserved_map();
        let mut first_free: usize = 0;
        let mut i: usize = 0;
        let mut found = false;
        while i < TOTAL_FRAMES
            invariant
                self.wf(),
                m == self.reserved_map(),
                self.spec_cursor() == 0,
                forall|j: int|
                    0 <= j < TOTAL_FRAMES ==> #[trigger] self.frame_reserved(j)
                        == boot_seeded_reserved(*info, j),
                i <= TOTAL_FRAMES,
                !found ==> first_free == 0 && scan_free(m, 0, TOTAL_FRAMES as int) == scan_free(
                    m,
                    i as int,
                    TOTAL_FRAMES - i,
                ),
                found ==> first_free < TOTAL_FRAMES && scan_free(m, 0, TOTAL_FRAMES as int)
                    == Some(first_free as int),
            decreases TOTAL_FRAMES - i,
        {
            proof {
                vstd::arithmetic::div_mod::lemma_small_mod(i as nat, TOTAL_FRAMES as nat);
                assert(m[i as int] == self.frame_reserved(i as int));
            }
            if !found && matches!(self.map[i], FrameState::Free) {
                first_free = i;
                found = true;
            }
            i += 1;
        }
        let ghost pre = *self;
        self.next_search_idx = first_free;
        proof {
            assert(self.reserved_map() =~= pre.reserved_map());
            assert forall|j: int| 0 <= j < TOTAL_FRAMES implies #[trigger] self.frame_reserved(j)
                == boot_seeded_reserved(*info, j) by {
                assert(self.frame_reserved(j) == pre.frame_reserved(j));
            }
        }
    }

    /// Initializes the allocator from an optional handoff record: with a
    /// record, [`Self::apply_boot_info`]; without one, all frames free
    /// except the low boot frames.
    pub fn init(&mut self, boot_info: Option<&BootInfo>)
        ensures
            final(self).wf(),
            boot_info is None ==> {
                &&& forall|j: int|
                    0 <= j < TOTAL_FRAMES ==> final(self).frame_reserved(j) == (j
                        < BOOT_RESERVED_FRAMES)
                &&& final(self).spec_cursor() == 0
                &&& final(self).spec_reserved_count() == BOOT_RESERVED_FRAMES
            },
            boot_info matches Some(info) ==> {
                &&& (info.memory_map@.len() == 0 ==> (forall|j: int|
                    0 <= j < TOTAL_FRAMES ==> final(self).frame_reserved(j) == (j
                        < BOOT_RESERVED_FRAMES)) && final(self).spec_cursor() == 0)
                &&& (info.memory_map@.len() > 0 ==> (forall|j: int|
                    0 <= j < TOTAL_FRAMES ==> #[trigger] final(self).frame_reserved(j)
                        == boot_seeded_reserved(*info, j)) && final(self).spec_cursor()
                    == first_free_or_zero(final(self).reserved_map()))
            },
    {
        match boot_info {
            Some(info) => self.apply_boot_info(info),
            None => {
                self.reset(false);
                self.reserve_range(0, BOOT_RESERVED_FRAMES);
                proof {
                    assert forall|i: int|
                        0 <= i < self.reserved_map().len() implies #[trigger] self.reserved_map()[i]
                        == (i < BOOT_RESERVED_FRAMES) by {
                        assert(self.reserved_map()[i] == self.frame_reserved(i));
                    }
                    lemma_count_reserved_ramp(self.reserved_map(), BOOT_RESERVED_FRAMES as int);
                }
            },
        }
    }

    /// Attempts to allocate a 4 KiB frame: scans from the cursor, reserves
    /// and returns the first free frame, and parks the cursor one past it.
    /// Returns `None`, leaving the state unchanged, exactly when every frame
    /// is reserved.
    pub fn allocate_frame(&mut self) -> (r: Option<Frame>)
        requires
            old(self).wf(),
        ensures
            final(self).wf(),
            match r {
                Some(f) => {
                    &&& Some(f.spec_number() as int) == old(self).alloc_choice()
                    &&& f.spec_number() < TOTAL_FRAMES
                    &&& !old(self).frame_reserved(f.spec_number() as int)
                    &&& final(self).frame_reserved(f.spec_number() as int)
                    &&& forall|j: int|
                        0 <= j < TOTAL_FRAMES && j != f.spec_number()
                            ==> final(self).frame_reserved(j) == old(self).frame_reserved(j)
                    &&& final(self).spec_reserved_count() == old(self).spec_reserved_count() + 1
                    &&& final(self).spec_cursor() == (f.spec_number() + 1) % (TOTAL_FRAMES as int)
                },
                None => {
                    &&& *final(self) == *old(self)
                    &&& old(self).alloc_choice() is None
                    &&& forall|j: int| 0 <= j < TOTAL_FRAMES ==> old(self).frame_reserved(j)
                },
            },
    {
        let ghost orig = *self;
        let ghost m = self.reserved_map();
        let ghost start = self.spec_cursor();
        let mut offset: usize = 0;
        while offset < TOTAL_FRAMES
            invariant
                orig == *old(self),
                *self == orig,
                self.wf(),
                m == self.reserved_map(),
                start == self.spec_cursor(),
                offset <= TOTAL_FRAMES,
                scan_free(m, start, TOTAL_FRAMES as int) == scan_free(
                    m,
                    start + offset,
                    TOTAL_FRAMES - offset,
                ),
            decreases TOTAL_FRAMES - offset,
        {
            let idx = (self.next_search_idx + offset) % TOTAL_FRAMES;
            proof {
                assert((start + offset) % (TOTAL_FRAMES as int) == idx);
                assert(m[idx as int] == self.frame_reserved(idx as int));
            }
            if matches!(self.map[idx], FrameState::Free) {
                let ghost prior = *self;
                self.map.set(idx, FrameState::Reserved);
                self.next_search_idx = (idx + 1) % TOTAL_FRAMES;
                proof {
                    assert(scan_free(m, start + offset, TOTAL_FRAMES - offset) == Some(
                        idx as int,
                    ));
                    assert(self.frame_reserved(idx as int));
                    assert forall|j: int|
                        0 <= j < TOTAL_FRAMES && j != idx implies #[trigger] self.frame_reserved(j)
                        == prior.frame_reserved(j) by {}
                    assert(self.reserved_map() =~= m.update(idx as int, true));
                    lemma_count_reserved_update(m, idx as int, true);
                }
                return Some(Frame { number: idx as u16 });
            }
            offset += 1;
        }
        proof {
            lemma_scan_free_complete(m, start);
            assert forall|j: int| 0 <= j < TOTAL_FRAMES implies #[trigger] old(
                self,
            ).frame_reserved(j) by {
                assert(m[j]);
            }
        }
        None
    }

    /// Releases a frame. Returns `true` and frees the slot exactly when the
    /// frame is within the map and currently reserved; an already-free or
    /// out-of-range frame returns `false` and changes nothing.
    pub fn release_frame(&mut self, frame: Frame) -> (r: bool)
        requires
            old(self).wf(),
        ensures
            final(self).wf(),
            r == (frame.spec_number() < TOTAL_FRAMES && old(self).frame_reserved(
                frame.spec_number() as int,
            )),
            r ==> {
                &&& !final(self).frame_reserved(frame.spec_number() as int)
                &&& forall|j: int|
                    0 <= j < TOTAL_FRAMES && j != frame.spec_number()
                        ==> final(self).frame_reserved(j) == old(self).frame_reserved(j)
                &&& final(self).spec_reserved_count() == old(self).spec_reserved_count() - 1
                &&& final(self).spec_cursor() == old(self).spec_cursor()
            },
            !r ==> *final(self) == *old(self),
    {
        let idx = frame.number() as usize;
        if idx >= TOTAL_FRAMES {
            return false;
        }
        match self.map[idx] {
            FrameState::Free => false,
            FrameState::Reserved => {
                let ghost prior = *self;
                let ghost m = self.reserved_map();
                self.map.set(idx, FrameState::Free);
                proof {
                    assert(!self.frame_reserved(idx as int));
                    assert forall|j: int|
                        0 <= j < TOTAL_FRAMES && j != idx implies #[trigger] self.frame_reserved(j)
                        == prior.frame_reserved(j) by {}
                    assert(self.reserved_map() =~= m.update(idx as int, false));
                    lemma_count_reserved_update(m, idx as int, false);
                }
                true
            },
        }
    }

    /// Returns the number of frames currently marked reserved.
    pub fn reserved_frames(&self) -> (r: usize)
        requires
            self.wf(),
        ensures
            r == self.spec_reserved_count(),
    {
        let mut count: usize = 0;
        let mut i: usize = 0;
        while i < TOTAL_FRAMES
            invariant
                self.wf(),
                i <= TOTAL_FRAMES,
                count == count_reserved(self.reserved_map().take(i as int)),
                count <= i,
            decreases TOTAL_FRAMES - i,
        {
            proof {
                assert(self.reserved_map().take(i + 1).drop_last() =~= self.reserved_map().take(
                    i as int,
                ));
            }
            if matches!(self.map[i], FrameState::Reserved) {
                count += 1;
            }
            i += 1;
        }
        proof {
            assert(self.reserved_map().take(TOTAL_FRAMES as int) =~= self.reserved_map());
        }
        count
    }
}

/// Exposes the frame size to callers that need to compute addresses.
pub fn frame_size() -> (r: usize)
    ensures
        r == FRAME_SIZE_BYTES,
{
    FRAME_SIZE_BYTES
}


/// The sum of a sequence of per-operation count changes.
pub open spec fn sum_of(deltas: Seq<int>) -> int
    decreases deltas.len(),
{
    if deltas.len() == 0 {
        0
    } else {
        sum_of(deltas.drop_last()) + deltas.last()
    }
}

/// Allocator parity: a successful allocation raises the reserved count by
/// one and a successful release lowers it by one, while failed operations
/// leave it alone — the ensures of [`FrameAllocator::allocate_frame`] and
/// [`FrameAllocator::release_frame`]. So along any run of operations whose
/// counts step by those deltas, the count read afterwards — what
/// [`FrameAllocator::reserved_frames`] returns — is the initial
/// reservations plus the allocations minus the successful releases.
pub proof fn lemma_allocator_parity(counts: Seq<int>, deltas: Seq<int>)
    requires
        counts.len() == deltas.len() + 1,
        forall|i: int| 0 <= i < deltas.len() ==> counts[i + 1] == counts[i] + #[trigger] deltas[i],
    ensures
        counts.last() == counts.first() + sum_of(deltas),
    decreases deltas.len(),
{
    if deltas.len() > 0 {
        assert forall|i: int|
            0 <= i < deltas.drop_last().len() implies counts.drop_last()[i + 1]
            == counts.drop_last()[i] + #[trigger] deltas.drop_last()[i] by {
            assert(deltas.drop_last()[i] == deltas[i]);
        }
        lemma_allocator_parity(counts.drop_last(), deltas.drop_last());
        assert(counts.drop_last().last() == counts[counts.len() - 2]);
        assert(counts.drop_last().first() == counts.first());
    }
}

/// Frame-allocator exclusivity: allocation never hands out a frame that is
/// already reserved, and a frame it hands out is reserved in the state the
/// allocation leaves behind (see [`FrameAllocator::allocate_frame`]). So no
/// frame is returned by two allocations without a successful release of it
/// in between, whatever operations run in between.
pub proof fn lemma_allocate_exclusive(a: FrameAllocator, i: int)
    requires
        a.wf(),
        a.frame_reserved(i),
    ensures
        a.alloc_choice() != Some(i),
{
    lemma_scan_free_sound(a.reserved_map(), a.spec_cursor(), TOTAL_FRAMES as int);
}

} // verus!
