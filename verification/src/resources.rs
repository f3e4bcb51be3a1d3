use vstd::prelude::*;

verus! {

/// Whether memory type `i` is allowed by the bit mask `type_filter` and has
/// all the property flags of `required`.
pub open spec fn memory_type_suitable(type_filter: u32, memory_type_flags: Seq<u32>, required: u32, i: int) -> bool {
    &&& (type_filter >> (i as u32)) & 1 == 1
    &&& memory_type_flags[i] & required == required
}

/// Finds the first memory type, among the property flags of the device's
/// memory types, that `type_filter` allows and that has all the flags of
/// `required`.
pub fn find_memory_type(type_filter: u32, memory_type_flags: &[u32], required: u32) -> (r: Option<u32>)
    requires
        memory_type_flags.len() <= 32,
    ensures
        match r {
            Some(i) => {
                &&& i < memory_type_flags.len()
                &&& memory_type_suitable(type_filter, memory_type_flags@, required, i as int)
                &&& forall|j: int|
                    0 <= j < i ==> !#[trigger] memory_type_suitable(type_filter, memory_type_flags@, required, j)
            },
            None => forall|j: int|
                0 <= j < memory_type_flags.len() ==> !#[trigger] memory_type_suitable(
                    type_filter,
                    memory_type_flags@,
                    required,
                    j,
                ),
        },
{
    let count = memory_type_flags.len() as u32;
    let mut i: u32 = 0;
    while i < count
        invariant
            count == memory_type_flags.len(),
            count <= 32,
            i <= count,
            forall|j: int|
                0 <= j < i ==> !#[trigger] memory_type_suitable(type_filter, memory_type_flags@, required, j),
        decreases count - i,
    {
        let allowed = (type_filter & (1u32 << i)) != 0;
        assert(allowed == ((type_filter >> i) & 1 == 1)) by (bit_vector)
            requires
                i < 32,
                allowed == ((type_filter & (1u32 << i)) != 0),
        ;
        if allowed && (memory_type_flags[i as usize] & required) == required {
            return Some(i);
        }
        i += 1;
    }
    None
}

/// The memory type index used for an allocation: the first suitable memory
/// type, or 0 when there is none.
pub fn find_memory_type_index(type_filter: u32, memory_type_flags: &[u32], required: u32) -> (r: u32)
    requires
        memory_type_flags.len() <= 32,
    ensures
        r == match find_memory_type_spec(type_filter, memory_type_flags@, required) {
            Some(i) => i,
            None => 0,
        },
{
    let r = find_memory_type(type_filter, memory_type_flags, required);
    proof {
        lemma_find_memory_type_unique(type_filter, memory_type_flags@, required, r);
    }
    match r {
        Some(i) => i,
        None => 0,
    }
}

/// The first suitable memory type, as `find_memory_type` returns it.
pub open spec fn find_memory_type_spec(type_filter: u32, memory_type_flags: Seq<u32>, required: u32) -> Option<u32> {
    if exists|i: int|
        0 <= i < memory_type_flags.len() && #[trigger] memory_type_suitable(type_filter, memory_type_flags, required, i) {
        let i = choose|i: int|
            0 <= i < memory_type_flags.len() && #[trigger] memory_type_suitable(type_filter, memory_type_flags, required, i)
                && forall|j: int| 0 <= j < i ==> !#[trigger] memory_type_suitable(type_filter, memory_type_flags, required, j);
        Some(i as u32)
    } else {
        None
    }
}

proof fn lemma_find_memory_type_unique(type_filter: u32, flags: Seq<u32>, required: u32, r: Option<u32>)
    requires
        flags.len() <= 32,
        match r {
            Some(i) => {
                &&& i < flags.len()
                &&& memory_type_suitable(type_filter, flags, required, i as int)
                &&& forall|j: int| 0 <= j < i ==> !#[trigger] memory_type_suitable(type_filter, flags, required, j)
            },
            None => forall|j: int| 0 <= j < flags.len() ==> !#[trigger] memory_type_suitable(type_filter, flags, required, j),
        },
    ensures
        r == find_memory_type_spec(type_filter, flags, required),
{
    if let Some(i) = r {
        assert(0 <= i < flags.len() && memory_type_suitable(type_filter, flags, required, i as int));
        let k = choose|k: int|
            0 <= k < flags.len() && #[trigger] memory_type_suitable(type_filter, flags, required, k)
                && forall|j: int| 0 <= j < k ==> !#[trigger] memory_type_suitable(type_filter, flags, required, j);
        assert(k == i as int) by {
            if k < i {
                assert(!memory_type_suitable(type_filter, flags, required, k));
            } else if k > i {
                assert(!memory_type_suitable(type_filter, flags, required, i as int));
            }
        }
    }
}

/// Rounds `size` up with the mask of `alignment`: `(size + alignment - 1) & !(alignment - 1)`.
pub fn align_up(size: u64, alignment: u64) -> (r: u64)
    requires
        alignment >= 1,
        size + alignment <= u64::MAX,
    ensures
        r == (((size + alignment - 1) as u64) & !((alignment - 1) as u64)),
{
    (size + alignment - 1) & !(alignment - 1)
}

/// The size of a bitstream buffer: 4 MiB rounded up to the device's minimum
/// offset alignment, with 256 taken when the device reports 0.
pub fn bitstream_buffer_size(min_alignment: u64) -> (r: u64)
    requires
        min_alignment <= u64::MAX - 4 * 1024 * 1024,
    ensures
        r == ({
            let a: u64 = if min_alignment == 0 { 256 } else { min_alignment };
            ((0x40_0000u64 + a - 1) as u64) & !((a - 1) as u64)
        }),
{
    let alignment = if min_alignment == 0 {
        256
    } else {
        min_alignment
    };
    align_up(4 * 1024 * 1024, alignment)
}

/// Rounds a video dimension up to whole 16-pixel macroblocks; the dimension
/// is first taken as unsigned.
pub fn coded_dimension(dim: i32) -> (r: u32)
    requires
        (dim as u32) <= 0xffff_fff0,
    ensures
        r == ((dim as u32) as int + 15) / 16 * 16,
        r % 16 == 0,
        (dim as u32) <= r < (dim as u32) + 16,
{
    let u = dim as u32;
    let blocks = u / 16 + if u % 16 != 0 {
        1
    } else {
        0
    };
    blocks * 16
}

/// The slots the frame numbered `frame_count` uses: its picture slot in the
/// decoded picture buffer and its in-flight synchronisation slot, both
/// taken round-robin.
pub fn frame_slots(frame_count: usize, dpb_pool_size: usize, frames_in_flight: usize) -> (r: (usize, usize))
    requires
        dpb_pool_size > 0,
        frames_in_flight > 0,
    ensures
        r.0 == frame_count % dpb_pool_size,
        r.1 == frame_count % frames_in_flight,
        r.0 < dpb_pool_size,
        r.1 < frames_in_flight,
{
    (frame_count % dpb_pool_size, frame_count % frames_in_flight)
}

/// A decoded picture used as a reference: its slot in the decoded picture
/// buffer and its frame number.
#[derive(Debug, Clone, Copy, PartialEq, Eq)]
pub struct ReferenceSlot {
    pub slot_index: usize,
    pub frame_num: u16,
}

/// How many earlier frames a frame refers to: the frame count, but at most
/// one less than the pool size, both counted in a `u32`.
pub open spec fn reference_count(frame_count: usize, dpb_pool_size: usize) -> int {
    let a = frame_count as int % 0x1_0000_0000;
    let b = dpb_pool_size as int % 0x1_0000_0000 - 1;
    if a < b {
        a
    } else {
        b
    }
}

/// The `k`-th reference (from 0) of the frame numbered `frame_count`: the
/// frame `k + 1` places before it, in its round-robin slot, with frame
/// number modulo 16.
pub open spec fn reference_slot(frame_count: usize, dpb_pool_size: usize, k: int) -> ReferenceSlot {
    let f = frame_count - (k + 1);
    ReferenceSlot { slot_index: (f % (dpb_pool_size as int)) as usize, frame_num: (f % 16) as u16 }
}

/// The reference slots of the frame numbered `frame_count`: none for the
/// first frame of a stream; otherwise the `reference_count` frames before
/// it, the most recent first.
pub fn dpb_reference_slots(frame_count: usize, dpb_pool_size: usize, is_first_frame: bool) -> (r: Vec<ReferenceSlot>)
    requires
        dpb_pool_size as int % 0x1_0000_0000 != 0,
    ensures
        is_first_frame ==> r@.len() == 0,
        !is_first_frame ==> r@.len() == reference_count(frame_count, dpb_pool_size),
        forall|k: int| 0 <= k < r@.len() ==> #[trigger] r@[k] == reference_slot(frame_count, dpb_pool_size, k),
{
    let mut slots: Vec<ReferenceSlot> = Vec::new();
    if is_first_frame {
        return slots;
    }
    let a: u32 = #[verifier::truncate] (frame_count as u32);
    let d: u32 = #[verifier::truncate] (dpb_pool_size as u32);
    assert(a as int == frame_count as int % 0x1_0000_0000) by (bit_vector)
        requires a == frame_count as u32;
    assert(a <= frame_count) by (bit_vector)
        requires a == frame_count as u32;
    assert(d as int == dpb_pool_size as int % 0x1_0000_0000) by (bit_vector)
        requires d == dpb_pool_size as u32;
    let b: u32 = d - 1;
    let max_refs: u32 = if a < b { a } else { b };
    let mut i: u32 = 0;
    while i < max_refs
        invariant
            max_refs == reference_count(frame_count, dpb_pool_size),
            max_refs <= frame_count,
            dpb_pool_size > 0,
            i <= max_refs,
            slots@.len() == i,
            forall|k: int| 0 <= k < i ==> #[trigger] slots@[k] == reference_slot(frame_count, dpb_pool_size, k),
        decreases max_refs - i,
    {
        let ref_offset = (i + 1) as usize;
        let back = frame_count - ref_offset;
        let ref_idx = back % dpb_pool_size;
        assert(ref_idx <= back) by (nonlinear_arith)
            requires
                ref_idx == back % dpb_pool_size,
                dpb_pool_size > 0,
        ;
        if ref_idx < frame_count {
            slots.push(ReferenceSlot { slot_index: ref_idx, frame_num: (back % 16) as u16 });
        }
        i += 1;
    }
    slots
}

} // verus!
