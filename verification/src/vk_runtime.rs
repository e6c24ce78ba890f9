//! Choices the Vulkan runtime makes: device, queue family, memory type, and
//! the packed words of an acceleration-structure instance.
use vstd::prelude::*;

verus! {

/// What a physical device reports.
pub struct DeviceInfo {
    /// Raw flags of each queue family.
    pub queue_flags: Vec<u32>,
    /// Names of the supported extensions.
    pub extensions: Vec<String>,
}

/// Calls `ash::vk::QueueFlags::contains` with `QueueFlags::COMPUTE`, the flag
/// with value 2: whether that bit is set in `flags`.
#[verifier::external_body]
fn has_compute(flags: u32) -> (has: bool)
    ensures
        has == (flags & 2 == 2),
{
    ash::vk::QueueFlags::from_raw(flags).contains(ash::vk::QueueFlags::COMPUTE)
}

/// Calls `ash::vk::MemoryPropertyFlags::contains`: whether every bit of
/// `wanted` is set in `flags`.
#[verifier::external_body]
fn has_properties(flags: u32, wanted: u32) -> (has: bool)
    ensures
        has == (flags & wanted == wanted),
{
    ash::vk::MemoryPropertyFlags::from_raw(flags).contains(
        ash::vk::MemoryPropertyFlags::from_raw(wanted),
    )
}

/// The first queue family from `i` on that supports compute.
pub open spec fn compute_family_from(flags: Seq<u32>, i: int) -> Option<int>
    decreases flags.len() - i,
{
    if i >= flags.len() {
        None
    } else if flags[i] & 2 == 2 {
        Some(i)
    } else {
        compute_family_from(flags, i + 1)
    }
}

/// The first queue family that supports compute.
pub fn find_queue_family(queue_flags: &Vec<u32>) -> (family: Option<u32>)
    requires
        queue_flags.len() <= u32::MAX,
    ensures
        match (family, compute_family_from(queue_flags@, 0)) {
            (Some(f), Some(g)) => f == g,
            (None, None) => true,
            _ => false,
        },
{
    let mut i: u32 = 0;
    while i < queue_flags.len() as u32
        invariant
            i <= queue_flags.len(),
            queue_flags.len() <= u32::MAX,
            compute_family_from(queue_flags@, 0) == compute_family_from(queue_flags@, i as int),
        decreases queue_flags.len() - i,
    {
        if has_compute(queue_flags[i as usize]) {
            return Some(i);
        }
        i = i + 1;
    }
    None
}

/// Names as sequences of characters.
pub open spec fn names(list: Seq<String>) -> Seq<Seq<char>> {
    list.map_values(|s: String| s@)
}

/// Every required name is available.
pub open spec fn covers(available: Seq<String>, required: Seq<String>) -> bool {
    forall|r: int|
        0 <= r < required.len() ==> names(available).contains(#[trigger] required[r]@)
}

fn is_listed(list: &Vec<String>, name: &String) -> (listed: bool)
    ensures
        listed == names(list@).contains(name@),
{
    let mut i: usize = 0;
    while i < list.len()
        invariant
            i <= list.len(),
            forall|k: int| 0 <= k < i ==> (#[trigger] list@[k])@ != name@,
        decreases list.len() - i,
    {
        if list[i] == *name {
            assert(names(list@)[i as int] == name@);
            return true;
        }
        i = i + 1;
    }
    assert(!names(list@).contains(name@)) by {
        assert forall|k: int| 0 <= k < list.len() implies names(list@)[k] != name@ by {
            assert(list@[k]@ != name@);
        }
    }
    false
}

/// Whether every required extension is among the available ones.
pub fn supports_extensions(available: &Vec<String>, required: &[String]) -> (supported: bool)
    ensures
        supported == covers(available@, required@),
{
    let mut r: usize = 0;
    while r < required.len()
        invariant
            r <= required.len(),
            forall|k: int|
                0 <= k < r ==> names(available@).contains(#[trigger] required@[k]@),
        decreases required.len() - r,
    {
        if !is_listed(available, &required[r]) {
            assert(!names(available@).contains(required@[r as int]@));
            return false;
        }
        r = r + 1;
    }
    true
}

/// Whether a device can run the ray tracer.
pub open spec fn suitable(device: DeviceInfo, required: Seq<String>) -> bool {
    compute_family_from(device.queue_flags@, 0) is Some && covers(
        device.extensions@,
        required,
    )
}

/// The first suitable device and its first compute family.
pub fn pick_device(devices: &[DeviceInfo], required: &[String]) -> (pick: Option<(usize, u32)>)
    requires
        forall|i: int|
            0 <= i < devices.len() ==> (#[trigger] devices@[i]).queue_flags.len() <= u32::MAX,
    ensures
        match pick {
            Some((i, family)) => {
                &&& i < devices.len()
                &&& suitable(devices@[i as int], required@)
                &&& forall|k: int| 0 <= k < i ==> !suitable(#[trigger] devices@[k], required@)
                &&& compute_family_from(devices@[i as int].queue_flags@, 0) == Some(family as int)
            },
            None => forall|k: int|
                0 <= k < devices.len() ==> !suitable(#[trigger] devices@[k], required@),
        },
{
    let mut i: usize = 0;
    while i < devices.len()
        invariant
            i <= devices.len(),
            forall|k: int|
                0 <= k < devices.len() ==> (#[trigger] devices@[k]).queue_flags.len() <= u32::MAX,
            forall|k: int| 0 <= k < i ==> !suitable(#[trigger] devices@[k], required@),
        decreases devices.len() - i,
    {
        let device: &DeviceInfo = &devices[i];
        assert(devices@[i as int].queue_flags.len() <= u32::MAX);
        if let Some(family) = find_queue_family(&device.queue_flags) {
            if supports_extensions(&device.extensions, required) {
                return Some((i, family));
            }
        }
        i = i + 1;
    }
    None
}

/// Whether memory type `i` is allowed by `filter` and has every wanted
/// property.
pub open spec fn memory_type_fits(types: Seq<u32>, filter: u32, wanted: u32, i: int) -> bool {
    filter & (1u32 << (i as u32)) != 0 && types[i] & wanted == wanted
}

/// The first memory type that `filter` allows and that has every wanted
/// property.
pub fn find_memory_type(types: &[u32], filter: u32, wanted: u32) -> (found: Option<u32>)
    requires
        types.len() <= 32,
    ensures
        match found {
            Some(i) => {
                &&& i < types.len()
                &&& memory_type_fits(types@, filter, wanted, i as int)
                &&& forall|k: int|
                    0 <= k < i ==> !#[trigger] memory_type_fits(types@, filter, wanted, k)
            },
            None => forall|k: int|
                0 <= k < types.len() ==> !#[trigger] memory_type_fits(types@, filter, wanted, k),
        },
{
    let mut i: u32 = 0;
    while i < types.len() as u32
        invariant
            i <= types.len() <= 32,
            forall|k: int|
                0 <= k < i ==> !#[trigger] memory_type_fits(types@, filter, wanted, k),
        decreases types.len() - i,
    {
        if filter & (1u32 << i) != 0 && has_properties(types[i as usize], wanted) {
            assert(memory_type_fits(types@, filter, wanted, i as int));
            return Some(i);
        }
        i = i + 1;
    }
    None
}

/// A 24-bit field and an 8-bit field in one word, the latter on top.
pub fn pack_24_8(low: u32, high: u32) -> (word: u32)
    requires
        low < 0x100_0000,
        high < 0x100,
    ensures
        word == low + high * 0x100_0000,
        word % 0x100_0000 == low,
        word / 0x100_0000 == high,
{
    assert((high << 24) | low == low + high * 0x100_0000) by (bit_vector)
        requires
            low < 0x100_0000u32,
            high < 0x100u32,
    ;
    (high << 24) | low
}

/// The numbers that a bottom-level build and the one instance of it need.
#[derive(Clone, Copy, Debug, PartialEq, Eq, Structural)]
pub struct AccelPlan {
    /// Bytes from one vertex to the next.
    pub vertex_stride: u64,
    /// Highest vertex that a triangle may name.
    pub max_vertex: u32,
    pub primitive_count: u32,
    /// Custom index 0 under a visibility mask of all ones.
    pub custom_index_and_mask: u32,
    /// Record offset 0 under the instance flags.
    pub record_offset_and_flags: u32,
}

/// Plans the build over `vertex_count` four-component vertices and
/// `triangle_count` triangles. `instance_flags` are the raw eight-bit flags.
pub fn accel_plan(vertex_count: u32, triangle_count: u32, instance_flags: u32) -> (plan: AccelPlan)
    requires
        instance_flags < 0x100,
    ensures
        plan.vertex_stride == 16,
        plan.max_vertex == if vertex_count == 0 { 0 } else { vertex_count - 1 },
        plan.primitive_count == triangle_count,
        plan.custom_index_and_mask == 0xff00_0000,
        plan.record_offset_and_flags == instance_flags * 0x100_0000,
{
    AccelPlan {
        vertex_stride: 16,
        max_vertex: vertex_count.saturating_sub(1),
        primitive_count: triangle_count,
        custom_index_and_mask: pack_24_8(0, 0xff),
        record_offset_and_flags: pack_24_8(0, instance_flags),
    }
}

/// Bytes of a SPIR-V module of `words` words.
pub fn spirv_code_size(words: usize) -> (bytes: usize)
    requires
        words * 4 <= usize::MAX,
    ensures
        bytes == words * 4,
{
    words * 4
}

/// The compute family is the first whose flags hold the compute bit, bit one;
/// there is none exactly where no family's flags do.
pub proof fn law_first_compute_family(flags: Seq<u32>, from: int)
    requires
        0 <= from <= flags.len(),
    ensures
        match compute_family_from(flags, from) {
            Some(f) => from <= f < flags.len() && (flags[f] >> 1) & 1 == 1 && forall|k: int|
                from <= k < f ==> (#[trigger] flags[k] >> 1) & 1 == 0,
            None => forall|k: int|
                from <= k < flags.len() ==> (#[trigger] flags[k] >> 1) & 1 == 0,
        },
    decreases flags.len() - from,
{
    if from < flags.len() {
        let w = flags[from];
        assert((w & 2 == 2) == ((w >> 1) & 1 == 1) && ((w >> 1) & 1 == 0 || (w >> 1) & 1 == 1))
            by (bit_vector);
        law_first_compute_family(flags, from + 1);
    }
}

/// A memory type fits where its bit in the filter is set and it lacks none of
/// the wanted properties.
pub proof fn law_fitting_memory_type(types: Seq<u32>, filter: u32, wanted: u32, i: u32, bit: u32)
    requires
        i < types.len() <= 32,
        bit < 32,
        memory_type_fits(types, filter, wanted, i as int),
    ensures
        (filter >> i) & 1 == 1,
        (wanted >> bit) & 1 == 1 ==> (types[i as int] >> bit) & 1 == 1,
{
    let t = types[i as int];
    assert(filter & (1u32 << i) != 0 ==> (filter >> i) & 1 == 1) by (bit_vector)
        requires
            i < 32,
    ;
    assert(t & wanted == wanted && (wanted >> bit) & 1 == 1 ==> (t >> bit) & 1 == 1)
        by (bit_vector)
        requires
            bit < 32,
    ;
}

/// A memory type that does not fit is not allowed by the filter or lacks a
/// wanted property.
pub proof fn law_unfit_memory_type(types: Seq<u32>, filter: u32, wanted: u32, i: u32)
    requires
        i < types.len() <= 32,
        !memory_type_fits(types, filter, wanted, i as int),
    ensures
        (filter >> i) & 1 == 0 || wanted & !types[i as int] != 0,
{
    let t = types[i as int];
    assert(filter & (1u32 << i) == 0 ==> (filter >> i) & 1 == 0) by (bit_vector)
        requires
            i < 32,
    ;
    assert(t & wanted != wanted ==> wanted & !t != 0) by (bit_vector);
}

/// A device is suitable exactly where one of its queue families can compute and
/// each required extension is one of its own.
pub proof fn law_suitable_device(device: DeviceInfo, required: Seq<String>, r: int)
    ensures
        suitable(device, required) ==> exists|f: int|
            0 <= f < device.queue_flags.len() && (#[trigger] device.queue_flags@[f] >> 1) & 1 == 1,
        suitable(device, required) && 0 <= r < required.len() ==> exists|e: int|
            0 <= e < device.extensions.len() && #[trigger] device.extensions@[e]@ == required[r]@,
        !suitable(device, required) ==> (forall|f: int|
            0 <= f < device.queue_flags.len() ==> (#[trigger] device.queue_flags@[f] >> 1) & 1 == 0)
            || (exists|r: int|
            0 <= r < required.len() && forall|e: int|
                0 <= e < device.extensions.len() ==> #[trigger] device.extensions@[e]@
                    != (#[trigger] required[r])@),
{
    let flags = device.queue_flags@;
    law_first_compute_family(flags, 0);
    if let Some(f) = compute_family_from(flags, 0) {
        assert((flags[f] >> 1) & 1 == 1);
    }
    let available = device.extensions@;
    assert forall|r: int| 0 <= r < required.len() implies names(available).contains(
        (#[trigger] required[r])@,
    ) == (exists|e: int| 0 <= e < available.len() && #[trigger] available[e]@ == required[r]@) by {
        let name = required[r]@;
        if names(available).contains(name) {
            let e = choose|e: int| 0 <= e < names(available).len() && names(available)[e] == name;
            assert(available[e]@ == name);
        }
        if exists|e: int| 0 <= e < available.len() && #[trigger] available[e]@ == name {
            let e = choose|e: int| 0 <= e < available.len() && #[trigger] available[e]@ == name;
            assert(names(available)[e] == name);
        }
    }
    if covers(available, required) && 0 <= r < required.len() {
        let name = required[r]@;
        assert(names(available).contains(name));
        let e = choose|e: int| 0 <= e < names(available).len() && names(available)[e] == name;
        assert(device.extensions@[e]@ == name);
    }
    if !covers(available, required) {
        let m = choose|m: int|
            0 <= m < required.len() && !names(available).contains(#[trigger] required[m]@);
        assert forall|e: int| 0 <= e < available.len() implies #[trigger] available[e]@
            != required[m]@ by {}
    }
}

} // verus!
