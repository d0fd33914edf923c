use vstd::prelude::*;

verus! {

broadcast use vstd::layout::group_layout_axioms;

/// The number of 4-byte push constants that a value of type `T` takes.
/// The size of `T` must be a whole number of push constants.
pub fn push_constant_size<T>() -> (n: usize)
    requires
        vstd::layout::size_of::<T>() % 4 == 0,
    ensures
        n == vstd::layout::size_of::<T>() / 4,
        n * 4 == vstd::layout::size_of::<T>(),
{
    let push_constant_size = core::mem::size_of::<u32>();
    let type_size = core::mem::size_of::<T>();
    type_size / push_constant_size
}

/// The length in bytes of a buffer of `item_count` values of type `Item`.
pub fn buffer_len<Item>(item_count: usize) -> (len: u64)
    requires
        item_count * vstd::layout::size_of::<Item>() <= u64::MAX,
    ensures
        len == item_count * vstd::layout::size_of::<Item>(),
{
    let stride = core::mem::size_of::<Item>() as u64;
    proof {
        assert(item_count * stride <= u64::MAX);
    }
    item_count as u64 * stride
}

/// Whether the memory-property bits `have` include all of `want`.
pub open spec fn props_contain(have: u16, want: u16) -> bool {
    have & want == want
}

/// Whether memory type `id`, with property bits `props`, is allowed by the
/// resource's type mask and has the wanted properties.
pub open spec fn memory_type_fits(type_mask: u64, props: u16, want: u16, id: int) -> bool {
    &&& type_mask & (1u64 << (id as u64)) != 0
    &&& props_contain(props, want)
}

/// Whether the search of `find_memory_type` ends before testing a type
/// index of 64 or more, whose mask bit cannot be formed in a `u64`: there
/// are at most 64 types, or one below index 64 fits.
pub open spec fn memory_search_in_range(type_mask: u64, memory_props: Seq<u16>, want: u16) -> bool {
    ||| memory_props.len() <= 64
    ||| exists|j: int| 0 <= j < 64 && memory_type_fits(type_mask, #[trigger] memory_props[j], want, j)
}

/// The first memory type that the resource's `type_mask` allows and whose
/// property bits `memory_props[id]` include `want`, if there is one.
pub fn find_memory_type(type_mask: u64, memory_props: &[u16], want: u16) -> (r: Option<usize>)
    requires
        memory_search_in_range(type_mask, memory_props@, want),
    ensures
        match r {
            Some(id) => {
                &&& id < memory_props@.len()
                &&& memory_type_fits(type_mask, memory_props@[id as int], want, id as int)
                &&& forall|j: int|
                    0 <= j < id ==> !memory_type_fits(type_mask, #[trigger] memory_props@[j], want, j)
            },
            None => forall|j: int|
                0 <= j < memory_props@.len() ==> !memory_type_fits(
                    type_mask,
                    #[trigger] memory_props@[j],
                    want,
                    j,
                ),
        },
{
    let n = memory_props.len();
    let mut id: usize = 0;
    while id < n
        invariant
            n == memory_props@.len(),
            memory_search_in_range(type_mask, memory_props@, want),
            id <= n,
            forall|j: int|
                0 <= j < id ==> !memory_type_fits(type_mask, #[trigger] memory_props@[j], want, j),
        decreases n - id,
    {
        let props = memory_props[id];
        proof {
            if id >= 64 {
                let j = choose|j: int|
                    0 <= j < 64 && memory_type_fits(type_mask, #[trigger] memory_props@[j], want, j);
                assert(!memory_type_fits(type_mask, memory_props@[j], want, j));
            }
        }
        let bit: u64 = 1u64 << (id as u64);
        if type_mask & bit != 0 && props & want == want {
            return Some(id);
        }
        id = id + 1;
    }
    None
}

/// The index of the first `true` of `flags`, if there is one.
pub fn first_true(flags: &[bool]) -> (r: Option<usize>)
    ensures
        match r {
            Some(i) => i < flags@.len() && flags@[i as int] && forall|j: int|
                0 <= j < i ==> !#[trigger] flags@[j],
            None => forall|j: int| 0 <= j < flags@.len() ==> !#[trigger] flags@[j],
        },
{
    let n = flags.len();
    let mut i: usize = 0;
    while i < n
        invariant
            n == flags@.len(),
            i <= n,
            forall|j: int| 0 <= j < i ==> !#[trigger] flags@[j],
        decreases n - i,
    {
        if flags[i] {
            return Some(i);
        }
        i = i + 1;
    }
    None
}

/// Bytes per pixel of an RGBA8 image.
pub const IMAGE_STRIDE: u32 = 4;

/// Whether `a` is a power of two.
pub open spec fn is_pow2(a: u32) -> bool {
    a != 0 && a & ((a - 1) as u32) == 0
}

/// `v` rounded with the mask `a - 1`: `(v + a - 1) & !(a - 1)`.
pub open spec fn spec_round_with_mask(v: u32, a: u32) -> u32 {
    ((v + (a - 1)) as u32) & !((a - 1) as u32)
}

/// The length of one image row in the upload buffer: the row's bytes
/// (`width * 4`) rounded with the device's copy-pitch alignment mask
/// `alignment - 1`, where the alignment is the device limit taken as a
/// `u32`. For an alignment that is a power of two this is the least multiple
/// of the alignment that holds the row.
pub fn row_pitch(width: u32, pitch_alignment: u64) -> (pitch: u32)
    requires
        pitch_alignment as u32 >= 1,
        width * 4 + (pitch_alignment as u32 - 1) <= u32::MAX,
    ensures
        pitch == spec_round_with_mask((width * 4) as u32, pitch_alignment as u32),
        is_pow2(pitch_alignment as u32) ==> {
            &&& pitch % (pitch_alignment as u32) == 0
            &&& width * 4 <= pitch
            &&& pitch < width * 4 + pitch_alignment as u32
        },
{
    let row_alignment_mask = pitch_alignment as u32 - 1;
    let row_bytes = width * IMAGE_STRIDE;
    let pitch = (row_bytes + row_alignment_mask) & !row_alignment_mask;
    proof {
        let a = pitch_alignment as u32;
        let v = row_bytes;
        assert(a != 0 && a & ((a - 1) as u32) == 0 ==> {
            &&& (((v + (a - 1)) as u32) & !((a - 1) as u32)) % a == 0
            &&& v <= (((v + (a - 1)) as u32) & !((a - 1) as u32))
            &&& (((v + (a - 1)) as u32) & !((a - 1) as u32)) < v + a
        }) by (bit_vector)
            requires
                a >= 1,
                v + (a - 1) <= u32::MAX,
        ;
    }
    pitch
}

/// How an RGBA8 image is laid out in the upload buffer: the length of one
/// row, the buffer's size and the row length in texels that the copy
/// command is given.
#[derive(Clone, Copy, Debug, PartialEq, Eq, Structural)]
pub struct UploadLayout {
    pub row_pitch: u32,
    pub upload_size: u64,
    pub buffer_width: u32,
}

/// The upload layout of a `width` by `height` RGBA8 image for a device
/// whose copy pitch alignment is `pitch_alignment`.
pub fn upload_layout(width: u32, height: u32, pitch_alignment: u64) -> (l: UploadLayout)
    requires
        pitch_alignment as u32 >= 1,
        width * 4 + (pitch_alignment as u32 - 1) <= u32::MAX,
        height * spec_round_with_mask((width * 4) as u32, pitch_alignment as u32) <= u32::MAX,
    ensures
        l.row_pitch == spec_round_with_mask((width * 4) as u32, pitch_alignment as u32),
        l.upload_size == height * l.row_pitch,
        l.buffer_width == l.row_pitch / 4,
{
    let pitch = row_pitch(width, pitch_alignment);
    let upload_size = (height * pitch) as u64;
    UploadLayout { row_pitch: pitch, upload_size, buffer_width: pitch / IMAGE_STRIDE }
}

/// The byte at row `y`, offset `x` of the upload buffer: the image's byte
/// there when `x` lies within the row's `width * 4` bytes, else zero.
pub open spec fn spec_packed_byte(pixels: Seq<u8>, row_bytes: int, y: int, x: int) -> u8 {
    if x < row_bytes {
        pixels[y * row_bytes + x]
    } else {
        0
    }
}

/// The upload buffer's contents for an RGBA8 image of `height` rows of
/// `width` pixels: row `y` of the image at offset `y * row_pitch`, the
/// bytes between rows zero.
pub fn pack_image_rows(pixels: &[u8], width: u32, height: u32, row_pitch: u32) -> (out: Vec<u8>)
    requires
        width * 4 <= row_pitch,
        height * row_pitch <= u32::MAX,
        height * width * 4 <= pixels@.len(),
    ensures
        out@.len() == height * row_pitch,
        forall|y: int, x: int|
            0 <= y < height && 0 <= x < row_pitch ==> #[trigger] out@[y * row_pitch + x]
                == spec_packed_byte(pixels@, width * 4, y, x),
{
    let row_bytes: u32 = width * IMAGE_STRIDE;
    let plen: usize = pixels.len();
    let mut out: Vec<u8> = Vec::new();
    let mut y: u32 = 0;
    while y < height
        invariant
            row_bytes == width * 4,
            plen == pixels@.len(),
            row_bytes <= row_pitch,
            height * row_pitch <= u32::MAX,
            height * width * 4 <= pixels@.len(),
            y <= height,
            out@.len() == y * row_pitch,
            forall|yy: int, x: int|
                0 <= yy < y && 0 <= x < row_pitch ==> #[trigger] out@[yy * row_pitch + x]
                    == spec_packed_byte(pixels@, row_bytes as int, yy, x),
        decreases height - y,
    {
        proof {
            assert(y * row_pitch + row_pitch <= height * row_pitch) by (nonlinear_arith)
                requires
                    y < height,
            ;
            assert((y + 1) * row_bytes <= height * row_bytes) by (nonlinear_arith)
                requires
                    y < height,
            ;
            assert(height * row_bytes == height * width * 4) by (nonlinear_arith)
                requires
                    row_bytes == width * 4,
            ;
            assert(y * row_bytes <= y * row_pitch) by (nonlinear_arith)
                requires
                    row_bytes <= row_pitch,
                    y >= 0,
            ;
        }
        let base: usize = (y as usize) * (row_bytes as usize);
        let mut x: u32 = 0;
        while x < row_pitch
            invariant
                row_bytes == width * 4,
                plen == pixels@.len(),
                row_bytes <= row_pitch,
                y < height,
                y * row_pitch + row_pitch <= height * row_pitch,
                height * row_pitch <= u32::MAX,
                (y + 1) * row_bytes <= pixels@.len(),
                base == y * row_bytes,
                x <= row_pitch,
                out@.len() == y * row_pitch + x,
                forall|yy: int, xx: int|
                    0 <= yy < y && 0 <= xx < row_pitch ==> #[trigger] out@[yy * row_pitch + xx]
                        == spec_packed_byte(pixels@, row_bytes as int, yy, xx),
                forall|xx: int|
                    0 <= xx < x ==> #[trigger] out@[y * row_pitch + xx] == spec_packed_byte(
                        pixels@,
                        row_bytes as int,
                        y as int,
                        xx,
                    ),
            decreases row_pitch - x,
        {
            let b: u8 = if x < row_bytes {
                proof {
                    assert(base + x < (y + 1) * row_bytes) by (nonlinear_arith)
                        requires
                            base == y * row_bytes,
                            x < row_bytes,
                    ;
                    assert(base + x < pixels@.len());
                }
                let xi: usize = x as usize;
                pixels[base + xi]
            } else {
                0
            };
            let ghost before = out@;
            out.push(b);
            proof {
                assert forall|yy: int, xx: int|
                    0 <= yy < y && 0 <= xx < row_pitch implies #[trigger] out@[yy * row_pitch + xx]
                    == spec_packed_byte(pixels@, row_bytes as int, yy, xx) by {
                    assert(yy * row_pitch + xx < y * row_pitch) by (nonlinear_arith)
                        requires
                            0 <= yy < y,
                            0 <= xx < row_pitch,
                    ;
                    assert(out@[yy * row_pitch + xx] == before[yy * row_pitch + xx]);
                }
                assert(out@[y * row_pitch + x] == b);
                assert(base + x == y * row_bytes + x);
            }
            x = x + 1;
        }
        proof {
            assert((y + 1) * row_pitch == y * row_pitch + row_pitch) by (nonlinear_arith);
            assert forall|yy: int, xx: int|
                0 <= yy < y + 1 && 0 <= xx < row_pitch implies #[trigger] out@[yy * row_pitch + xx]
                == spec_packed_byte(pixels@, row_bytes as int, yy, xx) by {
                if yy == y {
                    assert(out@[y * row_pitch + xx] == spec_packed_byte(
                        pixels@,
                        row_bytes as int,
                        y as int,
                        xx,
                    ));
                }
            }
        }
        y = y + 1;
    }
    out
}

/// Whether `upload_layout` can be computed without an arithmetic fault:
/// the alignment, taken as a `u32`, is not zero, and neither the rounding
/// nor the buffer size overflows a `u32`.
pub open spec fn upload_layout_fits(width: u32, height: u32, pitch_alignment: u64) -> bool {
    &&& pitch_alignment as u32 >= 1
    &&& width * 4 + (pitch_alignment as u32 - 1) <= u32::MAX
    &&& height * spec_round_with_mask((width * 4) as u32, pitch_alignment as u32) <= u32::MAX
}

/// The upload layout (see `upload_layout`), or `None` where computing it
/// would underflow or overflow.
pub fn try_upload_layout(width: u32, height: u32, pitch_alignment: u64) -> (r: Option<UploadLayout>)
    ensures
        r is None <==> !upload_layout_fits(width, height, pitch_alignment),
        r matches Some(l) ==> {
            &&& l.row_pitch == spec_round_with_mask((width * 4) as u32, pitch_alignment as u32)
            &&& l.upload_size == height * l.row_pitch
            &&& l.buffer_width == l.row_pitch / 4
        },
{
    let a = pitch_alignment as u32;
    if a == 0 {
        return None;
    }
    let row_bytes = match width.checked_mul(4) {
        Some(v) => v,
        None => return None,
    };
    if row_bytes > u32::MAX - (a - 1) {
        return None;
    }
    let pitch = row_pitch(width, pitch_alignment);
    match height.checked_mul(pitch) {
        Some(_) => Some(upload_layout(width, height, pitch_alignment)),
        None => None,
    }
}

} // verus!
