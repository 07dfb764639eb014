//! VideoCore framebuffer request: the property message asking for a
//! 1024x768x32 RGB framebuffer, and what a response grants.
use vstd::prelude::*;
use crate::boards::raspberrypi3::mailbox::bus_to_phys;

verus! {

pub const WIDTH: u32 = 1024;
pub const HEIGHT: u32 = 768;
pub const DEPTH: u32 = 32;
pub const TAG_SET_PHYS_WH: u32 = 0x0004_8003;
pub const TAG_SET_VIRT_WH: u32 = 0x0004_8004;
pub const TAG_SET_VIRT_OFFSET: u32 = 0x0004_8009;
pub const TAG_SET_DEPTH: u32 = 0x0004_8005;
pub const TAG_SET_PIXEL_ORDER: u32 = 0x0004_8006;
pub const TAG_ALLOCATE_BUFFER: u32 = 0x0004_0001;
pub const TAG_GET_PITCH: u32 = 0x0004_0008;
pub const TAG_END: u32 = 0;
pub const PIXEL_ORDER_RGB: u32 = 1;
pub const BUFFER_ALIGN: u32 = 4096;
/// Words of the request.
pub const MSG_WORDS: usize = 35;
/// Word of the response holding the buffer's bus address (its size follows).
pub const ALLOC_ADDR_WORD: usize = 28;
/// Word of the response holding the pitch.
pub const PITCH_WORD: usize = 33;

pub open spec fn request_words() -> Seq<u32> {
    seq![
        140u32, 0u32,
        TAG_SET_PHYS_WH, 8u32, 0u32, WIDTH, HEIGHT,
        TAG_SET_VIRT_WH, 8u32, 0u32, WIDTH, HEIGHT,
        TAG_SET_VIRT_OFFSET, 8u32, 0u32, 0u32, 0u32,
        TAG_SET_DEPTH, 4u32, 0u32, DEPTH,
        TAG_SET_PIXEL_ORDER, 4u32, 0u32, PIXEL_ORDER_RGB,
        TAG_ALLOCATE_BUFFER, 8u32, 0u32, BUFFER_ALIGN, 0u32,
        TAG_GET_PITCH, 4u32, 0u32, 0u32,
        TAG_END,
    ]
}

fn push_tag(b: &mut Vec<u32>, tag: u32, size: u32, vals: &[u32])
    ensures
        final(b)@ == old(b)@ + seq![tag, size, 0u32] + vals@,
{
    b.push(tag);
    b.push(size);
    b.push(0);
    let mut i: usize = 0;
    while i < vals.len()
        invariant
            i <= vals@.len(),
            b@ == old(b)@ + seq![tag, size, 0u32] + vals@.take(i as int),
        decreases vals@.len() - i,
    {
        assert(vals@.take(i + 1) =~= vals@.take(i as int).push(vals@[i as int]));
        b.push(vals[i]);
        i = i + 1;
    }
    assert(vals@.take(vals@.len() as int) =~= vals@);
}

/// The property message: set physical and virtual size, offset, depth and
/// pixel order, allocate the buffer (4 KiB aligned), get the pitch. Word 0
/// is the message size in bytes, word 1 the request code 0.
pub fn request() -> (b: Vec<u32>)
    ensures
        b@ == request_words(),
{
    let mut b: Vec<u32> = Vec::new();
    b.push(0);
    b.push(0);
    push_tag(&mut b, TAG_SET_PHYS_WH, 8, &[WIDTH, HEIGHT]);
    push_tag(&mut b, TAG_SET_VIRT_WH, 8, &[WIDTH, HEIGHT]);
    push_tag(&mut b, TAG_SET_VIRT_OFFSET, 8, &[0, 0]);
    push_tag(&mut b, TAG_SET_DEPTH, 4, &[DEPTH]);
    push_tag(&mut b, TAG_SET_PIXEL_ORDER, 4, &[PIXEL_ORDER_RGB]);
    push_tag(&mut b, TAG_ALLOCATE_BUFFER, 8, &[BUFFER_ALIGN, 0]);
    push_tag(&mut b, TAG_GET_PITCH, 4, &[0]);
    b.push(TAG_END);
    let n = b.len();
    b.set(0, (n * 4) as u32);
    assert(b@ =~= request_words());
    b
}

/// A framebuffer the firmware granted.
#[derive(Clone, Copy, PartialEq, Eq, Structural, Debug)]
pub struct FbInfo {
    pub phys: u64,
    pub size: u32,
    pub pitch: u32,
}

/// After the mailbox call: `None` when the call failed or the response
/// grants no buffer (address, size or pitch 0); else the buffer's physical
/// address, size and pitch, for remapping uncached and for the console.
pub fn init(call_ok: bool, resp: &[u32]) -> (r: Option<FbInfo>)
    requires
        resp@.len() >= MSG_WORDS,
    ensures
        r == if !call_ok || resp@[28] == 0 || resp@[29] == 0 || resp@[33] == 0 {
            None::<FbInfo>
        } else {
            Some(FbInfo { phys: (resp@[28] & 0x3FFF_FFFF) as u64, size: resp@[29], pitch: resp@[33] })
        },
{
    if !call_ok {
        return None;
    }
    let bus_addr = resp[ALLOC_ADDR_WORD];
    let fb_size = resp[ALLOC_ADDR_WORD + 1];
    let pitch = resp[PITCH_WORD];
    if bus_addr == 0 || fb_size == 0 || pitch == 0 {
        return None;
    }
    Some(FbInfo { phys: bus_to_phys(bus_addr), size: fb_size, pitch })
}

} // verus!
