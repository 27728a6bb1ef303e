//! Packet framing helpers.

use vstd::prelude::*;

use crate::codec::{var_int_bytes, VarInt};

verus! {

/// Frames a fully assembled packet body by prefixing its byte count as
/// a `VarInt`.
pub fn prepend_length(buffer: Vec<u8>) -> (r: Vec<u8>)
    requires
        buffer@.len() <= 0x7FFF_FFFF,
    ensures
        r@ == var_int_bytes(buffer@.len() as int) + buffer@,
{
    let mut result: Vec<u8> = Vec::new();
    let vi = VarInt { raw: buffer.len() as i32 };
    vi.write(&mut result);
    let mut body = buffer;
    result.append(&mut body);
    result
}

} // verus!
