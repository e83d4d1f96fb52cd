use vstd::prelude::*;

verus! {

/// What one unsigned 8-bit device sample becomes as signed 16-bit PCM:
/// recentered around zero, each 8-bit step mapped to a 256-unit step.
pub open spec fn normalized_u8(raw: u8) -> int {
    (raw as int - 128) * 256
}

/// Converts one unsigned 8-bit device sample to signed 16-bit PCM.
pub fn normalize_u8(raw: u8) -> (r: i16)
    ensures
        r as int == normalized_u8(raw),
        -32768 <= r as int <= 32512,
{
    (raw as i16 - 128) * 256
}

/// Converts a whole block of unsigned 8-bit device samples to signed 16-bit
/// PCM, sample for sample, keeping their order. Signed 16-bit blocks pass
/// through the pipeline unchanged and need no conversion.
pub fn normalize_u8_block(block: &[u8]) -> (out: Vec<i16>)
    ensures
        out@.len() == block@.len(),
        forall|i: int| 0 <= i < block@.len() ==> out@[i] as int == normalized_u8(block@[i]),
{
    let mut out: Vec<i16> = Vec::new();
    let mut i: usize = 0;
    while i < block.len()
        invariant
            i <= block.len(),
            out@.len() == i,
            forall|j: int| 0 <= j < i ==> out@[j] as int == normalized_u8(block@[j]),
        decreases block.len() - i,
    {
        out.push(normalize_u8(block[i]));
        i = i + 1;
    }
    out
}

} // verus!
