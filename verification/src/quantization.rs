//! Blocks of quantized weights.
use vstd::prelude::*;

verus! {

/// The size of one Q8_0 block: a two byte scale and 32 values of a byte each.
pub const Q8_0_BLOCK_SIZE: usize = 34;

/// A byte string that is not a Q8_0 block: its length.
#[derive(Debug, Clone, Copy, PartialEq, Eq, Structural)]
pub struct BadBlock {
    pub len: usize,
}

/// Splits a Q8_0 block into its scale, a half precision number by its bits,
/// and its values. Only 34 bytes are a block.
pub fn parse_q8_0_block(block: &[u8]) -> (r: Result<(u16, Vec<i8>), BadBlock>)
    ensures
        match r {
            Ok((scale, values)) => {
                &&& block@.len() == Q8_0_BLOCK_SIZE
                &&& scale == block@[0] + 256 * block@[1]
                &&& values@ == Seq::new(32, |i: int| block@[i + 2] as i8)
            },
            Err(e) => block@.len() != Q8_0_BLOCK_SIZE && e.len == block@.len(),
        },
        r is Ok <==> block@.len() == 34,
{
    if block.len() != Q8_0_BLOCK_SIZE {
        return Err(BadBlock { len: block.len() });
    }
    let scale: u16 = block[0] as u16 + 256 * block[1] as u16;
    let mut values: Vec<i8> = Vec::new();
    let mut i: usize = 2;
    while i < block.len()
        invariant
            2 <= i <= block@.len(),
            block@.len() == Q8_0_BLOCK_SIZE,
            values.len() == i - 2,
            forall|k: int| 0 <= k < i - 2 ==> #[trigger] values@[k] == block@[k + 2] as i8,
        decreases block@.len() - i,
    {
        values.push(block[i] as i8);
        i += 1;
    }
    assert(values@ =~= Seq::new(32, |i: int| block@[i + 2] as i8));
    Ok((scale, values))
}

} // verus!
