use vstd::prelude::*;
use crate::bitmap::BLOCK_SZ;

verus! {

/// A device that reads and writes data in units of blocks.
///
/// Users of the file system supply the implementation. Each block holds
/// `BLOCK_SZ` bytes; reading a block gives what was last written to it.
pub trait BlockDevice: Send + Sync {
    /// The bytes that block `block_id` holds.
    spec fn block_contents(&self, block_id: usize) -> Seq<u8>;

    /// Reads block `block_id` into `buf`, which holds a whole block.
    fn read_block(&self, block_id: usize, buf: &mut [u8])
        ensures
            final(buf)@.len() == old(buf)@.len(),
            self.block_contents(block_id).len() == BLOCK_SZ,
            old(buf)@.len() == BLOCK_SZ ==> final(buf)@ == self.block_contents(block_id),
    ;

    /// Writes `buf`, a whole block, to block `block_id`; other blocks keep
    /// their bytes.
    fn write_block(&mut self, block_id: usize, buf: &[u8])
        ensures
            buf@.len() == BLOCK_SZ ==> final(self).block_contents(block_id) == buf@,
            buf@.len() == BLOCK_SZ ==> forall|j: usize|
                j != block_id ==> #[trigger] final(self).block_contents(j) == old(
                    self,
                ).block_contents(j),
    ;
}

} // verus!
