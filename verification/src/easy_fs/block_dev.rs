//! The block device that the file system lies on.
use vstd::prelude::*;
use crate::mm::frame_allocator::zeros;

verus! {

/// Size of a block in bytes.
pub const BLOCK_SZ: usize = 512;

/// A device that holds blocks of 512 bytes, each under a number.
pub trait BlockDevice {
    /// The bytes that the device holds in block `block_id`.
    spec fn block(&self, block_id: usize) -> Seq<u8>;

    /// What the device keeps true of itself between calls.
    spec fn inv(&self) -> bool;

    /// Reads block `block_id` into `buf`.
    fn read_block(&self, block_id: usize, buf: &mut Vec<u8>)
        requires
            self.inv(),
            old(buf)@.len() == 512,
        ensures
            final(buf)@ == self.block(block_id),
            final(buf)@.len() == 512,
    ;

    /// Writes `buf` to block `block_id`; every other block stays as it is.
    fn write_block(&mut self, block_id: usize, buf: &[u8])
        requires
            old(self).inv(),
            buf@.len() == 512,
        ensures
            final(self).inv(),
            forall|id: usize| #[trigger]
                final(self).block(id) == if id == block_id {
                    buf@
                } else {
                    old(self).block(id)
                },
    ;
}

/// A block device in memory. Blocks that were never written hold zero bytes.
pub struct RamDisk {
    pub blocks: Vec<Vec<u8>>,
}

impl RamDisk {
    /// A device whose blocks all hold zero bytes.
    pub fn new() -> (r: Self)
        ensures
            r.inv(),
            forall|id: usize| #[trigger] r.block(id) == zeros(512),
    {
        Self { blocks: Vec::new() }
    }
}

impl BlockDevice for RamDisk {
    open spec fn block(&self, block_id: usize) -> Seq<u8> {
        if block_id < self.blocks@.len() {
            self.blocks@[block_id as int]@
        } else {
            zeros(512)
        }
    }

    open spec fn inv(&self) -> bool {
        forall|i: int| 0 <= i < self.blocks@.len() ==> (#[trigger] self.blocks@[i])@.len() == 512
    }

    fn read_block(&self, block_id: usize, buf: &mut Vec<u8>) {
        let mut k: usize = 0;
        if block_id < self.blocks.len() {
            let src = &self.blocks[block_id];
            while k < 512
                invariant
                    0 <= k <= 512,
                    buf@.len() == 512,
                    src@.len() == 512,
                    forall|i: int| 0 <= i < k ==> buf@[i] == src@[i],
                decreases 512 - k,
            {
                buf.set(k, src[k]);
                k += 1;
            }
            assert(buf@ =~= src@);
        } else {
            while k < 512
                invariant
                    0 <= k <= 512,
                    buf@.len() == 512,
                    forall|i: int| 0 <= i < k ==> buf@[i] == 0,
                decreases 512 - k,
            {
                buf.set(k, 0u8);
                k += 1;
            }
            assert(buf@ =~= zeros(512));
        }
    }

    fn write_block(&mut self, block_id: usize, buf: &[u8]) {
        while self.blocks.len() <= block_id
            invariant
                self.inv(),
                old(self).blocks@.len() <= self.blocks@.len(),
                forall|i: int|
                    0 <= i < old(self).blocks@.len() ==> #[trigger] self.blocks@[i] == old(self).blocks@[i],
                forall|i: int|
                    old(self).blocks@.len() <= i < self.blocks@.len() ==> (
                    #[trigger] self.blocks@[i])@ == zeros(512),
            decreases block_id + 1 - self.blocks@.len(),
        {
            let mut fresh: Vec<u8> = Vec::new();
            let mut k: usize = 0;
            while k < 512
                invariant
                    0 <= k <= 512,
                    fresh@ == zeros(k as nat),
                decreases 512 - k,
            {
                fresh.push(0u8);
                k += 1;
                assert(fresh@ =~= zeros(k as nat));
            }
            self.blocks.push(fresh);
        }
        let copy = vstd::slice::slice_to_vec(buf);
        self.blocks.set(block_id, copy);
        assert forall|id: usize| #[trigger]
            self.block(id) == if id == block_id {
                buf@
            } else {
                old(self).block(id)
            } by {
            if id != block_id && id < self.blocks@.len() {
                if id >= old(self).blocks@.len() {
                    assert(self.blocks@[id as int]@ == zeros(512));
                }
            }
        }
    }
}

} // verus!
