//! The on-disk layout of the file system: the super block and the index
//! node, with the block-count arithmetic of multi-level indexing.
//!
//! An inode addresses its data through 28 direct slots, one first-level
//! indirect block of 128 entries, and one second-level indirect block whose
//! 128 entries each name a first-level block.

use vstd::prelude::*;

verus! {

pub const BLOCK_SZ: usize = 512;

/// Magic number marking a valid super block.
pub const EFS_MAGIC: u32 = 0x3b80_0001;

pub const INODE_DIRECT_COUNT: usize = 28;
pub const INODE_INDIRECT1_COUNT: usize = 128;
pub const DIRECT_BOUND: usize = 28;
pub const INDIRECT1_BOUND: usize = 156;

/// The first disk block: totals of every region, in blocks.
pub struct SuperBlock {
    pub magic: u32,
    pub total_blocks: u32,
    pub inode_bitmap_blocks: u32,
    pub inode_area_blocks: u32,
    pub data_bitmap_blocks: u32,
    pub data_area_blocks: u32,
}

impl SuperBlock {
    /// Stamp the super block with the layout's region sizes.
    pub fn initialize(
        &mut self,
        total_blocks: u32,
        inode_bitmap_blocks: u32,
        inode_area_blocks: u32,
        data_bitmap_blocks: u32,
        data_area_blocks: u32,
    )
        ensures
            final(self).magic == EFS_MAGIC,
            final(self).total_blocks == total_blocks,
            final(self).inode_bitmap_blocks == inode_bitmap_blocks,
            final(self).inode_area_blocks == inode_area_blocks,
            final(self).data_bitmap_blocks == data_bitmap_blocks,
            final(self).data_area_blocks == data_area_blocks,
    {
        self.magic = EFS_MAGIC;
        self.total_blocks = total_blocks;
        self.inode_bitmap_blocks = inode_bitmap_blocks;
        self.inode_area_blocks = inode_area_blocks;
        self.data_bitmap_blocks = data_bitmap_blocks;
        self.data_area_blocks = data_area_blocks;
    }

    pub fn is_valid(&self) -> (r: bool)
        ensures
            r == (self.magic == EFS_MAGIC),
    {
        self.magic == EFS_MAGIC
    }
}

#[derive(Clone, Copy, PartialEq, Eq, Structural, Debug)]
pub enum DiskInodeType {
    File,
    Directory,
}

/// The index node stored on disk: a byte size, the direct slots and the two
/// indirect roots.
pub struct DiskInode {
    pub size: u32,
    pub direct: [u32; 28],
    pub indirect1: u32,
    pub indirect2: u32,
    pub type_: DiskInodeType,
}

/// Data blocks needed for `size` bytes: one per started block.
pub open spec fn spec_data_blocks(size: u32) -> int {
    (size + BLOCK_SZ - 1) / (BLOCK_SZ as int)
}

/// Blocks occupied in all for `size` bytes: the data blocks, the first-level
/// indirect block once the direct slots overflow, and past the first-level
/// bound the second-level block plus one first-level block per started group
/// of 128.
pub open spec fn spec_total_blocks(size: u32) -> int {
    let data = spec_data_blocks(size);
    data + (if data > DIRECT_BOUND {
        1int
    } else {
        0int
    }) + (if data > INDIRECT1_BOUND {
        1 + (data - INDIRECT1_BOUND + INODE_INDIRECT1_COUNT - 1) / (INODE_INDIRECT1_COUNT as int)
    } else {
        0int
    })
}

/// More bytes never occupy fewer blocks.
pub proof fn lemma_total_blocks_monotonic(old_size: u32, new_size: u32)
    requires
        old_size <= new_size,
    ensures
        spec_total_blocks(old_size) <= spec_total_blocks(new_size),
        spec_data_blocks(old_size) <= spec_data_blocks(new_size),
{
    let a = spec_data_blocks(old_size);
    let b = spec_data_blocks(new_size);
    assert(a <= b) by (nonlinear_arith)
        requires
            a == (old_size + 511) / 512,
            b == (new_size + 511) / 512,
            old_size <= new_size,
    ;
    if b > INDIRECT1_BOUND {
        if a > INDIRECT1_BOUND {
            assert((a - 156 + 127) / 128 <= (b - 156 + 127) / 128) by (nonlinear_arith)
                requires
                    a <= b,
            ;
        } else {
            assert(0 <= (b - 156 + 127) / 128) by (nonlinear_arith)
                requires
                    b > 156,
            ;
        }
    }
}

impl DiskInode {
    /// Clear the node for a new file or directory of the given type.
    pub fn initialize(&mut self, type_: DiskInodeType)
        ensures
            final(self).size == 0,
            final(self).type_ == type_,
            forall|i: int| 0 <= i < 28 ==> final(self).direct@[i] == 0,
            final(self).indirect1 == 0,
            final(self).indirect2 == 0,
    {
        self.size = 0;
        self.direct = [0; 28];
        self.indirect1 = 0;
        self.indirect2 = 0;
        self.type_ = type_;
    }

    pub fn is_dir(&self) -> (r: bool)
        ensures
            r == (self.type_ == DiskInodeType::Directory),
    {
        match self.type_ {
            DiskInodeType::Directory => true,
            DiskInodeType::File => false,
        }
    }

    pub fn is_file(&self) -> (r: bool)
        ensures
            r == (self.type_ == DiskInodeType::File),
    {
        match self.type_ {
            DiskInodeType::File => true,
            DiskInodeType::Directory => false,
        }
    }

    /// Data blocks this node's bytes occupy.
    pub fn data_blocks(&self) -> (r: u32)
        ensures
            r == spec_data_blocks(self.size),
    {
        DiskInode::data_blocks_for(self.size)
    }

    /// Data blocks `size` bytes occupy.
    pub fn data_blocks_for(size: u32) -> (r: u32)
        ensures
            r == spec_data_blocks(size),
    {
        ((size as u64 + BLOCK_SZ as u64 - 1) / (BLOCK_SZ as u64)) as u32
    }

    /// All blocks `size` bytes occupy, indirect blocks included.
    pub fn total_blocks(size: u32) -> (r: u32)
        ensures
            r == spec_total_blocks(size),
    {
        let data_blocks = DiskInode::data_blocks_for(size) as u64;
        let mut total: u64 = data_blocks;
        if data_blocks > DIRECT_BOUND as u64 {
            total = total + 1;
        }
        if data_blocks > INDIRECT1_BOUND as u64 {
            total = total + 1;
            total = total + (data_blocks - INDIRECT1_BOUND as u64 + INODE_INDIRECT1_COUNT as u64
                - 1) / (INODE_INDIRECT1_COUNT as u64);
        }
        proof {
            assert(spec_data_blocks(size) <= 0x80_0000) by (nonlinear_arith)
                requires
                    spec_data_blocks(size) == (size + 511) / 512,
                    size <= u32::MAX,
            ;
        }
        total as u32
    }

    /// Data blocks to hand `increase_size` for growth to `new_size`: exactly
    /// the difference in occupied blocks.
    pub fn blocks_num_needed(&self, new_size: u32) -> (r: u32)
        requires
            new_size >= self.size,
        ensures
            r == spec_total_blocks(new_size) - spec_total_blocks(self.size),
    {
        proof {
            lemma_total_blocks_monotonic(self.size, new_size);
        }
        DiskInode::total_blocks(new_size) - DiskInode::total_blocks(self.size)
    }
}

/// A store of 512-byte blocks: the device as the inode algorithms see it.
pub struct BlockStore {
    pub blocks: Vec<Vec<u8>>,
}

impl BlockStore {
    pub open spec fn wf(self) -> bool {
        forall|i: int|
            0 <= i < self.blocks@.len() ==> (#[trigger] self.blocks@[i]).len() == BLOCK_SZ
}

    /// The little-endian 32-bit word at position `k` of a block.
    pub open spec fn spec_u32_at(b: Seq<u8>, k: int) -> u32 {
        (b[4 * k] as u32) | ((b[4 * k + 1] as u32) << 8u32) | ((b[4 * k + 2] as u32) << 16u32) | ((
        b[4 * k + 3] as u32) << 24u32)
    }

    /// Read word `k` of block `block`.
    pub fn read_u32(&self, block: usize, k: usize) -> (r: u32)
        requires
            self.wf(),
            block < self.blocks@.len(),
            k < BLOCK_SZ / 4,
        ensures
            r == BlockStore::spec_u32_at(self.blocks@[block as int]@, k as int),
    {
        let b = &self.blocks[block];
        (b[4 * k] as u32) | ((b[4 * k + 1] as u32) << 8u32) | ((b[4 * k + 2] as u32) << 16u32) | ((
        b[4 * k + 3] as u32) << 24u32)
    }
}

impl DiskInode {
    /// The block number holding file-relative block `inner_id`, found through
    /// the direct slots, the first-level indirect block, or two levels of the
    /// second-level tree — exactly the three ranges of the on-disk layout.
    pub fn get_block_id(&self, inner_id: u32, store: &BlockStore) -> (r: u32)
        requires
            store.wf(),
            inner_id < INDIRECT1_BOUND + INODE_INDIRECT1_COUNT * INODE_INDIRECT1_COUNT,
            DIRECT_BOUND <= inner_id < INDIRECT1_BOUND ==> (self.indirect1 as int)
                < store.blocks@.len(),
            INDIRECT1_BOUND <= inner_id ==> (self.indirect2 as int) < store.blocks@.len() && (
            BlockStore::spec_u32_at(
                store.blocks@[self.indirect2 as int]@,
                ((inner_id - INDIRECT1_BOUND) as int) / (INODE_INDIRECT1_COUNT as int),
            ) as int) < store.blocks@.len(),
        ensures
            (inner_id < DIRECT_BOUND ==> r == self.direct@[inner_id as int]),
            (DIRECT_BOUND <= inner_id < INDIRECT1_BOUND ==> r == BlockStore::spec_u32_at(
                store.blocks@[self.indirect1 as int]@,
                inner_id - DIRECT_BOUND,
            )),
            (INDIRECT1_BOUND <= inner_id ==> r == BlockStore::spec_u32_at(
                store.blocks@[BlockStore::spec_u32_at(
                    store.blocks@[self.indirect2 as int]@,
                    ((inner_id - INDIRECT1_BOUND) as int) / (INODE_INDIRECT1_COUNT as int),
                ) as int]@,
                ((inner_id - INDIRECT1_BOUND) as int) % (INODE_INDIRECT1_COUNT as int),
            )),
    {
        let inner_id = inner_id as usize;
        if inner_id < DIRECT_BOUND {
            self.direct[inner_id]
        } else if inner_id < INDIRECT1_BOUND {
            store.read_u32(self.indirect1 as usize, inner_id - DIRECT_BOUND)
        } else {
            let last = inner_id - INDIRECT1_BOUND;
            let indirect1 = store.read_u32(
                self.indirect2 as usize,
                last / INODE_INDIRECT1_COUNT,
            );
            store.read_u32(indirect1 as usize, last % INODE_INDIRECT1_COUNT)
        }
    }
}

} // verus!
