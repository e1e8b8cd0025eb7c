use rcore_os::bitmap::{
    alloc_at, alloc_in_block, block_from_bytes, dealloc_at, block_to_bytes, dealloc_in_block, decomposition,
    BitmapBlock, BLOCK_BITS,
};
use rcore_os::{Bitmap, BlockDevice, BLOCK_SZ};
use std::sync::Mutex;

struct RamDisk {
    blocks: Mutex<Vec<[u8; 512]>>,
}

impl RamDisk {
    fn new(n: usize) -> Self {
        RamDisk { blocks: Mutex::new(vec![[0u8; 512]; n]) }
    }
    fn word(&self, block: usize, word: usize) -> u64 {
        let b = self.blocks.lock().unwrap();
        let mut bytes = [0u8; 8];
        bytes.copy_from_slice(&b[block][word * 8..word * 8 + 8]);
        u64::from_le_bytes(bytes)
    }
}

impl BlockDevice for RamDisk {
    // The model of the device's contents is read by the verifier only;
    // compiled code never calls it.
    fn block_contents(&self, _block_id: usize) -> vstd::seq::Seq<u8> {
        unreachable!()
    }
    fn read_block(&self, block_id: usize, buf: &mut [u8]) {
        buf.copy_from_slice(&self.blocks.lock().unwrap()[block_id]);
    }
    fn write_block(&mut self, block_id: usize, buf: &[u8]) {
        self.blocks.lock().unwrap()[block_id].copy_from_slice(buf);
    }
}

#[test]
fn decomposition_splits_bit_numbers() {
    assert_eq!(decomposition(0), (0, 0, 0));
    assert_eq!(decomposition(63), (0, 0, 63));
    assert_eq!(decomposition(64), (0, 1, 0));
    assert_eq!(decomposition(4097), (1, 0, 1));
    assert_eq!(decomposition(5000), (1, 14, 8));
    let (b, w, i) = decomposition(123_456);
    assert_eq!(b * BLOCK_BITS + w * 64 + i, 123_456);
}

#[test]
fn alloc_in_block_takes_lowest_clear_bit() {
    let mut block: BitmapBlock = [0; 64];
    assert_eq!(alloc_in_block(&mut block), Some(0));
    assert_eq!(block[0], 1);
    assert_eq!(alloc_in_block(&mut block), Some(1));
    assert_eq!(block[0], 3);
    block[0] = u64::MAX;
    block[1] = 0b1011;
    assert_eq!(alloc_in_block(&mut block), Some(64 + 2));
    assert_eq!(block[1], 0b1111);
}

#[test]
fn alloc_in_block_on_full_block() {
    let mut block: BitmapBlock = [u64::MAX; 64];
    assert_eq!(alloc_in_block(&mut block), None);
    assert_eq!(block, [u64::MAX; 64]);
    block[63] = u64::MAX >> 1;
    assert_eq!(alloc_in_block(&mut block), Some(4095));
    assert_eq!(block, [u64::MAX; 64]);
}

#[test]
fn dealloc_in_block_clears_a_set_bit() {
    let mut block: BitmapBlock = [0; 64];
    block[2] = 0b100;
    assert!(dealloc_in_block(&mut block, 130));
    assert_eq!(block[2], 0);
    assert!(!dealloc_in_block(&mut block, 130));
    assert_eq!(block, [0; 64]);
}

#[test]
fn alloc_then_dealloc_restores_block() {
    let mut block: BitmapBlock = [0; 64];
    for (i, w) in block.iter_mut().enumerate() {
        *w = (i as u64).wrapping_mul(0x9E37_79B9_7F4A_7C15) | 1;
    }
    let before = block;
    let pos = alloc_in_block(&mut block).unwrap();
    assert_ne!(block, before);
    assert!(dealloc_in_block(&mut block, pos));
    assert_eq!(block, before);
}

#[test]
fn block_bytes_are_little_endian_and_round_trip() {
    let mut block: BitmapBlock = [0; 64];
    block[0] = 0x0102;
    block[63] = 0xAABB_CCDD_0000_0001;
    let bytes = block_to_bytes(&block);
    assert_eq!(bytes.len(), BLOCK_SZ);
    assert_eq!(bytes[0], 0x02);
    assert_eq!(bytes[1], 0x01);
    assert_eq!(bytes[504], 0x01);
    assert_eq!(bytes[511], 0xAA);
    assert_eq!(block_from_bytes(&bytes), block);
}

#[test]
fn bitmap_maximum() {
    assert_eq!(Bitmap::new(2, 3).maximum(), 3 * 4096);
    assert_eq!(Bitmap::new(0, 0).maximum(), 0);
}

#[test]
fn bitmap_allocates_in_order_and_reuses_freed_bits() {
    let mut disk = RamDisk::new(4);
    let bitmap = Bitmap::new(1, 2);
    assert_eq!(bitmap.allocate(&mut disk), Some(0));
    assert_eq!(bitmap.allocate(&mut disk), Some(1));
    assert_eq!(bitmap.allocate(&mut disk), Some(2));
    assert_eq!(disk.word(1, 0), 0b111);
    assert!(bitmap.dealloc(&mut disk, 1));
    assert_eq!(disk.word(1, 0), 0b101);
    assert_eq!(bitmap.allocate(&mut disk), Some(1));
    assert!(!bitmap.dealloc(&mut disk, 100));
    assert_eq!(disk.word(0, 0), 0);
}

#[test]
fn bitmap_moves_to_next_block_and_reports_full() {
    let mut disk = RamDisk::new(3);
    let bitmap = Bitmap::new(1, 2);
    {
        let mut b = disk.blocks.lock().unwrap();
        b[1] = [0xFF; 512];
    }
    assert_eq!(bitmap.allocate(&mut disk), Some(4096));
    assert_eq!(disk.word(2, 0), 1);
    {
        let mut b = disk.blocks.lock().unwrap();
        b[2] = [0xFF; 512];
    }
    let full = disk.blocks.lock().unwrap().clone();
    assert_eq!(bitmap.allocate(&mut disk), None);
    assert_eq!(*disk.blocks.lock().unwrap(), full);
    assert!(bitmap.dealloc(&mut disk, 4096 + 70));
    assert_eq!(disk.word(2, 1), u64::MAX - (1 << 6));
    assert_eq!(bitmap.allocate(&mut disk), Some(4096 + 70));
}

#[test]
fn bitmap_works_through_a_boxed_device() {
    let mut disk: Box<dyn BlockDevice> = Box::new(RamDisk::new(2));
    let bitmap = Bitmap::new(0, 1);
    assert_eq!(bitmap.allocate(&mut *disk), Some(0));
    assert_eq!(bitmap.allocate(&mut *disk), Some(1));
    assert!(bitmap.dealloc(&mut *disk, 0));
    assert!(!bitmap.dealloc(&mut *disk, 0));
}

#[test]
fn alloc_at_numbers_bits_across_the_bitmap() {
    let mut block: BitmapBlock = [0; 64];
    block[0] = 0x7;
    assert_eq!(alloc_at(1, &mut block), Some(4099));
    assert_eq!(block[0], 0xF);
    let mut full: BitmapBlock = [u64::MAX; 64];
    assert_eq!(alloc_at(3, &mut full), None);
    assert_eq!(full, [u64::MAX; 64]);
}

#[test]
fn dealloc_at_clears_the_bit_of_its_block() {
    let mut block: BitmapBlock = [0; 64];
    block[1] = 1 << 5;
    assert!(dealloc_at(2 * 4096 + 69, &mut block));
    assert_eq!(block[1], 0);
    assert!(!dealloc_at(2 * 4096 + 69, &mut block));
    assert_eq!(block, [0; 64]);
}

#[test]
fn allocate_skips_full_blocks_to_the_first_free_bit() {
    let mut disk = RamDisk::new(12);
    let bitmap = Bitmap::new(10, 2);
    {
        let mut b = disk.blocks.lock().unwrap();
        b[10] = [0xFF; 512];
        b[11][0] = 0x7;
    }
    assert_eq!(bitmap.allocate(&mut disk), Some(4099));
    assert_eq!(disk.word(11, 0), 0xF);
    assert_eq!(disk.word(11, 1), 0);
    assert_eq!(disk.word(10, 5), u64::MAX);
}

#[test]
fn later_allocations_give_larger_bits() {
    let mut disk = RamDisk::new(2);
    let bitmap = Bitmap::new(0, 2);
    let mut last = None;
    for _ in 0..200 {
        let bit = bitmap.allocate(&mut disk).unwrap();
        if let Some(prev) = last {
            assert!(bit > prev);
        }
        last = Some(bit);
    }
    assert_eq!(last, Some(199));
}

#[test]
fn dealloc_after_allocate_restores_the_device() {
    let mut disk = RamDisk::new(3);
    let bitmap = Bitmap::new(1, 2);
    {
        let mut b = disk.blocks.lock().unwrap();
        b[1] = [0xFF; 512];
        b[2][3] = 0x55;
    }
    let before = disk.blocks.lock().unwrap().clone();
    let bit = bitmap.allocate(&mut disk).unwrap();
    assert_eq!(bit, 4096);
    assert!(bitmap.dealloc(&mut disk, bit));
    assert_eq!(*disk.blocks.lock().unwrap(), before);
}
