use rust_fuse::bitmap::ChunkedBitmap;
use rust_fuse::extent::all_slices;
use rust_fuse::extent::extent_slice;
use rust_fuse::extent::plan_read;
use rust_fuse::extent::plan_write;
use rust_fuse::extent::ReadSlice;
use rust_fuse::extent::WriteSlice;

fn bitmap_of(used: &[u64], chunks: usize) -> ChunkedBitmap {
    let mut bitmap = ChunkedBitmap::new(chunks);
    for b in used {
        bitmap.set(*b, true);
    }
    bitmap
}

fn used(bitmap: &ChunkedBitmap) -> Vec<usize> {
    let bools = bitmap.to_bools();
    (0..bools.len()).filter(|i| bools[*i]).collect()
}

#[test]
fn bits() {
    let mut bitmap = ChunkedBitmap::new(2);
    assert_eq!(bitmap.chunk_count(), 2);
    assert_eq!(bitmap.get(0), Some(false));
    assert_eq!(bitmap.get(2047), Some(false));
    assert_eq!(bitmap.get(2048), None);
    assert_eq!(bitmap.get(u64::MAX), None);
    bitmap.set(1024, true);
    bitmap.set(2047, true);
    assert_eq!(bitmap.get(1024), Some(true));
    assert_eq!(bitmap.get(1023), Some(false));
    bitmap.set(2047, false);
    assert_eq!(used(&bitmap), vec![1024]);
    assert_eq!(ChunkedBitmap::new(0).get(0), None);
}

#[test]
fn bits_as_bools_and_back() {
    let bitmap = bitmap_of(&[0, 5, 1023, 1024, 2000], 2);
    let bools = bitmap.to_bools();
    assert_eq!(bools.len(), 2048);
    let again = ChunkedBitmap::from_bools(&bools, 2);
    assert_eq!(again.to_bools(), bools);
    let short = ChunkedBitmap::from_bools(&vec![false, true], 1);
    assert_eq!(short.to_bools().len(), 1024);
    assert_eq!(used(&short), vec![1]);
}

#[test]
fn inodes_are_taken_in_order() {
    let mut bitmap = ChunkedBitmap::new(1);
    assert_eq!(bitmap.allocate_inode(), Some(2));
    assert_eq!(bitmap.allocate_inode(), Some(3));
    bitmap.set(2, false);
    assert_eq!(bitmap.allocate_inode(), Some(2));
    assert_eq!(bitmap.allocate_inode(), Some(4));
    assert_eq!(used(&bitmap), vec![2, 3, 4]);
}

#[test]
fn the_first_two_inodes_are_left_out() {
    let mut bitmap = ChunkedBitmap::new(2);
    let mut taken = Vec::new();
    while let Some(i) = bitmap.allocate_inode() {
        taken.push(i);
    }
    let expected: Vec<u64> = (2..2048).collect();
    assert_eq!(taken, expected);
    assert_eq!(bitmap.get(0), Some(false));
    assert_eq!(bitmap.get(1), Some(false));
    bitmap.set(1024, false);
    assert_eq!(bitmap.first_free_inode(), Some(1024));
    assert_eq!(bitmap.allocate_inode(), Some(1024));
    assert_eq!(bitmap.first_free_inode(), None);
    assert_eq!(ChunkedBitmap::new(0).allocate_inode(), None);
}

#[test]
fn an_inode_is_given_back() {
    let mut bitmap = bitmap_of(&[2, 3], 1);
    let before = bitmap.to_bools();
    let i = bitmap.allocate_inode().unwrap();
    assert_eq!(i, 4);
    bitmap.set(i, false);
    assert_eq!(bitmap.to_bools(), before);
}

#[test]
fn blocks_of_an_empty_bitmap() {
    let mut bitmap = ChunkedBitmap::new(1);
    assert_eq!(bitmap.allocate_blocks(3), Some(vec![(0, 3)]));
    assert_eq!(bitmap.allocate_blocks(2), Some(vec![(3, 2)]));
    assert_eq!(used(&bitmap), vec![0, 1, 2, 3, 4]);
    assert_eq!(bitmap.allocate_blocks(0), Some(vec![]));
    assert_eq!(used(&bitmap).len(), 5);
}

#[test]
fn blocks_between_blocks_in_use() {
    let mut bitmap = bitmap_of(&[0, 3, 4, 6], 1);
    assert_eq!(bitmap.allocate_blocks(4), Some(vec![(1, 2), (5, 1), (7, 1)]));
    assert_eq!(used(&bitmap), vec![0, 1, 2, 3, 4, 5, 6, 7]);
}

#[test]
fn a_run_that_fits_exactly() {
    let mut bitmap = bitmap_of(&[0, 3], 1);
    assert_eq!(bitmap.allocate_blocks(2), Some(vec![(1, 2)]));
    assert_eq!(used(&bitmap), vec![0, 1, 2, 3]);
}

#[test]
fn runs_end_with_their_chunk() {
    let mut bitmap = ChunkedBitmap::new(2);
    assert_eq!(bitmap.allocate_blocks(1025), Some(vec![(0, 1024), (1024, 1)]));
    assert_eq!(bitmap.allocate_blocks(1023), Some(vec![(1025, 1023)]));
    assert_eq!(bitmap.allocate_blocks(1), None);
}

#[test]
fn the_last_block_of_a_chunk() {
    let mut bitmap = ChunkedBitmap::new(2);
    for b in 0..1023 {
        bitmap.set(b, true);
    }
    bitmap.set(1024, true);
    assert_eq!(bitmap.allocate_blocks(2), Some(vec![(1023, 1), (1025, 1)]));
}

#[test]
fn too_few_blocks_leave_everything() {
    let mut bitmap = bitmap_of(&[7], 1);
    let before = bitmap.to_bools();
    assert_eq!(bitmap.allocate_blocks(1024), None);
    assert_eq!(bitmap.to_bools(), before);
    assert_eq!(bitmap.allocate_blocks(1023), Some(vec![(0, 7), (8, 1016)]));
    assert_eq!(used(&bitmap).len(), 1024);
}

#[test]
fn an_allocation_takes_as_many_as_were_asked_for() {
    for count in [1, 2, 5, 100, 900] {
        let mut bitmap = bitmap_of(&[3, 10, 11, 500], 1);
        let exs = bitmap.allocate_blocks(count).unwrap();
        assert_eq!(exs.iter().map(|e| e.1).sum::<u64>(), count as u64);
        assert_eq!(used(&bitmap).len(), count + 4);
    }
}

#[test]
fn slices_of_extents() {
    assert_eq!(extent_slice(&(3, 2), 10), ReadSlice { start: 30, len: 20 });
    assert_eq!(
        all_slices(&vec![(3, 2), (0, 1)], 10),
        vec![ReadSlice { start: 30, len: 20 }, ReadSlice { start: 0, len: 10 }]
    );
    assert_eq!(all_slices(&vec![], 10), vec![]);
}

#[test]
fn reading_across_extents() {
    let exs = vec![(3, 2), (0, 1), (7, 1)];
    assert_eq!(
        plan_read(&exs, 10, 15, 17),
        vec![
            ReadSlice { start: 45, len: 5 },
            ReadSlice { start: 0, len: 10 },
            ReadSlice { start: 70, len: 2 },
        ]
    );
    assert_eq!(plan_read(&exs, 10, 0, 3), vec![ReadSlice { start: 30, len: 3 }]);
    assert_eq!(plan_read(&exs, 10, 20, 10), vec![ReadSlice { start: 0, len: 10 }]);
    assert_eq!(plan_read(&exs, 10, 30, 100), vec![ReadSlice { start: 70, len: 10 }]);
    assert_eq!(plan_read(&exs, 10, 40, 1), vec![]);
}

#[test]
fn writing_across_extents() {
    let exs = vec![(3, 1), (0, 1)];
    let data: Vec<u8> = (1..=12).collect();
    let (slices, placed) = plan_write(&exs, 10, 5, &data);
    assert_eq!(placed, 12);
    assert_eq!(
        slices,
        vec![
            WriteSlice { start: 35, data: vec![1, 2, 3, 4, 5] },
            WriteSlice { start: 0, data: vec![6, 7, 8, 9, 10, 11, 12] },
        ]
    );
    let (slices, placed) = plan_write(&exs, 10, 15, &data);
    assert_eq!(placed, 5);
    assert_eq!(slices, vec![WriteSlice { start: 5, data: vec![1, 2, 3, 4, 5] }]);
    let (slices, placed) = plan_write(&exs, 10, 20, &data);
    assert_eq!((slices, placed), (vec![], 0));
}
