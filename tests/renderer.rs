use rx11::renderer::{split_blocks, sub_block_end, SubBlock, MAX_BLOCK_SIZE};

fn bounds(blocks: &[SubBlock]) -> Vec<(usize, usize)> {
    blocks.iter().map(|b| (b.start, b.end)).collect()
}

#[test]
fn note_on_at_offset_50_splits_into_three() {
    assert_eq!(MAX_BLOCK_SIZE, 64);
    let blocks = split_blocks(128, &vec![50]);
    // Each sub-block runs at most MAX_BLOCK_SIZE samples from its own start.
    assert_eq!(bounds(&blocks), vec![(0, 50), (50, 114), (114, 128)]);
    assert_eq!(blocks[0].events_end, 0);
    assert_eq!(blocks[1].events_end, 1);
    assert_eq!(blocks[2].events_end, 1);
}

#[test]
fn no_events_splits_at_max_block_size() {
    let blocks = split_blocks(150, &vec![]);
    assert_eq!(bounds(&blocks), vec![(0, 64), (64, 128), (128, 150)]);
}

#[test]
fn empty_buffer_has_no_sub_blocks() {
    assert!(split_blocks(0, &vec![3]).is_empty());
}

#[test]
fn event_at_zero_applies_before_first_sub_block() {
    let blocks = split_blocks(10, &vec![0, 0, 4]);
    assert_eq!(bounds(&blocks), vec![(0, 4), (4, 10)]);
    assert_eq!(blocks[0].events_end, 2);
    assert_eq!(blocks[1].events_end, 3);
}

#[test]
fn events_past_the_buffer_are_not_applied() {
    let blocks = split_blocks(20, &vec![5, 30]);
    assert_eq!(bounds(&blocks), vec![(0, 5), (5, 20)]);
    assert_eq!(blocks[1].events_end, 1);
}

#[test]
fn late_offset_never_moves_end_back() {
    assert_eq!(sub_block_end(10, 100, Some(5)), 74);
    assert_eq!(sub_block_end(10, 100, Some(10)), 74);
    assert_eq!(sub_block_end(10, 100, Some(11)), 11);
    assert_eq!(sub_block_end(10, 30, None), 30);
    assert_eq!(sub_block_end(10, 100, Some(90)), 74);
}

#[test]
fn sub_blocks_tile_the_buffer() {
    let timings = vec![1, 63, 64, 65, 200, 200, 513];
    let blocks = split_blocks(512, &timings);
    assert_eq!(blocks[0].start, 0);
    assert_eq!(blocks.last().unwrap().end, 512);
    for w in blocks.windows(2) {
        assert_eq!(w[0].end, w[1].start);
    }
    for b in &blocks {
        assert!(b.end > b.start && b.end - b.start <= MAX_BLOCK_SIZE);
        for &t in &timings {
            assert!(!(b.start < t && t < b.end));
        }
    }
}
