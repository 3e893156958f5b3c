//! Round-trip behaviour of the grouped arena.

use vcode::ChunkVec;

#[test]
fn round_trip_varied_group_sizes() {
    let mut cv: ChunkVec<u32> = ChunkVec::new();
    let g0 = vec![1u32, 2, 3];
    let g1: Vec<u32> = vec![];
    let g2 = vec![7u32];
    let g3 = vec![10u32, 20, 30, 40];
    assert_eq!(cv.push(g0.clone()), 0);
    assert_eq!(cv.push(g1.clone()), 1);
    assert_eq!(cv.push(g2.clone()), 2);
    assert_eq!(cv.push(g3.clone()), 3);
    assert_eq!(cv.index(0), &g0[..]);
    assert_eq!(cv.index(1), &g1[..]);
    assert_eq!(cv.index(2), &g2[..]);
    assert_eq!(cv.index(3), &g3[..]);
}

#[test]
fn round_trip_all_empty_groups() {
    let mut cv: ChunkVec<u8> = ChunkVec::new();
    for i in 0..5usize {
        assert_eq!(cv.push(Vec::new()), i);
    }
    for i in 0..5usize {
        assert_eq!(cv.index(i), &[] as &[u8]);
    }
}

#[test]
fn push_into_appends_produced_group() {
    let mut cv: ChunkVec<u16> = ChunkVec::default();
    let id = cv.push_into(|| vec![5u16, 6]);
    assert_eq!(id, 0);
    let id2 = cv.push_into(Vec::new);
    assert_eq!(id2, 1);
    assert_eq!(cv.index(0), &[5u16, 6][..]);
    assert_eq!(cv.index(1), &[] as &[u16]);
}

#[test]
fn extent_matches_offsets() {
    let mut cv: ChunkVec<i32> = ChunkVec::new();
    cv.push(vec![1, 2]);
    cv.push(vec![]);
    cv.push(vec![3, 4, 5]);
    assert_eq!(cv.extent(0), (0, 2));
    assert_eq!(cv.extent(1), (2, 2));
    assert_eq!(cv.extent(2), (2, 5));
}
