use ctrl_group::bitmask::BitMask;
use ctrl_group::group::{Group, WIDTH};
use ctrl_group::{DELETED, EMPTY};

fn bytes_of(g: &Group) -> Vec<u8> {
    let mut v = vec![0u8; WIDTH];
    g.store_aligned(&mut v, 0);
    v
}

fn collect_by_lowest(m: &BitMask) -> Vec<usize> {
    let mut out = Vec::new();
    let mut cur = *m;
    while let Some(i) = cur.lowest_set_bit() {
        out.push(i);
        cur = cur.remove_lowest_bit();
    }
    out
}

#[test]
fn static_empty_is_all_empty() {
    let buf = Group::static_empty();
    assert_eq!(buf.len(), WIDTH);
    for b in buf.iter() {
        assert_eq!(*b, EMPTY);
    }
}

#[test]
fn scenario_mixed_group() {
    let mut buf = vec![EMPTY; WIDTH];
    buf[0] = 0x05;
    buf[2] = DELETED;
    buf[3] = 0x7f;
    let g = Group::load(&buf, 0);

    assert_eq!(g.match_byte(0x05).lane_indices(), vec![0usize]);

    let mut expected_empty = vec![1usize];
    for i in 4..16usize {
        expected_empty.push(i);
    }
    assert_eq!(g.match_empty().lane_indices(), expected_empty);

    let mut expected_eod = vec![1usize, 2];
    for i in 4..16usize {
        expected_eod.push(i);
    }
    assert_eq!(g.match_empty_or_deleted().lane_indices(), expected_eod);

    let c = g.convert_special_to_empty_and_full_to_deleted();
    let cb = bytes_of(&c);
    assert_eq!(cb[0], DELETED);
    assert_eq!(cb[1], EMPTY);
    assert_eq!(cb[2], EMPTY);
    assert_eq!(cb[3], DELETED);
    for i in 4..16 {
        assert_eq!(cb[i], EMPTY);
    }
}

#[test]
fn match_byte_exact_ascending_no_duplicates() {
    let mut buf = vec![0u8; WIDTH];
    for (i, b) in buf.iter_mut().enumerate() {
        *b = i as u8;
    }
    buf[2] = 0x21;
    buf[5] = 0x21;
    buf[13] = 0x21;
    let g = Group::load(&buf, 0);
    assert_eq!(g.match_byte(0x21).lane_indices(), vec![2usize, 5, 13]);
    assert_eq!(g.match_byte(0x42).lane_indices(), Vec::<usize>::new());
    assert!(!g.match_byte(0x42).any_bit_set());
    assert!(g.match_byte(0x21).any_bit_set());
}

#[test]
fn empty_or_deleted_is_union_of_matches() {
    let buf: Vec<u8> = vec![
        0x05, EMPTY, DELETED, 0x7f, EMPTY, 0x00, DELETED, 0x13, EMPTY, EMPTY, 0x44, DELETED, 0x7e,
        EMPTY, 0x01, DELETED,
    ];
    let g = Group::load(&buf, 0);
    let mut union: Vec<usize> = g.match_byte(EMPTY).lane_indices();
    union.extend(g.match_byte(DELETED).lane_indices());
    union.sort();
    assert_eq!(g.match_empty_or_deleted().lane_indices(), union);
}

#[test]
fn convert_truth_table_per_lane() {
    let mut buf = vec![EMPTY; WIDTH];
    buf[1] = DELETED;
    buf[2] = 0x00;
    buf[3] = 0x7f;
    buf[4] = 0x2a;
    let g = Group::load(&buf, 0);
    let cb = bytes_of(&g.convert_special_to_empty_and_full_to_deleted());
    assert_eq!(cb[0], EMPTY);
    assert_eq!(cb[1], EMPTY);
    assert_eq!(cb[2], DELETED);
    assert_eq!(cb[3], DELETED);
    assert_eq!(cb[4], DELETED);
    for i in 5..16 {
        assert_eq!(cb[i], EMPTY);
    }
}

#[test]
fn convert_twice_all_full_yields_all_empty() {
    let mut buf = vec![0u8; WIDTH];
    for (i, b) in buf.iter_mut().enumerate() {
        *b = (i as u8) * 7 % 0x80;
    }
    let g = Group::load(&buf, 0);
    let once = g.convert_special_to_empty_and_full_to_deleted();
    let twice = once.convert_special_to_empty_and_full_to_deleted();
    for b in bytes_of(&once) {
        assert_eq!(b, DELETED);
    }
    for b in bytes_of(&twice) {
        assert_eq!(b, EMPTY);
    }
}

#[test]
fn load_store_round_trip() {
    let mut src = vec![0u8; 48];
    for (i, b) in src.iter_mut().enumerate() {
        *b = (i as u8).wrapping_mul(37).wrapping_add(11);
    }
    // Unaligned load, aligned store to a different buffer.
    let g = Group::load(&src, 7);
    let mut dst = vec![0xaau8; 48];
    g.store_aligned(&mut dst, 16);
    assert_eq!(&dst[16..32], &src[7..23]);
    assert!(dst[..16].iter().all(|b| *b == 0xaa));
    assert!(dst[32..].iter().all(|b| *b == 0xaa));

    // Storing a group back over the region it was loaded from changes nothing.
    let g2 = Group::load_aligned(&src, 16);
    let mut same = src.clone();
    g2.store_aligned(&mut same, 16);
    assert_eq!(same, src);
}

#[test]
fn load_aligned_matches_load() {
    let mut src = vec![0u8; 32];
    for (i, b) in src.iter_mut().enumerate() {
        *b = 0xf0u8.wrapping_sub(i as u8);
    }
    let a = Group::load_aligned(&src, 16);
    let u = Group::load(&src, 16);
    assert_eq!(bytes_of(&a), bytes_of(&u));
}

#[test]
fn checked_loads_validate_bounds_and_alignment() {
    let src = vec![0x11u8; 40];
    let g = Group::load_checked(&src, 24).expect("in bounds");
    assert_eq!(bytes_of(&g), vec![0x11u8; 16]);
    assert!(Group::load_checked(&src, 25).is_none());
    assert!(Group::load_checked(&src, usize::MAX).is_none());
    assert!(Group::load_checked(&[], 0).is_none());

    assert!(Group::load_aligned_checked(&src, 16).is_some());
    assert!(Group::load_aligned_checked(&src, 8).is_none());
    assert!(Group::load_aligned_checked(&src, 32).is_none());
}

#[test]
fn checked_store_validates_and_preserves_on_failure() {
    let src = vec![0x33u8; 16];
    let g = Group::load(&src, 0);
    let mut dst = vec![0x44u8; 32];
    assert!(!g.store_aligned_checked(&mut dst, 8));
    assert_eq!(dst, vec![0x44u8; 32]);
    assert!(!g.store_aligned_checked(&mut dst, 24));
    assert_eq!(dst, vec![0x44u8; 32]);
    assert!(g.store_aligned_checked(&mut dst, 16));
    assert_eq!(&dst[..16], &[0x44u8; 16][..]);
    assert_eq!(&dst[16..], &[0x33u8; 16][..]);
}

#[test]
fn bitmask_iteration_by_lowest_matches_lane_indices() {
    let buf: Vec<u8> = vec![
        0x09, EMPTY, 0x09, DELETED, 0x09, 0x01, 0x02, 0x03, 0x09, 0x05, 0x06, 0x07, 0x09, EMPTY,
        0x0a, 0x09,
    ];
    let g = Group::load(&buf, 0);
    let m = g.match_byte(0x09);
    assert_eq!(collect_by_lowest(&m), m.lane_indices());
    assert_eq!(m.lane_indices(), vec![0usize, 2, 4, 8, 12, 15]);
}

#[test]
fn bitmask_empty_behaviour() {
    let buf = vec![0x01u8; 16];
    let g = Group::load(&buf, 0);
    let m = g.match_byte(0x02);
    assert!(!m.any_bit_set());
    assert!(m.lowest_set_bit().is_none());
    let still = m.remove_lowest_bit();
    assert!(still.lane_indices().is_empty());
}

#[test]
fn remove_lowest_bit_removes_only_lowest() {
    let mut buf = vec![0u8; 16];
    buf[3] = 0x77;
    buf[9] = 0x77;
    buf[10] = 0x77;
    let g = Group::load(&buf, 0);
    let m = g.match_byte(0x77);
    assert_eq!(m.lowest_set_bit(), Some(3));
    let rest = m.remove_lowest_bit();
    assert_eq!(rest.lane_indices(), vec![9usize, 10]);
    assert_eq!(rest.lowest_set_bit(), Some(9));
}
