use h265rs::{apply_sao_ctb, Block, QuadTree, SamplePlane, SaoBlock, SaoType, derive_luma_intra_mode, intra_predict, up_right_diagonal_scan, IntraPredictionMode, IntraReferences};

#[test]
fn remaining_luma_mode_is_the_rem_th_mode_outside_the_candidates() {
    // Neighbours 10 and 26 give the candidates 10, 26 and planar (0).
    let candidates = [0u8, 10, 26];
    let others: Vec<u8> = (0..35u8).filter(|mode| !candidates.contains(mode)).collect();
    assert_eq!(others.len(), 32);
    for rem in 0..32u8 {
        assert_eq!(derive_luma_intra_mode(10, 26, false, 0, rem), others[rem as usize]);
    }
}

#[test]
fn diagonal_scan_lists_each_coordinate_once_in_diagonal_order() {
    for size in [1u32, 2, 4, 8] {
        let scan = up_right_diagonal_scan(size).unwrap();
        assert_eq!(scan.len(), (size * size) as usize);
        for pair in scan.windows(2) {
            let (a, b) = (pair[0], pair[1]);
            assert!(a.0 + a.1 < b.0 + b.1 || (a.0 + a.1 == b.0 + b.1 && a.0 < b.0));
        }
        for x in 0..size {
            for y in 0..size {
                assert!(scan.contains(&(x, y)));
            }
        }
    }
}

#[test]
fn flat_references_predict_flat_blocks_at_thirty_bit_depth() {
    let v = (1i32 << 30) - 1;
    for n in [1usize, 4, 64, 128] {
        let references = IntraReferences::new(v, vec![v; 2 * n + 1], vec![v; 2 * n + 1]);
        assert_eq!(intra_predict(&references, n, n, IntraPredictionMode::Planar, 30), vec![v; n * n]);
        assert_eq!(intra_predict(&references, n, n, IntraPredictionMode::Dc, 30), vec![v; n * n]);
    }
}

#[test]
fn sao_off_and_band_accept_wide_samples() {
    let mut plane = SamplePlane::new(4, 1, 0);
    for (x, v) in [(0, (1 << 23) - 1), (1, 1 << 22), (2, 3), (3, 0)] {
        plane.set(x, 0, v);
    }
    let off = SaoBlock { kind: SaoType::Off, band_position: 0, edge_class: 0, offsets: [5, 5, 5, 5, 5], bit_depth: 24 };
    assert_eq!(apply_sao_ctb(&plane, 0, 0, 4, 1, &off), plane);
    let band = SaoBlock { kind: SaoType::Band, band_position: 14, edge_class: 0, offsets: [9, 1, 2, 3, 4], bit_depth: 24 };
    let filtered = apply_sao_ctb(&plane, 0, 0, 4, 1, &band);
    assert_eq!(filtered.get(0, 0), Some(1 << 23));
    assert_eq!(filtered.get(1, 0), Some(1 << 22));
    assert_eq!(filtered.get(2, 0), Some(3));
}

#[test]
fn quadtree_splits_blocks_near_the_coordinate_limit() {
    let near = Block { x: u32::MAX - 4, y: 0, width: 8, height: 8 };
    let children = near.split().unwrap();
    assert_eq!(children[1], Block { x: u32::MAX, y: 0, width: 4, height: 4 });
    let mut tree = QuadTree::Leaf(Block { x: 0, y: 0, width: 3, height: 3 });
    assert!(!tree.split());
    let mut tree = QuadTree::Leaf(near);
    assert!(tree.split());
}
