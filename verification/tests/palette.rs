use h265rs::{decode_palette_block, PaletteRunSyntax};

fn run(scan_position: usize, copy_above: bool, index: Option<u64>, length: usize) -> PaletteRunSyntax {
    PaletteRunSyntax {
        scan_position,
        copy_above_indices_flag: copy_above,
        palette_index: index,
        run_prefix: None,
        run_suffix: None,
        run_length: length,
    }
}

#[test]
fn palette_runs_fill_entries_and_copy_the_row_above() {
    let entries = vec![vec![10, 20], vec![30, 40]];
    let runs = vec![run(0, false, Some(1), 3), run(3, false, Some(0), 1), run(4, true, None, 4)];
    let planes = decode_palette_block(&entries, &runs, &[], 4, 2, false, 8);
    assert_eq!(planes, vec![vec![20, 20, 20, 10, 20, 20, 20, 10], vec![40, 40, 40, 30, 40, 40, 40, 30]]);
}

#[test]
fn palette_escapes_take_clipped_values_in_order() {
    let entries = vec![vec![5]];
    let runs = vec![run(0, false, Some(3), 2), run(2, false, Some(0), 2)];
    let escapes = vec![vec![300, 7]];
    let planes = decode_palette_block(&entries, &runs, &escapes, 2, 2, false, 8);
    assert_eq!(planes, vec![vec![255, 7, 5, 5]]);
}

#[test]
fn palette_transposed_scan_writes_columns_first() {
    let entries = vec![vec![1, 2, 3, 4]];
    let runs = vec![
        run(0, false, Some(0), 1),
        run(1, false, Some(1), 1),
        run(2, false, Some(2), 1),
        run(3, false, Some(3), 1),
    ];
    let planes = decode_palette_block(&entries, &runs, &[], 2, 2, true, 8);
    assert_eq!(planes, vec![vec![1, 3, 2, 4]]);
}

#[test]
fn palette_positions_past_the_block_are_ignored() {
    let planes = decode_palette_block(&[], &[run(3, false, Some(0), 5)], &[vec![999]], 2, 2, false, 8);
    assert_eq!(planes, vec![vec![0, 0, 0, 255]]);
}
