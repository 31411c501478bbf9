use radarc::coverage::{
    classify_cell, sight_line_clear, sweep_cells, CellClass, CoverageSplit, OcclusionReason,
};

#[test]
fn unusable_ground_is_skipped() {
    for beyond in [false, true] {
        for los in [false, true] {
            assert_eq!(classify_cell(false, beyond, los), CellClass::Skipped);
        }
    }
}

#[test]
fn horizon_wins_over_line_of_sight() {
    assert_eq!(
        classify_cell(true, true, true),
        CellClass::Occluded(OcclusionReason::RadioHorizon)
    );
    assert_eq!(
        classify_cell(true, true, false),
        CellClass::Occluded(OcclusionReason::RadioHorizon)
    );
}

#[test]
fn line_of_sight_decides_within_horizon() {
    assert_eq!(classify_cell(true, false, true), CellClass::Visible);
    assert_eq!(
        classify_cell(true, false, false),
        CellClass::Occluded(OcclusionReason::TerrainBlock)
    );
}

#[test]
fn reason_labels() {
    assert_eq!(OcclusionReason::RadioHorizon.label(), "radio_horizon");
    assert_eq!(OcclusionReason::TerrainBlock.label(), "terrain_block");
}

#[test]
fn empty_profile_has_no_line_of_sight() {
    assert!(!sight_line_clear(&[], false));
    assert!(!sight_line_clear(&[], true));
}

#[test]
fn zero_length_profile_is_clear() {
    assert!(sight_line_clear(&[true, true, true], true));
}

#[test]
fn end_samples_are_not_consulted() {
    assert!(sight_line_clear(&[true], false));
    assert!(sight_line_clear(&[true, true], false));
    assert!(sight_line_clear(&[true, false, false, true], false));
}

#[test]
fn interior_block_closes_line_of_sight() {
    assert!(!sight_line_clear(&[false, false, true, false], false));
    assert!(!sight_line_clear(&[false, true, false], false));
}

#[test]
fn split_keeps_order_and_reasons() {
    let mut split = CoverageSplit::new();
    split.record('a', CellClass::Visible);
    split.record('b', CellClass::Skipped);
    split.record('c', CellClass::Occluded(OcclusionReason::TerrainBlock));
    split.record('d', CellClass::Visible);
    split.record('e', CellClass::Occluded(OcclusionReason::RadioHorizon));
    assert_eq!(split.visible, vec!['a', 'd']);
    assert_eq!(
        split.occluded,
        vec![('c', OcclusionReason::TerrainBlock), ('e', OcclusionReason::RadioHorizon)]
    );
}

#[test]
fn sweep_visits_cells_row_by_row() {
    // 2 rows of 3 cells: even positions visible, position 3 skipped,
    // the rest blocked by terrain or by the horizon.
    let split = sweep_cells(3, 2, |row, col| {
        let k = row * 3 + col;
        let class = match k {
            3 => CellClass::Skipped,
            1 => CellClass::Occluded(OcclusionReason::RadioHorizon),
            5 => CellClass::Occluded(OcclusionReason::TerrainBlock),
            _ => CellClass::Visible,
        };
        ((row, col), class)
    });
    assert_eq!(split.visible, vec![(0, 0), (0, 2), (1, 1)]);
    assert_eq!(
        split.occluded,
        vec![
            ((0, 1), OcclusionReason::RadioHorizon),
            ((1, 2), OcclusionReason::TerrainBlock)
        ]
    );
}

#[test]
fn sweep_of_grid_without_rows_is_empty() {
    let split = sweep_cells(2, 0, |row, col| ((row, col), CellClass::Visible));
    assert!(split.visible.is_empty());
    assert!(split.occluded.is_empty());
}
