use game_of_life::board::{derive_chunk_dimensions, ram_cost_for, StreamingBoardCreationError};

#[test]
fn derive_dimensions_picks_row_band_when_budget_allows() {
    let (rows, cols) = derive_chunk_dimensions(4, 100, 1024, None, None).expect("derive should succeed");
    assert_eq!(cols, 4, "should use full width as row-band");
    assert!(rows >= 1);
}

#[test]
fn derive_dimensions_falls_back_to_2d_when_budget_too_small_for_row_band() {
    let (rows, cols) = derive_chunk_dimensions(1000, 1000, ram_cost_for(1, 1) + 4, None, None)
        .expect("minimum budget should succeed");
    assert_eq!(rows, 1);
    assert!(cols < 1000);
    assert!(cols >= 1);
}

#[test]
fn derive_dimensions_rejects_budget_below_min() {
    let err = derive_chunk_dimensions(10, 10, 1, None, None).expect_err("below-min budget should reject");
    assert!(matches!(err, StreamingBoardCreationError::InsufficientMemoryBudget { .. }));
}

#[test]
fn derive_dimensions_honors_overrides() {
    let (rows, cols) = derive_chunk_dimensions(100, 100, usize::MAX, Some(5), Some(7)).expect("derive");
    assert_eq!((rows, cols), (5, 7));
}

#[test]
fn row_band_takes_the_most_rows_that_fit() {
    // One cell and one dirty flag take a byte each: r rows of a 4-wide band
    // cost (r + 2) * 6 + r bytes, so 1024 bytes afford 144 rows.
    let (rows, cols) = derive_chunk_dimensions(4, 1000, 1024, None, None).unwrap();
    assert_eq!((rows, cols), (144, 4));
    assert_eq!(ram_cost_for(1, 1), 10);
}

#[test]
fn overrides_are_clamped_to_the_board() {
    let (rows, cols) = derive_chunk_dimensions(10, 20, usize::MAX, Some(0), Some(99)).unwrap();
    assert_eq!((rows, cols), (1, 10));
}

#[test]
fn below_minimum_error_suggests_the_minimum() {
    match derive_chunk_dimensions(10, 10, 5, None, None) {
        Err(StreamingBoardCreationError::InsufficientMemoryBudget {
            required_min_bytes,
            suggested_min_bytes,
            ..
        }) => {
            assert_eq!(required_min_bytes, 10);
            assert_eq!(suggested_min_bytes, 10);
        }
        other => panic!("unexpected {other:?}"),
    }
}
