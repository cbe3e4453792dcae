use bexa_ui::batch::{build_batches, DrawBatch};

#[test]
fn no_quads_no_batches() {
    assert!(build_batches(&vec![]).is_empty());
}

#[test]
fn one_clip_one_batch() {
    let b = build_batches(&vec![None, None, None]);
    assert_eq!(b, vec![DrawBatch { start: 0, count: 18, clip: None }]);
}

#[test]
fn runs_of_equal_clips_share_a_batch() {
    let b = build_batches(&vec![None, Some(1), Some(1), None, Some(2)]);
    assert_eq!(
        b,
        vec![
            DrawBatch { start: 0, count: 6, clip: None },
            DrawBatch { start: 6, count: 12, clip: Some(1) },
            DrawBatch { start: 18, count: 6, clip: None },
            DrawBatch { start: 24, count: 6, clip: Some(2) },
        ]
    );
}

#[test]
fn a_clipped_first_quad_starts_at_zero() {
    let b = build_batches(&vec![Some(0), Some(0)]);
    assert_eq!(b, vec![DrawBatch { start: 0, count: 12, clip: Some(0) }]);
}
