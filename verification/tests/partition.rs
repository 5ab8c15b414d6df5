use mandelbrot::bands::{partition, Band};

#[test]
fn partition_splits_rows_evenly_with_short_tail() {
    let bands = partition(10, 3);
    assert_eq!(
        bands,
        vec![
            Band { top: 0, num_rows: 4 },
            Band { top: 4, num_rows: 4 },
            Band { top: 8, num_rows: 2 },
        ]
    );
}

#[test]
fn partition_exact_division_has_no_tail() {
    let bands = partition(8, 4);
    assert_eq!(
        bands,
        vec![
            Band { top: 0, num_rows: 2 },
            Band { top: 2, num_rows: 2 },
            Band { top: 4, num_rows: 2 },
            Band { top: 6, num_rows: 2 },
        ]
    );
}

#[test]
fn partition_with_more_workers_than_rows() {
    let bands = partition(3, 8);
    assert_eq!(
        bands,
        vec![
            Band { top: 0, num_rows: 1 },
            Band { top: 1, num_rows: 1 },
            Band { top: 2, num_rows: 1 },
        ]
    );
}

#[test]
fn partition_single_worker_takes_all_rows() {
    let bands = partition(7, 1);
    assert_eq!(bands, vec![Band { top: 0, num_rows: 7 }]);
}

#[test]
fn partition_of_zero_height_dispatches_nothing() {
    let bands = partition(0, 4);
    assert!(bands.is_empty());
}
