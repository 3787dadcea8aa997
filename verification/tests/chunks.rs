use heurs_core::chunks::Chunk;
use heurs_core::chunks::plan_chunks;

#[test]
fn five_cases_two_ways_make_chunks_of_three_and_two() {
    let chunks = plan_chunks(5, 2);
    assert_eq!(chunks, vec![Chunk { start: 0, end: 2 }, Chunk { start: 3, end: 4 }]);
}

#[test]
fn rounding_can_exhaust_the_cases_with_fewer_chunks() {
    let chunks = plan_chunks(5, 4);
    assert_eq!(
        chunks,
        vec![
            Chunk { start: 0, end: 1 },
            Chunk { start: 2, end: 3 },
            Chunk { start: 4, end: 4 },
        ]
    );
}

#[test]
fn no_cases_means_no_chunks() {
    assert_eq!(plan_chunks(0, 3), vec![]);
}

#[test]
fn more_parallelism_than_cases_gives_one_case_per_chunk() {
    let chunks = plan_chunks(3, 10);
    assert_eq!(
        chunks,
        vec![
            Chunk { start: 0, end: 0 },
            Chunk { start: 1, end: 1 },
            Chunk { start: 2, end: 2 },
        ]
    );
}

#[test]
fn ten_cases_three_ways() {
    let chunks = plan_chunks(10, 3);
    assert_eq!(
        chunks,
        vec![
            Chunk { start: 0, end: 3 },
            Chunk { start: 4, end: 7 },
            Chunk { start: 8, end: 9 },
        ]
    );
}

#[test]
fn single_case_single_chunk() {
    assert_eq!(plan_chunks(1, 1), vec![Chunk { start: 0, end: 0 }]);
}

#[test]
fn partition_covers_every_index_exactly_once() {
    for total in 0..40usize {
        for parallel in 1..10usize {
            let chunks = plan_chunks(total, parallel);
            let mut seen = vec![0usize; total];
            for c in &chunks {
                assert!(c.start <= c.end && c.end < total);
                for k in c.start..=c.end {
                    seen[k] += 1;
                }
            }
            for k in 0..total {
                assert_eq!(seen[k], 1);
            }
        }
    }
}
