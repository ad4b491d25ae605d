use grevm::atomic::{
    claim_before, rewind, PublishedCursorReader, RelaxedUsize, RewindableCursor,
    SpeculativeWorkCursor,
};

#[test]
fn rewindable_cursor_never_claims_past_its_limit() {
    let mut cursor = RewindableCursor::new(0);
    let mut claimed = Vec::new();
    for _ in 0..8 {
        while let Some(index) = cursor.claim_before(100) {
            claimed.push(index);
        }
    }
    claimed.sort_unstable();
    assert_eq!(claimed, (0..100).collect::<Vec<_>>());
    assert_eq!(cursor.get(), 100);
}

#[test]
fn rewindable_cursor_can_reissue_work() {
    let mut cursor = RewindableCursor::new(3);
    assert_eq!(cursor.rewind(1), 3);
    assert_eq!(cursor.claim_before(3), Some(1));
    assert_eq!(cursor.claim_before(3), Some(2));
    assert_eq!(cursor.claim_before(3), None);
}

#[test]
fn rewind_concurrent_with_claim_reissues_every_rewound_index() {
    // Both orders of one claim racing with one rewind.
    for claim_first in [true, false] {
        let mut cursor: usize = 1;
        let mut claims = Vec::new();
        if claim_first {
            claims.extend(claim_before(&mut cursor, 2));
        }
        rewind(&mut cursor, 0);
        if !claim_first {
            claims.extend(claim_before(&mut cursor, 2));
        }
        while let Some(index) = claim_before(&mut cursor, 2) {
            claims.push(index);
        }

        assert!(claims.iter().all(|&index| index < 2));
        assert!(claims.contains(&0), "rewound index must become claimable");
        assert!(claims.contains(&1), "the original position must remain claimable");
    }
}

#[test]
fn speculative_work_cursor_never_returns_an_out_of_range_claim() {
    let mut cursor = SpeculativeWorkCursor::new(0);
    for _ in 0..8 {
        while let Some(index) = cursor.claim_before(10) {
            assert!(index < 10);
        }
    }
    assert!(cursor.get() >= 10);
}

#[test]
fn a_stale_check_overshoots_without_an_out_of_range_claim() {
    let mut cursor = SpeculativeWorkCursor::new(9);
    assert_eq!(cursor.advance(10), Some(9));
    assert_eq!(cursor.advance(10), None);
    assert_eq!(cursor.get(), 11);
    cursor.rewind(4);
    assert_eq!(cursor.get(), 4);
    cursor.rewind(7);
    assert_eq!(cursor.claim_before(10), Some(4));
}

#[test]
fn readers_see_the_published_position() {
    let cursor: usize = 41;
    assert_eq!(PublishedCursorReader::new(&cursor).get(), 41);
}

#[test]
fn relaxed_counters_wrap() {
    let mut counter = RelaxedUsize::default();
    counter.increment();
    counter.add(4);
    assert_eq!(counter.get(), 5);
    counter.set(usize::MAX);
    counter.increment();
    assert_eq!(counter.get(), 0);
}
