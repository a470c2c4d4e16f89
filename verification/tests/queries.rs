use querydb::query::{QueryDatabase, QueryError, QueryTag};

#[test]
fn square_twice_runs_once() {
    let mut db = QueryDatabase::new();
    assert_eq!(db.square(4), Ok(16));
    assert_eq!(db.square(4), Ok(16));
    // The function body ran exactly once; the second call was served
    // from the cache.
    assert_eq!(db.storage().executed().len(), 1);
    assert_eq!(db.storage().executed()[0], QueryTag::Square(4));
    // The bookkeeping is back at rest.
    assert_eq!(db.storage().stack().len(), 0);
    assert_eq!(db.storage().inflight().len(), 0);
}

#[test]
fn square_of_negative() {
    let mut db = QueryDatabase::new();
    assert_eq!(db.square(-5), Ok(25));
    assert_eq!(db.square(0), Ok(0));
}

#[test]
fn arguments_populate_independent_entries() {
    let mut db = QueryDatabase::new();
    assert_eq!(db.square(3), Ok(9));
    assert_eq!(db.square(4), Ok(16));
    // Computing square(4) did not disturb the cached square(3).
    assert_eq!(db.square(3), Ok(9));
    assert_eq!(db.storage().executed().len(), 2);
    assert_eq!(db.storage().cached_square.len(), 2);
}

#[test]
fn cyclic_call_is_detected() {
    let mut db = QueryDatabase::new();
    // cyclic(x) asks for cyclic(x): caught on the reentrant call, well
    // before any runaway recursion.
    assert_eq!(db.cyclic(7), Err(QueryError::Cycle));
    // The outcome is cached like any other: asking again does not run
    // the function a second time.
    assert_eq!(db.cyclic(7), Err(QueryError::Cycle));
    assert_eq!(db.storage().executed().len(), 1);
    assert_eq!(db.storage().cached_cyclic.len(), 1);
    assert_eq!(db.storage().cached_cyclic[0], (7, Err(QueryError::Cycle)));
    assert_eq!(db.storage().stack().len(), 0);
    assert_eq!(db.storage().inflight().len(), 0);
}

#[test]
fn mirrored_cycle_is_detected() {
    let mut db = QueryDatabase::new();
    // mirror(true) asks for mirror(false), which asks for mirror(true)
    // again: the same tag reappears and the cycle is caught.
    assert_eq!(db.mirror(true), Err(QueryError::Cycle));
    // Both halves of the reflection ran once and were cached: the
    // inner call settled first.
    assert_eq!(db.storage().executed().len(), 2);
    assert_eq!(db.storage().executed()[0], QueryTag::Mirror(true));
    assert_eq!(db.storage().executed()[1], QueryTag::Mirror(false));
    assert_eq!(db.storage().cached_mirror.len(), 2);
    assert_eq!(db.storage().cached_mirror[0], (false, Err(QueryError::Cycle)));
    assert_eq!(db.storage().cached_mirror[1], (true, Err(QueryError::Cycle)));
    // And the mirrored call is now served from the cache.
    assert_eq!(db.mirror(false), Err(QueryError::Cycle));
    assert_eq!(db.storage().executed().len(), 2);
    assert_eq!(db.storage().stack().len(), 0);
    assert_eq!(db.storage().inflight().len(), 0);
}

#[test]
fn recursion_with_distinct_arguments_completes() {
    let mut db = QueryDatabase::new();
    // sum_to(3) asks for sum_to(2), sum_to(1), sum_to(0): all distinct
    // tags, no cycle, and the chain completes normally.
    assert_eq!(db.sum_to(3), Ok(6));
    assert_eq!(db.sum_to(0), Ok(0));
    assert_eq!(db.sum_to(10), Ok(55));
}

#[test]
fn recursion_memoizes_level_by_level() {
    let mut db = QueryDatabase::new();
    assert_eq!(db.sum_to(3), Ok(6));
    // The chain executed 3, 2, 1, 0.
    assert_eq!(db.storage().executed().len(), 4);
    // sum_to(4) reuses the cached sum_to(3): one more execution only.
    assert_eq!(db.sum_to(4), Ok(10));
    assert_eq!(db.storage().executed().len(), 5);
    assert_eq!(db.storage().executed()[4], QueryTag::SumTo(4));
}

#[test]
fn queries_do_not_disturb_each_other() {
    let mut db = QueryDatabase::new();
    assert_eq!(db.square(6), Ok(36));
    assert_eq!(db.cyclic(6), Err(QueryError::Cycle));
    assert_eq!(db.sum_to(6), Ok(21));
    assert_eq!(db.square(6), Ok(36));
    assert_eq!(db.storage().cached_square.len(), 1);
}
