//! The memoizing, cycle-detecting query database.
//!
//! One method per registered query, each implementing the same
//! protocol: consult the query's cache; on a miss, push the call's tag
//! onto the stack and into the in-flight set — detecting a cycle if the
//! very same call is already running — then run the query's function,
//! cache what it returned, and restore the bookkeeping. For one
//! database and fixed arguments a query's function runs at most once;
//! every caller after the first is served from the cache.

use vstd::prelude::*;
use crate::hir::seq_extends;
use crate::table::{
    table_find, table_correct, lemma_table_find_correct, lemma_table_find_push,
    lemma_table_find_extends, lemma_push_contains, seq_count, lemma_seq_count_contains,
    lemma_seq_count_distinct,
};

verus! {

/// Why a query call can fail: the same query with the same arguments
/// was already executing further down the call stack, so its value
/// would depend on itself.
#[derive(Clone, Copy, Debug, PartialEq, Eq, Structural)]
pub enum QueryError {
    /// The call re-entered itself with identical arguments.
    Cycle,
}

/// A tag identifying one query invocation: which query, with which
/// arguments. Two tags are equal exactly when query and arguments
/// agree; the tag is the unit of cycle detection.
#[derive(Clone, Copy, Debug, PartialEq, Eq, Structural)]
pub enum QueryTag {
    /// The `square` query.
    Square(i32),
    /// The `sum_to` query.
    SumTo(u32),
    /// The `cyclic` query.
    Cyclic(i32),
    /// The `mirror` query.
    Mirror(bool),
}

/// What `square` returns: the square of its argument.
pub open spec fn square_value(x: i32) -> Result<i32, QueryError> {
    Ok(((x as int) * (x as int)) as i32)
}

/// The sum of the first `n` naturals.
pub open spec fn triangular(n: nat) -> nat
    decreases n,
{
    if n == 0 {
        0
    } else {
        n + triangular((n - 1) as nat)
    }
}

/// What `sum_to` returns: the sum of the first `n` naturals.
pub open spec fn sum_to_value(n: u32) -> Result<u64, QueryError> {
    Ok(triangular(n as nat) as u64)
}

/// What `cyclic` returns: its definition asks for itself, so every
/// call ends in a detected cycle.
pub open spec fn cyclic_value(x: i32) -> Result<i32, QueryError> {
    Err(QueryError::Cycle)
}

/// What `mirror` returns: `mirror(b)` asks for `mirror(!b)`, which asks
/// for `mirror(b)` again — a cycle through two distinct calls.
pub open spec fn mirror_value(b: bool) -> Result<i32, QueryError> {
    Err(QueryError::Cycle)
}

/// The query caches and the bookkeeping for reentrancy and cycle
/// detection, owned by one database for one whole run; caches are never
/// evicted.
pub struct QueryStorage {
    /// The tags of the currently executing queries, outermost first.
    pub stack: Vec<QueryTag>,
    /// The set of currently executing queries, for the cycle check.
    pub inflight: Vec<QueryTag>,
    /// Every execution of a query function, in order: the observable
    /// record that memoization never runs one twice.
    pub executed: Vec<QueryTag>,
    /// Cached results of the `square` query.
    pub cached_square: Vec<(i32, Result<i32, QueryError>)>,
    /// Cached results of the `sum_to` query.
    pub cached_sum_to: Vec<(u32, Result<u64, QueryError>)>,
    /// Cached results of the `cyclic` query.
    pub cached_cyclic: Vec<(i32, Result<i32, QueryError>)>,
    /// Cached results of the `mirror` query.
    pub cached_mirror: Vec<(bool, Result<i32, QueryError>)>,
}

impl QueryStorage {
    /// The tags whose results are cached.
    pub open spec fn is_cached(self, t: QueryTag) -> bool {
        match t {
            QueryTag::Square(x) => table_find(self.cached_square@, x) is Some,
            QueryTag::SumTo(n) => table_find(self.cached_sum_to@, n) is Some,
            QueryTag::Cyclic(x) => table_find(self.cached_cyclic@, x) is Some,
            QueryTag::Mirror(b) => table_find(self.cached_mirror@, b) is Some,
        }
    }

    /// Internal consistency: the in-flight set holds exactly the tags
    /// on the stack; every cached value is the one its query's
    /// definition gives; and the execution record never repeats a tag
    /// and never runs ahead of what is cached or in flight.
    pub open spec fn wf(self) -> bool {
        &&& forall|t: QueryTag| #[trigger] self.inflight@.contains(t) ==> self.stack@.contains(t)
        &&& forall|t: QueryTag| #[trigger] self.stack@.contains(t) ==> self.inflight@.contains(t)
        &&& table_correct(self.cached_square@, |x: i32| square_value(x))
        &&& table_correct(self.cached_sum_to@, |n: u32| sum_to_value(n))
        &&& table_correct(self.cached_cyclic@, |x: i32| cyclic_value(x))
        &&& table_correct(self.cached_mirror@, |b: bool| mirror_value(b))
        &&& forall|e: int|
            0 <= e < self.executed@.len() ==> self.is_cached(#[trigger] self.executed@[e])
                || self.inflight@.contains(self.executed@[e])
        &&& forall|a: int, b: int|
            0 <= a < b < self.executed@.len() ==> self.executed@[a] != self.executed@[b]
    }

    /// Nothing observable about the storage differs.
    pub open spec fn unchanged(self, post: QueryStorage) -> bool {
        &&& post.stack@ == self.stack@
        &&& post.inflight@ == self.inflight@
        &&& post.executed@ == self.executed@
        &&& post.cached_square@ == self.cached_square@
        &&& post.cached_sum_to@ == self.cached_sum_to@
        &&& post.cached_cyclic@ == self.cached_cyclic@
        &&& post.cached_mirror@ == self.cached_mirror@
    }

    /// What every finished query call leaves of the storage: stack and
    /// in-flight set restored, the execution record and the caches only
    /// appended to.
    pub open spec fn evolves_to(self, post: QueryStorage) -> bool {
        &&& post.stack@ == self.stack@
        &&& post.inflight@ == self.inflight@
        &&& seq_extends(post.executed@, self.executed@)
        &&& seq_extends(post.cached_square@, self.cached_square@)
        &&& seq_extends(post.cached_sum_to@, self.cached_sum_to@)
        &&& seq_extends(post.cached_cyclic@, self.cached_cyclic@)
        &&& seq_extends(post.cached_mirror@, self.cached_mirror@)
    }

    /// The stack of currently executing queries, outermost first.
    pub fn stack(&self) -> (r: &Vec<QueryTag>)
        ensures
            r@ == self.stack@,
    {
        &self.stack
    }

    /// The set of currently executing queries.
    pub fn inflight(&self) -> (r: &Vec<QueryTag>)
        ensures
            r@ == self.inflight@,
    {
        &self.inflight
    }

    /// The record of query function executions, in order.
    pub fn executed(&self) -> (r: &Vec<QueryTag>)
        ensures
            r@ == self.executed@,
    {
        &self.executed
    }
}

/// Linear search of a cache with `i32` keys, preferring the most
/// recent entry.
fn lookup_i32<V: Copy>(entries: &Vec<(i32, V)>, key: i32) -> (r: Option<V>)
    ensures
        r == table_find(entries@, key),
{
    let mut i: usize = entries.len();
    proof {
        assert(entries@.take(entries@.len() as int) =~= entries@);
    }
    while i > 0
        invariant
            i <= entries@.len(),
            table_find(entries@, key) == table_find(entries@.take(i as int), key),
        decreases i,
    {
        i = i - 1;
        let e = &entries[i];
        proof {
            assert(entries@.take(i + 1).last() == entries@[i as int]);
            assert(entries@.take(i + 1).drop_last() =~= entries@.take(i as int));
        }
        if e.0 == key {
            return Some(e.1);
        }
    }
    proof {
        assert(entries@.take(0).len() == 0);
    }
    None
}

/// Linear search of a cache with `u32` keys.
fn lookup_u32<V: Copy>(entries: &Vec<(u32, V)>, key: u32) -> (r: Option<V>)
    ensures
        r == table_find(entries@, key),
{
    let mut i: usize = entries.len();
    proof {
        assert(entries@.take(entries@.len() as int) =~= entries@);
    }
    while i > 0
        invariant
            i <= entries@.len(),
            table_find(entries@, key) == table_find(entries@.take(i as int), key),
        decreases i,
    {
        i = i - 1;
        let e = &entries[i];
        proof {
            assert(entries@.take(i + 1).last() == entries@[i as int]);
            assert(entries@.take(i + 1).drop_last() =~= entries@.take(i as int));
        }
        if e.0 == key {
            return Some(e.1);
        }
    }
    proof {
        assert(entries@.take(0).len() == 0);
    }
    None
}

/// Linear search of a cache with `bool` keys.
fn lookup_bool<V: Copy>(entries: &Vec<(bool, V)>, key: bool) -> (r: Option<V>)
    ensures
        r == table_find(entries@, key),
{
    let mut i: usize = entries.len();
    proof {
        assert(entries@.take(entries@.len() as int) =~= entries@);
    }
    while i > 0
        invariant
            i <= entries@.len(),
            table_find(entries@, key) == table_find(entries@.take(i as int), key),
        decreases i,
    {
        i = i - 1;
        let e = &entries[i];
        proof {
            assert(entries@.take(i + 1).last() == entries@[i as int]);
            assert(entries@.take(i + 1).drop_last() =~= entries@.take(i as int));
        }
        if e.0 == key {
            return Some(e.1);
        }
    }
    proof {
        assert(entries@.take(0).len() == 0);
    }
    None
}

/// Whether a tag is in the given bookkeeping list.
fn contains_tag(v: &Vec<QueryTag>, t: QueryTag) -> (r: bool)
    ensures
        r == v@.contains(t),
{
    let mut i: usize = 0;
    while i < v.len()
        invariant
            i <= v@.len(),
            forall|j: int| 0 <= j < i ==> v@[j] != t,
        decreases v@.len() - i,
    {
        if v[i] == t {
            return true;
        }
        i = i + 1;
    }
    false
}

/// The query database: one memoized method per registered query, all
/// of them following the cache-check → cycle-guard → execute → store
/// protocol over the same storage.
pub struct QueryDatabase {
    /// The caches and runtime bookkeeping.
    pub storage: QueryStorage,
}

impl QueryDatabase {
    /// The database's storage is internally consistent.
    pub open spec fn wf(self) -> bool {
        self.storage.wf()
    }

    /// A fresh database: nothing cached, nothing running, nothing
    /// executed yet.
    pub fn new() -> (db: QueryDatabase)
        ensures
            db.wf(),
            db.storage.stack@.len() == 0,
            db.storage.inflight@.len() == 0,
            db.storage.executed@.len() == 0,
            db.storage.cached_square@.len() == 0,
            db.storage.cached_sum_to@.len() == 0,
            db.storage.cached_cyclic@.len() == 0,
            db.storage.cached_mirror@.len() == 0,
    {
        QueryDatabase {
            storage: QueryStorage {
                stack: Vec::new(),
                inflight: Vec::new(),
                executed: Vec::new(),
                cached_square: Vec::new(),
                cached_sum_to: Vec::new(),
                cached_cyclic: Vec::new(),
                cached_mirror: Vec::new(),
            },
        }
    }

    /// The query caches and runtime bookkeeping.
    pub fn storage(&self) -> (r: &QueryStorage)
        ensures
            *r == self.storage,
    {
        &self.storage
    }

    /// The `square` query: the square of its argument. Memoized: the
    /// function body runs at most once per argument; later calls are
    /// served from the cache, unchanged.
    pub fn square(&mut self, x: i32) -> (r: Result<i32, QueryError>)
        requires
            old(self).wf(),
            -46340 <= x <= 46340,
        ensures
            final (self).wf(),
            old(self).storage.evolves_to(final (self).storage),
            !old(self).storage.inflight@.contains(QueryTag::Square(x)) ==> r == square_value(x),
            table_find(old(self).storage.cached_square@, x) matches Some(v) ==> r == v,
            final (self).storage.cached_sum_to@ == old(self).storage.cached_sum_to@,
            final (self).storage.cached_cyclic@ == old(self).storage.cached_cyclic@,
            final (self).storage.cached_mirror@ == old(self).storage.cached_mirror@,
            table_find(old(self).storage.cached_square@, x) is Some ==> old(
                self,
            ).storage.unchanged(final (self).storage),
            table_find(old(self).storage.cached_square@, x) is None && old(
                self,
            ).storage.inflight@.contains(QueryTag::Square(x)) ==> r == Err::<
                i32,
                QueryError,
            >(QueryError::Cycle) && old(self).storage.unchanged(final (self).storage),
            table_find(old(self).storage.cached_square@, x) is None && !old(
                self,
            ).storage.inflight@.contains(QueryTag::Square(x)) ==> {
                &&& final (self).storage.cached_square@
                    == old(self).storage.cached_square@.push((x, square_value(x)))
                &&& final (self).storage.executed@ == old(self).storage.executed@.push(
                    QueryTag::Square(x),
                )
            },
    {
        let tag = QueryTag::Square(x);
        // Fast path: already cached — no stack traffic at all.
        if let Some(v) = lookup_i32(&self.storage.cached_square, x) {
            proof {
                lemma_table_find_correct(
                    self.storage.cached_square@,
                    |k: i32| square_value(k),
                    x,
                );
            }
            return v;
        }
        // Cycle guard: push the tag, and fail hard if this exact call
        // is already in flight.
        self.storage.stack.push(tag);
        if contains_tag(&self.storage.inflight, tag) {
            self.storage.stack.pop();
            proof {
                assert(self.storage.stack@ =~= old(self).storage.stack@);
            }
            return Err(QueryError::Cycle);
        }
        self.storage.inflight.push(tag);
        self.storage.executed.push(tag);
        proof {
            lemma_wf_after_admit(old(self).storage, self.storage, tag);
        }
        // Execute the query's own function.
        let result = square_impl(x);
        let ghost mid: QueryStorage = self.storage;
        // Store the result, then restore the bookkeeping.
        self.storage.cached_square.push((x, result));
        self.storage.inflight.pop();
        self.storage.stack.pop();
        proof {
            assert(self.storage.inflight@ =~= old(self).storage.inflight@);
            assert(self.storage.stack@ =~= old(self).storage.stack@);
            assert forall|e: int|
                0 <= e < self.storage.cached_square@.len() implies (
            #[trigger] self.storage.cached_square@[e]).1 == (|k: i32| square_value(k))(
                self.storage.cached_square@[e].0,
            ) by {
                if e < mid.cached_square@.len() {
                    assert(mid.cached_square@[e].1 == (|k: i32| square_value(k))(
                        mid.cached_square@[e].0,
                    ));
                }
            }
            lemma_table_find_push(mid.cached_square@, x, result, x);
            lemma_wf_after_restore(old(self).storage, mid, self.storage, tag);
        }
        result
    }
}

/// The registered function of the `square` query: a pure function of
/// its argument alone.
fn square_impl(x: i32) -> (r: Result<i32, QueryError>)
    requires
        -46340 <= x <= 46340,
    ensures
        r == square_value(x),
{
    proof {
        assert((x as int) * (x as int) <= 46340 * 46340 && (x as int) * (x as int)
            >= 0) by (nonlinear_arith)
            requires
                -46340 <= x <= 46340,
        ;
    }
    Ok(x * x)
}

/// After a missed cache lookup admits a tag — stack and in-flight
/// pushed together, the execution recorded — the storage is consistent
/// again.
proof fn lemma_wf_after_admit(pre: QueryStorage, post: QueryStorage, tag: QueryTag)
    requires
        pre.wf(),
        !pre.inflight@.contains(tag),
        !pre.is_cached(tag),
        post.stack@ == pre.stack@.push(tag),
        post.inflight@ == pre.inflight@.push(tag),
        post.executed@ == pre.executed@.push(tag),
        post.cached_square@ == pre.cached_square@,
        post.cached_sum_to@ == pre.cached_sum_to@,
        post.cached_cyclic@ == pre.cached_cyclic@,
        post.cached_mirror@ == pre.cached_mirror@,
    ensures
        post.wf(),
        post.inflight@.contains(tag),
{
    assert forall|t: QueryTag| #[trigger] post.inflight@.contains(t) implies post.stack@.contains(
        t,
    ) by {
        lemma_push_contains(pre.inflight@, tag, t);
        lemma_push_contains(pre.stack@, tag, t);
    }
    assert forall|t: QueryTag| #[trigger] post.stack@.contains(t) implies post.inflight@.contains(
        t,
    ) by {
        lemma_push_contains(pre.inflight@, tag, t);
        lemma_push_contains(pre.stack@, tag, t);
    }
    assert forall|e: int| 0 <= e < post.executed@.len() implies post.is_cached(
        #[trigger] post.executed@[e],
    ) || post.inflight@.contains(post.executed@[e]) by {
        lemma_push_contains(pre.inflight@, tag, post.executed@[e]);
        if e < pre.executed@.len() {
            assert(pre.is_cached(pre.executed@[e]) || pre.inflight@.contains(pre.executed@[e]));
        } else {
            assert(post.executed@[e] == tag);
        }
    }
    assert forall|a: int, b: int|
        0 <= a < b < post.executed@.len() implies post.executed@[a] != post.executed@[b] by {
        assert(post.executed@[a] == pre.executed@[a]);
        if b == pre.executed@.len() as int {
            assert(post.executed@[b] == tag);
            assert(pre.is_cached(pre.executed@[a]) || pre.inflight@.contains(pre.executed@[a]));
        } else {
            assert(post.executed@[b] == pre.executed@[b]);
            assert(pre.executed@[a] != pre.executed@[b]);
        }
    }
    lemma_push_contains(pre.inflight@, tag, tag);
}

/// After a query's result is cached and stack and in-flight set are
/// restored, the storage is consistent again. `mid` is the storage as
/// the query's own function left it; `post` differs from `mid` only by
/// the new cache entry and the restored bookkeeping.
proof fn lemma_wf_after_restore(
    pre: QueryStorage,
    mid: QueryStorage,
    post: QueryStorage,
    tag: QueryTag,
)
    requires
        pre.wf(),
        mid.wf(),
        !pre.inflight@.contains(tag),
        mid.stack@ == pre.stack@.push(tag),
        mid.inflight@ == pre.inflight@.push(tag),
        post.stack@ == pre.stack@,
        post.inflight@ == pre.inflight@,
        post.executed@ == mid.executed@,
        seq_extends(post.cached_square@, mid.cached_square@),
        seq_extends(post.cached_sum_to@, mid.cached_sum_to@),
        seq_extends(post.cached_cyclic@, mid.cached_cyclic@),
        seq_extends(post.cached_mirror@, mid.cached_mirror@),
        table_correct(post.cached_square@, |x: i32| square_value(x)),
        table_correct(post.cached_sum_to@, |n: u32| sum_to_value(n)),
        table_correct(post.cached_cyclic@, |x: i32| cyclic_value(x)),
        table_correct(post.cached_mirror@, |b: bool| mirror_value(b)),
        post.is_cached(tag),
    ensures
        post.wf(),
{
    assert forall|e: int| 0 <= e < post.executed@.len() implies post.is_cached(
        #[trigger] post.executed@[e],
    ) || post.inflight@.contains(post.executed@[e]) by {
        let t = post.executed@[e];
        assert(mid.is_cached(t) || mid.inflight@.contains(t));
        if mid.is_cached(t) {
            match t {
                QueryTag::Square(k) => {
                    lemma_table_find_extends(
                        mid.cached_square@,
                        post.cached_square@,
                        |x: i32| square_value(x),
                        k,
                    );
                },
                QueryTag::SumTo(k) => {
                    lemma_table_find_extends(
                        mid.cached_sum_to@,
                        post.cached_sum_to@,
                        |n: u32| sum_to_value(n),
                        k,
                    );
                },
                QueryTag::Cyclic(k) => {
                    lemma_table_find_extends(
                        mid.cached_cyclic@,
                        post.cached_cyclic@,
                        |x: i32| cyclic_value(x),
                        k,
                    );
                },
                QueryTag::Mirror(k) => {
                    lemma_table_find_extends(
                        mid.cached_mirror@,
                        post.cached_mirror@,
                        |b: bool| mirror_value(b),
                        k,
                    );
                },
            }
        } else {
            lemma_push_contains(pre.inflight@, tag, t);
        }
    }
    assert forall|a: int, b: int|
        0 <= a < b < post.executed@.len() implies post.executed@[a] != post.executed@[b] by {
        assert(mid.executed@[a] != mid.executed@[b]);
    }
}

/// The sum of the first `n` naturals is at most `n` squared.
pub proof fn lemma_triangular_le_square(n: nat)
    ensures
        triangular(n) <= n * n,
    decreases n,
{
    if n > 0 {
        lemma_triangular_le_square((n - 1) as nat);
        assert(n as int + ((n - 1) as int) * ((n - 1) as int) <= (n as int) * (
        n as int)) by (nonlinear_arith)
            requires
                n >= 1,
        ;
    }
}

impl QueryDatabase {
    /// The `sum_to` query: the sum of the naturals up to `n`, computed
    /// by asking itself about `n - 1`. Recursion with a smaller
    /// argument is a different tag, so it memoizes level by level and
    /// is no cycle.
    pub fn sum_to(&mut self, n: u32) -> (r: Result<u64, QueryError>)
        requires
            old(self).wf(),
            forall|m: u32|
                m <= n ==> !(#[trigger] old(self).storage.inflight@.contains(
                    QueryTag::SumTo(m),
                )),
        ensures
            final (self).wf(),
            old(self).storage.evolves_to(final (self).storage),
            r == sum_to_value(n),
            table_find(old(self).storage.cached_sum_to@, n) matches Some(v) ==> r == v,
            final (self).storage.cached_square@ == old(self).storage.cached_square@,
            final (self).storage.cached_cyclic@ == old(self).storage.cached_cyclic@,
            final (self).storage.cached_mirror@ == old(self).storage.cached_mirror@,
            table_find(old(self).storage.cached_sum_to@, n) is Some ==> old(
                self,
            ).storage.unchanged(final (self).storage),
            table_find(old(self).storage.cached_sum_to@, n) is None ==> table_find(
                final (self).storage.cached_sum_to@,
                n,
            ) == Some(sum_to_value(n)) && final (self).storage.executed@.contains(
                QueryTag::SumTo(n),
            ),
        decreases n, 1int,
    {
        let tag = QueryTag::SumTo(n);
        if let Some(v) = lookup_u32(&self.storage.cached_sum_to, n) {
            proof {
                lemma_table_find_correct(
                    self.storage.cached_sum_to@,
                    |k: u32| sum_to_value(k),
                    n,
                );
            }
            return v;
        }
        self.storage.stack.push(tag);
        if contains_tag(&self.storage.inflight, tag) {
            // Unreachable under this query's contract; the protocol is
            // uniform all the same.
            self.storage.stack.pop();
            proof {
                assert(self.storage.stack@ =~= old(self).storage.stack@);
            }
            return Err(QueryError::Cycle);
        }
        self.storage.inflight.push(tag);
        self.storage.executed.push(tag);
        proof {
            lemma_wf_after_admit(old(self).storage, self.storage, tag);
            assert forall|m: u32| m < n implies !(#[trigger] self.storage.inflight@.contains(
                QueryTag::SumTo(m),
            )) by {
                lemma_push_contains(old(self).storage.inflight@, tag, QueryTag::SumTo(m));
            }
        }
        let result = self.sum_to_impl(n);
        let ghost mid: QueryStorage = self.storage;
        self.storage.cached_sum_to.push((n, result));
        self.storage.inflight.pop();
        self.storage.stack.pop();
        proof {
            assert(self.storage.inflight@ =~= old(self).storage.inflight@);
            assert(self.storage.stack@ =~= old(self).storage.stack@);
            assert forall|e: int|
                0 <= e < self.storage.cached_sum_to@.len() implies (
            #[trigger] self.storage.cached_sum_to@[e]).1 == (|k: u32| sum_to_value(k))(
                self.storage.cached_sum_to@[e].0,
            ) by {
                if e < mid.cached_sum_to@.len() {
                    assert(mid.cached_sum_to@[e].1 == (|k: u32| sum_to_value(k))(
                        mid.cached_sum_to@[e].0,
                    ));
                }
            }
            lemma_table_find_push(mid.cached_sum_to@, n, result, n);
            lemma_wf_after_restore(old(self).storage, mid, self.storage, tag);
            assert(table_find(self.storage.cached_sum_to@, n) == Some(result));
            assert(self.storage.executed@[old(self).storage.executed@.len() as int] == tag);
            assert(self.storage.executed@.contains(tag));
        }
        result
    }

    /// The registered function of the `sum_to` query. Zero sums to
    /// zero; anything else adds itself to the sum below it, obtained by
    /// re-entering the database.
    fn sum_to_impl(&mut self, n: u32) -> (r: Result<u64, QueryError>)
        requires
            old(self).wf(),
            forall|m: u32|
                m < n ==> !(#[trigger] old(self).storage.inflight@.contains(
                    QueryTag::SumTo(m),
                )),
        ensures
            final (self).wf(),
            old(self).storage.evolves_to(final (self).storage),
            r == sum_to_value(n),
            final (self).storage.cached_square@ == old(self).storage.cached_square@,
            final (self).storage.cached_cyclic@ == old(self).storage.cached_cyclic@,
            final (self).storage.cached_mirror@ == old(self).storage.cached_mirror@,
        decreases n, 0int,
    {
        if n == 0 {
            return Ok(0);
        }
        let sub = self.sum_to(n - 1);
        match sub {
            Ok(v) => {
                proof {
                    lemma_triangular_le_square((n - 1) as nat);
                    lemma_triangular_le_square(n as nat);
                    assert((n as int) * (n as int)
                        <= 18446744073709551615int) by (nonlinear_arith)
                        requires
                            1 <= n <= 4294967295int,
                    ;
                    assert(triangular(n as nat) <= 18446744073709551615int);
                    assert(triangular((n - 1) as nat) <= 18446744073709551615int);
                    assert(v as int == triangular((n - 1) as nat));
                    assert(triangular(n as nat) == n + triangular((n - 1) as nat));
                }
                Ok(v + n as u64)
            },
            Err(e) => Err(e),
        }
    }
}

/// Whether the mirrored partner call would do no work of its own:
/// its result already cached, or the call itself already running.
pub open spec fn mirror_partner_settled(s: QueryStorage, b: bool) -> bool {
    s.is_cached(QueryTag::Mirror(!b)) || s.inflight@.contains(QueryTag::Mirror(!b))
}

/// One where the measure is whether this very call is already running:
/// what `cyclic`'s cycle detection turns on.
pub open spec fn cyclic_missing(s: QueryStorage, x: i32) -> int {
    if s.inflight@.contains(QueryTag::Cyclic(x)) {
        0int
    } else {
        1int
    }
}

/// How many of the two `mirror` calls are not yet running: the measure
/// that shrinks as `mirror` chases its own reflection.
pub open spec fn mirror_missing(s: QueryStorage) -> int {
    (if s.inflight@.contains(QueryTag::Mirror(true)) {
        0int
    } else {
        1int
    }) + (if s.inflight@.contains(QueryTag::Mirror(false)) {
        0int
    } else {
        1int
    })
}

impl QueryDatabase {
    /// The `cyclic` query: its definition asks for its own value, so
    /// the database detects the re-entered call — before any runaway
    /// recursion — and the result is the cycle error, cached like any
    /// other result.
    pub fn cyclic(&mut self, x: i32) -> (r: Result<i32, QueryError>)
        requires
            old(self).wf(),
        ensures
            final (self).wf(),
            old(self).storage.evolves_to(final (self).storage),
            r == cyclic_value(x),
            table_find(old(self).storage.cached_cyclic@, x) matches Some(v) ==> r == v,
            final (self).storage.cached_square@ == old(self).storage.cached_square@,
            final (self).storage.cached_sum_to@ == old(self).storage.cached_sum_to@,
            final (self).storage.cached_mirror@ == old(self).storage.cached_mirror@,
            table_find(old(self).storage.cached_cyclic@, x) is Some ==> old(
                self,
            ).storage.unchanged(final (self).storage),
            old(self).storage.inflight@.contains(QueryTag::Cyclic(x)) ==> old(
                self,
            ).storage.unchanged(final (self).storage),
            table_find(old(self).storage.cached_cyclic@, x) is None && !old(
                self,
            ).storage.inflight@.contains(QueryTag::Cyclic(x)) ==> {
                &&& final (self).storage.cached_cyclic@
                    == old(self).storage.cached_cyclic@.push((x, cyclic_value(x)))
                &&& final (self).storage.executed@ == old(self).storage.executed@.push(
                    QueryTag::Cyclic(x),
                )
            },
        decreases cyclic_missing(old(self).storage, x), 0int,
    {
        let tag = QueryTag::Cyclic(x);
        if let Some(v) = lookup_i32(&self.storage.cached_cyclic, x) {
            proof {
                lemma_table_find_correct(
                    self.storage.cached_cyclic@,
                    |k: i32| cyclic_value(k),
                    x,
                );
            }
            return v;
        }
        self.storage.stack.push(tag);
        if contains_tag(&self.storage.inflight, tag) {
            // The cycle: this exact call is already running further
            // down the stack.
            self.storage.stack.pop();
            proof {
                assert(self.storage.stack@ =~= old(self).storage.stack@);
            }
            return Err(QueryError::Cycle);
        }
        self.storage.inflight.push(tag);
        self.storage.executed.push(tag);
        proof {
            lemma_wf_after_admit(old(self).storage, self.storage, tag);
            lemma_push_contains(old(self).storage.inflight@, tag, tag);
        }
        let result = self.cyclic_impl(x);
        let ghost mid: QueryStorage = self.storage;
        self.storage.cached_cyclic.push((x, result));
        self.storage.inflight.pop();
        self.storage.stack.pop();
        proof {
            assert(self.storage.inflight@ =~= old(self).storage.inflight@);
            assert(self.storage.stack@ =~= old(self).storage.stack@);
            assert forall|e: int|
                0 <= e < self.storage.cached_cyclic@.len() implies (
            #[trigger] self.storage.cached_cyclic@[e]).1 == (|k: i32| cyclic_value(k))(
                self.storage.cached_cyclic@[e].0,
            ) by {
                if e < mid.cached_cyclic@.len() {
                    assert(mid.cached_cyclic@[e].1 == (|k: i32| cyclic_value(k))(
                        mid.cached_cyclic@[e].0,
                    ));
                }
            }
            lemma_table_find_push(mid.cached_cyclic@, x, result, x);
            lemma_wf_after_restore(old(self).storage, mid, self.storage, tag);
        }
        result
    }

    /// The registered function of the `cyclic` query: it asks the
    /// database for `cyclic(x)` — itself — and passes on what it gets,
    /// which is always the detected cycle.
    fn cyclic_impl(&mut self, x: i32) -> (r: Result<i32, QueryError>)
        requires
            old(self).wf(),
            old(self).storage.inflight@.contains(QueryTag::Cyclic(x)),
        ensures
            final (self).wf(),
            old(self).storage.unchanged(final (self).storage),
            r == cyclic_value(x),
        decreases cyclic_missing(old(self).storage, x), 1int,
    {
        let again = self.cyclic(x);
        again
    }

    /// The `mirror` query: `mirror(b)` asks for `mirror(!b)`, which
    /// asks for `mirror(b)` again. The arguments differ call to call,
    /// so neither call re-enters itself directly; the cycle closes one
    /// level down and is detected there, with the same tag appearing
    /// twice on the stack.
    pub fn mirror(&mut self, b: bool) -> (r: Result<i32, QueryError>)
        requires
            old(self).wf(),
        ensures
            final (self).wf(),
            old(self).storage.evolves_to(final (self).storage),
            r == mirror_value(b),
            table_find(old(self).storage.cached_mirror@, b) matches Some(v) ==> r == v,
            final (self).storage.cached_square@ == old(self).storage.cached_square@,
            final (self).storage.cached_sum_to@ == old(self).storage.cached_sum_to@,
            final (self).storage.cached_cyclic@ == old(self).storage.cached_cyclic@,
            table_find(old(self).storage.cached_mirror@, b) is Some ==> old(
                self,
            ).storage.unchanged(final (self).storage),
            old(self).storage.inflight@.contains(QueryTag::Mirror(b)) ==> old(
                self,
            ).storage.unchanged(final (self).storage),
            table_find(old(self).storage.cached_mirror@, b) is None && !old(
                self,
            ).storage.inflight@.contains(QueryTag::Mirror(b)) ==> {
                &&& final (self).storage.cached_mirror@ == (
                if mirror_partner_settled(old(self).storage, b) {
                    old(self).storage.cached_mirror@.push((b, mirror_value(b)))
                } else {
                    old(self).storage.cached_mirror@.push((!b, mirror_value(!b))).push(
                        (b, mirror_value(b)),
                    )
                })
                &&& final (self).storage.executed@ == (
                if mirror_partner_settled(old(self).storage, b) {
                    old(self).storage.executed@.push(QueryTag::Mirror(b))
                } else {
                    old(self).storage.executed@.push(QueryTag::Mirror(b)).push(
                        QueryTag::Mirror(!b),
                    )
                })
            },
        decreases mirror_missing(old(self).storage), 0int,
    {
        let tag = QueryTag::Mirror(b);
        if let Some(v) = lookup_bool(&self.storage.cached_mirror, b) {
            proof {
                lemma_table_find_correct(
                    self.storage.cached_mirror@,
                    |k: bool| mirror_value(k),
                    b,
                );
            }
            return v;
        }
        self.storage.stack.push(tag);
        if contains_tag(&self.storage.inflight, tag) {
            self.storage.stack.pop();
            proof {
                assert(self.storage.stack@ =~= old(self).storage.stack@);
            }
            return Err(QueryError::Cycle);
        }
        self.storage.inflight.push(tag);
        self.storage.executed.push(tag);
        proof {
            lemma_wf_after_admit(old(self).storage, self.storage, tag);
            lemma_push_contains(old(self).storage.inflight@, tag, tag);
            lemma_push_contains(old(self).storage.inflight@, tag, QueryTag::Mirror(!b));
        }
        let result = self.mirror_impl(b);
        let ghost mid: QueryStorage = self.storage;
        self.storage.cached_mirror.push((b, result));
        self.storage.inflight.pop();
        self.storage.stack.pop();
        proof {
            assert(self.storage.inflight@ =~= old(self).storage.inflight@);
            assert(self.storage.stack@ =~= old(self).storage.stack@);
            assert forall|e: int|
                0 <= e < self.storage.cached_mirror@.len() implies (
            #[trigger] self.storage.cached_mirror@[e]).1 == (|k: bool| mirror_value(k))(
                self.storage.cached_mirror@[e].0,
            ) by {
                if e < mid.cached_mirror@.len() {
                    assert(mid.cached_mirror@[e].1 == (|k: bool| mirror_value(k))(
                        mid.cached_mirror@[e].0,
                    ));
                }
            }
            lemma_table_find_push(mid.cached_mirror@, b, result, b);
            lemma_wf_after_restore(old(self).storage, mid, self.storage, tag);
        }
        result
    }

    /// The registered function of the `mirror` query: it asks the
    /// database for the mirrored call and passes on what it gets. The
    /// mirrored call closes the cycle, so this is always the detected
    /// cycle error.
    fn mirror_impl(&mut self, b: bool) -> (r: Result<i32, QueryError>)
        requires
            old(self).wf(),
            old(self).storage.inflight@.contains(QueryTag::Mirror(b)),
        ensures
            final (self).wf(),
            old(self).storage.evolves_to(final (self).storage),
            r == mirror_value(b),
            final (self).storage.cached_square@ == old(self).storage.cached_square@,
            final (self).storage.cached_sum_to@ == old(self).storage.cached_sum_to@,
            final (self).storage.cached_cyclic@ == old(self).storage.cached_cyclic@,
            mirror_partner_settled(old(self).storage, b) ==> old(self).storage.unchanged(
                final (self).storage,
            ),
            !mirror_partner_settled(old(self).storage, b) ==> {
                &&& final (self).storage.cached_mirror@
                    == old(self).storage.cached_mirror@.push((!b, mirror_value(!b)))
                &&& final (self).storage.executed@ == old(self).storage.executed@.push(
                    QueryTag::Mirror(!b),
                )
                &&& final (self).storage.stack@ == old(self).storage.stack@
                &&& final (self).storage.inflight@ == old(self).storage.inflight@
            },
        decreases mirror_missing(old(self).storage), 1int,
    {
        let across = self.mirror(!b);
        across
    }
}

/// Memoization, as recorded: a consistent database has executed any
/// one query invocation at most once, however many times it was asked.
pub proof fn lemma_executed_at_most_once(s: QueryStorage, t: QueryTag)
    requires
        s.wf(),
    ensures
        seq_count(s.executed@, t) <= 1,
{
    lemma_seq_count_distinct(s.executed@, t);
}

/// Argument sensitivity: distinct arguments live in distinct cache
/// entries, and a query call never disturbs a result that was already
/// cached — whatever was found before the call is found unchanged
/// after it.
pub proof fn lemma_cached_results_stable(pre: QueryStorage, post: QueryStorage)
    requires
        pre.wf(),
        post.wf(),
        pre.evolves_to(post),
    ensures
        forall|x: i32|
            #[trigger] table_find(pre.cached_square@, x) is Some ==> table_find(
                post.cached_square@,
                x,
            ) == table_find(pre.cached_square@, x),
        forall|n: u32|
            #[trigger] table_find(pre.cached_sum_to@, n) is Some ==> table_find(
                post.cached_sum_to@,
                n,
            ) == table_find(pre.cached_sum_to@, n),
        forall|x: i32|
            #[trigger] table_find(pre.cached_cyclic@, x) is Some ==> table_find(
                post.cached_cyclic@,
                x,
            ) == table_find(pre.cached_cyclic@, x),
        forall|b: bool|
            #[trigger] table_find(pre.cached_mirror@, b) is Some ==> table_find(
                post.cached_mirror@,
                b,
            ) == table_find(pre.cached_mirror@, b),
{
    assert forall|x: i32| #[trigger] table_find(pre.cached_square@, x) is Some implies table_find(
        post.cached_square@,
        x,
    ) == table_find(pre.cached_square@, x) by {
        lemma_table_find_extends(
            pre.cached_square@,
            post.cached_square@,
            |k: i32| square_value(k),
            x,
        );
    }
    assert forall|n: u32| #[trigger] table_find(pre.cached_sum_to@, n) is Some implies table_find(
        post.cached_sum_to@,
        n,
    ) == table_find(pre.cached_sum_to@, n) by {
        lemma_table_find_extends(
            pre.cached_sum_to@,
            post.cached_sum_to@,
            |k: u32| sum_to_value(k),
            n,
        );
    }
    assert forall|x: i32| #[trigger] table_find(pre.cached_cyclic@, x) is Some implies table_find(
        post.cached_cyclic@,
        x,
    ) == table_find(pre.cached_cyclic@, x) by {
        lemma_table_find_extends(
            pre.cached_cyclic@,
            post.cached_cyclic@,
            |k: i32| cyclic_value(k),
            x,
        );
    }
    assert forall|b: bool| #[trigger] table_find(pre.cached_mirror@, b) is Some implies table_find(
        post.cached_mirror@,
        b,
    ) == table_find(pre.cached_mirror@, b) by {
        lemma_table_find_extends(
            pre.cached_mirror@,
            post.cached_mirror@,
            |k: bool| mirror_value(k),
            b,
        );
    }
}

/// Cycle detection leaves its trace: at the moment of detection — the
/// tag found in flight just after being pushed — the stack holds that
/// tag at least twice.
pub proof fn lemma_cycle_stack_holds_tag_twice(s: QueryStorage, t: QueryTag)
    requires
        s.wf(),
        s.inflight@.contains(t),
    ensures
        seq_count(s.stack@.push(t), t) >= 2,
{
    lemma_seq_count_contains(s.stack@, t);
    assert(s.stack@.push(t).drop_last() =~= s.stack@);
    assert(s.stack@.push(t).last() == t);
}

} // verus!
