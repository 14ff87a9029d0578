//! Identifiers of the nodes and edges of the code graph, and the counter that hands them out.
use vstd::prelude::*;

verus! {

/// Identifies a repository.
#[derive(Debug, Clone, Copy, PartialEq, Eq, Hash, PartialOrd, Structural)]
pub struct RepoId(pub u64);

/// Identifies a source file.
#[derive(Debug, Clone, Copy, PartialEq, Eq, Hash, PartialOrd, Ord, Structural)]
pub struct FileId(pub u64);

/// Identifies a symbol.
#[derive(Debug, Clone, Copy, PartialEq, Eq, Hash, PartialOrd, Structural)]
pub struct SymbolId(pub u64);

/// Identifies an edge of the graph.
#[derive(Debug, Clone, Copy, PartialEq, Eq, Hash, PartialOrd, Structural)]
pub struct EdgeId(pub u64);

/// A kind of identifier made from a raw number.
pub trait IdType: Sized {
    /// The raw number of the identifier.
    spec fn raw(self) -> u64;

    fn from_raw(id: u64) -> (r: Self)
        ensures
            r.raw() == id,
    ;
}

impl IdType for RepoId {
    open spec fn raw(self) -> u64 {
        self.0
    }

    fn from_raw(id: u64) -> (r: RepoId) {
        RepoId(id)
    }
}

impl IdType for FileId {
    open spec fn raw(self) -> u64 {
        self.0
    }

    fn from_raw(id: u64) -> (r: FileId) {
        FileId(id)
    }
}

impl IdType for SymbolId {
    open spec fn raw(self) -> u64 {
        self.0
    }

    fn from_raw(id: u64) -> (r: SymbolId) {
        SymbolId(id)
    }
}

impl IdType for EdgeId {
    open spec fn raw(self) -> u64 {
        self.0
    }

    fn from_raw(id: u64) -> (r: EdgeId) {
        EdgeId(id)
    }
}

/// The number handed out `k` calls after `first`, counting on a 64-bit counter that wraps.
pub open spec fn nth_id(first: u64, k: int) -> u64 {
    ((first + k) % 0x1_0000_0000_0000_0000) as u64
}

/// The counter from which identifiers are drawn; it starts at 1 and counts up by one on
/// every identifier handed out, wrapping around past `u64::MAX`.
pub struct IdGenerator {
    next: u64,
}

impl IdGenerator {
    /// The number that the next identifier will carry.
    pub closed spec fn upcoming(self) -> u64 {
        self.next
    }

    /// A counter that starts at 1.
    pub fn new() -> (g: IdGenerator)
        ensures
            g.upcoming() == 1,
    {
        IdGenerator { next: 1 }
    }

    /// Hands out the next raw number.
    pub fn next_raw(&mut self) -> (id: u64)
        ensures
            id == old(self).upcoming(),
            final(self).upcoming() == nth_id(old(self).upcoming(), 1),
    {
        let id = self.next;
        self.next = self.next.wrapping_add(1);
        id
    }
}

/// Draws a fresh identifier of any kind from the counter.
pub fn get_id<T: IdType>(ids: &mut IdGenerator) -> (r: T)
    ensures
        r.raw() == old(ids).upcoming(),
        final(ids).upcoming() == nth_id(old(ids).upcoming(), 1),
{
    T::from_raw(ids.next_raw())
}

/// Drawing `k` and then one more identifier is drawing `k + 1`.
pub proof fn lemma_nth_id_step(first: u64, k: int)
    requires
        k >= 0,
    ensures
        nth_id(nth_id(first, k), 1) == nth_id(first, k + 1),
{
}

/// Drawing `a` identifiers and then `b` more is drawing `a + b`.
pub proof fn lemma_nth_id_compose(first: u64, a: int, b: int)
    requires
        a >= 0,
        b >= 0,
    ensures
        nth_id(nth_id(first, a), b) == nth_id(first, a + b),
{
    vstd::arithmetic::div_mod::lemma_add_mod_noop_right(b, first + a, 0x1_0000_0000_0000_0000);
    assert(nth_id(first, a) as int == (first + a) % 0x1_0000_0000_0000_0000);
}

/// Identifiers drawn from one counter differ as long as fewer than 2^64 were drawn between
/// them; while the counter has not gone round they also grow, none below the first, so a
/// fresh counter (which starts at 1) never hands out 0.
pub proof fn lemma_ids_distinct(first: u64, j: int, k: int)
    requires
        0 <= j < k,
        k - j < 0x1_0000_0000_0000_0000,
    ensures
        nth_id(first, j) != nth_id(first, k),
        first + k <= u64::MAX ==> first <= nth_id(first, j) < nth_id(first, k),
{
    let m: int = 0x1_0000_0000_0000_0000;
    let a: int = first + j;
    let b: int = first + k;
    vstd::arithmetic::div_mod::lemma_fundamental_div_mod(a, m);
    vstd::arithmetic::div_mod::lemma_fundamental_div_mod(b, m);
    let qa = a / m;
    let qb = b / m;
    if a % m == b % m {
        assert(b - a == m * (qb - qa));
        assert(0 < m * (qb - qa) < m);
        assert(false) by (nonlinear_arith)
            requires
                0 < m * (qb - qa) < m,
                m > 0,
        ;
    }
    if first + k <= u64::MAX {
        vstd::arithmetic::div_mod::lemma_small_mod(a as nat, m as nat);
        vstd::arithmetic::div_mod::lemma_small_mod(b as nat, m as nat);
    }
}


/// The identifiers `nth_id(1, i)` that a fresh counter hands out (`IdGenerator::new` starts
/// at 1 and each `get_id` gives `upcoming()` and moves it on by one): the first `n` of them,
/// for fewer than 2^64 calls, are pairwise distinct and none is 0.
pub proof fn lemma_fresh_counter_ids(n: int)
    requires
        0 <= n < 0x1_0000_0000_0000_0000,
    ensures
        forall|i: int, j: int|
            0 <= i < n && 0 <= j < n && i != j ==> nth_id(1, i) != nth_id(1, j),
        forall|i: int| 0 <= i < n ==> #[trigger] nth_id(1, i) > 0,
{
    assert forall|i: int, j: int| 0 <= i < n && 0 <= j < n && i != j implies nth_id(1, i)
        != nth_id(1, j) by {
        if i < j {
            lemma_ids_distinct(1, i, j);
        } else {
            lemma_ids_distinct(1, j, i);
        }
    }
    assert forall|i: int| 0 <= i < n implies #[trigger] nth_id(1, i) > 0 by {
        if i + 1 < 0x1_0000_0000_0000_0000 {
            assert(nth_id(1, i) == 1 + i) by {
                vstd::arithmetic::div_mod::lemma_small_mod((1 + i) as nat, 0x1_0000_0000_0000_0000);
            }
        }
    }
}


proof fn lemma_draws_from_one(draws: Seq<u64>, k: int)
    requires
        0 <= k < draws.len(),
        draws[0] == 1,
        forall|i: int| 0 <= i < draws.len() - 1 ==> draws[i + 1] == nth_id(#[trigger] draws[i], 1),
    ensures
        draws[k] == nth_id(1, k),
    decreases k,
{
    if k == 0 {
        vstd::arithmetic::div_mod::lemma_small_mod(1, 0x1_0000_0000_0000_0000);
    } else {
        lemma_draws_from_one(draws, k - 1);
        lemma_nth_id_step(1, k - 1);
    }
}

/// Successive draws from a fresh counter are distinct and positive: when each draw is the
/// counter's `upcoming()` and moves it on by one (what `get_id` ensures), the first drawn from
/// `IdGenerator::new` being 1, fewer than 2^64 draws give pairwise distinct identifiers,
/// none of them 0.
pub proof fn lemma_successive_draws(draws: Seq<u64>)
    requires
        draws.len() < 0x1_0000_0000_0000_0000,
        draws.len() > 0 ==> draws[0] == 1,
        forall|i: int| 0 <= i < draws.len() - 1 ==> draws[i + 1] == nth_id(#[trigger] draws[i], 1),
    ensures
        forall|i: int, j: int|
            0 <= i < draws.len() && 0 <= j < draws.len() && i != j ==> draws[i] != draws[j],
        forall|i: int| 0 <= i < draws.len() ==> #[trigger] draws[i] > 0,
{
    lemma_fresh_counter_ids(draws.len() as int);
    assert forall|i: int| 0 <= i < draws.len() implies #[trigger] draws[i] == nth_id(1, i) by {
        lemma_draws_from_one(draws, i);
    }
    assert forall|i: int, j: int|
        0 <= i < draws.len() && 0 <= j < draws.len() && i != j implies draws[i] != draws[j] by {
        assert(draws[i] == nth_id(1, i));
        assert(draws[j] == nth_id(1, j));
    }
}

} // verus!
