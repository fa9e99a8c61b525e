//! Price levels and the aggregated summary of several order books: the
//! levels are merged, ordered best first (stably) and cut to the ten best on
//! each side.
//!
//! Prices and amounts are IEEE 754 binary64 numbers, held as their 64-bit
//! patterns: the library orders prices and never computes with them. The
//! order of two prices is that of their `price_order` keys, which rank the
//! patterns as the numbers they stand for compare: negative below positive,
//! by magnitude within a sign, and `-0` level with `+0`.

use vstd::prelude::*;
use vstd::seq_lib::to_multiset_insert;
use crate::common::ExchangeIdentifier;

verus! {

/// Most levels kept on each side of a summary.
pub const MAX_LEVELS: usize = 10;

/// The bit pattern of `-0`, which is also the sign bit.
pub const SIGN_BIT: u64 = 0x8000_0000_0000_0000;

/// One price level of an order book. `price` and `amount` are the bit
/// patterns of binary64 numbers.
#[derive(Debug, Clone, Copy, PartialEq, Eq, Structural)]
pub struct Level {
    pub exchange: ExchangeIdentifier,
    pub price: u64,
    pub amount: u64,
}

/// The aggregated view of one currency pair over some exchanges. The spread
/// (best ask minus best bid) is arithmetic on the prices and is taken by
/// whoever reads the summary.
#[derive(Debug, Clone, PartialEq, Eq)]
pub struct Summary {
    /// Best (highest) bid first.
    pub bids: Vec<Level>,
    /// Best (lowest) ask first.
    pub asks: Vec<Level>,
}

/// The rank of the price whose bit pattern is `p`: a non-negative pattern
/// (sign bit clear) ranks above every negative one and by its magnitude; a
/// negative one ranks lower the larger its magnitude; `-0` ranks with `+0`.
pub open spec fn price_order(p: u64) -> int {
    if p == SIGN_BIT {
        SIGN_BIT as int
    } else if p > SIGN_BIT {
        u64::MAX - p
    } else {
        p + SIGN_BIT
    }
}

/// `a` may stand before `b`: for bids (`descending`) a price at least as
/// high, for asks a price at least as low.
pub open spec fn goes_before(a: Level, b: Level, descending: bool) -> bool {
    if descending {
        price_order(a.price) >= price_order(b.price)
    } else {
        price_order(a.price) <= price_order(b.price)
    }
}

/// Ranks of prices: patterns of the same sign rank by magnitude (upwards
/// for non-negative, downwards for negative), every negative pattern but
/// `-0` ranks below every non-negative one, and two patterns rank alike
/// only when they are equal or are the two zeros.
pub proof fn lemma_price_order(p: u64, q: u64)
    ensures
        p < q < SIGN_BIT ==> price_order(p) < price_order(q),
        SIGN_BIT < p < q ==> price_order(q) < price_order(p),
        SIGN_BIT < p && q < SIGN_BIT ==> price_order(p) < price_order(q),
        price_order(p) == price_order(q) ==> p == q || (p == SIGN_BIT && q == 0) || (p == 0 && q == SIGN_BIT),
        0 <= price_order(p) <= u64::MAX,
{
}

/// The rank of the price whose bit pattern is `p`.
pub fn price_key(p: u64) -> (r: u64)
    ensures
        r == price_order(p),
{
    if p == SIGN_BIT {
        SIGN_BIT
    } else if p > SIGN_BIT {
        u64::MAX - p
    } else {
        p + SIGN_BIT
    }
}

/// Every level may stand before every later one.
pub open spec fn is_ordered(s: Seq<Level>, descending: bool) -> bool {
    forall|i: int, j: int| 0 <= i < j < s.len() ==> goes_before(#[trigger] s[i], #[trigger] s[j], descending)
}

/// Where `x` goes into `s`: after the leading levels that may stand before it.
pub open spec fn insert_position(s: Seq<Level>, x: Level, descending: bool) -> int
    decreases s.len(),
{
    if s.len() == 0 {
        0
    } else if goes_before(s[0], x, descending) {
        1 + insert_position(s.drop_first(), x, descending)
    } else {
        0
    }
}

/// `s` with `x` inserted after every leading level that may stand before it.
pub open spec fn insert_ordered(s: Seq<Level>, x: Level, descending: bool) -> Seq<Level> {
    s.insert(insert_position(s, x, descending), x)
}

/// Stable ordering of `s`, best first: insertion of each level in turn.
pub open spec fn sort_levels(s: Seq<Level>, descending: bool) -> Seq<Level>
    decreases s.len(),
{
    if s.len() == 0 {
        Seq::empty()
    } else {
        insert_ordered(sort_levels(s.drop_last(), descending), s.last(), descending)
    }
}

/// The at most `MAX_LEVELS` best levels of `s`, best first.
pub open spec fn best_levels(s: Seq<Level>, descending: bool) -> Seq<Level> {
    let t = sort_levels(s, descending);
    if t.len() <= MAX_LEVELS {
        t
    } else {
        t.take(MAX_LEVELS as int)
    }
}

proof fn lemma_insert_position_bounds(s: Seq<Level>, x: Level, descending: bool)
    ensures
        0 <= insert_position(s, x, descending) <= s.len(),
        forall|j: int| 0 <= j < insert_position(s, x, descending) ==> goes_before(s[j], x, descending),
        insert_position(s, x, descending) < s.len() ==> !goes_before(
            s[insert_position(s, x, descending)],
            x,
            descending,
        ),
    decreases s.len(),
{
    if s.len() > 0 && goes_before(s[0], x, descending) {
        lemma_insert_position_bounds(s.drop_first(), x, descending);
        let p = insert_position(s, x, descending);
        assert forall|j: int| 0 <= j < p implies goes_before(s[j], x, descending) by {
            if j > 0 {
                assert(s[j] == s.drop_first()[j - 1]);
            }
        }
        if p < s.len() {
            assert(s[p] == s.drop_first()[p - 1]);
        }
    }
}

proof fn lemma_insert_position_unique(s: Seq<Level>, x: Level, descending: bool, p: int)
    requires
        0 <= p <= s.len(),
        forall|j: int| 0 <= j < p ==> goes_before(s[j], x, descending),
        p < s.len() ==> !goes_before(s[p], x, descending),
    ensures
        insert_position(s, x, descending) == p,
    decreases s.len(),
{
    if p > 0 {
        assert(goes_before(s[0], x, descending));
        assert forall|j: int| 0 <= j < p - 1 implies goes_before(s.drop_first()[j], x, descending) by {
            assert(s.drop_first()[j] == s[j + 1]);
        }
        if p - 1 < s.len() - 1 {
            assert(s.drop_first()[p - 1] == s[p]);
        }
        lemma_insert_position_unique(s.drop_first(), x, descending, p - 1);
    }
}

/// Inserting into an ordered sequence keeps it ordered and adds exactly `x`.
pub proof fn lemma_insert_ordered(s: Seq<Level>, x: Level, descending: bool)
    requires
        is_ordered(s, descending),
    ensures
        is_ordered(insert_ordered(s, x, descending), descending),
        insert_ordered(s, x, descending).to_multiset() == s.to_multiset().insert(x),
{
    lemma_insert_position_bounds(s, x, descending);
    let p = insert_position(s, x, descending);
    let r = insert_ordered(s, x, descending);
    to_multiset_insert(s, p, x);
    assert forall|i: int, j: int| 0 <= i < j < r.len() implies goes_before(
        #[trigger] r[i],
        #[trigger] r[j],
        descending,
    ) by {
        if j < p {
            assert(r[i] == s[i] && r[j] == s[j]);
        } else if j == p {
            assert(r[i] == s[i]);
        } else if i < p {
            assert(r[i] == s[i] && r[j] == s[j - 1]);
            assert(goes_before(s[i], s[j - 1], descending));
        } else if i == p {
            assert(r[j] == s[j - 1]);
            assert(!goes_before(s[p], x, descending));
            if j - 1 > p {
                assert(goes_before(s[p], s[j - 1], descending));
            }
        } else {
            assert(r[i] == s[i - 1] && r[j] == s[j - 1]);
        }
    }
}

/// The stable ordering is ordered, best first, and has exactly the levels given.
pub proof fn lemma_sort_levels(s: Seq<Level>, descending: bool)
    ensures
        is_ordered(sort_levels(s, descending), descending),
        sort_levels(s, descending).to_multiset() == s.to_multiset(),
        sort_levels(s, descending).len() == s.len(),
    decreases s.len(),
{
    if s.len() == 0 {
        assert(s =~= Seq::<Level>::empty());
    } else {
        assert(s.drop_last().push(s.last()) =~= s);
        lemma_sort_levels(s.drop_last(), descending);
        lemma_insert_ordered(sort_levels(s.drop_last(), descending), s.last(), descending);
        vstd::seq_lib::to_multiset_build(s.drop_last(), s.last());
        assert(s.drop_last().push(s.last()) =~= s);
        lemma_insert_position_bounds(sort_levels(s.drop_last(), descending), s.last(), descending);
    }
}

/// The kept levels are the best ones: ordered, at most `MAX_LEVELS`, all taken
/// from the input, and no level left out is better than the last one kept.
pub proof fn lemma_best_levels(s: Seq<Level>, descending: bool)
    ensures
        is_ordered(best_levels(s, descending), descending),
        best_levels(s, descending).len() == if s.len() <= MAX_LEVELS { s.len() } else { MAX_LEVELS as nat },
        best_levels(s, descending).to_multiset().subset_of(s.to_multiset()),
        s.len() <= MAX_LEVELS ==> best_levels(s, descending).to_multiset() == s.to_multiset(),
        forall|k: int| MAX_LEVELS <= k < s.len() ==> goes_before(
            best_levels(s, descending)[MAX_LEVELS - 1],
            #[trigger] sort_levels(s, descending)[k],
            descending,
        ),
{
    lemma_sort_levels(s, descending);
    let t = sort_levels(s, descending);
    if t.len() > MAX_LEVELS {
        let b = t.take(MAX_LEVELS as int);
        assert(t =~= b + t.skip(MAX_LEVELS as int));
        vstd::seq_lib::lemma_multiset_commutative(b, t.skip(MAX_LEVELS as int));
        broadcast use vstd::multiset::group_multiset_axioms;
        assert(b.to_multiset().subset_of(t.to_multiset()));
        assert forall|k: int| MAX_LEVELS <= k < s.len() implies goes_before(
            b[MAX_LEVELS - 1],
            #[trigger] t[k],
            descending,
        ) by {
            assert(t[MAX_LEVELS - 1] == b[MAX_LEVELS - 1]);
        }
    }
}

/// The first kept level is the best of all: no bid is higher than the best
/// bid, no ask lower than the best ask.
pub proof fn lemma_best_level_is_extreme(s: Seq<Level>, descending: bool)
    requires
        s.len() > 0,
    ensures
        best_levels(s, descending).len() > 0,
        forall|i: int| 0 <= i < s.len() ==> goes_before(best_levels(s, descending)[0], #[trigger] s[i], descending),
{
    lemma_sort_levels(s, descending);
    let t = sort_levels(s, descending);
    assert(best_levels(s, descending)[0] == t[0]);
    assert forall|i: int| 0 <= i < s.len() implies goes_before(best_levels(s, descending)[0], #[trigger] s[i], descending) by {
        vstd::seq_lib::to_multiset_contains(s, s[i]);
        vstd::seq_lib::to_multiset_contains(t, s[i]);
        assert(s.contains(s[i]));
        assert(t.contains(s[i]));
        let w = choose|w: int| 0 <= w < t.len() && t[w] == s[i];
        if w > 0 {
            assert(goes_before(t[0], t[w], descending));
        }
    }
}

/// Whether `a` may stand before `b`.
pub fn level_goes_before(a: &Level, b: &Level, descending: bool) -> (r: bool)
    ensures
        r == goes_before(*a, *b, descending),
{
    let pa = price_key(a.price);
    let pb = price_key(b.price);
    if descending {
        pa >= pb
    } else {
        pa <= pb
    }
}

/// Inserts `x` into `v` after every leading level that may stand before it.
pub fn insert_level(v: &mut Vec<Level>, x: Level, descending: bool)
    ensures
        final(v)@ == insert_ordered(old(v)@, x, descending),
{
    let n = v.len();
    let mut p: usize = 0;
    while p < n
        invariant
            n == v@.len(),
            v@ == old(v)@,
            p <= n,
            forall|j: int| 0 <= j < p ==> goes_before(v@[j], x, descending),
        ensures
            n == v@.len(),
            v@ == old(v)@,
            p <= n,
            forall|j: int| 0 <= j < p ==> goes_before(v@[j], x, descending),
            p < n ==> !goes_before(v@[p as int], x, descending),
        decreases n - p,
    {
        if !level_goes_before(&v[p], &x, descending) {
            break;
        }
        p = p + 1;
    }
    proof {
        lemma_insert_position_unique(v@, x, descending, p as int);
    }
    v.insert(p, x);
}

/// The stable ordering of `levels`, best first.
pub fn sorted_levels(levels: &Vec<Level>, descending: bool) -> (r: Vec<Level>)
    ensures
        r@ == sort_levels(levels@, descending),
{
    let mut r: Vec<Level> = Vec::new();
    let n = levels.len();
    let mut i: usize = 0;
    while i < n
        invariant
            n == levels@.len(),
            i <= n,
            r@ == sort_levels(levels@.take(i as int), descending),
        decreases n - i,
    {
        assert(levels@.take(i + 1).drop_last() =~= levels@.take(i as int));
        assert(levels@.take(i + 1).last() == levels@[i as int]);
        insert_level(&mut r, levels[i], descending);
        i = i + 1;
    }
    assert(levels@.take(n as int) =~= levels@);
    r
}

/// The summary of all the bids and asks given: the ten best of each side,
/// best first.
pub fn make_summary(all_bids: &Vec<Level>, all_asks: &Vec<Level>) -> (s: Summary)
    ensures
        s.bids@ == best_levels(all_bids@, true),
        s.asks@ == best_levels(all_asks@, false),
{
    let mut bids = sorted_levels(all_bids, true);
    bids.truncate(MAX_LEVELS);
    let mut asks = sorted_levels(all_asks, false);
    asks.truncate(MAX_LEVELS);
    Summary { bids, asks }
}

} // verus!
