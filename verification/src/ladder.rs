//! Price ladders: the ordered set of resting levels on one side of an
//! order book, keyed by an integer-normalized price.

use vstd::map::*;
use vstd::prelude::*;

verus! {

/// One resting level: an integer-normalized price, the size resting at
/// that price, and optional venue-specific auxiliary data (for venues
/// that attach, e.g., an implied volatility to each level). All three
/// are held at whole-unit resolution; see `numeric` for how wire
/// strings are normalized to these keys.
#[derive(Clone, Copy, Debug, PartialEq, Eq)]
pub struct PriceLevel {
    pub price: u64,
    pub size: u64,
    pub auxiliary: Option<u64>,
}

/// True when the levels are in strictly ascending price order, so each
/// price occurs at most once.
pub open spec fn sorted_by_price(s: Seq<PriceLevel>) -> bool {
    forall|i: int, j: int| 0 <= i < j < s.len() ==> s[i].price < s[j].price
}

/// The mapping from price key to level described by a list of levels,
/// with a later entry overwriting an earlier one at the same price
/// (last write wins).
pub open spec fn ladder_map(s: Seq<PriceLevel>) -> Map<u64, PriceLevel>
    decreases s.len(),
{
    if s.len() == 0 {
        Map::empty()
    } else {
        ladder_map(s.drop_last()).insert(s.last().price, s.last())
    }
}

/// A price key is in the mapping of a level list exactly when some
/// level in the list has that price.
pub proof fn lemma_ladder_map_dom(s: Seq<PriceLevel>)
    ensures
        forall|p: u64|
            #[trigger] ladder_map(s).dom().contains(p) <==> exists|i: int|
                0 <= i < s.len() && s[i].price == p,
    decreases s.len(),
{
    if s.len() > 0 {
        lemma_ladder_map_dom(s.drop_last());
        assert forall|p: u64| #[trigger] ladder_map(s).dom().contains(p) implies exists|i: int|
            0 <= i < s.len() && s[i].price == p by {
            if p == s.last().price {
                assert(s[s.len() - 1].price == p);
            } else {
                assert(ladder_map(s.drop_last()).dom().contains(p));
                let i = choose|i: int| 0 <= i < s.drop_last().len() && s.drop_last()[i].price == p;
                assert(s[i].price == p);
            }
        }
        assert forall|p: u64| (exists|i: int| 0 <= i < s.len() && s[i].price == p) implies
            #[trigger] ladder_map(s).dom().contains(p) by {
            let i = choose|i: int| 0 <= i < s.len() && s[i].price == p;
            if i < s.len() - 1 {
                assert(s.drop_last()[i].price == p);
                assert(exists|j: int| 0 <= j < s.drop_last().len() && s.drop_last()[j].price == p);
                assert(ladder_map(s.drop_last()).dom().contains(p));
            }
        }
    }
}

/// The mapping of a concatenation is the union of the mappings, with
/// the later part winning at shared price keys.
pub proof fn lemma_ladder_map_concat(a: Seq<PriceLevel>, b: Seq<PriceLevel>)
    ensures
        ladder_map(a + b) == ladder_map(a).union_prefer_right(ladder_map(b)),
    decreases b.len(),
{
    if b.len() == 0 {
        assert(a + b =~= a);
        assert(ladder_map(a).union_prefer_right(ladder_map(b)) =~= ladder_map(a));
    } else {
        lemma_ladder_map_concat(a, b.drop_last());
        assert((a + b).drop_last() =~= a + b.drop_last());
        assert((a + b).last() == b.last());
        assert(ladder_map(a).union_prefer_right(ladder_map(b.drop_last())).insert(
            b.last().price,
            b.last(),
        ) =~= ladder_map(a).union_prefer_right(ladder_map(b)));
    }
}

/// A strictly sorted level list is a canonical form: two sorted lists
/// that describe the same price-to-level mapping are the same list.
/// With `replace` ensuring the mapping of the snapshot alone, the
/// ladder's contents after a snapshot are therefore fully determined
/// by that snapshot, whatever the ladder held before.
pub proof fn lemma_sorted_ladder_unique(s1: Seq<PriceLevel>, s2: Seq<PriceLevel>)
    requires
        sorted_by_price(s1),
        sorted_by_price(s2),
        ladder_map(s1) == ladder_map(s2),
    ensures
        s1 == s2,
    decreases s1.len(),
{
    lemma_ladder_map_dom(s1);
    lemma_ladder_map_dom(s2);
    if s1.len() == 0 {
        if s2.len() > 0 {
            assert(ladder_map(s2).dom().contains(s2[s2.len() - 1].price));
        }
        assert(s1 =~= s2);
    } else if s2.len() == 0 {
        assert(ladder_map(s1).dom().contains(s1[s1.len() - 1].price));
        assert(s1 =~= s2);
    } else {
        let k1 = s1.last().price;
        let k2 = s2.last().price;
        assert(ladder_map(s1).dom().contains(k1)) by {
            assert(s1[s1.len() - 1].price == k1);
        }
        assert(ladder_map(s2).dom().contains(k2)) by {
            assert(s2[s2.len() - 1].price == k2);
        }
        // Each last price is the strict maximum of its own list, and
        // both lists share one price set, so the last prices agree.
        assert(k1 <= k2) by {
            let i = choose|i: int| 0 <= i < s2.len() && s2[i].price == k1;
            if i < s2.len() - 1 {
                assert(s2[i].price < s2[s2.len() - 1].price);
            }
        }
        assert(k2 <= k1) by {
            let j = choose|j: int| 0 <= j < s1.len() && s1[j].price == k2;
            if j < s1.len() - 1 {
                assert(s1[j].price < s1[s1.len() - 1].price);
            }
        }
        assert(ladder_map(s1) == ladder_map(s1.drop_last()).insert(k1, s1.last()));
        assert(ladder_map(s1)[k1] == s1.last());
        assert(ladder_map(s2) == ladder_map(s2.drop_last()).insert(k2, s2.last()));
        assert(ladder_map(s2)[k2] == s2.last());
        assert(s1.last() == s2.last());
        // The shared last price occurs in neither front part, so the
        // front mappings are the shared mapping without that key.
        lemma_ladder_map_dom(s1.drop_last());
        lemma_ladder_map_dom(s2.drop_last());
        assert(sorted_by_price(s1.drop_last())) by {
            assert(forall|x: int|
                0 <= x < s1.drop_last().len() ==> #[trigger] s1.drop_last()[x] == s1[x]);
        }
        assert(sorted_by_price(s2.drop_last())) by {
            assert(forall|x: int|
                0 <= x < s2.drop_last().len() ==> #[trigger] s2.drop_last()[x] == s2[x]);
        }
        assert(!ladder_map(s1.drop_last()).dom().contains(k1)) by {
            if ladder_map(s1.drop_last()).dom().contains(k1) {
                let i = choose|i: int|
                    0 <= i < s1.drop_last().len() && s1.drop_last()[i].price == k1;
                assert(s1[i].price < s1[s1.len() - 1].price);
            }
        }
        assert(!ladder_map(s2.drop_last()).dom().contains(k1)) by {
            if ladder_map(s2.drop_last()).dom().contains(k1) {
                let i = choose|i: int|
                    0 <= i < s2.drop_last().len() && s2.drop_last()[i].price == k1;
                assert(s2[i].price < s2[s2.len() - 1].price);
            }
        }
        assert(ladder_map(s1.drop_last()) =~= ladder_map(s1).remove(k1));
        assert(ladder_map(s2.drop_last()) =~= ladder_map(s2).remove(k1));
        lemma_sorted_ladder_unique(s1.drop_last(), s2.drop_last());
        assert(s1 =~= s1.drop_last().push(s1.last()));
        assert(s2 =~= s2.drop_last().push(s2.last()));
    }
}

/// Splicing one level into a sorted list: replacing the (at most one)
/// level at its price key by `l` updates the mapping at exactly that
/// key.
proof fn lemma_ladder_map_splice(
    a: Seq<PriceLevel>,
    mid: Seq<PriceLevel>,
    b: Seq<PriceLevel>,
    l: PriceLevel,
)
    requires
        forall|i: int| 0 <= i < a.len() ==> a[i].price < l.price,
        forall|i: int| 0 <= i < b.len() ==> b[i].price > l.price,
        mid.len() <= 1,
        mid.len() == 1 ==> mid[0].price == l.price,
    ensures
        ladder_map(a + seq![l] + b) == ladder_map(a + mid + b).insert(l.price, l),
{
    lemma_ladder_map_concat(a + seq![l], b);
    lemma_ladder_map_concat(a, seq![l]);
    lemma_ladder_map_concat(a + mid, b);
    lemma_ladder_map_concat(a, mid);
    lemma_ladder_map_dom(a);
    lemma_ladder_map_dom(b);
    lemma_ladder_map_dom(mid);
    lemma_ladder_map_dom(seq![l]);
    assert(seq![l].drop_last() =~= Seq::<PriceLevel>::empty());
    assert(ladder_map(seq![l]) =~= Map::<u64, PriceLevel>::empty().insert(l.price, l));
    if mid.len() == 1 {
        assert(mid.drop_last() =~= Seq::<PriceLevel>::empty());
        assert(ladder_map(mid) =~= Map::<u64, PriceLevel>::empty().insert(mid[0].price, mid[0]));
    }
    assert(ladder_map(a + seq![l] + b) =~= ladder_map(a + mid + b).insert(l.price, l));
}

/// An ordered collection of price levels for one side (bid or ask) of
/// one venue's book. Levels are kept in strictly ascending price
/// order; a size of zero is a valid resting level.
pub struct PriceLadder {
    levels: Vec<PriceLevel>,
}

impl View for PriceLadder {
    type V = Seq<PriceLevel>;

    closed spec fn view(&self) -> Seq<PriceLevel> {
        self.levels@
    }
}

/// A fresh copy of a level list.
fn copy_levels(v: &Vec<PriceLevel>) -> (r: Vec<PriceLevel>)
    ensures
        r@ == v@,
{
    let mut r: Vec<PriceLevel> = Vec::new();
    let n = v.len();
    let mut i: usize = 0;
    while i < n
        invariant
            i <= n,
            n == v@.len(),
            r@ == v@.take(i as int),
        decreases n - i,
    {
        r.push(v[i]);
        proof {
            assert(v@.take(i + 1 as int) =~= v@.take(i as int).push(v@[i as int]));
        }
        i += 1;
    }
    proof {
        assert(v@.take(n as int) =~= v@);
    }
    r
}

/// A copy of `v` with `l` inserted at its price key, overwriting the
/// level already resting there if any.
fn upserted(v: &Vec<PriceLevel>, l: PriceLevel) -> (r: Vec<PriceLevel>)
    requires
        sorted_by_price(v@),
    ensures
        sorted_by_price(r@),
        ladder_map(r@) == ladder_map(v@).insert(l.price, l),
{
    let n = v.len();
    let mut r: Vec<PriceLevel> = Vec::new();
    let mut i: usize = 0;
    while i < n && v[i].price < l.price
        invariant
            i <= n,
            n == v@.len(),
            sorted_by_price(v@),
            r@ == v@.take(i as int),
            forall|j: int| 0 <= j < i ==> v@[j].price < l.price,
        decreases n - i,
    {
        r.push(v[i]);
        proof {
            assert(v@.take(i + 1 as int) =~= v@.take(i as int).push(v@[i as int]));
        }
        i += 1;
    }
    let ghost k = i as int;
    r.push(l);
    let skip_old: bool = i < n && v[i].price == l.price;
    let ghost m: int = if skip_old {
        k + 1
    } else {
        k
    };
    if skip_old {
        i += 1;
    }
    while i < n
        invariant
            m <= i <= n,
            n == v@.len(),
            sorted_by_price(v@),
            r@ == v@.take(k) + seq![l] + v@.subrange(m, i as int),
            0 <= k <= m <= k + 1,
            forall|j: int| 0 <= j < k ==> v@[j].price < l.price,
            forall|j: int| m <= j < n ==> v@[j].price > l.price,
            m == k + 1 ==> k < n && v@[k].price == l.price,
        decreases n - i,
    {
        r.push(v[i]);
        proof {
            assert(v@.subrange(m, i + 1 as int) =~= v@.subrange(m, i as int).push(v@[i as int]));
            assert(v@.take(k) + seq![l] + v@.subrange(m, i + 1 as int) =~= (v@.take(k) + seq![l]
                + v@.subrange(m, i as int)).push(v@[i as int]));
        }
        i += 1;
    }
    proof {
        let a = v@.take(k);
        let b = v@.subrange(m, n as int);
        let mid = v@.subrange(k, m);
        assert(r@ == a + seq![l] + b);
        assert(v@ =~= a + mid + b);
        lemma_ladder_map_splice(a, mid, b, l);
        assert(sorted_by_price(r@)) by {
            assert(forall|j: int| 0 <= j < a.len() ==> r@[j] == a[j]);
            assert(r@[a.len() as int] == l);
            assert(forall|j: int|
                a.len() + 1 <= j < r@.len() ==> r@[j] == v@[j - a.len() - 1 + m]);
        }
    }
    r
}

impl PriceLadder {
    /// Well-formedness: the stored levels are strictly ascending by
    /// price. Every constructor establishes this and every mutator
    /// preserves it.
    pub open spec fn wf(&self) -> bool {
        sorted_by_price(self@)
    }

    /// The price-to-level mapping this ladder currently holds.
    pub open spec fn contents(&self) -> Map<u64, PriceLevel> {
        ladder_map(self@)
    }

    /// An empty ladder.
    pub fn new() -> (r: Self)
        ensures
            r@ == Seq::<PriceLevel>::empty(),
            r.wf(),
    {
        PriceLadder { levels: Vec::new() }
    }

    /// Discards the current contents and inserts the given levels,
    /// each keyed by its price; at a repeated price the later entry
    /// wins. Used for snapshot events. The result is independent of
    /// what the ladder held before.
    pub fn replace(&mut self, levels: &Vec<PriceLevel>)
        ensures
            final(self).wf(),
            final(self).contents() == ladder_map(levels@),
    {
        let n = levels.len();
        let mut v: Vec<PriceLevel> = Vec::new();
        let mut i: usize = 0;
        while i < n
            invariant
                i <= n,
                n == levels@.len(),
                sorted_by_price(v@),
                ladder_map(v@) == ladder_map(levels@.take(i as int)),
            decreases n - i,
        {
            v = upserted(&v, levels[i]);
            proof {
                assert(levels@.take(i + 1 as int).drop_last() =~= levels@.take(i as int));
                assert(levels@.take(i + 1 as int).last() == levels@[i as int]);
            }
            i += 1;
        }
        proof {
            assert(levels@.take(n as int) =~= levels@);
        }
        self.levels = v;
    }

    /// Inserts or overwrites the entry at each given level's price
    /// key, regardless of whether its size is zero; levels at other
    /// prices are untouched. Used for delta events: no accumulation
    /// across deltas at the same price, the last write wins.
    pub fn upsert(&mut self, levels: &Vec<PriceLevel>)
        requires
            old(self).wf(),
        ensures
            final(self).wf(),
            final(self).contents() == old(self).contents().union_prefer_right(
                ladder_map(levels@),
            ),
    {
        let n = levels.len();
        let mut v: Vec<PriceLevel> = copy_levels(&self.levels);
        let mut i: usize = 0;
        while i < n
            invariant
                i <= n,
                n == levels@.len(),
                sorted_by_price(v@),
                ladder_map(v@) == ladder_map(old(self)@).union_prefer_right(
                    ladder_map(levels@.take(i as int)),
                ),
            decreases n - i,
        {
            v = upserted(&v, levels[i]);
            proof {
                assert(levels@.take(i + 1 as int).drop_last() =~= levels@.take(i as int));
                assert(levels@.take(i + 1 as int).last() == levels@[i as int]);
                lemma_union_insert(
                    ladder_map(old(self)@),
                    ladder_map(levels@.take(i as int)),
                    levels@[i as int].price,
                    levels@[i as int],
                );
            }
            i += 1;
        }
        proof {
            assert(levels@.take(n as int) =~= levels@);
        }
        self.levels = v;
    }

    /// The ladder's levels in ascending price order, best ask first.
    /// A fresh, finite enumeration of the contents at call time.
    pub fn best_ascending(&self) -> (r: Vec<PriceLevel>)
        ensures
            r@ == self@,
    {
        copy_levels(&self.levels)
    }

    /// The ladder's levels in descending price order, best bid first.
    /// A fresh, finite enumeration of the contents at call time.
    pub fn best_descending(&self) -> (r: Vec<PriceLevel>)
        ensures
            r@ == self@.reverse(),
    {
        let n = self.levels.len();
        let mut r: Vec<PriceLevel> = Vec::new();
        let mut i: usize = 0;
        while i < n
            invariant
                i <= n,
                n == self@.len(),
                r@.len() == i,
                forall|j: int| 0 <= j < i ==> r@[j] == self@[n - 1 - j],
            decreases n - i,
        {
            r.push(self.levels[n - 1 - i]);
            i += 1;
        }
        proof {
            assert(r@ =~= self@.reverse());
        }
        r
    }

    /// Runtime check of the well-formedness invariant, for callers
    /// outside verified code that must establish it before a mutating
    /// call.
    pub fn is_well_formed(&self) -> (b: bool)
        ensures
            b == self.wf(),
    {
        let n = self.levels.len();
        if n == 0 {
            return true;
        }
        let mut i: usize = 0;
        while i < n - 1
            invariant
                n == self@.len(),
                1 <= n,
                i <= n - 1,
                forall|j: int| 0 <= j < i ==> (#[trigger] self@[j]).price < self@[j + 1].price,
            decreases n - i,
        {
            if self.levels[i].price >= self.levels[i + 1].price {
                return false;
            }
            i += 1;
        }
        proof {
            lemma_adjacent_sorted(self@);
        }
        true
    }
}

/// Overwriting one key in the right map of a union overwrites that key
/// in the union.
proof fn lemma_union_insert(m1: Map<u64, PriceLevel>, m2: Map<u64, PriceLevel>, k: u64, v: PriceLevel)
    ensures
        m1.union_prefer_right(m2.insert(k, v)) == m1.union_prefer_right(m2).insert(k, v),
{
    assert(m1.union_prefer_right(m2.insert(k, v)) =~= m1.union_prefer_right(m2).insert(k, v));
}

/// Pairwise ascending adjacent prices make the whole list strictly
/// sorted.
proof fn lemma_adjacent_sorted(s: Seq<PriceLevel>)
    requires
        forall|j: int| 0 <= j < s.len() - 1 ==> (#[trigger] s[j]).price < s[j + 1].price,
    ensures
        sorted_by_price(s),
{
    assert forall|i: int, j: int| 0 <= i < j < s.len() implies s[i].price < s[j].price by {
        lemma_price_chain(s, i, j);
    }
}

/// Transitivity of the adjacent ordering over any gap.
proof fn lemma_price_chain(s: Seq<PriceLevel>, i: int, j: int)
    requires
        forall|k: int| 0 <= k < s.len() - 1 ==> (#[trigger] s[k]).price < s[k + 1].price,
        0 <= i < j < s.len(),
    ensures
        s[i].price < s[j].price,
    decreases j - i,
{
    if j > i + 1 {
        lemma_price_chain(s, i, j - 1);
    }
}

} // verus!
