//! The listing of a bag: its coins in the order of their denominations.
//!
//! Every finite bag has exactly one listing. It is what a bag looks like when
//! it is walked, written out or read back.

use vstd::prelude::*;
use crate::bag::{bag_wf, credited, empty_bag, Bag};
use crate::denom::{
    denom_lt, lemma_denom_lt_irreflexive, lemma_denom_lt_total, lemma_denom_lt_transitive,
};

verus! {

/// One coin as contracts speak of it: an amount of one denomination.
pub struct CoinView {
    pub denom: Seq<char>,
    pub amount: nat,
}

/// One coin of a bag, as it is handed out.
#[derive(Debug, PartialEq, Eq)]
pub struct CoinEntry {
    pub denom: String,
    pub amount: u128,
}

impl View for CoinEntry {
    type V = CoinView;

    open spec fn view(&self) -> CoinView {
        CoinView { denom: self.denom@, amount: self.amount as nat }
    }
}

/// The coins of `v` as contracts speak of them.
pub open spec fn coin_views(v: Seq<CoinEntry>) -> Seq<CoinView> {
    v.map_values(|c: CoinEntry| c@)
}

/// Whether the denominations of `l` strictly ascend.
pub open spec fn is_sorted(l: Seq<CoinView>) -> bool {
    forall|i: int, j: int|
        0 <= i < j < l.len() ==> denom_lt(#[trigger] l[i].denom, #[trigger] l[j].denom)
}

/// Whether `b` holds exactly the coin `c`.
pub open spec fn holds(b: Bag, c: CoinView) -> bool {
    b.contains_key(c.denom) && b[c.denom] == c.amount
}

/// Whether `l` has a coin of denomination `d`.
pub open spec fn lists(l: Seq<CoinView>, d: Seq<char>) -> bool {
    exists|i: int| 0 <= i < l.len() && (#[trigger] l[i]).denom == d
}

/// Whether `l` is the listing of `b`: the coins that `b` holds, each once, in
/// the order of their denominations.
pub open spec fn is_listing(l: Seq<CoinView>, b: Bag) -> bool {
    &&& is_sorted(l)
    &&& forall|i: int| 0 <= i < l.len() ==> holds(b, #[trigger] l[i])
    &&& forall|d: Seq<char>| #[trigger] b.contains_key(d) ==> lists(l, d)
}

/// The listing of `b`.
pub open spec fn listing_of(b: Bag) -> Seq<CoinView> {
    choose|l: Seq<CoinView>| is_listing(l, b)
}

/// The bag that comes of crediting the coins of `l` one after the other.
pub open spec fn bag_of(l: Seq<CoinView>) -> Bag
    decreases l.len(),
{
    if l.len() == 0 {
        empty_bag()
    } else {
        credited(bag_of(l.drop_last()), l.last().denom, l.last().amount)
    }
}

/// The bag that holds the coins of `l`, unless two of them share a
/// denomination. A coin whose amount is zero is passed over.
pub open spec fn gather(l: Seq<CoinView>) -> Option<Bag>
    decreases l.len(),
{
    if l.len() == 0 {
        Some(empty_bag())
    } else {
        match gather(l.drop_last()) {
            None => None,
            Some(b) => if l.last().amount == 0 {
                Some(b)
            } else if b.contains_key(l.last().denom) {
                None
            } else {
                Some(b.insert(l.last().denom, l.last().amount))
            },
        }
    }
}

/// `l` with `c` put where its denomination belongs.
pub open spec fn insert_sorted(l: Seq<CoinView>, c: CoinView) -> Seq<CoinView>
    decreases l.len(),
{
    if l.len() == 0 {
        seq![c]
    } else if denom_lt(l.last().denom, c.denom) {
        l.push(c)
    } else {
        insert_sorted(l.drop_last(), c).push(l.last())
    }
}

/// In a sorted list no denomination stands twice.
pub proof fn lemma_sorted_distinct(l: Seq<CoinView>, i: int, j: int)
    requires
        is_sorted(l),
        0 <= i < l.len(),
        0 <= j < l.len(),
        l[i].denom == l[j].denom,
    ensures
        i == j,
{
    lemma_denom_lt_irreflexive(l[i].denom);
}

/// A place at which `l` holds `c`.
proof fn position_in(l: Seq<CoinView>, c: CoinView) -> (i: int)
    requires
        l.contains(c),
    ensures
        0 <= i < l.len(),
        l[i] == c,
{
    choose|i: int| 0 <= i < l.len() && l[i] == c
}

/// Putting a coin of a new denomination into a sorted list keeps it sorted
/// and adds that coin and no other.
pub proof fn lemma_insert_sorted(l: Seq<CoinView>, c: CoinView)
    requires
        is_sorted(l),
        !lists(l, c.denom),
    ensures
        is_sorted(insert_sorted(l, c)),
        insert_sorted(l, c).len() == l.len() + 1,
        forall|x: CoinView| #[trigger]
            insert_sorted(l, c).contains(x) <==> (l.contains(x) || x == c),
    decreases l.len(),
{
    let r = insert_sorted(l, c);
    if l.len() == 0 {
        assert(r[0] == c);
    } else if denom_lt(l.last().denom, c.denom) {
        assert forall|i: int, j: int| 0 <= i < j < r.len() implies denom_lt(
            #[trigger] r[i].denom,
            #[trigger] r[j].denom,
        ) by {
            if j == l.len() && i < l.len() - 1 {
                lemma_denom_lt_transitive(l[i].denom, l.last().denom, c.denom);
            }
        }
        assert(r[l.len() as int] == c);
        assert forall|x: CoinView| l.contains(x) implies r.contains(x) by {
            let i = position_in(l, x);
            assert(r[i] == x);
        }
    } else {
        let front = l.drop_last();
        let head = insert_sorted(front, c);
        assert(!lists(front, c.denom)) by {
            if lists(front, c.denom) {
                let i = choose|i: int|
                    0 <= i < front.len() && (#[trigger] front[i]).denom == c.denom;
                assert(l[i].denom == c.denom);
            }
        }
        lemma_insert_sorted(front, c);
        assert(l.last().denom != c.denom) by {
            assert(l[l.len() - 1] == l.last());
        }
        lemma_denom_lt_total(l.last().denom, c.denom);
        assert forall|i: int, j: int| 0 <= i < j < r.len() implies denom_lt(
            #[trigger] r[i].denom,
            #[trigger] r[j].denom,
        ) by {
            if j == head.len() {
                assert(head.contains(head[i]));
                if head[i] != c {
                    let k = position_in(front, head[i]);
                    assert(l[k] == head[i]);
                }
            } else {
                assert(r[i] == head[i] && r[j] == head[j]);
            }
        }
        assert forall|x: CoinView| #[trigger] r.contains(x) <==> (l.contains(x) || x == c) by {
            if r.contains(x) {
                let i = position_in(r, x);
                if i < head.len() {
                    assert(head.contains(head[i]));
                    if x != c {
                        let k = position_in(front, x);
                        assert(l[k] == x);
                    }
                } else {
                    assert(l[l.len() - 1] == x);
                }
            }
            if l.contains(x) {
                let k = position_in(l, x);
                if k < front.len() {
                    assert(front[k] == x);
                    assert(front.contains(x));
                    let i = position_in(head, x);
                    assert(r[i] == x);
                } else {
                    assert(r[head.len() as int] == x);
                }
            }
            if x == c {
                let i = position_in(head, c);
                assert(r[i] == c);
            }
        }
    }
}

/// Every finite bag has a listing.
pub proof fn lemma_listing_exists(b: Bag)
    requires
        b.dom().finite(),
    ensures
        is_listing(listing_of(b), b),
    decreases b.dom().len(),
{
    if b.dom().len() == 0 {
        b.dom().lemma_len0_is_empty();
        assert(is_listing(Seq::<CoinView>::empty(), b));
    } else {
        let d = b.dom().choose();
        let rest = b.remove(d);
        lemma_listing_exists(rest);
        let l = listing_of(rest);
        let c = CoinView { denom: d, amount: b[d] };
        assert(!lists(l, d)) by {
            if lists(l, d) {
                let i = choose|i: int| 0 <= i < l.len() && (#[trigger] l[i]).denom == d;
                assert(holds(rest, l[i]));
            }
        }
        lemma_insert_sorted(l, c);
        let r = insert_sorted(l, c);
        assert forall|i: int| 0 <= i < r.len() implies holds(b, #[trigger] r[i]) by {
            assert(r.contains(r[i]));
            if r[i] != c {
                let k = position_in(l, r[i]);
                assert(holds(rest, l[k]));
            }
        }
        assert forall|e: Seq<char>| #[trigger] b.contains_key(e) implies lists(r, e) by {
            if e == d {
                let i = position_in(r, c);
                assert(r[i].denom == e);
            } else {
                assert(rest.contains_key(e));
                let k = choose|k: int| 0 <= k < l.len() && (#[trigger] l[k]).denom == e;
                assert(l.contains(l[k]));
                let i = position_in(r, l[k]);
                assert(r[i].denom == e);
            }
        }
        assert(is_listing(r, b));
    }
}

/// A bag has no more than one listing.
pub proof fn lemma_listing_unique(l1: Seq<CoinView>, l2: Seq<CoinView>, b: Bag)
    requires
        is_listing(l1, b),
        is_listing(l2, b),
    ensures
        l1 == l2,
    decreases l1.len(),
{
    if l1.len() == 0 {
        if l2.len() > 0 {
            assert(holds(b, l2[0]));
            assert(lists(l1, l2[0].denom));
        }
        assert(l1 =~= l2);
    } else {
        let last1 = l1.last();
        assert(holds(b, l1[l1.len() - 1]));
        assert(lists(l2, last1.denom));
        let j = choose|j: int| 0 <= j < l2.len() && (#[trigger] l2[j]).denom == last1.denom;
        let last2 = l2.last();
        assert(holds(b, l2[l2.len() - 1]));
        assert(lists(l1, last2.denom));
        let k = choose|k: int| 0 <= k < l1.len() && (#[trigger] l1[k]).denom == last2.denom;
        assert(last1.denom == last2.denom) by {
            if j < l2.len() - 1 && k < l1.len() - 1 {
                assert(denom_lt(l2[j].denom, l2[l2.len() - 1].denom));
                assert(denom_lt(l1[k].denom, l1[l1.len() - 1].denom));
                lemma_denom_lt_transitive(last1.denom, last2.denom, last1.denom);
                lemma_denom_lt_irreflexive(last1.denom);
            }
        }
        assert(last1 == last2);
        let rest = b.remove(last1.denom);
        lemma_listing_without_last(l1, b);
        lemma_listing_without_last(l2, b);
        lemma_listing_unique(l1.drop_last(), l2.drop_last(), rest);
        assert(l1 =~= l1.drop_last().push(last1));
        assert(l2 =~= l2.drop_last().push(last2));
    }
}

/// A listing without its last coin lists the bag without that coin.
pub proof fn lemma_listing_without_last(l: Seq<CoinView>, b: Bag)
    requires
        is_listing(l, b),
        l.len() > 0,
    ensures
        is_listing(l.drop_last(), b.remove(l.last().denom)),
{
    let front = l.drop_last();
    let rest = b.remove(l.last().denom);
    assert forall|i: int| 0 <= i < front.len() implies holds(rest, #[trigger] front[i]) by {
        assert(holds(b, l[i]));
        if l[i].denom == l.last().denom {
            lemma_sorted_distinct(l, i, l.len() - 1);
        }
    }
    assert forall|d: Seq<char>| #[trigger] rest.contains_key(d) implies lists(front, d) by {
        assert(b.contains_key(d));
        let i = choose|i: int| 0 <= i < l.len() && (#[trigger] l[i]).denom == d;
        assert(front[i].denom == d);
    }
    assert forall|i: int, j: int| 0 <= i < j < front.len() implies denom_lt(
        #[trigger] front[i].denom,
        #[trigger] front[j].denom,
    ) by {
        assert(denom_lt(l[i].denom, l[j].denom));
    }
}

/// Crediting coins never touches a denomination that none of them has.
pub proof fn lemma_bag_of_unlisted(l: Seq<CoinView>, d: Seq<char>)
    requires
        !lists(l, d),
    ensures
        !bag_of(l).contains_key(d),
    decreases l.len(),
{
    if l.len() > 0 {
        let front = l.drop_last();
        assert(!lists(front, d)) by {
            if lists(front, d) {
                let i = choose|i: int| 0 <= i < front.len() && (#[trigger] front[i]).denom == d;
                assert(l[i].denom == d);
            }
        }
        lemma_bag_of_unlisted(front, d);
        assert(l[l.len() - 1].denom != d);
    }
}

/// In a sorted list the coins before a place leave the denomination at that
/// place alone, and the coin at the place is credited next.
pub proof fn lemma_bag_of_next(l: Seq<CoinView>, i: int)
    requires
        is_sorted(l),
        0 <= i < l.len(),
    ensures
        !bag_of(l.take(i)).contains_key(l[i].denom),
        bag_of(l.take(i + 1)) == credited(bag_of(l.take(i)), l[i].denom, l[i].amount),
{
    let front = l.take(i);
    assert(!lists(front, l[i].denom)) by {
        if lists(front, l[i].denom) {
            let k = choose|k: int|
                0 <= k < front.len() && (#[trigger] front[k]).denom == l[i].denom;
            lemma_sorted_distinct(l, k, i);
        }
    }
    lemma_bag_of_unlisted(front, l[i].denom);
    assert(l.take(i + 1).drop_last() =~= front);
}

/// Crediting the coins of a listing one after the other gives the bag back.
pub proof fn lemma_bag_of_listing(l: Seq<CoinView>, b: Bag)
    requires
        is_listing(l, b),
        bag_wf(b),
    ensures
        bag_of(l) == b,
    decreases l.len(),
{
    if l.len() == 0 {
        assert(b =~= empty_bag()) by {
            assert forall|d: Seq<char>| !b.contains_key(d) by {
                if b.contains_key(d) {
                    assert(lists(l, d));
                }
            }
        }
    } else {
        let rest = b.remove(l.last().denom);
        lemma_listing_without_last(l, b);
        lemma_bag_of_listing(l.drop_last(), rest);
        assert(holds(b, l[l.len() - 1]));
        assert(credited(rest, l.last().denom, l.last().amount) =~= b);
    }
}

/// Gathering the coins of a listing gives the bag back.
pub proof fn lemma_gather_listing(l: Seq<CoinView>, b: Bag)
    requires
        is_listing(l, b),
        bag_wf(b),
    ensures
        gather(l) == Some(b),
    decreases l.len(),
{
    if l.len() == 0 {
        lemma_bag_of_listing(l, b);
    } else {
        let rest = b.remove(l.last().denom);
        lemma_listing_without_last(l, b);
        lemma_gather_listing(l.drop_last(), rest);
        assert(holds(b, l[l.len() - 1]));
        assert(rest.insert(l.last().denom, l.last().amount) =~= b);
    }
}

/// If the first coins cannot be gathered, neither can all of them.
pub proof fn lemma_gather_prefix(l: Seq<CoinView>, k: int)
    requires
        0 <= k <= l.len(),
        gather(l.take(k)) is None,
    ensures
        gather(l) is None,
    decreases l.len() - k,
{
    if k < l.len() {
        assert(l.take(k + 1).drop_last() =~= l.take(k));
        lemma_gather_prefix(l, k + 1);
    } else {
        assert(l.take(k) =~= l);
    }
}

} // verus!
