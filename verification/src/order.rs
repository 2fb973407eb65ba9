//! Stable ordering of a sequence by a ranking of its items.

use vstd::prelude::*;

verus! {

/// A ranking says, of two items, whether the first has to stand before the
/// second. Items of which neither outranks the other are tied.
pub trait Ranked: Sized {
    /// `self` has to stand before `other`.
    spec fn outranks(&self, other: &Self) -> bool;

    /// Decides `outranks`.
    fn ranks_before(&self, other: &Self) -> (b: bool)
        ensures
            b == self.outranks(other),
    ;
}

/// The ranking of a `Ranked` type as a relation.
pub open spec fn ranking_of<T: Ranked>() -> spec_fn(T, T) -> bool {
    |a: T, b: T| a.outranks(&b)
}

/// A relation orders by some key: it never holds both ways, and an item that
/// outranks another outranks, or is outranked by, every third.
pub open spec fn is_ranking_relation<A>(outranks: spec_fn(A, A) -> bool) -> bool {
    &&& forall|a: A, b: A| !(#[trigger] outranks(a, b) && outranks(b, a))
    &&& forall|a: A, b: A, c: A| #[trigger]
        outranks(a, c) ==> #[trigger] outranks(a, b) || #[trigger] outranks(b, c)
}

/// `sorted` with `x` put in front of the first item that does not outrank it.
pub open spec fn insert_ranked<A>(sorted: Seq<A>, x: A, outranks: spec_fn(A, A) -> bool) -> Seq<A>
    decreases sorted.len(),
{
    if sorted.len() == 0 {
        seq![x]
    } else if outranks(sorted[0], x) {
        seq![sorted[0]] + insert_ranked(sorted.skip(1), x, outranks)
    } else {
        seq![x] + sorted
    }
}

/// The items of `s` in ranked order, tied items in the order they have in `s`.
pub open spec fn ranked<A>(s: Seq<A>, outranks: spec_fn(A, A) -> bool) -> Seq<A>
    decreases s.len(),
{
    if s.len() == 0 {
        s
    } else {
        insert_ranked(ranked(s.skip(1), outranks), s[0], outranks)
    }
}

/// The item at position `a` of `s` has to stand before the one at `b`: it
/// outranks it, or the two are tied and `a` comes first.
pub open spec fn stands_before<A>(s: Seq<A>, a: int, b: int, outranks: spec_fn(A, A) -> bool) -> bool {
    outranks(s[a], s[b]) || (!outranks(s[b], s[a]) && a < b)
}

/// `output` holds the items of `input`, the one at `i` taken from position
/// `origin[i]`, each position once, in ranked order with ties in input order.
pub open spec fn is_stable_order<A>(
    input: Seq<A>,
    output: Seq<A>,
    origin: Seq<int>,
    outranks: spec_fn(A, A) -> bool,
) -> bool {
    &&& output.len() == input.len()
    &&& origin.len() == input.len()
    &&& forall|i: int|
        0 <= i < origin.len() ==> 0 <= #[trigger] origin[i] < input.len() && output[i]
            == input[origin[i]]
    &&& forall|i: int, j: int|
        0 <= i < j < origin.len() ==> stands_before(
            input,
            #[trigger] origin[i],
            #[trigger] origin[j],
            outranks,
        )
}

proof fn lemma_insert_len<A>(sorted: Seq<A>, x: A, outranks: spec_fn(A, A) -> bool)
    ensures
        insert_ranked(sorted, x, outranks).len() == sorted.len() + 1,
    decreases sorted.len(),
{
    if sorted.len() > 0 && outranks(sorted[0], x) {
        lemma_insert_len(sorted.skip(1), x, outranks);
    }
}

/// Ranking keeps the number of items.
pub proof fn lemma_ranked_len<A>(s: Seq<A>, outranks: spec_fn(A, A) -> bool)
    ensures
        ranked(s, outranks).len() == s.len(),
    decreases s.len(),
{
    if s.len() > 0 {
        lemma_ranked_len(s.skip(1), outranks);
        lemma_insert_len(ranked(s.skip(1), outranks), s[0], outranks);
    }
}

proof fn lemma_insert_mapped<A, B>(
    sorted: Seq<A>,
    x: A,
    f: spec_fn(A) -> B,
    above: spec_fn(A, A) -> bool,
    image: spec_fn(B, B) -> bool,
)
    requires
        forall|a: A, b: A| #[trigger] above(a, b) == image(f(a), f(b)),
    ensures
        insert_ranked(sorted, x, above).map_values(f) == insert_ranked(
            sorted.map_values(f),
            f(x),
            image,
        ),
    decreases sorted.len(),
{
    let mapped = sorted.map_values(f);
    if sorted.len() == 0 {
        assert(seq![x].map_values(f) =~= seq![f(x)]);
    } else if above(sorted[0], x) {
        lemma_insert_mapped(sorted.skip(1), x, f, above, image);
        assert(sorted.skip(1).map_values(f) =~= mapped.skip(1));
        assert((seq![sorted[0]] + insert_ranked(sorted.skip(1), x, above)).map_values(f) =~= seq![
            mapped[0],
        ] + insert_ranked(sorted.skip(1), x, above).map_values(f));
    } else {
        assert((seq![x] + sorted).map_values(f) =~= seq![f(x)] + mapped);
    }
}

/// Ranking commutes with a map under which the ranking is kept: to rank the
/// items and then map them is to map them and then rank the images.
pub proof fn lemma_ranked_mapped<A, B>(
    s: Seq<A>,
    f: spec_fn(A) -> B,
    above: spec_fn(A, A) -> bool,
    image: spec_fn(B, B) -> bool,
)
    requires
        forall|a: A, b: A| #[trigger] above(a, b) == image(f(a), f(b)),
    ensures
        ranked(s, above).map_values(f) == ranked(s.map_values(f), image),
    decreases s.len(),
{
    if s.len() == 0 {
        assert(s.map_values(f) =~= Seq::<B>::empty());
        assert(ranked(s, above).map_values(f) =~= Seq::<B>::empty());
    } else {
        lemma_ranked_mapped(s.skip(1), f, above, image);
        lemma_insert_mapped(ranked(s.skip(1), above), s[0], f, above, image);
        assert(s.skip(1).map_values(f) =~= s.map_values(f).skip(1));
    }
}

/// Where `x` goes when it is inserted into `sorted`: behind the items at the
/// front that outrank it.
pub open spec fn insert_position<A>(sorted: Seq<A>, x: A, outranks: spec_fn(A, A) -> bool) -> int
    decreases sorted.len(),
{
    if sorted.len() == 0 || !outranks(sorted[0], x) {
        0
    } else {
        1 + insert_position(sorted.skip(1), x, outranks)
    }
}

/// Insertion puts the new item at its position and leaves the others as they are.
pub proof fn lemma_insert_at_position<A>(sorted: Seq<A>, x: A, outranks: spec_fn(A, A) -> bool)
    ensures
        0 <= insert_position(sorted, x, outranks) <= sorted.len(),
        insert_ranked(sorted, x, outranks) == sorted.insert(
            insert_position(sorted, x, outranks),
            x,
        ),
        forall|k: int|
            0 <= k < insert_position(sorted, x, outranks) ==> outranks(#[trigger] sorted[k], x),
        insert_position(sorted, x, outranks) < sorted.len() ==> !outranks(
            sorted[insert_position(sorted, x, outranks)],
            x,
        ),
    decreases sorted.len(),
{
    if sorted.len() == 0 {
        assert(insert_ranked(sorted, x, outranks) =~= sorted.insert(0, x));
    } else if !outranks(sorted[0], x) {
        assert(insert_ranked(sorted, x, outranks) =~= sorted.insert(0, x));
    } else {
        let tail = sorted.skip(1);
        lemma_insert_at_position(tail, x, outranks);
        let p = insert_position(tail, x, outranks);
        assert(seq![sorted[0]] + tail.insert(p, x) =~= sorted.insert(p + 1, x));
        assert forall|k: int| 0 <= k < p + 1 implies outranks(#[trigger] sorted[k], x) by {
            if k > 0 {
                assert(sorted[k] == tail[k - 1]);
            }
        }
        if p + 1 < sorted.len() {
            assert(sorted[p + 1] == tail[p]);
        }
    }
}

/// Ranking neither adds nor drops an item: the result holds each item as
/// often as the input does.
pub proof fn lemma_ranked_same_items<A>(s: Seq<A>, outranks: spec_fn(A, A) -> bool)
    ensures
        ranked(s, outranks).to_multiset() == s.to_multiset(),
    decreases s.len(),
{
    if s.len() > 0 {
        let tail = s.skip(1);
        lemma_ranked_same_items(tail, outranks);
        lemma_insert_at_position(ranked(tail, outranks), s[0], outranks);
        vstd::seq_lib::to_multiset_insert(
            ranked(tail, outranks),
            insert_position(ranked(tail, outranks), s[0], outranks),
            s[0],
        );
        vstd::seq_lib::to_multiset_insert(tail, 0, s[0]);
        assert(tail.insert(0, s[0]) =~= s);
    }
}

/// Where each item of `ranked(s)` stands in `s`.
pub open spec fn ranked_origin<A>(s: Seq<A>, outranks: spec_fn(A, A) -> bool) -> Seq<int>
    decreases s.len(),
{
    if s.len() == 0 {
        Seq::empty()
    } else {
        ranked_origin(s.skip(1), outranks).map_values(|k: int| k + 1).insert(
            insert_position(ranked(s.skip(1), outranks), s[0], outranks),
            0,
        )
    }
}

/// Ranking is a stable sort: under a relation that orders by some key, the
/// result is in ranked order, and tied items keep the order they had.
/// `ranked_origin` says where each item of the result stood.
pub proof fn lemma_ranked_is_stable<A>(s: Seq<A>, outranks: spec_fn(A, A) -> bool)
    requires
        is_ranking_relation(outranks),
    ensures
        is_stable_order(s, ranked(s, outranks), ranked_origin(s, outranks), outranks),
    decreases s.len(),
{
    if s.len() > 0 {
        let tail = s.skip(1);
        let sorted = ranked(tail, outranks);
        let origin = ranked_origin(tail, outranks);
        let shifted = origin.map_values(|k: int| k + 1);
        let x = s[0];
        let p = insert_position(sorted, x, outranks);
        lemma_ranked_is_stable(tail, outranks);
        lemma_insert_at_position(sorted, x, outranks);
        let out = ranked(s, outranks);
        let from = ranked_origin(s, outranks);
        assert(out == sorted.insert(p, x));
        assert(from == shifted.insert(p, 0));
        assert forall|i: int| 0 <= i < from.len() implies 0 <= #[trigger] from[i] < s.len()
            && out[i] == s[from[i]] by {
            if i < p {
                assert(from[i] == origin[i] + 1);
                assert(s[origin[i] + 1] == tail[origin[i]]);
            } else if i > p {
                assert(from[i] == origin[i - 1] + 1);
                assert(s[origin[i - 1] + 1] == tail[origin[i - 1]]);
            }
        }
        assert forall|i: int, j: int| 0 <= i < j < from.len() implies stands_before(
            s,
            #[trigger] from[i],
            #[trigger] from[j],
            outranks,
        ) by {
            let a = if i < p {
                i
            } else {
                i - 1
            };
            let b = if j < p {
                j
            } else {
                j - 1
            };
            if i != p && j != p {
                assert(from[i] == origin[a] + 1 && from[j] == origin[b] + 1);
                assert(s[origin[a] + 1] == tail[origin[a]]);
                assert(s[origin[b] + 1] == tail[origin[b]]);
                assert(stands_before(tail, origin[a], origin[b], outranks));
            } else if j == p {
                assert(from[i] == origin[i] + 1);
                assert(s[origin[i] + 1] == sorted[i]);
                assert(outranks(sorted[i], x));
            } else {
                assert(from[j] == origin[b] + 1);
                assert(s[origin[b] + 1] == sorted[b]);
                assert(sorted[b] == tail[origin[b]]);
                assert(!outranks(sorted[p], x));
                if b > p {
                    assert(sorted[p] == tail[origin[p]]);
                    assert(stands_before(tail, origin[p], origin[b], outranks));
                    assert(outranks(sorted[b], x) ==> outranks(sorted[b], sorted[p]) || outranks(
                        sorted[p],
                        x,
                    ));
                    assert(!(outranks(sorted[b], sorted[p]) && outranks(sorted[p], sorted[b])));
                }
            }
        }
    }
}

/// Sorts `v` into ranked order, keeping tied items in their order.
pub fn sort_ranked<T: Ranked>(v: Vec<T>) -> (out: Vec<T>)
    ensures
        out@ == ranked(v@, ranking_of::<T>()),
{
    let ghost input = v@;
    let ghost above = ranking_of::<T>();
    let mut rest = v;
    let mut out: Vec<T> = Vec::new();
    assert(input.skip(input.len() as int) =~= Seq::<T>::empty());
    while rest.len() > 0
        invariant
            above == ranking_of::<T>(),
            rest@ == input.take(rest@.len() as int),
            rest@.len() <= input.len(),
            out@ == ranked(input.skip(rest@.len() as int), above),
        decreases rest.len(),
    {
        let ghost m = rest@.len() - 1;
        let ghost tail = input.skip(m + 1);
        let x = rest.pop().unwrap();
        assert(x == input[m]);
        assert(rest@ =~= input.take(m));
        assert(input.skip(m).skip(1) =~= tail);
        assert(input.skip(m)[0] == x);
        let ghost before = out@;
        let mut p: usize = 0;
        assert(before.skip(0) =~= before);
        assert(before.take(0) + insert_ranked(before.skip(0), x, above) =~= insert_ranked(
            before,
            x,
            above,
        ));
        while p < out.len() && out[p].ranks_before(&x)
            invariant
                above == ranking_of::<T>(),
                out@ == before,
                p <= out.len(),
                before.take(p as int) + insert_ranked(before.skip(p as int), x, above)
                    == insert_ranked(before, x, above),
            decreases out.len() - p,
        {
            assert(before.skip(p as int)[0] == before[p as int]);
            assert(above(before[p as int], x));
            assert(before.skip(p as int).skip(1) =~= before.skip(p + 1));
            assert(before.take(p + 1) =~= before.take(p as int) + seq![before[p as int]]);
            assert(before.take(p + 1) + insert_ranked(before.skip(p + 1), x, above)
                =~= before.take(p as int) + (seq![before[p as int]] + insert_ranked(
                before.skip(p + 1),
                x,
                above,
            )));
            p += 1;
        }
        proof {
            if p < before.len() {
                assert(before.skip(p as int)[0] == before[p as int]);
                assert(!above(before[p as int], x));
            }
            assert(before.insert(p as int, x) =~= before.take(p as int) + (seq![x] + before.skip(
                p as int,
            )));
        }
        out.insert(p, x);
    }
    assert(rest@.len() == 0);
    assert(input.skip(0) =~= input);
    out
}

} // verus!
