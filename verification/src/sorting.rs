//! Stable sorting by a key, as `slice::sort_by_key` performs it.
//!
//! A stable sort has exactly one result: elements ordered by their key, ties
//! kept in input order. `isort` states that result by insertion (each element
//! goes after every earlier element whose key is not greater), and
//! `stable_sort` computes it.

use vstd::prelude::*;

verus! {

/// Types with a total preorder on a sort key.
pub trait SortKey: Sized + Copy {
    /// `self.key <= other.key`.
    spec fn key_le(self, other: Self) -> bool;

    fn key_le_exec(&self, other: &Self) -> (r: bool)
        ensures
            r == self.key_le(*other),
    ;
}

/// Position at which a stable insertion puts `x` into `s`: before the first
/// element whose key is greater than the key of `x`.
pub open spec fn insert_pos<T: SortKey>(s: Seq<T>, x: T) -> int
    decreases s.len(),
{
    if s.len() == 0 {
        0
    } else if !s[0].key_le(x) {
        0
    } else {
        1 + insert_pos(s.drop_first(), x)
    }
}

/// Stable sort of `s` by key.
pub open spec fn isort<T: SortKey>(s: Seq<T>) -> Seq<T>
    decreases s.len(),
{
    if s.len() == 0 {
        s
    } else {
        let prefix = isort(s.drop_last());
        prefix.insert(insert_pos(prefix, s.last()), s.last())
    }
}

proof fn lemma_insert_pos_bounds<T: SortKey>(s: Seq<T>, x: T)
    ensures
        0 <= insert_pos(s, x) <= s.len(),
    decreases s.len(),
{
    if s.len() > 0 && s[0].key_le(x) {
        lemma_insert_pos_bounds(s.drop_first(), x);
    }
}

pub proof fn lemma_isort_len<T: SortKey>(s: Seq<T>)
    ensures
        isort(s).len() == s.len(),
    decreases s.len(),
{
    if s.len() > 0 {
        lemma_isort_len(s.drop_last());
        lemma_insert_pos_bounds(isort(s.drop_last()), s.last());
    }
}

/// Sorting keeps the elements: the result holds each input element as often.
pub proof fn lemma_isort_multiset<T: SortKey>(s: Seq<T>)
    ensures
        isort(s).to_multiset() == s.to_multiset(),
    decreases s.len(),
{
    broadcast use vstd::seq_lib::group_to_multiset_ensures;

    if s.len() > 0 {
        let prefix = isort(s.drop_last());
        lemma_isort_multiset(s.drop_last());
        lemma_insert_pos_bounds(prefix, s.last());
        prefix.insert_ensures(insert_pos(prefix, s.last()), s.last());
        let p = insert_pos(prefix, s.last());
        let ins = prefix.insert(p, s.last());
        assert(ins == prefix.subrange(0, p) + seq![s.last()] + prefix.subrange(
            p,
            prefix.len() as int,
        ));
        assert(prefix == prefix.subrange(0, p) + prefix.subrange(p, prefix.len() as int));
        vstd::seq_lib::lemma_multiset_commutative(prefix.subrange(0, p), prefix.subrange(p, prefix.len() as int));
        vstd::seq_lib::lemma_multiset_commutative(
            prefix.subrange(0, p) + seq![s.last()],
            prefix.subrange(p, prefix.len() as int),
        );
        vstd::seq_lib::lemma_multiset_commutative(prefix.subrange(0, p), seq![s.last()]);
        assert(s == s.drop_last().push(s.last()));
    }
}

/// Inserts `x` into `v` at its stable position.
fn insert_sorted<T: SortKey>(v: &mut Vec<T>, x: T)
    ensures
        final(v)@ == old(v)@.insert(insert_pos(old(v)@, x), x),
{
    let ghost s = v@;
    let mut j: usize = 0;
    assert(s.subrange(0, s.len() as int) == s);
    while j < v.len() && v[j].key_le_exec(&x)
        invariant
            j <= v.len(),
            v@ == s,
            insert_pos(s, x) == j + insert_pos(s.subrange(j as int, s.len() as int), x),
        decreases v.len() - j,
    {
        let ghost rest = s.subrange(j as int, s.len() as int);
        assert(rest.drop_first() == s.subrange(j + 1, s.len() as int));
        j += 1;
    }
    proof {
        let rest = s.subrange(j as int, s.len() as int);
        if j < s.len() {
            assert(rest[0] == s[j as int]);
        }
    }
    v.insert(j, x);
}

/// Stable sort by key, as `sort_by_key` orders.
pub fn stable_sort<T: SortKey>(input: &[T]) -> (r: Vec<T>)
    ensures
        r@ == isort(input@),
{
    let mut r: Vec<T> = Vec::new();
    let mut i: usize = 0;
    while i < input.len()
        invariant
            i <= input.len(),
            r@ == isort(input@.take(i as int)),
        decreases input.len() - i,
    {
        let ghost pre = input@.take(i as int);
        let ghost next = input@.take(i + 1);
        assert(next.drop_last() == pre);
        assert(next.last() == input@[i as int]);
        insert_sorted(&mut r, input[i]);
        i += 1;
    }
    assert(input@.take(input.len() as int) == input@);
    r
}

impl SortKey for i64 {
    open spec fn key_le(self, other: Self) -> bool {
        self <= other
    }

    fn key_le_exec(&self, other: &Self) -> (r: bool) {
        *self <= *other
    }
}

impl SortKey for u64 {
    open spec fn key_le(self, other: Self) -> bool {
        self <= other
    }

    fn key_le_exec(&self, other: &Self) -> (r: bool) {
        *self <= *other
    }
}

/// The key order is total and transitive.
pub open spec fn total_preorder<T: SortKey>() -> bool {
    &&& forall|a: T, b: T| #![trigger a.key_le(b)] a.key_le(b) || b.key_le(a)
    &&& forall|a: T, b: T, c: T|
        #![trigger a.key_le(b), b.key_le(c)]
        a.key_le(b) && b.key_le(c) ==> a.key_le(c)
}

/// Ascending by key.
pub open spec fn sorted_by_key<T: SortKey>(s: Seq<T>) -> bool {
    forall|i: int, j: int| 0 <= i < j < s.len() ==> (#[trigger] s[i]).key_le(#[trigger] s[j])
}

proof fn lemma_insert_pos_split<T: SortKey>(p: Seq<T>, x: T)
    ensures
        0 <= insert_pos(p, x) <= p.len(),
        forall|i: int| 0 <= i < insert_pos(p, x) ==> (#[trigger] p[i]).key_le(x),
        insert_pos(p, x) < p.len() ==> !p[insert_pos(p, x)].key_le(x),
    decreases p.len(),
{
    if p.len() > 0 && p[0].key_le(x) {
        let q = p.drop_first();
        lemma_insert_pos_split(q, x);
        assert forall|i: int| 0 <= i < insert_pos(p, x) implies (#[trigger] p[i]).key_le(x) by {
            if i > 0 {
                assert(p[i] == q[i - 1]);
            }
        }
        if insert_pos(p, x) < p.len() {
            assert(p[insert_pos(p, x)] == q[insert_pos(q, x)]);
        }
    }
}

/// Under a total preorder the sort result is ascending by key.
pub proof fn lemma_isort_ascending<T: SortKey>(s: Seq<T>)
    requires
        total_preorder::<T>(),
    ensures
        sorted_by_key(isort(s)),
    decreases s.len(),
{
    lemma_isort_len(s);
    if s.len() > 0 {
        let pre = s.drop_last();
        let x = s.last();
        lemma_isort_ascending(pre);
        lemma_isort_len(pre);
        let p = isort(pre);
        lemma_insert_pos_split(p, x);
        let pos = insert_pos(p, x);
        let r = p.insert(pos, x);
        assert(isort(s) == r);
        assert forall|i: int, j: int| 0 <= i < j < r.len() implies (#[trigger] r[i]).key_le(
            #[trigger] r[j],
        ) by {
            if j < pos {
                assert(r[i] == p[i] && r[j] == p[j]);
            } else if j == pos {
                assert(r[i] == p[i]);
            } else if i < pos {
                assert(r[i] == p[i] && r[j] == p[j - 1]);
                assert(p[i].key_le(x));
                assert(!p[pos].key_le(x));
                assert(x.key_le(p[pos]));
                if pos < j - 1 {
                    assert(p[pos].key_le(p[j - 1]));
                }
                assert(x.key_le(p[j - 1]));
            } else if i == pos {
                assert(r[j] == p[j - 1]);
                assert(!p[pos].key_le(x));
                assert(x.key_le(p[pos]));
                if pos < j - 1 {
                    assert(p[pos].key_le(p[j - 1]));
                }
            } else {
                assert(r[i] == p[i - 1] && r[j] == p[j - 1]);
            }
        }
    }
}

pub proof fn lemma_i64_total_preorder()
    ensures
        total_preorder::<i64>(),
{
}

} // verus!
