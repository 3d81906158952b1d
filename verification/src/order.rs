//! Stable sorting by an `(order, text, tie)` key: numerically by order, then
//! lexicographically by text, then by tie (by character code, as strings
//! compare).

use vstd::prelude::*;

use crate::lookup::{first_index, lemma_first_index, lemma_first_index_at, lemma_first_index_none};

verus! {

/// A sort key: order, then text, then tie-breaker.
pub type SortKey = (int, Seq<char>, Seq<char>);

/// A value with its sort key.
pub struct Keyed<T> {
    /// Primary key.
    pub order: i64,
    /// Secondary key.
    pub text: String,
    /// Tie-breaking key.
    pub tie: String,
    /// The value sorted.
    pub value: T,
}

/// Whether `a` comes strictly before `b` in lexicographic character order.
pub open spec fn text_lt(a: Seq<char>, b: Seq<char>) -> bool
    decreases a.len(),
{
    if b.len() == 0 {
        false
    } else if a.len() == 0 {
        true
    } else if a[0] != b[0] {
        a[0] < b[0]
    } else {
        text_lt(a.drop_first(), b.drop_first())
    }
}

/// Whether key `a` comes strictly before key `b`.
pub open spec fn key_lt(a: SortKey, b: SortKey) -> bool {
    ||| a.0 < b.0
    ||| a.0 == b.0 && text_lt(a.1, b.1)
    ||| a.0 == b.0 && a.1 == b.1 && text_lt(a.2, b.2)
}

/// The key of a keyed value.
pub open spec fn keyed_key<T>() -> spec_fn(Keyed<T>) -> SortKey {
    |k: Keyed<T>| (k.order as int, k.text@, k.tie@)
}

/// The predicate "comes strictly after `x`".
pub open spec fn after<T>(key: spec_fn(T) -> SortKey, x: T) -> spec_fn(T) -> bool {
    |e: T| key_lt(key(x), key(e))
}

/// `t` with `x` inserted before its first element that comes strictly
/// after `x` (so after every element with an equal key).
pub open spec fn insert_by<T>(t: Seq<T>, x: T, key: spec_fn(T) -> SortKey) -> Seq<T> {
    let i: int = first_index(t, after(key, x));
    if i < 0 {
        t.push(x)
    } else {
        t.insert(i, x)
    }
}

/// The stable sort of `s` by `key`: elements with equal keys keep their order.
pub open spec fn sorted_by<T>(s: Seq<T>, key: spec_fn(T) -> SortKey) -> Seq<T>
    decreases s.len(),
{
    if s.len() == 0 {
        seq![]
    } else {
        insert_by(sorted_by(s.drop_last(), key), s.last(), key)
    }
}

/// Whether text `a` comes strictly before text `b`.
pub fn text_less(a: &str, b: &str) -> (res: bool)
    ensures
        res == text_lt(a@, b@),
{
    let n: usize = a.unicode_len();
    let m: usize = b.unicode_len();
    let mut i: usize = 0;
    assert(a@.skip(0) =~= a@);
    assert(b@.skip(0) =~= b@);
    while i < n && i < m && a.get_char(i) == b.get_char(i)
        invariant
            n == a@.len(),
            m == b@.len(),
            i <= n,
            i <= m,
            text_lt(a@, b@) == text_lt(a@.skip(i as int), b@.skip(i as int)),
        decreases n - i,
    {
        assert(a@.skip(i as int).drop_first() =~= a@.skip(i + 1));
        assert(b@.skip(i as int).drop_first() =~= b@.skip(i + 1));
        i = i + 1;
    }
    if i == m {
        false
    } else if i == n {
        true
    } else {
        a.get_char(i) < b.get_char(i)
    }
}

/// Whether `a` comes strictly before `b`.
pub fn key_less<T>(a: &Keyed<T>, b: &Keyed<T>) -> (res: bool)
    ensures
        res == key_lt(keyed_key()(*a), keyed_key()(*b)),
{
    if a.order != b.order {
        return a.order < b.order;
    }
    if text_less(a.text.as_str(), b.text.as_str()) {
        return true;
    }
    if text_less(b.text.as_str(), a.text.as_str()) {
        proof {
            lemma_text_lt_asym(b.text@, a.text@);
        }
        return false;
    }
    proof {
        lemma_text_lt_total(a.text@, b.text@);
    }
    text_less(a.tie.as_str(), b.tie.as_str())
}

/// Position of the first element that comes strictly after `x`.
fn first_after<T>(t: &Vec<Keyed<T>>, x: &Keyed<T>) -> (res: Option<usize>)
    ensures
        match res {
            Some(p) => p == first_index(t@, after(keyed_key(), *x)),
            None => first_index(t@, after(keyed_key(), *x)) == -1,
        },
{
    let n: usize = t.len();
    let mut j: usize = 0;
    while j < n
        invariant
            n == t.len(),
            j <= n,
            forall|k: int| 0 <= k < j ==> !(after(keyed_key(), *x))(#[trigger] t@[k]),
        decreases n - j,
    {
        if key_less(x, &t[j]) {
            proof {
                lemma_first_index_at(t@, after(keyed_key(), *x), j as int);
            }
            return Some(j);
        }
        j = j + 1;
    }
    proof {
        lemma_first_index_none(t@, after(keyed_key(), *x));
    }
    None
}

/// Sorts by `(order, text, tie)`, keeping the input order among equal keys.
pub fn sort_keyed<T>(v: Vec<Keyed<T>>) -> (res: Vec<Keyed<T>>)
    ensures
        res@ == sorted_by(v@, keyed_key()),
{
    let ghost input: Seq<Keyed<T>> = v@;
    let mut rest: Vec<Keyed<T>> = v;
    let mut out: Vec<Keyed<T>> = Vec::new();
    let n: usize = rest.len();
    let mut done: usize = 0;
    while rest.len() > 0
        invariant
            n == input.len(),
            done + rest.len() == n,
            rest@ == input.skip(done as int),
            out@ == sorted_by(input.take(done as int), keyed_key()),
        decreases rest.len(),
    {
        let x: Keyed<T> = rest.remove(0);
        let ghost t: Seq<Keyed<T>> = out@;
        let pos: Option<usize> = first_after(&out, &x);
        proof {
            assert(input.take(done + 1).drop_last() =~= input.take(done as int));
            assert(input.take(done + 1).last() == x);
        }
        match pos {
            Some(p) => {
                proof {
                    lemma_first_index(t, after(keyed_key(), x));
                }
                out.insert(p, x);
            },
            None => {
                out.push(x);
            },
        }
        proof {
            assert(rest@ =~= input.skip(done + 1));
        }
        done = done + 1;
    }
    assert(input.take(n as int) =~= input);
    out
}

// ─── Laws ───────────────────────────────────────────────────────────────────

/// Whether no element comes strictly before an earlier one.
pub open spec fn is_sorted_by<T>(t: Seq<T>, key: spec_fn(T) -> SortKey) -> bool {
    forall|i: int, j: int| 0 <= i < j < t.len() ==> !key_lt(key(#[trigger] t[j]), key(#[trigger] t[i]))
}

/// Text order is asymmetric.
pub proof fn lemma_text_lt_asym(a: Seq<char>, b: Seq<char>)
    ensures
        text_lt(a, b) ==> !text_lt(b, a),
    decreases a.len(),
{
    if a.len() > 0 && b.len() > 0 {
        lemma_text_lt_asym(a.drop_first(), b.drop_first());
    }
}

/// Text order is total: of two different texts one comes first.
pub proof fn lemma_text_lt_total(a: Seq<char>, b: Seq<char>)
    ensures
        text_lt(a, b) || text_lt(b, a) || a == b,
    decreases a.len(),
{
    if a.len() > 0 && b.len() > 0 {
        lemma_text_lt_total(a.drop_first(), b.drop_first());
        if a[0] == b[0] && a.drop_first() == b.drop_first() {
            assert(a =~= seq![a[0]] + a.drop_first());
            assert(b =~= seq![b[0]] + b.drop_first());
        }
    } else if a.len() == 0 && b.len() == 0 {
        assert(a =~= b);
    }
}

/// Text order is transitive.
pub proof fn lemma_text_lt_trans(a: Seq<char>, b: Seq<char>, c: Seq<char>)
    ensures
        text_lt(a, b) && text_lt(b, c) ==> text_lt(a, c),
    decreases a.len(),
{
    if a.len() > 0 && b.len() > 0 && c.len() > 0 {
        lemma_text_lt_trans(a.drop_first(), b.drop_first(), c.drop_first());
    }
}

/// Key order is asymmetric and transitive.
proof fn lemma_key_lt(a: SortKey, b: SortKey, c: SortKey)
    ensures
        key_lt(a, b) ==> !key_lt(b, a),
        key_lt(a, b) && key_lt(b, c) ==> key_lt(a, c),
{
    lemma_text_lt_asym(a.1, b.1);
    lemma_text_lt_asym(a.2, b.2);
    lemma_text_lt_trans(a.1, b.1, c.1);
    lemma_text_lt_trans(a.2, b.2, c.2);
}

/// The stable sort is sorted by key and holds the same elements.
pub proof fn law_sorted_by<T>(s: Seq<T>, key: spec_fn(T) -> SortKey)
    ensures
        is_sorted_by(sorted_by(s, key), key),
        sorted_by(s, key).to_multiset() == s.to_multiset(),
    decreases s.len(),
{
    broadcast use vstd::seq_lib::to_multiset_build, vstd::seq_lib::to_multiset_insert;

    if s.len() == 0 {
        assert(sorted_by(s, key) =~= s);
    } else {
        let d: Seq<T> = s.drop_last();
        let x: T = s.last();
        law_sorted_by(d, key);
        let t: Seq<T> = sorted_by(d, key);
        lemma_first_index(t, after(key, x));
        let i: int = first_index(t, after(key, x));
        let u: Seq<T> = sorted_by(s, key);
        assert(s =~= d.push(x));
        assert(s.to_multiset() == d.to_multiset().insert(x));
        if i < 0 {
            assert(u == t.push(x));
            assert(u.to_multiset() == t.to_multiset().insert(x));
            assert forall|a: int, b: int| 0 <= a < b < u.len() implies !key_lt(
                key(#[trigger] u[b]),
                key(#[trigger] u[a]),
            ) by {
                if b == t.len() {
                    assert(!(after(key, x))(t[a]));
                }
            }
        } else {
            assert(u == t.insert(i, x));
            assert(u.to_multiset() == t.to_multiset().insert(x));
            assert forall|a: int, b: int| 0 <= a < b < u.len() implies !key_lt(
                key(#[trigger] u[b]),
                key(#[trigger] u[a]),
            ) by {
                if a < i && b < i {
                    assert(u[a] == t[a] && u[b] == t[b]);
                } else if a < i && b == i {
                    assert(!(after(key, x))(t[a]));
                } else if a < i {
                    assert(u[a] == t[a] && u[b] == t[b - 1]);
                } else if a == i {
                    assert(u[b] == t[b - 1]);
                    lemma_key_lt(key(t[b - 1]), key(x), key(t[i]));
                    if b - 1 > i {
                        assert(!key_lt(key(t[b - 1]), key(t[i])));
                    }
                } else {
                    assert(u[a] == t[a - 1] && u[b] == t[b - 1]);
                }
            }
        }
    }
}

/// The predicate "has key `k`".
pub open spec fn with_key<T>(key: spec_fn(T) -> SortKey, k: SortKey) -> spec_fn(T) -> bool {
    |x: T| key(x) == k
}

/// The sort is stable: the elements of any one key come out in the order
/// they came in.
pub proof fn law_sorted_stable<T>(s: Seq<T>, key: spec_fn(T) -> SortKey, k: SortKey)
    ensures
        sorted_by(s, key).filter(with_key(key, k)) == s.filter(with_key(key, k)),
    decreases s.len(),
{
    broadcast use vstd::seq::Seq::filter_distributes_over_add, vstd::seq::Seq::lemma_filter_push;

    let p: spec_fn(T) -> bool = with_key(key, k);
    if s.len() == 0 {
        reveal(Seq::filter);
        assert(sorted_by(s, key) =~= s);
    } else {
        let d: Seq<T> = s.drop_last();
        let x: T = s.last();
        law_sorted_stable(d, key, k);
        law_sorted_by(d, key);
        let t: Seq<T> = sorted_by(d, key);
        assert(s =~= d.push(x));
        lemma_first_index(t, after(key, x));
        let i: int = first_index(t, after(key, x));
        if i >= 0 {
            let u: Seq<T> = t.insert(i, x);
            assert(u =~= t.take(i) + seq![x] + t.skip(i));
            assert(t =~= t.take(i) + t.skip(i));
            reveal_with_fuel(Seq::filter, 2);
            assert(seq![x].filter(p) =~= if p(x) { seq![x] } else { Seq::<T>::empty() }) by {
                assert(seq![x].drop_last() =~= Seq::<T>::empty());
            }
            if p(x) {
                let rest: Seq<T> = t.skip(i);
                assert forall|j: int| 0 <= j < rest.len() implies !p(#[trigger] rest[j]) by {
                    assert(rest[j] == t[i + j]);
                    assert((after(key, x))(t[i]));
                    assert(key_lt(key(x), key(t[i])));
                    if p(rest[j]) {
                        assert(key(t[i + j]) == key(x));
                        if j > 0 {
                            assert(!key_lt(key(t[i + j]), key(t[i])));
                        } else {
                            lemma_key_lt(key(x), key(x), key(x));
                        }
                    }
                }
                rest.lemma_all_neg_filter_empty(p);
                assert(rest.filter(p) =~= Seq::<T>::empty());
                assert(t.filter(p) =~= t.take(i).filter(p));
            }
        }
    }
}

/// Mapping a sequence whose keys the mapping keeps commutes with the first
/// strictly-later position.
proof fn lemma_first_after_map<T, U>(
    t: Seq<T>,
    x: T,
    f: spec_fn(T) -> U,
    k1: spec_fn(T) -> SortKey,
    k2: spec_fn(U) -> SortKey,
)
    requires
        forall|i: int| 0 <= i < t.len() ==> k2(f(#[trigger] t[i])) == k1(t[i]),
        k2(f(x)) == k1(x),
    ensures
        first_index(t.map_values(f), after(k2, f(x))) == first_index(t, after(k1, x)),
    decreases t.len(),
{
    if t.len() > 0 {
        assert forall|i: int| 0 <= i < t.drop_first().len() implies k2(f(#[trigger] t.drop_first()[i]))
            == k1(t.drop_first()[i]) by {
            assert(t.drop_first()[i] == t[i + 1]);
        }
        lemma_first_after_map(t.drop_first(), x, f, k1, k2);
        assert(t.map_values(f).drop_first() =~= t.drop_first().map_values(f));
        assert(k2(f(t[0])) == k1(t[0]));
    }
}

/// Sorting then mapping is mapping then sorting, for a mapping that keeps
/// the keys of the elements sorted.
pub proof fn lemma_sorted_by_map<T, U>(
    s: Seq<T>,
    f: spec_fn(T) -> U,
    k1: spec_fn(T) -> SortKey,
    k2: spec_fn(U) -> SortKey,
)
    requires
        forall|i: int| 0 <= i < s.len() ==> k2(f(#[trigger] s[i])) == k1(s[i]),
    ensures
        sorted_by(s, k1).map_values(f) == sorted_by(s.map_values(f), k2),
    decreases s.len(),
{
    broadcast use vstd::seq_lib::to_multiset_contains;

    if s.len() == 0 {
        assert(sorted_by(s, k1).map_values(f) =~= sorted_by(s.map_values(f), k2));
    } else {
        let d: Seq<T> = s.drop_last();
        assert forall|i: int| 0 <= i < d.len() implies k2(f(#[trigger] d[i])) == k1(d[i]) by {
            assert(d[i] == s[i]);
        }
        lemma_sorted_by_map(d, f, k1, k2);
        assert(s.map_values(f).drop_last() =~= d.map_values(f));
        let t: Seq<T> = sorted_by(d, k1);
        law_sorted_by(d, k1);
        assert forall|i: int| 0 <= i < t.len() implies k2(f(#[trigger] t[i])) == k1(t[i]) by {
            assert(t.to_multiset().count(t[i]) > 0);
            assert(d.to_multiset().count(t[i]) > 0);
            assert(d.contains(t[i]));
            let j: int = choose|j: int| 0 <= j < d.len() && d[j] == t[i];
            assert(k2(f(d[j])) == k1(d[j]));
        }
        assert(k2(f(s.last())) == k1(s.last()));
        lemma_first_after_map(t, s.last(), f, k1, k2);
        lemma_first_index(t, after(k1, s.last()));
        let i: int = first_index(t, after(k1, s.last()));
        if i < 0 {
            assert(t.push(s.last()).map_values(f) =~= t.map_values(f).push(f(s.last())));
        } else {
            assert(t.insert(i, s.last()).map_values(f) =~= t.map_values(f).insert(
                i,
                f(s.last()),
            ));
        }
    }
}

} // verus!
