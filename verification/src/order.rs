//! Ordering of members and documents: character-code lexicographic string
//! order, the `(declaring file, line)` member order with absent values
//! first, a verified sort, and the law that sorting is a function of the
//! element multiset alone.

use vstd::prelude::*;

use vstd::relations::{strongly_connected, transitive};
use vstd::relations::sorted_by;
use vstd::multiset::Multiset;
use crate::strutil::strs_view;

verus! {

// ------------------------------------------------------------------
// Character-code lexicographic order on character sequences.

/// Whether `a` is strictly before `b` lexicographically, comparing
/// character codes from position `i` on.
pub open spec fn chars_lt_from(a: Seq<char>, b: Seq<char>, i: int) -> bool
    decreases a.len() - i,
{
    if i >= b.len() {
        false
    } else if i >= a.len() {
        true
    } else if a[i] != b[i] {
        a[i] < b[i]
    } else {
        chars_lt_from(a, b, i + 1)
    }
}

/// Strict character-code lexicographic order.
pub open spec fn chars_lt(a: Seq<char>, b: Seq<char>) -> bool {
    chars_lt_from(a, b, 0)
}

/// Character-code lexicographic order.
pub open spec fn chars_le(a: Seq<char>, b: Seq<char>) -> bool {
    chars_lt(a, b) || a == b
}

proof fn lemma_chars_lt_from_connected(a: Seq<char>, b: Seq<char>, i: int)
    requires
        0 <= i <= a.len(),
        i <= b.len(),
        forall|j: int| 0 <= j < i ==> a[j] == b[j],
    ensures
        a == b || chars_lt_from(a, b, i) || chars_lt_from(b, a, i),
    decreases a.len() - i,
{
    if i >= b.len() {
        if i >= a.len() {
            assert(a =~= b);
        }
    } else if i >= a.len() {
    } else if a[i] != b[i] {
        assert(chars_lt_from(a, b, i) || chars_lt_from(b, a, i));
    } else {
        lemma_chars_lt_from_connected(a, b, i + 1);
    }
}

proof fn lemma_chars_lt_from_asymmetric(a: Seq<char>, b: Seq<char>, i: int)
    requires
        0 <= i,
        chars_lt_from(a, b, i),
    ensures
        !chars_lt_from(b, a, i),
    decreases a.len() - i,
{
    if i >= b.len() {
    } else if i >= a.len() {
    } else if a[i] != b[i] {
    } else {
        lemma_chars_lt_from_asymmetric(a, b, i + 1);
    }
}

proof fn lemma_chars_lt_from_transitive(a: Seq<char>, b: Seq<char>, c: Seq<char>, i: int)
    requires
        0 <= i,
        chars_lt_from(a, b, i),
        chars_lt_from(b, c, i),
    ensures
        chars_lt_from(a, c, i),
    decreases b.len() - i,
{
    if i >= c.len() {
        // impossible: chars_lt_from(b, c, i) would be false
    } else if i >= b.len() {
        // then chars_lt_from(a, b, i) forces i >= a.len()... which cannot be
    } else if i >= a.len() {
    } else {
        if a[i] == b[i] && b[i] == c[i] {
            lemma_chars_lt_from_transitive(a, b, c, i + 1);
        }
    }
}

/// The lexicographic order is total: any two sequences compare.
pub proof fn lemma_chars_le_total(a: Seq<char>, b: Seq<char>)
    ensures
        chars_le(a, b) || chars_le(b, a),
        chars_le(a, b) && chars_le(b, a) ==> a == b,
{
    lemma_chars_lt_from_connected(a, b, 0);
    if chars_lt(a, b) {
        lemma_chars_lt_from_asymmetric(a, b, 0);
    }
}

/// The lexicographic order is transitive.
pub proof fn lemma_chars_le_trans(a: Seq<char>, b: Seq<char>, c: Seq<char>)
    requires
        chars_le(a, b),
        chars_le(b, c),
    ensures
        chars_le(a, c),
{
    if chars_lt(a, b) && chars_lt(b, c) {
        lemma_chars_lt_from_transitive(a, b, c, 0);
    }
}

/// Whether `a` is strictly before `b`, decided executably.
pub fn str_lt(a: &str, b: &str) -> (r: bool)
    ensures
        r == chars_lt(a@, b@),
{
    let av = crate::strutil::chars_of(a);
    let bv = crate::strutil::chars_of(b);
    let mut i: usize = 0;
    loop
        invariant
            av@ == a@,
            bv@ == b@,
            0 <= i <= av@.len(),
            i <= bv@.len(),
            chars_lt(a@, b@) == chars_lt_from(a@, b@, i as int),
        decreases av@.len() + 1 - i,
    {
        if i >= bv.len() {
            return false;
        }
        if i >= av.len() {
            return true;
        }
        let ca = av[i];
        let cb = bv[i];
        if ca != cb {
            return ca < cb;
        }
        i = i + 1;
    }
}

// ------------------------------------------------------------------
// The member order: by declaring file, then line, absent values first.

/// Optional strings ordered with `None` first, then lexicographically.
pub open spec fn le_opt_chars(a: Option<Seq<char>>, b: Option<Seq<char>>) -> bool {
    match (a, b) {
        (Option::None, _) => true,
        (Option::Some(_), Option::None) => false,
        (Option::Some(x), Option::Some(y)) => chars_le(x, y),
    }
}

/// Optional numbers ordered with `None` first.
pub open spec fn le_opt_u32(a: Option<u32>, b: Option<u32>) -> bool {
    match (a, b) {
        (Option::None, _) => true,
        (Option::Some(_), Option::None) => false,
        (Option::Some(x), Option::Some(y)) => x <= y,
    }
}

/// The member order: by file, then by line, absent values first.
pub open spec fn file_line_le(
    fa: Option<Seq<char>>,
    la: Option<u32>,
    fb: Option<Seq<char>>,
    lb: Option<u32>,
) -> bool {
    if fa == fb {
        le_opt_u32(la, lb)
    } else {
        le_opt_chars(fa, fb)
    }
}

/// The member order compares any two keys.
pub proof fn lemma_file_line_le_total(
    fa: Option<Seq<char>>,
    la: Option<u32>,
    fb: Option<Seq<char>>,
    lb: Option<u32>,
)
    ensures
        file_line_le(fa, la, fb, lb) || file_line_le(fb, lb, fa, la),
{
    match (fa, fb) {
        (Option::Some(x), Option::Some(y)) => {
            lemma_chars_le_total(x, y);
        },
        _ => {},
    }
}

/// The member order is transitive.
pub proof fn lemma_file_line_le_trans(
    fa: Option<Seq<char>>,
    la: Option<u32>,
    fb: Option<Seq<char>>,
    lb: Option<u32>,
    fc: Option<Seq<char>>,
    lc: Option<u32>,
)
    requires
        file_line_le(fa, la, fb, lb),
        file_line_le(fb, lb, fc, lc),
    ensures
        file_line_le(fa, la, fc, lc),
{
    match (fa, fb, fc) {
        (Option::Some(x), Option::Some(y), Option::Some(z)) => {
            lemma_chars_le_total(x, y);
            lemma_chars_le_total(y, z);
            lemma_chars_le_total(x, z);
            lemma_chars_le_trans(x, y, z);
        },
        _ => {},
    }
}

/// The member order, decided executably.
pub fn file_line_le_exec(
    fa: &Option<String>,
    la: Option<u32>,
    fb: &Option<String>,
    lb: Option<u32>,
) -> (r: bool)
    ensures
        r == file_line_le(
            crate::types::ostr_view(*fa),
            la,
            crate::types::ostr_view(*fb),
            lb,
        ),
{
    let same_file: bool = match (fa, fb) {
        (Option::None, Option::None) => true,
        (Option::Some(x), Option::Some(y)) => crate::strutil::str_eq(x.as_str(), y.as_str()),
        _ => false,
    };
    if same_file {
        match (la, lb) {
            (Option::None, _) => true,
            (Option::Some(_), Option::None) => false,
            (Option::Some(x), Option::Some(y)) => x <= y,
        }
    } else {
        match (fa, fb) {
            (Option::None, _) => true,
            (Option::Some(_), Option::None) => false,
            (Option::Some(x), Option::Some(y)) => {
                proof {
                    lemma_chars_le_total(x@, y@);
                }
                str_lt(x.as_str(), y.as_str())
            },
        }
    }
}

// ------------------------------------------------------------------
// A verified sort, generic in the element type and its order.

/// Sorts the vector by the given order.  The comparator must decide the
/// ghost order `le`, which must compare any two elements and be
/// transitive; the result is sorted by `le` and holds exactly the input
/// elements.
pub fn sort_by_le<T>(
    v: Vec<T>,
    leq: impl Fn(&T, &T) -> bool,
    Ghost(le): Ghost<spec_fn(T, T) -> bool>,
) -> (r: Vec<T>)
    requires
        forall|x: &T, y: &T| #[trigger] call_requires(leq, (x, y)),
        forall|x: &T, y: &T, b: bool| #[trigger] call_ensures(leq, (x, y), b) ==> b == le(*x, *y),
        strongly_connected(le),
        transitive(le),
    ensures
        r@.to_multiset() == v@.to_multiset(),
        sorted_by(r@, le),
{
    broadcast use vstd::seq_lib::group_to_multiset_ensures;
    broadcast use vstd::multiset::group_multiset_axioms;
    broadcast use vstd::multiset::lemma_multiset_empty_len;

    let mut src = v;
    let mut r: Vec<T> = Vec::new();
    proof {
        assert(r@.to_multiset().len() == 0);
        assert(r@.to_multiset() =~= Multiset::<T>::empty());
        assert(r@.to_multiset().add(src@.to_multiset()) =~= v@.to_multiset());
        assert(sorted_by(r@, le));
    }
    while src.len() > 0
        invariant
            forall|x: &T, y: &T| #[trigger] call_requires(leq, (x, y)),
            forall|x: &T, y: &T, b: bool| #[trigger] call_ensures(leq, (x, y), b) ==> b == le(
                *x,
                *y,
            ),
            strongly_connected(le),
            transitive(le),
            r@.to_multiset().add(src@.to_multiset()) == v@.to_multiset(),
            sorted_by(r@, le),
            forall|i: int, j: int| 0 <= i < r@.len() && 0 <= j < src@.len() ==> le(
                #[trigger] r@[i],
                #[trigger] src@[j],
            ),
        decreases src@.len(),
    {
        // position of a least remaining element
        let mut m: usize = 0;
        let mut k: usize = 1;
        while k < src.len()
            invariant
                forall|x: &T, y: &T| #[trigger] call_requires(leq, (x, y)),
                forall|x: &T, y: &T, b: bool| #[trigger] call_ensures(leq, (x, y), b) ==> b == le(
                    *x,
                    *y,
                ),
                strongly_connected(le),
                transitive(le),
                0 < src@.len(),
                m < k <= src@.len(),
                forall|j: int| 0 <= j < k ==> le(src@[m as int], #[trigger] src@[j]),
            decreases src@.len() - k,
        {
            if leq(&src[k], &src[m]) {
                assert(le(src@[k as int], src@[m as int]));
                assert forall|j: int| 0 <= j < k + 1 implies le(
                    src@[k as int],
                    #[trigger] src@[j],
                ) by {
                    if j < k {
                        assert(le(src@[m as int], src@[j]));
                    }
                }
                m = k;
            } else {
                assert(!le(src@[k as int], src@[m as int]));
                assert(le(src@[m as int], src@[k as int]));
            }
            k = k + 1;
        }
        let ghost src0 = src@;
        let ghost r0 = r@;
        let x = src.remove(m);
        r.push(x);
        proof {
            src0.to_multiset_ensures();
            r0.to_multiset_ensures();
            assert(src@ == src0.remove(m as int));
            assert(src0.remove(m as int).to_multiset() =~= src0.to_multiset().remove(
                src0[m as int],
            ));
            assert(src0.to_multiset().remove(x) =~= src@.to_multiset());
            assert(r@ == r0.push(x));
            assert(r0.push(x).to_multiset() =~= r0.to_multiset().insert(x));
            assert(r@.to_multiset() =~= r0.to_multiset().insert(x));
            assert(src0.to_multiset().contains(x)) by {
                assert(src0.contains(src0[m as int]));
            }
            assert(r@.to_multiset().add(src@.to_multiset()) =~= v@.to_multiset());
            // the chosen element stays below everything left
            assert forall|j: int| 0 <= j < src@.len() implies le(x, #[trigger] src@[j]) by {
                if j < m {
                    assert(src@[j] == src0[j]);
                } else {
                    assert(src@[j] == src0[j + 1]);
                }
            }
            // and above everything placed
            assert(sorted_by(r@, le)) by {
                assert(forall|i: int| 0 <= i < r0.len() ==> le(#[trigger] r0[i], x));
                assert(forall|i: int, j: int| 0 <= i < j < r@.len() && j < r0.len() ==> le(
                    #[trigger] r@[i],
                    #[trigger] r@[j],
                ));
            }
            assert forall|i: int, j: int| 0 <= i < r@.len() && 0 <= j < src@.len() implies le(
                #[trigger] r@[i],
                #[trigger] src@[j],
            ) by {
                if i < r0.len() {
                    assert(le(r@[i], x)) by {
                        assert(r@[i] == r0[i]);
                    }
                    assert(le(x, src@[j]));
                } else {
                    assert(r@[i] == x);
                }
            }
        }
    }
    proof {
        src@.to_multiset_ensures();
        assert(src@.to_multiset().len() == 0);
        assert(src@.to_multiset() =~= Multiset::<T>::empty());
        assert(r@.to_multiset() =~= v@.to_multiset());
    }
    r
}

// ------------------------------------------------------------------
// Law: a sorted sequence is determined by its elements.  Re-running the
// pipeline on reordered input feeds each sort the same multiset of
// members, so each container comes out in the same order — provided no
// two distinct members share a sort key, which is what the antisymmetry
// premise says.

/// Law: two sequences sorted by the same order, holding the same
/// elements, are equal, when the order tells the elements involved apart.
pub proof fn lemma_sorted_unique<T>(x: Seq<T>, y: Seq<T>, le: spec_fn(T, T) -> bool)
    requires
        sorted_by(x, le),
        sorted_by(y, le),
        strongly_connected(le),
        forall|a: T, b: T| x.to_multiset().contains(a) && x.to_multiset().contains(b) && le(a, b)
            && le(b, a) ==> a == b,
        x.to_multiset() == y.to_multiset(),
    ensures
        x == y,
    decreases x.len(),
{
    broadcast use vstd::seq_lib::group_to_multiset_ensures;
    broadcast use vstd::multiset::group_multiset_axioms;

    x.to_multiset_ensures();
    y.to_multiset_ensures();
    if x.len() == 0 {
        assert(y.to_multiset().len() == 0);
        assert(x =~= y);
    } else if y.len() == 0 {
        assert(x.to_multiset().len() == 0);
        assert(x =~= y);
    } else {
        assert(x.to_multiset().contains(x[0])) by {
            assert(x.contains(x[0]));
        }
        assert(y.to_multiset().contains(y[0])) by {
            assert(y.contains(y[0]));
        }
        assert(x.contains(y[0])) by {
            assert(x.to_multiset().contains(y[0]));
        }
        assert(y.contains(x[0])) by {
            assert(y.to_multiset().contains(x[0]));
        }
        let i = choose|i: int| 0 <= i < x.len() && x[i] == y[0];
        let j = choose|j: int| 0 <= j < y.len() && y[j] == x[0];
        assert(le(x[0], x[i]) || i == 0);
        assert(le(y[0], y[j]) || j == 0);
        assert(le(x[0], y[0]) || x[0] == y[0]);
        assert(le(y[0], x[0]) || x[0] == y[0]);
        assert(x[0] == y[0]) by {
            if le(x[0], y[0]) && le(y[0], x[0]) {
                assert(x.to_multiset().contains(x[0]));
                assert(x.to_multiset().contains(y[0]));
            }
        }
        assert(x.drop_first().to_multiset() =~= x.to_multiset().remove(x[0])) by {
            x.drop_first().to_multiset_ensures();
            assert(x.drop_first().push(x[0]).to_multiset() =~= x.drop_first().to_multiset().insert(
                x[0],
            ));
            assert(x.drop_first().push(x[0]).to_multiset() =~= x.to_multiset()) by {
                lemma_multiset_push_front_back(x);
            }
        }
        assert(y.drop_first().to_multiset() =~= y.to_multiset().remove(y[0])) by {
            y.drop_first().to_multiset_ensures();
            lemma_multiset_push_front_back(y);
            assert(y.drop_first().push(y[0]).to_multiset() =~= y.drop_first().to_multiset().insert(
                y[0],
            ));
        }
        assert(sorted_by(x.drop_first(), le)) by {
            assert(forall|p: int, q: int| 0 <= p < q < x.drop_first().len() ==> le(
                #[trigger] x.drop_first()[p],
                #[trigger] x.drop_first()[q],
            ));
        }
        assert(sorted_by(y.drop_first(), le)) by {
            assert(forall|p: int, q: int| 0 <= p < q < y.drop_first().len() ==> le(
                #[trigger] y.drop_first()[p],
                #[trigger] y.drop_first()[q],
            ));
        }
        assert forall|a: T, b: T|
            x.drop_first().to_multiset().contains(a) && x.drop_first().to_multiset().contains(b)
                && le(a, b) && le(b, a) implies a == b by {
            assert(x.to_multiset().contains(a));
            assert(x.to_multiset().contains(b));
        }
        lemma_sorted_unique(x.drop_first(), y.drop_first(), le);
        assert(x =~= Seq::empty().push(x[0]) + x.drop_first());
        assert(y =~= Seq::empty().push(y[0]) + y.drop_first());
        assert(x =~= y);
    }
}

/// A sequence's multiset is unchanged by rotating its first element to
/// the back.
proof fn lemma_multiset_push_front_back<T>(x: Seq<T>)
    requires
        x.len() > 0,
    ensures
        x.drop_first().push(x.first()).to_multiset() =~= x.to_multiset(),
{
    broadcast use vstd::seq_lib::group_to_multiset_ensures;
    broadcast use vstd::multiset::group_multiset_axioms;

    let d = x.drop_first();
    assert(x =~= seq![x.first()] + d);
    lemma_multiset_add_comm(seq![x.first()], d);
    assert(d.push(x.first()) =~= d + seq![x.first()]);
    vstd::seq_lib::lemma_multiset_commutative(seq![x.first()], d);
    vstd::seq_lib::lemma_multiset_commutative(d, seq![x.first()]);
}

/// Concatenation in either order gives the same multiset.
proof fn lemma_multiset_add_comm<T>(a: Seq<T>, b: Seq<T>)
    ensures
        (a + b).to_multiset() =~= (b + a).to_multiset(),
{
    vstd::seq_lib::lemma_multiset_commutative(a, b);
    vstd::seq_lib::lemma_multiset_commutative(b, a);
    broadcast use vstd::multiset::group_multiset_axioms;

    assert((a + b).to_multiset() =~= a.to_multiset().add(b.to_multiset()));
}


// ------------------------------------------------------------------
// Deduplication: keep an element only when nothing already kept counts
// as the same (for key equality this keeps first occurrences, as the
// member lists require).

/// Whether some element of `s` counts as the same as `x`.
pub open spec fn contains_same<T>(s: Seq<T>, x: T, eq: spec_fn(T, T) -> bool) -> bool {
    exists|j: int| 0 <= j < s.len() && eq(#[trigger] s[j], x)
}

/// The subsequence of `s` that keeps an element exactly when no kept
/// element before it counts as the same.
pub open spec fn dedup_by_spec<T>(s: Seq<T>, eq: spec_fn(T, T) -> bool) -> Seq<T>
    decreases s.len(),
{
    if s.len() == 0 {
        Seq::empty()
    } else {
        let d = dedup_by_spec(s.drop_last(), eq);
        if contains_same(d, s.last(), eq) {
            d
        } else {
            d.push(s.last())
        }
    }
}

/// Drops every element that counts as the same as an earlier kept one.
pub fn dedup_by<T>(
    v: Vec<T>,
    same: impl Fn(&T, &T) -> bool,
    Ghost(eq): Ghost<spec_fn(T, T) -> bool>,
) -> (r: Vec<T>)
    requires
        forall|x: &T, y: &T| #[trigger] call_requires(same, (x, y)),
        forall|x: &T, y: &T, b: bool| #[trigger] call_ensures(same, (x, y), b) ==> b == eq(*x, *y),
    ensures
        r@ == dedup_by_spec(v@, eq),
{
    let ghost v0 = v@;
    let mut src = v;
    let mut r: Vec<T> = Vec::new();
    proof {
        assert(r@ =~= dedup_by_spec(v0.subrange(0, 0), eq));
    }
    while src.len() > 0
        invariant
            forall|x: &T, y: &T| #[trigger] call_requires(same, (x, y)),
            forall|x: &T, y: &T, b: bool| #[trigger] call_ensures(same, (x, y), b) ==> b == eq(
                *x,
                *y,
            ),
            src@.len() <= v0.len(),
            src@ =~= v0.subrange(v0.len() - src@.len(), v0.len() as int),
            r@ == dedup_by_spec(v0.subrange(0, v0.len() - src@.len()), eq),
        decreases src@.len(),
    {
        let ghost i = v0.len() - src@.len();
        proof {
            assert(0 <= i < v0.len());
        }
        let x = src.remove(0);
        proof {
            assert(x == v0[i]);
            assert(src@ =~= v0.subrange(i + 1, v0.len() as int));
        }
        let mut found = false;
        let mut j: usize = 0;
        while j < r.len() && !found
            invariant
                forall|p: &T, q: &T| #[trigger] call_requires(same, (p, q)),
                forall|p: &T, q: &T, b: bool| #[trigger] call_ensures(same, (p, q), b) ==> b == eq(
                    *p,
                    *q,
                ),
                j <= r@.len(),
                !found ==> forall|p: int| 0 <= p < j ==> !eq(#[trigger] r@[p], x),
                found ==> contains_same(r@, x, eq),
            decreases r@.len() - j + (if found { 0int } else { 1int }),
        {
            if same(&r[j], &x) {
                found = true;
                proof {
                    assert(eq(r@[j as int], x));
                }
            } else {
                j = j + 1;
            }
        }
        proof {
            let pfx1 = v0.subrange(0, i + 1);
            assert(pfx1.drop_last() =~= v0.subrange(0, i));
            assert(pfx1.last() == v0[i]);
            if !found {
                assert(!contains_same(r@, x, eq)) by {
                    if contains_same(r@, x, eq) {
                        let p = choose|p: int| 0 <= p < r@.len() && eq(#[trigger] r@[p], x);
                        assert(!eq(r@[p], x));
                    }
                }
            }
        }
        if !found {
            r.push(x);
        }
        proof {
            assert(r@ == dedup_by_spec(v0.subrange(0, i + 1), eq));
        }
    }
    proof {
        assert(v0.subrange(0, v0.len() as int) =~= v0);
    }
    r
}


// ------------------------------------------------------------------
// Lifting order facts through a mapping (the exec types relate to their
// ghost models this way).

/// Sortedness carries over to the mapped sequence when the orders agree
/// through the map.
pub proof fn lemma_sorted_map<A, B>(
    s: Seq<A>,
    f: spec_fn(A) -> B,
    lea: spec_fn(A, A) -> bool,
    leb: spec_fn(B, B) -> bool,
)
    requires
        forall|a: A, b: A| #[trigger] lea(a, b) == leb(f(a), f(b)),
        sorted_by(s, lea),
    ensures
        sorted_by(s.map_values(f), leb),
{
    assert forall|i: int, j: int| 0 <= i < j < s.map_values(f).len() implies leb(
        #[trigger] s.map_values(f)[i],
        #[trigger] s.map_values(f)[j],
    ) by {
        assert(lea(s[i], s[j]));
    }
}

/// Deduplication commutes with a mapping when the same-element relations
/// agree through the map.
pub proof fn lemma_dedup_map<A, B>(
    s: Seq<A>,
    f: spec_fn(A) -> B,
    eqa: spec_fn(A, A) -> bool,
    eqb: spec_fn(B, B) -> bool,
)
    requires
        forall|a: A, b: A| #[trigger] eqa(a, b) == eqb(f(a), f(b)),
    ensures
        dedup_by_spec(s, eqa).map_values(f) == dedup_by_spec(s.map_values(f), eqb),
    decreases s.len(),
{
    if s.len() == 0 {
        assert(dedup_by_spec(s, eqa).map_values(f) =~= dedup_by_spec(s.map_values(f), eqb));
    } else {
        lemma_dedup_map(s.drop_last(), f, eqa, eqb);
        let d = dedup_by_spec(s.drop_last(), eqa);
        assert(s.map_values(f).drop_last() =~= s.drop_last().map_values(f));
        let dm = dedup_by_spec(s.map_values(f).drop_last(), eqb);
        assert(d.map_values(f) == dm);
        assert(s.map_values(f).last() == f(s.last()));
        assert(contains_same(d, s.last(), eqa) == contains_same(dm, f(s.last()), eqb)) by {
            if contains_same(d, s.last(), eqa) {
                let j = choose|j: int| 0 <= j < d.len() && eqa(#[trigger] d[j], s.last());
                assert(dm[j] == f(d[j]));
                assert(eqb(dm[j], f(s.last())));
            }
            if contains_same(dm, f(s.last()), eqb) {
                let j = choose|j: int| 0 <= j < dm.len() && eqb(#[trigger] dm[j], f(s.last()));
                assert(dm[j] == f(d[j]));
                assert(eqa(d[j], s.last()));
            }
        }
        if !contains_same(d, s.last(), eqa) {
            assert(d.push(s.last()).map_values(f) =~= d.map_values(f).push(f(s.last())));
        }
    }
}

/// Equal multisets stay equal under a mapping.
pub proof fn lemma_multiset_map<A, B>(s1: Seq<A>, s2: Seq<A>, f: spec_fn(A) -> B)
    requires
        s1.to_multiset() == s2.to_multiset(),
    ensures
        s1.map_values(f).to_multiset() == s2.map_values(f).to_multiset(),
    decreases s1.len(),
{
    broadcast use vstd::seq_lib::group_to_multiset_ensures;
    broadcast use vstd::multiset::group_multiset_axioms;
    broadcast use vstd::multiset::lemma_multiset_empty_len;

    s1.to_multiset_ensures();
    s2.to_multiset_ensures();
    if s1.len() == 0 {
        assert(s2.to_multiset().len() == 0);
        assert(s2.len() == 0);
        assert(s1.map_values(f).to_multiset() =~= s2.map_values(f).to_multiset()) by {
            assert(s1.map_values(f) =~= s2.map_values(f));
        }
    } else {
        let x = s1.last();
        assert(s1.to_multiset().contains(x)) by {
            assert(s1.contains(x));
        }
        assert(s2.contains(x)) by {
            assert(s2.to_multiset().contains(x));
        }
        let j = choose|j: int| 0 <= j < s2.len() && s2[j] == x;
        let s1d = s1.drop_last();
        let s2d = s2.remove(j);
        assert(s1.remove(s1.len() - 1) =~= s1d);
        assert(s1d.to_multiset() =~= s1.to_multiset().remove(x)) by {
            assert(s1.remove(s1.len() - 1).to_multiset() == s1.to_multiset().remove(
                s1[s1.len() - 1],
            ));
        }
        assert(s2d.to_multiset() =~= s2.to_multiset().remove(x));
        lemma_multiset_map(s1d, s2d, f);
        let m1 = s1.map_values(f);
        let m2 = s2.map_values(f);
        m1.to_multiset_ensures();
        m2.to_multiset_ensures();
        assert(m1.drop_last() =~= s1d.map_values(f));
        assert(m1.remove(m1.len() - 1) =~= m1.drop_last());
        assert(m1.to_multiset().remove(m1[m1.len() - 1]) == m1.remove(m1.len() - 1).to_multiset());
        assert(m1[m1.len() - 1] == f(x));
        assert(m2.remove(j) =~= s2d.map_values(f));
        assert(m2.to_multiset().remove(m2[j]) == m2.remove(j).to_multiset());
        assert(m2[j] == f(x));
        assert(m1.to_multiset().contains(f(x))) by {
            assert(m1[m1.len() - 1] == f(x));
            assert(m1.contains(f(x)));
        }
        assert(m2.to_multiset().contains(f(x))) by {
            assert(m2[j] == f(x));
            assert(m2.contains(f(x)));
        }
        assert(m1.to_multiset() =~= m2.to_multiset()) by {
            assert(m1.to_multiset().remove(f(x)) == m2.to_multiset().remove(f(x)));
            assert(forall|y: B| m1.to_multiset().count(y) == m2.to_multiset().count(y)) by {
                assert forall|y: B| true implies m1.to_multiset().count(y) == m2.to_multiset().count(
                    y,
                ) by {
                    if y == f(x) {
                        assert(m1.to_multiset().remove(f(x)).count(y) == m2.to_multiset().remove(
                            f(x),
                        ).count(y));
                    } else {
                        assert(m1.to_multiset().remove(f(x)).count(y) == m2.to_multiset().remove(
                            f(x),
                        ).count(y));
                    }
                }
            }
        }
    }
}


/// Filtering commutes with a mapping when the predicates agree through
/// the map.
pub proof fn lemma_filter_map<A, B>(
    s: Seq<A>,
    f: spec_fn(A) -> B,
    pa: spec_fn(A) -> bool,
    pb: spec_fn(B) -> bool,
)
    requires
        forall|a: A| #[trigger] pa(a) == pb(f(a)),
    ensures
        s.filter(pa).map_values(f) == s.map_values(f).filter(pb),
    decreases s.len(),
{
    reveal(Seq::filter);
    if s.len() == 0 {
        assert(s.filter(pa).map_values(f) =~= s.map_values(f).filter(pb));
    } else {
        lemma_filter_map(s.drop_last(), f, pa, pb);
        assert(s.map_values(f).drop_last() =~= s.drop_last().map_values(f));
        assert(s.map_values(f).last() == f(s.last()));
        if pa(s.last()) {
            assert(s.filter(pa).map_values(f) =~= s.drop_last().filter(pa).map_values(f).push(
                f(s.last()),
            ));
            assert(s.map_values(f).filter(pb) =~= s.drop_last().map_values(f).filter(pb).push(
                f(s.last()),
            ));
        } else {
            assert(s.filter(pa).map_values(f) =~= s.drop_last().filter(pa).map_values(f));
        }
    }
}


// ------------------------------------------------------------------
// The lexicographic order as a relation value, and key sorting.

/// The lexicographic order on character sequences, as a value.
pub open spec fn chars_le_rel() -> spec_fn(Seq<char>, Seq<char>) -> bool {
    |a: Seq<char>, b: Seq<char>| chars_le(a, b)
}

/// The lexicographic order on strings, as a value.
pub open spec fn str_le_rel() -> spec_fn(String, String) -> bool {
    |a: String, b: String| chars_le(a@, b@)
}

/// The view of a string, as a value.
pub open spec fn str_view_map() -> spec_fn(String) -> Seq<char> {
    |s: String| s@
}

/// The lexicographic order is a total ordering.
pub proof fn lemma_chars_le_total_ordering()
    ensures
        vstd::relations::total_ordering(chars_le_rel()),
{
    assert forall|a: Seq<char>, b: Seq<char>| #[trigger] chars_le_rel()(a, b) || chars_le_rel()(
        b,
        a,
    ) by {
        lemma_chars_le_total(a, b);
    }
    assert forall|a: Seq<char>, b: Seq<char>|
        #[trigger] chars_le_rel()(a, b) && #[trigger] chars_le_rel()(b, a) implies a == b by {
        lemma_chars_le_total(a, b);
    }
    assert forall|a: Seq<char>, b: Seq<char>, c: Seq<char>|
        #[trigger] chars_le_rel()(a, b) && #[trigger] chars_le_rel()(b, c) implies chars_le_rel()(
        a,
        c,
    ) by {
        lemma_chars_le_trans(a, b, c);
    }
    assert(vstd::relations::reflexive(chars_le_rel()));
    assert(vstd::relations::antisymmetric(chars_le_rel()));
    assert(vstd::relations::transitive(chars_le_rel()));
    assert(vstd::relations::strongly_connected(chars_le_rel()));
}

/// Decides the lexicographic order on strings.
fn cmp_str_le(a: &String, b: &String) -> (res: bool)
    ensures
        res == chars_le(a@, b@),
{
    proof {
        lemma_chars_le_total(a@, b@);
    }
    if crate::strutil::str_eq(a.as_str(), b.as_str()) {
        true
    } else {
        str_lt(a.as_str(), b.as_str())
    }
}

/// The strings sorted lexicographically: the unique ordering of their
/// contents.
pub fn sort_strings(v: Vec<String>) -> (r: Vec<String>)
    ensures
        strs_view(r@) == strs_view(v@).sort_by(chars_le_rel()),
{
    proof {
        lemma_chars_le_total_ordering();
        assert(vstd::relations::strongly_connected(str_le_rel())) by {
            assert forall|a: String, b: String| #[trigger] str_le_rel()(a, b) || str_le_rel()(
                b,
                a,
            ) by {
                lemma_chars_le_total(a@, b@);
            }
        }
        assert(vstd::relations::transitive(str_le_rel())) by {
            assert forall|a: String, b: String, c: String|
                #[trigger] str_le_rel()(a, b) && #[trigger] str_le_rel()(b, c) implies str_le_rel()(
                a,
                c,
            ) by {
                lemma_chars_le_trans(a@, b@, c@);
            }
        }
    }
    let r = sort_by_le(v, cmp_str_le, Ghost(str_le_rel()));
    proof {
        let target = strs_view(v@).sort_by(chars_le_rel());
        strs_view(v@).lemma_sort_by_ensures(chars_le_rel());
        lemma_sorted_map(r@, str_view_map(), str_le_rel(), chars_le_rel());
        assert(r@.map_values(str_view_map()) =~= strs_view(r@));
        lemma_multiset_map(r@, v@, str_view_map());
        assert(v@.map_values(str_view_map()) =~= strs_view(v@));
        vstd::seq_lib::lemma_sorted_unique(strs_view(r@), target, chars_le_rel());
    }
    r
}


/// Deduplication leaves no two elements that count as the same.
pub proof fn lemma_dedup_pairwise<T>(s: Seq<T>, eq: spec_fn(T, T) -> bool)
    ensures
        forall|i: int, j: int| 0 <= i < j < dedup_by_spec(s, eq).len()
            ==> !eq(#[trigger] dedup_by_spec(s, eq)[i], #[trigger] dedup_by_spec(s, eq)[j]),
    decreases s.len(),
{
    if s.len() > 0 {
        lemma_dedup_pairwise(s.drop_last(), eq);
        let d = dedup_by_spec(s.drop_last(), eq);
        if !contains_same(d, s.last(), eq) {
            assert forall|i: int, j: int| 0 <= i < j < dedup_by_spec(s, eq).len()
                implies !eq(
                #[trigger] dedup_by_spec(s, eq)[i],
                #[trigger] dedup_by_spec(s, eq)[j],
            ) by {
                if j < d.len() {
                    assert(dedup_by_spec(s, eq)[i] == d[i]);
                    assert(dedup_by_spec(s, eq)[j] == d[j]);
                } else {
                    assert(dedup_by_spec(s, eq)[i] == d[i]);
                    assert(dedup_by_spec(s, eq)[j] == s.last());
                    assert(!eq(d[i], s.last()));
                }
            }
        }
    }
}

/// Pairwise distinctness (under a reflexive sameness relation) carries
/// across any reordering.
pub proof fn lemma_pairwise_permuted<T>(s1: Seq<T>, s2: Seq<T>, eq: spec_fn(T, T) -> bool)
    requires
        forall|x: T| #[trigger] eq(x, x),
        forall|x: T, y: T| #[trigger] eq(x, y) == eq(y, x),
        forall|i: int, j: int| 0 <= i < j < s1.len() ==> !eq(#[trigger] s1[i], #[trigger] s1[j]),
        s1.to_multiset() == s2.to_multiset(),
    ensures
        forall|i: int, j: int| 0 <= i < j < s2.len() ==> !eq(#[trigger] s2[i], #[trigger] s2[j]),
{
    broadcast use vstd::seq_lib::group_to_multiset_ensures;
    broadcast use vstd::multiset::group_multiset_axioms;

    assert(s1.no_duplicates()) by {
        assert forall|i: int, j: int| 0 <= i < j < s1.len() implies s1[i] != s1[j] by {
            if s1[i] == s1[j] {
                assert(eq(s1[i], s1[j]));
            }
        }
    }
    s1.lemma_multiset_has_no_duplicates();
    assert forall|i: int, j: int| 0 <= i < j < s2.len() implies !eq(
        #[trigger] s2[i],
        #[trigger] s2[j],
    ) by {
        if eq(s2[i], s2[j]) {
            if s2[i] == s2[j] {
                assert(s2.to_multiset().count(s2[i]) >= 2) by {
                    let t = s2.remove(j);
                    s2.to_multiset_ensures();
                    t.to_multiset_ensures();
                    assert(s2.to_multiset().remove(s2[j]) == t.to_multiset());
                    assert(t[i] == s2[i]);
                    assert(t.contains(s2[i]));
                    assert(t.to_multiset().count(s2[i]) > 0);
                }
                assert(s1.to_multiset().count(s2[i]) >= 2);
                assert(s1.to_multiset().count(s2[i]) == 1 || s1.to_multiset().count(s2[i]) == 0);
            } else {
                assert(s2.contains(s2[i]));
                assert(s2.contains(s2[j]));
                assert(s1.to_multiset().contains(s2[i]));
                assert(s1.to_multiset().contains(s2[j]));
                assert(s1.contains(s2[i]));
                assert(s1.contains(s2[j]));
                let p = choose|p: int| 0 <= p < s1.len() && s1[p] == s2[i];
                let q = choose|q: int| 0 <= q < s1.len() && s1[q] == s2[j];
                assert(p != q);
                if p < q {
                    assert(!eq(s1[p], s1[q]));
                } else {
                    assert(!eq(s1[q], s1[p]));
                    assert(eq(s1[q], s1[p]) == eq(s1[p], s1[q]));
                }
            }
        }
    }
}


// ------------------------------------------------------------------
// Weighted name order: by a fixed weight, then by lowercased name,
// then by the raw name — the last step makes the order antisymmetric
// on distinct names, so ties exist only between equal names.

/// Whether the name weighted `wa` sorts no later than the name weighted
/// `wb`: by weight, then lowercased, then raw.
pub open spec fn weighted_name_le(wa: int, wb: int, a: Seq<char>, b: Seq<char>) -> bool {
    ||| wa < wb
    ||| (wa == wb && (chars_lt(crate::strutil::lower_seq(a), crate::strutil::lower_seq(b)) || (
    crate::strutil::lower_seq(a) == crate::strutil::lower_seq(b) && chars_le(a, b))))
}

/// The weighted name order compares any two names, and both ways only
/// for one name under one weight.
pub proof fn lemma_weighted_name_le_total(wa: int, wb: int, a: Seq<char>, b: Seq<char>)
    ensures
        weighted_name_le(wa, wb, a, b) || weighted_name_le(wb, wa, b, a),
        weighted_name_le(wa, wb, a, b) && weighted_name_le(wb, wa, b, a) ==> wa == wb && a == b,
{
    let la = crate::strutil::lower_seq(a);
    let lb = crate::strutil::lower_seq(b);
    lemma_chars_le_total(la, lb);
    lemma_chars_le_total(a, b);
    if chars_lt(la, lb) {
        lemma_chars_lt_from_asymmetric(la, lb, 0);
    }
    if chars_lt(lb, la) {
        lemma_chars_lt_from_asymmetric(lb, la, 0);
    }
}

/// The weighted name order is transitive.
pub proof fn lemma_weighted_name_le_trans(
    wa: int,
    wb: int,
    wc: int,
    a: Seq<char>,
    b: Seq<char>,
    c: Seq<char>,
)
    requires
        weighted_name_le(wa, wb, a, b),
        weighted_name_le(wb, wc, b, c),
    ensures
        weighted_name_le(wa, wc, a, c),
{
    if wa == wb && wb == wc {
        let la = crate::strutil::lower_seq(a);
        let lb = crate::strutil::lower_seq(b);
        let lc = crate::strutil::lower_seq(c);
        if chars_lt(la, lb) && chars_lt(lb, lc) {
            lemma_chars_lt_from_transitive(la, lb, lc, 0);
        } else if la == lb && lb == lc {
            lemma_chars_le_trans(a, b, c);
        }
    }
}

/// Decides the lowered-then-raw name order for equal weights.
pub fn cmp_name_tail_le(a: &str, b: &str) -> (res: bool)
    ensures
        res == (chars_lt(crate::strutil::lower_seq(a@), crate::strutil::lower_seq(b@)) || (
        crate::strutil::lower_seq(a@) == crate::strutil::lower_seq(b@) && chars_le(a@, b@))),
{
    let la = crate::strutil::to_lower(a);
    let lb = crate::strutil::to_lower(b);
    if crate::strutil::str_eq(la.as_str(), lb.as_str()) {
        proof {
            lemma_chars_le_total(la@, lb@);
            if chars_lt(la@, lb@) {
                lemma_chars_lt_from_asymmetric(la@, lb@, 0);
            }
        }
        crate::strutil::str_eq(a, b) || str_lt(a, b)
    } else {
        str_lt(la.as_str(), lb.as_str())
    }
}


/// The subsequence that keeps, for each group of same-counting
/// elements, the last one (in order): deduplication where the last
/// writer wins.
pub open spec fn dedup_last_by_spec<T>(s: Seq<T>, eq: spec_fn(T, T) -> bool) -> Seq<T> {
    dedup_by_spec(s.reverse(), eq).reverse()
}

} // verus!
