//! Lexicographic order on byte strings, as used by `String`'s ordering and by
//! the FST sets (both order keys byte by byte).
use vstd::prelude::*;

verus! {

/// Outcome of a three-way comparison.
#[derive(Debug, Clone, Copy, PartialEq, Eq, Structural)]
pub enum LexOrder {
    Less,
    Equal,
    Greater,
}

/// `k` is the first position at which `a` and `b` differ (or the length of the
/// shorter one when one is a prefix of the other), and `a` is below `b` there.
pub open spec fn lex_lt_at(a: Seq<u8>, b: Seq<u8>, k: int) -> bool {
    &&& 0 <= k <= a.len()
    &&& k <= b.len()
    &&& forall|j: int| 0 <= j < k ==> a[j] == b[j]
    &&& if k == a.len() {
        k < b.len()
    } else {
        k < b.len() && a[k] < b[k]
    }
}

/// Strict lexicographic order on byte strings: a proper prefix comes first,
/// otherwise the first differing byte decides.
pub open spec fn lex_lt(a: Seq<u8>, b: Seq<u8>) -> bool {
    exists|k: int| lex_lt_at(a, b, k)
}

/// Strictly increasing: every key is below every later key.
pub open spec fn strictly_sorted(s: Seq<Seq<u8>>) -> bool {
    forall|i: int, j: int| 0 <= i < j < s.len() ==> lex_lt(#[trigger] s[i], #[trigger] s[j])
}

pub proof fn lemma_lex_lt_irreflexive(a: Seq<u8>)
    ensures
        !lex_lt(a, a),
{
    if lex_lt(a, a) {
        let k = choose|k: int| lex_lt_at(a, a, k);
    }
}

pub proof fn lemma_lex_lt_asymmetric(a: Seq<u8>, b: Seq<u8>)
    requires
        lex_lt(a, b),
    ensures
        !lex_lt(b, a),
        a != b,
{
    let k = choose|k: int| lex_lt_at(a, b, k);
    if lex_lt(b, a) {
        let m = choose|m: int| lex_lt_at(b, a, m);
        if m < k {
            assert(a[m] == b[m]);
        } else if k < m {
            assert(b[k] == a[k]);
        }
    }
    if a == b {
        lemma_lex_lt_irreflexive(a);
    }
}

pub proof fn lemma_lex_lt_transitive(a: Seq<u8>, b: Seq<u8>, c: Seq<u8>)
    requires
        lex_lt(a, b),
        lex_lt(b, c),
    ensures
        lex_lt(a, c),
{
    let k = choose|k: int| lex_lt_at(a, b, k);
    let m = choose|m: int| lex_lt_at(b, c, m);
    if k <= m {
        assert(lex_lt_at(a, c, k));
    } else {
        assert(lex_lt_at(a, c, m));
    }
}

pub proof fn lemma_lex_lt_total(a: Seq<u8>, b: Seq<u8>)
    ensures
        lex_lt(a, b) || a == b || lex_lt(b, a),
    decreases a.len(),
{
    if a.len() == 0 || b.len() == 0 {
        if a.len() == 0 && b.len() > 0 {
            assert(lex_lt_at(a, b, 0));
        } else if b.len() == 0 && a.len() > 0 {
            assert(lex_lt_at(b, a, 0));
        } else {
            assert(a =~= b);
        }
    } else if a[0] < b[0] {
        assert(lex_lt_at(a, b, 0));
    } else if b[0] < a[0] {
        assert(lex_lt_at(b, a, 0));
    } else {
        let a1 = a.drop_first();
        let b1 = b.drop_first();
        lemma_lex_lt_total(a1, b1);
        if lex_lt(a1, b1) {
            let k = choose|k: int| lex_lt_at(a1, b1, k);
            assert forall|j: int| 0 <= j < k + 1 implies a[j] == b[j] by {
                if j > 0 {
                    assert(a[j] == a1[j - 1] && b[j] == b1[j - 1]);
                }
            }
            assert(lex_lt_at(a, b, k + 1));
        } else if lex_lt(b1, a1) {
            let k = choose|k: int| lex_lt_at(b1, a1, k);
            assert forall|j: int| 0 <= j < k + 1 implies b[j] == a[j] by {
                if j > 0 {
                    assert(a[j] == a1[j - 1] && b[j] == b1[j - 1]);
                }
            }
            assert(lex_lt_at(b, a, k + 1));
        } else {
            assert(a =~= seq![a[0]] + a1);
            assert(b =~= seq![b[0]] + b1);
        }
    }
}

/// Three-way comparison of two byte strings in lexicographic order.
pub fn compare_bytes(a: &[u8], b: &[u8]) -> (r: LexOrder)
    ensures
        r == LexOrder::Less <==> lex_lt(a@, b@),
        r == LexOrder::Equal <==> a@ == b@,
        r == LexOrder::Greater <==> lex_lt(b@, a@),
{
    let mut i: usize = 0;
    while i < a.len() && i < b.len()
        invariant
            i <= a@.len(),
            i <= b@.len(),
            forall|j: int| 0 <= j < i ==> a@[j] == b@[j],
        decreases a.len() - i,
    {
        if a[i] < b[i] {
            assert(lex_lt_at(a@, b@, i as int));
            proof { lemma_lex_lt_asymmetric(a@, b@); }
            return LexOrder::Less;
        }
        if a[i] > b[i] {
            assert(lex_lt_at(b@, a@, i as int));
            proof { lemma_lex_lt_asymmetric(b@, a@); }
            return LexOrder::Greater;
        }
        i = i + 1;
    }
    if a.len() < b.len() {
        assert(lex_lt_at(a@, b@, i as int));
        proof { lemma_lex_lt_asymmetric(a@, b@); }
        LexOrder::Less
    } else if a.len() > b.len() {
        assert(lex_lt_at(b@, a@, i as int));
        proof { lemma_lex_lt_asymmetric(b@, a@); }
        LexOrder::Greater
    } else {
        assert(a@ =~= b@);
        proof { lemma_lex_lt_irreflexive(a@); }
        LexOrder::Equal
    }
}


/// The byte strings held by a vector of byte vectors.
pub open spec fn keys_of(v: Seq<Vec<u8>>) -> Seq<Seq<u8>> {
    v.map_values(|k: Vec<u8>| k@)
}

pub open spec fn strictly_decreasing(s: Seq<Seq<u8>>) -> bool {
    forall|i: int, j: int| 0 <= i < j < s.len() ==> lex_lt(#[trigger] s[j], #[trigger] s[i])
}

/// The elements of a concatenation are those of either part.
pub proof fn lemma_concat_to_set<A>(a: Seq<A>, b: Seq<A>)
    ensures
        (a + b).to_set() == a.to_set() + b.to_set(),
{
    assert forall|x: A| (a + b).contains(x) <==> a.contains(x) || b.contains(x) by {
        if a.contains(x) {
            let i = choose|i: int| 0 <= i < a.len() && a[i] == x;
            assert((a + b)[i] == x);
        }
        if b.contains(x) {
            let i = choose|i: int| 0 <= i < b.len() && b[i] == x;
            assert((a + b)[a.len() + i] == x);
        }
        if (a + b).contains(x) {
            let i = choose|i: int| 0 <= i < (a + b).len() && (a + b)[i] == x;
            if i < a.len() {
                assert(a[i] == x);
            } else {
                assert(b[i - a.len()] == x);
            }
        }
    }
    assert((a + b).to_set() =~= a.to_set() + b.to_set());
}

/// Reverses a vector by moving its elements.
pub fn reverse_vec<T>(v: Vec<T>) -> (r: Vec<T>)
    ensures
        r@ == v@.reverse(),
{
    let ghost orig = v@;
    let mut v = v;
    let mut r: Vec<T> = Vec::new();
    while v.len() > 0
        invariant
            v@ == orig.subrange(0, v@.len() as int),
            r@ == orig.subrange(v@.len() as int, orig.len() as int).reverse(),
            v@.len() <= orig.len(),
        decreases v.len(),
    {
        let ghost n = v@.len();
        let x = v.pop().unwrap();
        r.push(x);
        assert(r@ =~= orig.subrange(n - 1, orig.len() as int).reverse());
    }
    assert(orig.subrange(0, orig.len() as int) =~= orig);
    r
}

/// Merges two strictly increasing key vectors into one strictly increasing
/// vector holding every key of either (a key present in both is kept once).
fn merge_unique(a: Vec<Vec<u8>>, b: Vec<Vec<u8>>) -> (r: Vec<Vec<u8>>)
    requires
        strictly_sorted(keys_of(a@)),
        strictly_sorted(keys_of(b@)),
    ensures
        strictly_sorted(keys_of(r@)),
        keys_of(r@).to_set() == keys_of(a@).to_set() + keys_of(b@).to_set(),
{
    let ghost ka = keys_of(a@);
    let ghost kb = keys_of(b@);
    let mut sa = reverse_vec(a);
    let mut sb = reverse_vec(b);
    assert(keys_of(sa@) =~= ka.reverse());
    assert(keys_of(sb@) =~= kb.reverse());
    let mut out: Vec<Vec<u8>> = Vec::new();
    assert(keys_of(out@).to_set() + keys_of(sa@).to_set() + keys_of(sb@).to_set() =~= ka.to_set()
        + kb.to_set()) by {
        assert forall|k: Seq<u8>| ka.reverse().contains(k) <==> ka.contains(k) by {
            if ka.contains(k) {
                let i = choose|i: int| 0 <= i < ka.len() && ka[i] == k;
                assert(ka.reverse()[ka.len() - 1 - i] == k);
            }
        }
        assert forall|k: Seq<u8>| kb.reverse().contains(k) <==> kb.contains(k) by {
            if kb.contains(k) {
                let i = choose|i: int| 0 <= i < kb.len() && kb[i] == k;
                assert(kb.reverse()[kb.len() - 1 - i] == k);
            }
        }
    }
    while sa.len() > 0 || sb.len() > 0
        invariant
            strictly_decreasing(keys_of(sa@)),
            strictly_decreasing(keys_of(sb@)),
            strictly_sorted(keys_of(out@)),
            forall|i: int, j: int|
                0 <= i < out@.len() && 0 <= j < sa@.len() ==> lex_lt(
                    #[trigger] keys_of(out@)[i],
                    #[trigger] keys_of(sa@)[j],
                ),
            forall|i: int, j: int|
                0 <= i < out@.len() && 0 <= j < sb@.len() ==> lex_lt(
                    #[trigger] keys_of(out@)[i],
                    #[trigger] keys_of(sb@)[j],
                ),
            keys_of(out@).to_set() + keys_of(sa@).to_set() + keys_of(sb@).to_set() == ka.to_set()
                + kb.to_set(),
        decreases sa.len() + sb.len(),
    {
        let ghost o0 = keys_of(out@);
        let ghost a0 = keys_of(sa@);
        let ghost b0 = keys_of(sb@);
        let take_a: bool;
        let take_b: bool;
        if sa.len() == 0 {
            take_a = false;
            take_b = true;
        } else if sb.len() == 0 {
            take_a = true;
            take_b = false;
        } else {
            let c = compare_bytes(sa[sa.len() - 1].as_slice(), sb[sb.len() - 1].as_slice());
            match c {
                LexOrder::Less => {
                    take_a = true;
                    take_b = false;
                },
                LexOrder::Greater => {
                    take_a = false;
                    take_b = true;
                },
                LexOrder::Equal => {
                    take_a = true;
                    take_b = true;
                },
            }
        }
        assert(take_a && take_b ==> a0[a0.len() - 1] == sa@[sa@.len() - 1]@ && b0[b0.len() - 1]
            == sb@[sb@.len() - 1]@ && a0[a0.len() - 1] == b0[b0.len() - 1]);
        let ghost x: Seq<u8> = if take_a {
            a0[a0.len() - 1]
        } else {
            b0[b0.len() - 1]
        };
        // `x` is below everything that stays on either stack.
        assert forall|j: int| 0 <= j < a0.len() - (if take_a { 1int } else { 0int }) implies lex_lt(
            x,
            #[trigger] a0[j],
        ) by {
            if take_a {
            } else {
                // x is the top of b, which is below the top of a
                let ta = a0[a0.len() - 1];
                if j < a0.len() - 1 {
                    lemma_lex_lt_transitive(x, ta, a0[j]);
                }
            }
        }
        assert forall|j: int| 0 <= j < b0.len() - (if take_b { 1int } else { 0int }) implies lex_lt(
            x,
            #[trigger] b0[j],
        ) by {
            if take_b {
            } else {
                let tb = b0[b0.len() - 1];
                if j < b0.len() - 1 {
                    lemma_lex_lt_transitive(x, tb, b0[j]);
                }
            }
        }
        let mut item: Vec<u8> = Vec::new();
        if take_a {
            item = sa.pop().unwrap();
        }
        if take_b {
            let y = sb.pop().unwrap();
            if !take_a {
                item = y;
            }
        }
        assert(item@ == x);
        out.push(item);
        assert(keys_of(out@) =~= o0.push(x));
        assert(keys_of(sa@) =~= if take_a { a0.drop_last() } else { a0 });
        assert(keys_of(sb@) =~= if take_b { b0.drop_last() } else { b0 });
        assert forall|i: int, j: int| 0 <= i < j < keys_of(out@).len() implies lex_lt(
            #[trigger] keys_of(out@)[i],
            #[trigger] keys_of(out@)[j],
        ) by {
            if j == o0.len() {
                if take_a {
                    assert(lex_lt(o0[i], a0[a0.len() - 1]));
                } else {
                    assert(lex_lt(o0[i], b0[b0.len() - 1]));
                }
            }
        }
        assert(keys_of(out@).to_set() + keys_of(sa@).to_set() + keys_of(sb@).to_set() =~= ka.to_set()
            + kb.to_set()) by {
            assert forall|k: Seq<u8>|
                (o0.contains(k) || a0.contains(k) || b0.contains(k)) <==> (
                keys_of(out@).contains(k) || keys_of(sa@).contains(k) || keys_of(sb@).contains(k))
                by {
                if a0.contains(k) {
                    let i = choose|i: int| 0 <= i < a0.len() && a0[i] == k;
                    if take_a && i == a0.len() - 1 {
                        assert(keys_of(out@)[o0.len() as int] == k);
                    } else {
                        assert(keys_of(sa@)[i] == k);
                    }
                }
                if b0.contains(k) {
                    let i = choose|i: int| 0 <= i < b0.len() && b0[i] == k;
                    if take_b && i == b0.len() - 1 {
                        assert(keys_of(out@)[o0.len() as int] == k);
                    } else {
                        assert(keys_of(sb@)[i] == k);
                    }
                }
                if o0.contains(k) {
                    let i = choose|i: int| 0 <= i < o0.len() && o0[i] == k;
                    assert(keys_of(out@)[i] == k);
                }
                if keys_of(out@).contains(k) {
                    let i = choose|i: int| 0 <= i < keys_of(out@).len() && keys_of(out@)[i] == k;
                    if i < o0.len() {
                        assert(o0[i] == k);
                    } else if take_a {
                        assert(a0[a0.len() - 1] == k);
                    } else {
                        assert(b0[b0.len() - 1] == k);
                    }
                }
                if keys_of(sa@).contains(k) {
                    let i = choose|i: int| 0 <= i < keys_of(sa@).len() && keys_of(sa@)[i] == k;
                    assert(a0[i] == k);
                }
                if keys_of(sb@).contains(k) {
                    let i = choose|i: int| 0 <= i < keys_of(sb@).len() && keys_of(sb@)[i] == k;
                    assert(b0[i] == k);
                }
            }
        }
    }
    assert(keys_of(sa@).to_set() =~= Set::empty());
    assert(keys_of(sb@).to_set() =~= Set::empty());
    assert(keys_of(out@).to_set() + keys_of(sa@).to_set() + keys_of(sb@).to_set() =~= keys_of(
        out@,
    ).to_set());
    out
}

/// Sorts byte keys into strictly increasing lexicographic order, dropping
/// repeated keys: the result holds exactly the keys of the input, each once.
pub fn sort_unique_keys(v: Vec<Vec<u8>>) -> (r: Vec<Vec<u8>>)
    ensures
        strictly_sorted(keys_of(r@)),
        keys_of(r@).to_set() == keys_of(v@).to_set(),
    decreases v@.len(),
{
    if v.len() <= 1 {
        return v;
    }
    let ghost whole = v@;
    let mut left = v;
    let mid = left.len() / 2;
    let right = left.split_off(mid);
    assert(whole =~= left@ + right@);
    assert(keys_of(whole) =~= keys_of(left@) + keys_of(right@));
    let sl = sort_unique_keys(left);
    let sr = sort_unique_keys(right);
    let r = merge_unique(sl, sr);
    assert(keys_of(whole).to_set() =~= keys_of(left@).to_set() + keys_of(right@).to_set()) by {
        lemma_concat_to_set(keys_of(left@), keys_of(right@));
    }
    r
}


/// The keys of `s` in strictly increasing order.
pub open spec fn sorted_keys(s: Set<Seq<u8>>) -> Seq<Seq<u8>> {
    choose|ks: Seq<Seq<u8>>| strictly_sorted(ks) && ks.to_set() == s
}

proof fn lemma_drop_first_to_set(a: Seq<Seq<u8>>)
    requires
        a.len() > 0,
        strictly_sorted(a),
    ensures
        a.drop_first().to_set() == a.to_set().remove(a[0]),
{
    assert forall|x: Seq<u8>| a.drop_first().contains(x) <==> a.contains(x) && x != a[0] by {
        if a.drop_first().contains(x) {
            let i = choose|i: int| 0 <= i < a.drop_first().len() && a.drop_first()[i] == x;
            assert(a[i + 1] == x);
            assert(lex_lt(a[0], a[i + 1]));
            lemma_lex_lt_irreflexive(x);
        }
        if a.contains(x) && x != a[0] {
            let i = choose|i: int| 0 <= i < a.len() && a[i] == x;
            assert(a.drop_first()[i - 1] == x);
        }
    }
    assert(a.drop_first().to_set() =~= a.to_set().remove(a[0]));
}

/// Two strictly increasing sequences with the same elements are equal.
pub proof fn lemma_sorted_unique(a: Seq<Seq<u8>>, b: Seq<Seq<u8>>)
    requires
        strictly_sorted(a),
        strictly_sorted(b),
        a.to_set() == b.to_set(),
    ensures
        a == b,
    decreases a.len(),
{
    if a.len() == 0 {
        if b.len() > 0 {
            assert(b.to_set().contains(b[0]));
        }
        assert(a =~= b);
    } else {
        if b.len() == 0 {
            assert(a.to_set().contains(a[0]));
        }
        assert(b.to_set().contains(a[0]));
        assert(a.to_set().contains(b[0]));
        let j = choose|j: int| 0 <= j < b.len() && b[j] == a[0];
        let i = choose|i: int| 0 <= i < a.len() && a[i] == b[0];
        if j > 0 {
            assert(lex_lt(b[0], a[0]));
            if i == 0 {
                lemma_lex_lt_irreflexive(a[0]);
            } else {
                assert(lex_lt(a[0], a[i]));
                lemma_lex_lt_transitive(a[0], b[0], a[0]);
                lemma_lex_lt_irreflexive(a[0]);
            }
        }
        assert(a[0] == b[0]);
        lemma_drop_first_to_set(a);
        lemma_drop_first_to_set(b);
        lemma_sorted_unique(a.drop_first(), b.drop_first());
        assert(a =~= seq![a[0]] + a.drop_first());
        assert(b =~= seq![b[0]] + b.drop_first());
    }
}

/// A strictly increasing sequence is the sorted form of its elements.
pub proof fn lemma_sorted_keys_is(ks: Seq<Seq<u8>>)
    requires
        strictly_sorted(ks),
    ensures
        sorted_keys(ks.to_set()) == ks,
{
    let s = ks.to_set();
    assert(strictly_sorted(ks) && ks.to_set() == s);
    let c = sorted_keys(s);
    lemma_sorted_unique(c, ks);
}

} // verus!
