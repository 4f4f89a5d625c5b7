//! Domain labels: splitting a name at its dots, joining labels back, and
//! reversing the label order ("sub.example.com" -> "com.example.sub").
use vstd::prelude::*;
use crate::text::{chars_of, string_from_chars};

verus! {

/// `s` holds no `sep`.
pub open spec fn no_sep(s: Seq<char>, sep: char) -> bool {
    forall|i: int| 0 <= i < s.len() ==> #[trigger] s[i] != sep
}

/// The pieces of `s` between its `sep` characters, in order. There is always
/// at least one piece (the empty string has one empty piece).
pub open spec fn split_on(s: Seq<char>, sep: char) -> Seq<Seq<char>>
    decreases s.len(),
{
    if s.len() == 0 {
        seq![Seq::<char>::empty()]
    } else {
        let p = split_on(s.drop_last(), sep);
        if s.last() == sep {
            p.push(Seq::<char>::empty())
        } else {
            p.update(p.len() - 1, p.last().push(s.last()))
        }
    }
}

/// The pieces joined with `sep` between them.
pub open spec fn join_on(ls: Seq<Seq<char>>, sep: char) -> Seq<char>
    decreases ls.len(),
{
    if ls.len() == 0 {
        Seq::<char>::empty()
    } else if ls.len() == 1 {
        ls[0]
    } else {
        join_on(ls.drop_last(), sep) + seq![sep] + ls.last()
    }
}

/// The labels of a domain name: the pieces between its dots.
pub open spec fn split_labels(s: Seq<char>) -> Seq<Seq<char>> {
    split_on(s, '.')
}

/// Labels joined with dots.
pub open spec fn join_labels(ls: Seq<Seq<char>>) -> Seq<char> {
    join_on(ls, '.')
}

/// `s` holds no dot.
pub open spec fn no_dot(s: Seq<char>) -> bool {
    no_sep(s, '.')
}

/// `s` with its labels in reverse order.
pub open spec fn reversed_labels(s: Seq<char>) -> Seq<char> {
    join_labels(split_labels(s).reverse())
}

pub proof fn lemma_split_nonempty(s: Seq<char>, sep: char)
    ensures
        split_on(s, sep).len() >= 1,
    decreases s.len(),
{
    if s.len() > 0 {
        lemma_split_nonempty(s.drop_last(), sep);
    }
}

/// No label holds a dot.
pub proof fn lemma_split_no_sep(s: Seq<char>, sep: char)
    ensures
        forall|i: int| 0 <= i < split_on(s, sep).len() ==> no_sep(#[trigger] split_on(s, sep)[i], sep),
    decreases s.len(),
{
    if s.len() > 0 {
        lemma_split_no_sep(s.drop_last(), sep);
        lemma_split_nonempty(s.drop_last(), sep);
    }
}

/// A name without dots is its own single label.
pub proof fn lemma_split_single(s: Seq<char>, sep: char)
    requires
        no_sep(s, sep),
    ensures
        split_on(s, sep) == seq![s],
    decreases s.len(),
{
    if s.len() > 0 {
        lemma_split_single(s.drop_last(), sep);
        assert(s.drop_last().push(s.last()) =~= s);
    } else {
        assert(s =~= Seq::<char>::empty());
    }
    assert(split_on(s, sep) =~= seq![s]);
}

/// Splitting at a dot: the labels of `a.b` are those of `a` then those of `b`.
pub proof fn lemma_split_concat(a: Seq<char>, b: Seq<char>, sep: char)
    ensures
        split_on(a + seq![sep] + b, sep) == split_on(a, sep) + split_on(b, sep),
    decreases b.len(),
{
    let s = a + seq![sep] + b;
    if b.len() == 0 {
        assert(s.drop_last() =~= a);
        assert(split_on(s, sep) =~= split_on(a, sep) + split_on(b, sep));
    } else {
        lemma_split_concat(a, b.drop_last(), sep);
        assert(s.drop_last() =~= a + seq![sep] + b.drop_last());
        lemma_split_nonempty(b.drop_last(), sep);
        lemma_split_nonempty(a, sep);
        assert(split_on(s, sep) =~= split_on(a, sep) + split_on(b, sep));
    }
}

/// Joining the labels of `s` gives `s` back.
pub proof fn lemma_join_split(s: Seq<char>, sep: char)
    ensures
        join_on(split_on(s, sep), sep) == s,
    decreases s.len(),
{
    if s.len() > 0 {
        let t = s.drop_last();
        lemma_join_split(t, sep);
        lemma_split_nonempty(t, sep);
        let p = split_on(t, sep);
        if s.last() == sep {
            let q = p.push(Seq::<char>::empty());
            assert(q.drop_last() =~= p);
            assert(join_on(q, sep) =~= s);
        } else {
            let q = p.update(p.len() - 1, p.last().push(s.last()));
            assert(s =~= t.push(s.last()));
            if p.len() == 1 {
                assert(join_on(p, sep) == p[0]);
                assert(join_on(q, sep) =~= s);
            } else {
                assert(q.drop_last() =~= p.drop_last());
                assert(join_on(q, sep) =~= join_on(p.drop_last(), sep) + seq![sep] + p.last().push(s.last()));
                assert(join_on(q, sep) =~= s);
            }
        }
    }
}

/// Splitting joined dot-free labels gives the labels back.
pub proof fn lemma_split_join(ls: Seq<Seq<char>>, sep: char)
    requires
        ls.len() >= 1,
        forall|i: int| 0 <= i < ls.len() ==> no_sep(#[trigger] ls[i], sep),
    ensures
        split_on(join_on(ls, sep), sep) == ls,
    decreases ls.len(),
{
    if ls.len() == 1 {
        lemma_split_single(ls[0], sep);
        assert(split_on(join_on(ls, sep), sep) =~= ls);
    } else {
        let init = ls.drop_last();
        lemma_split_join(init, sep);
        lemma_split_concat(join_on(init, sep), ls.last(), sep);
        lemma_split_single(ls.last(), sep);
        assert(split_on(join_on(ls, sep), sep) =~= ls);
    }
}

/// Reversing the labels twice gives the name back.
pub proof fn lemma_reversed_labels_involutive(s: Seq<char>)
    ensures
        reversed_labels(reversed_labels(s)) == s,
{
    let ls = split_labels(s);
    lemma_split_nonempty(s, '.');
    lemma_split_no_sep(s, '.');
    let r = ls.reverse();
    assert forall|i: int| 0 <= i < r.len() implies no_dot(#[trigger] r[i]) by {
        assert(r[i] == ls[ls.len() - 1 - i]);
    }
    lemma_split_join(r, '.');
    assert(r.reverse() =~= ls);
    lemma_join_split(s, '.');
}

/// The total length of the labels.
pub open spec fn labels_len(ls: Seq<Seq<char>>) -> nat
    decreases ls.len(),
{
    if ls.len() == 0 {
        0
    } else {
        labels_len(ls.drop_last()) + ls.last().len()
    }
}

proof fn lemma_labels_len_concat(a: Seq<Seq<char>>, b: Seq<Seq<char>>)
    ensures
        labels_len(a + b) == labels_len(a) + labels_len(b),
    decreases b.len(),
{
    if b.len() == 0 {
        assert(a + b =~= a);
    } else {
        lemma_labels_len_concat(a, b.drop_last());
        assert((a + b).drop_last() =~= a + b.drop_last());
    }
}

proof fn lemma_labels_len_reverse(ls: Seq<Seq<char>>)
    ensures
        labels_len(ls.reverse()) == labels_len(ls),
    decreases ls.len(),
{
    if ls.len() > 0 {
        lemma_labels_len_reverse(ls.drop_last());
        assert(ls.reverse() =~= seq![ls.last()] + ls.drop_last().reverse());
        lemma_labels_len_concat(seq![ls.last()], ls.drop_last().reverse());
        let one = seq![ls.last()];
        assert(one.drop_last() =~= Seq::<Seq<char>>::empty());
        assert(labels_len(one.drop_last()) == 0);
        assert(labels_len(one) == ls.last().len());
    } else {
        assert(ls.reverse() =~= ls);
    }
}

proof fn lemma_join_len(ls: Seq<Seq<char>>, sep: char)
    requires
        ls.len() >= 1,
    ensures
        join_on(ls, sep).len() == labels_len(ls) + ls.len() - 1,
    decreases ls.len(),
{
    if ls.len() == 1 {
        assert(ls.drop_last() =~= Seq::<Seq<char>>::empty());
        assert(labels_len(ls.drop_last()) == 0);
        assert(ls.last() == ls[0]);
    } else {
        lemma_join_len(ls.drop_last(), sep);
        assert(join_on(ls, sep) == join_on(ls.drop_last(), sep) + seq![sep] + ls.last());
    }
}

/// Reversing the labels of a name keeps its length and puts its labels in
/// reverse order.
pub proof fn lemma_reversed_labels_shape(s: Seq<char>)
    ensures
        split_labels(reversed_labels(s)) == split_labels(s).reverse(),
        reversed_labels(s).len() == s.len(),
{
    let ls = split_labels(s);
    lemma_split_nonempty(s, '.');
    lemma_split_no_sep(s, '.');
    let r = ls.reverse();
    assert forall|i: int| 0 <= i < r.len() implies no_dot(#[trigger] r[i]) by {
        assert(r[i] == ls[ls.len() - 1 - i]);
    }
    lemma_split_join(r, '.');
    lemma_join_split(s, '.');
    lemma_join_len(ls, '.');
    lemma_join_len(r, '.');
    lemma_labels_len_reverse(ls);
}

/// Reverse domain labels: "sub.example.com" -> "com.example.sub".
pub fn reverse_labels(domain: &str) -> (r: String)
    ensures
        r@ == reversed_labels(domain@),
{
    let s = chars_of(domain);
    let ghost sv = s@;
    let n = s.len();
    let mut out: Vec<char> = Vec::new();
    let mut end: usize = n;
    let mut i: usize = n;
    while i > 0
        invariant
            sv == s@,
            n == sv.len(),
            i <= end <= n,
            end < n ==> sv[end as int] == '.',
            no_dot(sv.subrange(i as int, end as int)),
            end < n ==> out@ == reversed_labels(sv.subrange(end + 1, n as int)) + seq!['.'],
            end == n ==> out@.len() == 0,
        decreases i,
    {
        i = i - 1;
        if s[i] == '.' {
            let ghost o0 = out@;
            let mut j = i + 1;
            while j < end
                invariant
                    sv == s@,
                    n == sv.len(),
                    i + 1 <= j <= end <= n,
                    out@ == o0 + sv.subrange(i + 1, j as int),
                decreases end - j,
            {
                out.push(s[j]);
                j = j + 1;
                assert(out@ =~= o0 + sv.subrange(i + 1, j as int));
            }
            proof {
                let mid = sv.subrange(i + 1, end as int);
                if end < n {
                    let rest = sv.subrange(end + 1, n as int);
                    assert(sv.subrange(i + 1, n as int) =~= mid + seq!['.'] + rest);
                    lemma_split_concat(mid, rest, '.');
                    lemma_split_single(mid, '.');
                    let rl = split_labels(rest).reverse();
                    lemma_split_nonempty(rest, '.');
                    assert(split_labels(sv.subrange(i + 1, n as int)).reverse() =~= rl.push(mid));
                    assert(rl.push(mid).drop_last() =~= rl);
                } else {
                    assert(sv.subrange(i + 1, n as int) =~= mid);
                    lemma_split_single(mid, '.');
                    assert(split_labels(mid).reverse() =~= seq![mid]);
                }
            }
            out.push('.');
            end = i;
        }
        assert(no_dot(sv.subrange(i as int, end as int))) by {
            assert forall|k: int| 0 <= k < end - i implies #[trigger] sv.subrange(i as int, end as int)[k] != '.' by {
                if k > 0 {
                    assert(sv.subrange(i as int, end as int)[k] == sv.subrange(i + 1, end as int)[k - 1]);
                }
            }
        }
    }
    let ghost o0 = out@;
    let mut j: usize = 0;
    while j < end
        invariant
            sv == s@,
            n == sv.len(),
            j <= end <= n,
            out@ == o0 + sv.subrange(0, j as int),
        decreases end - j,
    {
        out.push(s[j]);
        j = j + 1;
        assert(out@ =~= o0 + sv.subrange(0, j as int));
    }
    proof {
        let head = sv.subrange(0, end as int);
        lemma_split_single(head, '.');
        if end < n {
            let rest = sv.subrange(end + 1, n as int);
            assert(sv =~= head + seq!['.'] + rest);
            lemma_split_concat(head, rest, '.');
            lemma_split_nonempty(rest, '.');
            let rl = split_labels(rest).reverse();
            assert(split_labels(sv).reverse() =~= rl.push(head));
            assert(rl.push(head).drop_last() =~= rl);
        } else {
            assert(sv =~= head);
            assert(split_labels(sv).reverse() =~= seq![head]);
        }
    }
    string_from_chars(out.as_slice())
}

} // verus!
