//! What suffix rules match: a rule for `p` matches `p` and every subdomain
//! of `p`, and nothing else.
use vstd::prelude::*;
use vstd::utf8::*;
use crate::labels::{
    join_on, lemma_join_split, lemma_reversed_labels_involutive, lemma_split_concat,
    lemma_split_nonempty, reversed_labels, split_on,
};
use crate::matcher::{is_subdomain, suffix_in};
use crate::builder::{key_set, reversed_all};
use crate::text::{lemma_encode_utf8_concat, utf8_all};

verus! {

/// Joining two non-empty label lists puts a separator between their joins.
pub proof fn lemma_join_concat(a: Seq<Seq<char>>, b: Seq<Seq<char>>, sep: char)
    requires
        a.len() >= 1,
        b.len() >= 1,
    ensures
        join_on(a + b, sep) == join_on(a, sep) + seq![sep] + join_on(b, sep),
    decreases b.len(),
{
    if b.len() == 1 {
        assert((a + b).drop_last() =~= a);
        assert((a + b).last() == b[0]);
    } else {
        lemma_join_concat(a, b.drop_last(), sep);
        assert((a + b).drop_last() =~= a + b.drop_last());
        assert((a + b).last() == b.last());
        assert(join_on(a + b, sep) =~= join_on(a, sep) + seq![sep] + join_on(b, sep));
    }
}

/// Reversing the labels of `x.y` gives the reversed labels of `y`, a dot,
/// then the reversed labels of `x`.
pub proof fn lemma_reversed_concat(x: Seq<char>, y: Seq<char>)
    ensures
        reversed_labels(x + seq!['.'] + y) == reversed_labels(y) + seq!['.'] + reversed_labels(x),
{
    lemma_split_concat(x, y, '.');
    lemma_split_nonempty(x, '.');
    lemma_split_nonempty(y, '.');
    let sx = split_on(x, '.');
    let sy = split_on(y, '.');
    assert((sx + sy).reverse() =~= sy.reverse() + sx.reverse());
    lemma_join_concat(sy.reverse(), sx.reverse(), '.');
}

/// Different names have different reversed labels.
pub proof fn lemma_reversed_injective(a: Seq<char>, b: Seq<char>)
    requires
        reversed_labels(a) == reversed_labels(b),
    ensures
        a == b,
{
    lemma_reversed_labels_involutive(a);
    lemma_reversed_labels_involutive(b);
}

/// Different texts have different UTF-8 encodings.
pub proof fn lemma_encode_injective(a: Seq<char>, b: Seq<char>)
    requires
        encode_utf8(a) == encode_utf8(b),
    ensures
        a == b,
{
    encode_utf8_decode_utf8(a);
    encode_utf8_decode_utf8(b);
}

/// If the encoding of `a` is a prefix of the encoding of `c`, then `a` is a
/// prefix of `c` (UTF-8 is prefix-free).
pub proof fn lemma_encode_prefix(a: Seq<char>, c: Seq<char>)
    requires
        encode_utf8(a).len() <= encode_utf8(c).len(),
        encode_utf8(c).take(encode_utf8(a).len() as int) == encode_utf8(a),
    ensures
        a.len() <= c.len(),
        c.take(a.len() as int) == a,
    decreases a.len(),
{
    let ea = encode_utf8(a);
    let ec = encode_utf8(c);
    if a.len() == 0 {
        assert(c.take(0) =~= a);
    } else {
        encode_utf8_first_scalar(a);
        assert(ea.len() > 0);
        assert(ec.len() > 0);
        if c.len() == 0 {
            assert(ec.len() == 0);
        }
        encode_utf8_first_scalar(c);
        assert(ec[0] == ea[0]) by {
            assert(ec.take(ea.len() as int)[0] == ec[0]);
        }
        let l = length_of_first_scalar(ea);
        assert(l == length_of_first_scalar(ec));
        assert(forall|k: int| 0 <= k < l ==> #[trigger] ec[k] == ea[k]) by {
            assert forall|k: int| 0 <= k < l implies #[trigger] ec[k] == ea[k] by {
                assert(ec.take(ea.len() as int)[k] == ec[k]);
            }
        }
        assert(decode_first_codepoint(ea) == decode_first_codepoint(ec));
        char_u32_cast(a[0], decode_first_scalar(ea));
        char_u32_cast(c[0], decode_first_scalar(ec));
        assert(a[0] == c[0]);
        let a1 = a.drop_first();
        let c1 = c.drop_first();
        let e0 = encode_scalar(a[0] as u32);
        assert(ea == e0 + encode_utf8(a1));
        assert(ec == e0 + encode_utf8(c1));
        assert(e0.len() == l);
        assert(encode_utf8(c1).take(encode_utf8(a1).len() as int) =~= encode_utf8(a1)) by {
            assert forall|k: int| 0 <= k < encode_utf8(a1).len() implies #[trigger] encode_utf8(c1).take(
                encode_utf8(a1).len() as int,
            )[k] == encode_utf8(a1)[k] by {
                assert(encode_utf8(c1)[k] == ec[l + k]);
                assert(encode_utf8(a1)[k] == ea[l + k]);
                assert(ec.take(ea.len() as int)[l + k] == ec[l + k]);
            }
        }
        lemma_encode_prefix(a1, c1);
        assert(c.take(a.len() as int) =~= a) by {
            assert forall|k: int| 0 <= k < a.len() implies #[trigger] c.take(a.len() as int)[k] == a[k] by {
                if k > 0 {
                    assert(c1.take(a1.len() as int)[k - 1] == a1[k - 1]);
                }
            }
        }
    }
}

/// A text whose encoding starts with the byte 46 starts with '.'.
pub proof fn lemma_encode_first_dot(z: Seq<char>)
    requires
        encode_utf8(z).len() > 0,
        encode_utf8(z)[0] == 46u8,
    ensures
        z.len() > 0,
        z[0] == '.',
{
    if z.len() == 0 {
        assert(encode_utf8(z).len() == 0);
    }
    encode_utf8_first_scalar(z);
    let ez = encode_utf8(z);
    assert(is_leading_byte_width_1(ez[0]));
    let b: u8 = 46u8;
    assert((b & 0x7F) as u32 == 46u32) by (bit_vector)
        requires
            b == 46u8,
    ;
    assert(decode_first_codepoint(ez) == 46u32);
    char_u32_cast(z[0], decode_first_scalar(ez));
}

/// The encoding of "." is the single byte 46.
pub proof fn lemma_encode_dot()
    ensures
        encode_utf8(seq!['.']) == seq![46u8],
{
    let d = seq!['.'];
    assert(is_ascii_chars(d));
    is_ascii_chars_encode_utf8(d);
    assert(encode_utf8(d) =~= seq![46u8]);
}

/// A suffix rule set made from patterns `ps` matches a name exactly when
/// the name is one of the patterns or a subdomain of one of them.
pub proof fn lemma_suffix_semantics(ps: Seq<Seq<char>>, d: Seq<char>)
    ensures
        suffix_in(key_set(reversed_all(ps)), d) <==> exists|k: int|
            0 <= k < ps.len() && (d == #[trigger] ps[k] || is_subdomain(d, ps[k])),
{
    let keys = key_set(reversed_all(ps));
    let rd = reversed_labels(d);
    let rb = encode_utf8(rd);
    let enc = utf8_all(reversed_all(ps));
    if suffix_in(keys, d) {
        let j = choose|j: int|
            0 <= j <= rb.len() && (j == rb.len() || rb[j] == 46u8) && #[trigger] keys.contains(
                rb.take(j),
            );
        assert(enc.contains(rb.take(j)));
        let k = choose|k: int| 0 <= k < enc.len() && enc[k] == rb.take(j);
        let p = ps[k];
        let rp = reversed_labels(p);
        assert(enc[k] == encode_utf8(rp));
        if j == rb.len() {
            assert(rb.take(j) =~= rb);
            lemma_encode_injective(rp, rd);
            lemma_reversed_injective(p, d);
            assert(d == ps[k]);
        } else {
            let erp = encode_utf8(rp);
            assert(rb.take(erp.len() as int) == erp);
            lemma_encode_prefix(rp, rd);
            let z = rd.skip(rp.len() as int);
            assert(rd =~= rp + z);
            lemma_encode_utf8_concat(rp, z);
            assert(encode_utf8(z)[0] == rb[j]);
            lemma_encode_first_dot(z);
            let y = z.drop_first();
            assert(rd =~= rp + seq!['.'] + y);
            lemma_reversed_concat(rp, y);
            lemma_reversed_labels_involutive(d);
            lemma_reversed_labels_involutive(p);
            let x = reversed_labels(y);
            assert(d == x + seq!['.'] + p);
            assert(d.subrange(d.len() - p.len() - 1, d.len() as int) =~= seq!['.'] + p);
            assert(is_subdomain(d, ps[k]));
        }
    }
    if exists|k: int| 0 <= k < ps.len() && (d == #[trigger] ps[k] || is_subdomain(d, ps[k])) {
        let k = choose|k: int| 0 <= k < ps.len() && (d == #[trigger] ps[k] || is_subdomain(d, ps[k]));
        let p = ps[k];
        let rp = reversed_labels(p);
        assert(enc[k] == encode_utf8(rp));
        assert(keys.contains(encode_utf8(rp)));
        if d == p {
            assert(rb.take(rb.len() as int) =~= rb);
            assert(keys.contains(rb.take(rb.len() as int)));
        } else {
            let x = d.take(d.len() - p.len() - 1);
            assert(d =~= x + seq!['.'] + p) by {
                let t = d.subrange(d.len() - p.len() - 1, d.len() as int);
                assert(t == seq!['.'] + p);
                assert forall|i: int| 0 <= i < d.len() implies d[i] == (x + seq!['.'] + p)[i] by {
                    if i >= x.len() {
                        assert(d[i] == t[i - x.len()]);
                    }
                }
            }
            lemma_reversed_concat(x, p);
            let rx = reversed_labels(x);
            assert(rd == rp + seq!['.'] + rx);
            lemma_encode_utf8_concat(rp + seq!['.'], rx);
            lemma_encode_utf8_concat(rp, seq!['.']);
            lemma_encode_dot();
            let erp = encode_utf8(rp);
            assert(rb == erp + seq![46u8] + encode_utf8(rx));
            let j = erp.len() as int;
            assert(rb[j] == 46u8);
            assert(rb.take(j) =~= erp);
            assert(keys.contains(rb.take(j)));
        }
    }
}

} // verus!
