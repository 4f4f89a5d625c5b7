//! Character-level helpers on strings: std operations that vstd leaves
//! unspecified, stated here over the strings' views.
use vstd::prelude::*;
use vstd::utf8::*;
use crate::labels::{split_on, join_on, no_sep, lemma_split_join, lemma_split_nonempty};

verus! {

/// ASCII lowercase of one character; other characters are unchanged.
pub open spec fn ascii_lower_char(c: char) -> char {
    if 'A' <= c && c <= 'Z' {
        ((c as u32) + 32) as char
    } else {
        c
    }
}

/// ASCII lowercase of a character sequence.
pub open spec fn ascii_lower(s: Seq<char>) -> Seq<char> {
    s.map_values(|c: char| ascii_lower_char(c))
}

/// What `str::to_lowercase` returns for a string: the Unicode lowercase
/// mapping, which the standard library takes from the Unicode tables.
pub uninterp spec fn unicode_lowercase(s: Seq<char>) -> Seq<char>;

/// Calls `str::to_lowercase`. Its result is named by `unicode_lowercase`;
/// for a string of ASCII characters it is the ASCII lowercase, character by
/// character (std documents the mapping as Unicode's `Lowercase` property,
/// which on ASCII maps exactly `A`..`Z` to `a`..`z`).
#[verifier::external_body]
pub(crate) fn to_lowercase(s: &str) -> (r: String)
    ensures
        r@ == unicode_lowercase(s@),
        is_ascii_chars(s@) ==> r@ == ascii_lower(s@),
{
    s.to_lowercase()
}

/// Calls `str::chars` and collects the characters, in order.
#[verifier::external_body]
pub(crate) fn chars_of(s: &str) -> (r: Vec<char>)
    ensures
        r@ == s@,
{
    s.chars().collect()
}

/// Collects characters into a `String` (`FromIterator<char>` for `String`).
#[verifier::external_body]
pub(crate) fn string_from_chars(v: &[char]) -> (r: String)
    ensures
        r@ == v@,
{
    v.iter().collect()
}

/// What `String::from_utf8_lossy` returns: the decoded text, with each
/// invalid sequence replaced by U+FFFD.
pub uninterp spec fn utf8_lossy(b: Seq<u8>) -> Seq<char>;

/// Calls `String::from_utf8_lossy`. Its result is named by `utf8_lossy`; on
/// valid UTF-8 it is the decoded text (std: "If the input is valid UTF-8,
/// no replacement takes place").
#[verifier::external_body]
pub(crate) fn from_utf8_lossy(b: &[u8]) -> (r: String)
    ensures
        r@ == utf8_lossy(b@),
        valid_utf8(b@) ==> r@ == decode_utf8(b@),
{
    String::from_utf8_lossy(b).into_owned()
}


/// A line piece with one trailing carriage return removed, if it has one.
pub open spec fn strip_cr(p: Seq<char>) -> Seq<char> {
    if p.len() > 0 && p.last() == '\r' {
        p.drop_last()
    } else {
        p
    }
}

/// The lines of `s` as `str::lines` yields them: split at '\n', a '\r'
/// before a '\n' removed, and no final empty line after a last '\n'.
pub open spec fn std_lines(s: Seq<char>) -> Seq<Seq<char>> {
    let ps = split_on(s, '\n');
    let body = ps.drop_last().map_values(|p: Seq<char>| strip_cr(p));
    if ps.last().len() == 0 {
        body
    } else {
        body.push(ps.last())
    }
}

/// The UTF-8 bytes of each string.
pub open spec fn utf8_all(v: Seq<Seq<char>>) -> Seq<Seq<u8>> {
    v.map_values(|s: Seq<char>| encode_utf8(s))
}

/// The texts of a sequence of strings.
pub open spec fn texts(v: Seq<String>) -> Seq<Seq<char>> {
    v.map_values(|s: String| s@)
}

/// The lines of `s` (`str::lines`).
pub fn lines_of(s: &str) -> (r: Vec<String>)
    ensures
        texts(r@) == std_lines(s@),
{
    let cs = chars_of(s);
    let ghost sv = cs@;
    let mut out: Vec<String> = Vec::new();
    let mut cur: Vec<char> = Vec::new();
    let mut i: usize = 0;
    proof {
        assert(sv.take(0) =~= Seq::<char>::empty());
        assert(texts(out@) =~= split_on(sv.take(0), '\n').drop_last().map_values(
            |p: Seq<char>| strip_cr(p),
        ));
    }
    while i < cs.len()
        invariant
            sv == cs@,
            i <= sv.len(),
            texts(out@) == split_on(sv.take(i as int), '\n').drop_last().map_values(
                |p: Seq<char>| strip_cr(p),
            ),
            cur@ == split_on(sv.take(i as int), '\n').last(),
        decreases sv.len() - i,
    {
        let ghost ps = split_on(sv.take(i as int), '\n');
        proof {
            lemma_split_nonempty(sv.take(i as int), '\n');
            assert(sv.take(i + 1).drop_last() =~= sv.take(i as int));
        }
        let c = cs[i];
        if c == '\n' {
            let mut piece = cur;
            if piece.len() > 0 && piece[piece.len() - 1] == '\r' {
                piece.pop();
            }
            assert(piece@ == strip_cr(cur@));
            let line = string_from_chars(piece.as_slice());
            let ghost o0 = texts(out@);
            out.push(line);
            cur = Vec::new();
            proof {
                let ps2 = split_on(sv.take(i + 1), '\n');
                assert(ps2 == ps.push(Seq::<char>::empty()));
                assert(ps2.drop_last() =~= ps);
                assert(ps =~= ps.drop_last().push(ps.last()));
                assert(texts(out@) =~= o0.push(strip_cr(ps.last())));
                assert(texts(out@) =~= ps2.drop_last().map_values(|p: Seq<char>| strip_cr(p)));
                assert(cur@ =~= ps2.last());
            }
        } else {
            cur.push(c);
            proof {
                let ps2 = split_on(sv.take(i + 1), '\n');
                assert(ps2 == ps.update(ps.len() - 1, ps.last().push(c)));
                assert(ps2.drop_last() =~= ps.drop_last());
            }
        }
        i = i + 1;
    }
    proof {
        assert(sv.take(sv.len() as int) =~= sv);
        lemma_split_nonempty(sv, '\n');
    }
    if cur.len() > 0 {
        let line = string_from_chars(cur.as_slice());
        let ghost o0 = texts(out@);
        out.push(line);
        assert(texts(out@) =~= o0.push(cur@));
    }
    out
}

/// Lines joined with '\n' read back as the same lines, when no line holds a
/// '\n', no line but the last ends in '\r', and the last line is not empty.
pub proof fn lemma_lines_of_joined(ps: Seq<Seq<char>>)
    requires
        ps.len() >= 1,
        forall|i: int| 0 <= i < ps.len() ==> no_sep(#[trigger] ps[i], '\n'),
        forall|i: int| 0 <= i < ps.len() - 1 ==> strip_cr(#[trigger] ps[i]) == ps[i],
        ps.last().len() > 0,
    ensures
        std_lines(join_on(ps, '\n')) == ps,
{
    lemma_split_join(ps, '\n');
    let body = ps.drop_last().map_values(|p: Seq<char>| strip_cr(p));
    assert(body =~= ps.drop_last());
    assert(ps.drop_last().push(ps.last()) =~= ps);
}

/// UTF-8 encoding distributes over concatenation.
pub proof fn lemma_encode_utf8_concat(a: Seq<char>, b: Seq<char>)
    ensures
        encode_utf8(a + b) == encode_utf8(a) + encode_utf8(b),
    decreases a.len(),
{
    if a.len() == 0 {
        assert(a + b =~= b);
        assert(encode_utf8(a) =~= Seq::<u8>::empty());
        assert(encode_utf8(a) + encode_utf8(b) =~= encode_utf8(b));
    } else {
        lemma_encode_utf8_concat(a.drop_first(), b);
        assert((a + b).drop_first() =~= a.drop_first() + b);
        assert((a + b)[0] == a[0]);
        assert(encode_utf8(a + b) =~= encode_utf8(a) + encode_utf8(b));
    }
}

/// Joins strings with '\n' and returns the UTF-8 bytes of the result
/// (`join("\n").into_bytes()`).
pub fn join_lines_bytes(v: &Vec<String>) -> (r: Vec<u8>)
    ensures
        r@ == encode_utf8(join_on(texts(v@), '\n')),
{
    let mut out: Vec<u8> = Vec::new();
    let mut i: usize = 0;
    while i < v.len()
        invariant
            i <= v@.len(),
            out@ == encode_utf8(join_on(texts(v@).take(i as int), '\n')),
        decreases v.len() - i,
    {
        let ghost o0 = out@;
        let ghost pre = texts(v@).take(i as int);
        let ghost next = texts(v@).take(i + 1);
        assert(next.drop_last() =~= pre);
        let bytes = v[i].as_str().as_bytes();
        if i > 0 {
            out.push(10u8);
            proof {
                assert(encode_utf8(seq!['\n']) =~= seq![10u8]) by {
                    let nl = seq!['\n'];
                    assert(is_ascii_chars(nl));
                    is_ascii_chars_encode_utf8(nl);
                    assert(encode_utf8(nl)[0] == nl[0] as u8);
                }
                lemma_encode_utf8_concat(join_on(pre, '\n'), seq!['\n']);
            }
        }
        let mut j: usize = 0;
        let ghost o1 = out@;
        while j < bytes.len()
            invariant
                j <= bytes@.len(),
                out@ == o1 + bytes@.take(j as int),
            decreases bytes.len() - j,
        {
            out.push(bytes[j]);
            j = j + 1;
            assert(out@ =~= o1 + bytes@.take(j as int));
        }
        proof {
            assert(bytes@.take(bytes@.len() as int) =~= bytes@);
            assert(bytes@ == encode_utf8(v@[i as int]@));
            assert(next.last() == v@[i as int]@);
            if i > 0 {
                lemma_encode_utf8_concat(join_on(pre, '\n') + seq!['\n'], next.last());
                assert(join_on(next, '\n') == join_on(pre, '\n') + seq!['\n'] + next.last());
            } else {
                assert(join_on(next, '\n') == next[0]);
                assert(o0 =~= Seq::<u8>::empty());
            }
        }
        i = i + 1;
    }
    assert(texts(v@).take(v@.len() as int) =~= texts(v@));
    out
}

} // verus!
