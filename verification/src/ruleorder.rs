//! The order in which a builder keeps its rules, and the stable sort and
//! duplicate removal that put them in that order.
use vstd::prelude::*;
use vstd::utf8::*;
use crate::order::{LexOrder, compare_bytes, lex_lt, lemma_lex_lt_transitive, lemma_lex_lt_asymmetric};
use crate::rule::{Rule, RuleAction, RuleType, same_action, actions_equal};

verus! {

broadcast use vstd::seq_lib::group_filter_ensures;

/// Rank of a rule type in the builder's order.
pub open spec fn type_rank(t: RuleType) -> int {
    match t {
        RuleType::DomainExact => 0,
        RuleType::DomainSuffix => 1,
        RuleType::DomainKeyword => 2,
        RuleType::Regex => 3,
        RuleType::IpCidr4 => 4,
        RuleType::IpCidr6 => 5,
    }
}

/// Rank of an action in the builder's order (the rewrite target plays no part).
pub open spec fn action_rank(a: RuleAction) -> int {
    match a {
        RuleAction::Allow => 0,
        RuleAction::Block => 1,
        RuleAction::Rewrite { .. } => 2,
    }
}

/// The bytes of a rule's pattern (its UTF-8 encoding), which order patterns.
pub open spec fn pattern_bytes(r: Rule) -> Seq<u8> {
    encode_utf8(r.pattern@)
}

/// Two rules have the same sort key: type, action kind and pattern.
pub open spec fn same_key(a: Rule, b: Rule) -> bool {
    &&& type_rank(a.rule_type) == type_rank(b.rule_type)
    &&& action_rank(a.action) == action_rank(b.action)
    &&& pattern_bytes(a) == pattern_bytes(b)
}

/// `a` sorts strictly before `b`: by type, then action kind, then pattern.
pub open spec fn key_lt(a: Rule, b: Rule) -> bool {
    ||| type_rank(a.rule_type) < type_rank(b.rule_type)
    ||| type_rank(a.rule_type) == type_rank(b.rule_type) && action_rank(a.action) < action_rank(
        b.action,
    )
    ||| type_rank(a.rule_type) == type_rank(b.rule_type) && action_rank(a.action) == action_rank(
        b.action,
    ) && lex_lt(pattern_bytes(a), pattern_bytes(b))
}

pub open spec fn key_le(a: Rule, b: Rule) -> bool {
    key_lt(a, b) || same_key(a, b)
}

/// Every rule sorts no later than every rule after it.
pub open spec fn sorted_by_key(s: Seq<Rule>) -> bool {
    forall|i: int, j: int| 0 <= i < j < s.len() ==> key_le(#[trigger] s[i], #[trigger] s[j])
}

/// The rules of `s` with the same sort key as `r`, in their order in `s`.
pub open spec fn key_class(s: Seq<Rule>, r: Rule) -> Seq<Rule> {
    s.filter(|x: Rule| same_key(x, r))
}

/// `t` is `s` sorted stably by key: sorted, and for every key the rules with
/// that key come in the same order as in `s`.
pub open spec fn stable_sort_of(t: Seq<Rule>, s: Seq<Rule>) -> bool {
    &&& sorted_by_key(t)
    &&& forall|r: Rule| #[trigger] key_class(t, r) == key_class(s, r)
}

/// Two rules are duplicates: same type, same action (target included) and
/// same pattern. The source tag plays no part.
pub open spec fn same_rule(a: Rule, b: Rule) -> bool {
    &&& a.rule_type == b.rule_type
    &&& same_action(a.action, b.action)
    &&& a.pattern@ == b.pattern@
}

/// `s` with every rule dropped that duplicates the rule just before it.
pub open spec fn dedup_adjacent(s: Seq<Rule>) -> Seq<Rule>
    decreases s.len(),
{
    if s.len() <= 1 {
        s
    } else {
        let d = dedup_adjacent(s.drop_last());
        if same_rule(s[s.len() - 2], s.last()) {
            d
        } else {
            d.push(s.last())
        }
    }
}

pub proof fn lemma_key_lt_transitive(a: Rule, b: Rule, c: Rule)
    requires
        key_le(a, b),
        key_le(b, c),
        key_lt(a, b) || key_lt(b, c),
    ensures
        key_lt(a, c),
{
    if lex_lt(pattern_bytes(a), pattern_bytes(b)) && lex_lt(pattern_bytes(b), pattern_bytes(c)) {
        lemma_lex_lt_transitive(pattern_bytes(a), pattern_bytes(b), pattern_bytes(c));
    }
}

pub proof fn lemma_key_le_transitive(a: Rule, b: Rule, c: Rule)
    requires
        key_le(a, b),
        key_le(b, c),
    ensures
        key_le(a, c),
{
    if key_lt(a, b) || key_lt(b, c) {
        lemma_key_lt_transitive(a, b, c);
    }
}

pub proof fn lemma_key_lt_not_same(a: Rule, b: Rule)
    requires
        key_lt(a, b),
    ensures
        !same_key(a, b),
        !same_key(b, a),
        !key_le(b, a),
{
    if lex_lt(pattern_bytes(a), pattern_bytes(b)) {
        lemma_lex_lt_asymmetric(pattern_bytes(a), pattern_bytes(b));
    }
}

pub proof fn lemma_filter_push<A>(s: Seq<A>, x: A, pred: spec_fn(A) -> bool)
    ensures
        s.push(x).filter(pred) == (if pred(x) {
            s.filter(pred).push(x)
        } else {
            s.filter(pred)
        }),
{
    reveal(Seq::filter);
    assert(s.push(x).drop_last() =~= s);
}

pub proof fn lemma_filter_none<A>(s: Seq<A>, pred: spec_fn(A) -> bool)
    requires
        forall|i: int| 0 <= i < s.len() ==> !pred(#[trigger] s[i]),
    ensures
        s.filter(pred) == Seq::<A>::empty(),
    decreases s.len(),
{
    reveal(Seq::filter);
    if s.len() > 0 {
        lemma_filter_none(s.drop_last(), pred);
    }
    assert(s.filter(pred) =~= Seq::<A>::empty());
}

/// Three-way comparison of rules by sort key.
pub fn compare_rule_keys(a: &Rule, b: &Rule) -> (r: LexOrder)
    ensures
        r == LexOrder::Less <==> key_lt(*a, *b),
        r == LexOrder::Equal <==> same_key(*a, *b),
        r == LexOrder::Greater <==> key_lt(*b, *a),
{
    let ta = rule_sort_key(&a.rule_type);
    let tb = rule_sort_key(&b.rule_type);
    if ta < tb {
        return LexOrder::Less;
    }
    if ta > tb {
        return LexOrder::Greater;
    }
    let aa = action_sort_key(&a.action);
    let ab = action_sort_key(&b.action);
    if aa < ab {
        return LexOrder::Less;
    }
    if aa > ab {
        return LexOrder::Greater;
    }
    let c = compare_bytes(a.pattern.as_str().as_bytes(), b.pattern.as_str().as_bytes());
    proof {
        if lex_lt(pattern_bytes(*a), pattern_bytes(*b)) {
            lemma_lex_lt_asymmetric(pattern_bytes(*a), pattern_bytes(*b));
        }
        if lex_lt(pattern_bytes(*b), pattern_bytes(*a)) {
            lemma_lex_lt_asymmetric(pattern_bytes(*b), pattern_bytes(*a));
        }
    }
    c
}

/// Sort key of a rule type.
pub fn rule_sort_key(rt: &RuleType) -> (k: u8)
    ensures
        k == type_rank(*rt),
{
    match rt {
        RuleType::DomainExact => 0,
        RuleType::DomainSuffix => 1,
        RuleType::DomainKeyword => 2,
        RuleType::Regex => 3,
        RuleType::IpCidr4 => 4,
        RuleType::IpCidr6 => 5,
    }
}

/// Sort key of an action.
pub fn action_sort_key(a: &RuleAction) -> (k: u8)
    ensures
        k == action_rank(*a),
{
    match a {
        RuleAction::Allow => 0,
        RuleAction::Block => 1,
        RuleAction::Rewrite { .. } => 2,
    }
}


/// No rule of `s` has the same key as `x`, so its key class for `x` is empty.
proof fn lemma_class_empty(s: Seq<Rule>, x: Rule)
    requires
        forall|i: int| 0 <= i < s.len() ==> !same_key(#[trigger] s[i], x),
    ensures
        key_class(s, x) == Seq::<Rule>::empty(),
{
    lemma_filter_none(s, |y: Rule| same_key(y, x));
}

/// Merges two key-sorted rule vectors; on equal keys the rules of `a` come
/// first, so the merge keeps the relative order within each key.
fn merge_rules(a: Vec<Rule>, b: Vec<Rule>) -> (r: Vec<Rule>)
    requires
        sorted_by_key(a@),
        sorted_by_key(b@),
    ensures
        sorted_by_key(r@),
        forall|k: Rule| #[trigger] key_class(r@, k) == key_class(a@, k) + key_class(b@, k),
{
    let ghost a0 = a@;
    let ghost b0 = b@;
    let mut sa = crate::order::reverse_vec(a);
    let mut sb = crate::order::reverse_vec(b);
    let ghost mut at: Seq<Rule> = Seq::empty();
    let ghost mut bt: Seq<Rule> = Seq::empty();
    let mut out: Vec<Rule> = Vec::new();
    assert(a0 =~= at + sa@.reverse());
    assert(b0 =~= bt + sb@.reverse());
    proof {
        assert forall|k: Rule| #[trigger] key_class(out@, k) == key_class(at, k) + key_class(bt, k) by {
            lemma_class_empty(out@, k);
            lemma_class_empty(at, k);
            lemma_class_empty(bt, k);
            assert(key_class(at, k) + key_class(bt, k) =~= Seq::<Rule>::empty());
        }
    }
    while sa.len() > 0 || sb.len() > 0
        invariant
            a0 == at + sa@.reverse(),
            b0 == bt + sb@.reverse(),
            sorted_by_key(a0),
            sorted_by_key(b0),
            sorted_by_key(out@),
            forall|i: int, j: int|
                0 <= i < out@.len() && 0 <= j < sa@.len() ==> key_le(#[trigger] out@[i], #[trigger] sa@[j]),
            forall|i: int, j: int|
                0 <= i < out@.len() && 0 <= j < sb@.len() ==> key_le(#[trigger] out@[i], #[trigger] sb@[j]),
            forall|i: int, j: int|
                0 <= i < bt.len() && 0 <= j < sa@.len() ==> key_lt(#[trigger] bt[i], #[trigger] sa@[j]),
            forall|k: Rule| #[trigger] key_class(out@, k) == key_class(at, k) + key_class(bt, k),
        decreases sa.len() + sb.len(),
    {
        let ghost o0 = out@;
        let ghost s_a = sa@;
        let ghost s_b = sb@;
        // The stacks hold the remaining rules in reverse, so their tops are the
        // smallest remaining keys.
        assert forall|i: int, j: int| 0 <= i < j < s_a.len() implies key_le(#[trigger] s_a[j], #[trigger] s_a[i]) by {
            let n = s_a.len();
            assert(s_a[j] == a0[at.len() + (n - 1 - j)]);
            assert(s_a[i] == a0[at.len() + (n - 1 - i)]);
        }
        assert forall|i: int, j: int| 0 <= i < j < s_b.len() implies key_le(#[trigger] s_b[j], #[trigger] s_b[i]) by {
            let n = s_b.len();
            assert(s_b[j] == b0[bt.len() + (n - 1 - j)]);
            assert(s_b[i] == b0[bt.len() + (n - 1 - i)]);
        }
        let from_a: bool;
        if sa.len() == 0 {
            from_a = false;
        } else if sb.len() == 0 {
            from_a = true;
        } else {
            let c = compare_rule_keys(&sa[sa.len() - 1], &sb[sb.len() - 1]);
            from_a = match c {
                LexOrder::Greater => false,
                _ => true,
            };
        }
        if from_a {
            let x = sa.pop().unwrap();
            assert(sa@ =~= s_a.drop_last());
            proof {
                // x is below every remaining rule of either side
                assert forall|j: int| 0 <= j < sb@.len() implies key_le(x, #[trigger] sb@[j]) by {
                    lemma_key_le_transitive(x, s_b[s_b.len() - 1], sb@[j]);
                }
                // no rule already taken from b shares x's key
                assert forall|i: int| 0 <= i < bt.len() implies !same_key(#[trigger] bt[i], x) by {
                    assert(key_lt(bt[i], s_a[s_a.len() - 1]));
                    lemma_key_lt_not_same(bt[i], x);
                }
                assert forall|k: Rule| #[trigger] key_class(o0.push(x), k) == key_class(at.push(x), k)
                    + key_class(bt, k) by {
                    lemma_filter_push(o0, x, |y: Rule| same_key(y, k));
                    lemma_filter_push(at, x, |y: Rule| same_key(y, k));
                    assert(key_class(o0, k) == key_class(at, k) + key_class(bt, k));
                    if same_key(x, k) {
                        assert forall|i: int| 0 <= i < bt.len() implies !same_key(#[trigger] bt[i], k) by {
                            if same_key(bt[i], k) {
                                assert(same_key(bt[i], x));
                            }
                        }
                        lemma_class_empty(bt, k);
                        assert(key_class(o0, k) == key_class(at, k) + key_class(bt, k));
                        assert(key_class(at, k).push(x) + Seq::<Rule>::empty() =~= (key_class(at, k)
                            + Seq::<Rule>::empty()).push(x));
                    } else {
                    }
                }
                at = at.push(x);
                assert(a0 =~= at + sa@.reverse());
            }
            out.push(x);
        } else {
            let x = sb.pop().unwrap();
            assert(sb@ =~= s_b.drop_last());
            proof {
                assert forall|j: int| 0 <= j < sa@.len() implies key_lt(x, #[trigger] sa@[j]) by {
                    lemma_key_lt_not_same(x, s_a[s_a.len() - 1]);
                    lemma_key_lt_transitive(x, s_a[s_a.len() - 1], sa@[j]);
                }
                assert forall|k: Rule| #[trigger] key_class(o0.push(x), k) == key_class(at, k)
                    + key_class(bt.push(x), k) by {
                    lemma_filter_push(o0, x, |y: Rule| same_key(y, k));
                    lemma_filter_push(bt, x, |y: Rule| same_key(y, k));
                    assert(key_class(o0, k) == key_class(at, k) + key_class(bt, k));
                    if same_key(x, k) {
                        assert((key_class(at, k) + key_class(bt, k)).push(x) =~= key_class(at, k)
                            + key_class(bt, k).push(x));
                    }
                }
                bt = bt.push(x);
                assert(b0 =~= bt + sb@.reverse());
            }
            out.push(x);
        }
        proof {
            let x = out@[out@.len() - 1];
            assert(out@ =~= o0.push(x));
            assert forall|i: int, j: int| 0 <= i < j < out@.len() implies key_le(#[trigger] out@[i], #[trigger] out@[j]) by {
                if j == o0.len() {
                    if from_a {
                        assert(key_le(o0[i], s_a[s_a.len() - 1]));
                    } else {
                        assert(key_le(o0[i], s_b[s_b.len() - 1]));
                    }
                }
            }
            assert forall|i: int, j: int| 0 <= i < out@.len() && 0 <= j < sa@.len() implies key_le(#[trigger] out@[i], #[trigger] sa@[j]) by {
                if i == o0.len() {
                    if from_a {
                        assert(sa@[j] == s_a[j]);
                    } else {
                        assert(key_lt(x, sa@[j]));
                    }
                } else {
                    if from_a {
                        assert(sa@[j] == s_a[j]);
                    }
                }
            }
            assert forall|i: int, j: int| 0 <= i < out@.len() && 0 <= j < sb@.len() implies key_le(#[trigger] out@[i], #[trigger] sb@[j]) by {
                if i == o0.len() {
                    if from_a {
                        assert(key_le(x, sb@[j]));
                    } else {
                        assert(sb@[j] == s_b[j]);
                    }
                } else {
                    if !from_a {
                        assert(sb@[j] == s_b[j]);
                    }
                }
            }
        }
    }
    assert(at =~= a0);
    assert(bt =~= b0);
    out
}

/// Sorts rules stably by key (type, action kind, pattern bytes).
pub fn sort_rules(v: Vec<Rule>) -> (r: Vec<Rule>)
    ensures
        stable_sort_of(r@, v@),
    decreases v@.len(),
{
    if v.len() <= 1 {
        return v;
    }
    let ghost whole = v@;
    let mut left = v;
    let mid = left.len() / 2;
    let right = left.split_off(mid);
    assert(whole =~= left@ + right@);
    let sl = sort_rules(left);
    let sr = sort_rules(right);
    let r = merge_rules(sl, sr);
    assert forall|k: Rule| #[trigger] key_class(r@, k) == key_class(whole, k) by {
        assert(key_class(whole, k) == key_class(left@, k) + key_class(right@, k));
    }
    r
}

/// The last rule kept by `dedup_adjacent` duplicates the last rule of `s`.
pub proof fn lemma_dedup_last(s: Seq<Rule>)
    requires
        s.len() > 0,
    ensures
        dedup_adjacent(s).len() > 0,
        same_rule(dedup_adjacent(s).last(), s.last()),
    decreases s.len(),
{
    if s.len() > 1 {
        lemma_dedup_last(s.drop_last());
    }
}

/// Drops every rule that duplicates the rule just before it.
pub fn dedup_rules(v: Vec<Rule>) -> (r: Vec<Rule>)
    ensures
        r@ == dedup_adjacent(v@),
{
    let ghost all = v@;
    let mut stack = crate::order::reverse_vec(v);
    let mut out: Vec<Rule> = Vec::new();
    let ghost mut k: int = 0;
    while stack.len() > 0
        invariant
            0 <= k <= all.len(),
            stack@ == all.subrange(k, all.len() as int).reverse(),
            out@ == dedup_adjacent(all.subrange(0, k)),
        decreases stack.len(),
    {
        let ghost st = stack@;
        let x = stack.pop().unwrap();
        assert(x == all[k]);
        let keep = if out.len() == 0 {
            true
        } else {
            let last = &out[out.len() - 1];
            !(last.rule_type == x.rule_type && actions_equal(&last.action, &x.action)
                && last.pattern.eq(&x.pattern))
        };
        proof {
            let pre = all.subrange(0, k);
            let next = all.subrange(0, k + 1);
            assert(next.drop_last() =~= pre);
            assert(next.last() == x);
            if k > 0 {
                lemma_dedup_last(pre);
                assert(pre.last() == next[next.len() - 2]);
            } else {
                assert(out@.len() == 0);
            }
        }
        if keep {
            out.push(x);
        }
        proof {
            k = k + 1;
            assert(stack@ =~= all.subrange(k, all.len() as int).reverse());
        }
    }
    assert(all.subrange(0, k) =~= all);
    out
}

/// No two block or allow rules of `s` are duplicates. (Rewrite rules with
/// one pattern and different targets sort together in their input order,
/// so equal rewrite rules can stay apart.)
pub open spec fn no_duplicate_filters(s: Seq<Rule>) -> bool {
    forall|i: int, j: int|
        0 <= i < j < s.len() && !(s[i].action is Rewrite) ==> !same_rule(#[trigger] s[i], #[trigger] s[j])
}

/// Every rule kept by `dedup_adjacent` is a rule of `s`.
proof fn lemma_dedup_from(s: Seq<Rule>)
    ensures
        forall|i: int| 0 <= i < dedup_adjacent(s).len() ==> s.contains(#[trigger] dedup_adjacent(s)[i]),
    decreases s.len(),
{
    let d = dedup_adjacent(s);
    if s.len() > 1 {
        let t = s.drop_last();
        let e = dedup_adjacent(t);
        lemma_dedup_from(t);
        assert forall|i: int| 0 <= i < d.len() implies s.contains(#[trigger] d[i]) by {
            if i < e.len() {
                assert(t.contains(e[i]));
                let k = choose|k: int| 0 <= k < t.len() && t[k] == e[i];
                assert(s[k] == d[i]);
            } else {
                assert(d[i] == s[s.len() - 1]);
            }
        }
    } else {
        assert forall|i: int| 0 <= i < d.len() implies s.contains(#[trigger] d[i]) by {
            assert(d[i] == s[i]);
        }
    }
}

/// `dedup_adjacent` keeps a key-sorted sequence sorted, and never keeps two
/// neighbours that duplicate each other.
pub proof fn lemma_dedup_sorted(s: Seq<Rule>)
    requires
        sorted_by_key(s),
    ensures
        sorted_by_key(dedup_adjacent(s)),
        forall|i: int|
            0 <= i < dedup_adjacent(s).len() - 1 ==> !same_rule(
                #[trigger] dedup_adjacent(s)[i],
                dedup_adjacent(s)[i + 1],
            ),
    decreases s.len(),
{
    if s.len() > 1 {
        let t = s.drop_last();
        let d = dedup_adjacent(t);
        assert(sorted_by_key(t)) by {
            assert forall|i: int, j: int| 0 <= i < j < t.len() implies key_le(#[trigger] t[i], #[trigger] t[j]) by {
                assert(t[i] == s[i] && t[j] == s[j]);
            }
        }
        lemma_dedup_sorted(t);
        lemma_dedup_from(t);
        if !same_rule(s[s.len() - 2], s.last()) {
            let e = d.push(s.last());
            assert forall|i: int, j: int| 0 <= i < j < e.len() implies key_le(#[trigger] e[i], #[trigger] e[j]) by {
                if j == d.len() {
                    assert(t.contains(d[i]));
                    let k = choose|k: int| 0 <= k < t.len() && t[k] == d[i];
                    assert(d[i] == s[k]);
                    assert(key_le(s[k], s[s.len() - 1]));
                } else {
                    assert(e[i] == d[i] && e[j] == d[j]);
                }
            }
            lemma_dedup_last(t);
            assert forall|i: int| 0 <= i < e.len() - 1 implies !same_rule(#[trigger] e[i], e[i + 1]) by {
                if i == d.len() - 1 {
                    assert(e[i] == d.last());
                    assert(same_rule(d.last(), t.last()));
                    assert(t.last() == s[s.len() - 2]);
                } else {
                    assert(e[i] == d[i] && e[i + 1] == d[i + 1]);
                }
            }
        }
    }
}

/// Two rules with the same key and a block or allow action are duplicates.
proof fn lemma_same_key_same_rule(a: Rule, b: Rule)
    requires
        same_key(a, b),
        !(a.action is Rewrite),
    ensures
        same_rule(a, b),
{
    crate::suffix::lemma_encode_injective(a.pattern@, b.pattern@);
}

/// A key-sorted sequence with duplicate neighbours dropped holds no two
/// block or allow rules that duplicate each other: equal keys stand
/// together after sorting.
pub proof fn lemma_dedup_distinct(s: Seq<Rule>)
    requires
        sorted_by_key(s),
    ensures
        no_duplicate_filters(dedup_adjacent(s)),
{
    let d = dedup_adjacent(s);
    lemma_dedup_sorted(s);
    assert forall|i: int, j: int|
        0 <= i < j < d.len() && !(d[i].action is Rewrite) implies !same_rule(#[trigger] d[i], #[trigger] d[j]) by {
        if same_rule(d[i], d[j]) {
            assert(same_key(d[i], d[j]));
            let m = d[i + 1];
            assert(key_le(d[i], m));
            if i + 1 < j {
                assert(key_le(m, d[j]));
                if key_lt(d[i], m) {
                    lemma_key_lt_transitive(d[i], m, d[j]);
                    lemma_key_lt_not_same(d[i], d[j]);
                }
            }
            assert(same_key(d[i], m));
            lemma_same_key_same_rule(d[i], m);
            assert(!same_rule(d[i], d[i + 1]));
        }
    }
}

/// A rule of type `b` may stand after one of type `a` in the builder's
/// order: exact names first, then suffixes, keywords, regexes, IPv4 and
/// IPv6 ranges.
pub open spec fn may_follow(a: RuleType, b: RuleType) -> bool {
    match b {
        RuleType::DomainExact => a == RuleType::DomainExact,
        RuleType::DomainSuffix => a == RuleType::DomainExact || a == RuleType::DomainSuffix,
        RuleType::DomainKeyword => a != RuleType::Regex && a != RuleType::IpCidr4 && a != RuleType::IpCidr6,
        RuleType::Regex => a != RuleType::IpCidr4 && a != RuleType::IpCidr6,
        RuleType::IpCidr4 => a != RuleType::IpCidr6,
        RuleType::IpCidr6 => true,
    }
}

/// The builder's order: rules go by type (exact, suffix, keyword, regex,
/// IPv4, IPv6), and within one type allow rules come before block rules,
/// which come before rewrites.
pub proof fn lemma_builder_order(s: Seq<Rule>)
    requires
        sorted_by_key(s),
    ensures
        forall|i: int, j: int|
            0 <= i < j < s.len() ==> may_follow((#[trigger] s[i]).rule_type, (#[trigger] s[j]).rule_type),
        forall|i: int, j: int|
            0 <= i < j < s.len() && (#[trigger] s[i]).rule_type == (#[trigger] s[j]).rule_type ==> {
                &&& s[j].action is Allow ==> s[i].action is Allow
                &&& s[j].action is Block ==> !(s[i].action is Rewrite)
            },
{
    assert forall|i: int, j: int|
        0 <= i < j < s.len() implies may_follow((#[trigger] s[i]).rule_type, (#[trigger] s[j]).rule_type) by {
        assert(key_le(s[i], s[j]));
    }
    assert forall|i: int, j: int|
        0 <= i < j < s.len() && (#[trigger] s[i]).rule_type == (#[trigger] s[j]).rule_type implies {
            &&& s[j].action is Allow ==> s[i].action is Allow
            &&& s[j].action is Block ==> !(s[i].action is Rewrite)
        } by {
        assert(key_le(s[i], s[j]));
    }
}

} // verus!
