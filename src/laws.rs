//! What holds of the substitution engine over all texts and rules.
use vstd::prelude::*;
use crate::codec::is_lower_hex_char;
use crate::pattern::{
    apply_rules, budget, count_matches, expand, matches_at, part_text, replace_from, rule_wf, spend,
    tok_matches, PartSpec, RuleSpec, Tok,
};

verus! {

/// Every character of `t` is a lower-case hexadecimal digit.
pub open spec fn all_hex(t: Seq<u8>) -> bool {
    forall|i: int| 0 <= i < t.len() ==> is_lower_hex_char(#[trigger] t[i])
}

/// The length of a replacement piece, whatever the text it is taken from.
pub open spec fn part_len(p: PartSpec, groups: Seq<(usize, usize)>) -> int {
    match p {
        PartSpec::Text(s) => s.len() as int,
        PartSpec::Group(n) => if 1 <= n <= groups.len() {
            groups[n - 1].1 - groups[n - 1].0
        } else {
            0
        },
    }
}

/// The length of a replacement, whatever the text it is taken from.
pub open spec fn replacement_len(parts: Seq<PartSpec>, groups: Seq<(usize, usize)>) -> int
    decreases parts.len(),
{
    if parts.len() == 0 {
        0
    } else {
        replacement_len(parts.drop_last(), groups) + part_len(parts.last(), groups)
    }
}

/// Every literal piece of the replacement is made of lower-case hexadecimal
/// digits.
pub open spec fn literals_hex(parts: Seq<PartSpec>) -> bool {
    forall|k: int| 0 <= k < parts.len() ==> (#[trigger] parts[k] matches PartSpec::Text(s) ==> all_hex(s))
}

/// A rule that keeps hexadecimal text decodable: well formed, its replacement
/// as long as its pattern, its literals lower-case hexadecimal digits.
pub open spec fn hex_safe(r: RuleSpec) -> bool {
    &&& rule_wf(r)
    &&& replacement_len(r.replacement, r.groups) == r.pattern.len()
    &&& literals_hex(r.replacement)
}

proof fn lemma_expand_shape(r: RuleSpec, parts: Seq<PartSpec>, t: Seq<u8>, i: int)
    requires
        rule_wf(r),
        matches_at(r.pattern, t, i),
        forall|k: int| 0 <= k < parts.len() ==> (#[trigger] parts[k] matches PartSpec::Group(n)
            ==> 1 <= n <= r.groups.len()),
    ensures
        expand(parts, r.groups, t, i).len() == replacement_len(parts, r.groups),
        all_hex(t) && literals_hex(parts) ==> all_hex(expand(parts, r.groups, t, i)),
    decreases parts.len(),
{
    if parts.len() > 0 {
        let init = parts.drop_last();
        assert forall|k: int| 0 <= k < init.len() implies (#[trigger] init[k] matches PartSpec::Group(n)
            ==> 1 <= n <= r.groups.len()) by {
            assert(init[k] == parts[k]);
        }
        lemma_expand_shape(r, init, t, i);
        let last = parts.last();
        assert(parts[parts.len() - 1] == last);
        if let PartSpec::Group(n) = last {
            assert(r.groups[n - 1].0 <= r.groups[n - 1].1 <= r.pattern.len());
        }
        if all_hex(t) && literals_hex(parts) {
            assert(literals_hex(init)) by {
                assert forall|k: int| 0 <= k < init.len() implies (#[trigger] init[k] matches PartSpec::Text(s)
                    ==> all_hex(s)) by {
                    assert(init[k] == parts[k]);
                }
            }
            let e = expand(parts, r.groups, t, i);
            let a = expand(init, r.groups, t, i);
            let b = part_text(last, r.groups, t, i);
            assert(e == a + b);
            assert forall|j: int| 0 <= j < e.len() implies is_lower_hex_char(#[trigger] e[j]) by {
                if j >= a.len() {
                    if let PartSpec::Group(n) = last {
                        assert(b[j - a.len()] == t[i + r.groups[n - 1].0 + j - a.len()]);
                    }
                }
            }
        }
    }
}

/// A hex-safe rule keeps the length of the text, and keeps lower-case
/// hexadecimal text so.
pub proof fn lemma_replace_keeps_hex(r: RuleSpec, t: Seq<u8>, i: int, left: Option<nat>)
    requires
        hex_safe(r),
        0 <= i <= t.len(),
    ensures
        replace_from(r, t, i, left).len() == t.len() - i,
        all_hex(t) ==> all_hex(replace_from(r, t, i, left)),
    decreases t.len() - i,
{
    if i < t.len() && left != Some(0nat) {
        if matches_at(r.pattern, t, i) {
            lemma_expand_shape(r, r.replacement, t, i);
            lemma_replace_keeps_hex(r, t, i + r.pattern.len(), spend(left));
        } else {
            lemma_replace_keeps_hex(r, t, i + 1, left);
        }
    }
}

/// Hex-safe rules, applied in turn, keep the length of the text and keep
/// lower-case hexadecimal text so.
pub proof fn lemma_rules_keep_hex(rules: Seq<RuleSpec>, t: Seq<u8>)
    requires
        forall|k: int| 0 <= k < rules.len() ==> hex_safe(#[trigger] rules[k]),
    ensures
        apply_rules(rules, t).len() == t.len(),
        all_hex(t) ==> all_hex(apply_rules(rules, t)),
    decreases rules.len(),
{
    if rules.len() > 0 {
        let init = rules.drop_last();
        assert forall|k: int| 0 <= k < init.len() implies hex_safe(#[trigger] init[k]) by {
            assert(init[k] == rules[k]);
        }
        lemma_rules_keep_hex(init, t);
        assert(hex_safe(rules[rules.len() - 1]));
        lemma_replace_keeps_hex(rules.last(), apply_rules(init, t), 0, budget(rules.last().limit));
    }
}

/// The pattern matches nowhere in `t`.
pub open spec fn nowhere(pattern: Seq<Tok>, t: Seq<u8>) -> bool {
    forall|i: int| !#[trigger] matches_at(pattern, t, i)
}

proof fn lemma_replace_unmatched(r: RuleSpec, t: Seq<u8>, i: int, left: Option<nat>)
    requires
        nowhere(r.pattern, t),
        0 <= i <= t.len(),
    ensures
        replace_from(r, t, i, left) == t.subrange(i, t.len() as int),
    decreases t.len() - i,
{
    if i < t.len() && left != Some(0nat) {
        assert(!matches_at(r.pattern, t, i));
        lemma_replace_unmatched(r, t, i + 1, left);
        assert(seq![t[i]] + t.subrange(i + 1, t.len() as int) =~= t.subrange(i, t.len() as int));
    } else if i == t.len() {
        assert(t.subrange(i, t.len() as int) =~= Seq::<u8>::empty());
    }
}

/// A text in which no rule's pattern matches any more comes out of the rules
/// unchanged: patching text that is already patched, where the patched regions
/// no longer match, alters nothing.
pub proof fn lemma_rules_leave_unmatched_text(rules: Seq<RuleSpec>, t: Seq<u8>)
    requires
        forall|k: int| 0 <= k < rules.len() ==> nowhere(#[trigger] rules[k].pattern, t),
    ensures
        apply_rules(rules, t) == t,
    decreases rules.len(),
{
    if rules.len() > 0 {
        let init = rules.drop_last();
        assert forall|k: int| 0 <= k < init.len() implies nowhere(#[trigger] init[k].pattern, t) by {
            assert(init[k] == rules[k]);
        }
        lemma_rules_leave_unmatched_text(init, t);
        assert(nowhere(rules[rules.len() - 1].pattern, t));
        lemma_replace_unmatched(rules.last(), t, 0, budget(rules.last().limit));
        assert(t.subrange(0, t.len() as int) =~= t);
    }
}

/// Where scanning from `i` stands after the first `n` matches, or the end of
/// the text when there are fewer.
pub open spec fn scan_end(r: RuleSpec, t: Seq<u8>, i: int, n: nat) -> int
    decreases t.len() - i,
{
    if i < 0 || i >= t.len() {
        t.len() as int
    } else if n == 0 {
        i
    } else if r.pattern.len() > 0 && matches_at(r.pattern, t, i) {
        scan_end(r, t, i + r.pattern.len(), (n - 1) as nat)
    } else {
        scan_end(r, t, i + 1, n)
    }
}

proof fn lemma_scan_end_bounds(r: RuleSpec, t: Seq<u8>, i: int, n: nat)
    requires
        0 <= i <= t.len(),
    ensures
        i <= scan_end(r, t, i, n) <= t.len(),
        n > 0 && i < t.len() ==> i < scan_end(r, t, i, n),
        n > 0 && i < t.len() && r.pattern.len() > 0 && matches_at(r.pattern, t, i) ==> i
            + r.pattern.len() <= scan_end(r, t, i, n),
    decreases t.len() - i,
{
    if i < t.len() && n > 0 {
        if r.pattern.len() > 0 && matches_at(r.pattern, t, i) {
            lemma_scan_end_bounds(r, t, i + r.pattern.len(), (n - 1) as nat);
        } else {
            lemma_scan_end_bounds(r, t, i + 1, n);
        }
    }
}

proof fn lemma_expand_prefix(r: RuleSpec, parts: Seq<PartSpec>, t: Seq<u8>, e: int, i: int)
    requires
        rule_wf(r),
        matches_at(r.pattern, t, i),
        i + r.pattern.len() <= e <= t.len(),
    ensures
        expand(parts, r.groups, t.subrange(0, e), i) == expand(parts, r.groups, t, i),
    decreases parts.len(),
{
    if parts.len() > 0 {
        lemma_expand_prefix(r, parts.drop_last(), t, e, i);
        if let PartSpec::Group(n) = parts.last() {
            if 1 <= n <= r.groups.len() {
                assert(r.groups[n - 1].0 <= r.groups[n - 1].1 <= r.pattern.len());
                assert(t.subrange(0, e).subrange(i + r.groups[n - 1].0, i + r.groups[n - 1].1)
                    =~= t.subrange(i + r.groups[n - 1].0, i + r.groups[n - 1].1));
            }
        }
    }
}

/// With a budget of `n` occurrences, a rule replaces exactly the first `n`
/// matches: the output is the text up to the end of the `n`-th match with
/// every match replaced, followed by the rest of the text untouched. With
/// fewer than `n` matches the whole text is rewritten.
pub proof fn lemma_limit_replaces_first(r: RuleSpec, t: Seq<u8>, i: int, n: nat)
    requires
        rule_wf(r),
        0 <= i <= t.len(),
    ensures
        ({
            let e = scan_end(r, t, i, n);
            replace_from(r, t, i, Some(n)) == replace_from(r, t.subrange(0, e), i, None)
                + t.subrange(e, t.len() as int)
        }),
    decreases t.len() - i,
{
    let e = scan_end(r, t, i, n);
    lemma_scan_end_bounds(r, t, i, n);
    let p = t.subrange(0, e);
    if i >= t.len() {
        assert(t.subrange(e, t.len() as int) =~= Seq::<u8>::empty());
    } else if n == 0 {
        assert(replace_from(r, p, i, None) == Seq::<u8>::empty());
        assert(replace_from(r, t, i, Some(n)) =~= replace_from(r, p, i, None) + t.subrange(
            e,
            t.len() as int,
        ));
    } else if matches_at(r.pattern, t, i) {
        lemma_limit_replaces_first(r, t, i + r.pattern.len(), (n - 1) as nat);
        assert(matches_at(r.pattern, p, i)) by {
            assert forall|j: int| 0 <= j < r.pattern.len() implies tok_matches(
                #[trigger] r.pattern[j],
                p[i + j],
            ) by {
                assert(p[i + j] == t[i + j]);
            }
        }
        lemma_expand_prefix(r, r.replacement, t, e, i);
        assert(replace_from(r, t, i, Some(n)) =~= replace_from(r, p, i, None) + t.subrange(
            e,
            t.len() as int,
        ));
    } else {
        lemma_limit_replaces_first(r, t, i + 1, n);
        assert(!matches_at(r.pattern, p, i)) by {
            if matches_at(r.pattern, p, i) {
                assert forall|j: int| 0 <= j < r.pattern.len() implies tok_matches(
                    #[trigger] r.pattern[j],
                    t[i + j],
                ) by {
                    assert(p[i + j] == t[i + j]);
                }
            }
        }
        assert(p[i] == t[i]);
        assert(replace_from(r, t, i, Some(n)) =~= replace_from(r, p, i, None) + t.subrange(
            e,
            t.len() as int,
        ));
    }
}

/// When a text has at least `n` matches, the part up to the end of the `n`-th
/// match holds exactly `n` matches, and the rest holds all the others.
pub proof fn lemma_limit_split_counts(r: RuleSpec, t: Seq<u8>, i: int, n: nat)
    requires
        rule_wf(r),
        0 <= i <= t.len(),
        n <= count_matches(r, t, i),
    ensures
        ({
            let e = scan_end(r, t, i, n);
            &&& count_matches(r, t.subrange(0, e), i) == n
            &&& count_matches(r, t, i) == n + count_matches(r, t, e)
        }),
    decreases t.len() - i,
{
    let e = scan_end(r, t, i, n);
    lemma_scan_end_bounds(r, t, i, n);
    let p = t.subrange(0, e);
    if i < t.len() && n > 0 {
        if matches_at(r.pattern, t, i) {
            lemma_limit_split_counts(r, t, i + r.pattern.len(), (n - 1) as nat);
            assert(matches_at(r.pattern, p, i)) by {
                assert forall|j: int| 0 <= j < r.pattern.len() implies tok_matches(
                    #[trigger] r.pattern[j],
                    p[i + j],
                ) by {
                    assert(p[i + j] == t[i + j]);
                }
            }
        } else {
            lemma_limit_split_counts(r, t, i + 1, n);
            assert(!matches_at(r.pattern, p, i)) by {
                if matches_at(r.pattern, p, i) {
                    assert forall|j: int| 0 <= j < r.pattern.len() implies tok_matches(
                        #[trigger] r.pattern[j],
                        t[i + j],
                    ) by {
                        assert(p[i + j] == t[i + j]);
                    }
                }
            }
        }
    }
}

/// A budget at least as large as the number of matches replaces them all, as
/// no limit does.
pub proof fn lemma_large_limit_replaces_all(r: RuleSpec, t: Seq<u8>, i: int, n: nat)
    requires
        0 <= i <= t.len(),
        n >= count_matches(r, t, i),
        n > 0,
    ensures
        replace_from(r, t, i, Some(n)) == replace_from(r, t, i, None),
    decreases t.len() - i,
{
    if i < t.len() {
        if r.pattern.len() > 0 && matches_at(r.pattern, t, i) {
            if n > 1 {
                lemma_large_limit_replaces_all(r, t, i + r.pattern.len(), (n - 1) as nat);
            } else {
                lemma_no_more_matches(r, t, i + r.pattern.len());
            }
        } else {
            lemma_large_limit_replaces_all(r, t, i + 1, n);
        }
    }
}

proof fn lemma_no_more_matches(r: RuleSpec, t: Seq<u8>, i: int)
    requires
        count_matches(r, t, i) == 0,
    ensures
        replace_from(r, t, i, Some(0nat)) == replace_from(r, t, i, None),
    decreases t.len() - i,
{
    if 0 <= i < t.len() {
        lemma_no_more_matches(r, t, i + 1);
        if i + 1 < t.len() {
            assert(t.subrange(i, t.len() as int) =~= seq![t[i]] + t.subrange(i + 1, t.len() as int));
        } else {
            assert(t.subrange(i, t.len() as int) =~= seq![t[i]]);
        }
    }
}

/// Capture groups are replayed verbatim: for a rule whose replacement is group
/// 1, a literal, then group 2, a replaced match comes out as the text the first
/// group matched, the literal, and the text the second group matched, in that
/// order, before the rest of the output.
pub proof fn lemma_groups_replayed(r: RuleSpec, t: Seq<u8>, i: int, lit: Seq<u8>, left: Option<nat>)
    requires
        rule_wf(r),
        r.groups.len() == 2,
        r.replacement == seq![PartSpec::Group(1), PartSpec::Text(lit), PartSpec::Group(2)],
        matches_at(r.pattern, t, i),
        left != Some(0nat),
    ensures
        replace_from(r, t, i, left) == t.subrange(i + r.groups[0].0, i + r.groups[0].1) + lit
            + t.subrange(i + r.groups[1].0, i + r.groups[1].1) + replace_from(
            r,
            t,
            i + r.pattern.len(),
            spend(left),
        ),
{
    let parts = r.replacement;
    assert(parts.drop_last() =~= seq![PartSpec::Group(1), PartSpec::Text(lit)]);
    assert(parts.drop_last().drop_last() =~= seq![PartSpec::Group(1)]);
    assert(parts.drop_last().drop_last().drop_last() =~= Seq::<PartSpec>::empty());
    let g1 = t.subrange(i + r.groups[0].0, i + r.groups[0].1);
    let g2 = t.subrange(i + r.groups[1].0, i + r.groups[1].1);
    assert(parts.last() == PartSpec::Group(2));
    assert(parts.drop_last().last() == PartSpec::Text(lit));
    assert(parts.drop_last().drop_last().last() == PartSpec::Group(1));
    assert(expand(parts.drop_last().drop_last().drop_last(), r.groups, t, i) == Seq::<u8>::empty());
    assert(expand(parts.drop_last().drop_last(), r.groups, t, i) =~= g1);
    assert(expand(parts.drop_last(), r.groups, t, i) =~= g1 + lit);
    assert(expand(parts, r.groups, t, i) =~= t.subrange(i + r.groups[0].0, i + r.groups[0].1) + lit
        + t.subrange(i + r.groups[1].0, i + r.groups[1].1));
}

} // verus!
