//! Substitution over hexadecimal text. A pattern is a fixed-length sequence of
//! nibble templates, each a literal character or a wildcard; capture groups are
//! spans of the pattern whose matched text a replacement can replay.
use vstd::prelude::*;

verus! {

/// One position of a pattern.
#[derive(Clone, Copy, Debug, PartialEq, Eq, Structural)]
pub enum Tok {
    /// Exactly this character.
    Lit(u8),
    /// Any single character.
    Any,
}

/// One piece of a replacement.
#[derive(Debug)]
pub enum Part {
    /// Literal text.
    Text(Vec<u8>),
    /// The text matched by the capture group of this number, counted from 1.
    Group(usize),
}

/// What a replacement piece stands for.
pub enum PartSpec {
    Text(Seq<u8>),
    Group(nat),
}

/// A substitution rule: the pattern, its capture groups as `[start, end)` spans
/// of the pattern, the replacement, and the occurrence limit (0 for no limit).
#[derive(Debug)]
pub struct Rule {
    pub pattern: Vec<Tok>,
    pub groups: Vec<(usize, usize)>,
    pub replacement: Vec<Part>,
    pub limit: usize,
}

/// What a rule stands for.
pub struct RuleSpec {
    pub pattern: Seq<Tok>,
    pub groups: Seq<(usize, usize)>,
    pub replacement: Seq<PartSpec>,
    pub limit: nat,
}

impl View for Part {
    type V = PartSpec;

    open spec fn view(&self) -> PartSpec {
        match self {
            Part::Text(t) => PartSpec::Text(t@),
            Part::Group(n) => PartSpec::Group(*n as nat),
        }
    }
}

impl View for Rule {
    type V = RuleSpec;

    open spec fn view(&self) -> RuleSpec {
        RuleSpec {
            pattern: self.pattern@,
            groups: self.groups@,
            replacement: self.replacement@.map_values(|p: Part| p@),
            limit: self.limit as nat,
        }
    }
}

pub open spec fn tok_matches(t: Tok, c: u8) -> bool {
    match t {
        Tok::Lit(x) => x == c,
        Tok::Any => true,
    }
}

/// The pattern matches the text starting at `i`.
pub open spec fn matches_at(pat: Seq<Tok>, t: Seq<u8>, i: int) -> bool {
    0 <= i && i + pat.len() <= t.len() && forall|j: int|
        0 <= j < pat.len() ==> tok_matches(#[trigger] pat[j], t[i + j])
}

/// A well-formed rule: a non-empty pattern, groups that lie inside it, and a
/// replacement that names only groups that exist.
pub open spec fn rule_wf(r: RuleSpec) -> bool {
    &&& r.pattern.len() > 0
    &&& forall|g: int|
        0 <= g < r.groups.len() ==> #[trigger] r.groups[g].0 <= r.groups[g].1 <= r.pattern.len()
    &&& forall|k: int|
        0 <= k < r.replacement.len() ==> (#[trigger] r.replacement[k] matches PartSpec::Group(n)
            ==> 1 <= n <= r.groups.len())
}

/// The text of one replacement piece for a match at `i`.
pub open spec fn part_text(p: PartSpec, groups: Seq<(usize, usize)>, t: Seq<u8>, i: int) -> Seq<u8> {
    match p {
        PartSpec::Text(s) => s,
        PartSpec::Group(n) => if 1 <= n <= groups.len() {
            t.subrange(i + groups[n - 1].0, i + groups[n - 1].1)
        } else {
            Seq::empty()
        },
    }
}

/// The replacement text for a match at `i`.
pub open spec fn expand(parts: Seq<PartSpec>, groups: Seq<(usize, usize)>, t: Seq<u8>, i: int) -> Seq<u8>
    decreases parts.len(),
{
    if parts.len() == 0 {
        Seq::empty()
    } else {
        expand(parts.drop_last(), groups, t, i) + part_text(parts.last(), groups, t, i)
    }
}

/// The occurrence budget of a limit: 0 stands for no limit.
pub open spec fn budget(limit: nat) -> Option<nat> {
    if limit == 0 {
        None
    } else {
        Some(limit)
    }
}

pub open spec fn spend(left: Option<nat>) -> Option<nat> {
    match left {
        Some(n) => Some((n - 1) as nat),
        None => None,
    }
}

/// The rewritten text from `i` on, scanning left to right: a match is replaced
/// while the budget lasts and scanning resumes after it; otherwise the
/// character is kept.
pub open spec fn replace_from(r: RuleSpec, t: Seq<u8>, i: int, left: Option<nat>) -> Seq<u8>
    decreases t.len() - i,
{
    if i < 0 || i >= t.len() {
        Seq::empty()
    } else if left == Some(0nat) {
        t.subrange(i, t.len() as int)
    } else if r.pattern.len() > 0 && matches_at(r.pattern, t, i) {
        expand(r.replacement, r.groups, t, i) + replace_from(
            r,
            t,
            i + r.pattern.len(),
            spend(left),
        )
    } else {
        seq![t[i]] + replace_from(r, t, i + 1, left)
    }
}

/// The number of matches that a scan from `i` to the end replaces.
pub open spec fn count_matches(r: RuleSpec, t: Seq<u8>, i: int) -> nat
    decreases t.len() - i,
{
    if i < 0 || i >= t.len() {
        0
    } else if r.pattern.len() > 0 && matches_at(r.pattern, t, i) {
        1 + count_matches(r, t, i + r.pattern.len())
    } else {
        count_matches(r, t, i + 1)
    }
}

/// The number of matches that one rule replaces: all of them, or as many as its
/// occurrence limit allows.
pub open spec fn replaced_count(r: RuleSpec, t: Seq<u8>) -> nat {
    let k = count_matches(r, t, 0);
    if r.limit == 0 || k <= r.limit {
        k
    } else {
        r.limit
    }
}

/// The text after one rule.
pub open spec fn apply_rule(r: RuleSpec, t: Seq<u8>) -> Seq<u8> {
    replace_from(r, t, 0, budget(r.limit))
}

/// The text after each rule in turn, each on the output of the one before.
pub open spec fn apply_rules(rules: Seq<RuleSpec>, t: Seq<u8>) -> Seq<u8>
    decreases rules.len(),
{
    if rules.len() == 0 {
        t
    } else {
        apply_rule(rules.last(), apply_rules(rules.drop_last(), t))
    }
}

impl Rule {
    pub open spec fn wf(&self) -> bool {
        rule_wf(self@)
    }
}

/// Whether `pattern` matches `text` at `i`.
pub fn match_at(pattern: &Vec<Tok>, text: &[u8], i: usize) -> (r: bool)
    ensures
        r == matches_at(pattern@, text@, i as int),
{
    if i > text.len() || pattern.len() > text.len() - i {
        return false;
    }
    let tl = text.len();
    let mut j: usize = 0;
    while j < pattern.len()
        invariant
            tl == text@.len(),
            i + pattern@.len() <= text@.len(),
            0 <= j <= pattern@.len(),
            forall|k: int| 0 <= k < j ==> tok_matches(#[trigger] pattern@[k], text@[i + k]),
        decreases pattern@.len() - j,
    {
        let ok = match pattern[j] {
            Tok::Lit(x) => x == text[i + j],
            Tok::Any => true,
        };
        if !ok {
            return false;
        }
        j = j + 1;
    }
    true
}

/// Appends the replacement for a match of `rule` at `i` to `out`.
fn push_expansion(rule: &Rule, text: &[u8], i: usize, out: &mut Vec<u8>)
    requires
        rule.wf(),
        matches_at(rule.pattern@, text@, i as int),
    ensures
        final(out)@ == old(out)@ + expand(rule@.replacement, rule@.groups, text@, i as int),
{
    let ghost start = old(out)@;
    let tl = text.len();
    let mut k: usize = 0;
    while k < rule.replacement.len()
        invariant
            tl == text@.len(),
            rule.wf(),
            matches_at(rule.pattern@, text@, i as int),
            0 <= k <= rule.replacement@.len(),
            out@ == start + expand(rule@.replacement.take(k as int), rule@.groups, text@, i as int),
        decreases rule.replacement@.len() - k,
    {
        let ghost parts = rule@.replacement;
        assert(parts.take(k + 1).drop_last() == parts.take(k as int));
        assert(parts[k as int] == rule.replacement@[k as int]@);
        match &rule.replacement[k] {
            Part::Text(s) => {
                out.extend_from_slice(s.as_slice());
            },
            Part::Group(n) => {
                let n = *n;
                assert(parts[k as int] matches PartSpec::Group(m) && 1 <= m <= rule@.groups.len());
                let (a, b) = rule.groups[n - 1];
                assert(rule@.groups[n - 1].0 <= rule@.groups[n - 1].1 <= rule@.pattern.len());
                out.extend_from_slice(vstd::slice::slice_subrange(text, i + a, i + b));
            },
        }
        k = k + 1;
        assert(out@ =~= start + expand(parts.take(k as int), rule@.groups, text@, i as int));
    }
    assert(rule@.replacement.take(k as int) == rule@.replacement);
}

/// Applies one rule to `text`: replaces its matches, left to right, up to the
/// rule's occurrence limit (all of them when the limit is 0).
pub fn replace_matches(rule: &Rule, text: &[u8]) -> (r: Vec<u8>)
    requires
        rule.wf(),
    ensures
        r@ == apply_rule(rule@, text@),
{
    let mut out: Vec<u8> = Vec::new();
    let unlimited = rule.limit == 0;
    let mut left: usize = rule.limit;
    let mut i: usize = 0;
    let n = text.len();
    while i < n
        invariant
            rule.wf(),
            n == text@.len(),
            0 <= i <= n,
            unlimited == (rule.limit == 0),
            out@ + replace_from(rule@, text@, i as int, if unlimited { None } else { Some(left as nat) })
                == apply_rule(rule@, text@),
        decreases n - i,
    {
        let ghost budget_now: Option<nat> = if unlimited { None } else { Some(left as nat) };
        if !unlimited && left == 0 {
            let ghost before = out@;
            out.extend_from_slice(vstd::slice::slice_subrange(text, i, n));
            assert(replace_from(rule@, text@, n as int, Some(0nat)) == Seq::<u8>::empty());
            assert(out@ + replace_from(rule@, text@, n as int, Some(0nat)) =~= before + replace_from(
                rule@,
                text@,
                i as int,
                budget_now,
            ));
            i = n;
        } else if match_at(&rule.pattern, text, i) {
            let ghost before = out@;
            push_expansion(rule, text, i, &mut out);
            i = i + rule.pattern.len();
            if !unlimited {
                left = left - 1;
            }
            assert(out@ + replace_from(rule@, text@, i as int, if unlimited { None } else { Some(left as nat) })
                =~= before + replace_from(rule@, text@, (i - rule@.pattern.len()) as int, budget_now));
        } else {
            let ghost before = out@;
            out.push(text[i]);
            i = i + 1;
            assert(out@ + replace_from(rule@, text@, i as int, budget_now)
                =~= before + replace_from(rule@, text@, (i - 1) as int, budget_now));
        }
    }
    assert(out@ =~= out@ + replace_from(rule@, text@, i as int, if unlimited { None } else { Some(left as nat) }));
    out
}

/// Applies each rule in turn, each on the output of the one before.
pub fn apply_all(rules: &Vec<Rule>, text: Vec<u8>) -> (r: Vec<u8>)
    requires
        forall|k: int| 0 <= k < rules@.len() ==> (#[trigger] rules@[k]).wf(),
    ensures
        r@ == apply_rules(rules@.map_values(|r: Rule| r@), text@),
{
    let ghost specs = rules@.map_values(|r: Rule| r@);
    let mut buf = text;
    let mut k: usize = 0;
    while k < rules.len()
        invariant
            forall|k: int| 0 <= k < rules@.len() ==> (#[trigger] rules@[k]).wf(),
            specs == rules@.map_values(|r: Rule| r@),
            0 <= k <= rules@.len(),
            buf@ == apply_rules(specs.take(k as int), text@),
        decreases rules@.len() - k,
    {
        assert(specs.take(k + 1).drop_last() == specs.take(k as int));
        buf = replace_matches(&rules[k], buf.as_slice());
        k = k + 1;
    }
    assert(specs.take(k as int) == specs);
    buf
}

/// How many matches `rule` replaces in `text`.
pub fn replaced_matches(rule: &Rule, text: &[u8]) -> (r: usize)
    requires
        rule.wf(),
    ensures
        r == replaced_count(rule@, text@),
{
    let n = text.len();
    let mut found: usize = 0;
    let mut i: usize = 0;
    while i < n
        invariant
            rule.wf(),
            n == text@.len(),
            0 <= found <= i <= n,
            found + count_matches(rule@, text@, i as int) == count_matches(rule@, text@, 0),
        decreases n - i,
    {
        if match_at(&rule.pattern, text, i) {
            found = found + 1;
            i = i + rule.pattern.len();
        } else {
            i = i + 1;
        }
    }
    if rule.limit == 0 || found <= rule.limit {
        found
    } else {
        rule.limit
    }
}

} // verus!
