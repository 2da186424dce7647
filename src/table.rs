//! The rules of each architecture family, and patching a module image with
//! them.
use vstd::prelude::*;
use crate::codec::{
    decode_hex, encode_hex, hex_text, is_hex_char, is_hex_text, is_lower_hex_char, lemma_hex_digit,
    lemma_hex_round_trip, lemma_lower_hex_round_trip, unhex,
};
use crate::header::{family_name, Architecture};
use crate::laws::{
    all_hex, hex_safe, lemma_rules_keep_hex, lemma_rules_leave_unmatched_text, literals_hex, nowhere,
    replacement_len,
};
use crate::pattern::{
    apply_all, apply_rules, replace_matches, replaced_count, replaced_matches, rule_wf, Part, PartSpec, Rule,
    RuleSpec, Tok,
};

verus! {

/// Why a module image could not be patched.
#[derive(Debug)]
pub enum PatchError {
    /// No rules are kept under this architecture name.
    UnsupportedArchitecture(String),
    /// The patched text did not decode: the rules broke byte alignment.
    CorruptPatchTable,
}

/// Pattern positions that match the hexadecimal text of `b` exactly.
pub open spec fn lit_toks(b: Seq<u8>) -> Seq<Tok> {
    hex_text(b).map_values(|c: u8| Tok::Lit(c))
}

/// `n` wildcard positions.
pub open spec fn any_toks(n: nat) -> Seq<Tok> {
    Seq::new(n, |i: int| Tok::Any)
}

/// The shape of every rule in the table: a pattern `(left) middle (right)`
/// whose middle is replaced by the hexadecimal text of `new_middle` while both
/// captured flanks are replayed.
pub open spec fn flanked(left: Seq<Tok>, middle: Seq<Tok>, right: Seq<Tok>, new_middle: Seq<u8>, limit: nat) -> RuleSpec {
    RuleSpec {
        pattern: left + middle + right,
        groups: seq![
            (0usize, left.len() as usize),
            ((left.len() + middle.len()) as usize, (left.len() + middle.len() + right.len()) as usize),
        ],
        replacement: seq![PartSpec::Group(1), PartSpec::Text(hex_text(new_middle)), PartSpec::Group(2)],
        limit,
    }
}

/// The rules of each family, in the order they are applied.
pub open spec fn patch_table(a: Architecture) -> Seq<RuleSpec> {
    match a {
        Architecture::Amd64 => seq![
            flanked(
                lit_toks(seq![0x39u8, 0x9e, 0xc8, 0x00, 0x00, 0x00]),
                lit_toks(seq![0x0fu8, 0x95, 0xc1]),
                lit_toks(seq![0x88u8, 0x0f, 0x8b]),
                seq![0xb1u8, 0x00, 0x90],
                0,
            ),
            flanked(
                lit_toks(seq![0xffu8, 0xeb, 0x05]),
                lit_toks(seq![0x8au8, 0x49, 0x61]),
                lit_toks(seq![0x88u8, 0x0a, 0x8b, 0xcb, 0xe8]),
                seq![0xb1u8, 0x00, 0x90],
                0,
            ),
        ],
        Architecture::I386 => seq![
            flanked(
                lit_toks(seq![0xffu8, 0xeb, 0x08, 0x39, 0x77, 0x74]),
                lit_toks(seq![0x0fu8, 0x95, 0xc1]),
                lit_toks(seq![0x88u8, 0x08, 0x8b]),
                seq![0xb1u8, 0x00, 0x90],
                0,
            ),
            flanked(
                lit_toks(seq![0xffu8, 0xeb, 0x08, 0x8b, 0x4d, 0x08]),
                lit_toks(seq![0x8au8, 0x49, 0x31]),
                lit_toks(seq![0x88u8, 0x08, 0x8b]),
                seq![0xb1u8, 0x00, 0x90],
                0,
            ),
        ],
        Architecture::Arm => seq![
            flanked(
                lit_toks(seq![0x05u8, 0xe0]) + any_toks(2) + seq![Tok::Lit(0x33)] + any_toks(2)
                    + lit_toks(seq![0x0bu8]),
                lit_toks(seq![0xb1u8, 0x01]),
                lit_toks(seq![0x23u8, 0x00, 0xe0, 0x00, 0x23, 0x2b, 0x70, 0x20, 0x46]),
                seq![0xb1u8, 0x00],
                0,
            ),
            flanked(
                lit_toks(seq![0x02u8, 0xe0]),
                lit_toks(seq![0x90u8, 0xf8]) + any_toks(2) + lit_toks(seq![0x30u8]),
                lit_toks(seq![0x0bu8, 0x70, 0x20, 0x46]),
                seq![0x4fu8, 0xf0, 0x00, 0x03],
                0,
            ),
        ],
        Architecture::Arm64 => seq![
            flanked(
                lit_toks(seq![0xfeu8, 0x97, 0x05, 0x00, 0x00, 0x14, 0xa8]) + any_toks(2) + seq![
                    Tok::Lit(0x61),
                ] + lit_toks(seq![0x40u8, 0xb9, 0x1f, 0x01, 0x00, 0x71]),
                lit_toks(seq![0xe9u8, 0x07, 0x9f, 0x1a]),
                lit_toks(seq![0x89u8, 0x02, 0x00, 0x39, 0xe0, 0x03, 0x13, 0x2a]),
                seq![0x09u8, 0x00, 0x80, 0x52],
                0,
            ),
            flanked(
                lit_toks(seq![0xfcu8, 0x97, 0x03, 0x00, 0x00, 0x14, 0x08]),
                any_toks(2) + lit_toks(seq![0x41u8, 0x39]),
                lit_toks(seq![0x28u8, 0x00, 0x00, 0x39, 0xe0, 0x03, 0x13, 0x2a]),
                seq![0x00u8, 0x80, 0x52],
                1,
            ),
        ],
    }
}

/// What patching an image of family `a` gives.
pub open spec fn patched(a: Architecture, image: Seq<u8>) -> Seq<u8> {
    unhex(apply_rules(patch_table(a), hex_text(image)))
}

proof fn lemma_flanked_hex_safe(left: Seq<Tok>, middle: Seq<Tok>, right: Seq<Tok>, new_middle: Seq<u8>, limit: nat)
    requires
        left.len() > 0,
        middle.len() == 2 * new_middle.len(),
        left.len() + middle.len() + right.len() <= usize::MAX,
    ensures
        hex_safe(flanked(left, middle, right, new_middle, limit)),
{
    let r = flanked(left, middle, right, new_middle, limit);
    let parts = r.replacement;
    assert(parts.drop_last() =~= seq![PartSpec::Group(1), PartSpec::Text(hex_text(new_middle))]);
    assert(parts.drop_last().drop_last() =~= seq![PartSpec::Group(1)]);
    assert(parts.drop_last().drop_last().drop_last() =~= Seq::<PartSpec>::empty());
    assert(parts.last() == PartSpec::Group(2));
    assert(parts.drop_last().last() == PartSpec::Text(hex_text(new_middle)));
    assert(parts.drop_last().drop_last().last() == PartSpec::Group(1));
    assert(replacement_len(parts.drop_last().drop_last().drop_last(), r.groups) == 0);
    assert(r.groups[0] == (0usize, left.len() as usize));
    assert(replacement_len(parts.drop_last().drop_last(), r.groups) == left.len());
    assert(replacement_len(parts.drop_last(), r.groups) == left.len() + middle.len());
    let h = hex_text(new_middle);
    assert(all_hex(h)) by {
        assert forall|i: int| 0 <= i < h.len() implies crate::codec::is_lower_hex_char(#[trigger] h[i]) by {
            lemma_hex_digit(new_middle[i / 2] / 16);
            lemma_hex_digit(new_middle[i / 2] % 16);
        }
    }
    assert(literals_hex(parts));
    assert(rule_wf(r));
}

/// Every rule of the table keeps hexadecimal text decodable.
pub proof fn lemma_table_hex_safe(a: Architecture)
    ensures
        forall|k: int| 0 <= k < patch_table(a).len() ==> hex_safe(#[trigger] patch_table(a)[k]),
{
    match a {
        Architecture::Amd64 => {
            lemma_flanked_hex_safe(
                lit_toks(seq![0x39u8, 0x9e, 0xc8, 0x00, 0x00, 0x00]),
                lit_toks(seq![0x0fu8, 0x95, 0xc1]),
                lit_toks(seq![0x88u8, 0x0f, 0x8b]),
                seq![0xb1u8, 0x00, 0x90],
                0,
            );
            lemma_flanked_hex_safe(
                lit_toks(seq![0xffu8, 0xeb, 0x05]),
                lit_toks(seq![0x8au8, 0x49, 0x61]),
                lit_toks(seq![0x88u8, 0x0a, 0x8b, 0xcb, 0xe8]),
                seq![0xb1u8, 0x00, 0x90],
                0,
            );
        },
        Architecture::I386 => {
            lemma_flanked_hex_safe(
                lit_toks(seq![0xffu8, 0xeb, 0x08, 0x39, 0x77, 0x74]),
                lit_toks(seq![0x0fu8, 0x95, 0xc1]),
                lit_toks(seq![0x88u8, 0x08, 0x8b]),
                seq![0xb1u8, 0x00, 0x90],
                0,
            );
            lemma_flanked_hex_safe(
                lit_toks(seq![0xffu8, 0xeb, 0x08, 0x8b, 0x4d, 0x08]),
                lit_toks(seq![0x8au8, 0x49, 0x31]),
                lit_toks(seq![0x88u8, 0x08, 0x8b]),
                seq![0xb1u8, 0x00, 0x90],
                0,
            );
        },
        Architecture::Arm => {
            lemma_flanked_hex_safe(
                lit_toks(seq![0x05u8, 0xe0]) + any_toks(2) + seq![Tok::Lit(0x33)] + any_toks(2)
                    + lit_toks(seq![0x0bu8]),
                lit_toks(seq![0xb1u8, 0x01]),
                lit_toks(seq![0x23u8, 0x00, 0xe0, 0x00, 0x23, 0x2b, 0x70, 0x20, 0x46]),
                seq![0xb1u8, 0x00],
                0,
            );
            lemma_flanked_hex_safe(
                lit_toks(seq![0x02u8, 0xe0]),
                lit_toks(seq![0x90u8, 0xf8]) + any_toks(2) + lit_toks(seq![0x30u8]),
                lit_toks(seq![0x0bu8, 0x70, 0x20, 0x46]),
                seq![0x4fu8, 0xf0, 0x00, 0x03],
                0,
            );
        },
        Architecture::Arm64 => {
            lemma_flanked_hex_safe(
                lit_toks(seq![0xfeu8, 0x97, 0x05, 0x00, 0x00, 0x14, 0xa8]) + any_toks(2) + seq![
                    Tok::Lit(0x61),
                ] + lit_toks(seq![0x40u8, 0xb9, 0x1f, 0x01, 0x00, 0x71]),
                lit_toks(seq![0xe9u8, 0x07, 0x9f, 0x1a]),
                lit_toks(seq![0x89u8, 0x02, 0x00, 0x39, 0xe0, 0x03, 0x13, 0x2a]),
                seq![0x09u8, 0x00, 0x80, 0x52],
                0,
            );
            lemma_flanked_hex_safe(
                lit_toks(seq![0xfcu8, 0x97, 0x03, 0x00, 0x00, 0x14, 0x08]),
                any_toks(2) + lit_toks(seq![0x41u8, 0x39]),
                lit_toks(seq![0x28u8, 0x00, 0x00, 0x39, 0xe0, 0x03, 0x13, 0x2a]),
                seq![0x00u8, 0x80, 0x52],
                1,
            );
        },
    }
}

/// Appends positions that match the hexadecimal text of `bytes` exactly.
fn push_lits(toks: &mut Vec<Tok>, bytes: Vec<u8>)
    ensures
        final(toks)@ == old(toks)@ + lit_toks(bytes@),
{
    let text = encode_hex(bytes.as_slice());
    let ghost start = old(toks)@;
    let mut k: usize = 0;
    while k < text.len()
        invariant
            text@ == hex_text(bytes@),
            0 <= k <= text@.len(),
            toks@ == start + lit_toks(bytes@).take(k as int),
        decreases text@.len() - k,
    {
        toks.push(Tok::Lit(text[k]));
        k = k + 1;
        assert(toks@ =~= start + lit_toks(bytes@).take(k as int));
    }
    assert(lit_toks(bytes@).take(k as int) =~= lit_toks(bytes@));
}

/// Appends `n` wildcard positions.
fn push_any(toks: &mut Vec<Tok>, n: usize)
    ensures
        final(toks)@ == old(toks)@ + any_toks(n as nat),
{
    let ghost start = old(toks)@;
    let mut k: usize = 0;
    while k < n
        invariant
            0 <= k <= n,
            toks@ == start + any_toks(k as nat),
        decreases n - k,
    {
        toks.push(Tok::Any);
        k = k + 1;
        assert(toks@ =~= start + any_toks(k as nat));
    }
}

/// Positions that match the hexadecimal text of `bytes` exactly.
fn lits(bytes: Vec<u8>) -> (r: Vec<Tok>)
    ensures
        r@ == lit_toks(bytes@),
{
    let mut toks: Vec<Tok> = Vec::new();
    push_lits(&mut toks, bytes);
    assert(toks@ =~= lit_toks(bytes@));
    toks
}

/// The rule `(left) middle (right)` that writes the hexadecimal text of
/// `new_middle` in place of the middle.
fn flanked_rule(left: Vec<Tok>, middle: Vec<Tok>, right: Vec<Tok>, new_middle: Vec<u8>, limit: usize) -> (r: Rule)
    requires
        left@.len() + middle@.len() + right@.len() <= usize::MAX,
    ensures
        r@ == flanked(left@, middle@, right@, new_middle@, limit as nat),
{
    let ll = left.len();
    let ml = middle.len();
    let rl = right.len();
    let ghost (l0, m0, r0) = (left@, middle@, right@);
    let mut pattern = left;
    let mut middle = middle;
    let mut right = right;
    pattern.append(&mut middle);
    pattern.append(&mut right);
    let groups = vec![(0usize, ll), (ll + ml, ll + ml + rl)];
    let replacement = vec![Part::Group(1), Part::Text(encode_hex(new_middle.as_slice())), Part::Group(2)];
    let r = Rule { pattern, groups, replacement, limit };
    let ghost spec = flanked(l0, m0, r0, new_middle@, limit as nat);
    assert(r@.pattern =~= spec.pattern);
    assert(r@.groups =~= spec.groups);
    assert(r@.replacement =~= spec.replacement);
    r
}

/// The rules kept for family `a`, in the order they are applied.
pub fn patch_rules(a: Architecture) -> (r: Vec<Rule>)
    ensures
        r@.map_values(|x: Rule| x@) == patch_table(a),
        forall|k: int| 0 <= k < r@.len() ==> (#[trigger] r@[k]).wf(),
{
    let (first, second) = match a {
        Architecture::Amd64 => (
            flanked_rule(
                lits(vec![0x39u8, 0x9e, 0xc8, 0x00, 0x00, 0x00]),
                lits(vec![0x0fu8, 0x95, 0xc1]),
                lits(vec![0x88u8, 0x0f, 0x8b]),
                vec![0xb1u8, 0x00, 0x90],
                0,
            ),
            flanked_rule(
                lits(vec![0xffu8, 0xeb, 0x05]),
                lits(vec![0x8au8, 0x49, 0x61]),
                lits(vec![0x88u8, 0x0a, 0x8b, 0xcb, 0xe8]),
                vec![0xb1u8, 0x00, 0x90],
                0,
            ),
        ),
        Architecture::I386 => (
            flanked_rule(
                lits(vec![0xffu8, 0xeb, 0x08, 0x39, 0x77, 0x74]),
                lits(vec![0x0fu8, 0x95, 0xc1]),
                lits(vec![0x88u8, 0x08, 0x8b]),
                vec![0xb1u8, 0x00, 0x90],
                0,
            ),
            flanked_rule(
                lits(vec![0xffu8, 0xeb, 0x08, 0x8b, 0x4d, 0x08]),
                lits(vec![0x8au8, 0x49, 0x31]),
                lits(vec![0x88u8, 0x08, 0x8b]),
                vec![0xb1u8, 0x00, 0x90],
                0,
            ),
        ),
        Architecture::Arm => {
            let mut left1 = lits(vec![0x05u8, 0xe0]);
            push_any(&mut left1, 2);
            left1.push(Tok::Lit(0x33));
            push_any(&mut left1, 2);
            push_lits(&mut left1, vec![0x0bu8]);
            let mut middle2 = lits(vec![0x90u8, 0xf8]);
            push_any(&mut middle2, 2);
            push_lits(&mut middle2, vec![0x30u8]);
            assert(left1@ =~= lit_toks(seq![0x05u8, 0xe0]) + any_toks(2) + seq![Tok::Lit(0x33)] + any_toks(2)
                + lit_toks(seq![0x0bu8]));
            assert(middle2@ =~= lit_toks(seq![0x90u8, 0xf8]) + any_toks(2) + lit_toks(seq![0x30u8]));
            (
                flanked_rule(
                    left1,
                    lits(vec![0xb1u8, 0x01]),
                    lits(vec![0x23u8, 0x00, 0xe0, 0x00, 0x23, 0x2b, 0x70, 0x20, 0x46]),
                    vec![0xb1u8, 0x00],
                    0,
                ),
                flanked_rule(
                    lits(vec![0x02u8, 0xe0]),
                    middle2,
                    lits(vec![0x0bu8, 0x70, 0x20, 0x46]),
                    vec![0x4fu8, 0xf0, 0x00, 0x03],
                    0,
                ),
            )
        },
        Architecture::Arm64 => {
            let mut left1 = lits(vec![0xfeu8, 0x97, 0x05, 0x00, 0x00, 0x14, 0xa8]);
            push_any(&mut left1, 2);
            left1.push(Tok::Lit(0x61));
            push_lits(&mut left1, vec![0x40u8, 0xb9, 0x1f, 0x01, 0x00, 0x71]);
            let mut middle2: Vec<Tok> = Vec::new();
            push_any(&mut middle2, 2);
            push_lits(&mut middle2, vec![0x41u8, 0x39]);
            assert(left1@ =~= lit_toks(seq![0xfeu8, 0x97, 0x05, 0x00, 0x00, 0x14, 0xa8]) + any_toks(2) + seq![
                Tok::Lit(0x61),
            ] + lit_toks(seq![0x40u8, 0xb9, 0x1f, 0x01, 0x00, 0x71]));
            assert(middle2@ =~= any_toks(2) + lit_toks(seq![0x41u8, 0x39]));
            (
                flanked_rule(
                    left1,
                    lits(vec![0xe9u8, 0x07, 0x9f, 0x1a]),
                    lits(vec![0x89u8, 0x02, 0x00, 0x39, 0xe0, 0x03, 0x13, 0x2a]),
                    vec![0x09u8, 0x00, 0x80, 0x52],
                    0,
                ),
                flanked_rule(
                    lits(vec![0xfcu8, 0x97, 0x03, 0x00, 0x00, 0x14, 0x08]),
                    middle2,
                    lits(vec![0x28u8, 0x00, 0x00, 0x39, 0xe0, 0x03, 0x13, 0x2a]),
                    vec![0x00u8, 0x80, 0x52],
                    1,
                ),
            )
        },
    };
    let rules = vec![first, second];
    proof {
        lemma_table_hex_safe(a);
        assert(rules@.map_values(|x: Rule| x@)[0] == patch_table(a)[0]);
        assert(rules@.map_values(|x: Rule| x@)[1] == patch_table(a)[1]);
        assert(rules@.map_values(|x: Rule| x@) =~= patch_table(a));
        assert forall|k: int| 0 <= k < rules@.len() implies (#[trigger] rules@[k]).wf() by {
            assert(rules@.map_values(|x: Rule| x@)[k] == rules@[k]@);
        }
    }
    rules
}

/// The text after the table's rules has the length of the image's text and is
/// lower-case hexadecimal.
proof fn lemma_text_keeps_hex(a: Architecture, image: Seq<u8>)
    ensures
        apply_rules(patch_table(a), hex_text(image)).len() == 2 * image.len(),
        all_hex(apply_rules(patch_table(a), hex_text(image))),
        is_hex_text(apply_rules(patch_table(a), hex_text(image))),
{
    let t = hex_text(image);
    lemma_table_hex_safe(a);
    lemma_hex_round_trip(image);
    assert(all_hex(t)) by {
        assert forall|i: int| 0 <= i < t.len() implies is_lower_hex_char(#[trigger] t[i]) by {
            lemma_hex_digit(image[i / 2] / 16);
            lemma_hex_digit(image[i / 2] % 16);
        }
    }
    lemma_rules_keep_hex(patch_table(a), t);
    let out = apply_rules(patch_table(a), t);
    assert forall|i: int| 0 <= i < out.len() implies is_hex_char(#[trigger] out[i]) by {
        assert(is_lower_hex_char(out[i]));
    }
}

/// Patching an image that is already patched changes nothing more, as long as
/// no pattern of the family matches the patched image's text any longer.
pub proof fn lemma_patch_again_unchanged(a: Architecture, image: Seq<u8>)
    requires
        forall|k: int|
            0 <= k < patch_table(a).len() ==> nowhere(
                #[trigger] patch_table(a)[k].pattern,
                hex_text(patched(a, image)),
            ),
    ensures
        patched(a, patched(a, image)) == patched(a, image),
{
    let out = apply_rules(patch_table(a), hex_text(image));
    lemma_text_keeps_hex(a, image);
    lemma_lower_hex_round_trip(out);
    lemma_rules_leave_unmatched_text(patch_table(a), out);
}

/// Patches an image of family `arch`: its hexadecimal text goes through the
/// family's rules in order, and the result is decoded back to bytes. The
/// result always has the image's length.
pub fn apply_patch(arch: Architecture, image: &[u8]) -> (r: Result<Vec<u8>, PatchError>)
    ensures
        r matches Ok(v) && v@ == patched(arch, image@) && v@.len() == image@.len(),
{
    let rules = patch_rules(arch);
    let text = encode_hex(image);
    let out = apply_all(&rules, text);
    proof {
        lemma_text_keeps_hex(arch, image@);
    }
    match decode_hex(out.as_slice()) {
        Ok(v) => Ok(v),
        Err(_) => Err(PatchError::CorruptPatchTable),
    }
}

/// Patches a module image with the rules kept under the architecture name
/// `architecture`; a name without rules is refused.
pub fn patch_module(architecture: &str, dll_data: &[u8]) -> (r: Result<Vec<u8>, PatchError>)
    ensures
        forall|a: Architecture| family_name(a) == architecture@ ==> (r matches Ok(v) && v@ == patched(a, dll_data@)),
        (forall|a: Architecture| family_name(a) != architecture@) ==> (r matches Err(
            PatchError::UnsupportedArchitecture(s),
        ) && s@ == architecture@),
{
    match Architecture::from_name(architecture) {
        Some(a) => {
            proof { lemma_names_distinct(); }
            apply_patch(a, dll_data)
        },
        None => Err(PatchError::UnsupportedArchitecture(architecture.to_owned())),
    }
}

/// No two families share a name.
pub proof fn lemma_names_distinct()
    ensures
        forall|a: Architecture, b: Architecture| family_name(a) == family_name(b) ==> a == b,
{
    assert forall|a: Architecture, b: Architecture| family_name(a) == family_name(b) implies a == b by {
        if a != b {
            let (x, y) = (family_name(a), family_name(b));
            if x.len() == y.len() {
                assert(x[0] != y[0] || x[1] != y[1] || x[3] != y[3]);
            }
        }
    }
}

/// How many matches each rule of family `arch` replaces when `image` is
/// patched, in the order the rules are applied. A rule that replaced nothing
/// reads 0: a caller may treat that as a failed patch.
pub fn rule_match_counts(arch: Architecture, image: &[u8]) -> (r: Vec<usize>)
    ensures
        r@.len() == patch_table(arch).len(),
        forall|k: int|
            0 <= k < r@.len() ==> #[trigger] r@[k] == replaced_count(
                patch_table(arch)[k],
                apply_rules(patch_table(arch).take(k), hex_text(image@)),
            ),
{
    let rules = patch_rules(arch);
    let ghost specs = rules@.map_values(|x: Rule| x@);
    let mut buf = encode_hex(image);
    let mut counts: Vec<usize> = Vec::new();
    let mut k: usize = 0;
    while k < rules.len()
        invariant
            forall|j: int| 0 <= j < rules@.len() ==> (#[trigger] rules@[j]).wf(),
            specs == rules@.map_values(|x: Rule| x@),
            specs == patch_table(arch),
            0 <= k <= rules@.len(),
            buf@ == apply_rules(specs.take(k as int), hex_text(image@)),
            counts@.len() == k,
            forall|j: int|
                0 <= j < k ==> #[trigger] counts@[j] == replaced_count(
                    specs[j],
                    apply_rules(specs.take(j), hex_text(image@)),
                ),
        decreases rules@.len() - k,
    {
        assert(specs.take(k + 1).drop_last() == specs.take(k as int));
        counts.push(replaced_matches(&rules[k], buf.as_slice()));
        buf = replace_matches(&rules[k], buf.as_slice());
        k = k + 1;
    }
    counts
}

} // verus!
