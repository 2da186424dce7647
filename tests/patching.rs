use mcpatch::header::{check_machine, Architecture, ClassificationError};
use mcpatch::pattern::{replace_matches, replaced_matches, Part, Rule, Tok};
use mcpatch::table::{apply_patch, patch_module, patch_rules, rule_match_counts, PatchError};

fn header_with_machine(code: u16) -> Vec<u8> {
    let mut image = vec![0u8; 0x40];
    image[0x3c] = 0x40;
    image.extend_from_slice(b"PE\0\0");
    image.extend_from_slice(&code.to_le_bytes());
    image
}

fn lits(text: &str) -> Vec<Tok> {
    text.bytes().map(Tok::Lit).collect()
}

fn bytes_of(hex_text: &str) -> Vec<u8> {
    hex::decode(hex_text.replace(' ', "")).unwrap()
}

#[test]
fn classifies_amd64() {
    assert_eq!(check_machine(&header_with_machine(0x8664)), Ok(Architecture::Amd64));
}

#[test]
fn classifies_i386() {
    assert_eq!(check_machine(&header_with_machine(0x14c)), Ok(Architecture::I386));
}

#[test]
fn classifies_both_arm_codes() {
    assert_eq!(check_machine(&header_with_machine(0x1c0)), Ok(Architecture::Arm));
    assert_eq!(check_machine(&header_with_machine(0x1c4)), Ok(Architecture::Arm));
}

#[test]
fn classifies_arm64() {
    assert_eq!(check_machine(&header_with_machine(0xaa64)), Ok(Architecture::Arm64));
}

#[test]
fn unknown_machine_is_reported() {
    assert_eq!(
        check_machine(&header_with_machine(0x1234)),
        Err(ClassificationError::UnsupportedMachine(0x1234))
    );
}

#[test]
fn short_image_is_truncated() {
    assert_eq!(check_machine(&[0u8; 10]), Err(ClassificationError::Truncated));
    let mut image = header_with_machine(0x8664);
    image.pop();
    assert_eq!(check_machine(&image), Err(ClassificationError::Truncated));
    let mut far = vec![0u8; 0x40];
    far[0x3c] = 0xff;
    far[0x3f] = 0x7f;
    assert_eq!(check_machine(&far), Err(ClassificationError::Truncated));
}

#[test]
fn classification_is_repeatable() {
    let image = header_with_machine(0xaa64);
    assert_eq!(check_machine(&image), check_machine(&image));
    let bad = header_with_machine(0x1);
    assert_eq!(check_machine(&bad), check_machine(&bad));
}

#[test]
fn names_round_trip() {
    for a in [Architecture::Amd64, Architecture::I386, Architecture::Arm, Architecture::Arm64] {
        assert_eq!(Architecture::from_name(a.name()), Some(a));
    }
    assert_eq!(Architecture::Amd64.name(), "amd64");
    assert_eq!(Architecture::from_name("mips"), None);
    assert_eq!(Architecture::from_name("AMD64"), None);
}

#[test]
fn unmatched_image_comes_back_unchanged() {
    let image: Vec<u8> = (0..=255u8).collect();
    for a in [Architecture::Amd64, Architecture::I386, Architecture::Arm, Architecture::Arm64] {
        assert_eq!(apply_patch(a, &image).unwrap(), image);
    }
    assert_eq!(apply_patch(Architecture::Amd64, &[]).unwrap(), Vec::<u8>::new());
}

#[test]
fn exact_pattern_becomes_its_replacement() {
    let image = bytes_of("39 9E C8 00 00 00 0F 95 C1 88 0F 8B");
    let out = patch_module("amd64", &image).unwrap();
    assert_eq!(out, bytes_of("39 9E C8 00 00 00 B1 00 90 88 0F 8B"));
    assert_eq!(out.len(), image.len());
}

#[test]
fn i386_both_rules_apply() {
    let image = bytes_of("FF EB 08 39 77 74 0F 95 C1 88 08 8B 00 FF EB 08 8B 4D 08 8A 49 31 88 08 8B");
    let out = patch_module("i386", &image).unwrap();
    assert_eq!(
        out,
        bytes_of("FF EB 08 39 77 74 B1 00 90 88 08 8B 00 FF EB 08 8B 4D 08 B1 00 90 88 08 8B")
    );
}

#[test]
fn arm_wildcards_and_nibbles_match() {
    // The first pattern spans an odd number of digits: it starts mid-byte here.
    let image = bytes_of("005e0ab3cd0bb1012300e000232b702046 02e090f877300b702046");
    let out = apply_patch(Architecture::Arm, &image).unwrap();
    assert_eq!(out, bytes_of("005e0ab3cd0bb1002300e000232b702046 02e04ff000030b702046"));
}

#[test]
fn arm64_second_rule_replaces_only_first_occurrence() {
    let site = "FC 97 03 00 00 14 08 5A 41 39 28 00 00 39 E0 03 13 2A";
    let image = bytes_of(&format!("{} {}", site, site));
    let out = patch_module("arm64", &image).unwrap();
    let patched_site = "FC 97 03 00 00 14 08 00 80 52 28 00 00 39 E0 03 13 2A";
    assert_eq!(out, bytes_of(&format!("{} {}", patched_site, site)));
}

#[test]
fn arm64_first_rule_replaces_every_occurrence() {
    // The pattern spans an odd number of digits, so here it starts mid-byte.
    let site = "0fe9705000014a812a40b91f010071e9079f1a89020039e003132a";
    let patched = "0fe9705000014a812a40b91f0100710900805289020039e003132a";
    let image = bytes_of(&format!("{}{}", site, site));
    let out = apply_patch(Architecture::Arm64, &image).unwrap();
    assert_eq!(out, bytes_of(&format!("{}{}", patched, patched)));
}

#[test]
fn patching_twice_changes_nothing_more() {
    let image = bytes_of("00 39 9E C8 00 00 00 0F 95 C1 88 0F 8B 11 FF EB 05 8A 49 61 88 0A 8B CB E8 22");
    let once = apply_patch(Architecture::Amd64, &image).unwrap();
    assert_ne!(once, image);
    let twice = apply_patch(Architecture::Amd64, &once).unwrap();
    assert_eq!(twice, once);
}

#[test]
fn unknown_architecture_is_refused() {
    let image = bytes_of("39 9E C8 00 00 00 0F 95 C1 88 0F 8B");
    match patch_module("mips", &image) {
        Err(PatchError::UnsupportedArchitecture(name)) => assert_eq!(name, "mips"),
        other => panic!("unexpected result {:?}", other),
    }
}

fn two_group_rule(limit: usize) -> Rule {
    // (ab) .. (cd) -> ${1} 99 ${2}
    let mut pattern = lits("ab");
    pattern.push(Tok::Any);
    pattern.push(Tok::Any);
    pattern.extend(lits("cd"));
    Rule {
        pattern,
        groups: vec![(0, 2), (4, 6)],
        replacement: vec![Part::Group(1), Part::Text(b"99".to_vec()), Part::Group(2)],
        limit,
    }
}

#[test]
fn limit_replaces_first_matches_only() {
    let text = b"ab00cd-ab11cd-ab22cd".to_vec();
    assert_eq!(replace_matches(&two_group_rule(1), &text), b"ab99cd-ab11cd-ab22cd".to_vec());
    assert_eq!(replace_matches(&two_group_rule(2), &text), b"ab99cd-ab99cd-ab22cd".to_vec());
    assert_eq!(replace_matches(&two_group_rule(0), &text), b"ab99cd-ab99cd-ab99cd".to_vec());
    assert_eq!(replace_matches(&two_group_rule(5), &text), b"ab99cd-ab99cd-ab99cd".to_vec());
}

#[test]
fn matches_do_not_overlap() {
    let rule = Rule {
        pattern: lits("aa"),
        groups: vec![],
        replacement: vec![Part::Text(b"b".to_vec())],
        limit: 0,
    };
    assert_eq!(replace_matches(&rule, b"aaaaa"), b"bba".to_vec());
}

#[test]
fn groups_are_replayed_in_order() {
    let rule = Rule {
        pattern: lits("1234"),
        groups: vec![(0, 1), (2, 4)],
        replacement: vec![Part::Group(2), Part::Text(b"-".to_vec()), Part::Group(1)],
        limit: 0,
    };
    assert_eq!(replace_matches(&rule, b"x1234y"), b"x34-1y".to_vec());
    assert_eq!(replace_matches(&two_group_rule(0), b"abxyzcd ab12cd"), b"abxyzcd ab99cd".to_vec());
}

#[test]
fn table_rules_keep_length() {
    for a in [Architecture::Amd64, Architecture::I386, Architecture::Arm, Architecture::Arm64] {
        let rules = patch_rules(a);
        assert_eq!(rules.len(), 2);
        for r in &rules {
            let captured: usize = r.groups.iter().map(|(s, e)| e - s).sum();
            let literal: usize = r
                .replacement
                .iter()
                .map(|p| match p {
                    Part::Text(t) => t.len(),
                    Part::Group(_) => 0,
                })
                .sum();
            assert_eq!(captured + literal, r.pattern.len());
        }
    }
}

#[test]
fn replaced_matches_respects_limit() {
    let text = b"ab00cd-ab11cd-ab22cd".to_vec();
    assert_eq!(replaced_matches(&two_group_rule(0), &text), 3);
    assert_eq!(replaced_matches(&two_group_rule(2), &text), 2);
    assert_eq!(replaced_matches(&two_group_rule(7), &text), 3);
    assert_eq!(replaced_matches(&two_group_rule(0), b"nothing"), 0);
}

#[test]
fn match_counts_per_rule() {
    let image = bytes_of("00 39 9E C8 00 00 00 0F 95 C1 88 0F 8B 39 9E C8 00 00 00 0F 95 C1 88 0F 8B");
    assert_eq!(rule_match_counts(Architecture::Amd64, &image), vec![2, 0]);
    let site = "FC 97 03 00 00 14 08 5A 41 39 28 00 00 39 E0 03 13 2A";
    let arm64 = bytes_of(&format!("{} {}", site, site));
    assert_eq!(rule_match_counts(Architecture::Arm64, &arm64), vec![0, 1]);
    let patched = apply_patch(Architecture::Amd64, &image).unwrap();
    assert_eq!(rule_match_counts(Architecture::Amd64, &patched), vec![0, 0]);
}
