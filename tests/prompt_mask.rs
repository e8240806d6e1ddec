use blightmud::model::prompt_mask::PromptMask;
use std::collections::BTreeMap;

fn mask_of(entries: &[(i32, &str)]) -> PromptMask {
    let mut map = BTreeMap::new();
    for (k, v) in entries {
        map.insert(*k, v.to_string());
    }
    PromptMask::from_map(map)
}

fn chars(s: &str) -> Vec<char> {
    s.chars().collect()
}

#[test]
fn mask_inserts_at_one_based_positions() {
    let mask = mask_of(&[(3, "xx"), (5, "yy")]);
    assert_eq!(mask.mask_buffer(&chars("ABCDE")), "ABxxCDyyE");
}

#[test]
fn mask_at_start_and_end() {
    let mask = mask_of(&[(1, "<"), (4, ">")]);
    assert_eq!(mask.mask_buffer(&chars("abc")), "<abc>");
}

#[test]
fn empty_mask_keeps_buffer() {
    assert_eq!(PromptMask::new().mask_buffer(&chars("prompt")), "prompt");
    let mut mask = mask_of(&[(1, "x")]);
    mask.clear();
    assert_eq!(mask.mask_buffer(&chars("prompt")), "prompt");
}

#[test]
fn mask_entries_come_in_ascending_order() {
    let mask = mask_of(&[(20, "bye"), (10, "hi")]);
    let keys: Vec<i32> = mask.entries().iter().map(|e| e.0).collect();
    assert_eq!(keys, vec![10, 20]);
}

#[test]
fn multibyte_value_shifts_by_its_bytes() {
    let mask = mask_of(&[(1, "é"), (2, "x")]);
    assert_eq!(mask.mask_buffer(&chars("abc")), "éabxc");
}
