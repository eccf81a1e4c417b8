use bevy_gas::gameplay_tags::tag_name_prefixes;
use bevy_gas::{
    add_bit_with_tag, tag_bits_from_tags, tag_bits_from_tags_with_manager, GameplayTag,
    GameplayTagContainer, GameplayTagError, GameplayTagManager, TagRequirements, UniqueName,
    MAX_TAG_BLOCKS, MAX_TAG_COUNTS,
};

fn register(manager: &mut GameplayTagManager, name: u64, parent: Option<&GameplayTag>) -> GameplayTag {
    manager
        .register_tag_internal(UniqueName::new(name), parent.map(|p| p.get_bit_index_u16()))
        .expect("registration succeeds")
}

/// A manager with `a`, `a.b`, `a.b.c`, and an unrelated `d`.
fn hierarchy() -> (GameplayTagManager, GameplayTag, GameplayTag, GameplayTag, GameplayTag) {
    let mut manager = GameplayTagManager::new();
    let a = register(&mut manager, 10, None);
    let ab = register(&mut manager, 11, Some(&a));
    let abc = register(&mut manager, 12, Some(&ab));
    let d = register(&mut manager, 13, None);
    (manager, a, ab, abc, d)
}

fn has_bit(bits: &[u64; MAX_TAG_BLOCKS], index: usize) -> bool {
    bits[index / 64] & (1u64 << (index % 64)) != 0
}

#[test]
fn registration_assigns_consecutive_indices() {
    let (_, a, ab, abc, d) = hierarchy();
    assert_eq!(a.get_bit_index_usize(), 0);
    assert_eq!(ab.get_bit_index_usize(), 1);
    assert_eq!(abc.get_bit_index_u16(), 2);
    assert_eq!(d.get_bit_index_u16(), 3);
}

#[test]
fn registering_a_known_name_returns_the_existing_tag() {
    let (mut manager, _, ab, _, _) = hierarchy();
    let again = manager.register_tag_internal(UniqueName::new(11), None).unwrap();
    assert_eq!(again, ab);
    assert_eq!(manager.get_tag(UniqueName::new(11)), Some(ab));
    assert_eq!(manager.get_tag(UniqueName::new(99)), None);
}

#[test]
fn registering_under_an_unknown_parent_fails() {
    let (mut manager, _, _, _, _) = hierarchy();
    let result = manager.register_tag_internal(UniqueName::new(50), Some(7));
    assert_eq!(result, Err(GameplayTagError::InvalidTagIndex { index: 7 }));
    assert_eq!(manager.get_tag(UniqueName::new(50)), None);
}

#[test]
fn registration_stops_at_capacity() {
    let mut manager = GameplayTagManager::new();
    for name in 0..MAX_TAG_COUNTS as u64 {
        manager.register_tag_internal(UniqueName::new(name), None).unwrap();
    }
    let result = manager.register_tag_internal(UniqueName::new(u64::MAX), None);
    assert_eq!(result, Err(GameplayTagError::CapacityExceeded { max: MAX_TAG_COUNTS }));
}

#[test]
fn inherited_bits_contain_the_tag_and_its_ancestors() {
    let (manager, _, _, abc, d) = hierarchy();
    let bits = manager.get_inherited_bits(&abc).unwrap();
    assert!(has_bit(&bits, 0) && has_bit(&bits, 1) && has_bit(&bits, 2));
    assert!(!has_bit(&bits, 3));
    let bits = manager.get_inherited_bits(&d).unwrap();
    assert!(has_bit(&bits, 3) && !has_bit(&bits, 0));
}

#[test]
fn child_tag_grants_its_parents() {
    let (manager, a, ab, abc, d) = hierarchy();
    let mut container = GameplayTagContainer::default();
    container.add_tag(&abc, &manager).unwrap();
    assert!(container.has_tag(&a));
    assert!(container.has_tag(&ab));
    assert!(container.has_tag(&abc));
    assert!(!container.has_tag(&d));
}

#[test]
fn removing_a_child_keeps_an_explicit_parent() {
    let (manager, a, ab, abc, _) = hierarchy();
    let mut container = GameplayTagContainer::default();
    container.add_tag(&a, &manager).unwrap();
    container.add_tag(&abc, &manager).unwrap();
    container.remove_tag(&abc, &manager).unwrap();
    assert!(container.has_tag(&a));
    assert!(!container.has_tag(&ab));
    assert!(!container.has_tag(&abc));
}

#[test]
fn reference_counted_tags_need_every_removal() {
    let (manager, a, _, _, _) = hierarchy();
    let mut container = GameplayTagContainer::default();
    container.add_tag(&a, &manager).unwrap();
    container.add_tag(&a, &manager).unwrap();
    container.remove_tag(&a, &manager).unwrap();
    assert!(container.has_tag(&a));
    container.remove_tag(&a, &manager).unwrap();
    assert!(!container.has_tag(&a));
}

#[test]
fn removing_an_absent_tag_changes_nothing() {
    let (manager, a, ab, _, _) = hierarchy();
    let mut container = GameplayTagContainer::default();
    container.add_tag(&a, &manager).unwrap();
    assert_eq!(container.remove_tag(&ab, &manager), Ok(()));
    assert!(container.has_tag(&a));
}

#[test]
fn add_then_remove_restores_an_empty_container() {
    let (manager, a, ab, abc, d) = hierarchy();
    let mut container = GameplayTagContainer::default();
    container.add_tags(&[abc, d, ab], &manager).unwrap();
    container.remove_tags(&[abc, d, ab], &manager).unwrap();
    for tag in [a, ab, abc, d] {
        assert!(!container.has_tag(&tag));
    }
}

#[test]
fn unregistered_tags_are_rejected_without_change() {
    let (big, _, _, abc, _) = hierarchy();
    let mut small = GameplayTagManager::new();
    let only = register(&mut small, 1, None);
    let mut container = GameplayTagContainer::default();
    container.add_tag(&only, &small).unwrap();
    assert_eq!(container.add_tag(&abc, &small), Err(GameplayTagError::InvalidTagIndex { index: 2 }));
    assert_eq!(container.add_tags(&[only, abc], &small), Err(GameplayTagError::InvalidTagIndex { index: 2 }));
    assert_eq!(container.remove_tags(&[abc], &small), Err(GameplayTagError::InvalidTagIndex { index: 2 }));
    assert!(container.has_tag(&only));
    let _ = big;
}

#[test]
fn reference_count_overflow_is_reported() {
    let (manager, a, _, _, _) = hierarchy();
    let mut container = GameplayTagContainer::default();
    for _ in 0..u16::MAX {
        container.add_tag(&a, &manager).unwrap();
    }
    assert_eq!(
        container.add_tag(&a, &manager),
        Err(GameplayTagError::ReferenceCountOverflow { index: 0, max: u16::MAX })
    );
    container.remove_tag(&a, &manager).unwrap();
    assert!(container.has_tag(&a));
}

#[test]
fn batch_overflow_changes_nothing() {
    let (manager, a, ab, _, _) = hierarchy();
    let mut container = GameplayTagContainer::default();
    for _ in 0..(u16::MAX - 1) {
        container.add_tag(&a, &manager).unwrap();
    }
    assert_eq!(
        container.add_tags(&[ab, ab], &manager),
        Err(GameplayTagError::ReferenceCountOverflow { index: 0, max: u16::MAX })
    );
    assert!(!container.has_tag(&ab));
}

#[test]
fn has_all_and_has_any_follow_inheritance() {
    let (manager, a, ab, abc, d) = hierarchy();
    let mut container = GameplayTagContainer::default();
    container.add_tag(&ab, &manager).unwrap();
    assert!(container.has_all(&[a, ab]));
    assert!(!container.has_all(&[a, abc]));
    assert!(container.has_any(&[abc, a]));
    assert!(!container.has_any(&[abc, d]));
    assert!(container.has_all(&[]));
    assert!(!container.has_any(&[]));
    let bits = tag_bits_from_tags(&[a]).unwrap();
    assert!(container.has_all_bits(&bits));
    assert!(container.has_any_bits(&bits));
}

#[test]
fn tag_bits_hold_exactly_the_tags() {
    let (manager, a, _, abc, d) = hierarchy();
    let bits = tag_bits_from_tags(&[abc, d]).unwrap();
    assert!(has_bit(&bits, 2) && has_bit(&bits, 3));
    assert!(!has_bit(&bits, 0) && !has_bit(&bits, 1));
    let expanded = tag_bits_from_tags_with_manager(&[abc], &manager).unwrap();
    assert!(has_bit(&expanded, 0) && has_bit(&expanded, 1) && has_bit(&expanded, 2));
    let mut bits = [0u64; MAX_TAG_BLOCKS];
    add_bit_with_tag(&mut bits, &a).unwrap();
    assert_eq!(bits[0], 1);
}

#[test]
fn expanding_unregistered_tags_reports_the_first() {
    let (_, _, ab, abc, _) = hierarchy();
    let mut small = GameplayTagManager::new();
    register(&mut small, 1, None);
    assert_eq!(
        tag_bits_from_tags_with_manager(&[ab, abc], &small),
        Err(GameplayTagError::InvalidTagIndex { index: 1 })
    );
}

#[test]
fn active_descendants_are_found_through_counts() {
    let (manager, a, ab, abc, d) = hierarchy();
    let mut counts = vec![0u16; 4];
    assert!(!manager.check_has_active_descendants(a.get_bit_index_usize(), &counts));
    counts[abc.get_bit_index_usize()] = 1;
    assert!(manager.check_has_active_descendants(a.get_bit_index_usize(), &counts));
    assert!(manager.check_has_active_descendants(ab.get_bit_index_usize(), &counts));
    assert!(!manager.check_has_active_descendants(abc.get_bit_index_usize(), &counts));
    assert!(!manager.check_has_active_descendants(d.get_bit_index_usize(), &counts));
}

#[test]
fn requirements_need_all_required_and_no_ignored_tags() {
    let (manager, a, ab, abc, d) = hierarchy();
    let requirements = TagRequirements::new(vec![a], vec![d]).unwrap();
    let mut container = GameplayTagContainer::default();
    assert!(!requirements.passes(Some(&container)));
    container.add_tag(&abc, &manager).unwrap();
    assert!(requirements.passes(Some(&container)));
    container.add_tag(&d, &manager).unwrap();
    assert!(!requirements.passes(Some(&container)));
    assert!(!requirements.passes(None));
    assert_eq!(requirements.get_required_tags(), &[a]);
    assert_eq!(requirements.get_ignored_tags(), &[d]);
    assert!(!requirements.is_empty());
    let _ = ab;
}

#[test]
fn empty_requirements_pass_everything() {
    let requirements = TagRequirements::default();
    assert!(requirements.is_empty());
    assert!(requirements.passes(None));
    assert!(requirements.passes(Some(&GameplayTagContainer::default())));
    assert!(requirements.passes_tag_bits(&[0u64; MAX_TAG_BLOCKS]));
}

#[test]
fn requirements_on_tag_slices_expand_inheritance() {
    let (manager, a, _, abc, d) = hierarchy();
    let requirements = TagRequirements::new(vec![a], vec![d]).unwrap();
    assert_eq!(requirements.passes_tag_slice(&[abc], &manager), Ok(true));
    assert_eq!(requirements.passes_tag_slice(&[abc, d], &manager), Ok(false));
    let mut small = GameplayTagManager::new();
    register(&mut small, 1, None);
    assert_eq!(
        requirements.passes_tag_slice(&[abc], &small),
        Err(GameplayTagError::InvalidTagIndex { index: 2 })
    );
    let bits = tag_bits_from_tags_with_manager(&[abc], &manager).unwrap();
    assert!(requirements.passes_tag_bits(&bits));
}

#[test]
fn requesting_a_tag_registers_its_missing_ancestors() {
    let mut manager = GameplayTagManager::new();
    let names = [UniqueName::new(1), UniqueName::new(2), UniqueName::new(3)];
    let abc = manager.request_or_register_tag(&names).unwrap();
    assert_eq!(abc.get_bit_index_u16(), 2);
    let a = manager.get_tag(names[0]).unwrap();
    let ab = manager.get_tag(names[1]).unwrap();
    assert_eq!(a.get_bit_index_u16(), 0);
    assert_eq!(ab.get_bit_index_u16(), 1);
    let bits = tag_bits_from_tags(&[a, ab, abc]).unwrap();
    assert_eq!(manager.get_inherited_bits(&abc), Ok(&bits));
    let again = manager.request_or_register_tag(&names).unwrap();
    assert_eq!(again, abc);
    let abd = manager.request_or_register_tag(&[names[0], names[1], UniqueName::new(4)]).unwrap();
    assert_eq!(abd.get_bit_index_u16(), 3);
    assert_eq!(manager.get_inherited_bits(&abd), Ok(&tag_bits_from_tags(&[a, ab, abd]).unwrap()));
}

#[test]
fn requesting_a_registered_tag_leaves_its_prefixes_alone() {
    let mut manager = GameplayTagManager::new();
    let ab = register(&mut manager, 2, None);
    let found = manager.request_or_register_tag(&[UniqueName::new(1), UniqueName::new(2)]).unwrap();
    assert_eq!(found, ab);
    assert_eq!(manager.get_tag(UniqueName::new(1)), None);
}

#[test]
fn tag_names_list_their_ancestors_outermost_first() {
    assert_eq!(tag_name_prefixes("ability.fire.burst"), vec!["ability", "ability.fire", "ability.fire.burst"]);
    assert_eq!(tag_name_prefixes("root"), vec!["root"]);
    assert_eq!(tag_name_prefixes(""), vec![""]);
    assert_eq!(tag_name_prefixes("a..b"), vec!["a", "a.", "a..b"]);
    assert_eq!(tag_name_prefixes("état.feu"), vec!["état", "état.feu"]);
}
