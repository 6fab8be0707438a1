use lttp_autotimer::check::{mark_items, Check};

#[test]
#[allow(non_snake_case)]
fn GIVEN_normal_check_WHEN_update_check_THEN_is_checked_is_set_to_true() {
    // Given
    let mut check = Check {
        ..Default::default()
    };
    let time_of_check: i64 = 1_700_000_000_123;
    // When
    check.update_check(time_of_check);
    // Then
    assert!(check.is_checked == true);
    assert!(check.time_of_check == Some(time_of_check));
}

#[test]
#[allow(non_snake_case)]
fn GIVEN_progressive_WHEN_update_check_THEN_increment_progressive_level() {
    // Given
    let mut check = Check {
        is_progressive: true,
        ..Default::default()
    };
    let time_of_check: i64 = 1_700_000_000_456;
    // When
    check.update_check(time_of_check);
    // Then
    assert!(check.is_checked == false);
    assert!(check.progressive_level == 1);
    assert!(check.time_of_check == Some(time_of_check));
}

#[test]
fn new_check_has_only_its_id() {
    let check = Check::new(42);
    assert_eq!(check.id, 42);
    assert_eq!(check.name, "");
    assert_eq!(check.sram_offset, None);
    assert!(!check.is_checked);
    assert_eq!(check.progressive_level, 0);
}

#[test]
fn mark_as_checked_sets_flag_and_time() {
    let mut check = Check::new(3);
    check.mark_as_checked(99);
    assert!(check.is_checked);
    assert_eq!(check.time_of_check, Some(99));
    assert_eq!(check.progressive_level, 0);
}

#[test]
fn progress_item_goes_up_a_level_and_keeps_value() {
    let mut check = Check {
        is_progressive: true,
        progressive_level: 2,
        ..Default::default()
    };
    check.progress_item(7, 1234);
    assert_eq!(check.progressive_level, 3);
    assert_eq!(check.snes_value, 7);
    assert_eq!(check.time_of_check, Some(1234));
    assert!(!check.is_checked);
}

#[test]
fn deep_clone_is_equal() {
    let check = Check {
        id: 9,
        name: "Bow".to_string(),
        sram_offset: Some(0xf38e),
        sram_mask: Some(0x80),
        is_item: true,
        ..Default::default()
    };
    assert_eq!(check.deep_clone(), check);
}

#[test]
fn mark_items_sets_is_item_and_keeps_the_rest() {
    let checks = vec![
        Check { id: 3, name: "Bow".to_string(), sram_offset: Some(0x340), ..Default::default() },
        Check { id: 7, is_item: true, is_progressive: true, ..Default::default() },
    ];
    let items = mark_items(&checks);
    assert_eq!(items.len(), 2);
    assert!(items.iter().all(|c| c.is_item));
    assert_eq!(items[0], Check { is_item: true, ..Check { id: 3, name: "Bow".to_string(), sram_offset: Some(0x340), ..Default::default() } });
    assert_eq!(items[1].id, 7);
    assert!(items[1].is_progressive);
    assert!(mark_items(&Vec::new()).is_empty());
}
