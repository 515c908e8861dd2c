use src_utils::pointer::{initialize_pointer_map, remap_button_event_to_input_events, RemapAction, MAX_BUTTONS};
use src_utils::userinput::InputEvent;

#[test]
fn default_map_has_identity_first_buttons() {
    let m = initialize_pointer_map(None);
    assert_eq!(m[1], vec![RemapAction::Button(1u8)]);
    assert_eq!(m[2], vec![RemapAction::Button(2u8)]);
}

#[test]
fn parse_single_button_token() {
    let m = initialize_pointer_map(Some("4"));
    assert_eq!(m[4], vec![RemapAction::Button(4u8)]);
}

#[test]
fn parse_colon_sym_list() {
    let m = initialize_pointer_map(Some("1::Up+Down:"));
    // because we use a very forgiving parser the leading empty head is allowed
    // and the mapping gets stored in slot 1
    assert!(m[1].len() >= 2);
    assert_eq!(m[1][0], RemapAction::KeysymName("Up".to_string()));
    assert_eq!(m[1][1], RemapAction::KeysymName("Down".to_string()));
}

#[test]
fn parse_button_with_hex_keysym() {
    let m = initialize_pointer_map(Some("2:0x46+Button3:"));
    assert_eq!(m[2][0], RemapAction::KeysymNum(0x46));
    assert_eq!(m[2][1], RemapAction::Button(3));
}

#[test]
fn parse_named_button_string() {
    let m = initialize_pointer_map(Some(":Foo+Bar:"));
    assert_eq!(m[1][0], RemapAction::KeysymName("Foo".to_string()));
    assert_eq!(m[1][1], RemapAction::KeysymName("Bar".to_string()));
}

#[test]
fn remap_button_event_to_input_events_generates_key_and_pointer() {
    let m = initialize_pointer_map(Some("2:0x46+Button3:"));
    // emulate src button 2 pressed with initial mask 0
    let evs = remap_button_event_to_input_events(&m, 2u8, true, 10, 20, 0);
    // should contain both the keysym send (down/up) and a pointer event
    assert!(evs.iter().any(|e| matches!(e, InputEvent::Key { keysym: 0x46, .. })));
    assert!(evs
        .iter()
        .any(|e| matches!(e, InputEvent::Pointer { button_mask, .. } if *button_mask == 1u8 << (3 - 1))));
}

#[test]
fn map_always_has_all_slots() {
    assert_eq!(initialize_pointer_map(None).len(), MAX_BUTTONS + 1);
    assert_eq!(initialize_pointer_map(Some("")).len(), MAX_BUTTONS + 1);
    assert_eq!(initialize_pointer_map(Some("99:Button1:,70")).len(), MAX_BUTTONS + 1);
}

#[test]
fn default_map_identity_for_five_buttons_only() {
    let m = initialize_pointer_map(None);
    for b in 1..=5u8 {
        assert_eq!(m[b as usize], vec![RemapAction::Button(b)]);
    }
    assert!(m[0].is_empty());
    assert!(m[6].is_empty());
}

#[test]
fn blank_remap_string_gives_empty_map() {
    let m = initialize_pointer_map(Some("   "));
    assert!(m.iter().all(|slot| slot.is_empty()));
}

#[test]
fn out_of_range_sources_are_ignored() {
    let m = initialize_pointer_map(Some("65:Button1:,99"));
    assert!(m.iter().all(|slot| slot.is_empty()));
}

#[test]
fn numeric_token_appends_and_explicit_remap_replaces() {
    let m = initialize_pointer_map(Some("3,3"));
    assert_eq!(m[3], vec![RemapAction::Button(3), RemapAction::Button(3)]);
    let m = initialize_pointer_map(Some("3, 3:Button1:"));
    assert_eq!(m[3], vec![RemapAction::Button(1)]);
}

#[test]
fn single_digit_tail_and_bad_tokens() {
    let m = initialize_pointer_map(Some("2: 4 ,x:Up:, 5:0xZZ+Button300+  +Left:"));
    assert_eq!(m[2], vec![RemapAction::Button(4)]);
    assert_eq!(
        m[5],
        vec![
            RemapAction::KeysymName("0xZZ".to_string()),
            RemapAction::KeysymName("Button300".to_string()),
            RemapAction::KeysymName("Left".to_string()),
        ]
    );
    assert!(m[1].is_empty());
}

#[test]
fn colon_form_without_closing_colon_is_empty() {
    let m = initialize_pointer_map(Some("4::Up"));
    assert!(m[4].is_empty());
}

#[test]
fn trailing_colons_are_stripped() {
    let m = initialize_pointer_map(Some("6:Up+Down:::"));
    assert_eq!(
        m[6],
        vec![RemapAction::KeysymName("Up".to_string()), RemapAction::KeysymName("Down".to_string())]
    );
}

#[test]
fn remap_keysym_release_only_sends_up() {
    let m = initialize_pointer_map(Some("2:0x41:"));
    let evs = remap_button_event_to_input_events(&m, 2, false, 0, 0, 0);
    assert_eq!(evs, vec![InputEvent::Key { keysym: 0x41, pressed: false, modifiers: 0 }]);
    let evs = remap_button_event_to_input_events(&m, 2, true, 0, 0, 0);
    assert_eq!(
        evs,
        vec![
            InputEvent::Key { keysym: 0x41, pressed: true, modifiers: 0 },
            InputEvent::Key { keysym: 0x41, pressed: false, modifiers: 0 },
        ]
    );
}

#[test]
fn remap_button_release_clears_bit() {
    let m = initialize_pointer_map(None);
    let evs = remap_button_event_to_input_events(&m, 3, false, 5, 6, 0b111);
    assert_eq!(evs, vec![InputEvent::Pointer { x: 5, y: 6, button_mask: 0b011 }]);
    let evs = remap_button_event_to_input_events(&m, 3, true, 5, 6, 0);
    assert_eq!(evs, vec![InputEvent::Pointer { x: 5, y: 6, button_mask: 0b100 }]);
}

#[test]
fn remap_unknown_buttons_give_nothing() {
    let m = initialize_pointer_map(None);
    assert!(remap_button_event_to_input_events(&m, 0, true, 0, 0, 0).is_empty());
    assert!(remap_button_event_to_input_events(&m, 200, true, 0, 0, 0).is_empty());
    assert!(remap_button_event_to_input_events(&m, 9, true, 0, 0, 0).is_empty());
}

#[test]
fn keysym_names_send_nothing() {
    let m = initialize_pointer_map(Some(":Foo:"));
    assert!(remap_button_event_to_input_events(&m, 1, true, 0, 0, 0).is_empty());
}
