use chip8::handler::keypad;
use chip8::keyboard::Keyboard;
use chip8::keypad::Keypad;
use chip8::utils::Chip8Error;

#[test]
fn keypad_starts_released_and_reports_presses() {
    let mut pad = Keypad::new();
    for k in 0..16u8 {
        assert_eq!(pad.is_key_pressed(k).unwrap(), false);
    }
    pad.keys_state[0xB] = true;
    assert_eq!(pad.is_key_pressed(0xB).unwrap(), true);
}

#[test]
fn keypad_rejects_key_codes_past_fifteen() {
    let pad = Keypad::new();
    assert_eq!(
        pad.is_key_pressed(16),
        Err(Chip8Error::InvalidKeyCode { key_code: 16 })
    );
    assert_eq!(
        pad.is_key_pressed(0xFF),
        Err(Chip8Error::InvalidKeyCode { key_code: 0xFF })
    );
}

#[test]
fn keypad_first_pressed_key_is_lowest() {
    let mut pad = Keypad::new();
    assert_eq!(pad.first_pressed_key(), None);
    pad.keys_state[9] = true;
    pad.keys_state[4] = true;
    assert_eq!(pad.first_pressed_key(), Some(4));
}

#[test]
fn free_keypad_queries_match_the_struct() {
    let state = [false, true, false, false];
    assert_eq!(keypad::is_key_pressed(&state, 1).unwrap(), true);
    assert_eq!(keypad::is_key_pressed(&state, 0).unwrap(), false);
    assert_eq!(
        keypad::is_key_pressed(&state, 4),
        Err(Chip8Error::InvalidKeyCode { key_code: 4 })
    );
    assert_eq!(keypad::first_pressed_key(&state), Some(1));
    assert_eq!(keypad::first_pressed_key(&[false; 16]), None);
}

#[test]
fn keyboard_maps_the_sixteen_host_keys() {
    let expected = [
        ('1', 0x1),
        ('2', 0x2),
        ('3', 0x3),
        ('4', 0xC),
        ('q', 0x4),
        ('w', 0x5),
        ('e', 0x6),
        ('r', 0xD),
        ('a', 0x7),
        ('s', 0x8),
        ('d', 0x9),
        ('f', 0xE),
        ('z', 0xA),
        ('x', 0x0),
        ('c', 0xB),
        ('v', 0xF),
    ];
    for (key, code) in expected {
        assert_eq!(Keyboard::convert_keycode(key), code, "key {key}");
    }
    assert_eq!(Keyboard::convert_keycode('p'), 0);
}

#[test]
fn keyboard_update_folds_presses_and_releases() {
    let mut kb = Keyboard::new();
    kb.update_keys_state(&vec!['q', 'w'], &vec![]);
    assert_eq!(kb.is_key_pressed(0x4).unwrap(), true);
    assert_eq!(kb.is_key_pressed(0x5).unwrap(), true);
    assert_eq!(kb.is_key_pressed(0x6).unwrap(), false);
    // A release clears the flag; a key both pressed and released ends up
    // released.
    kb.update_keys_state(&vec!['e'], &vec!['q', 'e']);
    assert_eq!(kb.is_key_pressed(0x4).unwrap(), false);
    assert_eq!(kb.is_key_pressed(0x5).unwrap(), true);
    assert_eq!(kb.is_key_pressed(0x6).unwrap(), false);
    // Unmapped keys change nothing.
    kb.update_keys_state(&vec!['p'], &vec!['o']);
    assert_eq!(kb.is_key_pressed(0x5).unwrap(), true);
}
