use serial_gateway::commands::{
    create_variable_packet, float_text, process_udp_message, variable_packet, Variable,
};

/// A message with the number that its float text reads as.
fn process(msg: &str) -> Option<Vec<u8>> {
    let bits = float_text(msg).and_then(|t| t.parse::<f32>().ok()).map(f32::to_bits);
    process_udp_message(msg, bits)
}

/// The packet that sets a 16-bit variable.
fn pwm_packet(id: u8, v: u16) -> Option<Vec<u8>> {
    Some([&[3, 0, id][..], &v.to_ne_bytes()].concat())
}

/// The packet that sets the single-precision variable.
fn float_packet(v: f32) -> Option<Vec<u8>> {
    Some([&[5, 0, 3][..], &v.to_ne_bytes()].concat())
}

#[test]
fn pwm_commands_give_packets() {
    assert_eq!(process("!PWM_A 258"), pwm_packet(1, 258));
    assert_eq!(process("!PWM_B 65535"), Some(vec![3, 0, 2, 0xFF, 0xFF]));
    assert_eq!(process("!PWM_A 0"), Some(vec![3, 0, 1, 0, 0]));
    assert_eq!(process("!PWM_A +12"), pwm_packet(1, 12));
}

#[test]
fn float_commands_give_packets() {
    assert_eq!(process("!F_TEST 1.5"), float_packet(1.5));
    assert_eq!(process("!F_TEST -inf"), float_packet(f32::NEG_INFINITY));
    assert_eq!(process("!F_TEST abc"), None);
}

#[test]
fn names_are_matched_in_any_case() {
    let packet = pwm_packet(1, 5);
    assert_eq!(process("!pwm_a 5"), packet);
    assert_eq!(process("!Pwm_A 5"), packet);
    assert_eq!(process("!PWM_A 5"), packet);
}

#[test]
fn letter_case_makes_no_difference() {
    for msg in [
        " !Pwm_A 5", "!pWm_b +65535 ", "!f_TesT 1E3", "!F_test -iNf", "!f_te\u{17F}T 2", "!Pwm_\u{E1} 2", "pwm_a 5",
        "!Pwm_A five", "!Pwm_C 1", "!F_Test Abc", "",
    ] {
        assert_eq!(process(&msg.to_ascii_lowercase()), process(msg));
        assert_eq!(process(&msg.to_ascii_uppercase()), process(msg));
    }
    assert_eq!(process("!f_TesT 1E3"), float_packet(1000.0));
}

#[test]
fn names_are_matched_in_unicode_case() {
    let packet = process("!F_TEST 2");
    assert!(packet.is_some());
    assert_eq!(process("!f_te\u{17F}t 2"), packet);
    assert_eq!(process("!f_te\u{FB06} 2"), packet);
    assert_eq!(process("!pwm_\u{E1} 2"), None);
}

#[test]
fn white_space_around_and_between_does_not_matter() {
    let packet = pwm_packet(2, 7);
    assert_eq!(process("  !PWM_B 7\r\n"), packet);
    assert_eq!(process("!  PWM_B \t 7"), packet);
    assert_eq!(process("\u{A0}!PWM_B\u{3000}7\u{85}"), packet);
}

#[test]
fn other_messages_are_rejected() {
    for msg in [
        "", " ", "!", "PWM_A 5", "!PWM_A", "!PWM_A 5 6", "!PWM_C 5", "!PWM_A 65536", "!PWM_A -1", "!PWM_A 1.5",
        "!PWM_A five", "?PWM_A 5", "! ! PWM_A 5", "!!PWM_A 5", "!F_TEST", "!F_TEST 1 2",
    ] {
        assert_eq!(process(msg), None);
    }
}

#[test]
fn only_float_commands_have_float_text() {
    assert_eq!(float_text(" !f_test 3.25 "), Some("3.25".to_string()));
    assert_eq!(float_text("!F_TEST x"), Some("x".to_string()));
    assert_eq!(float_text("!PWM_A 5"), None);
    assert_eq!(float_text("F_TEST 1"), None);
    assert_eq!(process_udp_message("!PWM_A 5", Some(1)), process_udp_message("!PWM_A 5", None));
    assert_eq!(process_udp_message("!F_TEST 1", None), None);
}

#[test]
fn variables_have_ids_and_values() {
    assert_eq!(Variable::PwmA(0x1234).discriminant(), 1);
    assert_eq!(Variable::PwmB(0x1234).discriminant(), 2);
    assert_eq!(Variable::FTest(0x12345678).discriminant(), 3);
    assert_eq!(Variable::PwmA(0x1234).value_as_bytes(), 0x1234u16.to_ne_bytes());
    assert_eq!(Variable::FTest(0x12345678).value_as_bytes(), 0x12345678u32.to_ne_bytes());
    assert_eq!(Variable::FTest(1.5f32.to_bits()).value_as_bytes(), 1.5f32.to_ne_bytes());
    assert_eq!(Variable::PwmB(0xABAB).value_as_bytes(), vec![0xAB, 0xAB]);
    assert_eq!(Variable::from_var_id_and_value("pwm_b", "9", None), Some(Variable::PwmB(9)));
    assert_eq!(Variable::from_var_id_and_value("f_test", "9", Some(77)), Some(Variable::FTest(77)));
    assert_eq!(Variable::from_var_id_and_value("pwm", "9", Some(77)), None);
}

#[test]
fn packets_state_their_length() {
    for var in [Variable::PwmA(1), Variable::PwmB(2), Variable::FTest(3)] {
        let packet = create_variable_packet(var);
        assert_eq!(u16::from_le_bytes([packet[0], packet[1]]) as usize, packet.len() - 2);
        assert_eq!(packet[2], var.discriminant());
        assert_eq!(packet[3..], var.value_as_bytes()[..]);
    }
}

#[test]
fn packets_carry_their_value_as_given() {
    assert_eq!(variable_packet(1, vec![0x34, 0x12]), vec![3, 0, 1, 0x34, 0x12]);
    assert_eq!(variable_packet(9, vec![]), vec![1, 0, 9]);
    assert_eq!(variable_packet(2, vec![7; 300])[..4], [0x2D, 0x01, 2, 7]);
}

#[test]
fn packets_can_be_told_apart_in_a_stream() {
    let mut stream = create_variable_packet(Variable::FTest(0xDEADBEEF));
    stream.extend(create_variable_packet(Variable::PwmA(3)));
    let mut expected = vec![5, 0, 3];
    expected.extend(0xDEADBEEFu32.to_ne_bytes());
    expected.extend([3, 0, 1]);
    expected.extend(3u16.to_ne_bytes());
    assert_eq!(stream, expected);
}

#[test]
fn every_pwm_value_is_settable() {
    for v in [0u16, 1, 255, 256, 4096, 65534, 65535] {
        let msg = format!("!PWM_A {}", v);
        assert_eq!(process(&msg), Some(create_variable_packet(Variable::PwmA(v))));
    }
}
