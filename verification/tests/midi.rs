use rustsynth::midi_message::{control_change_bytes, get_at, led_bytes, MidiMessage};

#[test]
fn decode_control_change() {
    let m = MidiMessage::try_from(&[0xB3u8, 0x01, 0x7F][..]).unwrap();
    assert_eq!(m, MidiMessage::ControlChange { ch: 3, num: 0x01, value: 0x7F });
}

#[test]
fn decode_control_change_channel_zero() {
    let m = MidiMessage::try_from(&[0xB0u8, 0x20, 0x00][..]).unwrap();
    assert_eq!(m, MidiMessage::ControlChange { ch: 0, num: 0x20, value: 0x00 });
}

#[test]
fn decode_channel_mode_is_unknown() {
    // controller numbers 0x78..=0x7F are channel-mode messages
    let m = MidiMessage::try_from(&[0xB0u8, 0x78, 0x00][..]).unwrap();
    assert_eq!(m, MidiMessage::Unknown(vec![0xB0, 0x78, 0x00]));
}

#[test]
fn decode_empty_fails() {
    assert!(MidiMessage::try_from(&[][..]).is_err());
}

#[test]
fn decode_truncated_control_change_fails() {
    assert!(MidiMessage::try_from(&[0xB0u8][..]).is_err());
    assert!(MidiMessage::try_from(&[0xB0u8, 0x01][..]).is_err());
}

#[test]
fn decode_sysex_with_trailer() {
    let m = MidiMessage::try_from(&[0xF0u8, 1, 2, 3, 0xF7][..]).unwrap();
    assert_eq!(m, MidiMessage::SysEx(vec![1, 2, 3]));
}

#[test]
fn decode_sysex_without_trailer() {
    let m = MidiMessage::try_from(&[0xF0u8, 1, 2, 3][..]).unwrap();
    assert_eq!(m, MidiMessage::SysEx(vec![1, 2, 3]));
}

#[test]
fn decode_sysex_single_trailer_byte() {
    let m = MidiMessage::try_from(&[0xF7u8][..]).unwrap();
    assert_eq!(m, MidiMessage::SysEx(vec![]));
}

#[test]
fn decode_other_status_is_unknown() {
    let m = MidiMessage::try_from(&[0x91u8, 0x40, 0x40][..]).unwrap();
    assert_eq!(m, MidiMessage::Unknown(vec![0x91, 0x40, 0x40]));
}

#[test]
fn get_at_in_and_out_of_range() {
    let bytes = [5u8, 6, 7];
    assert_eq!(get_at(&bytes, 1).unwrap(), 6);
    assert!(get_at(&bytes, 3).is_err());
}

#[test]
fn control_change_bytes_layout() {
    assert_eq!(control_change_bytes(2, 0x30, 0x55), vec![0xB2, 0x30, 0x55]);
}

#[test]
fn led_bytes_on_and_off() {
    assert_eq!(led_bytes(0x2A, true), vec![0xB0, 0x2A, 0x7F]);
    assert_eq!(led_bytes(0x2A, false), vec![0xB0, 0x2A, 0x00]);
}
