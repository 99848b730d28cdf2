//! Decoding of raw MIDI byte sequences into a small structured message set.
//!
//! The status byte's high nibble selects the message kind and its low nibble
//! is the channel. Control-change messages (status `0xB0..=0xBF`) with a
//! controller number up to `0x77` carry `(channel, number, value)`; numbers
//! `0x78..=0x7F` are channel-mode messages and are classified `Unknown`.
//! System-exclusive messages (high nibble `0xF`) carry the bytes between the
//! leading status byte and a trailing `0xF7`, if one is present. Everything
//! else is `Unknown` with the raw bytes as payload.

use vstd::prelude::*;

verus! {

/// A decoded view of one raw MIDI message. Constructed per incoming message,
/// not retained.
#[derive(Debug, PartialEq, Eq)]
pub enum MidiMessage {
    Unknown(Vec<u8>),
    ControlChange { ch: u8, num: u8, value: u8 },
    SysEx(Vec<u8>),
}

/// The decoding failed: the input was empty or a control-change message was
/// truncated.
#[derive(Debug, PartialEq, Eq, Structural, Clone, Copy)]
pub struct MidiMessageParseError {}

/// Mathematical model of a decoded MIDI message, over byte sequences.
pub enum MidiModel {
    Unknown(Seq<u8>),
    ControlChange { ch: u8, num: u8, value: u8 },
    SysEx(Seq<u8>),
}

impl MidiMessage {
    /// The model a concrete message stands for.
    pub open spec fn model(self) -> MidiModel {
        match self {
            MidiMessage::Unknown(v) => MidiModel::Unknown(v@),
            MidiMessage::ControlChange { ch, num, value } => MidiModel::ControlChange {
                ch,
                num,
                value,
            },
            MidiMessage::SysEx(v) => MidiModel::SysEx(v@),
        }
    }
}

/// What a raw byte sequence decodes to: `None` exactly when decoding fails,
/// i.e. when the input is empty or a control-change message is truncated.
pub open spec fn decoded(bytes: Seq<u8>) -> Option<MidiModel> {
    if bytes.len() == 0 {
        None
    } else {
        let status = bytes[0];
        let kind = status & 0xF0;
        let ch = status & 0x0F;
        if kind == 0xB0 {
            if bytes.len() < 2 {
                None
            } else {
                let control = bytes[1];
                if control <= 0x77 {
                    if bytes.len() < 3 {
                        None
                    } else {
                        Some(MidiModel::ControlChange { ch, num: control, value: bytes[2] })
                    }
                } else {
                    Some(MidiModel::Unknown(bytes))
                }
            }
        } else if kind == 0xF0 {
            if bytes[bytes.len() - 1] == 0xF7 && bytes.len() >= 2 {
                Some(MidiModel::SysEx(bytes.subrange(1, bytes.len() - 1)))
            } else if bytes[bytes.len() - 1] == 0xF7 {
                Some(MidiModel::SysEx(Seq::empty()))
            } else {
                Some(MidiModel::SysEx(bytes.subrange(1, bytes.len() as int)))
            }
        } else {
            Some(MidiModel::Unknown(bytes))
        }
    }
}

/// The byte at `index`, or a parse error where the message is too short.
pub fn get_at(value: &[u8], index: usize) -> (r: Result<u8, MidiMessageParseError>)
    ensures
        index < value@.len() ==> r == Result::<u8, MidiMessageParseError>::Ok(value@[index as int]),
        index >= value@.len() ==> r == Result::<u8, MidiMessageParseError>::Err(
            MidiMessageParseError {  },
        ),
{
    if index < value.len() {
        Ok(value[index])
    } else {
        Err(MidiMessageParseError {  })
    }
}

/// The bytes of `value` from `from` (inclusive) to `to` (exclusive), copied
/// into a fresh vector.
fn slice_range_to_vec(value: &[u8], from: usize, to: usize) -> (r: Vec<u8>)
    requires
        from <= to <= value@.len(),
    ensures
        r@ == value@.subrange(from as int, to as int),
{
    let mut r: Vec<u8> = Vec::new();
    let mut i: usize = from;
    while i < to
        invariant
            from <= i <= to <= value@.len(),
            r@ == value@.subrange(from as int, i as int),
        decreases to - i,
    {
        r.push(value[i]);
        proof {
            assert(r@ =~= value@.subrange(from as int, i + 1 as int));
        }
        i = i + 1;
    }
    r
}

/// The whole of `value` copied into a fresh vector.
fn slice_to_vec(value: &[u8]) -> (r: Vec<u8>)
    ensures
        r@ == value@,
{
    let r = slice_range_to_vec(value, 0, value.len());
    proof {
        assert(value@.subrange(0, value@.len() as int) =~= value@);
    }
    r
}

impl MidiMessage {
    /// Decode one raw MIDI message. Fails exactly when [`decoded`] gives no
    /// model: on an empty input or a truncated control-change message.
    pub fn try_from(value: &[u8]) -> (r: Result<MidiMessage, MidiMessageParseError>)
        ensures
            match r {
                Ok(m) => decoded(value@) == Some(m.model()),
                Err(e) => decoded(value@) is None && e == (MidiMessageParseError {  }),
            },
    {
        let status = match get_at(value, 0) {
            Ok(b) => b,
            Err(e) => {
                return Err(e);
            },
        };
        let kind = status & 0xF0;
        let ch = status & 0x0F;
        if kind == 0xB0 {
            let control = match get_at(value, 1) {
                Ok(b) => b,
                Err(e) => {
                    return Err(e);
                },
            };
            if control <= 0x77 {
                let control_value = match get_at(value, 2) {
                    Ok(b) => b,
                    Err(e) => {
                        return Err(e);
                    },
                };
                Ok(MidiMessage::ControlChange { ch, num: control, value: control_value })
            } else {
                Ok(MidiMessage::Unknown(slice_to_vec(value)))
            }
        } else if kind == 0xF0 {
            if value[value.len() - 1] == 0xF7 && value.len() >= 2 {
                Ok(MidiMessage::SysEx(slice_range_to_vec(value, 1, value.len() - 1)))
            } else if value[value.len() - 1] == 0xF7 {
                let empty: Vec<u8> = Vec::new();
                Ok(MidiMessage::SysEx(empty))
            } else {
                Ok(MidiMessage::SysEx(slice_range_to_vec(value, 1, value.len())))
            }
        } else {
            Ok(MidiMessage::Unknown(slice_to_vec(value)))
        }
    }
}

/// The three bytes of a control-change message on `ch` for controller `num`
/// with value `value`: status `0xB0 | ch`, then the controller number, then
/// the value.
pub fn control_change_bytes(ch: u8, num: u8, value: u8) -> (r: Vec<u8>)
    requires
        ch <= 0x0F,
    ensures
        r@ == seq![(0xB0u8 | ch), num, value],
{
    let status: u8 = 0xB0u8 | ch;
    let mut r: Vec<u8> = Vec::new();
    r.push(status);
    r.push(num);
    r.push(value);
    proof {
        assert(r@ =~= seq![(0xB0u8 | ch), num, value]);
    }
    r
}

/// The feedback message that lights or clears the indicator bound to
/// controller `num`: value `0x7F` when lit, `0x00` when not.
pub fn led_bytes(num: u8, on: bool) -> (r: Vec<u8>)
    ensures
        r@ == seq![0xB0u8, num, if on { 0x7Fu8 } else { 0x00u8 }],
{
    proof {
        assert(0xB0u8 | 0u8 == 0xB0u8) by (bit_vector);
    }
    if on {
        control_change_bytes(0, num, 0x7F)
    } else {
        control_change_bytes(0, num, 0x00)
    }
}

} // verus!
