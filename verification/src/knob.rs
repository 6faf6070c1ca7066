//! The rotary knob: how input moves its value, and how it is laid out.
use crate::bits::{bits_clamp, bits_le, clamped, is_nan, le, lt};
use crate::patch::Bits;
use vstd::prelude::*;

verus! {

/// A knob's value while a frame's input is taken in.
#[derive(Clone, Copy, Debug, PartialEq, Eq, Structural)]
pub struct KnobEdit {
    /// Current value.
    pub value: Bits,
    /// Smallest value.
    pub min: Bits,
    /// Largest value.
    pub max: Bits,
    /// Value that a double click resets to.
    pub default: Bits,
    /// Whether the value was changed in this frame.
    pub changed: bool,
}

/// What a frame's input asks of a knob.
#[derive(Clone, Copy, Debug, PartialEq, Eq, Structural)]
pub enum KnobInput {
    /// Reset to the default.
    Reset,
    /// Move to a value, by drag or by key.
    Move(Bits),
}

/// A knob after some input.
pub open spec fn turned(k: KnobEdit, input: KnobInput) -> KnobEdit {
    KnobEdit {
        value: match input {
            KnobInput::Reset => k.default,
            KnobInput::Move(v) => clamped(v, k.min, k.max),
        },
        changed: true,
        ..k
    }
}

/// Whether a value lies in a knob's range.
pub open spec fn in_range(k: KnobEdit, v: Bits) -> bool {
    le(k.min, v) && le(v, k.max)
}

impl KnobEdit {
    /// A knob before a frame's input.
    pub fn new(value: Bits, min: Bits, max: Bits, default: Bits) -> (k: Self)
        ensures
            k == (KnobEdit { value, min, max, default, changed: false }),
    {
        KnobEdit { value, min, max, default, changed: false }
    }

    /// Take in input. A move is held to the knob's range; a reset goes to the
    /// default as it is.
    pub fn turn(&mut self, input: KnobInput)
        requires
            input is Move ==> le(old(self).min, old(self).max),
        ensures
            *final(self) == turned(*old(self), input),
    {
        match input {
            KnobInput::Reset => {
                self.value = self.default;
            },
            KnobInput::Move(v) => {
                self.value = bits_clamp(v, self.min, self.max);
            },
        }
        self.changed = true;
    }
}

/// A knob whose default is in range stays in range, whatever is done to it.
pub proof fn knobs_stay_in_range(k: KnobEdit, input: KnobInput)
    requires
        le(k.min, k.max),
        in_range(k, k.default),
        input matches KnobInput::Move(v) ==> !is_nan(v),
    ensures
        in_range(turned(k, input), turned(k, input).value),
        turned(k, input).changed,
{
}

/// Whether a click or the start of a drag gives a knob the keyboard.
pub fn takes_focus(clicked: bool, drag_started: bool) -> (r: bool)
    ensures
        r == (clicked || drag_started),
{
    clicked || drag_started
}

/// Where a knob shows its value.
#[derive(Clone, Copy, Debug, PartialEq, Eq, Structural)]
pub enum ValuePlace {
    /// In the ring.
    Inside,
    /// Below the label.
    Below,
    /// Nowhere.
    Hidden,
}

/// Where a knob shows its value: in the ring wherever that is asked for.
pub fn value_place(value_inside: bool, show_value: bool) -> (p: ValuePlace)
    ensures
        p == (if value_inside {
            ValuePlace::Inside
        } else if show_value {
            ValuePlace::Below
        } else {
            ValuePlace::Hidden
        }),
{
    if value_inside {
        ValuePlace::Inside
    } else if show_value {
        ValuePlace::Below
    } else {
        ValuePlace::Hidden
    }
}

impl ValuePlace {
    /// Pixels below the ring: room for the label, and for the value if it stands
    /// below.
    pub fn room_below(&self) -> (px: u32)
        ensures
            px == (match self {
                ValuePlace::Inside => 18,
                ValuePlace::Below => 35,
                ValuePlace::Hidden => 20u32,
            }),
    {
        match self {
            ValuePlace::Inside => 18,
            ValuePlace::Below => 35,
            ValuePlace::Hidden => 20,
        }
    }
}

/// One thousand.
pub const BITS_THOUSAND: Bits = 0x447A_0000;

/// Whether a frequency or a time is shown in the larger unit, kilohertz or
/// seconds: from one thousand on.
pub fn in_larger_unit(v: Bits) -> (r: bool)
    ensures
        r == le(BITS_THOUSAND, v),
        v <= 0x7F80_0000 ==> r == (v >= 0x447A_0000),
{
    bits_le(BITS_THOUSAND, v)
}

/// What input does to a knob: a reset takes it to its default, a move to the value
/// that is asked for, or to the end of its range that is nearer to it.
pub proof fn what_input_does(k: KnobEdit, v: Bits)
    requires
        le(k.min, k.max),
    ensures
        turned(k, KnobInput::Reset).value == k.default,
        le(k.min, v) && le(v, k.max) ==> turned(k, KnobInput::Move(v)).value == v,
        lt(v, k.min) ==> turned(k, KnobInput::Move(v)).value == k.min,
        lt(k.max, v) ==> turned(k, KnobInput::Move(v)).value == k.max,
        turned(k, KnobInput::Move(v)).changed,
        turned(k, KnobInput::Move(v)).min == k.min,
        turned(k, KnobInput::Move(v)).max == k.max,
        turned(k, KnobInput::Move(v)).default == k.default,
{
}

} // verus!
