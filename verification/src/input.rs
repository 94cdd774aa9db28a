use vstd::prelude::*;
use crate::time::Time;

verus! {

pub const EV_SYN: u16 = 0x00;
pub const EV_KEY: u16 = 0x01;
pub const EV_REL: u16 = 0x02;
pub const EV_ABS: u16 = 0x03;
pub const EV_MSC: u16 = 0x04;
pub const EV_SW: u16 = 0x05;
pub const EV_LED: u16 = 0x11;
pub const EV_SND: u16 = 0x12;
pub const EV_REP: u16 = 0x14;
pub const EV_FF: u16 = 0x15;
pub const EV_PWR: u16 = 0x16;
pub const EV_FF_STATUS: u16 = 0x17;
pub const EV_MAX: u16 = 0x1f;
pub const EV_CNT: u16 = EV_MAX + 1;

/// An input event: when it happened, its type, code and value.
#[derive(Clone, Copy, Debug)]
pub struct InputEvent {
    _time: Time,
    _type: u16,
    _code: u16,
    _value: i32,
}

impl InputEvent {
    /// The time stamp of the event.
    pub closed spec fn time(&self) -> Time {
        self._time
    }

    /// The type of the event.
    pub closed spec fn spec_type(&self) -> u16 {
        self._type
    }

    /// The code of the event.
    pub closed spec fn code(&self) -> u16 {
        self._code
    }

    /// The value of the event.
    pub closed spec fn value(&self) -> i32 {
        self._value
    }

    /// An event of the given type, code and value, stamped with `now`, the
    /// system time when it was read.
    pub fn new(_type: u16, _code: u16, _value: i32, now: Time) -> (e: Self)
        ensures
            e.spec_type() == _type,
            e.code() == _code,
            e.value() == _value,
            e.time() == now,
    {
        InputEvent { _time: now, _type, _code, _value }
    }

    /// The type of the event.
    pub fn get_type(&self) -> (t: u16)
        ensures
            t == self.spec_type(),
    {
        self._type
    }

    /// The code of the event.
    pub fn get_code(&self) -> (c: u16)
        ensures
            c == self.code(),
    {
        self._code
    }

    /// The value of the event.
    pub fn get_value(&self) -> (v: i32)
        ensures
            v == self.value(),
    {
        self._value
    }
}

} // verus!
