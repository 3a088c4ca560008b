use vstd::prelude::*;

verus! {

/// Last-known electrical state of one power supply.
///
/// Voltage and current are carried as the IEEE-754 single-precision bit
/// patterns of the values the supply reported (volts and amps), so that the
/// registry passes them on exactly as read.
#[derive(Clone, Copy, Debug, PartialEq, Eq, Structural)]
pub struct DeviceState {
    pub voltage_bits: u32,
    pub current_bits: u32,
    pub power: bool,
}

impl DeviceState {
    /// The zero/off state every supply starts in.
    pub open spec fn off() -> DeviceState {
        DeviceState { voltage_bits: 0, current_bits: 0, power: false }
    }

    pub fn new(voltage_bits: u32, current_bits: u32, power: bool) -> (r: DeviceState)
        ensures
            r == (DeviceState { voltage_bits, current_bits, power }),
    {
        DeviceState { voltage_bits, current_bits, power }
    }
}

impl Default for DeviceState {
    fn default() -> (r: DeviceState)
        ensures
            r == DeviceState::off(),
    {
        DeviceState { voltage_bits: 0, current_bits: 0, power: false }
    }
}

/// Why a registry operation on one device did not succeed.
#[derive(Clone, Copy, Debug, PartialEq, Eq, Structural)]
pub enum DeviceError {
    /// No device of that name was registered.
    NotFound,
    /// The device's connection is lent out; wait for it to be returned.
    InUse,
    /// The supply did not carry out the command or could not be read.
    DriverError,
}

} // verus!
