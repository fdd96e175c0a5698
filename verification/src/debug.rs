use vstd::prelude::*;

verus! {

/// provides debugging output when enabled
#[derive(Debug, Copy, Clone, Eq, PartialEq, Structural)]
pub enum DebugLevel {
    /// 0 - disables debugging output
    Off,
    /// 1 - only output errors. Generally these are fatal to the functioning of the library
    Error,
    /// 2 - outputs warnings such as error found when checking a malformed tag attribute string or when unexpected problems are reported from the PLC
    Warn,
    /// 3 - outputs diagnostic information about the internal calls within the library. Includes some packet dumps
    Info,
    /// 4 - outputs detailed diagnostic information about the code executing within the library including packet dumps
    Detail,
    /// 5 - outputs extremely detailed information. Do not use this unless you are trying to debug detailed information about every mutex lock and release.
    Spew,
}

/// The number of a debug level.
pub open spec fn level_value(l: DebugLevel) -> u8 {
    match l {
        DebugLevel::Off => 0,
        DebugLevel::Error => 1,
        DebugLevel::Warn => 2,
        DebugLevel::Info => 3,
        DebugLevel::Detail => 4,
        DebugLevel::Spew => 5,
    }
}

/// The debug level of a number; numbers above 5 disable debugging output.
pub open spec fn level_of(v: u8) -> DebugLevel {
    if v == 1 {
        DebugLevel::Error
    } else if v == 2 {
        DebugLevel::Warn
    } else if v == 3 {
        DebugLevel::Info
    } else if v == 4 {
        DebugLevel::Detail
    } else if v == 5 {
        DebugLevel::Spew
    } else {
        DebugLevel::Off
    }
}

impl DebugLevel {
    /// the number of this level
    pub fn value(&self) -> (v: u8)
        ensures
            v == level_value(*self),
    {
        match self {
            DebugLevel::Off => 0,
            DebugLevel::Error => 1,
            DebugLevel::Warn => 2,
            DebugLevel::Info => 3,
            DebugLevel::Detail => 4,
            DebugLevel::Spew => 5,
        }
    }
}

impl From<u8> for DebugLevel {
    fn from(val: u8) -> (l: DebugLevel) {
        match val {
            0 => DebugLevel::Off,
            1 => DebugLevel::Error,
            2 => DebugLevel::Warn,
            3 => DebugLevel::Info,
            4 => DebugLevel::Detail,
            5 => DebugLevel::Spew,
            _ => DebugLevel::Off,
        }
    }
}

impl vstd::std_specs::convert::FromSpecImpl<u8> for DebugLevel {
    open spec fn obeys_from_spec() -> bool {
        true
    }

    open spec fn from_spec(v: u8) -> DebugLevel {
        level_of(v)
    }
}

/// Each level has the number libplctag gives it: 0 disables debugging
/// output, 1 errors only, 2 warnings, 3 diagnostics, 4 detailed diagnostics, 5
/// everything; every number above 5 reads as no output.
pub proof fn lemma_level_numbers(n: u8)
    ensures
        level_value(DebugLevel::Off) == 0,
        level_value(DebugLevel::Error) == 1,
        level_value(DebugLevel::Warn) == 2,
        level_value(DebugLevel::Info) == 3,
        level_value(DebugLevel::Detail) == 4,
        level_value(DebugLevel::Spew) == 5,
        n <= 5 ==> level_value(level_of(n)) == n,
        n > 5 ==> level_of(n) == DebugLevel::Off,
{
}

/// Reading back the number of a level gives the level.
pub proof fn lemma_level_round_trip(l: DebugLevel)
    ensures
        level_of(level_value(l)) == l,
{
}

/// The level read from the debug attribute of the library (`get_debug_level`):
/// the low byte of the attribute's value, read as a level.
pub fn debug_level_of_attr(v: i32) -> (l: DebugLevel)
    ensures
        l == level_of(v as u8),
{
    DebugLevel::from(v as u8)
}

} // verus!
