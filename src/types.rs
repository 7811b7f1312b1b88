//! Small value types of the counter's commands.
use vstd::prelude::*;

verus! {

/// An input channel of the counter.
#[derive(Clone, Copy, Debug, PartialEq, Eq, Structural, Hash)]
pub enum ChannelNo {
    Ch1,
    Ch2,
}

impl ChannelNo {
    /// The channel's number as commands write it.
    pub fn number(self) -> (r: u8)
        ensures
            r == match self {
                ChannelNo::Ch1 => 1u8,
                ChannelNo::Ch2 => 2u8,
            },
    {
        match self {
            ChannelNo::Ch1 => 1,
            ChannelNo::Ch2 => 2,
        }
    }
}

/// Where a measurement's trigger comes from.
#[derive(Clone, Copy, Debug, PartialEq, Eq, Structural)]
pub enum TriggerSource {
    Immediate,
    External,
    Bus,
}

impl TriggerSource {
    /// The source's mnemonic as `TRIG:SOUR` takes it.
    pub fn mnemonic(self) -> (r: &'static str)
        ensures
            r == match self {
                TriggerSource::Immediate => "IMM",
                TriggerSource::External => "EXT",
                TriggerSource::Bus => "BUS",
            },
    {
        match self {
            TriggerSource::Immediate => "IMM",
            TriggerSource::External => "EXT",
            TriggerSource::Bus => "BUS",
        }
    }
}

} // verus!
