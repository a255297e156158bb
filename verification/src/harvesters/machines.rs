//! The decisions of harvesters that have a state of their own.

use crate::bytes::{append_number, le_bytes};
use crate::text::same_text;
use vstd::prelude::*;

verus! {

/// Mouse moves of which one is used.
pub const MOVES_PER_SAMPLE: usize = 50;

/// What the mouse harvester remembers: how many moves it saw and when it last used one.
#[derive(Clone, Copy, PartialEq, Eq, Structural, Debug)]
pub struct MouseMachine {
    pub moves: usize,
    pub last_nanos: u64,
}

/// The time between two readings of the clock, modulo 2 to the 64.
pub open spec fn time_between(earlier: u64, later: u64) -> u64 {
    ((later - earlier) % 0x1_0000_0000_0000_0000) as u64
}

impl MouseMachine {
    /// Nothing was seen yet.
    pub fn new() -> (machine: MouseMachine)
        ensures
            machine == (MouseMachine { moves: 0, last_nanos: 0 }),
    {
        MouseMachine { moves: 0, last_nanos: 0 }
    }

    /// A move of the mouse. One in fifty is used: where the mouse is, as bits, and how long it took.
    pub fn moved(&mut self, x_bits: u64, y_bits: u64, nanos: u64) -> (payload: Option<Vec<u8>>)
        ensures
            final(self).moves == if old(self).moves == usize::MAX {
                0
            } else {
                (old(self).moves + 1) as usize
            },
            payload is Some <==> old(self).moves % MOVES_PER_SAMPLE == 0,
            payload matches Some(bytes) ==> bytes@ == le_bytes(x_bits) + le_bytes(y_bits)
                + le_bytes(time_between(old(self).last_nanos, nanos)),
            final(self).last_nanos == if payload is Some {
                nanos
            } else {
                old(self).last_nanos
            },
    {
        let count: usize = self.moves;
        self.moves = if count == usize::MAX {
            0
        } else {
            count + 1
        };
        if count % MOVES_PER_SAMPLE != 0 {
            return None;
        }
        let delta: u64 = nanos.wrapping_sub(self.last_nanos);
        assert(delta == time_between(self.last_nanos, nanos));
        self.last_nanos = nanos;
        let mut payload: Vec<u8> = Vec::new();
        append_number(&mut payload, x_bits);
        append_number(&mut payload, y_bits);
        append_number(&mut payload, delta);
        assert(payload@ =~= le_bytes(x_bits) + le_bytes(y_bits) + le_bytes(delta));
        Some(payload)
    }

    /// A press of a button. Each is used: how long it took and when it was.
    pub fn pressed(&mut self, nanos: u64) -> (payload: Vec<u8>)
        ensures
            *final(self) == (MouseMachine { last_nanos: nanos, ..*old(self) }),
            payload@ == le_bytes(time_between(old(self).last_nanos, nanos)) + le_bytes(nanos),
    {
        let delta: u64 = nanos.wrapping_sub(self.last_nanos);
        assert(delta == time_between(self.last_nanos, nanos));
        self.last_nanos = nanos;
        let mut payload: Vec<u8> = Vec::new();
        append_number(&mut payload, delta);
        append_number(&mut payload, nanos);
        assert(payload@ =~= le_bytes(delta) + le_bytes(nanos));
        payload
    }
}

/// The camera numbers that are tried, in their order: the chosen one and then the first three, or
/// the first four where none was chosen.
pub fn cameras_to_try(chosen: usize) -> (numbers: Vec<u32>)
    ensures
        numbers@ == if chosen > 0 {
            seq![chosen as u32, 0u32, 1u32, 2u32]
        } else {
            seq![0u32, 1u32, 2u32, 3u32]
        },
{
    let mut numbers: Vec<u32> = Vec::new();
    if chosen > 0 {
        numbers.push(chosen as u32);
        numbers.push(0);
        numbers.push(1);
        numbers.push(2);
        assert(numbers@ =~= seq![chosen as u32, 0u32, 1u32, 2u32]);
    } else {
        numbers.push(0);
        numbers.push(1);
        numbers.push(2);
        numbers.push(3);
        assert(numbers@ =~= seq![0u32, 1u32, 2u32, 3u32]);
    }
    numbers
}

/// What the serial harvester remembers: whether a port is open and which was opened last.
pub struct SerialMachine {
    pub open: bool,
    pub last_port: String,
}

/// What the serial harvester does next.
pub enum SerialStep {
    /// The port is closed and half a second is waited.
    SwitchedOff,
    /// There is no port; two seconds are waited.
    NoPort,
    /// This port is opened.
    Open { port: String },
    /// The open port is read.
    Read,
}

/// What reading a serial port gave.
#[derive(Clone, Copy, PartialEq, Eq, Structural, Debug)]
pub enum SerialOutcome {
    /// So many bytes, more than none.
    Bytes,
    /// Nothing, in time or not.
    Nothing,
    /// The port failed.
    Failed,
}

/// The port that is to be used: the chosen one, or else the first that there is, or else none.
pub open spec fn wanted_port(chosen: Seq<char>, first: Option<String>) -> Seq<char> {
    if chosen.len() > 0 {
        chosen
    } else {
        match first {
            Some(port) => port@,
            None => Seq::empty(),
        }
    }
}

impl SerialMachine {
    /// No port was opened yet.
    pub fn new() -> (machine: SerialMachine)
        ensures
            !machine.open,
            machine.last_port@.len() == 0,
    {
        SerialMachine { open: false, last_port: String::new() }
    }

    /// Decides what is done next. `first` is the first port that there is, which is looked for only
    /// where none is chosen.
    pub fn next(&mut self, enabled: bool, chosen: &str, first: Option<String>) -> (step: SerialStep)
        ensures
            ({
                let port = wanted_port(chosen@, first);
                if !enabled {
                    step is SwitchedOff && *final(self) == (SerialMachine {
                        open: false,
                        ..*old(self)
                    })
                } else if port.len() == 0 {
                    step is NoPort && *final(self) == *old(self)
                } else if port != old(self).last_port@ || !old(self).open {
                    &&& step matches SerialStep::Open { port: p } && p@ == port
                    &&& *final(self) == *old(self)
                } else {
                    step is Read && *final(self) == *old(self)
                }
            }),
    {
        if !enabled {
            self.open = false;
            return SerialStep::SwitchedOff;
        }
        let port: String = if !chosen.is_empty() {
            chosen.to_owned()
        } else {
            match first {
                Some(port) => port,
                None => String::new(),
            }
        };
        if port.as_str().is_empty() {
            return SerialStep::NoPort;
        }
        if !same_text(port.as_str(), self.last_port.as_str()) || !self.open {
            SerialStep::Open { port }
        } else {
            SerialStep::Read
        }
    }

    /// Takes note of whether a port could be opened.
    pub fn opened(&mut self, port: String, success: bool)
        ensures
            final(self).open == success,
            final(self).last_port == if success {
                port
            } else {
                old(self).last_port
            },
    {
        self.open = success;
        if success {
            self.last_port = port;
        }
    }

    /// Takes note of what reading gave, and tells whether the port is still open.
    pub fn read(&mut self, outcome: SerialOutcome) -> (open: bool)
        ensures
            open == final(self).open,
            *final(self) == (SerialMachine {
                open: old(self).open && outcome != SerialOutcome::Failed,
                ..*old(self)
            }),
    {
        if outcome == SerialOutcome::Failed {
            self.open = false;
        }
        self.open
    }
}

/// The time between two readings, added to the earlier one, gives the later one again, round the end
/// of the numbers where it must.
pub proof fn law_time_between_adds_up(earlier: u64, later: u64)
    ensures
        (earlier + time_between(earlier, later)) % 0x1_0000_0000_0000_0000 == later,
        later >= earlier ==> time_between(earlier, later) == later - earlier,
{
}

} // verus!
