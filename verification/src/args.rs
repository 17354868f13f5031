//! The command line's values and the bounds that they must keep.

use vstd::prelude::*;
use vstd::string::*;

verus! {

/// The highest port number.
pub const MAX: u16 = 65535;

/// The port at which a sweep starts when none is given.
pub const FIRST: u16 = 1;

/// Whether `input` may start a sweep: it must be greater than 0.
pub fn start_port_guard(input: &u16) -> (ok: bool)
    ensures
        ok == (*input > 0),
{
    *input > 0
}

/// Whether `input` may end a sweep: it must not exceed `MAX`, which holds of
/// every 16-bit value.
pub fn end_port_guard(input: &u16) -> (ok: bool)
    ensures
        ok == (*input <= MAX),
        ok,
{
    *input <= MAX
}

/// What one run sweeps: the ports from `start_port` up to, and without,
/// `end_port` at `address`, which is held as the text of an IP address.
#[derive(Debug, Clone)]
pub struct Arguments {
    pub address: String,
    pub start_port: u16,
    pub end_port: u16,
}

impl Arguments {
    /// Both port bounds pass their guards.
    pub open spec fn accepted(self) -> bool {
        self.start_port > 0 && self.end_port <= MAX
    }

    /// Tests the two port bounds against their guards.
    pub fn is_accepted(&self) -> (ok: bool)
        ensures
            ok == self.accepted(),
    {
        start_port_guard(&self.start_port) && end_port_guard(&self.end_port)
    }
}

impl Default for Arguments {
    /// The loopback address and every port from `FIRST` up to `MAX`.
    fn default() -> (r: Arguments)
        ensures
            r.address@ == "127.0.0.1"@,
            r.start_port == FIRST,
            r.end_port == MAX,
            r.accepted(),
    {
        Arguments { address: String::from_str("127.0.0.1"), start_port: FIRST, end_port: MAX }
    }
}

} // verus!
