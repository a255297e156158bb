//! The screening of a harvester's readings by the health tests.

use crate::crypto::os_random;
use crate::entropy::health::{state_text, NistHealthTester};
use vstd::prelude::*;

verus! {

/// Bytes that are drawn from the operating system at a time.
pub const TRNG_BATCH: usize = 1024;

/// When a harvester reports the state of its health tests.
#[derive(Clone, Copy, PartialEq, Eq, Structural, Debug)]
pub enum Reporting {
    /// After every reading.
    Always,
    /// After a reading of which something passed.
    WhenPassed,
    /// Not at all.
    Never,
}

/// What became of a reading.
pub struct Screened {
    /// The samples that passed, if any did.
    pub passed: Option<Vec<u8>>,
    /// The state of the health tests, where it is to be reported.
    pub report: Option<&'static str>,
}

/// Puts a reading through the health tests.
pub fn screen(tester: &mut NistHealthTester, data: &[u8], reporting: Reporting) -> (screened:
    Screened)
    requires
        old(tester).wf(),
        old(tester)@.has_room(data@.len()),
    ensures
        final(tester).wf(),
        final(tester)@ == old(tester)@.processed(data@).0,
        ({
            let passed = old(tester)@.processed(data@).1;
            &&& screened.passed is Some <==> passed.len() > 0
            &&& screened.passed matches Some(bytes) ==> bytes@ == passed
            &&& screened.report is Some <==> reporting == Reporting::Always || (reporting
                == Reporting::WhenPassed && passed.len() > 0)
            &&& screened.report matches Some(text) ==> text@ == state_text(final(tester)@.state)
        }),
{
    let passed: Vec<u8> = tester.process_batch(data);
    let some: bool = passed.len() > 0;
    let report: Option<&'static str> = if reporting == Reporting::Always || (reporting
        == Reporting::WhenPassed && some) {
        Some(tester.state_name())
    } else {
        None
    };
    Screened {
        passed: if some {
            Some(passed)
        } else {
            None
        },
        report,
    }
}

/// Draws a reading from the random number generator of the operating system.
pub fn trng_reading() -> (data: Vec<u8>)
    ensures
        data@.len() == TRNG_BATCH,
{
    os_random(TRNG_BATCH)
}

} // verus!
