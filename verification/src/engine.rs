//! Errors of the execution engine and the state through which compiled
//! code reports a runtime error.
use vstd::prelude::*;
use crate::model::verification::VerifyError;
use crate::model::class::str_equal;
use crate::optimization::register_allocation::linear_scan::Settings;

verus! {

#[derive(Debug, PartialEq, Eq)]
pub enum ExecutionEngineError {
    Verify(VerifyError),
    NoMainFunction,
    NoMainFunctionCompiled,
    Runtime(RuntimeError),
    Other(String),
}

/// An error that compiled code detects at run time.
#[derive(Clone, Copy, Debug, PartialEq, Eq, Structural)]
pub enum RuntimeError {
    NullReference,
    ArrayCreate,
    ArrayBounds,
}

/// The runtime error that compiled code raised, if any, and where to
/// return to when it does.
pub struct RuntimeErrorManager {
    pub has_error: Option<RuntimeError>,
    pub return_address: u64,
    pub base_pointer: u64,
    pub stack_pointer: u64,
}

impl RuntimeErrorManager {
    pub fn new() -> (r: RuntimeErrorManager)
        ensures
            r.has_error is None,
            r.return_address == 0,
            r.base_pointer == 0,
            r.stack_pointer == 0,
    {
        RuntimeErrorManager { has_error: None, return_address: 0, base_pointer: 0, stack_pointer: 0 }
    }
}

/// How the compiler treats registers: whether it allocates hardware
/// registers, and how many of each file.
pub struct JitSettings {
    pub register_allocate: bool,
    pub register_allocation: Settings,
}

/// The settings for a test profile: by default, and under profiles other
/// than those below, registers are allocated with two of each file;
/// profile `2` allocates none; `3` allocates with no registers (everything
/// spills); `4` with one of each file; `5` with three of each.
pub open spec fn profile_settings(profile: Option<Seq<char>>) -> (bool, usize, usize) {
    match profile {
        Some(p) => if p == "2"@ {
            (false, 0, 0)
        } else if p == "3"@ {
            (true, 0, 0)
        } else if p == "4"@ {
            (true, 1, 1)
        } else if p == "5"@ {
            (true, 3, 3)
        } else {
            (true, 2, 2)
        },
        None => (true, 2, 2),
    }
}

/// The settings of the compiler for the test profile named by the
/// environment, if any (see [`profile_settings`]).
pub fn jit_settings_for_profile(profile: Option<&str>) -> (r: JitSettings)
    ensures
        (r.register_allocate, r.register_allocation.num_int_registers, r.register_allocation.num_float_registers)
            == profile_settings(match profile {
            Some(p) => Some(p@),
            None => None,
        }),
{
    let mut settings = JitSettings {
        register_allocate: true,
        register_allocation: Settings { num_int_registers: 2, num_float_registers: 2 },
    };
    match profile {
        Some(test_profile) => {
            if str_equal(test_profile, "2") {
                settings = JitSettings {
                    register_allocate: false,
                    register_allocation: Settings { num_int_registers: 0, num_float_registers: 0 },
                };
            } else if str_equal(test_profile, "3") {
                settings = JitSettings {
                    register_allocate: true,
                    register_allocation: Settings { num_int_registers: 0, num_float_registers: 0 },
                };
            } else if str_equal(test_profile, "4") {
                settings = JitSettings {
                    register_allocate: true,
                    register_allocation: Settings { num_int_registers: 1, num_float_registers: 1 },
                };
            } else if str_equal(test_profile, "5") {
                settings = JitSettings {
                    register_allocate: true,
                    register_allocation: Settings { num_int_registers: 3, num_float_registers: 3 },
                };
            }
        },
        None => {},
    }
    settings
}

} // verus!
