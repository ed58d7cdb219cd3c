use vstd::prelude::*;

verus! {

/// Terminal or transitional status of an engine operation. `code` gives the
/// numeric code exposed at the engine boundary.
#[derive(Clone, Copy, Debug, PartialEq, Eq, Structural)]
pub enum FasterStatus {
    OK,
    Pending,
    NotFound,
    OutOfMemory,
    IOError,
    Corruption,
    Aborted,
}

impl FasterStatus {
    /// Numeric code of this status at the engine boundary.
    pub open spec fn spec_code(self) -> u8 {
        match self {
            FasterStatus::OK => 0,
            FasterStatus::Pending => 1,
            FasterStatus::NotFound => 2,
            FasterStatus::OutOfMemory => 3,
            FasterStatus::IOError => 4,
            FasterStatus::Corruption => 5,
            FasterStatus::Aborted => 6,
        }
    }

    /// Returns the numeric status code.
    pub fn code(&self) -> (c: u8)
        ensures
            c == self.spec_code(),
    {
        match self {
            FasterStatus::OK => 0,
            FasterStatus::Pending => 1,
            FasterStatus::NotFound => 2,
            FasterStatus::OutOfMemory => 3,
            FasterStatus::IOError => 4,
            FasterStatus::Corruption => 5,
            FasterStatus::Aborted => 6,
        }
    }
}

} // verus!
