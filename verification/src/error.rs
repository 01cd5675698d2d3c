//! Error codes shared between the pool operator and the on-ledger program.

use vstd::prelude::*;
use vstd::std_specs::convert::FromSpecImpl;

verus! {

/// A business-rule violation reported by the mining program.
#[derive(Clone, Copy, Debug, PartialEq, Eq, Structural)]
pub enum OreError {
    IsPaused,
    NeedsReset,
    ResetTooEarly,
    DifficultyInsufficient,
    BusRewardsInsufficient,
    ClaimTooLarge,
    ClockInvalid,
}

/// Why the program refused an instruction or an account handed to it.
#[derive(Clone, Copy, Debug, PartialEq, Eq, Structural)]
pub enum ProgramError {
    /// A program-specific error, carried by its numeric code.
    Custom(u32),
    InvalidInstructionData,
    InvalidAccountData,
    IncorrectProgramId,
    UninitializedAccount,
    NotEnoughAccountKeys,
    InvalidAccountOwner,
    ArithmeticOverflow,
}

impl OreError {
    /// The numeric code under which the variant travels in a custom program error.
    pub open spec fn spec_code(self) -> u32 {
        match self {
            OreError::IsPaused => 0,
            OreError::NeedsReset => 1,
            OreError::ResetTooEarly => 2,
            OreError::DifficultyInsufficient => 3,
            OreError::BusRewardsInsufficient => 4,
            OreError::ClaimTooLarge => 5,
            OreError::ClockInvalid => 6,
        }
    }

    /// The variant that travels under `code`, if there is one.
    pub open spec fn spec_from_code(code: u32) -> Option<OreError> {
        if code == 0 {
            Some(OreError::IsPaused)
        } else if code == 1 {
            Some(OreError::NeedsReset)
        } else if code == 2 {
            Some(OreError::ResetTooEarly)
        } else if code == 3 {
            Some(OreError::DifficultyInsufficient)
        } else if code == 4 {
            Some(OreError::BusRewardsInsufficient)
        } else if code == 5 {
            Some(OreError::ClaimTooLarge)
        } else if code == 6 {
            Some(OreError::ClockInvalid)
        } else {
            None
        }
    }

    /// The text shown to an operator.
    pub open spec fn spec_message(self) -> Seq<char> {
        match self {
            OreError::IsPaused => "Mining is paused"@,
            OreError::NeedsReset => "The epoch has ended and needs reset"@,
            OreError::ResetTooEarly => "The epoch is active and cannot be reset at this time"@,
            OreError::DifficultyInsufficient => "The provided hash did not satisfy the minimum required difficulty"@,
            OreError::BusRewardsInsufficient => "The bus does not have enough rewards to issue at this time"@,
            OreError::ClaimTooLarge => "The claim amount cannot be greater than the claimable rewards"@,
            OreError::ClockInvalid => "The clock time is invalid"@,
        }
    }

    #[verifier::when_used_as_spec(spec_code)]
    pub fn code(self) -> (c: u32)
        ensures
            c == self.spec_code(),
            OreError::spec_from_code(c) == Some(self),
    {
        match self {
            OreError::IsPaused => 0,
            OreError::NeedsReset => 1,
            OreError::ResetTooEarly => 2,
            OreError::DifficultyInsufficient => 3,
            OreError::BusRewardsInsufficient => 4,
            OreError::ClaimTooLarge => 5,
            OreError::ClockInvalid => 6,
        }
    }

    /// Reads a numeric code back into its variant.
    pub fn from_code(code: u32) -> (e: Option<OreError>)
        ensures
            e == OreError::spec_from_code(code),
            e matches Some(v) ==> v.spec_code() == code,
    {
        match code {
            0 => Some(OreError::IsPaused),
            1 => Some(OreError::NeedsReset),
            2 => Some(OreError::ResetTooEarly),
            3 => Some(OreError::DifficultyInsufficient),
            4 => Some(OreError::BusRewardsInsufficient),
            5 => Some(OreError::ClaimTooLarge),
            6 => Some(OreError::ClockInvalid),
            _ => None,
        }
    }

    /// The text shown to an operator.
    pub fn message(self) -> (m: &'static str)
        ensures
            m@ == self.spec_message(),
    {
        match self {
            OreError::IsPaused => "Mining is paused",
            OreError::NeedsReset => "The epoch has ended and needs reset",
            OreError::ResetTooEarly => "The epoch is active and cannot be reset at this time",
            OreError::DifficultyInsufficient => "The provided hash did not satisfy the minimum required difficulty",
            OreError::BusRewardsInsufficient => "The bus does not have enough rewards to issue at this time",
            OreError::ClaimTooLarge => "The claim amount cannot be greater than the claimable rewards",
            OreError::ClockInvalid => "The clock time is invalid",
        }
    }
}

impl From<OreError> for u32 {
    fn from(e: OreError) -> (c: u32) {
        e.code()
    }
}

impl FromSpecImpl<OreError> for u32 {
    open spec fn obeys_from_spec() -> bool {
        true
    }

    open spec fn from_spec(e: OreError) -> u32 {
        e.spec_code()
    }
}

impl From<OreError> for ProgramError {
    fn from(e: OreError) -> (p: ProgramError) {
        ProgramError::Custom(e.code())
    }
}

impl FromSpecImpl<OreError> for ProgramError {
    open spec fn obeys_from_spec() -> bool {
        true
    }

    open spec fn from_spec(e: OreError) -> ProgramError {
        ProgramError::Custom(e.spec_code())
    }
}

} // verus!
