use vstd::prelude::*;

verus! {

/// The faults of the notebook's own rules.
#[derive(Debug, Clone, Copy, PartialEq, Eq)]
pub enum CustomError {
    /// The content is longer than the limit.
    LengthLimitError,
    /// `Init` on a notebook that is already initialized.
    AuthorizationErrorDoubleInit,
    /// `Write` by someone other than the notebook's owner.
    AuthorizationErrorNoWritePermission,
}

/// The code under which the host reports each fault of the notebook's rules.
pub open spec fn custom_code(e: CustomError) -> u32 {
    match e {
        CustomError::LengthLimitError => 1,
        CustomError::AuthorizationErrorDoubleInit => 2,
        CustomError::AuthorizationErrorNoWritePermission => 3,
    }
}

impl CustomError {
    /// The code under which the host reports this fault.
    pub fn code(&self) -> (r: u32)
        ensures
            r == custom_code(*self),
    {
        match self {
            CustomError::LengthLimitError => 1,
            CustomError::AuthorizationErrorDoubleInit => 2,
            CustomError::AuthorizationErrorNoWritePermission => 3,
        }
    }
}

/// Every fault that processing an instruction can end in.
#[derive(Debug, Clone, Copy, PartialEq, Eq)]
pub enum ProcessError {
    /// The account is not controlled by this program.
    IncorrectProgramId,
    /// The account's bytes do not encode a notebook.
    InvalidAccountData,
    /// The instruction's bytes do not encode an instruction.
    InvalidInstructionData,
    /// The updated notebook does not fit in the account.
    AccountDataTooSmall,
    /// A fault of the notebook's own rules.
    Custom(CustomError),
}

} // verus!
