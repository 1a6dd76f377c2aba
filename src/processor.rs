use vstd::prelude::*;

use crate::codec::{
    decode_instruction, decode_instruction_spec, decode_notebook, decode_notebook_spec,
    encode_notebook, notebook_bytes,
};
use crate::error::{CustomError, ProcessError};
use crate::instruction::{HelloWorldInstruction, InstructionView};
use crate::state::{data_length_ok, Notebook, NotebookView, CONTEXT_LENGTH_LIMIT};

verus! {

/// What an instruction does to a notebook: the notebook after it, or the fault.
pub open spec fn transition(n: NotebookView, i: InstructionView) -> Result<
    NotebookView,
    CustomError,
> {
    match i {
        InstructionView::Init { data, owner } => {
            if !data_length_ok(data) {
                Err(CustomError::LengthLimitError)
            } else if n.is_init {
                Err(CustomError::AuthorizationErrorDoubleInit)
            } else {
                Ok(NotebookView { data, owner, is_init: true })
            }
        },
        InstructionView::Read => Ok(n),
        InstructionView::Write { data, owner } => {
            if !data_length_ok(data) {
                Err(CustomError::LengthLimitError)
            } else if owner != n.owner {
                Err(CustomError::AuthorizationErrorNoWritePermission)
            } else {
                Ok(NotebookView { data, ..n })
            }
        },
    }
}

/// The account bytes after `bytes` are written over their start.
pub open spec fn write_back(account: Seq<u8>, bytes: Seq<u8>) -> Seq<u8> {
    bytes + account.skip(bytes.len() as int)
}

/// What processing an instruction does to the account bytes, and its outcome.
pub open spec fn process_spec(
    program_id: Seq<u8>,
    account_owner: Seq<u8>,
    account: Seq<u8>,
    instruction: Seq<u8>,
) -> (Seq<u8>, Result<(), ProcessError>) {
    if account_owner != program_id {
        (account, Err(ProcessError::IncorrectProgramId))
    } else {
        match decode_notebook_spec(account) {
            None => (account, Err(ProcessError::InvalidAccountData)),
            Some(n) => match decode_instruction_spec(instruction) {
                None => (account, Err(ProcessError::InvalidInstructionData)),
                Some(i) => {
                    let (m, res) = match transition(n, i) {
                        Ok(m) => (m, Ok(())),
                        Err(e) => (n, Err(ProcessError::Custom(e))),
                    };
                    let bytes = notebook_bytes(m);
                    if bytes.len() <= account.len() {
                        (write_back(account, bytes), res)
                    } else {
                        (account, Err(ProcessError::AccountDataTooSmall))
                    }
                },
            },
        }
    }
}

/// Whether the content is within the length limit, counted in UTF-8 bytes.
pub fn is_data_length_ok(data: &String) -> (r: bool)
    ensures
        r == data_length_ok(data@),
{
    data.as_str().as_bytes().len() <= CONTEXT_LENGTH_LIMIT as usize
}

/// Whether `owner` is the notebook's owner.
pub fn is_owner_ok(owner: &String, notebook_account: &Notebook) -> (r: bool)
    ensures
        r == (owner@ == notebook_account.owner@),
{
    owner.eq(&notebook_account.owner)
}

/// Initializes the notebook with `data` and `owner`.
pub fn init(notebook_account: &mut Notebook, data: &String, owner: &String) -> (r: Result<
    (),
    CustomError,
>)
    ensures
        match transition(old(notebook_account)@, InstructionView::Init { data: data@, owner: owner@ }) {
            Ok(m) => r is Ok && final(notebook_account)@ == m,
            Err(e) => r == Err::<(), CustomError>(e) && final(notebook_account)@ == old(notebook_account)@,
        },
{
    if !is_data_length_ok(data) {
        return Err(CustomError::LengthLimitError);
    }
    if notebook_account.is_init {
        return Err(CustomError::AuthorizationErrorDoubleInit);
    }
    notebook_account.owner = owner.clone();
    notebook_account.is_init = true;
    notebook_account.data = data.clone();
    Ok(())
}

/// Overwrites the notebook content on behalf of `owner`.
pub fn write(notebook_account: &mut Notebook, data: &String, owner: &String) -> (r: Result<
    (),
    CustomError,
>)
    ensures
        match transition(old(notebook_account)@, InstructionView::Write { data: data@, owner: owner@ }) {
            Ok(m) => r is Ok && final(notebook_account)@ == m,
            Err(e) => r == Err::<(), CustomError>(e) && final(notebook_account)@ == old(notebook_account)@,
        },
{
    if !is_data_length_ok(data) {
        return Err(CustomError::LengthLimitError);
    }
    if !is_owner_ok(owner, notebook_account) {
        return Err(CustomError::AuthorizationErrorNoWritePermission);
    }
    notebook_account.data = data.clone();
    Ok(())
}

/// Reads the notebook content.
pub fn read(notebook_account: &Notebook) -> (r: String)
    ensures
        r@ == notebook_account.data@,
{
    notebook_account.data.clone()
}

/// Applies one instruction to the notebook; on a fault the notebook is unchanged.
pub fn apply(notebook_account: &mut Notebook, instruction: &HelloWorldInstruction) -> (r: Result<
    (),
    CustomError,
>)
    ensures
        match transition(old(notebook_account)@, instruction@) {
            Ok(m) => r is Ok && final(notebook_account)@ == m,
            Err(e) => r == Err::<(), CustomError>(e) && final(notebook_account)@ == old(notebook_account)@,
        },
{
    match instruction {
        HelloWorldInstruction::Init { data, owner } => init(notebook_account, data, owner),
        HelloWorldInstruction::Read => {
            let _content = read(notebook_account);
            Ok(())
        },
        HelloWorldInstruction::Write { data, owner } => write(notebook_account, data, owner),
    }
}

/// Whether two 32-byte keys are equal.
fn same_key(a: &[u8; 32], b: &[u8; 32]) -> (r: bool)
    ensures
        r == (a@ == b@),
{
    let mut i: usize = 0;
    while i < 32
        invariant
            i <= 32,
            a@.len() == 32,
            b@.len() == 32,
            forall|j: int| 0 <= j < i ==> a@[j] == b@[j],
        decreases 32 - i,
    {
        if a[i] != b[i] {
            return false;
        }
        i = i + 1;
    }
    assert(a@ =~= b@);
    true
}

/// Writes `bytes` over the start of `account_data`.
fn store(account_data: &mut [u8], bytes: &Vec<u8>)
    requires
        bytes@.len() <= old(account_data)@.len(),
    ensures
        final(account_data)@ == write_back(old(account_data)@, bytes@),
{
    let mut i: usize = 0;
    while i < bytes.len()
        invariant
            i <= bytes@.len() <= account_data@.len(),
            account_data@.len() == old(account_data)@.len(),
            account_data@ == bytes@.subrange(0, i as int) + old(account_data)@.skip(i as int),
        decreases bytes@.len() - i,
    {
        account_data[i] = bytes[i];
        i = i + 1;
        assert(account_data@ =~= bytes@.subrange(0, i as int) + old(account_data)@.skip(
            i as int,
        ));
    }
    assert(bytes@.subrange(0, i as int) =~= bytes@);
}

/// Processes instructions against a notebook account.
pub struct Processor {}

impl Processor {
    /// Processes one instruction against the notebook stored in `account_data`.
    ///
    /// The account must be controlled by `program_id`. The notebook stored at the
    /// start of the account and the instruction are decoded, the instruction is
    /// applied, and the notebook is encoded back over the start of the account,
    /// also when the instruction faulted (the bytes then stay as they were).
    /// Bytes after the encoding are left in place; decoding ignores them. Where
    /// the encoding does not fit, the account is left as it was and that fault
    /// is returned.
    pub fn process_instruction(
        program_id: &[u8; 32],
        account_owner: &[u8; 32],
        account_data: &mut [u8],
        instruction_data: &[u8],
    ) -> (r: Result<(), ProcessError>)
        ensures
            (final(account_data)@, r) == process_spec(
                program_id@,
                account_owner@,
                old(account_data)@,
                instruction_data@,
            ),
    {
        if !same_key(account_owner, program_id) {
            return Err(ProcessError::IncorrectProgramId);
        }
        let mut notebook_account = match decode_notebook(account_data) {
            Some(n) => n,
            None => return Err(ProcessError::InvalidAccountData),
        };
        let instruction = match decode_instruction(instruction_data) {
            Some(i) => i,
            None => return Err(ProcessError::InvalidInstructionData),
        };
        let result = match apply(&mut notebook_account, &instruction) {
            Ok(()) => Ok(()),
            Err(e) => Err(ProcessError::Custom(e)),
        };
        let bytes = encode_notebook(&notebook_account);
        if bytes.len() > account_data.len() {
            return Err(ProcessError::AccountDataTooSmall);
        }
        store(account_data, &bytes);
        result
    }
}

} // verus!
