//! Laws of the notebook's transitions and of processing instructions.
use vstd::prelude::*;

use crate::codec::{
    decode_instruction_spec, decode_notebook_spec, lemma_notebook_decodes, notebook_bytes,
    occurs_at,
};
use crate::error::{CustomError, ProcessError};
use crate::instruction::InstructionView;
use crate::processor::{process_spec, transition, write_back};
use crate::state::{data_length_ok, NotebookView};

verus! {

/// `Init` on a notebook that is not initialized, with content within the limit,
/// succeeds and sets the content, the owner and the flag exactly as given.
pub proof fn init_uninitialized_succeeds(n: NotebookView, data: Seq<char>, owner: Seq<char>)
    requires
        !n.is_init,
        data_length_ok(data),
    ensures
        transition(n, InstructionView::Init { data, owner }) == Ok::<NotebookView, CustomError>(
            NotebookView { data, owner, is_init: true },
        ),
{
}

/// `Init` with content within the limit on a notebook that is already
/// initialized faults as a double initialization.
pub proof fn init_initialized_faults(n: NotebookView, data: Seq<char>, owner: Seq<char>)
    requires
        n.is_init,
        data_length_ok(data),
    ensures
        transition(n, InstructionView::Init { data, owner }) == Err::<NotebookView, CustomError>(
            CustomError::AuthorizationErrorDoubleInit,
        ),
{
}

/// `Write` with content over the limit faults on the length, whoever the writer is.
pub proof fn write_over_limit_faults(n: NotebookView, data: Seq<char>, owner: Seq<char>)
    requires
        !data_length_ok(data),
    ensures
        transition(n, InstructionView::Write { data, owner }) == Err::<NotebookView, CustomError>(
            CustomError::LengthLimitError,
        ),
{
}

/// `Write` with content within the limit: by anyone but the owner it faults on
/// the permission; by the owner it replaces the content and keeps the owner and
/// the flag.
pub proof fn write_checks_owner(n: NotebookView, data: Seq<char>, owner: Seq<char>)
    requires
        data_length_ok(data),
    ensures
        owner != n.owner ==> transition(n, InstructionView::Write { data, owner }) == Err::<
            NotebookView,
            CustomError,
        >(CustomError::AuthorizationErrorNoWritePermission),
        owner == n.owner ==> transition(n, InstructionView::Write { data, owner }) == Ok::<
            NotebookView,
            CustomError,
        >(NotebookView { data, owner: n.owner, is_init: n.is_init }),
{
}

/// `Read` succeeds and leaves any notebook as it is.
pub proof fn read_keeps_notebook(n: NotebookView)
    ensures
        transition(n, InstructionView::Read) == Ok::<NotebookView, CustomError>(n),
{
}

/// Processing an instruction that faults by the notebook's rules leaves the
/// account's bytes exactly as they were.
pub proof fn faulted_instruction_keeps_account(
    program_id: Seq<u8>,
    account: Seq<u8>,
    instruction: Seq<u8>,
)
    requires
        decode_notebook_spec(account) is Some,
        decode_instruction_spec(instruction) is Some,
        transition(decode_notebook_spec(account)->0, decode_instruction_spec(instruction)->0) is Err,
    ensures
        process_spec(program_id, program_id, account, instruction) == (
            account,
            Err::<(), ProcessError>(
                ProcessError::Custom(
                    transition(
                        decode_notebook_spec(account)->0,
                        decode_instruction_spec(instruction)->0,
                    )->Err_0,
                ),
            ),
        ),
{
    lemma_write_back_own_bytes(account);
}

/// Processing a `Read` succeeds and leaves the account's bytes exactly as they were.
pub proof fn read_keeps_account(program_id: Seq<u8>, account: Seq<u8>, instruction: Seq<u8>)
    requires
        decode_notebook_spec(account) is Some,
        decode_instruction_spec(instruction) == Some(InstructionView::Read),
    ensures
        process_spec(program_id, program_id, account, instruction) == (
            account,
            Ok::<(), ProcessError>(()),
        ),
{
    lemma_write_back_own_bytes(account);
}

/// Writing back the notebook that the account's bytes start with changes no byte.
proof fn lemma_write_back_own_bytes(account: Seq<u8>)
    requires
        decode_notebook_spec(account) is Some,
    ensures
        write_back(account, notebook_bytes(decode_notebook_spec(account)->0)) == account,
{
    let e = notebook_bytes(decode_notebook_spec(account)->0);
    assert(account.subrange(0, e.len() as int) == e);
    assert(write_back(account, e) =~= account);
}

/// Bytes written back over the start of an account decode to the notebook written.
proof fn lemma_write_back_decodes(account: Seq<u8>, m: NotebookView)
    requires
        m.fits(),
        notebook_bytes(m).len() <= account.len(),
    ensures
        decode_notebook_spec(write_back(account, notebook_bytes(m))) == Some(m),
{
    let e = notebook_bytes(m);
    let w = write_back(account, e);
    assert(w.subrange(0, e.len() as int) =~= e);
    assert(occurs_at(w, 0, e));
    lemma_notebook_decodes(w, m);
}

/// Processing any instruction against an account that holds a notebook leaves
/// it holding a notebook: on a fault the bytes are exactly as they were, and on
/// success they decode to the notebook after the instruction.
pub proof fn processing_keeps_account_readable(
    program_id: Seq<u8>,
    account_owner: Seq<u8>,
    account: Seq<u8>,
    instruction: Seq<u8>,
)
    requires
        decode_notebook_spec(account) is Some,
    ensures
        ({
            let (after, r) = process_spec(program_id, account_owner, account, instruction);
            &&& r is Err ==> after == account
            &&& r is Ok ==> decode_instruction_spec(instruction) is Some && transition(
                decode_notebook_spec(account)->0,
                decode_instruction_spec(instruction)->0,
            ) is Ok && decode_notebook_spec(after) == Some(
                transition(
                    decode_notebook_spec(account)->0,
                    decode_instruction_spec(instruction)->0,
                )->Ok_0,
            )
        }),
{
    lemma_write_back_own_bytes(account);
    if account_owner == program_id && decode_instruction_spec(instruction) is Some {
        let n = decode_notebook_spec(account)->0;
        let i = decode_instruction_spec(instruction)->0;
        if transition(n, i) is Ok {
            let m = transition(n, i)->Ok_0;
            if notebook_bytes(m).len() <= account.len() {
                lemma_write_back_decodes(account, m);
            }
        }
    }
}

/// Once a notebook is initialized, processing any instruction leaves the
/// account holding an initialized notebook with the same owner.
pub proof fn initialized_keeps_owner(
    program_id: Seq<u8>,
    account_owner: Seq<u8>,
    account: Seq<u8>,
    instruction: Seq<u8>,
)
    requires
        decode_notebook_spec(account) is Some,
        decode_notebook_spec(account)->0.is_init,
    ensures
        ({
            let after = process_spec(program_id, account_owner, account, instruction).0;
            &&& decode_notebook_spec(after) is Some
            &&& decode_notebook_spec(after)->0.is_init
            &&& decode_notebook_spec(after)->0.owner == decode_notebook_spec(account)->0.owner
        }),
{
    processing_keeps_account_readable(program_id, account_owner, account, instruction);
}

} // verus!
