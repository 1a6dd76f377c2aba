use vstd::prelude::*;
use vstd::utf8::encode_utf8;

verus! {

/// An operation on the notebook.
#[derive(Debug, PartialEq, Eq, Clone)]
pub enum HelloWorldInstruction {
    /// Initializes the notebook with its content and its owner.
    Init { data: String, owner: String },
    /// Reads the notebook content.
    Read,
    /// Overwrites the notebook content, on behalf of `owner`.
    Write { data: String, owner: String },
}

/// An operation on the notebook, with its strings as character sequences.
pub ghost enum InstructionView {
    Init { data: Seq<char>, owner: Seq<char> },
    Read,
    Write { data: Seq<char>, owner: Seq<char> },
}

impl View for HelloWorldInstruction {
    type V = InstructionView;

    open spec fn view(&self) -> InstructionView {
        match self {
            HelloWorldInstruction::Init { data, owner } => InstructionView::Init {
                data: data@,
                owner: owner@,
            },
            HelloWorldInstruction::Read => InstructionView::Read,
            HelloWorldInstruction::Write { data, owner } => InstructionView::Write {
                data: data@,
                owner: owner@,
            },
        }
    }
}

impl InstructionView {
    /// Every string can be written with a four-byte length prefix.
    pub open spec fn fits(self) -> bool {
        match self {
            InstructionView::Init { data, owner } | InstructionView::Write { data, owner } => {
                encode_utf8(data).len() <= u32::MAX && encode_utf8(owner).len() <= u32::MAX
            },
            InstructionView::Read => true,
        }
    }
}

} // verus!
