use vstd::prelude::*;
use vstd::utf8::encode_utf8;

verus! {

/// Largest number of bytes the notebook content may hold.
pub const CONTEXT_LENGTH_LIMIT: u32 = 100;

/// The persisted notebook record.
#[derive(Debug, PartialEq, Eq, Clone)]
pub struct Notebook {
    /// The notebook content.
    pub data: String,
    /// Who may write the notebook, as an identifier string.
    pub owner: String,
    /// Whether the notebook has been initialized.
    pub is_init: bool,
}

/// What a notebook holds, as character sequences.
pub ghost struct NotebookView {
    pub data: Seq<char>,
    pub owner: Seq<char>,
    pub is_init: bool,
}

impl View for Notebook {
    type V = NotebookView;

    open spec fn view(&self) -> NotebookView {
        NotebookView { data: self.data@, owner: self.owner@, is_init: self.is_init }
    }
}

/// Content whose UTF-8 length is within the limit.
pub open spec fn data_length_ok(data: Seq<char>) -> bool {
    encode_utf8(data).len() <= CONTEXT_LENGTH_LIMIT
}

impl NotebookView {
    /// Both strings can be written with a four-byte length prefix.
    pub open spec fn fits(self) -> bool {
        encode_utf8(self.data).len() <= u32::MAX && encode_utf8(self.owner).len() <= u32::MAX
    }
}

} // verus!
