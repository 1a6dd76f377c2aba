//! Byte layout shared by the notebook record and the instructions: a string is a
//! four-byte little-endian length followed by its UTF-8 bytes, a flag is one byte
//! (0 or 1), and fields follow one another in declaration order.
use vstd::prelude::*;
use vstd::arithmetic::div_mod::lemma_fundamental_div_mod_converse;
use vstd::utf8::*;

use crate::instruction::{HelloWorldInstruction, InstructionView};
use crate::state::{Notebook, NotebookView};

verus! {

/// The four little-endian bytes of `n`.
pub open spec fn u32_le_bytes(n: nat) -> Seq<u8> {
    seq![
        (n % 256) as u8,
        (n / 256 % 256) as u8,
        (n / 256 / 256 % 256) as u8,
        (n / 256 / 256 / 256 % 256) as u8,
    ]
}

/// The number that four little-endian bytes stand for.
pub open spec fn u32_le_value(b: Seq<u8>) -> nat {
    (b[0] + 256 * (b[1] + 256 * (b[2] + 256 * b[3]))) as nat
}

/// A string whose UTF-8 length can be written in the four-byte prefix.
pub open spec fn string_fits(s: Seq<char>) -> bool {
    encode_utf8(s).len() <= u32::MAX
}

/// The encoding of a string: its UTF-8 length, then its UTF-8 bytes.
pub open spec fn string_bytes(s: Seq<char>) -> Seq<u8> {
    u32_le_bytes(encode_utf8(s).len()) + encode_utf8(s)
}

/// The one-byte encoding of a flag.
pub open spec fn bool_byte(b: bool) -> u8 {
    if b {
        1u8
    } else {
        0u8
    }
}

/// `p` stands in `b` from position `pos` on.
pub open spec fn occurs_at(b: Seq<u8>, pos: int, p: Seq<u8>) -> bool {
    0 <= pos && pos + p.len() <= b.len() && b.subrange(pos, pos + p.len()) == p
}

pub proof fn lemma_u32_le_value_of_bytes(n: nat)
    requires
        n <= u32::MAX,
    ensures
        u32_le_value(u32_le_bytes(n)) == n,
{
}

pub proof fn lemma_u32_le_bytes_of_value(b: Seq<u8>)
    requires
        b.len() == 4,
    ensures
        u32_le_bytes(u32_le_value(b)) == b,
{
    let r2: int = b[2] + 256 * b[3];
    let r1: int = b[1] + 256 * r2;
    let v: int = b[0] + 256 * r1;
    lemma_fundamental_div_mod_converse(v, 256, r1, b[0] as int);
    lemma_fundamental_div_mod_converse(r1, 256, r2, b[1] as int);
    lemma_fundamental_div_mod_converse(r2, 256, b[3] as int, b[2] as int);
    lemma_fundamental_div_mod_converse(b[3] as int, 256, 0, b[3] as int);
    assert(u32_le_bytes(u32_le_value(b)) =~= b);
}

/// Two encoded strings that both stand at one position are the same string.
pub proof fn lemma_string_bytes_unique(b: Seq<u8>, pos: int, s: Seq<char>, t: Seq<char>)
    requires
        string_fits(s),
        string_fits(t),
        occurs_at(b, pos, string_bytes(s)),
        occurs_at(b, pos, string_bytes(t)),
    ensures
        s == t,
{
    broadcast use encode_utf8_decode_utf8;

    let es = encode_utf8(s);
    let et = encode_utf8(t);
    assert(b.subrange(pos, pos + 4) == u32_le_bytes(es.len())) by {
        assert(string_bytes(s).subrange(0, 4) =~= u32_le_bytes(es.len()));
        assert(b.subrange(pos, pos + 4) =~= string_bytes(s).subrange(0, 4));
    }
    assert(b.subrange(pos, pos + 4) == u32_le_bytes(et.len())) by {
        assert(string_bytes(t).subrange(0, 4) =~= u32_le_bytes(et.len()));
        assert(b.subrange(pos, pos + 4) =~= string_bytes(t).subrange(0, 4));
    }
    lemma_u32_le_value_of_bytes(es.len());
    lemma_u32_le_value_of_bytes(et.len());
    assert(es.len() == et.len());
    assert(es =~= b.subrange(pos + 4, pos + 4 + es.len())) by {
        assert(string_bytes(s).subrange(4, 4 + es.len() as int) =~= es);
    }
    assert(et =~= b.subrange(pos + 4, pos + 4 + et.len())) by {
        assert(string_bytes(t).subrange(4, 4 + et.len() as int) =~= et);
    }
    assert(decode_utf8(es) == s);
    assert(decode_utf8(et) == t);
}

/// Relies on `String::from_utf8`: it accepts exactly the valid UTF-8 byte
/// sequences, and the string it returns holds the characters they encode.
#[verifier::external_body]
fn string_from_utf8(bytes: Vec<u8>) -> (r: Option<String>)
    ensures
        r is Some <==> valid_utf8(bytes@),
        r is Some ==> r->0@ == decode_utf8(bytes@),
{
    String::from_utf8(bytes).ok()
}

/// Appends the little-endian bytes of `n`.
pub fn push_u32_le(out: &mut Vec<u8>, n: u32)
    ensures
        final(out)@ == old(out)@ + u32_le_bytes(n as nat),
{
    let a: u32 = n / 256;
    let b: u32 = a / 256;
    let c: u32 = b / 256;
    out.push((n % 256) as u8);
    out.push((a % 256) as u8);
    out.push((b % 256) as u8);
    out.push((c % 256) as u8);
    assert(final(out)@ =~= old(out)@ + u32_le_bytes(n as nat));
}

/// Reads the little-endian number that starts at `pos`, if four bytes are left.
pub fn read_u32_le(b: &[u8], pos: usize) -> (r: Option<u32>)
    ensures
        r is Some <==> pos + 4 <= b@.len(),
        r is Some ==> r->0 as nat == u32_le_value(b@.subrange(pos as int, pos + 4)),
{
    if pos > b.len() || b.len() - pos < 4 {
        return None;
    }
    let b0: u32 = b[pos] as u32;
    let b1: u32 = b[pos + 1] as u32;
    let b2: u32 = b[pos + 2] as u32;
    let b3: u32 = b[pos + 3] as u32;
    let v: u32 = b0 + 256 * (b1 + 256 * (b2 + 256 * b3));
    Some(v)
}

/// Appends the encoding of `s`.
pub fn push_string(out: &mut Vec<u8>, s: &String)
    requires
        string_fits(s@),
    ensures
        final(out)@ == old(out)@ + string_bytes(s@),
{
    let bytes: &[u8] = s.as_str().as_bytes();
    push_u32_le(out, bytes.len() as u32);
    let ghost start = out@;
    let mut i: usize = 0;
    while i < bytes.len()
        invariant
            bytes@ == encode_utf8(s@),
            i <= bytes@.len(),
            out@ == start + bytes@.subrange(0, i as int),
        decreases bytes@.len() - i,
    {
        out.push(bytes[i]);
        i = i + 1;
        assert(out@ =~= start + bytes@.subrange(0, i as int));
    }
    assert(bytes@.subrange(0, i as int) =~= bytes@);
    assert(final(out)@ =~= old(out)@ + string_bytes(s@));
}

/// Reads the encoded string that starts at `pos`; returns it with the position
/// just past it, or `None` where no encoded string stands there.
pub fn read_string(b: &[u8], pos: usize) -> (r: Option<(String, usize)>)
    ensures
        match r {
            Some((s, end)) => string_fits(s@) && end == pos + string_bytes(s@).len()
                && occurs_at(b@, pos as int, string_bytes(s@)),
            None => forall|s: Seq<char>|
                string_fits(s) ==> !occurs_at(b@, pos as int, #[trigger] string_bytes(s)),
        },
{
    let len = match read_u32_le(b, pos) {
        Some(n) => n,
        None => {
            assert forall|s: Seq<char>| string_fits(s) implies !occurs_at(
                b@,
                pos as int,
                #[trigger] string_bytes(s),
            ) by {}
            return None;
        },
    };
    let blen: usize = b.len();
    assert(pos + 4 <= blen);
    let start: usize = pos + 4;
    if blen - start < len as usize {
        assert forall|s: Seq<char>| string_fits(s) implies !occurs_at(
            b@,
            pos as int,
            #[trigger] string_bytes(s),
        ) by {
            if occurs_at(b@, pos as int, string_bytes(s)) {
                lemma_prefix_len(b@, pos as int, s);
            }
        }
        return None;
    }
    let end: usize = start + len as usize;
    let mut v: Vec<u8> = Vec::new();
    let mut i: usize = start;
    while i < end
        invariant
            start <= i <= end <= b@.len(),
            v@ == b@.subrange(start as int, i as int),
        decreases end - i,
    {
        v.push(b[i]);
        i = i + 1;
        assert(v@ =~= b@.subrange(start as int, i as int));
    }
    let ghost body = v@;
    broadcast use {encode_utf8_valid_utf8, decode_utf8_encode_utf8};

    match string_from_utf8(v) {
        Some(s) => {
            proof {
                assert(encode_utf8(s@) == body);
                lemma_u32_le_bytes_of_value(b@.subrange(pos as int, pos + 4));
                assert(b@.subrange(pos as int, end as int) =~= string_bytes(s@));
            }
            Some((s, end))
        },
        None => {
            assert forall|s: Seq<char>| string_fits(s) implies !occurs_at(
                b@,
                pos as int,
                #[trigger] string_bytes(s),
            ) by {
                if occurs_at(b@, pos as int, string_bytes(s)) {
                    lemma_prefix_len(b@, pos as int, s);
                    assert(body =~= encode_utf8(s)) by {
                        assert(string_bytes(s).subrange(4, string_bytes(s).len() as int)
                            =~= encode_utf8(s));
                    }
                }
            }
            None
        },
    }
}

/// An encoded string standing at `pos` carries its UTF-8 length in the four bytes there.
proof fn lemma_prefix_len(b: Seq<u8>, pos: int, s: Seq<char>)
    requires
        string_fits(s),
        occurs_at(b, pos, string_bytes(s)),
    ensures
        u32_le_value(b.subrange(pos, pos + 4)) == encode_utf8(s).len(),
        pos + 4 + encode_utf8(s).len() <= b.len(),
        b.subrange(pos + 4, pos + 4 + encode_utf8(s).len()) == encode_utf8(s),
{
    let es = encode_utf8(s);
    assert(b.subrange(pos, pos + 4) =~= u32_le_bytes(es.len())) by {
        assert(string_bytes(s).subrange(0, 4) =~= u32_le_bytes(es.len()));
        assert(b.subrange(pos, pos + 4) =~= string_bytes(s).subrange(0, 4));
    }
    lemma_u32_le_value_of_bytes(es.len());
    assert(b.subrange(pos + 4, pos + 4 + es.len()) =~= es) by {
        assert(string_bytes(s).subrange(4, 4 + es.len() as int) =~= es);
    }
}

/// The encoding of a notebook: content, owner, then the initialization flag.
pub open spec fn notebook_bytes(n: NotebookView) -> Seq<u8> {
    string_bytes(n.data) + string_bytes(n.owner) + seq![bool_byte(n.is_init)]
}

/// The notebook encoded at the start of `b`, if one is; bytes after it are ignored.
pub open spec fn decode_notebook_spec(b: Seq<u8>) -> Option<NotebookView> {
    if exists|n: NotebookView| n.fits() && occurs_at(b, 0, notebook_bytes(n)) {
        Some(choose|n: NotebookView| n.fits() && occurs_at(b, 0, notebook_bytes(n)))
    } else {
        None
    }
}

/// Where a notebook is encoded at the start of `b`, its parts stand there one after another.
proof fn lemma_notebook_parts(b: Seq<u8>, n: NotebookView)
    requires
        occurs_at(b, 0, notebook_bytes(n)),
    ensures
        occurs_at(b, 0, string_bytes(n.data)),
        occurs_at(b, string_bytes(n.data).len() as int, string_bytes(n.owner)),
        string_bytes(n.data).len() + string_bytes(n.owner).len() < b.len(),
        b[string_bytes(n.data).len() + string_bytes(n.owner).len() as int] == bool_byte(n.is_init),
{
    let e = notebook_bytes(n);
    let l1 = string_bytes(n.data).len() as int;
    let l2 = string_bytes(n.owner).len() as int;
    assert(b.subrange(0, e.len() as int) == e);
    assert(b.subrange(0, l1) =~= e.subrange(0, l1));
    assert(e.subrange(0, l1) =~= string_bytes(n.data));
    assert(b.subrange(l1, l1 + l2) =~= e.subrange(l1, l1 + l2));
    assert(e.subrange(l1, l1 + l2) =~= string_bytes(n.owner));
    assert(b[l1 + l2] == e[l1 + l2]);
}

/// Two notebooks encoded at the start of the same bytes are the same notebook.
pub proof fn lemma_notebook_prefix_unique(b: Seq<u8>, n: NotebookView, m: NotebookView)
    requires
        n.fits(),
        m.fits(),
        occurs_at(b, 0, notebook_bytes(n)),
        occurs_at(b, 0, notebook_bytes(m)),
    ensures
        n == m,
{
    lemma_notebook_parts(b, n);
    lemma_notebook_parts(b, m);
    lemma_string_bytes_unique(b, 0, n.data, m.data);
    lemma_string_bytes_unique(b, string_bytes(n.data).len() as int, n.owner, m.owner);
}

/// Bytes that start with the encoding of a notebook decode to that notebook.
pub proof fn lemma_notebook_decodes(b: Seq<u8>, n: NotebookView)
    requires
        n.fits(),
        occurs_at(b, 0, notebook_bytes(n)),
    ensures
        decode_notebook_spec(b) == Some(n),
{
    let m = choose|m: NotebookView| m.fits() && occurs_at(b, 0, notebook_bytes(m));
    lemma_notebook_prefix_unique(b, n, m);
}

/// Decoding the encoding of a notebook gives that notebook back.
pub proof fn lemma_notebook_round_trip(n: NotebookView)
    requires
        n.fits(),
    ensures
        decode_notebook_spec(notebook_bytes(n)) == Some(n),
{
    let b = notebook_bytes(n);
    assert(b.subrange(0, b.len() as int) =~= b);
    lemma_notebook_decodes(b, n);
}

/// Encodes a notebook.
pub fn encode_notebook(n: &Notebook) -> (r: Vec<u8>)
    requires
        n@.fits(),
    ensures
        r@ == notebook_bytes(n@),
{
    let mut out: Vec<u8> = Vec::new();
    push_string(&mut out, &n.data);
    push_string(&mut out, &n.owner);
    out.push(if n.is_init {
        1u8
    } else {
        0u8
    });
    assert(out@ =~= notebook_bytes(n@));
    out
}

/// Decodes the notebook encoded at the start of `b`, ignoring the bytes after it;
/// `None` where `b` does not start with the encoding of one.
pub fn decode_notebook(b: &[u8]) -> (r: Option<Notebook>)
    ensures
        match r {
            Some(n) => decode_notebook_spec(b@) == Some(n@) && n@.fits(),
            None => decode_notebook_spec(b@) is None,
        },
{
    let (data, p1) = match read_string(b, 0) {
        Some(x) => x,
        None => {
            proof {
                if decode_notebook_spec(b@) is Some {
                    lemma_notebook_parts(b@, decode_notebook_spec(b@)->0);
                }
            }
            return None;
        },
    };
    let (owner, p2) = match read_string(b, p1) {
        Some(x) => x,
        None => {
            proof {
                if decode_notebook_spec(b@) is Some {
                    let n = decode_notebook_spec(b@)->0;
                    lemma_notebook_parts(b@, n);
                    lemma_string_bytes_unique(b@, 0, n.data, data@);
                }
            }
            return None;
        },
    };
    let flag: Option<bool> = if p2 >= b.len() {
        None
    } else if b[p2] == 0 {
        Some(false)
    } else if b[p2] == 1 {
        Some(true)
    } else {
        None
    };
    match flag {
        Some(is_init) => {
            let r = Notebook { data, owner, is_init };
            proof {
                lemma_notebook_from_parts(b@, r@, p1 as int);
                lemma_notebook_decodes(b@, r@);
            }
            Some(r)
        },
        None => {
            proof {
                if decode_notebook_spec(b@) is Some {
                    let n = decode_notebook_spec(b@)->0;
                    lemma_notebook_parts(b@, n);
                    lemma_string_bytes_unique(b@, 0, n.data, data@);
                    lemma_string_bytes_unique(b@, p1 as int, n.owner, owner@);
                }
            }
            None
        },
    }
}

proof fn lemma_notebook_from_parts(b: Seq<u8>, n: NotebookView, p1: int)
    requires
        occurs_at(b, 0, string_bytes(n.data)),
        p1 == string_bytes(n.data).len(),
        occurs_at(b, p1, string_bytes(n.owner)),
        p1 + string_bytes(n.owner).len() < b.len(),
        b[p1 + string_bytes(n.owner).len()] == bool_byte(n.is_init),
    ensures
        occurs_at(b, 0, notebook_bytes(n)),
{
    let l2 = string_bytes(n.owner).len() as int;
    assert(b.subrange(0, p1 + l2 + 1) =~= b.subrange(0, p1) + b.subrange(p1, p1 + l2) + seq![
        b[p1 + l2],
    ]);
}

/// The tag byte of each kind of instruction.
pub open spec fn instruction_tag(i: InstructionView) -> u8 {
    match i {
        InstructionView::Init { .. } => 0u8,
        InstructionView::Read => 1u8,
        InstructionView::Write { .. } => 2u8,
    }
}

/// The encoding of an instruction: its tag, then its fields.
pub open spec fn instruction_bytes(i: InstructionView) -> Seq<u8> {
    match i {
        InstructionView::Init { data, owner } | InstructionView::Write { data, owner } => seq![
            instruction_tag(i),
        ] + string_bytes(data) + string_bytes(owner),
        InstructionView::Read => seq![instruction_tag(i)],
    }
}

/// The instruction that `b` encodes, if `b` is the whole encoding of one.
pub open spec fn decode_instruction_spec(b: Seq<u8>) -> Option<InstructionView> {
    if exists|i: InstructionView| i.fits() && instruction_bytes(i) == b {
        Some(choose|i: InstructionView| i.fits() && instruction_bytes(i) == b)
    } else {
        None
    }
}

proof fn lemma_instruction_bytes_parts(i: InstructionView)
    ensures
        instruction_bytes(i).len() >= 1,
        instruction_bytes(i)[0] == instruction_tag(i),
        i is Read ==> instruction_bytes(i).len() == 1,
        match i {
            InstructionView::Init { data, owner } | InstructionView::Write { data, owner } => {
                &&& occurs_at(instruction_bytes(i), 1, string_bytes(data))
                &&& occurs_at(
                    instruction_bytes(i),
                    1 + string_bytes(data).len() as int,
                    string_bytes(owner),
                )
                &&& instruction_bytes(i).len() == 1 + string_bytes(data).len() + string_bytes(
                    owner,
                ).len()
            },
            InstructionView::Read => true,
        },
{
    match i {
        InstructionView::Init { data, owner } | InstructionView::Write { data, owner } => {
            let b = instruction_bytes(i);
            let l1 = string_bytes(data).len() as int;
            let l2 = string_bytes(owner).len() as int;
            assert(b.subrange(1, 1 + l1) =~= string_bytes(data));
            assert(b.subrange(1 + l1, 1 + l1 + l2) =~= string_bytes(owner));
        },
        InstructionView::Read => {},
    }
}

/// Two instructions with the same encoding are the same instruction.
pub proof fn lemma_instruction_bytes_injective(i: InstructionView, j: InstructionView)
    requires
        i.fits(),
        j.fits(),
        instruction_bytes(i) == instruction_bytes(j),
    ensures
        i == j,
{
    let b = instruction_bytes(i);
    lemma_instruction_bytes_parts(i);
    lemma_instruction_bytes_parts(j);
    match (i, j) {
        (InstructionView::Init { data: d1, owner: o1 }, InstructionView::Init { data: d2, owner: o2 })
        | (
            InstructionView::Write { data: d1, owner: o1 },
            InstructionView::Write { data: d2, owner: o2 },
        ) => {
            lemma_string_bytes_unique(b, 1, d1, d2);
            lemma_string_bytes_unique(b, 1 + string_bytes(d1).len() as int, o1, o2);
        },
        _ => {},
    }
}

/// Decoding the encoding of an instruction gives that instruction back.
pub proof fn lemma_instruction_round_trip(i: InstructionView)
    requires
        i.fits(),
    ensures
        decode_instruction_spec(instruction_bytes(i)) == Some(i),
{
    let b = instruction_bytes(i);
    assert(exists|j: InstructionView| j.fits() && instruction_bytes(j) == b);
    let j = choose|j: InstructionView| j.fits() && instruction_bytes(j) == b;
    lemma_instruction_bytes_injective(i, j);
}

/// Encodes an instruction.
pub fn encode_instruction(i: &HelloWorldInstruction) -> (r: Vec<u8>)
    requires
        i@.fits(),
    ensures
        r@ == instruction_bytes(i@),
{
    let mut out: Vec<u8> = Vec::new();
    match i {
        HelloWorldInstruction::Init { data, owner } => {
            out.push(0u8);
            push_string(&mut out, data);
            push_string(&mut out, owner);
        },
        HelloWorldInstruction::Read => {
            out.push(1u8);
        },
        HelloWorldInstruction::Write { data, owner } => {
            out.push(2u8);
            push_string(&mut out, data);
            push_string(&mut out, owner);
        },
    }
    assert(out@ =~= instruction_bytes(i@));
    out
}

proof fn lemma_instruction_in(b: Seq<u8>)
    requires
        decode_instruction_spec(b) is Some,
    ensures
        ({
            let i = decode_instruction_spec(b)->0;
            &&& i.fits()
            &&& instruction_bytes(i) == b
        }),
{
}

/// Reads the two strings of an `Init` or a `Write` that follow the tag.
fn read_two_strings(b: &[u8]) -> (r: Option<(String, String)>)
    requires
        b@.len() >= 1,
    ensures
        match r {
            Some((d, o)) => string_fits(d@) && string_fits(o@) && b@ == seq![b@[0]]
                + string_bytes(d@) + string_bytes(o@),
            None => forall|d: Seq<char>, o: Seq<char>|
                string_fits(d) && string_fits(o) ==> b@ != seq![b@[0]] + string_bytes(d)
                    + string_bytes(o),
        },
{
    let (data, p1) = match read_string(b, 1) {
        Some(x) => x,
        None => {
            proof {
                assert forall|d: Seq<char>, o: Seq<char>|
                    string_fits(d) && string_fits(o) implies b@ != seq![b@[0]] + string_bytes(d)
                    + string_bytes(o) by {
                    if b@ == seq![b@[0]] + string_bytes(d) + string_bytes(o) {
                        lemma_two_strings_parts(b@, d, o);
                    }
                }
            }
            return None;
        },
    };
    let (owner, p2) = match read_string(b, p1) {
        Some(x) => x,
        None => {
            proof {
                assert forall|d: Seq<char>, o: Seq<char>|
                    string_fits(d) && string_fits(o) implies b@ != seq![b@[0]] + string_bytes(d)
                    + string_bytes(o) by {
                    if b@ == seq![b@[0]] + string_bytes(d) + string_bytes(o) {
                        lemma_two_strings_parts(b@, d, o);
                        lemma_string_bytes_unique(b@, 1, d, data@);
                    }
                }
            }
            return None;
        },
    };
    if p2 != b.len() {
        proof {
            assert forall|d: Seq<char>, o: Seq<char>|
                string_fits(d) && string_fits(o) implies b@ != seq![b@[0]] + string_bytes(d)
                + string_bytes(o) by {
                if b@ == seq![b@[0]] + string_bytes(d) + string_bytes(o) {
                    lemma_two_strings_parts(b@, d, o);
                    lemma_string_bytes_unique(b@, 1, d, data@);
                    lemma_string_bytes_unique(b@, p1 as int, o, owner@);
                }
            }
        }
        return None;
    }
    proof {
        let l1 = string_bytes(data@).len() as int;
        let l2 = string_bytes(owner@).len() as int;
        assert(b@ =~= seq![b@[0]] + b@.subrange(1, 1 + l1) + b@.subrange(1 + l1, 1 + l1 + l2));
    }
    Some((data, owner))
}

proof fn lemma_two_strings_parts(b: Seq<u8>, d: Seq<char>, o: Seq<char>)
    requires
        b.len() >= 1,
        b == seq![b[0]] + string_bytes(d) + string_bytes(o),
    ensures
        occurs_at(b, 1, string_bytes(d)),
        occurs_at(b, 1 + string_bytes(d).len() as int, string_bytes(o)),
        b.len() == 1 + string_bytes(d).len() + string_bytes(o).len(),
{
    let l1 = string_bytes(d).len() as int;
    let l2 = string_bytes(o).len() as int;
    assert(b.subrange(1, 1 + l1) =~= string_bytes(d));
    assert(b.subrange(1 + l1, 1 + l1 + l2) =~= string_bytes(o));
}

/// Decodes an instruction from the whole of `b`; `None` where `b` encodes none
/// (an unknown tag, a short or malformed field, or bytes left over).
pub fn decode_instruction(b: &[u8]) -> (r: Option<HelloWorldInstruction>)
    ensures
        match r {
            Some(i) => decode_instruction_spec(b@) == Some(i@) && i@.fits(),
            None => decode_instruction_spec(b@) is None,
        },
{
    if b.len() == 0 {
        proof {
            if decode_instruction_spec(b@) is Some {
                lemma_instruction_in(b@);
                lemma_instruction_bytes_parts(decode_instruction_spec(b@)->0);
            }
        }
        return None;
    }
    let tag: u8 = b[0];
    if tag == 1 {
        if b.len() == 1 {
            proof {
                assert(b@ =~= instruction_bytes(InstructionView::Read));
                lemma_instruction_round_trip(InstructionView::Read);
            }
            return Some(HelloWorldInstruction::Read);
        }
        proof {
            if decode_instruction_spec(b@) is Some {
                lemma_instruction_in(b@);
                lemma_instruction_bytes_parts(decode_instruction_spec(b@)->0);
            }
        }
        return None;
    }
    if tag != 0 && tag != 2 {
        proof {
            if decode_instruction_spec(b@) is Some {
                lemma_instruction_in(b@);
                lemma_instruction_bytes_parts(decode_instruction_spec(b@)->0);
            }
        }
        return None;
    }
    match read_two_strings(b) {
        Some((data, owner)) => {
            let r = if tag == 0 {
                HelloWorldInstruction::Init { data, owner }
            } else {
                HelloWorldInstruction::Write { data, owner }
            };
            proof {
                assert(instruction_bytes(r@) == b@);
                lemma_instruction_round_trip(r@);
            }
            Some(r)
        },
        None => {
            proof {
                if decode_instruction_spec(b@) is Some {
                    let i = decode_instruction_spec(b@)->0;
                    lemma_instruction_in(b@);
                    lemma_instruction_bytes_parts(i);
                    match i {
                        InstructionView::Init { data, owner }
                        | InstructionView::Write { data, owner } => {
                            assert(string_fits(data) && string_fits(owner));
                        },
                        InstructionView::Read => {},
                    }
                }
            }
            None
        },
    }
}

} // verus!
