use helloworld::codec::{decode_instruction, decode_notebook, encode_instruction, encode_notebook};
use helloworld::error::{CustomError, ProcessError};
use helloworld::instruction::HelloWorldInstruction;
use helloworld::processor::{apply, init, is_data_length_ok, is_owner_ok, read};
use helloworld::state::CONTEXT_LENGTH_LIMIT;
use helloworld::{Notebook, Processor};

fn notebook(data: &str, owner: &str, is_init: bool) -> Notebook {
    Notebook { data: data.to_string(), owner: owner.to_string(), is_init }
}

fn init_ins(data: &str, owner: &str) -> HelloWorldInstruction {
    HelloWorldInstruction::Init { data: data.to_string(), owner: owner.to_string() }
}

fn write_ins(data: &str, owner: &str) -> HelloWorldInstruction {
    HelloWorldInstruction::Write { data: data.to_string(), owner: owner.to_string() }
}

fn run(program_id: &[u8; 32], account: &mut Vec<u8>, ins: &HelloWorldInstruction) -> Result<(), ProcessError> {
    let bytes = encode_instruction(ins);
    Processor::process_instruction(program_id, program_id, &mut account[..], &bytes)
}

#[test]
fn notebook_encoding_matches_borsh() {
    let n = notebook("data1", "owner1", true);
    let expected = borsh::to_vec(&("data1".to_string(), "owner1".to_string(), true)).unwrap();
    assert_eq!(encode_notebook(&n), expected);
    assert_eq!(
        encode_notebook(&notebook("", "", false)),
        vec![0u8, 0, 0, 0, 0, 0, 0, 0, 0]
    );
}

#[test]
fn instruction_encoding_matches_borsh() {
    let init = borsh::to_vec(&(0u8, "data1".to_string(), "owner1".to_string())).unwrap();
    assert_eq!(encode_instruction(&init_ins("data1", "owner1")), init);
    assert_eq!(encode_instruction(&HelloWorldInstruction::Read), vec![1u8]);
    let write = borsh::to_vec(&(2u8, "data2".to_string(), "owner1".to_string())).unwrap();
    assert_eq!(encode_instruction(&write_ins("data2", "owner1")), write);
}

#[test]
fn notebook_round_trip() {
    for n in [
        notebook("", "", false),
        notebook("data1", "owner1", true),
        notebook("héllo wörld ✓", "ownerx", false),
    ] {
        let bytes = encode_notebook(&n);
        assert_eq!(decode_notebook(&bytes), Some(n));
    }
}

#[test]
fn instruction_round_trip() {
    for i in [init_ins("data1", "owner1"), HelloWorldInstruction::Read, write_ins("dätä", "")] {
        let bytes = encode_instruction(&i);
        assert_eq!(decode_instruction(&bytes), Some(i));
    }
}

#[test]
fn decode_notebook_reads_borsh_bytes() {
    let bytes = borsh::to_vec(&("data0".to_string(), "ownerx".to_string(), false)).unwrap();
    assert_eq!(decode_notebook(&bytes), Some(notebook("data0", "ownerx", false)));
}

#[test]
fn decode_notebook_rejects_malformed_bytes() {
    let good = encode_notebook(&notebook("data1", "owner1", true));
    // flag byte other than 0 or 1
    let mut bad_flag = good.clone();
    *bad_flag.last_mut().unwrap() = 2;
    assert_eq!(decode_notebook(&bad_flag), None);
    // truncated
    assert_eq!(decode_notebook(&good[..good.len() - 1]), None);
    assert_eq!(decode_notebook(&good[..3]), None);
    assert_eq!(decode_notebook(&[]), None);
    // length prefix past the end
    assert_eq!(decode_notebook(&[255u8, 255, 255, 255, b'a']), None);
    // content that is not UTF-8
    assert_eq!(decode_notebook(&[1u8, 0, 0, 0, 0xff, 0, 0, 0, 0, 1]), None);
}

#[test]
fn decode_notebook_ignores_trailing_bytes() {
    let mut bytes = encode_notebook(&notebook("data1", "owner1", true));
    bytes.extend_from_slice(&[9u8, 9, 9]);
    assert_eq!(decode_notebook(&bytes), Some(notebook("data1", "owner1", true)));
}

#[test]
fn decode_instruction_rejects_malformed_bytes() {
    assert_eq!(decode_instruction(&[]), None);
    assert_eq!(decode_instruction(&[3u8]), None);
    assert_eq!(decode_instruction(&[1u8, 0]), None);
    assert_eq!(decode_instruction(&[0u8]), None);
    assert_eq!(decode_instruction(&[0u8, 1, 0, 0, 0, b'a', 9, 0, 0, 0]), None);
    let mut extra = encode_instruction(&write_ins("a", "b"));
    extra.push(7);
    assert_eq!(decode_instruction(&extra), None);
}

#[test]
fn init_uninitialized_sets_everything() {
    let mut n = notebook("", "", false);
    assert_eq!(init(&mut n, &"data1".to_string(), &"owner1".to_string()), Ok(()));
    assert_eq!(n, notebook("data1", "owner1", true));
}

#[test]
fn init_initialized_faults_and_keeps_record() {
    let mut n = notebook("data1", "owner1", true);
    assert_eq!(
        init(&mut n, &"other".to_string(), &"owner2".to_string()),
        Err(CustomError::AuthorizationErrorDoubleInit)
    );
    assert_eq!(n, notebook("data1", "owner1", true));
}

#[test]
fn write_over_limit_faults_whoever_writes() {
    let long = "x".repeat(101);
    for owner in ["owner1", "owner2"] {
        let mut n = notebook("data1", "owner1", true);
        assert_eq!(
            helloworld::processor::write(&mut n, &long, &owner.to_string()),
            Err(CustomError::LengthLimitError)
        );
        assert_eq!(n, notebook("data1", "owner1", true));
    }
}

#[test]
fn write_checks_owner() {
    let mut n = notebook("data1", "owner1", true);
    assert_eq!(
        helloworld::processor::write(&mut n, &"data3".to_string(), &"owner2".to_string()),
        Err(CustomError::AuthorizationErrorNoWritePermission)
    );
    assert_eq!(n, notebook("data1", "owner1", true));
    assert_eq!(helloworld::processor::write(&mut n, &"data2".to_string(), &"owner1".to_string()), Ok(()));
    assert_eq!(n, notebook("data2", "owner1", true));
}

#[test]
fn write_on_uninitialized_record_with_matching_empty_owner() {
    let mut n = notebook("", "", false);
    assert_eq!(helloworld::processor::write(&mut n, &"early".to_string(), &String::new()), Ok(()));
    assert_eq!(n, notebook("early", "", false));
}

#[test]
fn read_keeps_record() {
    for n in [notebook("", "", false), notebook("data2", "owner1", true)] {
        let mut m = n.clone();
        assert_eq!(apply(&mut m, &HelloWorldInstruction::Read), Ok(()));
        assert_eq!(m, n);
        assert_eq!(read(&n), n.data);
    }
}

#[test]
fn seed_scenario() {
    let mut n = notebook("", "", false);
    assert_eq!(apply(&mut n, &init_ins("data1", "owner1")), Ok(()));
    assert_eq!(n, notebook("data1", "owner1", true));
    assert_eq!(apply(&mut n, &HelloWorldInstruction::Read), Ok(()));
    assert_eq!(n, notebook("data1", "owner1", true));
    assert_eq!(apply(&mut n, &write_ins("data2", "owner1")), Ok(()));
    assert_eq!(n, notebook("data2", "owner1", true));
    assert_eq!(
        apply(&mut n, &write_ins("data3", "owner2")),
        Err(CustomError::AuthorizationErrorNoWritePermission)
    );
    assert_eq!(n, notebook("data2", "owner1", true));
}

#[test]
fn length_boundary() {
    let exact = "a".repeat(100);
    let over = "a".repeat(101);
    assert!(is_data_length_ok(&exact));
    assert!(!is_data_length_ok(&over));
    let mut n = notebook("", "", false);
    assert_eq!(init(&mut n, &over, &"o".to_string()), Err(CustomError::LengthLimitError));
    assert_eq!(n, notebook("", "", false));
    assert_eq!(init(&mut n, &exact, &"o".to_string()), Ok(()));
    assert_eq!(n.data, exact);
    assert_eq!(helloworld::processor::write(&mut n, &over, &"o".to_string()), Err(CustomError::LengthLimitError));
    assert_eq!(helloworld::processor::write(&mut n, &"b".repeat(100), &"o".to_string()), Ok(()));
}

#[test]
fn length_is_counted_in_bytes() {
    let fifty_two_byte_chars = "é".repeat(50);
    assert_eq!(fifty_two_byte_chars.len(), 100);
    assert!(is_data_length_ok(&fifty_two_byte_chars));
    let over = format!("{}a", fifty_two_byte_chars);
    assert!(!is_data_length_ok(&over));
    assert_eq!(CONTEXT_LENGTH_LIMIT, 100);
}

#[test]
fn owner_check_is_exact() {
    let n = notebook("d", "owner1", true);
    assert!(is_owner_ok(&"owner1".to_string(), &n));
    assert!(!is_owner_ok(&"owner1 ".to_string(), &n));
    assert!(!is_owner_ok(&"Owner1".to_string(), &n));
}

#[test]
fn error_codes() {
    assert_eq!(CustomError::LengthLimitError.code(), 1);
    assert_eq!(CustomError::AuthorizationErrorDoubleInit.code(), 2);
    assert_eq!(CustomError::AuthorizationErrorNoWritePermission.code(), 3);
}

#[test]
fn lib_test_helloworld() {
    let program_id = [7u8; 32];
    let mut account = encode_notebook(&notebook("data0", "ownerx", false));

    assert_eq!(run(&program_id, &mut account, &init_ins("data1", "owner1")), Ok(()));
    assert_eq!(decode_notebook(&account), Some(notebook("data1", "owner1", true)));

    assert_eq!(run(&program_id, &mut account, &HelloWorldInstruction::Read), Ok(()));
    assert_eq!(decode_notebook(&account), Some(notebook("data1", "owner1", true)));

    assert_eq!(run(&program_id, &mut account, &write_ins("data2", "owner1")), Ok(()));
    assert_eq!(decode_notebook(&account), Some(notebook("data2", "owner1", true)));

    assert_eq!(run(&program_id, &mut account, &HelloWorldInstruction::Read), Ok(()));
    assert_eq!(decode_notebook(&account), Some(notebook("data2", "owner1", true)));

    assert_eq!(
        run(&program_id, &mut account, &write_ins("data3", "owner2")),
        Err(ProcessError::Custom(CustomError::AuthorizationErrorNoWritePermission))
    );
    assert_eq!(decode_notebook(&account), Some(notebook("data2", "owner1", true)));
}

#[test]
fn processor_rejects_foreign_account() {
    let mut account = encode_notebook(&notebook("", "", false));
    let before = account.clone();
    let ins = encode_instruction(&init_ins("d", "o"));
    assert_eq!(
        Processor::process_instruction(&[1u8; 32], &[2u8; 32], &mut account[..], &ins),
        Err(ProcessError::IncorrectProgramId)
    );
    assert_eq!(account, before);
}

#[test]
fn processor_rejects_malformed_account() {
    let mut account = vec![0u8; 4];
    let ins = encode_instruction(&HelloWorldInstruction::Read);
    assert_eq!(
        Processor::process_instruction(&[1u8; 32], &[1u8; 32], &mut account[..], &ins),
        Err(ProcessError::InvalidAccountData)
    );
    assert_eq!(account, vec![0u8; 4]);
}

#[test]
fn processor_rejects_malformed_instruction() {
    let mut account = encode_notebook(&notebook("", "", false));
    let before = account.clone();
    assert_eq!(
        Processor::process_instruction(&[1u8; 32], &[1u8; 32], &mut account[..], &[9u8]),
        Err(ProcessError::InvalidInstructionData)
    );
    assert_eq!(account, before);
}

#[test]
fn processor_faults_when_record_outgrows_account() {
    let mut account = encode_notebook(&notebook("", "", false));
    let before = account.clone();
    assert_eq!(
        run(&[1u8; 32], &mut account, &init_ins("data1", "owner1")),
        Err(ProcessError::AccountDataTooSmall)
    );
    assert_eq!(account, before);
}

#[test]
fn processor_keeps_bytes_on_rule_fault() {
    let mut account = encode_notebook(&notebook("data1", "owner1", true));
    let before = account.clone();
    assert_eq!(
        run(&[1u8; 32], &mut account, &init_ins("x", "y")),
        Err(ProcessError::Custom(CustomError::AuthorizationErrorDoubleInit))
    );
    assert_eq!(account, before);
    assert_eq!(
        run(&[1u8; 32], &mut account, &write_ins(&"z".repeat(101), "owner1")),
        Err(ProcessError::Custom(CustomError::LengthLimitError))
    );
    assert_eq!(account, before);
}

#[test]
fn processor_writes_shorter_record_over_start() {
    let mut account = encode_notebook(&notebook("longer content", "owner1", true));
    let total = account.len();
    assert_eq!(run(&[1u8; 32], &mut account, &write_ins("short", "owner1")), Ok(()));
    assert_eq!(account.len(), total);
    assert_eq!(decode_notebook(&account), Some(notebook("short", "owner1", true)));
}

#[test]
fn shorter_write_leaves_account_usable() {
    let program_id = [3u8; 32];
    let mut account = encode_notebook(&notebook("ab", "owner1", true));
    assert_eq!(run(&program_id, &mut account, &write_ins("a", "owner1")), Ok(()));
    assert_eq!(decode_notebook(&account), Some(notebook("a", "owner1", true)));
    assert_eq!(run(&program_id, &mut account, &HelloWorldInstruction::Read), Ok(()));
    assert_eq!(run(&program_id, &mut account, &write_ins("cd", "owner1")), Ok(()));
    assert_eq!(decode_notebook(&account), Some(notebook("cd", "owner1", true)));
    assert_eq!(
        run(&program_id, &mut account, &init_ins("x", "owner2")),
        Err(ProcessError::Custom(CustomError::AuthorizationErrorDoubleInit))
    );
    assert_eq!(decode_notebook(&account), Some(notebook("cd", "owner1", true)));
}
