use pumpkindb::encoding::{Closure, Encodable, Instruction, InstructionRef};
use pumpkindb::env::Env;
use pumpkindb::dispatcher::StandardDispatcher;
use pumpkindb::scheduler::{ResponseMessage, Scheduler};
use pumpkindb::script::{error_program, Error};

/// Runs a program to its end; returns how it ended and its stack.
fn eval(program: Vec<u8>) -> (Result<(), Error>, Env) {
    let mut scheduler = Scheduler::new(StandardDispatcher::new());
    scheduler.schedule_env(1, program, None);
    for _ in 0..100_000 {
        match scheduler.step() {
            Some(ResponseMessage::EnvTerminated(_, stack, _)) => {
                return (Ok(()), Env::new_with_stack(stack).unwrap());
            }
            Some(ResponseMessage::EnvFailed(_, err, stack, _)) => {
                return (Err(err), Env::new_with_stack(stack.unwrap()).unwrap());
            }
            None => (),
        }
    }
    panic!("program did not end");
}

fn error_of(desc: &str, details: Vec<u8>, code: u8) -> Vec<u8> {
    if details.is_empty() {
        (desc, Vec::<u8>::new(), vec![code]).encode()
    } else {
        (desc, Closure(details), vec![code]).encode()
    }
}

#[test]
fn error_macro() {
    if let Error::ProgramError(err) = error_program("Test".as_bytes(), "123".as_bytes(), b"\x01\x33") {
        assert_eq!(err, ("Test", Closure("123"), vec![0x33u8]).encode());
    } else {
        assert!(false);
    }
}

#[test]
fn unknown_instruction() {
    let (result, _) = eval(Instruction("NOTANINSTRUCTION").encode());
    assert!(result.is_err());
    match result {
        Err(Error::ProgramError(inner)) => assert_eq!(
            inner,
            (
                "Unknown instruction: NOTANINSTRUCTION",
                Closure(InstructionRef("NOTANINSTRUCTION")),
                vec![2u8]
            )
                .encode()
        ),
        _ => panic!("expected a program error"),
    }
}

#[test]
fn nothing() {
    let (_, mut env) = eval(Vec::new());
    assert_eq!(env.pop(), None);
}

#[test]
fn try_catches_errors() {
    // [1 DUP] TRY
    let (_, mut env) = eval((Closure((vec![1u8], Instruction("DUP"))), Instruction("TRY")).encode());
    assert_eq!(Vec::from(env.pop().unwrap()), Vec::<u8>::new());
    assert_eq!(Vec::from(env.pop().unwrap()), vec![1u8]);
    assert_eq!(Vec::from(env.pop().unwrap()), vec![1u8]);
    assert_eq!(env.pop(), None);

    // [DUP] TRY
    let (result, mut env) = eval((Closure(Instruction("DUP")), Instruction("TRY")).encode());
    assert!(!result.is_err());
    assert_eq!(Vec::from(env.pop().unwrap()), error_of("Empty stack", vec![], 4));
    assert_eq!(env.pop(), None);

    // [NOTANINSTRUCTION] TRY
    let (_, mut env) = eval((Closure(Instruction("NOTANINSTRUCTION")), Instruction("TRY")).encode());
    assert_eq!(
        Vec::from(env.pop().unwrap()),
        (
            "Unknown instruction: NOTANINSTRUCTION",
            Closure(InstructionRef("NOTANINSTRUCTION")),
            vec![2u8]
        )
            .encode()
    );
    assert_eq!(env.pop(), None);

    // [[DUP] TRY 0x20 NOT] TRY
    let inner = (Closure(Instruction("DUP")), Instruction("TRY"), vec![0x20u8], Instruction("NOT"));
    let (result, mut env) = eval((Closure(inner), Instruction("TRY")).encode());
    assert!(!result.is_err());
    assert_eq!(Vec::from(env.pop().unwrap()), error_of("Invalid value", vec![0x20u8], 3));
    assert_eq!(Vec::from(env.pop().unwrap()), error_of("Empty stack", vec![], 4));
    assert_eq!(env.pop(), None);

    // [1 DUP] TRY STACK DROP DUP
    let mut program = (Closure((vec![1u8], Instruction("DUP"))), Instruction("TRY")).encode();
    program.extend((Instruction("STACK"), Instruction("DROP"), Instruction("DUP")).encode());
    let (result, _) = eval(program);
    assert!(result.is_err());

    // [DUP] TRY STACK DROP DUP
    let mut program = (Closure(Instruction("DUP")), Instruction("TRY")).encode();
    program.extend((Instruction("STACK"), Instruction("DROP"), Instruction("DUP")).encode());
    let (result, _) = eval(program);
    assert!(result.is_err());

    // 1 TRY
    let (_, mut env) = eval((vec![1u8], Instruction("TRY")).encode());
    assert_eq!(Vec::from(env.pop().unwrap()), error_of("Decoding error", vec![], 5));
    assert_eq!(env.pop(), None);
}
