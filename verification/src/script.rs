//! PumpkinScript errors and the error programs they carry.
use vstd::prelude::*;
use vstd::utf8::valid_utf8;
use crate::encoding::{append_bytes, encode_data, encode_data_spec, size_header, write_size};

verus! {

/// The result of an interpreter step.
pub type PassResult = Result<(), Error>;

/// Telling a handled instruction from one left to the next handler.
pub trait TryInstruction {
    spec fn unhandled_spec(&self) -> bool;

    /// Whether the instruction was left unhandled.
    fn is_unhandled(&self) -> (r: bool)
        ensures
            r == self.unhandled_spec(),
    ;
}

impl TryInstruction for PassResult {
    open spec fn unhandled_spec(&self) -> bool {
        result_model(*self) == Err::<(), ErrorModel>(ErrorModel::UnknownInstruction)
    }

    fn is_unhandled(&self) -> (r: bool) {
        match self {
            Err(Error::UnknownInstruction) => true,
            _ => false,
        }
    }
}

/// Errors of script execution.
#[derive(Debug, PartialEq, Clone)]
pub enum Error {
    /// The instruction is not known.
    UnknownInstruction,
    /// The environment must be run again later. No instruction of this
    /// library answers it; the scheduler reports it like any other error.
    Reschedule,
    /// A program error: its description, details and code as a program.
    ProgramError(Vec<u8>),
    /// The heap could not provide the memory asked for.
    HeapAllocFailed,
}

/// Parse-related errors.
#[derive(Debug, PartialEq)]
pub enum ParseError {
    /// Incomplete input.
    Incomplete,
    /// Error with a code.
    ErrCode(u32),
    /// Unknown error.
    UnknownErr,
    /// Unparseable remainder.
    Superfluous(Vec<u8>),
}

/// The error with its bytes.
pub enum ErrorModel {
    UnknownInstruction,
    Reschedule,
    ProgramError(Seq<u8>),
    HeapAllocFailed,
}

impl Error {
    pub open spec fn model(&self) -> ErrorModel {
        match self {
            Error::UnknownInstruction => ErrorModel::UnknownInstruction,
            Error::Reschedule => ErrorModel::Reschedule,
            Error::ProgramError(v) => ErrorModel::ProgramError(v@),
            Error::HeapAllocFailed => ErrorModel::HeapAllocFailed,
        }
    }

    /// Whether the error says that the instruction was not handled.
    pub fn is_unhandled(&self) -> (r: bool)
        ensures
            r == (self.model() is UnknownInstruction),
    {
        match self {
            Error::UnknownInstruction => true,
            _ => false,
        }
    }
}

/// The outcome of a step, with errors by their bytes.
pub open spec fn result_model(r: PassResult) -> Result<(), ErrorModel> {
    match r {
        Ok(()) => Ok(()),
        Err(e) => Err(e.model()),
    }
}

/// Details longer than this are not written into an error program.
pub open spec fn max_details() -> nat {
    4294967280
}

/// The error program made of a description, details and a code:
/// `[desc [details] code]` in text form, without the outer brackets.
pub open spec fn error_program_bytes(desc: Seq<u8>, details: Seq<u8>, code: Seq<u8>) -> Seq<u8> {
    encode_data_spec(desc) + (if details.len() > 0 {
        size_header(details.len() + size_header(details.len()).len())
    } else {
        Seq::empty()
    }) + encode_data_spec(details) + code
}

/// The program error for a description, details and code; details too
/// large to write give a heap allocation failure.
pub open spec fn program_error(desc: Seq<u8>, details: Seq<u8>, code: Seq<u8>) -> ErrorModel {
    if details.len() <= max_details() {
        ErrorModel::ProgramError(error_program_bytes(desc, details, code))
    } else {
        ErrorModel::HeapAllocFailed
    }
}

/// Builds the program error for a description, details and code.
pub fn error_program(desc: &[u8], details: &[u8], code: &[u8]) -> (r: Error)
    requires
        desc@.len() <= crate::encoding::max_header_size(),
    ensures
        r.model() == program_error(desc@, details@, code@),
{
    if details.len() > 4294967280 {
        return Error::HeapAllocFailed;
    }
    let mut error = encode_data(desc);
    if details.len() > 0 {
        let n = details.len();
        proof {
            assert(size_header(n as nat).len() <= 5);
        }
        let off = crate::encoding::offset_by_size(n);
        write_size(n + off, &mut error);
    }
    let d = encode_data(details);
    append_bytes(&mut error, d.as_slice());
    append_bytes(&mut error, code);
    proof {
        assert(error@ =~= error_program_bytes(desc@, details@, code@));
    }
    Error::ProgramError(error)
}

/// "Empty stack"
pub open spec fn empty_stack_desc() -> Seq<u8> {
    seq![69u8, 109, 112, 116, 121, 32, 115, 116, 97, 99, 107]
}

/// "Invalid value"
pub open spec fn invalid_value_desc() -> Seq<u8> {
    seq![73u8, 110, 118, 97, 108, 105, 100, 32, 118, 97, 108, 117, 101]
}

/// "Decoding error"
pub open spec fn decoding_desc() -> Seq<u8> {
    seq![68u8, 101, 99, 111, 100, 105, 110, 103, 32, 101, 114, 114, 111, 114]
}

/// "No value"
pub open spec fn no_value_desc() -> Seq<u8> {
    seq![78u8, 111, 32, 118, 97, 108, 117, 101]
}

/// "Unknown instruction: "
pub open spec fn unknown_instruction_prefix() -> Seq<u8> {
    seq![85u8, 110, 107, 110, 111, 119, 110, 32, 105, 110, 115, 116, 114, 117, 99, 116, 105, 111, 110, 58, 32]
}

/// "Error parsing instruction"
pub open spec fn unparsable_name() -> Seq<u8> {
    seq![69u8, 114, 114, 111, 114, 32, 112, 97, 114, 115, 105, 110, 103, 32, 105, 110, 115, 116, 114, 117, 99, 116, 105, 111, 110]
}

/// Code of an unknown instruction error.
pub open spec fn code_unknown_instruction() -> Seq<u8> {
    seq![1u8, 2]
}

/// Code of an invalid value error.
pub open spec fn code_invalid_value() -> Seq<u8> {
    seq![1u8, 3]
}

/// Code of an empty stack error.
pub open spec fn code_empty_stack() -> Seq<u8> {
    seq![1u8, 4]
}

/// Code of a decoding error.
pub open spec fn code_decoding() -> Seq<u8> {
    seq![1u8, 5]
}

/// Code of a missing value error.
pub open spec fn code_no_value() -> Seq<u8> {
    seq![1u8, 10]
}

/// The error for popping off an empty stack.
pub open spec fn empty_stack_error() -> ErrorModel {
    program_error(empty_stack_desc(), Seq::empty(), code_empty_stack())
}

/// The error for an invalid value.
pub open spec fn invalid_value_error(value: Seq<u8>) -> ErrorModel {
    program_error(invalid_value_desc(), value, code_invalid_value())
}

/// The error for a program that does not decode.
pub open spec fn decoding_error() -> ErrorModel {
    program_error(decoding_desc(), Seq::empty(), code_decoding())
}

/// The error for a value that is not there.
pub open spec fn no_value_error() -> ErrorModel {
    program_error(no_value_desc(), Seq::empty(), code_no_value())
}

/// The description of an unknown instruction: its name, or a placeholder
/// when the name is not UTF-8.
pub open spec fn unknown_instruction_desc(instruction: Seq<u8>) -> Seq<u8> {
    unknown_instruction_prefix() + if valid_utf8(instruction.drop_first()) {
        instruction.drop_first()
    } else {
        unparsable_name()
    }
}

/// The error for an instruction nothing handles.
pub open spec fn unknown_instruction_error(instruction: Seq<u8>) -> ErrorModel {
    program_error(unknown_instruction_desc(instruction), instruction, code_unknown_instruction())
}

pub fn error_empty_stack() -> (r: Error)
    ensures
        r.model() == empty_stack_error(),
{
    let desc: Vec<u8> = vec![69u8, 109, 112, 116, 121, 32, 115, 116, 97, 99, 107];
    let code: Vec<u8> = vec![1u8, 4];
    let details: Vec<u8> = Vec::new();
    assert(desc@ == empty_stack_desc());
    assert(code@ == code_empty_stack());
    error_program(desc.as_slice(), details.as_slice(), code.as_slice())
}

pub fn error_invalid_value(value: &[u8]) -> (r: Error)
    ensures
        r.model() == invalid_value_error(value@),
{
    let desc: Vec<u8> = vec![73u8, 110, 118, 97, 108, 105, 100, 32, 118, 97, 108, 117, 101];
    let code: Vec<u8> = vec![1u8, 3];
    assert(desc@ == invalid_value_desc());
    assert(code@ == code_invalid_value());
    error_program(desc.as_slice(), value, code.as_slice())
}

pub fn error_decoding() -> (r: Error)
    ensures
        r.model() == decoding_error(),
{
    let desc: Vec<u8> = vec![68u8, 101, 99, 111, 100, 105, 110, 103, 32, 101, 114, 114, 111, 114];
    let code: Vec<u8> = vec![1u8, 5];
    let details: Vec<u8> = Vec::new();
    assert(desc@ == decoding_desc());
    assert(code@ == code_decoding());
    error_program(desc.as_slice(), details.as_slice(), code.as_slice())
}

pub fn error_no_value() -> (r: Error)
    ensures
        r.model() == no_value_error(),
{
    let desc: Vec<u8> = vec![78u8, 111, 32, 118, 97, 108, 117, 101];
    let code: Vec<u8> = vec![1u8, 10];
    let details: Vec<u8> = Vec::new();
    assert(desc@ == no_value_desc());
    assert(code@ == code_no_value());
    error_program(desc.as_slice(), details.as_slice(), code.as_slice())
}

pub fn error_unknown_instruction(instruction: &[u8]) -> (r: Error)
    requires
        instruction@.len() >= 1,
        instruction@.len() <= 300,
    ensures
        r.model() == unknown_instruction_error(instruction@),
{
    let mut desc: Vec<u8> = vec![85u8, 110, 107, 110, 111, 119, 110, 32, 105, 110, 115, 116, 114, 117, 99, 116, 105, 111, 110, 58, 32];
    assert(desc@ == unknown_instruction_prefix());
    let (_, name) = instruction.split_at(1);
    assert(name@ =~= instruction@.drop_first());
    if utf8_valid(name) {
        append_bytes(&mut desc, name);
    } else {
        let placeholder: Vec<u8> = vec![69u8, 114, 114, 111, 114, 32, 112, 97, 114, 115, 105, 110, 103, 32, 105, 110, 115, 116, 114, 117, 99, 116, 105, 111, 110];
        assert(placeholder@ == unparsable_name());
        append_bytes(&mut desc, placeholder.as_slice());
    }
    let code: Vec<u8> = vec![1u8, 2];
    assert(code@ == code_unknown_instruction());
    error_program(desc.as_slice(), instruction, code.as_slice())
}

/// Whether bytes are valid UTF-8 (`std::str::from_utf8` succeeds), as vstd
/// defines valid UTF-8.
#[verifier::external_body]
pub(crate) fn utf8_valid(bytes: &[u8]) -> (r: bool)
    ensures
        r == valid_utf8(bytes@),
{
    std::str::from_utf8(bytes).is_ok()
}

} // verus!
