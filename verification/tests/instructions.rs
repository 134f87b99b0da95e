use pumpkindb::dispatcher::StandardDispatcher;
use pumpkindb::encoding::{Encodable, Instruction, InstructionRef};
use pumpkindb::scheduler::{ResponseMessage, Scheduler};
use pumpkindb::script::Error;

fn d(bytes: &[u8]) -> Vec<u8> {
    bytes.to_vec().encode()
}

fn i(name: &str) -> Vec<u8> {
    Instruction(name).encode()
}

fn closure(parts: &[Vec<u8>]) -> Vec<u8> {
    parts.concat().encode()
}

/// Runs a program; returns how it ended and its stack, bottom first.
fn run(parts: &[Vec<u8>]) -> (Result<(), Error>, Vec<Vec<u8>>) {
    let mut scheduler = Scheduler::new(StandardDispatcher::new());
    scheduler.schedule_env(1, parts.concat(), None);
    for _ in 0..100_000 {
        match scheduler.step() {
            Some(ResponseMessage::EnvTerminated(_, stack, size)) => {
                assert_eq!(size, stack.len());
                return (Ok(()), stack);
            }
            Some(ResponseMessage::EnvFailed(_, err, stack, _)) => return (Err(err), stack.unwrap()),
            None => (),
        }
    }
    panic!("program did not end");
}

fn stack_of(parts: &[Vec<u8>]) -> Vec<Vec<u8>> {
    let (result, stack) = run(parts);
    assert!(result.is_ok());
    stack
}

#[test]
fn stack_shuffles() {
    let abc = [d(b"a"), d(b"b"), d(b"c")];
    let with = |op: &str| {
        let mut v = abc.to_vec();
        v.push(i(op));
        stack_of(&v)
    };
    assert_eq!(with("SWAP"), vec![b"a".to_vec(), b"c".to_vec(), b"b".to_vec()]);
    assert_eq!(with("ROT"), vec![b"b".to_vec(), b"c".to_vec(), b"a".to_vec()]);
    assert_eq!(with("OVER"), vec![b"a".to_vec(), b"b".to_vec(), b"c".to_vec(), b"b".to_vec()]);
    assert_eq!(with("DROP"), vec![b"a".to_vec(), b"b".to_vec()]);
    assert_eq!(with("3DROP"), Vec::<Vec<u8>>::new());
    assert_eq!(with("3DUP").len(), 6);
    assert_eq!(with("DEPTH")[3], vec![3u8]);
}

#[test]
fn wide_stack_shuffles() {
    let six: Vec<Vec<u8>> = (1..=6u8).map(|x| d(&[x])).collect();
    let mut p = six.clone();
    p.push(i("2ROT"));
    assert_eq!(stack_of(&p), vec![vec![3], vec![4], vec![5], vec![6], vec![1], vec![2]]);
    let mut p = six[..4].to_vec();
    p.push(i("2SWAP"));
    assert_eq!(stack_of(&p), vec![vec![3], vec![4], vec![1], vec![2]]);
    let mut p = six[..4].to_vec();
    p.push(i("2OVER"));
    assert_eq!(stack_of(&p), vec![vec![1], vec![2], vec![3], vec![4], vec![1], vec![2]]);
}

#[test]
fn short_stack_is_emptied() {
    let (result, stack) = run(&[d(b"a"), i("SWAP")]);
    assert!(result.is_err());
    assert!(stack.is_empty());
}

#[test]
fn unwrap_undoes_wrap() {
    let stack = stack_of(&[d(b"x"), d(b"yy"), d(&[]), d(&[3]), i("WRAP")]);
    assert_eq!(stack, vec![[d(b"x"), d(b"yy"), d(&[])].concat()]);
    let stack = stack_of(&[d(b"x"), d(b"yy"), d(&[]), d(&[3]), i("WRAP"), i("UNWRAP")]);
    assert_eq!(stack, vec![b"x".to_vec(), b"yy".to_vec(), Vec::new()]);
}

#[test]
fn logic() {
    assert_eq!(stack_of(&[d(&[1]), i("NOT")]), vec![vec![0u8]]);
    assert_eq!(stack_of(&[d(&[1]), d(&[0]), i("AND")]), vec![vec![0u8]]);
    assert_eq!(stack_of(&[d(&[1]), d(&[0]), i("OR")]), vec![vec![1u8]]);
    let (result, _) = run(&[d(&[1]), d(&[7]), i("AND")]);
    assert!(result.is_err());
}

#[test]
fn control_flow() {
    assert_eq!(stack_of(&[d(&[1]), closure(&[d(b"t")]), closure(&[d(b"e")]), i("IFELSE")]), vec![b"t".to_vec()]);
    assert_eq!(stack_of(&[d(&[0]), closure(&[d(b"t")]), closure(&[d(b"e")]), i("IFELSE")]), vec![b"e".to_vec()]);
    assert_eq!(stack_of(&[d(&[1]), closure(&[d(b"t")]), i("IF")]), vec![b"t".to_vec()]);
    assert_eq!(stack_of(&[d(&[0]), closure(&[d(b"t")]), i("IF")]), Vec::<Vec<u8>>::new());
    assert_eq!(stack_of(&[closure(&[d(b"z")]), d(&[3]), i("TIMES")]).len(), 3);
    assert_eq!(stack_of(&[closure(&[d(b"q"), i("DUP"), i("DROP")]), i("EVAL")]), vec![b"q".to_vec()]);
    assert_eq!(stack_of(&[closure(&[i("DUP")]), i("EVAL/VALID?")]), vec![vec![1u8]]);
    assert_eq!(stack_of(&[d(&[0x01]), i("EVAL/VALID?")]), vec![vec![0u8]]);
}

#[test]
fn dowhile_repeats_while_true() {
    // 3 [1 UINT/SUB DUP 0 UINT/GT?] DOWHILE  leaves 0
    let body = closure(&[d(&[1]), i("UINT/SUB"), i("DUP"), d(&[0]), i("UINT/GT?")]);
    assert_eq!(stack_of(&[d(&[3]), body, i("DOWHILE")]), vec![vec![0u8]]);
}

#[test]
fn definitions() {
    // 5 'FIVE SET FIVE FIVE
    let stack = stack_of(&[d(&[5]), InstructionRef("FIVE").encode(), i("SET"), i("FIVE"), i("FIVE")]);
    assert_eq!(stack, vec![vec![5u8], vec![5u8]]);
    // [DUP] 'TWICE DEF 7 TWICE
    let stack = stack_of(&[closure(&[i("DUP")]), InstructionRef("TWICE").encode(), i("DEF"), d(&[7]), i("TWICE")]);
    assert_eq!(stack, vec![vec![7u8], vec![7u8]]);
    // a definition made inside EVAL/SCOPED is gone after it
    let (result, _) = run(&[
        closure(&[d(&[5]), InstructionRef("FIVE").encode(), i("SET"), i("FIVE")]),
        i("EVAL/SCOPED"),
        i("FIVE"),
    ]);
    assert!(result.is_err());
    assert_eq!(stack_of(&[d(b"scoped_dictionary"), i("FEATURE?")]), vec![vec![1u8]]);
}

#[test]
fn nested_stacks_and_queue() {
    assert_eq!(stack_of(&[d(b"a"), i("<"), d(b"b"), i(">")]), vec![b"a".to_vec()]);
    let (result, _) = run(&[i(">")]);
    assert!(result.is_err());
    assert_eq!(stack_of(&[d(b"a"), i(">Q"), d(b"b"), i(">Q"), i("Q<"), i("Q?")]), vec![b"a".to_vec(), vec![1u8]]);
    assert_eq!(stack_of(&[d(b"a"), i("<Q"), d(b"b"), i("<Q"), i("Q>")]), vec![b"a".to_vec()]);
}

#[test]
fn binaries() {
    assert_eq!(stack_of(&[d(b"ab"), d(b"ab"), i("EQUAL?")]), vec![vec![1u8]]);
    assert_eq!(stack_of(&[d(b"ab"), d(b"b"), i("LT?")]), vec![vec![1u8]]);
    assert_eq!(stack_of(&[d(b"ab"), d(b"a"), i("GT?")]), vec![vec![1u8]]);
    assert_eq!(stack_of(&[d(b"hello"), i("LENGTH")]), vec![vec![5u8]]);
    assert_eq!(stack_of(&[d(b"he"), d(b"llo"), i("CONCAT")]), vec![b"hello".to_vec()]);
    assert_eq!(stack_of(&[d(b"hello"), d(&[1]), d(&[3]), i("SLICE")]), vec![b"el".to_vec()]);
    assert_eq!(stack_of(&[d(b"ab"), d(&[4]), d(b"-"), i("PAD")]), vec![b"--ab".to_vec()]);
    let (result, _) = run(&[d(b"hello"), d(&[3]), d(&[1]), i("SLICE")]);
    assert!(result.is_err());
}

#[test]
fn unsigned_numbers() {
    assert_eq!(stack_of(&[d(&[200]), d(&[100]), i("UINT/ADD")]), vec![vec![1u8, 44]]);
    assert_eq!(stack_of(&[d(&[1, 0]), d(&[1]), i("UINT/SUB")]), vec![vec![255u8]]);
    let (result, _) = run(&[d(&[1]), d(&[2]), i("UINT/SUB")]);
    assert!(result.is_err());
    assert_eq!(stack_of(&[d(&[0, 5]), d(&[5]), i("UINT/EQUAL?")]), vec![vec![1u8]]);
    assert_eq!(stack_of(&[d(&[2]), d(&[1]), i("UINT/GT?")]), vec![vec![1u8]]);
    assert_eq!(stack_of(&[d(&[2]), d(&[1]), i("UINT/LT?")]), vec![vec![0u8]]);
    assert_eq!(stack_of(&[d(&[0, 7]), i("UINT->INT")]), vec![vec![1u8, 7]]);
}

#[test]
fn signed_numbers() {
    // -100 is packed as 0x00 0x9c
    assert_eq!(stack_of(&[d(&[0, 0x9c]), d(&[1, 50]), i("INT/ADD")]), vec![vec![0u8, 0xce]]);
    assert_eq!(stack_of(&[d(&[1, 5]), d(&[1, 7]), i("INT/SUB")]), vec![vec![0u8, 0xfe]]);
    assert_eq!(stack_of(&[d(&[1, 5]), d(&[0, 0xfe]), i("INT/GT?")]), vec![vec![1u8]]);
    assert_eq!(stack_of(&[d(&[1, 9]), i("INT->UINT")]), vec![vec![9u8]]);
    let (result, _) = run(&[d(&[0, 0xfe]), i("INT->UINT")]);
    assert!(result.is_err());
    let (result, _) = run(&[d(&[7, 1]), d(&[1, 1]), i("INT/ADD")]);
    assert!(result.is_err());
}

#[test]
fn fixed_size_numbers() {
    assert_eq!(stack_of(&[d(&[250]), d(&[5]), i("UINT8/ADD")]), vec![vec![255u8]]);
    let (result, _) = run(&[d(&[250]), d(&[6]), i("UINT8/ADD")]);
    assert!(result.is_err());
    assert_eq!(stack_of(&[d(&[1, 0]), d(&[0, 1]), i("UINT16/SUB")]), vec![vec![0u8, 255]]);
    // signed values keep the top bit flipped: 0x80 is zero, 0x7f is -1
    assert_eq!(stack_of(&[d(&[0x80]), d(&[0x7f]), i("INT8/ADD")]), vec![vec![0x7fu8]]);
    assert_eq!(stack_of(&[d(&[0x7f, 0xff]), d(&[0x80, 0x01]), i("INT16/SUB")]), vec![vec![0x7fu8, 0xfe]]);
    assert_eq!(stack_of(&[d(&[0, 0, 0, 1]), d(&[0, 0, 0, 2]), i("UINT32/ADD")]), vec![vec![0u8, 0, 0, 3]]);
    assert_eq!(stack_of(&[d(&[0x80, 0, 0, 0, 0, 0, 0, 1]), d(&[0x80, 0, 0, 0, 0, 0, 0, 1]), i("INT64/ADD")]),
               vec![vec![0x80u8, 0, 0, 0, 0, 0, 0, 2]]);
    let (result, _) = run(&[d(&[1]), d(&[0, 1]), i("UINT16/ADD")]);
    assert!(result.is_err());
}

fn hex(s: &str) -> Vec<u8> {
    (0..s.len()).step_by(2).map(|k| u8::from_str_radix(&s[k..k + 2], 16).unwrap()).collect()
}

#[test]
fn hashes() {
    assert_eq!(stack_of(&[d(b"abc"), i("HASH/SHA1")]), vec![hex("a9993e364706816aba3e25717850c26c9cd0d89d")]);
    assert_eq!(stack_of(&[d(b"abc"), i("HASH/SHA256")]),
               vec![hex("ba7816bf8f01cfea414140de5dae2223b00361a396177a9cb410ff61f20015ad")]);
    assert_eq!(stack_of(&[d(b"abc"), i("HASH/SHA224")])[0].len(), 28);
    assert_eq!(stack_of(&[d(b"abc"), i("HASH/SHA384")])[0].len(), 48);
    assert_eq!(stack_of(&[d(b"abc"), i("HASH/SHA512")])[0].len(), 64);
    assert_eq!(stack_of(&[d(b"abc"), i("HASH/SHA512-224")])[0].len(), 28);
    assert_eq!(stack_of(&[d(b"abc"), i("HASH/SHA512-256")])[0].len(), 32);
}

#[test]
fn numbers_from_text() {
    assert_eq!(stack_of(&[d(b"300"), i("STRING/->UINT")]), vec![vec![1u8, 44]]);
    assert_eq!(stack_of(&[d(b"+1_000"), i("STRING/->UINT")]), vec![vec![3u8, 232]]);
    assert_eq!(stack_of(&[d(b"0"), i("STRING/->UINT")]), vec![vec![0u8]]);
    assert_eq!(stack_of(&[d(b"-100"), i("STRING/->INT")]), vec![vec![0u8, 0x9c]]);
    assert_eq!(stack_of(&[d(b"7"), i("STRING/->INT")]), vec![vec![1u8, 7]]);
    let (result, _) = run(&[d(b"12a"), i("STRING/->UINT")]);
    assert!(result.is_err());
    let (result, _) = run(&[d(b"-5"), i("STRING/->UINT")]);
    assert!(result.is_err());
    let (result, _) = run(&[d(b"_1"), i("STRING/->UINT")]);
    assert!(result.is_err());
    let (result, _) = run(&[d(b"-+1"), i("STRING/->INT")]);
    assert!(result.is_err());
    let (result, _) = run(&[d(b""), i("STRING/->INT")]);
    assert!(result.is_err());
}

#[test]
fn numbers_to_text() {
    assert_eq!(stack_of(&[d(&[1, 44]), i("UINT/->STRING")]), vec![b"300".to_vec()]);
    assert_eq!(stack_of(&[d(&[0]), i("UINT/->STRING")]), vec![b"0".to_vec()]);
    assert_eq!(stack_of(&[d(&[0, 0x9c]), i("INT/->STRING")]), vec![b"-100".to_vec()]);
    assert_eq!(stack_of(&[d(&[1, 7]), i("INT/->STRING")]), vec![b"7".to_vec()]);
    let (result, _) = run(&[d(&[7, 1]), i("INT/->STRING")]);
    assert!(result.is_err());
    // text and back
    assert_eq!(stack_of(&[d(b"-123456789012345678901234567890"), i("STRING/->INT"), i("INT/->STRING")]),
               vec![b"-123456789012345678901234567890".to_vec()]);
}

#[test]
fn uuids() {
    let dns = hex("6ba7b8109dad11d180b400c04fd430c8");
    assert_eq!(stack_of(&[d(&dns), d(b"example.org"), i("UUID/V5"), i("UUID/->STRING")]),
               vec![b"aad03681-8b63-5304-89e0-8ca8f49461b5".to_vec()]);
    let v4 = stack_of(&[i("UUID/V4")]);
    assert_eq!(v4.len(), 1);
    assert_eq!(v4[0].len(), 16);
    assert_eq!(v4[0][6] >> 4, 4);
    assert_eq!(v4[0][8] >> 6, 2);
    let id = hex("67e5504410b1426f9247bb680e5fe0c8");
    for text in ["67e55044-10b1-426f-9247-bb680e5fe0c8",
                 "67E5504410B1426F9247BB680E5FE0C8",
                 "{67e55044-10b1-426f-9247-bb680e5fe0c8}",
                 "URN:uuid:67e55044-10b1-426f-9247-bb680e5fe0c8"] {
        assert_eq!(stack_of(&[d(text.as_bytes()), i("UUID/STRING->")]), vec![id.clone()]);
    }
    assert_eq!(stack_of(&[d(&id), i("UUID/->STRING")]), vec![b"67e55044-10b1-426f-9247-bb680e5fe0c8".to_vec()]);
    let (result, _) = run(&[d(b"67e55044-10b1-426f-9247-bb680e5fe0cg"), i("UUID/STRING->")]);
    assert!(result.is_err());
    let (result, _) = run(&[d(&id[1..]), i("UUID/->STRING")]);
    assert!(result.is_err());
    let (result, _) = run(&[d(&id[1..]), d(b"name"), i("UUID/V5")]);
    assert!(result.is_err());
    let (result, _) = run(&[d(&id), d(&[0xff, 0xfe]), i("UUID/V5")]);
    assert!(result.is_err());
}

#[test]
fn json_kinds() {
    let test = |text: &[u8], op: &str| stack_of(&[d(text), i(op)]);
    assert_eq!(test(b"{}", "JSON?"), vec![vec![1u8]]);
    assert_eq!(test(b"{", "JSON?"), vec![vec![0u8]]);
    assert_eq!(test(br#"{"a":1}"#, "JSON/OBJECT?"), vec![vec![1u8]]);
    assert_eq!(test(b"[1]", "JSON/OBJECT?"), vec![vec![0u8]]);
    assert_eq!(test(br#""x""#, "JSON/STRING?"), vec![vec![1u8]]);
    assert_eq!(test(b"1.5", "JSON/NUMBER?"), vec![vec![1u8]]);
    assert_eq!(test(b"true", "JSON/BOOLEAN?"), vec![vec![1u8]]);
    assert_eq!(test(b"[1, 2]", "JSON/ARRAY?"), vec![vec![1u8]]);
    assert_eq!(test(b"null", "JSON/NULL?"), vec![vec![1u8]]);
    assert_eq!(test(b"nul", "JSON/NULL?"), vec![vec![0u8]]);
}

#[test]
fn json_members() {
    let doc = br#"{"a": {"b": 1}, "c": "d"}"#;
    assert_eq!(stack_of(&[d(doc), d(b"a"), i("JSON/GET")]), vec![br#"{"b":1}"#.to_vec()]);
    assert_eq!(stack_of(&[d(doc), d(b"c"), i("JSON/GET")]), vec![br#""d""#.to_vec()]);
    let (result, _) = run(&[d(doc), d(b"x"), i("JSON/GET")]);
    assert!(result.is_err());
    let (result, _) = run(&[d(b"[1]"), d(b"a"), i("JSON/GET")]);
    assert!(result.is_err());
    assert_eq!(stack_of(&[d(doc), d(b"a"), i("JSON/HAS?")]), vec![vec![1u8]]);
    assert_eq!(stack_of(&[d(doc), d(b"b"), i("JSON/HAS?")]), vec![vec![0u8]]);
    assert_eq!(stack_of(&[d(br#"{"b":1}"#), d(b"a"), d(b"[1, 2]"), i("JSON/SET")]),
               vec![br#"{"a":[1,2],"b":1}"#.to_vec()]);
    assert_eq!(stack_of(&[d(br#"{"b":1}"#), d(b"b"), d(b"2"), i("JSON/SET"), d(b"b"), i("JSON/GET")]),
               vec![b"2".to_vec()]);
    let (result, _) = run(&[d(br#"{"b":1}"#), d(b"a"), d(b"[1,"), i("JSON/SET")]);
    assert!(result.is_err());
    let (result, _) = run(&[d(b"1"), d(b"a"), d(b"2"), i("JSON/SET")]);
    assert!(result.is_err());
}

#[test]
fn json_strings() {
    assert_eq!(stack_of(&[d(br#""hi""#), i("JSON/STRING->")]), vec![b"hi".to_vec()]);
    let (result, _) = run(&[d(b"1"), i("JSON/STRING->")]);
    assert!(result.is_err());
    assert_eq!(stack_of(&[d(b"a\"b\n\x01"), i("JSON/->STRING")]), vec![br#""a\"b\n\u0001""#.to_vec()]);
    let (result, _) = run(&[d(&[0xff]), i("JSON/->STRING")]);
    assert!(result.is_err());
}

#[test]
fn clock_stamps() {
    let stamp = hex("00000001000000000000002a00000005");
    assert_eq!(stack_of(&[d(&stamp), i("HLC/TICK")]), vec![hex("00000001000000000000002a00000006")]);
    assert_eq!(stack_of(&[d(&stamp), i("HLC/LC")]), vec![hex("00000005")]);
    assert_eq!(stack_of(&[d(&stamp), i("HLC/TICK"), i("HLC/TICK"), i("HLC/LC")]), vec![hex("00000007")]);
    let top = hex("0000000100000000000000000000ffffffff");
    assert_eq!(stack_of(&[d(&top[2..]), i("HLC/TICK")]), vec![hex("00010000000000000000000000000000")]);
    let (result, _) = run(&[d(&stamp[..10]), i("HLC/TICK")]);
    assert!(result.is_err());
    let (result, _) = run(&[d(&stamp[..15]), i("HLC/LC")]);
    assert!(result.is_err());
}

#[test]
fn fixed_size_numbers_from_text() {
    let conv = |text: &[u8], op: &str| run(&[d(text), i(op)]);
    assert_eq!(conv(b"200", "STRING/->UINT8"), (Ok(()), vec![vec![200u8]]));
    assert_eq!(conv(b"+5", "STRING/->UINT8"), (Ok(()), vec![vec![5u8]]));
    assert!(conv(b"256", "STRING/->UINT8").0.is_err());
    assert!(conv(b"-1", "STRING/->UINT8").0.is_err());
    assert!(conv(b"", "STRING/->UINT8").0.is_err());
    assert!(conv(b"+", "STRING/->INT8").0.is_err());
    assert!(conv(b"1_0", "STRING/->UINT16").0.is_err());
    assert_eq!(conv(b"-128", "STRING/->INT8"), (Ok(()), vec![vec![0x00u8]]));
    assert_eq!(conv(b"127", "STRING/->INT8"), (Ok(()), vec![vec![0xffu8]]));
    assert!(conv(b"128", "STRING/->INT8").0.is_err());
    assert_eq!(conv(b"65535", "STRING/->UINT16"), (Ok(()), vec![vec![255u8, 255]]));
    assert_eq!(conv(b"-2", "STRING/->INT16"), (Ok(()), vec![vec![0x7fu8, 0xfe]]));
    assert_eq!(conv(b"7", "STRING/->UINT32"), (Ok(()), vec![vec![0u8, 0, 0, 7]]));
    assert_eq!(conv(b"0", "STRING/->INT32"), (Ok(()), vec![vec![0x80u8, 0, 0, 0]]));
    assert_eq!(conv(b"18446744073709551615", "STRING/->UINT64"), (Ok(()), vec![vec![0xffu8; 8]]));
    assert!(conv(b"18446744073709551616", "STRING/->UINT64").0.is_err());
    assert_eq!(conv(b"-1", "STRING/->INT64"), (Ok(()), vec![vec![0x7fu8, 0xff, 0xff, 0xff, 0xff, 0xff, 0xff, 0xff]]));
    // what the fixed-size arithmetic reads
    assert_eq!(stack_of(&[d(b"-1"), i("STRING/->INT8"), d(b"1"), i("STRING/->INT8"), i("INT8/ADD")]), vec![vec![0x80u8]]);
}

#[test]
fn fixed_size_numbers_to_text() {
    let conv = |value: &[u8], op: &str| run(&[d(value), i(op)]);
    assert_eq!(conv(&[200], "UINT8/->STRING"), (Ok(()), vec![b"200".to_vec()]));
    assert_eq!(conv(&[0x00], "INT8/->STRING"), (Ok(()), vec![b"-128".to_vec()]));
    assert_eq!(conv(&[0x80], "INT8/->STRING"), (Ok(()), vec![b"0".to_vec()]));
    assert_eq!(conv(&[0x7f, 0xfe], "INT16/->STRING"), (Ok(()), vec![b"-2".to_vec()]));
    assert_eq!(conv(&[0, 0, 1, 0], "UINT32/->STRING"), (Ok(()), vec![b"256".to_vec()]));
    assert_eq!(conv(&[0xff; 8], "UINT64/->STRING"), (Ok(()), vec![b"18446744073709551615".to_vec()]));
    assert_eq!(conv(&[0xff; 8], "INT64/->STRING"), (Ok(()), vec![b"9223372036854775807".to_vec()]));
    assert!(conv(&[1], "UINT16/->STRING").0.is_err());
    // text and back
    assert_eq!(stack_of(&[d(b"-12345"), i("STRING/->INT32"), i("INT32/->STRING")]), vec![b"-12345".to_vec()]);
}
