use pumpkindb::encoding::{offset_by_size, Closure, Encodable, Instruction, InstructionRef};
use pumpkindb::receivable::Receivable;

#[test]
fn instruction() {
    let program = Instruction("DUP").encode();
    let mut pos = 0;
    let receivable = Receivable::try_from(&program, &mut pos).unwrap();
    assert_eq!(receivable, Receivable::Instruction(String::from("DUP")));
}

#[test]
fn data_nano() {
    let program = vec![0; 120].encode();
    let mut pos = 0;
    let receivable = Receivable::try_from(&program, &mut pos).unwrap();
    assert_eq!(receivable, Receivable::Data(vec![0; 120]));
}

#[test]
fn data_micro() {
    let program = vec![0; 255].encode();
    let mut pos = 0;
    let receivable = Receivable::try_from(&program, &mut pos).unwrap();
    assert_eq!(receivable, Receivable::Data(vec![0; 255]));
}

#[test]
fn data_small() {
    let program = vec![0; 65535].encode();
    let mut pos = 0;
    let receivable = Receivable::try_from(&program, &mut pos).unwrap();
    assert_eq!(receivable, Receivable::Data(vec![0; 65535]));
}

#[test]
fn data_large() {
    let program = vec![0; 100000].encode();
    let mut pos = 0;
    let receivable = Receivable::try_from(&program, &mut pos).unwrap();
    assert_eq!(receivable, Receivable::Data(vec![0; 100000]));
}

#[test]
fn program() {
    let program = ("hello", Instruction("DUP")).encode();
    let mut pos = 0;
    let receivable = Receivable::try_from(&program, &mut pos).unwrap();
    assert_eq!(receivable, Receivable::Data(String::from("hello").into_bytes()));
    let receivable = Receivable::try_from(&program, &mut pos).unwrap();
    assert_eq!(receivable, Receivable::Instruction(String::from("DUP")));
    assert!(Receivable::try_from(&program, &mut pos).is_err());
}

#[test]
fn extra_data() {
    let mut program = ("hello", Instruction("DUP")).encode();
    let mut buf = Vec::new();
    buf.append(&mut program);
    buf.extend_from_slice(b"goodbye");
    let mut pos = 0;
    let receivable = Receivable::try_from(&buf, &mut pos).unwrap();
    assert_eq!(receivable, Receivable::Data(String::from("hello").into_bytes()));
    let receivable = Receivable::try_from(&buf, &mut pos).unwrap();
    assert_eq!(receivable, Receivable::Instruction(String::from("DUP")));
    assert_eq!(&buf[pos..pos + 7], b"goodbye");
}

#[test]
fn size_headers() {
    assert_eq!(vec![1u8, 2].encode(), vec![2, 1, 2]);
    assert_eq!(vec![9u8; 121].encode()[..2], [121, 121]);
    assert_eq!(vec![9u8; 256].encode()[..3], [122, 1, 0]);
    assert_eq!(vec![9u8; 70000].encode()[..5], [123, 0, 1, 0x11, 0x70]);
    assert_eq!(offset_by_size(0), 1);
    assert_eq!(offset_by_size(120), 1);
    assert_eq!(offset_by_size(121), 2);
    assert_eq!(offset_by_size(255), 2);
    assert_eq!(offset_by_size(256), 3);
    assert_eq!(offset_by_size(65535), 3);
    assert_eq!(offset_by_size(65536), 5);
}

#[test]
fn instruction_refs_and_closures() {
    assert_eq!(Instruction("DUP").encode(), vec![0x83, b'D', b'U', b'P']);
    assert_eq!(InstructionRef("DUP").encode(), vec![4, 0x83, b'D', b'U', b'P']);
    assert_eq!(Closure(Instruction("DUP")).encode(), vec![4, 0x83, b'D', b'U', b'P']);
    assert_eq!((vec![1u8], (Instruction("DUP"), InstructionRef("DUP"))).encode(),
               vec![1, 1, 0x83, b'D', b'U', b'P', 4, 0x83, b'D', b'U', b'P']);
}

#[test]
fn receivable_roundtrip() {
    for item in vec![Receivable::Data(vec![5u8; 300]), Receivable::Instruction(String::from("SWAP"))] {
        let bytes = item.encode();
        let mut pos = 0;
        assert_eq!(Receivable::try_from(&bytes, &mut pos).unwrap(), item);
        assert_eq!(pos, bytes.len());
    }
}

#[test]
fn byte_above_data_headers_is_no_item() {
    let bytes = vec![124u8, 1, 2];
    let mut pos = 0;
    assert!(Receivable::try_from(&bytes, &mut pos).is_err());
    assert_eq!(pos, 1);
}
