use pumpkindb::encoding::Instruction;
use pumpkindb::packet::{PacketReader, PacketWriter};

#[test]
fn write() {
    let v = vec![];
    let mut w = PacketWriter::new(v);
    let _ = w.write("hello".as_bytes());
    let result = w.writer();
    assert_eq!(result, vec![0, 0, 0, 5, b'h', b'e', b'l', b'l', b'o']);
}

#[test]
fn read() {
    let v = vec![0, 0, 0, 5, b'h', b'e', b'l', b'l', b'o'];
    let mut r = PacketReader::new(v);
    let result = r.read().unwrap();
    assert_eq!(result, "hello".as_bytes());
}

#[test]
fn read_what_was_written() {
    let mut w = PacketWriter::new(Vec::new());
    assert_eq!(w.write(b"one"), 7);
    assert_eq!(w.write(b""), 4);
    assert_eq!(w.write(&[7u8; 300]), 304);
    let mut r = PacketReader::new(w.writer());
    assert_eq!(r.read().unwrap(), b"one".to_vec());
    assert_eq!(r.read().unwrap(), Vec::<u8>::new());
    assert_eq!(r.read().unwrap(), vec![7u8; 300]);
    assert_eq!(r.read(), None);
    assert_eq!(r.reader(), Vec::<u8>::new());
}

#[test]
fn read_incomplete_packet_leaves_source() {
    let mut r = PacketReader::new(vec![0, 0, 1, 0, 1, 2, 3]);
    assert_eq!(r.read(), None);
    assert_eq!(r.reader(), vec![0, 0, 1, 0, 1, 2, 3]);
}

#[test]
fn send_encodes_then_frames() {
    let mut w = PacketWriter::new(Vec::new());
    w.send(b"hi".to_vec());
    w.send(Instruction("DUP"));
    let result = w.writer();
    assert_eq!(result, vec![0, 0, 0, 3, 2, b'h', b'i', 0, 0, 0, 4, 0x83, b'D', b'U', b'P']);
}
