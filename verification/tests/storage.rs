use std::collections::{BTreeMap, HashMap};

use pumpkindb::dispatcher::StandardDispatcher;
use pumpkindb::encoding::{Encodable, Instruction};
use pumpkindb::scheduler::{ResponseMessage, Scheduler};
use pumpkindb::script::Error;
use pumpkindb::storage::{CursorMove, StorageReply, StorageRequest};

fn d(bytes: &[u8]) -> Vec<u8> {
    bytes.to_vec().encode()
}

fn i(name: &str) -> Vec<u8> {
    Instruction(name).encode()
}

fn closure(parts: &[Vec<u8>]) -> Vec<u8> {
    parts.concat().encode()
}

type Pairs = BTreeMap<Vec<u8>, Vec<u8>>;

/// A store held in memory: what is committed, and for each environment its
/// open transactions, each with the pairs it sees.
#[derive(Default)]
struct MemStore {
    committed: Pairs,
    txns: HashMap<u64, Vec<(bool, Pairs)>>,
    writer: Option<u64>,
    time: u64,
    cursors: HashMap<(u64, Vec<u8>), Option<Vec<u8>>>,
    next_cursor: u64,
}

/// Moves a cursor on `pos` over pairs.
fn cursor_move(pairs: &Pairs, mv: CursorMove, pos: &Option<Vec<u8>>, key: &[u8]) -> Option<(Vec<u8>, Vec<u8>)> {
    let found = match (mv, pos) {
        (CursorMove::First, _) | (CursorMove::Next, None) => pairs.iter().next(),
        (CursorMove::Last, _) | (CursorMove::Prev, None) => pairs.iter().next_back(),
        (CursorMove::Seek, _) => pairs.range(key.to_vec()..).next(),
        (CursorMove::Current, None) => None,
        (CursorMove::Current, Some(p)) => pairs.get_key_value(p),
        (CursorMove::Next, Some(p)) => pairs.range(p.clone()..).find(|(k, _)| *k != p),
        (CursorMove::Prev, Some(p)) => pairs.range(..p.clone()).next_back(),
    };
    found.map(|(k, v)| (k.clone(), v.clone()))
}

/// A timestamp of epoch 0 and logical count 0 at a time.
fn stamp(time: u64) -> Vec<u8> {
    let mut out = vec![0u8; 4];
    out.extend_from_slice(&time.to_be_bytes());
    out.extend_from_slice(&[0u8; 4]);
    out
}

impl MemStore {
    fn close_all(&mut self, pid: u64) {
        if let Some(txns) = self.txns.remove(&pid) {
            if txns.iter().any(|t| t.0) {
                self.writer = None;
            }
        }
        self.cursors.retain(|(p, _), _| *p != pid);
    }

    fn answer(&mut self, pid: u64, request: StorageRequest) -> Option<StorageReply> {
        match request {
            StorageRequest::EndAll => {
                self.close_all(pid);
                return None;
            }
            StorageRequest::CursorOpen => {
                if self.txns.get(&pid).map_or(true, |t| t.is_empty()) {
                    return Some(StorageReply::Failed(b"no transaction".to_vec()));
                }
                self.next_cursor += 1;
                let id = self.next_cursor.to_be_bytes().to_vec();
                self.cursors.insert((pid, id.clone()), None);
                return Some(StorageReply::Found(id));
            }
            StorageRequest::Cursor(id, mv, key) => {
                let pos = match self.cursors.get(&(pid, id.clone())) {
                    Some(p) => p.clone(),
                    None => return Some(StorageReply::NoCursor),
                };
                let pairs = match self.txns.get(&pid).and_then(|t| t.last()) {
                    Some((_, pairs)) => pairs,
                    None => return Some(StorageReply::Failed(b"no transaction".to_vec())),
                };
                return Some(match cursor_move(pairs, mv, &pos, &key) {
                    Some((k, v)) => {
                        self.cursors.insert((pid, id), Some(k.clone()));
                        StorageReply::Item(k, v)
                    }
                    None => StorageReply::Missing,
                });
            }
            StorageRequest::ClockNow => {
                self.time += 1;
                return Some(StorageReply::Found(stamp(self.time)));
            }
            StorageRequest::ClockObserve(t) => {
                let mut time = [0u8; 8];
                time.copy_from_slice(&t[4..12]);
                self.time = self.time.max(u64::from_be_bytes(time)) + 1;
                return Some(StorageReply::Found(stamp(self.time)));
            }
            _ => (),
        }
        let txns = self.txns.entry(pid).or_default();
        match request {
            StorageRequest::BeginWrite => {
                if self.writer.is_some() {
                    return Some(StorageReply::Busy);
                }
                self.writer = Some(pid);
                txns.push((true, self.committed.clone()));
                Some(StorageReply::Done)
            }
            StorageRequest::BeginRead => {
                txns.push((false, self.committed.clone()));
                Some(StorageReply::Done)
            }
            StorageRequest::Put(key, value) => match txns.last_mut() {
                Some((_, pairs)) => {
                    if pairs.contains_key(&key) {
                        Some(StorageReply::Exists)
                    } else {
                        pairs.insert(key, value);
                        Some(StorageReply::Done)
                    }
                }
                None => Some(StorageReply::Failed(b"no transaction".to_vec())),
            },
            StorageRequest::Get(key) => match txns.last() {
                Some((_, pairs)) => match pairs.get(&key) {
                    Some(v) => Some(StorageReply::Found(v.clone())),
                    None => Some(StorageReply::Missing),
                },
                None => Some(StorageReply::Failed(b"no transaction".to_vec())),
            },
            StorageRequest::Commit => match txns.pop() {
                Some((true, pairs)) => {
                    self.committed = pairs;
                    self.writer = None;
                    Some(StorageReply::Done)
                }
                _ => Some(StorageReply::Failed(b"no write transaction".to_vec())),
            },
            StorageRequest::End => {
                if let Some((true, _)) = txns.pop() {
                    self.writer = None;
                }
                None
            }
            _ => None,
        }
    }
}

/// Runs programs side by side over one store; returns how each ended and
/// its stack, bottom first, by program.
fn run_all(programs: &[Vec<u8>]) -> Vec<(Result<(), Error>, Vec<Vec<u8>>)> {
    let mut scheduler = Scheduler::new(StandardDispatcher::new());
    let mut store = MemStore::default();
    for (k, p) in programs.iter().enumerate() {
        scheduler.schedule_env(k as u64, p.clone(), None);
    }
    let mut results: Vec<Option<(Result<(), Error>, Vec<Vec<u8>>)>> = programs.iter().map(|_| None).collect();
    for _ in 0..100_000 {
        let response = scheduler.step();
        for (pid, request) in scheduler.take_requests() {
            if let Some(reply) = store.answer(pid, request) {
                scheduler.deliver(pid, reply);
            }
        }
        match response {
            Some(ResponseMessage::EnvTerminated(pid, stack, _)) => {
                store.close_all(pid);
                results[pid as usize] = Some((Ok(()), stack));
            }
            Some(ResponseMessage::EnvFailed(pid, err, stack, _)) => {
                store.close_all(pid);
                results[pid as usize] = Some((Err(err), stack.unwrap()));
            }
            None => (),
        }
        if scheduler.is_idle() {
            return results.into_iter().map(|r| r.unwrap()).collect();
        }
    }
    panic!("programs did not end");
}

fn run(parts: &[Vec<u8>]) -> (Result<(), Error>, Vec<Vec<u8>>) {
    run_all(&[parts.concat()]).pop().unwrap()
}

#[test]
fn errors_during_txn() {
    let (result, mut stack) = run(&[
        closure(&[closure(&[d(b"Hey"), i("ASSOC"), i("COMMIT")]), i("WRITE")]),
        i("TRY"),
        closure(&[d(b"Hey"), i("ASSOC?")]),
        i("READ"),
    ]);
    assert!(result.is_ok());
    assert_eq!(stack.pop().unwrap(), vec![0x00u8]);
    let (result, mut stack) = run(&[
        closure(&[closure(&[d(b"Hey"), i("ASSOC"), i("COMMIT")]), i("WRITE")]),
        i("TRY"),
        i("DROP"),
        closure(&[d(b"Hey"), d(b"there"), i("ASSOC"), i("COMMIT")]),
        i("WRITE"),
        closure(&[d(b"Hey"), i("ASSOC?")]),
        i("READ"),
    ]);
    assert!(result.is_ok());
    assert_eq!(stack.pop().unwrap(), vec![0x01u8]);
}

#[test]
fn committed_values_are_read_back() {
    let (result, stack) = run(&[
        closure(&[d(b"k"), d(b"v"), i("ASSOC"), i("COMMIT")]),
        i("WRITE"),
        closure(&[d(b"k"), i("RETR")]),
        i("READ"),
    ]);
    assert!(result.is_ok());
    assert_eq!(stack, vec![b"v".to_vec()]);
}

#[test]
fn uncommitted_values_are_dropped() {
    let (result, stack) = run(&[
        closure(&[d(b"k"), d(b"v"), i("ASSOC"), d(b"k"), i("RETR")]),
        i("WRITE"),
        closure(&[d(b"k"), i("ASSOC?")]),
        i("READ"),
    ]);
    assert!(result.is_ok());
    assert_eq!(stack, vec![b"v".to_vec(), vec![0u8]]);
}

#[test]
fn values_are_never_overwritten() {
    let (result, _) = run(&[
        closure(&[d(b"k"), d(b"v"), i("ASSOC"), d(b"k"), d(b"w"), i("ASSOC"), i("COMMIT")]),
        i("WRITE"),
    ]);
    assert!(result.is_err());
    let (result, stack) = run(&[
        closure(&[d(b"k"), d(b"v"), i("ASSOC"), i("COMMIT")]),
        i("WRITE"),
        closure(&[closure(&[d(b"k"), d(b"w"), i("ASSOC"), i("COMMIT")]), i("WRITE")]),
        i("TRY"),
        i("DROP"),
        closure(&[d(b"k"), i("RETR")]),
        i("READ"),
    ]);
    assert!(result.is_ok());
    assert_eq!(stack, vec![b"v".to_vec()]);
}

#[test]
fn storage_errors() {
    let (result, _) = run(&[d(b"k"), d(b"v"), i("ASSOC")]);
    assert!(result.is_err());
    let (result, _) = run(&[closure(&[d(b"k"), i("RETR")]), i("READ")]);
    assert!(result.is_err());
    let (result, _) = run(&[closure(&[closure(&[]), i("WRITE")]), i("WRITE")]);
    assert!(result.is_err());
    let (result, _) = run(&[closure(&[d(b"k"), d(b"v"), i("ASSOC"), i("COMMIT")]), i("READ")]);
    assert!(result.is_err());
    let (result, _) = run(&[i("COMMIT")]);
    assert!(result.is_err());
}

#[test]
fn writers_take_turns() {
    let first = [closure(&[d(b"a"), d(b"1"), i("ASSOC"), d(b"b"), d(b"2"), i("ASSOC"), i("COMMIT")]), i("WRITE")].concat();
    let second = [closure(&[d(b"c"), d(b"3"), i("ASSOC"), i("COMMIT")]), i("WRITE"),
                  closure(&[d(b"a"), i("RETR"), d(b"c"), i("RETR")]), i("READ")].concat();
    let results = run_all(&[first, second]);
    assert!(results[0].0.is_ok());
    assert!(results[1].0.is_ok());
    assert_eq!(results[1].1, vec![b"1".to_vec(), b"3".to_vec()]);
}

#[test]
fn txn_order() {
    let (result, stack) = run(&[
        d(b"hello"),
        i("HLC"),
        i("CONCAT"),
        i("DUP"),
        closure(&[d(b"world"), i("ASSOC"), closure(&[i("ASSOC?")]), i("READ")]),
        i("WRITE"),
        d(&[0x00]),
        i("EQUAL?"),
    ]);
    assert!(result.is_ok());
    assert_eq!(stack, vec![vec![0x01u8]]);
}

#[test]
fn clock_readings() {
    let (result, stack) = run(&[i("HLC"), i("HLC")]);
    assert!(result.is_ok());
    assert_eq!(stack, vec![stamp(1), stamp(2)]);
    assert!(stack[0] < stack[1]);
    let (result, stack) = run(&[d(&stamp(100)), i("HLC/OBSERVE"), i("HLC/LC")]);
    assert!(result.is_ok());
    assert_eq!(stack, vec![vec![0u8, 0, 0, 0]]);
    let (result, stack) = run(&[d(&stamp(100)), i("HLC/OBSERVE")]);
    assert!(result.is_ok());
    assert!(stack[0] > stamp(100));
    let (result, _) = run(&[d(&[1, 2, 3]), i("HLC/OBSERVE")]);
    assert!(result.is_err());
}

/// The value `?CURSOR/...` pushes for a pair.
fn item(key: &[u8], value: &[u8]) -> Vec<u8> {
    [d(key), d(value)].concat()
}

#[test]
fn cursors_walk_the_pairs() {
    let fill = [
        closure(&[d(b"a"), d(b"1"), i("ASSOC"), d(b"b"), d(b"2"), i("ASSOC"), d(b"c"), d(b"3"), i("ASSOC"), i("COMMIT")]),
        i("WRITE"),
    ]
    .concat();
    let walk = |ops: &[Vec<u8>]| {
        let mut body = vec![i("CURSOR")];
        for op in ops {
            body.push(i("DUP"));
            body.push(op.clone());
            body.push(i("SWAP"));
        }
        body.push(i("DROP"));
        let (result, stack) = run(&[fill.clone(), closure(&body), i("READ")]);
        assert!(result.is_ok());
        stack
    };
    assert_eq!(walk(&[i("?CURSOR/FIRST"), i("?CURSOR/NEXT"), i("?CURSOR/NEXT"), i("?CURSOR/NEXT")]),
               vec![item(b"a", b"1"), item(b"b", b"2"), item(b"c", b"3"), Vec::new()]);
    assert_eq!(walk(&[i("?CURSOR/LAST"), i("?CURSOR/PREV"), i("?CURSOR/CUR")]),
               vec![item(b"c", b"3"), item(b"b", b"2"), item(b"b", b"2")]);
    assert_eq!(walk(&[i("CURSOR/FIRST?"), i("CURSOR/PREV?"), i("CURSOR/LAST?")]),
               vec![vec![1u8], vec![0u8], vec![1u8]]);
}

#[test]
fn cursor_seek_and_errors() {
    let fill = [
        closure(&[d(b"a"), d(b"1"), i("ASSOC"), d(b"c"), d(b"3"), i("ASSOC"), i("COMMIT")]),
        i("WRITE"),
    ]
    .concat();
    let (result, stack) = run(&[
        fill.clone(),
        closure(&[i("CURSOR"), i("DUP"), d(b"b"), i("?CURSOR/SEEK"), i("SWAP"), d(b"d"), i("CURSOR/SEEK?")]),
        i("READ"),
    ]);
    assert!(result.is_ok());
    assert_eq!(stack, vec![item(b"c", b"3"), vec![0u8]]);
    let (result, _) = run(&[i("CURSOR")]);
    assert!(result.is_err());
    let (result, _) = run(&[fill, closure(&[d(b"nope"), i("?CURSOR/FIRST")]), i("READ")]);
    assert!(result.is_err());
}
