use pumpkindb::txn_stack::{InsertError, TxnStack};

#[test]
fn create_txn_stack() {
    let txn_stack: TxnStack<String> = TxnStack::new(usize::max_value());
    assert_eq!(txn_stack.capacity(), usize::max_value());
}

#[test]
fn txn_stack_max_size() {
    let mut txn_stack: TxnStack<String> = TxnStack::new(1);
    assert_eq!(txn_stack.push("a".to_owned()).unwrap(), 1);
    assert_eq!(txn_stack.push("a".to_owned()).unwrap_err(), InsertError::Full);
}

#[test]
fn txn_stack_push_pop() {
    let mut txn_stack: TxnStack<String> = TxnStack::new(10);
    assert_eq!(txn_stack.len(), 0);
    assert_eq!(txn_stack.push("a".to_owned()).unwrap(), 1);
    assert_eq!(txn_stack.len(), 1);
    assert_eq!(txn_stack.pop().unwrap(), "a".to_owned());
    assert_eq!(txn_stack.len(), 0);
}

#[test]
fn txn_stack_full_keeps_contents() {
    let mut txn_stack: TxnStack<u8> = TxnStack::new(2);
    assert_eq!(txn_stack.push(7).unwrap(), 1);
    assert_eq!(txn_stack.push(8).unwrap(), 2);
    assert_eq!(txn_stack.push(9).unwrap_err(), InsertError::Full);
    assert_eq!(txn_stack.len(), 2);
    assert_eq!(txn_stack.peek(), Some(&8));
}
