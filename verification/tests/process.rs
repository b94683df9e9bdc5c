use byteorder::{ByteOrder, LittleEndian};
use decefi::account::{Account, ACCOUNT_LEN, MAX_ORDERS};
use decefi::decefi::{apply_instruction, overwrite, owned_by, AccountHandle, Decefi};
use decefi::error::{DecefiError, DecefiErrorCode};
use decefi::instructions::{CancelOrderInstruction, DecefiInstruction, NewOrderInstruction};
use decefi::order::{Order, OrderState};
use decefi::process_instruction;
use decefi::transaction::{copy_of, process_encoded, restore, snapshot};

const PROGRAM: [u8; 32] = [9u8; 32];

fn handle(buffer: usize) -> AccountHandle {
    AccountHandle { owner: PROGRAM, buffer }
}

fn new_order(id: u8) -> DecefiInstruction {
    let mut hash = [0u8; 256];
    hash[0] = id;
    hash[31] = 0x77;
    hash[32] = 0xaa;
    hash[255] = 0xbb;
    DecefiInstruction::NewOrder(NewOrderInstruction { hash })
}

fn stored_order(id: u8) -> Order {
    let mut order_hash = [0u8; 32];
    order_hash[0] = id;
    order_hash[31] = 0x77;
    Order { state: OrderState::Waiting, order_hash, paid_back: 0, dcfi_reserved: 0 }
}

fn cancel(order_id: u128, owner_slot: u8) -> DecefiInstruction {
    DecefiInstruction::CancelOrder(CancelOrderInstruction { order_id, owner: 0, owner_slot })
}

fn empty_account() -> Vec<u8> {
    Account::default().pack().unwrap()
}

fn code(category: DecefiErrorCode) -> Result<(), DecefiError> {
    Err(DecefiError::ErrorCode(category))
}

#[test]
fn test_sanity() {
    let program_id = [0u8; 32];
    let mut data = vec![0; std::mem::size_of::<u64>()];
    LittleEndian::write_u64(&mut data, 0);
    let owner = [0u8; 32];
    let account = AccountHandle { owner, buffer: 0 };
    let instruction_data: Vec<u8> = Vec::new();

    let accounts = vec![account];
    let mut buffers = vec![data];

    assert_eq!(LittleEndian::read_u64(&buffers[0]), 0);
    let result = process_instruction(&program_id, &accounts, &mut buffers, &instruction_data);
    assert_eq!(result, code(DecefiErrorCode::WrongInput));
    assert_eq!(LittleEndian::read_u64(&buffers[0]), 0);
    let result = process_instruction(&program_id, &accounts, &mut buffers, &instruction_data);
    assert_eq!(result, code(DecefiErrorCode::WrongInput));
    assert_eq!(LittleEndian::read_u64(&buffers[0]), 0);
    assert_eq!(buffers, vec![vec![0u8; 8]]);
}

#[test]
fn deposits_count_up_the_reserve() {
    let accounts = vec![handle(0)];
    let mut buffers = vec![empty_account()];
    let deposit = DecefiInstruction::Deposit(1).pack();
    assert_eq!(LittleEndian::read_u64(&buffers[0]), 0);
    process_instruction(&PROGRAM, &accounts, &mut buffers, &deposit).unwrap();
    assert_eq!(LittleEndian::read_u64(&buffers[0]), 1);
    process_instruction(&PROGRAM, &accounts, &mut buffers, &deposit).unwrap();
    assert_eq!(LittleEndian::read_u64(&buffers[0]), 2);
    assert_eq!(buffers[0].len(), ACCOUNT_LEN);
}

#[test]
fn withdraw_takes_from_the_reserve() {
    let accounts = vec![handle(0)];
    let mut buffers = vec![empty_account()];
    let deposit = DecefiInstruction::Deposit(100).pack();
    let withdraw = DecefiInstruction::Withdraw(40).pack();
    assert_eq!(process_instruction(&PROGRAM, &accounts, &mut buffers, &deposit), Ok(()));
    assert_eq!(process_instruction(&PROGRAM, &accounts, &mut buffers, &withdraw), Ok(()));
    assert_eq!(Account::unpack(&buffers[0]).unwrap().reserved(), 60);
}

#[test]
fn withdraw_past_the_reserve_fails_and_changes_nothing() {
    let accounts = vec![handle(0)];
    let mut buffers = vec![empty_account()];
    let deposit = DecefiInstruction::Deposit(5).pack();
    process_instruction(&PROGRAM, &accounts, &mut buffers, &deposit).unwrap();
    let before = buffers.clone();
    let withdraw = DecefiInstruction::Withdraw(6).pack();
    assert_eq!(
        process_instruction(&PROGRAM, &accounts, &mut buffers, &withdraw),
        code(DecefiErrorCode::InvalidAmount)
    );
    assert_eq!(buffers, before);
}

#[test]
fn deposit_past_u64_fails_and_changes_nothing() {
    let accounts = vec![handle(0)];
    let mut buffers = vec![empty_account()];
    let all = DecefiInstruction::Deposit(u64::MAX).pack();
    process_instruction(&PROGRAM, &accounts, &mut buffers, &all).unwrap();
    let before = buffers.clone();
    let one = DecefiInstruction::Deposit(1).pack();
    assert_eq!(
        process_instruction(&PROGRAM, &accounts, &mut buffers, &one),
        code(DecefiErrorCode::InvalidAmount)
    );
    assert_eq!(buffers, before);
}

#[test]
fn new_order_stores_a_waiting_order_under_the_first_32_bytes() {
    let accounts = vec![handle(0)];
    let mut buffers = vec![empty_account()];
    let result = process_instruction(&PROGRAM, &accounts, &mut buffers, &new_order(4).pack());
    assert_eq!(result, Ok(()));
    let account = Account::unpack(&buffers[0]).unwrap();
    assert_eq!(account.orders().len(), 1);
    assert_eq!(account.orders().get(0), Some(stored_order(4)));
    assert_eq!(account.reserved(), 0);
}

#[test]
fn the_same_order_twice_fails_the_second_time() {
    let accounts = vec![handle(0)];
    let mut buffers = vec![empty_account()];
    let input = new_order(4).pack();
    assert_eq!(process_instruction(&PROGRAM, &accounts, &mut buffers, &input), Ok(()));
    let before = buffers.clone();
    assert_eq!(
        process_instruction(&PROGRAM, &accounts, &mut buffers, &input),
        code(DecefiErrorCode::InvalidHash)
    );
    assert_eq!(buffers, before);
    assert_eq!(Account::unpack(&buffers[0]).unwrap().orders().len(), 1);
}

#[test]
fn an_order_with_a_zero_hash_is_refused() {
    let accounts = vec![handle(0)];
    let mut buffers = vec![empty_account()];
    let mut hash = [0u8; 256];
    hash[32] = 1;
    hash[255] = 1;
    let input = DecefiInstruction::NewOrder(NewOrderInstruction { hash }).pack();
    assert_eq!(
        process_instruction(&PROGRAM, &accounts, &mut buffers, &input),
        code(DecefiErrorCode::InvalidHash)
    );
    assert_eq!(buffers, vec![empty_account()]);
}

#[test]
fn one_order_more_than_the_buffer_holds_is_refused() {
    let accounts = vec![handle(0)];
    let mut buffers = vec![empty_account()];
    for id in 0..(MAX_ORDERS as u8) {
        let input = new_order(id + 1).pack();
        assert_eq!(process_instruction(&PROGRAM, &accounts, &mut buffers, &input), Ok(()));
    }
    let before = buffers.clone();
    let input = new_order(200).pack();
    assert_eq!(
        process_instruction(&PROGRAM, &accounts, &mut buffers, &input),
        code(DecefiErrorCode::WrongInput)
    );
    assert_eq!(buffers, before);
    assert_eq!(Account::unpack(&buffers[0]).unwrap().orders().len(), MAX_ORDERS);
}

#[test]
fn cancel_order_removes_the_order() {
    let accounts = vec![handle(0)];
    let mut buffers = vec![empty_account()];
    for id in [1u8, 2, 3] {
        process_instruction(&PROGRAM, &accounts, &mut buffers, &new_order(id).pack()).unwrap();
    }
    let id = stored_order(2).order_id();
    assert_eq!(process_instruction(&PROGRAM, &accounts, &mut buffers, &cancel(id, 1).pack()), Ok(()));
    let account = Account::unpack(&buffers[0]).unwrap();
    assert_eq!(account.orders().len(), 2);
    assert_eq!(account.orders().get(0), Some(stored_order(1)));
    assert_eq!(account.orders().get(1), Some(stored_order(3)));
}

#[test]
fn cancel_order_reports_no_trade_and_no_permission() {
    let accounts = vec![handle(0)];
    let mut buffers = vec![empty_account()];
    process_instruction(&PROGRAM, &accounts, &mut buffers, &new_order(1).pack()).unwrap();
    process_instruction(&PROGRAM, &accounts, &mut buffers, &new_order(2).pack()).unwrap();
    let before = buffers.clone();
    let known = stored_order(2).order_id();
    assert_eq!(
        process_instruction(&PROGRAM, &accounts, &mut buffers, &cancel(known, 0).pack()),
        code(DecefiErrorCode::NoPermission)
    );
    assert_eq!(
        process_instruction(&PROGRAM, &accounts, &mut buffers, &cancel(known + 1, 1).pack()),
        code(DecefiErrorCode::NoTrade)
    );
    assert_eq!(buffers, before);
}

#[test]
fn undecodable_input_touches_nothing() {
    let accounts = vec![handle(0), handle(1)];
    let garbage = vec![0xde, 0xad, 0xbe, 0xef];
    let mut buffers = vec![empty_account(), garbage.clone()];
    let before = buffers.clone();
    for input in [vec![], vec![1, 0, 0, 0, 0, 1, 0, 0, 0, 0, 0, 0, 0], vec![0u8; 513], vec![0, 9, 0, 0, 0]] {
        assert_eq!(
            process_instruction(&PROGRAM, &accounts, &mut buffers, &input),
            code(DecefiErrorCode::WrongInput)
        );
        assert_eq!(buffers, before);
    }
    let mut none: Vec<Vec<u8>> = Vec::new();
    assert_eq!(
        process_instruction(&PROGRAM, &[], &mut none, &[]),
        code(DecefiErrorCode::WrongInput)
    );
}

#[test]
fn a_call_without_accounts_is_wrong_input() {
    let mut buffers = vec![empty_account()];
    let deposit = DecefiInstruction::Deposit(1).pack();
    assert_eq!(
        process_instruction(&PROGRAM, &[], &mut buffers, &deposit),
        code(DecefiErrorCode::WrongInput)
    );
    assert_eq!(buffers, vec![empty_account()]);
}

#[test]
fn a_handle_without_a_buffer_is_a_borrow_error() {
    let mut buffers = vec![empty_account()];
    let deposit = DecefiInstruction::Deposit(1).pack();
    assert_eq!(
        process_instruction(&PROGRAM, &[handle(1)], &mut buffers, &deposit),
        code(DecefiErrorCode::BorrowError)
    );
    assert_eq!(
        process_instruction(&PROGRAM, &[handle(usize::MAX)], &mut buffers, &deposit),
        code(DecefiErrorCode::BorrowError)
    );
    assert_eq!(buffers, vec![empty_account()]);
}

#[test]
fn a_buffer_that_holds_no_account_fails_deserialization() {
    let deposit = DecefiInstruction::Deposit(1).pack();
    let mut short = vec![vec![0u8; 8]];
    assert_eq!(
        process_instruction(&PROGRAM, &[handle(0)], &mut short, &deposit),
        code(DecefiErrorCode::DeserializationFailed)
    );
    assert_eq!(short, vec![vec![0u8; 8]]);
    let mut dirty = empty_account();
    dirty[ACCOUNT_LEN - 1] = 1;
    let mut buffers = vec![dirty.clone()];
    assert_eq!(
        process_instruction(&PROGRAM, &[handle(0)], &mut buffers, &deposit),
        code(DecefiErrorCode::DeserializationFailed)
    );
    assert_eq!(buffers, vec![dirty]);
}

#[test]
fn only_the_first_handles_buffer_changes() {
    let accounts = vec![handle(1), handle(0), handle(2)];
    let other = vec![7u8; 20];
    let mut buffers = vec![empty_account(), empty_account(), other.clone()];
    let deposit = DecefiInstruction::Deposit(3).pack();
    assert_eq!(process_instruction(&PROGRAM, &accounts, &mut buffers, &deposit), Ok(()));
    assert_eq!(buffers[0], empty_account());
    assert_eq!(LittleEndian::read_u64(&buffers[1]), 3);
    assert_eq!(buffers[2], other);
}

#[test]
fn handles_that_share_a_buffer_see_one_account() {
    let accounts = vec![handle(0), handle(0)];
    let mut buffers = vec![empty_account()];
    let deposit = DecefiInstruction::Deposit(8).pack();
    assert_eq!(process_instruction(&PROGRAM, &accounts, &mut buffers, &deposit), Ok(()));
    assert_eq!(buffers.len(), 1);
    assert_eq!(LittleEndian::read_u64(&buffers[0]), 8);
}

#[test]
fn a_failure_under_aliasing_restores_the_buffer_exactly() {
    let accounts = vec![handle(0), handle(0)];
    let mut buffers = vec![empty_account()];
    let deposit = DecefiInstruction::Deposit(8).pack();
    process_instruction(&PROGRAM, &accounts, &mut buffers, &deposit).unwrap();
    process_instruction(&PROGRAM, &accounts, &mut buffers, &new_order(1).pack()).unwrap();
    let original = buffers.clone();
    let withdraw = DecefiInstruction::Withdraw(9).pack();
    assert_eq!(
        process_instruction(&PROGRAM, &accounts, &mut buffers, &withdraw),
        code(DecefiErrorCode::InvalidAmount)
    );
    assert_eq!(buffers, original);
    assert_eq!(
        process_instruction(&PROGRAM, &accounts, &mut buffers, &new_order(1).pack()),
        code(DecefiErrorCode::InvalidHash)
    );
    assert_eq!(buffers, original);
    assert_eq!(buffers.len(), 1);
}

#[test]
fn process_and_process_instruction_agree() {
    let accounts = vec![handle(0)];
    let inputs = vec![
        DecefiInstruction::Deposit(10).pack(),
        new_order(1).pack(),
        new_order(1).pack(),
        DecefiInstruction::Withdraw(11).pack(),
        cancel(stored_order(1).order_id(), 0).pack(),
        vec![3, 3, 3],
    ];
    let mut plain = vec![empty_account()];
    let mut guarded = vec![empty_account()];
    for input in inputs {
        let a = Decefi::process(&PROGRAM, &accounts, &mut plain, &input);
        let b = process_instruction(&PROGRAM, &accounts, &mut guarded, &input);
        assert_eq!(a, b);
        assert_eq!(plain, guarded);
    }
    assert_eq!(Account::unpack(&plain[0]).unwrap().reserved(), 10);
    assert_eq!(Account::unpack(&plain[0]).unwrap().orders().len(), 0);
}

#[test]
fn restore_undoes_a_partial_overwrite() {
    let mut buffers = vec![empty_account(), vec![1, 2, 3, 4], Vec::new()];
    let saved = snapshot(&buffers);
    assert_eq!(saved, buffers);
    for byte in buffers[0].iter_mut().take(100) {
        *byte = 0xff;
    }
    buffers[1][2] = 9;
    assert_ne!(saved, buffers);
    restore(&mut buffers, &saved);
    assert_eq!(buffers, vec![empty_account(), vec![1, 2, 3, 4], Vec::new()]);
}

#[test]
fn snapshot_is_a_copy_of_its_own() {
    let mut buffers = vec![vec![1u8, 2, 3]];
    let saved = snapshot(&buffers);
    buffers[0][0] = 50;
    assert_eq!(saved, vec![vec![1u8, 2, 3]]);
    assert_eq!(copy_of(&[4, 5, 6]), vec![4, 5, 6]);
    assert_eq!(copy_of(&[]), Vec::<u8>::new());
}

#[test]
fn overwrite_replaces_every_byte() {
    let mut buffer = vec![1u8, 2, 3, 4];
    overwrite(&mut buffer, &[9, 8, 7, 6]);
    assert_eq!(buffer, vec![9, 8, 7, 6]);
}

#[test]
fn apply_instruction_leaves_the_account_alone_on_failure() {
    let mut account = Account::default();
    assert_eq!(apply_instruction(&mut account, &new_order(1)), Ok(()));
    assert_eq!(apply_instruction(&mut account, &DecefiInstruction::Deposit(4)), Ok(()));
    let before = account.clone();
    assert_eq!(
        apply_instruction(&mut account, &new_order(1)),
        Err(DecefiErrorCode::InvalidHash)
    );
    assert_eq!(
        apply_instruction(&mut account, &DecefiInstruction::Withdraw(5)),
        Err(DecefiErrorCode::InvalidAmount)
    );
    assert_eq!(
        apply_instruction(&mut account, &DecefiInstruction::Deposit(0)),
        Err(DecefiErrorCode::InvalidAmount)
    );
    assert_eq!(apply_instruction(&mut account, &cancel(99, 0)), Err(DecefiErrorCode::NoTrade));
    assert_eq!(account, before);
    assert_eq!(apply_instruction(&mut account, &cancel(stored_order(1).order_id(), 0)), Ok(()));
    assert_eq!(account.orders().len(), 0);
    assert_eq!(account.reserved(), 4);
}

#[test]
fn the_host_sees_one_code_per_error() {
    let accounts = vec![handle(0)];
    let mut buffers = vec![empty_account()];
    assert_eq!(process_encoded(&PROGRAM, &accounts, &mut buffers, &[]), Err(6));
    assert_eq!(process_encoded(&PROGRAM, &accounts, &mut buffers, &new_order(1).pack()), Ok(()));
    assert_eq!(process_encoded(&PROGRAM, &accounts, &mut buffers, &new_order(1).pack()), Err(0));
    let before = buffers.clone();
    let withdraw = DecefiInstruction::Withdraw(1).pack();
    assert_eq!(process_encoded(&PROGRAM, &accounts, &mut buffers, &withdraw), Err(1));
    assert_eq!(process_encoded(&PROGRAM, &accounts, &mut buffers, &cancel(1000, 0).pack()), Err(5));
    let known = stored_order(1).order_id();
    assert_eq!(process_encoded(&PROGRAM, &accounts, &mut buffers, &cancel(known, 3).pack()), Err(4));
    assert_eq!(process_encoded(&PROGRAM, &[handle(5)], &mut buffers, &withdraw), Err(7));
    assert_eq!(buffers, before);
    let mut broken = vec![vec![1u8, 2, 3]];
    assert_eq!(process_encoded(&PROGRAM, &accounts, &mut broken, &withdraw), Err(3));
    assert_eq!(broken, vec![vec![1u8, 2, 3]]);
}

#[test]
fn an_account_of_another_owner_is_not_touched() {
    let stranger = AccountHandle { owner: [8u8; 32], buffer: 0 };
    assert!(!owned_by(&stranger, &PROGRAM));
    assert!(owned_by(&handle(0), &PROGRAM));
    let mut buffers = vec![empty_account()];
    let deposit = DecefiInstruction::Deposit(1).pack();
    assert_eq!(
        process_instruction(&PROGRAM, &[stranger, handle(0)], &mut buffers, &deposit),
        code(DecefiErrorCode::NoPermission)
    );
    assert_eq!(buffers, vec![empty_account()]);
    let mut last_byte = PROGRAM;
    last_byte[31] ^= 1;
    let near = AccountHandle { owner: last_byte, buffer: 0 };
    assert_eq!(process_encoded(&PROGRAM, &[near], &mut buffers, &deposit), Err(4));
    assert_eq!(
        process_instruction(&PROGRAM, &[handle(0), stranger], &mut buffers, &deposit),
        Ok(())
    );
    assert_eq!(LittleEndian::read_u64(&buffers[0]), 1);
}
