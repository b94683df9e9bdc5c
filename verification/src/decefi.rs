//! The processor: one instruction, applied to the account that the first
//! handle names.
//!
//! The byte buffers of a call stand in one list, and a handle names its
//! buffer by position in that list. Two handles that name the same position
//! share one buffer. The processor writes only to an account that the program
//! itself owns.

use crate::account::{decode_account, encode_account, Account, AccountView};
use crate::bytes::all_zero;
use crate::error::{DecefiError, DecefiErrorCode, DecefiResult};
use crate::instructions::{decode, DecefiInstruction, Instruction};
use crate::order::{hash_is_zero, same_hash, Order, OrderState, OrderView, HASH_LEN};
use vstd::prelude::*;

verus! {

/// An identity of the ledger: of a program, or of an account's owner.
pub type Pubkey = [u8; 32];

/// One entry of the account list of a call.
#[derive(Debug, Clone, Copy, PartialEq, Eq)]
pub struct AccountHandle {
    /// Who owns the account.
    pub owner: Pubkey,
    /// Position of the account's buffer in the list of buffers.
    pub buffer: usize,
}

/// The processor. It has no state of its own: all state is in the buffers.
#[derive(Debug, Default, Clone, Copy, PartialEq, Eq)]
pub struct Decefi {}

/// What the buffers of a call hold, buffer by buffer.
pub open spec fn contents(buffers: Seq<Vec<u8>>) -> Seq<Seq<u8>> {
    Seq::new(buffers.len(), |i: int| buffers[i]@)
}

/// The order that a `NewOrder` payload asks for: waiting, nothing paid and
/// nothing reserved, its hash the first 32 bytes of the payload.
pub open spec fn new_order(payload: Seq<u8>) -> OrderView {
    OrderView {
        state: OrderState::Waiting,
        order_hash: payload.subrange(0, HASH_LEN as int),
        paid_back: 0,
        reserved: 0,
    }
}

/// What an instruction makes of an account.
///
/// A deposit adds to the reserve and a withdrawal takes from it. A new order
/// is refused with `InvalidHash` if its hash is all zero or is already in the
/// account. A cancellation goes by the account's rule.
pub open spec fn apply(account: AccountView, instruction: Instruction) -> Result<
    AccountView,
    DecefiErrorCode,
> {
    match instruction {
        Instruction::Deposit(amount) => account.deposit(amount),
        Instruction::Withdraw(amount) => account.withdraw(amount),
        Instruction::NewOrder(payload) => if all_zero(new_order(payload).order_hash)
            || !account.accepts(new_order(payload)) {
            Err(DecefiErrorCode::InvalidHash)
        } else {
            Ok(account.with_order(new_order(payload)))
        },
        Instruction::CancelOrder { order_id, owner, owner_slot } => account.cancel(
            order_id,
            owner_slot,
        ),
    }
}

/// What a call makes of the buffers, or the error it ends with.
///
/// In this order: an input that is no instruction is `WrongInput`; so is an
/// empty account list; a first handle whose owner is not the program is
/// `NoPermission`; one that names no buffer is `BorrowError`; a buffer that
/// holds no account is `DeserializationFailed`; then the instruction's own
/// error; and an account that has outgrown its buffer is `WrongInput`.
/// Otherwise the buffer of the first handle holds the new account, and every
/// other buffer is as it was.
pub open spec fn process_outcome(
    program_id: Seq<u8>,
    accounts: Seq<AccountHandle>,
    buffers: Seq<Seq<u8>>,
    input: Seq<u8>,
) -> Result<Seq<Seq<u8>>, DecefiError> {
    match decode(input) {
        None => Err(DecefiError::ErrorCode(DecefiErrorCode::WrongInput)),
        Some(instruction) => if accounts.len() == 0 {
            Err(DecefiError::ErrorCode(DecefiErrorCode::WrongInput))
        } else if accounts[0].owner@ != program_id {
            Err(DecefiError::ErrorCode(DecefiErrorCode::NoPermission))
        } else if accounts[0].buffer >= buffers.len() {
            Err(DecefiError::ErrorCode(DecefiErrorCode::BorrowError))
        } else {
            match decode_account(buffers[accounts[0].buffer as int]) {
                None => Err(DecefiError::ErrorCode(DecefiErrorCode::DeserializationFailed)),
                Some(account) => match apply(account, instruction) {
                    Err(error) => Err(DecefiError::ErrorCode(error)),
                    Ok(after) => if after.fits() {
                        Ok(buffers.update(accounts[0].buffer as int, encode_account(after)))
                    } else {
                        Err(DecefiError::ErrorCode(DecefiErrorCode::WrongInput))
                    },
                },
            }
        },
    }
}

/// Whether the program owns the account behind a handle.
pub fn owned_by(handle: &AccountHandle, program_id: &Pubkey) -> (owned: bool)
    ensures
        owned == (handle.owner@ == program_id@),
{
    same_hash(&handle.owner, program_id)
}

/// Applies an instruction to an account.
pub fn apply_instruction(account: &mut Account, instruction: &DecefiInstruction) -> (result:
    Result<(), DecefiErrorCode>)
    ensures
        match apply(old(account)@, instruction@) {
            Ok(after) => result is Ok && final(account)@ == after,
            Err(error) => result == Err::<(), DecefiErrorCode>(error) && final(account)@ == old(
                account,
            )@,
        },
        old(account)@.wf() ==> final(account)@.wf(),
{
    match instruction {
        DecefiInstruction::Deposit(amount) => account.deposit(*amount),
        DecefiInstruction::Withdraw(amount) => account.withdraw(*amount),
        DecefiInstruction::NewOrder(inner) => {
            let mut order_hash: [u8; 32] = [0u8; 32];
            let mut i: usize = 0;
            while i < HASH_LEN
                invariant
                    i <= HASH_LEN,
                    forall|k: int| 0 <= k < i ==> order_hash@[k] == inner.hash@[k],
                decreases HASH_LEN - i,
            {
                order_hash[i] = inner.hash[i];
                i = i + 1;
            }
            let order = Order {
                state: OrderState::Waiting,
                order_hash,
                paid_back: 0,
                dcfi_reserved: 0,
            };
            assert(order_hash@ =~= inner.hash@.subrange(0, HASH_LEN as int));
            assert(order@ == new_order(inner.hash@));
            if hash_is_zero(&order.order_hash) {
                return Err(DecefiErrorCode::InvalidHash);
            }
            if account.create_order(order) {
                Ok(())
            } else {
                Err(DecefiErrorCode::InvalidHash)
            }
        },
        DecefiInstruction::CancelOrder(inner) => account.cancel_order(
            inner.order_id,
            inner.owner_slot,
        ),
    }
}

/// Writes `bytes` over a buffer of the same length, in place.
pub fn overwrite(buffer: &mut Vec<u8>, bytes: &[u8])
    requires
        old(buffer)@.len() == bytes@.len(),
    ensures
        final(buffer)@ == bytes@,
{
    let len: usize = bytes.len();
    let mut i: usize = 0;
    while i < len
        invariant
            i <= len,
            len == bytes@.len(),
            buffer@.len() == len,
            forall|k: int| 0 <= k < i ==> buffer@[k] == bytes@[k],
        decreases len - i,
    {
        buffer.set(i, bytes[i]);
        i = i + 1;
    }
    assert(buffer@ =~= bytes@);
}

impl Decefi {
    /// Decodes `input` and applies it to the account in the buffer that the
    /// first handle names, writing the new account over the old one.
    ///
    /// Nothing is written before every check has passed, so a call that
    /// fails leaves every buffer as it was.
    pub fn process(
        program_id: &Pubkey,
        accounts: &[AccountHandle],
        buffers: &mut Vec<Vec<u8>>,
        input: &[u8],
    ) -> (result: DecefiResult)
        ensures
            match process_outcome(program_id@, accounts@, contents(old(buffers)@), input@) {
                Ok(after) => result is Ok && contents(final(buffers)@) == after,
                Err(error) => result == Err::<(), DecefiError>(error) && contents(final(buffers)@)
                    == contents(old(buffers)@),
            },
    {
        let command = match DecefiInstruction::unpack(input) {
            Some(command) => command,
            None => {
                return Err(DecefiError::ErrorCode(DecefiErrorCode::WrongInput));
            },
        };
        if accounts.len() == 0 {
            return Err(DecefiError::ErrorCode(DecefiErrorCode::WrongInput));
        }
        if !owned_by(&accounts[0], program_id) {
            return Err(DecefiError::ErrorCode(DecefiErrorCode::NoPermission));
        }
        let slot: usize = accounts[0].buffer;
        if slot >= buffers.len() {
            return Err(DecefiError::ErrorCode(DecefiErrorCode::BorrowError));
        }
        let mut account = match Account::unpack(buffers[slot].as_slice()) {
            Some(account) => account,
            None => {
                return Err(DecefiError::ErrorCode(DecefiErrorCode::DeserializationFailed));
            },
        };
        match apply_instruction(&mut account, &command) {
            Ok(()) => {},
            Err(error) => {
                return Err(DecefiError::ErrorCode(error));
            },
        }
        let bytes = match account.pack() {
            Some(bytes) => bytes,
            None => {
                return Err(DecefiError::ErrorCode(DecefiErrorCode::WrongInput));
            },
        };
        overwrite(&mut buffers[slot], bytes.as_slice());
        assert(contents(buffers@) =~= contents(old(buffers)@).update(slot as int, bytes@));
        Ok(())
    }
}

} // verus!
