//! All or nothing: a call either succeeds, or leaves every buffer as it found it.
//!
//! The host offers no commit over several buffers, so the processor makes its
//! own: every buffer of the call is copied before the instruction runs, and a
//! failure writes the copies back. The copy is taken per buffer, not per
//! handle, so a buffer that several handles name is saved once and restored
//! once.

use crate::account::{
    decode_account, lemma_cancel_keeps_wf, lemma_create_order_once, lemma_decode_encode_account,
    lemma_encode_decode_account, AccountView, ACCOUNT_LEN,
};
use crate::decefi::{
    apply, contents, new_order, overwrite, process_outcome, AccountHandle, Decefi, Pubkey,
};
use crate::error::{DecefiError, DecefiErrorCode, DecefiResult};
use crate::instructions::{decode, lemma_encode_decode, Instruction};
use vstd::prelude::*;

verus! {

/// Whether two lists of buffers have the same number of buffers, of the same lengths.
pub open spec fn same_shape(a: Seq<Seq<u8>>, b: Seq<Seq<u8>>) -> bool {
    &&& a.len() == b.len()
    &&& forall|i: int| 0 <= i < a.len() ==> (#[trigger] a[i]).len() == b[i].len()
}

/// A copy of a byte string.
pub fn copy_of(bytes: &[u8]) -> (copy: Vec<u8>)
    ensures
        copy@ == bytes@,
{
    let len: usize = bytes.len();
    let mut copy: Vec<u8> = Vec::new();
    let mut i: usize = 0;
    while i < len
        invariant
            i <= len,
            len == bytes@.len(),
            copy@ == bytes@.subrange(0, i as int),
        decreases len - i,
    {
        copy.push(bytes[i]);
        i = i + 1;
    }
    assert(bytes@.subrange(0, len as int) =~= bytes@);
    copy
}

/// A copy of every buffer, position by position.
pub fn snapshot(buffers: &Vec<Vec<u8>>) -> (saved: Vec<Vec<u8>>)
    ensures
        contents(saved@) == contents(buffers@),
{
    let mut saved: Vec<Vec<u8>> = Vec::new();
    let mut i: usize = 0;
    while i < buffers.len()
        invariant
            i <= buffers@.len(),
            saved@.len() == i,
            forall|k: int| 0 <= k < i ==> (#[trigger] saved@[k])@ == buffers@[k]@,
        decreases buffers@.len() - i,
    {
        saved.push(copy_of(buffers[i].as_slice()));
        i = i + 1;
    }
    assert(contents(saved@) =~= contents(buffers@));
    saved
}

/// Writes a snapshot back, in place. Whatever the buffers held, afterwards
/// they hold what the snapshot holds.
pub fn restore(buffers: &mut Vec<Vec<u8>>, saved: &Vec<Vec<u8>>)
    requires
        same_shape(contents(old(buffers)@), contents(saved@)),
    ensures
        contents(final(buffers)@) == contents(saved@),
{
    let count: usize = buffers.len();
    let mut i: usize = 0;
    assert forall|k: int| 0 <= k < count implies (#[trigger] buffers@[k])@.len()
        == saved@[k]@.len() by {
        assert(contents(buffers@)[k].len() == contents(saved@)[k].len());
    }
    while i < count
        invariant
            i <= count,
            count == buffers@.len(),
            count == saved@.len(),
            forall|k: int| 0 <= k < count ==> (#[trigger] buffers@[k])@.len() == saved@[k]@.len(),
            forall|k: int| 0 <= k < i ==> (#[trigger] buffers@[k])@ == saved@[k]@,
        decreases count - i,
    {
        overwrite(&mut buffers[i], saved[i].as_slice());
        i = i + 1;
    }
    assert(contents(buffers@) =~= contents(saved@));
}

/// Processes one instruction as a transaction over the buffers of the call.
///
/// The result, and on success the new buffers, are those of `Decefi::process`.
/// On failure every buffer is written back from the copy taken on entry.
pub fn process_instruction(
    program_id: &Pubkey,
    accounts: &[AccountHandle],
    buffers: &mut Vec<Vec<u8>>,
    instruction_data: &[u8],
) -> (result: DecefiResult)
    ensures
        match process_outcome(
            program_id@,
            accounts@,
            contents(old(buffers)@),
            instruction_data@,
        ) {
            Ok(after) => result is Ok && contents(final(buffers)@) == after,
            Err(error) => result == Err::<(), DecefiError>(error),
        },
        result is Err ==> contents(final(buffers)@) == contents(old(buffers)@),
        decode(instruction_data@) is None ==> result is Err,
        same_shape(contents(final(buffers)@), contents(old(buffers)@)),
{
    let original_data = snapshot(buffers);
    let result = Decefi::process(program_id, accounts, buffers, instruction_data);
    proof {
        if result is Ok {
            lemma_outcome_keeps_layout(
                program_id@,
                accounts@,
                contents(old(buffers)@),
                instruction_data@,
            );
        }
    }
    if result.is_err() {
        restore(buffers, &original_data);
    }
    result
}

/// The call as the host sees it: success, or the one 32-bit code that the
/// error folds into. The buffers are left as `process_instruction` leaves them.
pub fn process_encoded(
    program_id: &Pubkey,
    accounts: &[AccountHandle],
    buffers: &mut Vec<Vec<u8>>,
    instruction_data: &[u8],
) -> (result: Result<(), u32>)
    ensures
        match process_outcome(
            program_id@,
            accounts@,
            contents(old(buffers)@),
            instruction_data@,
        ) {
            Ok(after) => result is Ok && contents(final(buffers)@) == after,
            Err(error) => result == Err::<(), u32>(error.code()) && contents(final(buffers)@)
                == contents(old(buffers)@),
        },
{
    match process_instruction(program_id, accounts, buffers, instruction_data) {
        Ok(()) => Ok(()),
        Err(error) => Err(u32::from(error)),
    }
}

/// An input that is no instruction fails with `WrongInput`, whatever the
/// accounts and whatever the buffers hold: nothing of them is looked at.
pub proof fn lemma_undecodable_input(
    program_id: Seq<u8>,
    accounts: Seq<AccountHandle>,
    buffers: Seq<Seq<u8>>,
    input: Seq<u8>,
)
    requires
        decode(input) is None,
    ensures
        process_outcome(program_id, accounts, buffers, input) == Err::<
            Seq<Seq<u8>>,
            DecefiError,
        >(DecefiError::ErrorCode(DecefiErrorCode::WrongInput)),
{
}

/// An instruction that `decode` gave keeps a well-formed account well-formed.
pub proof fn lemma_apply_keeps_wf(account: AccountView, instruction: Instruction)
    requires
        account.wf(),
        instruction.valid(),
        apply(account, instruction) is Ok,
    ensures
        apply(account, instruction)->Ok_0.wf(),
{
    match instruction {
        Instruction::NewOrder(payload) => {
            lemma_create_order_once(account, new_order(payload), new_order(payload));
        },
        Instruction::CancelOrder { order_id, owner, owner_slot } => {
            lemma_cancel_keeps_wf(account, order_id, owner_slot);
        },
        _ => {},
    }
}

/// A call that succeeds changes one buffer only, the first handle's; it
/// changes no length; and the changed buffer holds a well-formed account in
/// the full layout again.
pub proof fn lemma_outcome_keeps_layout(
    program_id: Seq<u8>,
    accounts: Seq<AccountHandle>,
    buffers: Seq<Seq<u8>>,
    input: Seq<u8>,
)
    requires
        process_outcome(program_id, accounts, buffers, input) is Ok,
    ensures
        ({
            let after = process_outcome(program_id, accounts, buffers, input)->Ok_0;
            let slot = accounts[0].buffer as int;
            &&& same_shape(after, buffers)
            &&& forall|i: int| 0 <= i < buffers.len() && i != slot ==> after[i] == buffers[i]
            &&& after[slot].len() == ACCOUNT_LEN
            &&& decode_account(after[slot]) is Some
            &&& decode_account(after[slot])->0.wf()
        }),
{
    let slot = accounts[0].buffer as int;
    let instruction = decode(input)->0;
    let account = decode_account(buffers[slot])->0;
    let after = apply(account, instruction)->Ok_0;
    lemma_encode_decode(input);
    lemma_encode_decode_account(buffers[slot]);
    lemma_apply_keeps_wf(account, instruction);
    lemma_decode_encode_account(after);
}

} // verus!
