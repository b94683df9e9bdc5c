//! An order, its life cycle, and its fixed-size record inside an account.
//!
//! ```text
//! byte 0        state: 0 Waiting, 1 Processing, 2 Finished, 3 Dispute
//! bytes 1..33   order hash
//! bytes 33..41  paid back, u64 little-endian
//! bytes 41..49  reserved, u64 little-endian
//! ```

use crate::bytes::{
    all_zero, le_bytes, le_value, lemma_le_bytes_len, lemma_le_bytes_of_value, lemma_le_value_bound,
    lemma_le_value_of_bytes, lemma_pow256_widths, push_le, read_u128_le, read_u64_le,
};
use crate::error::DecefiErrorCode;
use vstd::prelude::*;

verus! {

/// Length of an order hash.
pub const HASH_LEN: usize = 32;

/// Length of an order's record.
pub const ORDER_LEN: usize = 49;

/// Where an order stands in its life cycle.
#[derive(Clone, Copy, Debug, PartialEq, Eq)]
pub enum OrderState {
    Waiting,
    Processing,
    Finished,
    Dispute,
}

impl OrderState {
    /// The byte that stands for the state in a record.
    pub open spec fn spec_tag(self) -> u8 {
        match self {
            OrderState::Waiting => 0,
            OrderState::Processing => 1,
            OrderState::Finished => 2,
            OrderState::Dispute => 3,
        }
    }

    /// The state that a record's first byte stands for, if any.
    pub open spec fn spec_from_tag(tag: u8) -> Option<OrderState> {
        if tag == 0 {
            Some(OrderState::Waiting)
        } else if tag == 1 {
            Some(OrderState::Processing)
        } else if tag == 2 {
            Some(OrderState::Finished)
        } else if tag == 3 {
            Some(OrderState::Dispute)
        } else {
            None
        }
    }

    /// The legal steps: `Waiting` to `Processing`, and `Processing` to
    /// `Finished` or to `Dispute`. Nothing else, and nothing out of the last two.
    pub open spec fn can_become(self, next: OrderState) -> bool {
        match (self, next) {
            (OrderState::Waiting, OrderState::Processing) => true,
            (OrderState::Processing, OrderState::Finished) => true,
            (OrderState::Processing, OrderState::Dispute) => true,
            _ => false,
        }
    }

    /// `Finished` and `Dispute` end the life cycle.
    pub open spec fn is_terminal(self) -> bool {
        self is Finished || self is Dispute
    }

    /// The byte that stands for the state in a record.
    pub fn tag(&self) -> (tag: u8)
        ensures
            tag == self.spec_tag(),
    {
        match self {
            OrderState::Waiting => 0,
            OrderState::Processing => 1,
            OrderState::Finished => 2,
            OrderState::Dispute => 3,
        }
    }

    /// The state that a record's first byte stands for, if any.
    pub fn from_tag(tag: u8) -> (state: Option<OrderState>)
        ensures
            state == OrderState::spec_from_tag(tag),
    {
        match tag {
            0 => Some(OrderState::Waiting),
            1 => Some(OrderState::Processing),
            2 => Some(OrderState::Finished),
            3 => Some(OrderState::Dispute),
            _ => None,
        }
    }

    /// Whether an order in this state may go over to `next`.
    pub fn allows(&self, next: &OrderState) -> (legal: bool)
        ensures
            legal == self.can_become(*next),
    {
        match (self, next) {
            (OrderState::Waiting, OrderState::Processing) => true,
            (OrderState::Processing, OrderState::Finished) => true,
            (OrderState::Processing, OrderState::Dispute) => true,
            _ => false,
        }
    }
}

/// No state can be left once it is terminal.
pub proof fn lemma_terminal_states_stay(state: OrderState, next: OrderState)
    requires
        state.is_terminal(),
    ensures
        !state.can_become(next),
{
}

/// `Processing` cannot be skipped: no step leads from `Waiting` to a terminal state.
pub proof fn lemma_no_shortcut(next: OrderState)
    requires
        next.is_terminal(),
    ensures
        !OrderState::Waiting.can_become(next),
{
}

/// One trade intent of one account.
#[derive(Clone, Copy, Debug, PartialEq, Eq)]
pub struct Order {
    pub state: OrderState,
    /// Identifies the order within its account.
    pub order_hash: [u8; 32],
    /// Amount already settled against the order.
    pub paid_back: u64,
    /// Amount earmarked and not yet settled.
    pub dcfi_reserved: u64,
}

/// The mathematical content of an `Order`.
pub struct OrderView {
    pub state: OrderState,
    pub order_hash: Seq<u8>,
    pub paid_back: u64,
    pub reserved: u64,
}

impl View for Order {
    type V = OrderView;

    open spec fn view(&self) -> OrderView {
        OrderView {
            state: self.state,
            order_hash: self.order_hash@,
            paid_back: self.paid_back,
            reserved: self.dcfi_reserved,
        }
    }
}

impl OrderView {
    /// A hash has exactly 32 bytes.
    pub open spec fn valid(self) -> bool {
        self.order_hash.len() == HASH_LEN
    }

    /// The key under which the order is known outside its account: the number
    /// in the first 16 bytes of its hash, little-endian.
    pub open spec fn order_id(self) -> u128 {
        le_value(self.order_hash.subrange(0, 16)) as u128
    }

    /// The order after a step to `next`.
    pub open spec fn with_state(self, next: OrderState) -> OrderView {
        OrderView { state: next, ..self }
    }
}

/// The record of an order.
pub open spec fn encode_order(order: OrderView) -> Seq<u8> {
    seq![order.state.spec_tag()] + order.order_hash + le_bytes(order.paid_back as nat, 8)
        + le_bytes(order.reserved as nat, 8)
}

/// The order that a record holds, if its length and its state byte are in order.
pub open spec fn decode_order(record: Seq<u8>) -> Option<OrderView> {
    if record.len() != ORDER_LEN {
        None
    } else {
        match OrderState::spec_from_tag(record[0]) {
            None => None,
            Some(state) => Some(
                OrderView {
                    state,
                    order_hash: record.subrange(1, 33),
                    paid_back: le_value(record.subrange(33, 41)) as u64,
                    reserved: le_value(record.subrange(41, 49)) as u64,
                },
            ),
        }
    }
}

/// A record has 49 bytes, and reading it gives the order back.
pub proof fn lemma_decode_encode_order(order: OrderView)
    requires
        order.valid(),
    ensures
        encode_order(order).len() == ORDER_LEN,
        decode_order(encode_order(order)) == Some(order),
{
    let record = encode_order(order);
    lemma_pow256_widths();
    lemma_le_bytes_len(order.paid_back as nat, 8);
    lemma_le_bytes_len(order.reserved as nat, 8);
    lemma_le_value_of_bytes(order.paid_back as nat, 8);
    lemma_le_value_of_bytes(order.reserved as nat, 8);
    assert(record.subrange(1, 33) =~= order.order_hash);
    assert(record.subrange(33, 41) =~= le_bytes(order.paid_back as nat, 8));
    assert(record.subrange(41, 49) =~= le_bytes(order.reserved as nat, 8));
}

/// Whatever `decode_order` accepts is valid and has the record it came from.
pub proof fn lemma_encode_decode_order(record: Seq<u8>)
    requires
        decode_order(record) is Some,
    ensures
        decode_order(record)->0.valid(),
        encode_order(decode_order(record)->0) == record,
{
    let order = decode_order(record)->0;
    let paid = record.subrange(33, 41);
    let reserved = record.subrange(41, 49);
    lemma_pow256_widths();
    lemma_le_value_bound(paid);
    lemma_le_value_bound(reserved);
    lemma_le_bytes_of_value(paid);
    lemma_le_bytes_of_value(reserved);
    assert(encode_order(order) =~= record);
}

/// Two orders with the same content are the same order.
pub proof fn lemma_order_view_injective(a: Order, b: Order)
    requires
        a@ == b@,
    ensures
        a == b,
{
    assert(a.order_hash =~= b.order_hash);
}

/// Whether two hashes are the same.
pub fn same_hash(a: &[u8; 32], b: &[u8; 32]) -> (same: bool)
    ensures
        same == (a@ == b@),
{
    let mut i: usize = 0;
    while i < HASH_LEN
        invariant
            i <= HASH_LEN,
            forall|k: int| 0 <= k < i ==> a@[k] == b@[k],
        decreases HASH_LEN - i,
    {
        if a[i] != b[i] {
            return false;
        }
        i = i + 1;
    }
    assert(a@ =~= b@);
    true
}

/// Whether a hash is the unassigned one, all zero.
pub fn hash_is_zero(hash: &[u8; 32]) -> (zero: bool)
    ensures
        zero == all_zero(hash@),
{
    let mut i: usize = 0;
    while i < HASH_LEN
        invariant
            i <= HASH_LEN,
            forall|k: int| 0 <= k < i ==> hash@[k] == 0,
        decreases HASH_LEN - i,
    {
        if hash[i] != 0 {
            return false;
        }
        i = i + 1;
    }
    true
}

impl Default for Order {
    /// A waiting order with nothing assigned: zero hash, zero amounts.
    fn default() -> (order: Order)
        ensures
            order.state == OrderState::Waiting,
            all_zero(order.order_hash@),
            order.paid_back == 0,
            order.dcfi_reserved == 0,
    {
        Order { state: OrderState::Waiting, order_hash: [0u8; 32], paid_back: 0, dcfi_reserved: 0 }
    }
}

impl Order {
    /// The key under which the order is known outside its account.
    pub fn order_id(&self) -> (id: u128)
        ensures
            id == self@.order_id(),
    {
        proof {
            lemma_pow256_widths();
            lemma_le_value_bound(self.order_hash@.subrange(0, 16));
        }
        read_u128_le(&self.order_hash, 0)
    }

    /// Moves the order to `next` if the life cycle has that step. An illegal
    /// step is refused with `WrongInput` and leaves the order as it was.
    pub fn transition(&mut self, next: OrderState) -> (result: Result<(), DecefiErrorCode>)
        ensures
            old(self).state.can_become(next) ==> result is Ok && final(self)@ == old(self)@.with_state(
                next,
            ),
            !old(self).state.can_become(next) ==> result == Err::<(), DecefiErrorCode>(
                DecefiErrorCode::WrongInput,
            ) && *final(self) == *old(self),
    {
        if self.state.allows(&next) {
            self.state = next;
            Ok(())
        } else {
            Err(DecefiErrorCode::WrongInput)
        }
    }

    /// Appends the order's record to `out`.
    pub fn pack_into(&self, out: &mut Vec<u8>)
        ensures
            final(out)@ == old(out)@ + encode_order(self@),
    {
        out.push(self.state.tag());
        let ghost head = out@;
        let mut i: usize = 0;
        while i < HASH_LEN
            invariant
                i <= HASH_LEN,
                out@ == head + self.order_hash@.subrange(0, i as int),
            decreases HASH_LEN - i,
        {
            out.push(self.order_hash[i]);
            i = i + 1;
        }
        assert(self.order_hash@.subrange(0, HASH_LEN as int) =~= self.order_hash@);
        push_le(out, self.paid_back as u128, 8);
        push_le(out, self.dcfi_reserved as u128, 8);
        assert(out@ =~= old(out)@ + encode_order(self@));
    }

    /// Reads the record that starts at offset `at` of `bytes`.
    pub fn unpack(bytes: &[u8], at: usize) -> (result: Option<Order>)
        requires
            at + ORDER_LEN <= bytes@.len(),
        ensures
            match result {
                Some(order) => decode_order(bytes@.subrange(at as int, at + ORDER_LEN)) == Some(
                    order@,
                ),
                None => decode_order(bytes@.subrange(at as int, at + ORDER_LEN)) is None,
            },
    {
        let len: usize = bytes.len();
        let ghost record = bytes@.subrange(at as int, at + ORDER_LEN);
        let state = match OrderState::from_tag(bytes[at]) {
            Some(state) => state,
            None => {
                return None;
            },
        };
        let mut order_hash: [u8; 32] = [0u8; 32];
        let mut i: usize = 0;
        while i < HASH_LEN
            invariant
                i <= HASH_LEN,
                at + ORDER_LEN <= bytes@.len(),
                bytes@.len() == len,
                forall|k: int| 0 <= k < i ==> order_hash@[k] == bytes@[at + 1 + k],
            decreases HASH_LEN - i,
        {
            order_hash[i] = bytes[at + 1 + i];
            i = i + 1;
        }
        let paid_back: u64 = read_u64_le(bytes, at + 33);
        let dcfi_reserved: u64 = read_u64_le(bytes, at + 41);
        proof {
            assert(order_hash@ =~= record.subrange(1, 33));
            assert(bytes@.subrange(at + 33, at + 33 + 8) =~= record.subrange(33, 41));
            assert(bytes@.subrange(at + 41, at + 41 + 8) =~= record.subrange(41, 49));
            lemma_pow256_widths();
            lemma_le_value_bound(record.subrange(33, 41));
            lemma_le_value_bound(record.subrange(41, 49));
        }
        Some(Order { state, order_hash, paid_back, dcfi_reserved })
    }
}

} // verus!
