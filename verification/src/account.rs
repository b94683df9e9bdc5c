//! An account: its orders, oldest first, and its reserve.
//!
//! An account lives in a buffer of exactly `ACCOUNT_LEN` bytes:
//!
//! ```text
//! bytes 0..8    reserve, u64 little-endian
//! bytes 8..12   number of orders, u32 little-endian, at most MAX_ORDERS
//! bytes 12..    MAX_ORDERS records of ORDER_LEN bytes; the orders fill the
//!               first records in their order of arrival, the rest is zero
//! ```
//!
//! A buffer holds an account only if it is this layout to the last byte and no
//! two of its orders have the same hash.

use crate::bytes::{
    all_zero, le_bytes, le_value, lemma_le_bytes_len, lemma_le_bytes_of_value,
    lemma_le_value_bound, lemma_le_value_of_bytes, lemma_pow256_widths, push_le, read_u32_le,
    read_u64_le,
};
use crate::error::DecefiErrorCode;
use crate::order::{
    decode_order, encode_order, lemma_decode_encode_order, lemma_encode_decode_order, same_hash,
    Order, OrderState, OrderView, ORDER_LEN,
};
use vstd::prelude::*;

verus! {

/// The number of orders that an account's buffer has room for.
pub const MAX_ORDERS: usize = 16;

/// Offset of the first record in an account's buffer.
pub const RECORDS_AT: usize = 12;

/// Length of an account's buffer.
pub const ACCOUNT_LEN: usize = 796;

/// The orders of one account, oldest first.
#[derive(Debug, Clone, PartialEq)]
pub struct AccountOrders {
    orders: Vec<Order>,
}

/// What one ledger account holds.
#[derive(Debug, Clone, PartialEq)]
pub struct Account {
    orders: AccountOrders,
    dcfi_reserved: u64,
}

/// The mathematical content of an `Account`.
pub struct AccountView {
    pub orders: Seq<OrderView>,
    pub reserved: u64,
}

/// Whether some order of the sequence has this hash.
pub open spec fn has_hash(orders: Seq<OrderView>, hash: Seq<u8>) -> bool {
    exists|i: int| 0 <= i < orders.len() && (#[trigger] orders[i]).order_hash == hash
}

/// Whether some order of the sequence is known under this id.
pub open spec fn has_id(orders: Seq<OrderView>, order_id: u128) -> bool {
    exists|i: int| 0 <= i < orders.len() && (#[trigger] orders[i]).order_id() == order_id
}

/// No two orders of the sequence have the same hash.
pub open spec fn unique_hashes(orders: Seq<OrderView>) -> bool {
    forall|i: int, j: int|
        0 <= i < j < orders.len() ==> (#[trigger] orders[i]).order_hash != (
        #[trigger] orders[j]).order_hash
}

impl AccountView {
    /// Every hash has its 32 bytes and occurs once.
    pub open spec fn wf(self) -> bool {
        &&& forall|i: int| 0 <= i < self.orders.len() ==> (#[trigger] self.orders[i]).valid()
        &&& unique_hashes(self.orders)
    }

    /// Whether the account's buffer has room for the orders.
    pub open spec fn fits(self) -> bool {
        self.orders.len() <= MAX_ORDERS
    }

    /// Whether `order` can be created: it is waiting and its hash is new.
    pub open spec fn accepts(self, order: OrderView) -> bool {
        order.state is Waiting && !has_hash(self.orders, order.order_hash)
    }

    /// The account with `order` added as its youngest.
    pub open spec fn with_order(self, order: OrderView) -> AccountView {
        AccountView { orders: self.orders.push(order), ..self }
    }

    /// What cancelling gives. No order under `order_id`: `NoTrade`. An order
    /// under it, but not in `owner_slot`: `NoPermission`. Else the account
    /// without the order in `owner_slot`, the others in the order they had.
    pub open spec fn cancel(self, order_id: u128, owner_slot: u8) -> Result<
        AccountView,
        DecefiErrorCode,
    > {
        if !has_id(self.orders, order_id) {
            Err(DecefiErrorCode::NoTrade)
        } else if owner_slot >= self.orders.len() || self.orders[owner_slot as int].order_id()
            != order_id {
            Err(DecefiErrorCode::NoPermission)
        } else {
            Ok(AccountView { orders: self.orders.remove(owner_slot as int), ..self })
        }
    }

    /// What a deposit gives: `InvalidAmount` for zero and for a sum past `u64`.
    pub open spec fn deposit(self, amount: u64) -> Result<AccountView, DecefiErrorCode> {
        if amount == 0 || self.reserved + amount > u64::MAX {
            Err(DecefiErrorCode::InvalidAmount)
        } else {
            Ok(AccountView { reserved: (self.reserved + amount) as u64, ..self })
        }
    }

    /// What a withdrawal gives: `InvalidAmount` for zero and for more than the reserve.
    pub open spec fn withdraw(self, amount: u64) -> Result<AccountView, DecefiErrorCode> {
        if amount == 0 || amount > self.reserved {
            Err(DecefiErrorCode::InvalidAmount)
        } else {
            Ok(AccountView { reserved: (self.reserved - amount) as u64, ..self })
        }
    }
}

/// `n` zero bytes.
pub open spec fn zeros(n: nat) -> Seq<u8> {
    Seq::new(n, |i: int| 0u8)
}

/// The records of a sequence of orders, one after the other.
pub open spec fn encode_orders(orders: Seq<OrderView>) -> Seq<u8>
    decreases orders.len(),
{
    if orders.len() == 0 {
        Seq::empty()
    } else {
        encode_orders(orders.drop_last()) + encode_order(orders.last())
    }
}

/// The buffer of an account whose orders fit.
pub open spec fn encode_account(account: AccountView) -> Seq<u8> {
    le_bytes(account.reserved as nat, 8) + le_bytes(account.orders.len(), 4) + encode_orders(
        account.orders,
    ) + zeros(((MAX_ORDERS - account.orders.len()) * ORDER_LEN) as nat)
}

/// The orders in the first `count` records of `records`, if each of them holds one.
pub open spec fn decode_orders(records: Seq<u8>, count: nat) -> Option<Seq<OrderView>>
    decreases count,
{
    if count == 0 {
        Some(Seq::empty())
    } else {
        match decode_orders(records, (count - 1) as nat) {
            None => None,
            Some(earlier) => match decode_order(
                records.subrange((count - 1) * ORDER_LEN, count * ORDER_LEN),
            ) {
                None => None,
                Some(order) => Some(earlier.push(order)),
            },
        }
    }
}

/// The account that a buffer holds, if it holds one.
pub open spec fn decode_account(bytes: Seq<u8>) -> Option<AccountView> {
    if bytes.len() != ACCOUNT_LEN {
        None
    } else {
        let count = le_value(bytes.subrange(8, 12));
        if count > MAX_ORDERS {
            None
        } else {
            match decode_orders(bytes.subrange(RECORDS_AT as int, ACCOUNT_LEN as int), count) {
                None => None,
                Some(orders) => if all_zero(
                    bytes.subrange(RECORDS_AT + count * ORDER_LEN, ACCOUNT_LEN as int),
                ) && unique_hashes(orders) {
                    Some(AccountView { orders, reserved: le_value(bytes.subrange(0, 8)) as u64 })
                } else {
                    None
                },
            }
        }
    }
}

/// The records of `n` valid orders take `n` times `ORDER_LEN` bytes.
pub proof fn lemma_encode_orders_len(orders: Seq<OrderView>)
    requires
        forall|i: int| 0 <= i < orders.len() ==> (#[trigger] orders[i]).valid(),
    ensures
        encode_orders(orders).len() == orders.len() * ORDER_LEN,
    decreases orders.len(),
{
    if orders.len() > 0 {
        lemma_encode_orders_len(orders.drop_last());
        lemma_decode_encode_order(orders.last());
    }
}

/// Reading `count` records, when it succeeds, gives `count` valid orders,
/// and the first `fewer` of them are what reading `fewer` records gives.
pub proof fn lemma_decode_orders_prefix(records: Seq<u8>, fewer: nat, count: nat)
    requires
        fewer <= count,
        decode_orders(records, count) is Some,
    ensures
        decode_orders(records, count)->0.len() == count,
        forall|i: int|
            0 <= i < count ==> (#[trigger] decode_orders(records, count)->0[i]).valid(),
        decode_orders(records, fewer) == Some(
            decode_orders(records, count)->0.subrange(0, fewer as int),
        ),
    decreases count,
{
    let all = decode_orders(records, count)->0;
    if count == 0 {
        assert(all.subrange(0, 0) =~= all);
    } else {
        let before = (count - 1) as nat;
        let earlier = decode_orders(records, before)->0;
        let record = records.subrange(before * ORDER_LEN, count * ORDER_LEN);
        lemma_encode_decode_order(record);
        if fewer == count {
            lemma_decode_orders_prefix(records, before, before);
            assert(all.subrange(0, count as int) =~= all);
        } else {
            lemma_decode_orders_prefix(records, fewer, before);
            assert(all.subrange(0, fewer as int) =~= earlier.subrange(0, fewer as int));
        }
    }
}

/// Reading the records of `orders` gives `orders`, whatever follows the records.
pub proof fn lemma_decode_encode_orders(orders: Seq<OrderView>, rest: Seq<u8>)
    requires
        forall|i: int| 0 <= i < orders.len() ==> (#[trigger] orders[i]).valid(),
    ensures
        decode_orders(encode_orders(orders) + rest, orders.len()) == Some(orders),
    decreases orders.len(),
{
    let records = encode_orders(orders) + rest;
    if orders.len() == 0 {
        assert(orders =~= Seq::<OrderView>::empty());
    } else {
        let earlier = orders.drop_last();
        let last = orders.last();
        lemma_encode_orders_len(earlier);
        lemma_decode_encode_order(last);
        lemma_decode_encode_orders(earlier, encode_order(last) + rest);
        assert(encode_orders(earlier) + (encode_order(last) + rest) =~= records);
        assert(records.subrange((orders.len() - 1) * ORDER_LEN, orders.len() * ORDER_LEN)
            =~= encode_order(last));
        assert(earlier.push(last) =~= orders);
    }
}

/// The first `count` records are the records of the orders read from them.
pub proof fn lemma_encode_decode_orders(records: Seq<u8>, count: nat)
    requires
        count * ORDER_LEN <= records.len(),
        decode_orders(records, count) is Some,
    ensures
        encode_orders(decode_orders(records, count)->0) == records.subrange(
            0,
            count * ORDER_LEN,
        ),
    decreases count,
{
    let orders = decode_orders(records, count)->0;
    if count == 0 {
        assert(encode_orders(orders) =~= records.subrange(0, 0));
    } else {
        let before = (count - 1) as nat;
        let earlier = decode_orders(records, before)->0;
        let record = records.subrange(before * ORDER_LEN, count * ORDER_LEN);
        lemma_encode_decode_orders(records, before);
        lemma_encode_decode_order(record);
        assert(orders.drop_last() =~= earlier);
        assert(orders.last() == decode_order(record)->0);
        assert(records.subrange(0, before * ORDER_LEN) + record =~= records.subrange(
            0,
            count * ORDER_LEN,
        ));
    }
}

/// The buffer of a well-formed account that fits has `ACCOUNT_LEN` bytes, and
/// reading it gives the account back.
pub proof fn lemma_decode_encode_account(account: AccountView)
    requires
        account.wf(),
        account.fits(),
    ensures
        encode_account(account).len() == ACCOUNT_LEN,
        decode_account(encode_account(account)) == Some(account),
{
    let bytes = encode_account(account);
    let count = account.orders.len();
    let records = encode_orders(account.orders);
    let padding = zeros(((MAX_ORDERS - count) * ORDER_LEN) as nat);
    lemma_pow256_widths();
    lemma_le_bytes_len(account.reserved as nat, 8);
    lemma_le_bytes_len(count, 4);
    lemma_le_value_of_bytes(account.reserved as nat, 8);
    lemma_le_value_of_bytes(count, 4);
    lemma_encode_orders_len(account.orders);
    lemma_decode_encode_orders(account.orders, padding);
    assert(bytes.subrange(0, 8) =~= le_bytes(account.reserved as nat, 8));
    assert(bytes.subrange(8, 12) =~= le_bytes(count, 4));
    assert(bytes.subrange(RECORDS_AT as int, ACCOUNT_LEN as int) =~= records + padding);
    assert(bytes.subrange(RECORDS_AT + count * ORDER_LEN, ACCOUNT_LEN as int) =~= padding);
}

/// Whatever `decode_account` accepts is well-formed, fits, and has the very
/// buffer it was read from: every account has one buffer only.
pub proof fn lemma_encode_decode_account(bytes: Seq<u8>)
    requires
        decode_account(bytes) is Some,
    ensures
        decode_account(bytes)->0.wf(),
        decode_account(bytes)->0.fits(),
        encode_account(decode_account(bytes)->0) == bytes,
{
    let account = decode_account(bytes)->0;
    let count = le_value(bytes.subrange(8, 12));
    let region = bytes.subrange(RECORDS_AT as int, ACCOUNT_LEN as int);
    let tail = bytes.subrange(RECORDS_AT + count * ORDER_LEN, ACCOUNT_LEN as int);
    lemma_pow256_widths();
    lemma_decode_orders_prefix(region, count, count);
    lemma_encode_decode_orders(region, count);
    lemma_le_value_bound(bytes.subrange(0, 8));
    lemma_le_bytes_of_value(bytes.subrange(0, 8));
    lemma_le_bytes_of_value(bytes.subrange(8, 12));
    assert(tail =~= zeros(((MAX_ORDERS - count) * ORDER_LEN) as nat));
    assert(encode_account(account) =~= bytes.subrange(0, 8) + bytes.subrange(8, 12)
        + region.subrange(0, count * ORDER_LEN) + tail);
    assert(encode_account(account) =~= bytes);
}

/// Creating an order keeps an account well-formed; and once it is there, no
/// order with its hash can be created again: the hash is at the last place
/// and nowhere else.
pub proof fn lemma_create_order_once(account: AccountView, order: OrderView, again: OrderView)
    requires
        account.accepts(order),
        again.order_hash == order.order_hash,
    ensures
        account.wf() && order.valid() ==> account.with_order(order).wf(),
        !account.with_order(order).accepts(again),
        forall|i: int|
            0 <= i < account.with_order(order).orders.len() ==> ((
            #[trigger] account.with_order(order).orders[i]).order_hash == order.order_hash <==> i
                == account.orders.len()),
{
    let after = account.with_order(order).orders;
    assert(after[account.orders.len() as int].order_hash == order.order_hash);
    assert forall|i: int| 0 <= i < after.len() implies ((#[trigger] after[i]).order_hash
        == order.order_hash <==> i == account.orders.len()) by {
        if i < account.orders.len() {
            assert(account.orders[i].order_hash != order.order_hash);
        }
    }
}

/// Cancelling keeps an account well-formed, and keeps its reserve.
pub proof fn lemma_cancel_keeps_wf(account: AccountView, order_id: u128, owner_slot: u8)
    requires
        account.wf(),
        account.cancel(order_id, owner_slot) is Ok,
    ensures
        account.cancel(order_id, owner_slot)->Ok_0.wf(),
        account.cancel(order_id, owner_slot)->Ok_0.reserved == account.reserved,
        account.cancel(order_id, owner_slot)->Ok_0.orders.len() + 1 == account.orders.len(),
{
    let after = account.cancel(order_id, owner_slot)->Ok_0.orders;
    let slot = owner_slot as int;
    assert forall|i: int| 0 <= i < after.len() implies (#[trigger] after[i]).valid() by {
        if i < slot {
            assert(after[i] == account.orders[i]);
        } else {
            assert(after[i] == account.orders[i + 1]);
        }
    }
    assert forall|i: int, j: int| 0 <= i < j < after.len() implies (#[trigger] after[i]).order_hash
        != (#[trigger] after[j]).order_hash by {
        let oi = if i < slot { i } else { i + 1 };
        let oj = if j < slot { j } else { j + 1 };
        assert(after[i] == account.orders[oi]);
        assert(after[j] == account.orders[oj]);
    }
}

impl View for AccountOrders {
    type V = Seq<OrderView>;

    closed spec fn view(&self) -> Seq<OrderView> {
        Seq::new(self.orders@.len(), |i: int| self.orders@[i]@)
    }
}

impl View for Account {
    type V = AccountView;

    closed spec fn view(&self) -> AccountView {
        AccountView { orders: self.orders@, reserved: self.dcfi_reserved }
    }
}

impl Default for AccountOrders {
    fn default() -> (orders: AccountOrders)
        ensures
            orders@ == Seq::<OrderView>::empty(),
    {
        let orders = AccountOrders { orders: Vec::new() };
        assert(orders@ =~= Seq::<OrderView>::empty());
        orders
    }
}

impl Default for Account {
    fn default() -> (account: Account)
        ensures
            account@ == (AccountView { orders: Seq::empty(), reserved: 0 }),
    {
        Account { orders: AccountOrders::default(), dcfi_reserved: 0 }
    }
}

impl AccountOrders {
    /// The number of orders.
    pub fn len(&self) -> (len: usize)
        ensures
            len == self@.len(),
    {
        self.orders.len()
    }

    /// The order at a position, counted from the oldest.
    pub fn get(&self, index: usize) -> (order: Option<Order>)
        ensures
            index < self@.len() ==> order is Some && order->0@ == self@[index as int],
            index >= self@.len() ==> order is None,
            order is Some ==> order->0@.valid(),
    {
        if index < self.orders.len() {
            Some(self.orders[index])
        } else {
            None
        }
    }

    /// Whether some order has this hash.
    pub fn contains(&self, order_hash: &[u8; 32]) -> (found: bool)
        ensures
            found == has_hash(self@, order_hash@),
    {
        let mut i: usize = 0;
        while i < self.orders.len()
            invariant
                i <= self.orders@.len(),
                forall|k: int| 0 <= k < i ==> (#[trigger] self@[k]).order_hash != order_hash@,
            decreases self.orders@.len() - i,
        {
            if same_hash(&self.orders[i].order_hash, order_hash) {
                assert(self@[i as int].order_hash == order_hash@);
                return true;
            }
            i = i + 1;
        }
        false
    }

    /// Whether some order is known under this id.
    pub fn contains_id(&self, order_id: u128) -> (found: bool)
        ensures
            found == has_id(self@, order_id),
    {
        let mut i: usize = 0;
        while i < self.orders.len()
            invariant
                i <= self.orders@.len(),
                forall|k: int| 0 <= k < i ==> (#[trigger] self@[k]).order_id() != order_id,
            decreases self.orders@.len() - i,
        {
            if self.orders[i].order_id() == order_id {
                assert(self@[i as int].order_id() == order_id);
                return true;
            }
            i = i + 1;
        }
        false
    }
}

impl Account {
    /// The orders, oldest first.
    pub fn orders(&self) -> (orders: &AccountOrders)
        ensures
            orders@ == self@.orders,
    {
        &self.orders
    }

    /// The reserve.
    pub fn reserved(&self) -> (reserved: u64)
        ensures
            reserved == self@.reserved,
    {
        self.dcfi_reserved
    }

    /// Adds `order` as the youngest order if it is waiting and no order of the
    /// account has its hash. Otherwise the account stays as it is.
    pub fn create_order(&mut self, order: Order) -> (created: bool)
        ensures
            created == old(self)@.accepts(order@),
            created ==> final(self)@ == old(self)@.with_order(order@),
            !created ==> final(self)@ == old(self)@,
            order.state is Waiting ==> has_hash(final(self)@.orders, order@.order_hash),
            old(self)@.wf() ==> final(self)@.wf(),
    {
        match order.state {
            OrderState::Waiting => {},
            _ => {
                return false;
            },
        }
        if self.orders.contains(&order.order_hash) {
            return false;
        }
        self.orders.orders.push(order);
        proof {
            assert(self@.orders =~= old(self)@.orders.push(order@));
            lemma_create_order_once(old(self)@, order@, order@);
        }
        true
    }

    /// Takes the order known under `order_id` out of the account, for a caller
    /// who holds it in `owner_slot`. An id that no order has is an error,
    /// `NoTrade`; a slot that does not hold the order is `NoPermission`. The
    /// other orders keep their order. A failure changes nothing.
    pub fn cancel_order(&mut self, order_id: u128, owner_slot: u8) -> (result: Result<
        (),
        DecefiErrorCode,
    >)
        ensures
            match old(self)@.cancel(order_id, owner_slot) {
                Ok(after) => result is Ok && final(self)@ == after,
                Err(error) => result == Err::<(), DecefiErrorCode>(error) && final(self)@ == old(
                    self,
                )@,
            },
            old(self)@.wf() ==> final(self)@.wf(),
    {
        let slot: usize = owner_slot as usize;
        if slot < self.orders.orders.len() && self.orders.orders[slot].order_id() == order_id {
            assert(self@.orders[slot as int].order_id() == order_id);
            let _ = self.orders.orders.remove(slot);
            proof {
                assert(self@.orders =~= old(self)@.orders.remove(slot as int));
                if old(self)@.wf() {
                    lemma_cancel_keeps_wf(old(self)@, order_id, owner_slot);
                }
            }
            Ok(())
        } else if self.orders.contains_id(order_id) {
            Err(DecefiErrorCode::NoPermission)
        } else {
            Err(DecefiErrorCode::NoTrade)
        }
    }

    /// Adds `amount` to the reserve. Zero, and a sum that `u64` cannot hold,
    /// are refused with `InvalidAmount`, and the account stays as it is.
    pub fn deposit(&mut self, amount: u64) -> (result: Result<(), DecefiErrorCode>)
        ensures
            match old(self)@.deposit(amount) {
                Ok(after) => result is Ok && final(self)@ == after,
                Err(error) => result == Err::<(), DecefiErrorCode>(error) && final(self)@ == old(
                    self,
                )@,
            },
    {
        if amount == 0 {
            return Err(DecefiErrorCode::InvalidAmount);
        }
        match self.dcfi_reserved.checked_add(amount) {
            Some(sum) => {
                self.dcfi_reserved = sum;
                Ok(())
            },
            None => Err(DecefiErrorCode::InvalidAmount),
        }
    }

    /// Takes `amount` from the reserve. Zero, and more than the reserve holds,
    /// are refused with `InvalidAmount`, and the account stays as it is.
    pub fn withdraw(&mut self, amount: u64) -> (result: Result<(), DecefiErrorCode>)
        ensures
            match old(self)@.withdraw(amount) {
                Ok(after) => result is Ok && final(self)@ == after,
                Err(error) => result == Err::<(), DecefiErrorCode>(error) && final(self)@ == old(
                    self,
                )@,
            },
    {
        if amount == 0 {
            return Err(DecefiErrorCode::InvalidAmount);
        }
        match self.dcfi_reserved.checked_sub(amount) {
            Some(difference) => {
                self.dcfi_reserved = difference;
                Ok(())
            },
            None => Err(DecefiErrorCode::InvalidAmount),
        }
    }

    /// The buffer of the account: `None` if it has more orders than a buffer
    /// has records, else the `ACCOUNT_LEN` bytes of the layout.
    pub fn pack(&self) -> (result: Option<Vec<u8>>)
        ensures
            self@.fits() ==> result is Some && result->0@ == encode_account(self@)
                && result->0@.len() == ACCOUNT_LEN,
            !self@.fits() ==> result is None,
    {
        let count: usize = self.orders.orders.len();
        if count > MAX_ORDERS {
            return None;
        }
        let mut bytes: Vec<u8> = Vec::new();
        push_le(&mut bytes, self.dcfi_reserved as u128, 8);
        push_le(&mut bytes, count as u128, 4);
        let ghost head = bytes@;
        let ghost orders = self@.orders;
        proof {
            lemma_le_bytes_len(self.dcfi_reserved as nat, 8);
            lemma_le_bytes_len(count as nat, 4);
            assert(orders.subrange(0, 0) =~= Seq::<OrderView>::empty());
        }
        let mut i: usize = 0;
        while i < count
            invariant
                i <= count,
                count == self.orders.orders@.len(),
                count <= MAX_ORDERS,
                orders == self@.orders,
                orders.len() == count,
                forall|k: int| 0 <= k < count ==> (#[trigger] orders[k]).valid(),
                forall|k: int| 0 <= k < count ==> orders[k] == self.orders.orders@[k]@,
                head.len() == RECORDS_AT,
                bytes@ == head + encode_orders(orders.subrange(0, i as int)),
            decreases count - i,
        {
            self.orders.orders[i].pack_into(&mut bytes);
            proof {
                let longer = orders.subrange(0, i + 1);
                assert(longer.drop_last() =~= orders.subrange(0, i as int));
                assert(longer.last() == orders[i as int]);
                assert(bytes@ =~= head + encode_orders(longer));
            }
            i = i + 1;
        }
        proof {
            assert(orders.subrange(0, count as int) =~= orders);
            lemma_encode_orders_len(orders);
        }
        let ghost records = bytes@;
        while bytes.len() < ACCOUNT_LEN
            invariant
                records.len() == RECORDS_AT + count * ORDER_LEN,
                records.len() <= bytes@.len() <= ACCOUNT_LEN,
                bytes@ == records + zeros((bytes@.len() - records.len()) as nat),
            decreases ACCOUNT_LEN - bytes@.len(),
        {
            let ghost before = bytes@;
            bytes.push(0);
            assert(bytes@ =~= records + zeros((before.len() + 1 - records.len()) as nat));
        }
        assert(bytes@ =~= encode_account(self@));
        Some(bytes)
    }

    /// Reads an account from its buffer: `None` for whatever is not, to the
    /// last byte, the buffer of a well-formed account.
    pub fn unpack(bytes: &[u8]) -> (result: Option<Account>)
        ensures
            match result {
                Some(account) => decode_account(bytes@) == Some(account@) && account@.wf()
                    && account@.fits(),
                None => decode_account(bytes@) is None,
            },
    {
        proof {
            if decode_account(bytes@) is Some {
                lemma_encode_decode_account(bytes@);
            }
        }
        if bytes.len() != ACCOUNT_LEN {
            return None;
        }
        let dcfi_reserved: u64 = read_u64_le(bytes, 0);
        let count: usize = read_u32_le(bytes, 8) as usize;
        if count > MAX_ORDERS {
            return None;
        }
        let ghost region = bytes@.subrange(RECORDS_AT as int, ACCOUNT_LEN as int);
        let mut orders = AccountOrders { orders: Vec::new() };
        assert(orders@ =~= Seq::<OrderView>::empty());
        let mut i: usize = 0;
        while i < count
            invariant
                i <= count <= MAX_ORDERS,
                bytes@.len() == ACCOUNT_LEN,
                count == le_value(bytes@.subrange(8, 12)),
                region == bytes@.subrange(RECORDS_AT as int, ACCOUNT_LEN as int),
                orders.orders@.len() == i,
                decode_orders(region, i as nat) == Some(orders@),
                unique_hashes(orders@),
            decreases count - i,
        {
            let at: usize = RECORDS_AT + i * ORDER_LEN;
            assert(bytes@.subrange(at as int, at + ORDER_LEN) =~= region.subrange(
                i * ORDER_LEN,
                (i + 1) * ORDER_LEN,
            ));
            let order = match Order::unpack(bytes, at) {
                Some(order) => order,
                None => {
                    proof {
                        if decode_orders(region, count as nat) is Some {
                            lemma_decode_orders_prefix(region, (i + 1) as nat, count as nat);
                        }
                    }
                    return None;
                },
            };
            let ghost earlier = orders@;
            if orders.contains(&order.order_hash) {
                proof {
                    if decode_orders(region, count as nat) is Some {
                        let all = decode_orders(region, count as nat)->0;
                        lemma_decode_orders_prefix(region, (i + 1) as nat, count as nat);
                        assert(all.subrange(0, i + 1) == earlier.push(order@));
                        let k = choose|k: int|
                            0 <= k < earlier.len() && (#[trigger] earlier[k]).order_hash
                                == order.order_hash@;
                        assert(all[k] == all.subrange(0, i + 1)[k]);
                        assert(all[i as int] == all.subrange(0, i + 1)[i as int]);
                        assert(all[k].order_hash == all[i as int].order_hash);
                        assert(!unique_hashes(all));
                    }
                }
                return None;
            }
            orders.orders.push(order);
            proof {
                assert(orders@ =~= earlier.push(order@));
            }
            i = i + 1;
        }
        let mut at: usize = RECORDS_AT + count * ORDER_LEN;
        let ghost tail_at = at as int;
        while at < ACCOUNT_LEN
            invariant
                tail_at == RECORDS_AT + count * ORDER_LEN,
                count <= MAX_ORDERS,
                count == le_value(bytes@.subrange(8, 12)),
                tail_at <= at <= ACCOUNT_LEN,
                bytes@.len() == ACCOUNT_LEN,
                forall|k: int| tail_at <= k < at ==> bytes@[k] == 0,
            decreases ACCOUNT_LEN - at,
        {
            if bytes[at] != 0 {
                assert(bytes@.subrange(tail_at, ACCOUNT_LEN as int)[at - tail_at] != 0);
                return None;
            }
            at = at + 1;
        }
        proof {
            lemma_pow256_widths();
            lemma_le_value_bound(bytes@.subrange(0, 8));
        }
        Some(Account { orders, dcfi_reserved })
    }
}

} // verus!
