//! The instructions and their wire format.
//!
//! All integers are little-endian:
//!
//! ```text
//! byte 0       version, always 0
//! bytes 1..5   discriminant, u32
//! bytes 5..    payload, whose length the discriminant fixes
//! ```
//!
//! | discriminant | instruction | payload                                        |
//! |--------------|-------------|------------------------------------------------|
//! | 0            | Deposit     | 8: amount u64, not zero                        |
//! | 1            | Withdraw    | 8: amount u64, not zero                        |
//! | 2            | NewOrder    | 256: hash bytes, of which the first 32 count   |
//! | 3            | CancelOrder | 25: order id u128, owner u64, owner slot u8    |

use crate::bytes::{
    le_bytes, le_value, lemma_le_bytes_len, lemma_le_bytes_of_value, lemma_le_value_bound,
    lemma_le_value_of_bytes, lemma_pow256_widths, push_le, read_u128_le, read_u32_le,
    read_u64_le,
};
use vstd::prelude::*;

verus! {

/// The only version of the wire format.
pub const VERSION: u8 = 0;

/// Length of the version byte and the discriminant together.
pub const HEADER_LEN: usize = 5;

/// No instruction buffer longer than this is looked at.
pub const MAX_INSTRUCTION_LEN: usize = 512;

/// Payload length of `Deposit` and of `Withdraw`.
pub const AMOUNT_LEN: usize = 8;

/// Payload length of `NewOrder`.
pub const NEW_ORDER_LEN: usize = 256;

/// Payload length of `CancelOrder`.
pub const CANCEL_ORDER_LEN: usize = 25;

/// A request to add to an account's reserve. The amount is never zero on the wire.
#[derive(PartialEq, Eq, Debug, Clone, Copy)]
pub struct Deposit {
    pub amount: u64,
}

/// A request to take from an account's reserve. The amount is never zero on the wire.
#[derive(PartialEq, Eq, Debug, Clone, Copy)]
pub struct Withdraw {
    pub amount: u64,
}

/// Payload of `NewOrder`: the order's hash in its first 32 bytes, then padding.
#[derive(PartialEq, Eq, Debug, Clone)]
pub struct NewOrderInstruction {
    pub hash: [u8; 256],
}

/// Payload of `CancelOrder`.
#[derive(PartialEq, Eq, Debug, Clone, Copy)]
pub struct CancelOrderInstruction {
    /// The key under which the order is known outside its account.
    pub order_id: u128,
    /// Correlation value of the owner; carried, not interpreted.
    pub owner: u64,
    /// Position in the account's order list at which the caller holds the order.
    pub owner_slot: u8,
}

/// One request to the processor.
#[derive(PartialEq, Eq, Debug, Clone)]
pub enum DecefiInstruction {
    Deposit(u64),
    Withdraw(u64),
    NewOrder(NewOrderInstruction),
    CancelOrder(CancelOrderInstruction),
}

/// The mathematical content of a `DecefiInstruction`.
pub enum Instruction {
    Deposit(u64),
    Withdraw(u64),
    NewOrder(Seq<u8>),
    CancelOrder { order_id: u128, owner: u64, owner_slot: u8 },
}

impl Instruction {
    /// What the wire format can carry: amounts are not zero, a hash has 256 bytes.
    pub open spec fn valid(self) -> bool {
        match self {
            Instruction::Deposit(amount) => amount != 0,
            Instruction::Withdraw(amount) => amount != 0,
            Instruction::NewOrder(hash) => hash.len() == NEW_ORDER_LEN,
            Instruction::CancelOrder { .. } => true,
        }
    }

    /// The number that selects the variant on the wire.
    pub open spec fn discriminant(self) -> u32 {
        match self {
            Instruction::Deposit(_) => 0,
            Instruction::Withdraw(_) => 1,
            Instruction::NewOrder(_) => 2,
            Instruction::CancelOrder { .. } => 3,
        }
    }

    /// The bytes that follow the discriminant.
    pub open spec fn payload(self) -> Seq<u8> {
        match self {
            Instruction::Deposit(amount) => le_bytes(amount as nat, 8),
            Instruction::Withdraw(amount) => le_bytes(amount as nat, 8),
            Instruction::NewOrder(hash) => hash,
            Instruction::CancelOrder { order_id, owner, owner_slot } => le_bytes(
                order_id as nat,
                16,
            ) + le_bytes(owner as nat, 8) + seq![owner_slot],
        }
    }
}

/// The wire form of an instruction.
pub open spec fn encode(instruction: Instruction) -> Seq<u8> {
    seq![VERSION] + le_bytes(instruction.discriminant() as nat, 4) + instruction.payload()
}

/// The instruction that a buffer holds, if it holds one.
pub open spec fn decode(bytes: Seq<u8>) -> Option<Instruction> {
    if bytes.len() < HEADER_LEN || bytes.len() > MAX_INSTRUCTION_LEN || bytes[0] != VERSION {
        None
    } else {
        let discriminant = le_value(bytes.subrange(1, 5));
        let payload_len = bytes.len() - HEADER_LEN;
        if discriminant == 0 && payload_len == AMOUNT_LEN {
            let amount = le_value(bytes.subrange(5, 13));
            if amount == 0 {
                None
            } else {
                Some(Instruction::Deposit(amount as u64))
            }
        } else if discriminant == 1 && payload_len == AMOUNT_LEN {
            let amount = le_value(bytes.subrange(5, 13));
            if amount == 0 {
                None
            } else {
                Some(Instruction::Withdraw(amount as u64))
            }
        } else if discriminant == 2 && payload_len == NEW_ORDER_LEN {
            Some(Instruction::NewOrder(bytes.subrange(5, 261)))
        } else if discriminant == 3 && payload_len == CANCEL_ORDER_LEN {
            Some(
                Instruction::CancelOrder {
                    order_id: le_value(bytes.subrange(5, 21)) as u128,
                    owner: le_value(bytes.subrange(21, 29)) as u64,
                    owner_slot: bytes[29],
                },
            )
        } else {
            None
        }
    }
}

impl View for DecefiInstruction {
    type V = Instruction;

    open spec fn view(&self) -> Instruction {
        match *self {
            DecefiInstruction::Deposit(amount) => Instruction::Deposit(amount),
            DecefiInstruction::Withdraw(amount) => Instruction::Withdraw(amount),
            DecefiInstruction::NewOrder(order) => Instruction::NewOrder(order.hash@),
            DecefiInstruction::CancelOrder(cancel) => Instruction::CancelOrder {
                order_id: cancel.order_id,
                owner: cancel.owner,
                owner_slot: cancel.owner_slot,
            },
        }
    }
}

/// Decoding what was encoded gives the instruction back, for every valid instruction.
pub proof fn lemma_decode_encode(instruction: Instruction)
    requires
        instruction.valid(),
    ensures
        decode(encode(instruction)) == Some(instruction),
{
    let bytes = encode(instruction);
    let tag = le_bytes(instruction.discriminant() as nat, 4);
    let payload = instruction.payload();
    lemma_pow256_widths();
    lemma_le_bytes_len(instruction.discriminant() as nat, 4);
    lemma_le_value_of_bytes(instruction.discriminant() as nat, 4);
    assert(bytes.subrange(1, 5) =~= tag);
    match instruction {
        Instruction::Deposit(amount) => {
            lemma_le_bytes_len(amount as nat, 8);
            lemma_le_value_of_bytes(amount as nat, 8);
            assert(bytes.subrange(5, 13) =~= payload);
        },
        Instruction::Withdraw(amount) => {
            lemma_le_bytes_len(amount as nat, 8);
            lemma_le_value_of_bytes(amount as nat, 8);
            assert(bytes.subrange(5, 13) =~= payload);
        },
        Instruction::NewOrder(hash) => {
            assert(bytes.subrange(5, 261) =~= hash);
        },
        Instruction::CancelOrder { order_id, owner, owner_slot } => {
            lemma_le_bytes_len(order_id as nat, 16);
            lemma_le_bytes_len(owner as nat, 8);
            lemma_le_value_of_bytes(order_id as nat, 16);
            lemma_le_value_of_bytes(owner as nat, 8);
            assert(bytes.subrange(5, 21) =~= le_bytes(order_id as nat, 16));
            assert(bytes.subrange(21, 29) =~= le_bytes(owner as nat, 8));
            assert(bytes[29] == owner_slot);
        },
    }
}

/// What `decode` never accepts: a buffer without a full header, one of more
/// than 512 bytes, a version other than 0, a discriminant above 3, and a known
/// discriminant whose payload is shorter or longer than its table entry.
pub proof fn lemma_decode_rejects(bytes: Seq<u8>)
    ensures
        bytes.len() < HEADER_LEN ==> decode(bytes) is None,
        bytes.len() > MAX_INSTRUCTION_LEN ==> decode(bytes) is None,
        bytes.len() > 0 && bytes[0] != VERSION ==> decode(bytes) is None,
        bytes.len() >= HEADER_LEN && le_value(bytes.subrange(1, 5)) > 3 ==> decode(bytes) is None,
        bytes.len() >= HEADER_LEN && le_value(bytes.subrange(1, 5)) <= 1 && bytes.len()
            != HEADER_LEN + AMOUNT_LEN ==> decode(bytes) is None,
        bytes.len() >= HEADER_LEN && le_value(bytes.subrange(1, 5)) == 2 && bytes.len()
            != HEADER_LEN + NEW_ORDER_LEN ==> decode(bytes) is None,
        bytes.len() >= HEADER_LEN && le_value(bytes.subrange(1, 5)) == 3 && bytes.len()
            != HEADER_LEN + CANCEL_ORDER_LEN ==> decode(bytes) is None,
{
}

/// A `Deposit` or `Withdraw` whose amount field is zero does not decode.
pub proof fn lemma_decode_rejects_zero_amount(bytes: Seq<u8>)
    requires
        bytes.len() == HEADER_LEN + AMOUNT_LEN,
        le_value(bytes.subrange(1, 5)) <= 1,
        le_value(bytes.subrange(5, 13)) == 0,
    ensures
        decode(bytes) is None,
{
}

/// Whatever `decode` accepts is valid, and encodes to the very bytes it came from.
pub proof fn lemma_encode_decode(bytes: Seq<u8>)
    requires
        decode(bytes) is Some,
    ensures
        decode(bytes)->0.valid(),
        encode(decode(bytes)->0) == bytes,
{
    let instruction = decode(bytes)->0;
    let tag = bytes.subrange(1, 5);
    lemma_pow256_widths();
    lemma_le_bytes_of_value(tag);
    match instruction {
        Instruction::Deposit(amount) => {
            let field = bytes.subrange(5, 13);
            lemma_le_value_bound(field);
            lemma_le_bytes_of_value(field);
            assert(encode(instruction) =~= bytes);
        },
        Instruction::Withdraw(amount) => {
            let field = bytes.subrange(5, 13);
            lemma_le_value_bound(field);
            lemma_le_bytes_of_value(field);
            assert(encode(instruction) =~= bytes);
        },
        Instruction::NewOrder(hash) => {
            assert(encode(instruction) =~= bytes);
        },
        Instruction::CancelOrder { order_id, owner, owner_slot } => {
            let id_field = bytes.subrange(5, 21);
            let owner_field = bytes.subrange(21, 29);
            lemma_le_value_bound(id_field);
            lemma_le_value_bound(owner_field);
            lemma_le_bytes_of_value(id_field);
            lemma_le_bytes_of_value(owner_field);
            assert(encode(instruction) =~= bytes);
        },
    }
}

/// Two instructions with the same content are the same instruction.
pub proof fn lemma_view_injective(a: DecefiInstruction, b: DecefiInstruction)
    requires
        a@ == b@,
    ensures
        a == b,
{
    match (a, b) {
        (DecefiInstruction::NewOrder(x), DecefiInstruction::NewOrder(y)) => {
            assert(x.hash@ == y.hash@);
            assert(x.hash =~= y.hash);
        },
        _ => {},
    }
}

impl Deposit {
    /// A deposit of `amount`, unless `amount` is zero.
    pub fn new(amount: u64) -> (result: Option<Deposit>)
        ensures
            amount == 0 ==> result is None,
            amount != 0 ==> result == Some(Deposit { amount }),
    {
        if amount == 0 {
            None
        } else {
            Some(Deposit { amount })
        }
    }

    /// The instruction that asks for this deposit.
    pub fn instruction(&self) -> (result: DecefiInstruction)
        ensures
            result == DecefiInstruction::Deposit(self.amount),
    {
        DecefiInstruction::Deposit(self.amount)
    }
}

impl Withdraw {
    /// A withdrawal of `amount`, unless `amount` is zero.
    pub fn new(amount: u64) -> (result: Option<Withdraw>)
        ensures
            amount == 0 ==> result is None,
            amount != 0 ==> result == Some(Withdraw { amount }),
    {
        if amount == 0 {
            None
        } else {
            Some(Withdraw { amount })
        }
    }

    /// The instruction that asks for this withdrawal.
    pub fn instruction(&self) -> (result: DecefiInstruction)
        ensures
            result == DecefiInstruction::Withdraw(self.amount),
    {
        DecefiInstruction::Withdraw(self.amount)
    }
}

impl DecefiInstruction {
    /// The wire form of this instruction: version byte, discriminant, payload.
    pub fn pack(&self) -> (bytes: Vec<u8>)
        ensures
            bytes@ == encode(self@),
    {
        let mut bytes: Vec<u8> = Vec::new();
        bytes.push(VERSION);
        match self {
            DecefiInstruction::Deposit(amount) => {
                push_le(&mut bytes, 0, 4);
                push_le(&mut bytes, *amount as u128, 8);
            },
            DecefiInstruction::Withdraw(amount) => {
                push_le(&mut bytes, 1, 4);
                push_le(&mut bytes, *amount as u128, 8);
            },
            DecefiInstruction::NewOrder(order) => {
                push_le(&mut bytes, 2, 4);
                let ghost head = bytes@;
                let mut i: usize = 0;
                while i < NEW_ORDER_LEN
                    invariant
                        i <= NEW_ORDER_LEN,
                        bytes@ == head + order.hash@.subrange(0, i as int),
                    decreases NEW_ORDER_LEN - i,
                {
                    bytes.push(order.hash[i]);
                    i = i + 1;
                }
                assert(order.hash@.subrange(0, NEW_ORDER_LEN as int) =~= order.hash@);
            },
            DecefiInstruction::CancelOrder(cancel) => {
                push_le(&mut bytes, 3, 4);
                push_le(&mut bytes, cancel.order_id, 16);
                push_le(&mut bytes, cancel.owner as u128, 8);
                bytes.push(cancel.owner_slot);
            },
        }
        assert(bytes@ =~= encode(self@));
        bytes
    }

    /// Reads an instruction from its wire form. `None` for whatever is not
    /// exactly the wire form of a valid instruction: nothing is cut off or
    /// filled in.
    pub fn unpack(versioned_bytes: &[u8]) -> (result: Option<DecefiInstruction>)
        ensures
            match result {
                Some(instruction) => decode(versioned_bytes@) == Some(instruction@),
                None => decode(versioned_bytes@) is None,
            },
    {
        let len: usize = versioned_bytes.len();
        if len < HEADER_LEN || len > MAX_INSTRUCTION_LEN {
            return None;
        }
        if versioned_bytes[0] != VERSION {
            return None;
        }
        let discriminant: u32 = read_u32_le(versioned_bytes, 1);
        let payload_len: usize = len - HEADER_LEN;
        proof {
            lemma_pow256_widths();
            lemma_le_value_bound(versioned_bytes@.subrange(5, 13));
            lemma_le_value_bound(versioned_bytes@.subrange(5, 21));
            lemma_le_value_bound(versioned_bytes@.subrange(21, 29));
        }
        if discriminant == 0 && payload_len == AMOUNT_LEN {
            let amount: u64 = read_u64_le(versioned_bytes, 5);
            if amount == 0 {
                None
            } else {
                Some(DecefiInstruction::Deposit(amount))
            }
        } else if discriminant == 1 && payload_len == AMOUNT_LEN {
            let amount: u64 = read_u64_le(versioned_bytes, 5);
            if amount == 0 {
                None
            } else {
                Some(DecefiInstruction::Withdraw(amount))
            }
        } else if discriminant == 2 && payload_len == NEW_ORDER_LEN {
            let mut hash: [u8; 256] = [0u8; 256];
            let mut i: usize = 0;
            while i < NEW_ORDER_LEN
                invariant
                    i <= NEW_ORDER_LEN,
                    versioned_bytes@.len() == HEADER_LEN + NEW_ORDER_LEN,
                    forall|k: int| 0 <= k < i ==> hash@[k] == versioned_bytes@[5 + k],
                decreases NEW_ORDER_LEN - i,
            {
                hash[i] = versioned_bytes[HEADER_LEN + i];
                i = i + 1;
            }
            assert(hash@ =~= versioned_bytes@.subrange(5, 261));
            Some(DecefiInstruction::NewOrder(NewOrderInstruction { hash }))
        } else if discriminant == 3 && payload_len == CANCEL_ORDER_LEN {
            let order_id: u128 = read_u128_le(versioned_bytes, 5);
            let owner: u64 = read_u64_le(versioned_bytes, 21);
            let owner_slot: u8 = versioned_bytes[29];
            Some(
                DecefiInstruction::CancelOrder(
                    CancelOrderInstruction { order_id, owner, owner_slot },
                ),
            )
        } else {
            None
        }
    }
}

} // verus!
