//! Identifiers and quantities shared by the registry and the ledger.

use vstd::prelude::*;

verus! {

/// Identifies an account.
pub type AccountId = u64;

/// An amount of currency: a rate per hour, a credit or a balance.
pub type Balance = u64;

/// A point in time or a span of time, in milliseconds.
pub type Moment = u64;

/// The number that `bytes` spell, highest byte first.
pub open spec fn big_endian(bytes: Seq<u8>) -> nat
    decreases bytes.len(),
{
    if bytes.len() == 0 {
        0
    } else {
        256 * big_endian(bytes.drop_last()) + bytes.last() as nat
    }
}

/// The number of values that `n` bytes can spell.
pub open spec fn byte_range(n: nat) -> nat
    decreases n,
{
    if n == 0 {
        1
    } else {
        256 * byte_range((n - 1) as nat)
    }
}

/// A number spelled by up to sixteen bytes fits in sixteen bytes.
proof fn lemma_byte_range(n: nat)
    requires
        n <= 16,
    ensures
        byte_range(n) <= 0x1_0000_0000_0000_0000_0000_0000_0000_0000,
        n < 16 ==> 256 * byte_range(n) <= 0x1_0000_0000_0000_0000_0000_0000_0000_0000,
{
    reveal_with_fuel(byte_range, 17);
}

/// Reads sixteen bytes of `bytes`, from `start` on, as one number.
fn half(bytes: &[u8; 32], start: usize) -> (value: u128)
    requires
        start <= 16,
    ensures
        value == big_endian(bytes@.subrange(start as int, start + 16)),
{
    let mut value: u128 = 0;
    let mut i: usize = 0;
    while i < 16
        invariant
            i <= 16,
            start <= 16,
            value == big_endian(bytes@.subrange(start as int, start + i)),
            value < byte_range(i as nat),
        decreases 16 - i,
    {
        proof {
            lemma_byte_range(i as nat);
            let longer = bytes@.subrange(start as int, start + i + 1);
            assert(longer.drop_last() =~= bytes@.subrange(start as int, start + i));
            assert(longer.last() == bytes@[start + i]);
        }
        value = value * 256 + (bytes[start + i] as u128);
        i += 1;
    }
    value
}

/// An opaque 32-byte role identifier, kept as two 16-byte halves.
///
/// Roles are never created: one exists as soon as something refers to it.
#[derive(Clone, Copy, Debug, PartialEq, Eq, Hash, Structural)]
pub struct Role {
    pub hi: u128,
    pub lo: u128,
}

impl Role {
    /// The all-zero role, which administers every role that has no
    /// administrator of its own.
    pub open spec fn none() -> Role {
        Role { hi: 0, lo: 0 }
    }

    /// The role with the given halves.
    pub fn new(hi: u128, lo: u128) -> (role: Role)
        ensures
            role == (Role { hi, lo }),
    {
        Role { hi, lo }
    }

    /// The all-zero role.
    pub fn zero() -> (role: Role)
        ensures
            role == Role::none(),
    {
        Role { hi: 0, lo: 0 }
    }

    /// The role that 32 bytes spell: the first sixteen are the high half,
    /// the last sixteen the low half, each with its highest byte first.
    pub fn from_bytes(bytes: &[u8; 32]) -> (role: Role)
        ensures
            role.hi == big_endian(bytes@.subrange(0, 16)),
            role.lo == big_endian(bytes@.subrange(16, 32)),
    {
        Role { hi: half(bytes, 0), lo: half(bytes, 16) }
    }
}

} // verus!
