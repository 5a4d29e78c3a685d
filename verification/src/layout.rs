//! The binary layout of a token swap account.

use crate::keys::Pubkey;
use vstd::bytes::{
    lemma_auto_spec_u64_to_from_le_bytes, spec_u64_from_le_bytes, spec_u64_to_le_bytes,
    spec_u64_to_le_bytes_open, spec_u64_to_le_bytes_to_open,
};
use vstd::prelude::*;

verus! {

/// The length of a swap account's data.
pub const LAYOUT_LEN: usize = 324;

/// Why account data holds no pool.
#[derive(Clone, Copy, Debug, PartialEq, Eq, Structural)]
pub enum ProgramError {
    /// The data is shorter than the layout.
    InvalidAccountData,
}

/// A token swap pool, as its account stores it.
#[derive(Clone, Copy, Debug)]
pub struct TokenSwapLayout {
    pub version: u8,
    pub is_initialized: bool,
    pub bump_seed: u8,
    pub pool_token_program_id: Pubkey,
    pub token_account_a: Pubkey,
    pub token_account_b: Pubkey,
    pub token_pool: Pubkey,
    pub mint_a: Pubkey,
    pub mint_b: Pubkey,
    pub fee_account: Pubkey,
    pub trade_fee_numerator: u64,
    pub trade_fee_denominator: u64,
    pub owner_trade_fee_numerator: u64,
    pub owner_trade_fee_denominator: u64,
    pub owner_withdraw_fee_numerator: u64,
    pub owner_withdraw_fee_denominator: u64,
    pub host_fee_numerator: u64,
    pub host_fee_denominator: u64,
    pub curve_type: u8,
    pub curve_parameters: [u8; 32],
}

/// A token swap pool, with its addresses and parameters as sequences of bytes.
#[verifier::ext_equal]
pub ghost struct SwapLayout {
    pub version: u8,
    pub is_initialized: bool,
    pub bump_seed: u8,
    pub pool_token_program_id: Seq<u8>,
    pub token_account_a: Seq<u8>,
    pub token_account_b: Seq<u8>,
    pub token_pool: Seq<u8>,
    pub mint_a: Seq<u8>,
    pub mint_b: Seq<u8>,
    pub fee_account: Seq<u8>,
    pub trade_fee_numerator: nat,
    pub trade_fee_denominator: nat,
    pub owner_trade_fee_numerator: nat,
    pub owner_trade_fee_denominator: nat,
    pub owner_withdraw_fee_numerator: nat,
    pub owner_withdraw_fee_denominator: nat,
    pub host_fee_numerator: nat,
    pub host_fee_denominator: nat,
    pub curve_type: u8,
    pub curve_parameters: Seq<u8>,
}

impl View for TokenSwapLayout {
    type V = SwapLayout;

    open spec fn view(&self) -> SwapLayout {
        SwapLayout {
            version: self.version,
            is_initialized: self.is_initialized,
            bump_seed: self.bump_seed,
            pool_token_program_id: self.pool_token_program_id@,
            token_account_a: self.token_account_a@,
            token_account_b: self.token_account_b@,
            token_pool: self.token_pool@,
            mint_a: self.mint_a@,
            mint_b: self.mint_b@,
            fee_account: self.fee_account@,
            trade_fee_numerator: self.trade_fee_numerator as nat,
            trade_fee_denominator: self.trade_fee_denominator as nat,
            owner_trade_fee_numerator: self.owner_trade_fee_numerator as nat,
            owner_trade_fee_denominator: self.owner_trade_fee_denominator as nat,
            owner_withdraw_fee_numerator: self.owner_withdraw_fee_numerator as nat,
            owner_withdraw_fee_denominator: self.owner_withdraw_fee_denominator as nat,
            host_fee_numerator: self.host_fee_numerator as nat,
            host_fee_denominator: self.host_fee_denominator as nat,
            curve_type: self.curve_type,
            curve_parameters: self.curve_parameters@,
        }
    }
}

/// The number that the eight bytes of `src` from `at` on hold, the lowest byte first.
pub open spec fn le_u64(src: Seq<u8>, at: int) -> nat {
    le_value(src, at, at + 8)
}

/// The number that the bytes of `src` from `at` up to `end` hold, the lowest byte first.
pub open spec fn le_value(src: Seq<u8>, at: int, end: int) -> nat
    decreases end - at,
{
    if at >= end {
        0
    } else {
        src[at] as nat + 0x100 * le_value(src, at + 1, end)
    }
}

/// The 32 bytes of `src` from `at` on.
pub open spec fn bytes_32(src: Seq<u8>, at: int) -> Seq<u8> {
    src.subrange(at, at + 32)
}

/// The pool that the data of a swap account holds.
pub open spec fn layout_of(src: Seq<u8>) -> SwapLayout {
    SwapLayout {
        version: src[0],
        is_initialized: src[1] != 0,
        bump_seed: src[2],
        pool_token_program_id: bytes_32(src, 3),
        token_account_a: bytes_32(src, 35),
        token_account_b: bytes_32(src, 67),
        token_pool: bytes_32(src, 99),
        mint_a: bytes_32(src, 131),
        mint_b: bytes_32(src, 163),
        fee_account: bytes_32(src, 195),
        trade_fee_numerator: le_u64(src, 227),
        trade_fee_denominator: le_u64(src, 235),
        owner_trade_fee_numerator: le_u64(src, 243),
        owner_trade_fee_denominator: le_u64(src, 251),
        owner_withdraw_fee_numerator: le_u64(src, 259),
        owner_withdraw_fee_denominator: le_u64(src, 267),
        host_fee_numerator: le_u64(src, 275),
        host_fee_denominator: le_u64(src, 283),
        curve_type: src[291],
        curve_parameters: bytes_32(src, 292),
    }
}

/// What unpacking gives for data that is no longer than the layout.
pub open spec fn unpacked(src: Seq<u8>) -> Result<SwapLayout, ProgramError> {
    if src.len() < LAYOUT_LEN {
        Err(ProgramError::InvalidAccountData)
    } else {
        Ok(layout_of(src))
    }
}

fn read_u64(src: &[u8], at: usize) -> (n: u64)
    requires
        at + 8 <= src@.len(),
    ensures
        n == le_u64(src@, at as int),
{
    proof {
        reveal_with_fuel(le_value, 9);
    }
    src[at] as u64 + 0x100 * src[at + 1] as u64 + 0x1_0000 * src[at + 2] as u64 + 0x100_0000
        * src[at + 3] as u64 + 0x1_0000_0000 * src[at + 4] as u64 + 0x100_0000_0000 * src[at
        + 5] as u64 + 0x1_0000_0000_0000 * src[at + 6] as u64 + 0x100_0000_0000_0000 * src[at
        + 7] as u64
}

fn read_bytes(src: &[u8], at: usize) -> (bytes: [u8; 32])
    requires
        at + 32 <= src@.len(),
    ensures
        bytes@ == bytes_32(src@, at as int),
{
    let len: usize = src.len();
    let mut bytes: [u8; 32] = [0u8; 32];
    let mut i: usize = 0;
    while i < 32
        invariant
            i <= 32,
            at + 32 <= len,
            len == src@.len(),
            forall|j: int| 0 <= j < i ==> #[trigger] bytes@[j] == src@[at + j],
        decreases 32 - i,
    {
        bytes[i] = src[at + i];
        i = i + 1;
    }
    assert(bytes@ =~= bytes_32(src@, at as int));
    bytes
}

fn read_key(src: &[u8], at: usize) -> (key: Pubkey)
    requires
        at + 32 <= src@.len(),
    ensures
        key@ == bytes_32(src@, at as int),
{
    Pubkey { bytes: read_bytes(src, at) }
}

/// Reads a pool out of the data of its account.
///
/// Data longer than the layout is left to the caller to reject: its tail fits no field.
pub fn unpack_from_slice(src: &[u8]) -> (r: Result<TokenSwapLayout, ProgramError>)
    requires
        src@.len() <= LAYOUT_LEN,
    ensures
        match r {
            Ok(layout) => unpacked(src@) == Ok::<SwapLayout, ProgramError>(layout@),
            Err(error) => unpacked(src@) == Err::<SwapLayout, ProgramError>(error),
        },
        src@.len() < 324 ==> r == Err::<TokenSwapLayout, ProgramError>(
            ProgramError::InvalidAccountData,
        ),
        src@.len() == 324 ==> (r matches Ok(pool) && {
            &&& pool.version == src@[0]
            &&& pool.is_initialized == (src@[1] != 0)
            &&& pool.bump_seed == src@[2]
            &&& pool.pool_token_program_id@ == src@.subrange(3, 35)
            &&& pool.token_account_a@ == src@.subrange(35, 67)
            &&& pool.token_account_b@ == src@.subrange(67, 99)
            &&& pool.token_pool@ == src@.subrange(99, 131)
            &&& pool.mint_a@ == src@.subrange(131, 163)
            &&& pool.mint_b@ == src@.subrange(163, 195)
            &&& pool.fee_account@ == src@.subrange(195, 227)
            &&& pool.trade_fee_numerator == spec_u64_from_le_bytes(src@.subrange(227, 235))
            &&& pool.trade_fee_denominator == spec_u64_from_le_bytes(src@.subrange(235, 243))
            &&& pool.owner_trade_fee_numerator == spec_u64_from_le_bytes(src@.subrange(243, 251))
            &&& pool.owner_trade_fee_denominator == spec_u64_from_le_bytes(src@.subrange(251, 259))
            &&& pool.owner_withdraw_fee_numerator == spec_u64_from_le_bytes(src@.subrange(259, 267))
            &&& pool.owner_withdraw_fee_denominator == spec_u64_from_le_bytes(src@.subrange(267, 275))
            &&& pool.host_fee_numerator == spec_u64_from_le_bytes(src@.subrange(275, 283))
            &&& pool.host_fee_denominator == spec_u64_from_le_bytes(src@.subrange(283, 291))
            &&& pool.curve_type == src@[291]
            &&& pool.curve_parameters@ == src@.subrange(292, 324)
        }),
{
    if src.len() < LAYOUT_LEN {
        return Err(ProgramError::InvalidAccountData);
    }
    let layout = TokenSwapLayout {
        version: src[0],
        is_initialized: src[1] != 0,
        bump_seed: src[2],
        pool_token_program_id: read_key(src, 3),
        token_account_a: read_key(src, 35),
        token_account_b: read_key(src, 67),
        token_pool: read_key(src, 99),
        mint_a: read_key(src, 131),
        mint_b: read_key(src, 163),
        fee_account: read_key(src, 195),
        trade_fee_numerator: read_u64(src, 227),
        trade_fee_denominator: read_u64(src, 235),
        owner_trade_fee_numerator: read_u64(src, 243),
        owner_trade_fee_denominator: read_u64(src, 251),
        owner_withdraw_fee_numerator: read_u64(src, 259),
        owner_withdraw_fee_denominator: read_u64(src, 267),
        host_fee_numerator: read_u64(src, 275),
        host_fee_denominator: read_u64(src, 283),
        curve_type: src[291],
        curve_parameters: read_bytes(src, 292),
    };
    proof {
        law_fields_stand_at_their_offsets(src@);
    }
    Ok(layout)
}

proof fn lemma_le_value_injective(a: Seq<u8>, b: Seq<u8>, at: int, end: int)
    requires
        le_value(a, at, end) == le_value(b, at, end),
    ensures
        forall|i: int| at <= i < end ==> #[trigger] a[i] == b[i],
    decreases end - at,
{
    if at < end {
        lemma_le_value_injective(a, b, at + 1, end);
    }
}

proof fn lemma_bytes_32_injective(a: Seq<u8>, b: Seq<u8>, at: int)
    requires
        0 <= at,
        at + 32 <= a.len(),
        at + 32 <= b.len(),
        bytes_32(a, at) == bytes_32(b, at),
    ensures
        forall|i: int| at <= i < at + 32 ==> #[trigger] a[i] == b[i],
{
    assert forall|i: int| at <= i < at + 32 implies #[trigger] a[i] == b[i] by {
        assert(bytes_32(a, at)[i - at] == a[i]);
        assert(bytes_32(b, at)[i - at] == b[i]);
    }
}

proof fn lemma_le_u64_is_standard(src: Seq<u8>, at: int)
    requires
        0 <= at,
        at + 8 <= src.len(),
    ensures
        le_u64(src, at) == spec_u64_from_le_bytes(src.subrange(at, at + 8)),
        spec_u64_to_le_bytes(le_u64(src, at) as u64) == src.subrange(at, at + 8),
        le_u64(src, at) <= u64::MAX,
{
    reveal_with_fuel(le_value, 9);
    let b0 = src[at];
    let b1 = src[at + 1];
    let b2 = src[at + 2];
    let b3 = src[at + 3];
    let b4 = src[at + 4];
    let b5 = src[at + 5];
    let b6 = src[at + 6];
    let b7 = src[at + 7];
    let x = le_u64(src, at) as u64;
    assert((x & 0xff) as u8 == b0 && ((x >> 8) & 0xff) as u8 == b1 && ((x >> 16) & 0xff) as u8
        == b2 && ((x >> 24) & 0xff) as u8 == b3 && ((x >> 32) & 0xff) as u8 == b4 && ((x >> 40)
        & 0xff) as u8 == b5 && ((x >> 48) & 0xff) as u8 == b6 && ((x >> 56) & 0xff) as u8 == b7)
        by (bit_vector)
        requires
            x == b0 + 0x100 * b1 + 0x1_0000 * b2 + 0x100_0000 * b3 + 0x1_0000_0000 * b4
                + 0x100_0000_0000 * b5 + 0x1_0000_0000_0000 * b6 + 0x100_0000_0000_0000 * b7,
    ;
    spec_u64_to_le_bytes_to_open(x);
    assert(spec_u64_to_le_bytes_open(x) =~= src.subrange(at, at + 8));
    lemma_auto_spec_u64_to_from_le_bytes();
}

/// Every field of a pool stands at its own offset of the account, whatever the other bytes
/// are: addresses and parameters byte for byte, numbers in little-endian order. Only data
/// that is too short holds no pool.
pub proof fn law_fields_stand_at_their_offsets(src: Seq<u8>)
    ensures
        src.len() < 324 ==> unpacked(src) == Err::<SwapLayout, ProgramError>(
            ProgramError::InvalidAccountData,
        ),
        src.len() == 324 ==> (unpacked(src) matches Ok(pool) && {
            &&& pool.version == src[0]
            &&& pool.is_initialized == (src[1] != 0)
            &&& pool.bump_seed == src[2]
            &&& pool.pool_token_program_id == src.subrange(3, 35)
            &&& pool.token_account_a == src.subrange(35, 67)
            &&& pool.token_account_b == src.subrange(67, 99)
            &&& pool.token_pool == src.subrange(99, 131)
            &&& pool.mint_a == src.subrange(131, 163)
            &&& pool.mint_b == src.subrange(163, 195)
            &&& pool.fee_account == src.subrange(195, 227)
            &&& pool.trade_fee_numerator == spec_u64_from_le_bytes(src.subrange(227, 235)) as nat
            &&& pool.trade_fee_denominator == spec_u64_from_le_bytes(src.subrange(235, 243)) as nat
            &&& pool.owner_trade_fee_numerator == spec_u64_from_le_bytes(src.subrange(243, 251)) as nat
            &&& pool.owner_trade_fee_denominator == spec_u64_from_le_bytes(src.subrange(251, 259)) as nat
            &&& pool.owner_withdraw_fee_numerator == spec_u64_from_le_bytes(src.subrange(259, 267)) as nat
            &&& pool.owner_withdraw_fee_denominator == spec_u64_from_le_bytes(src.subrange(267, 275)) as nat
            &&& pool.host_fee_numerator == spec_u64_from_le_bytes(src.subrange(275, 283)) as nat
            &&& pool.host_fee_denominator == spec_u64_from_le_bytes(src.subrange(283, 291)) as nat
            &&& pool.curve_type == src[291]
            &&& pool.curve_parameters == src.subrange(292, 324)
        }),
{
    if src.len() == 324 {
        lemma_le_u64_is_standard(src, 227);
        lemma_le_u64_is_standard(src, 235);
        lemma_le_u64_is_standard(src, 243);
        lemma_le_u64_is_standard(src, 251);
        lemma_le_u64_is_standard(src, 259);
        lemma_le_u64_is_standard(src, 267);
        lemma_le_u64_is_standard(src, 275);
        lemma_le_u64_is_standard(src, 283);
    }
}

/// The data of an account that holds a pool, with a set flag written as one.
pub open spec fn packed(pool: SwapLayout) -> Seq<u8> {
    seq![
        pool.version,
        if pool.is_initialized {
            1u8
        } else {
            0u8
        },
        pool.bump_seed,
    ] + pool.pool_token_program_id + pool.token_account_a + pool.token_account_b + pool.token_pool
        + pool.mint_a + pool.mint_b + pool.fee_account
        + spec_u64_to_le_bytes(pool.trade_fee_numerator as u64)
        + spec_u64_to_le_bytes(pool.trade_fee_denominator as u64)
        + spec_u64_to_le_bytes(pool.owner_trade_fee_numerator as u64)
        + spec_u64_to_le_bytes(pool.owner_trade_fee_denominator as u64)
        + spec_u64_to_le_bytes(pool.owner_withdraw_fee_numerator as u64)
        + spec_u64_to_le_bytes(pool.owner_withdraw_fee_denominator as u64)
        + spec_u64_to_le_bytes(pool.host_fee_numerator as u64)
        + spec_u64_to_le_bytes(pool.host_fee_denominator as u64)
        + seq![pool.curve_type] + pool.curve_parameters
}

/// Packing the pool that was read out of an account gives the account's data back, but for how
/// the flag is spelt.
pub proof fn law_packing_undoes_unpacking(src: Seq<u8>)
    requires
        src.len() == 324,
    ensures
        unpacked(src) matches Ok(pool) && packed(pool) == src.update(
            1,
            if src[1] != 0 {
                1u8
            } else {
                0u8
            },
        ),
{
    let pool = unpacked(src)->Ok_0;
    lemma_le_u64_is_standard(src, 227);
    lemma_le_u64_is_standard(src, 235);
    lemma_le_u64_is_standard(src, 243);
    lemma_le_u64_is_standard(src, 251);
    lemma_le_u64_is_standard(src, 259);
    lemma_le_u64_is_standard(src, 267);
    lemma_le_u64_is_standard(src, 275);
    lemma_le_u64_is_standard(src, 283);
    assert(packed(pool) =~= src.update(
        1,
        if src[1] != 0 {
            1u8
        } else {
            0u8
        },
    ));
}

/// The view of a pool shows every field as it is stored.
pub proof fn law_view_shows_every_field(pool: TokenSwapLayout)
    ensures
        pool@.version == pool.version,
        pool@.is_initialized == pool.is_initialized,
        pool@.bump_seed == pool.bump_seed,
        pool@.pool_token_program_id == pool.pool_token_program_id.bytes@,
        pool@.token_account_a == pool.token_account_a.bytes@,
        pool@.token_account_b == pool.token_account_b.bytes@,
        pool@.token_pool == pool.token_pool.bytes@,
        pool@.mint_a == pool.mint_a.bytes@,
        pool@.mint_b == pool.mint_b.bytes@,
        pool@.fee_account == pool.fee_account.bytes@,
        pool@.trade_fee_numerator == pool.trade_fee_numerator,
        pool@.trade_fee_denominator == pool.trade_fee_denominator,
        pool@.owner_trade_fee_numerator == pool.owner_trade_fee_numerator,
        pool@.owner_trade_fee_denominator == pool.owner_trade_fee_denominator,
        pool@.owner_withdraw_fee_numerator == pool.owner_withdraw_fee_numerator,
        pool@.owner_withdraw_fee_denominator == pool.owner_withdraw_fee_denominator,
        pool@.host_fee_numerator == pool.host_fee_numerator,
        pool@.host_fee_denominator == pool.host_fee_denominator,
        pool@.curve_type == pool.curve_type,
        pool@.curve_parameters == pool.curve_parameters@,
{
}

/// Unpacking loses nothing but how the flag is spelt: two accounts that hold the same pool
/// agree in every byte other than the flag's, and the flag is set in both or in neither.
pub proof fn law_unpacking_loses_nothing(a: Seq<u8>, b: Seq<u8>)
    requires
        a.len() == LAYOUT_LEN,
        b.len() == LAYOUT_LEN,
        unpacked(a) == unpacked(b),
    ensures
        forall|i: int| 0 <= i < LAYOUT_LEN && i != 1 ==> #[trigger] a[i] == b[i],
        (a[1] != 0) == (b[1] != 0),
{
    let x = layout_of(a);
    let y = layout_of(b);
    assert(x == y);
    lemma_bytes_32_injective(a, b, 3);
    lemma_bytes_32_injective(a, b, 35);
    lemma_bytes_32_injective(a, b, 67);
    lemma_bytes_32_injective(a, b, 99);
    lemma_bytes_32_injective(a, b, 131);
    lemma_bytes_32_injective(a, b, 163);
    lemma_bytes_32_injective(a, b, 195);
    lemma_le_value_injective(a, b, 227, 235);
    lemma_le_value_injective(a, b, 235, 243);
    lemma_le_value_injective(a, b, 243, 251);
    lemma_le_value_injective(a, b, 251, 259);
    lemma_le_value_injective(a, b, 259, 267);
    lemma_le_value_injective(a, b, 267, 275);
    lemma_le_value_injective(a, b, 275, 283);
    lemma_le_value_injective(a, b, 283, 291);
    lemma_bytes_32_injective(a, b, 292);
}

} // verus!
