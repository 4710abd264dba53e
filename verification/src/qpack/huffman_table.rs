//! The Huffman code for header strings, as tables.
//!
//! The code is canonical: codes of one length are consecutive numbers, given
//! to the symbols in ascending order, and the first code of a length is twice
//! the number that follows the last code of the length before. Two
//! permutation tables and the first code and rank of each length therefore
//! hold the whole code. The symbol that ends a string, thirty one-bits, is
//! the one code that is no byte's: it has no place in the tables.
use vstd::prelude::*;

verus! {

/// The symbols in the order of their codes: the symbol of each rank.
pub const SYMBOLS: [u8; 256] = [
    48, 49, 50, 97, 99, 101, 105, 111, 115, 116, 32, 37, 45, 46, 47, 51,
    52, 53, 54, 55, 56, 57, 61, 65, 95, 98, 100, 102, 103, 104, 108, 109,
    110, 112, 114, 117, 58, 66, 67, 68, 69, 70, 71, 72, 73, 74, 75, 76,
    77, 78, 79, 80, 81, 82, 83, 84, 85, 86, 87, 89, 106, 107, 113, 118,
    119, 120, 121, 122, 38, 42, 44, 59, 88, 90, 33, 34, 40, 41, 63, 39,
    43, 124, 35, 62, 0, 36, 64, 91, 93, 126, 94, 125, 60, 96, 123, 92,
    195, 208, 128, 130, 131, 162, 184, 194, 224, 226, 153, 161, 167, 172, 176, 177,
    179, 209, 216, 217, 227, 229, 230, 129, 132, 133, 134, 136, 146, 154, 156, 160,
    163, 164, 169, 170, 173, 178, 181, 185, 186, 187, 189, 190, 196, 198, 228, 232,
    233, 1, 135, 137, 138, 139, 140, 141, 143, 147, 149, 150, 151, 152, 155, 157,
    158, 165, 166, 168, 174, 175, 180, 182, 183, 188, 191, 197, 231, 239, 9, 142,
    144, 145, 148, 159, 171, 206, 215, 225, 236, 237, 199, 207, 234, 235, 192, 193,
    200, 201, 202, 205, 210, 213, 218, 219, 238, 240, 242, 243, 255, 203, 204, 211,
    212, 214, 221, 222, 223, 241, 244, 245, 246, 247, 248, 250, 251, 252, 253, 254,
    2, 3, 4, 5, 6, 7, 8, 11, 12, 14, 15, 16, 17, 18, 19, 20,
    21, 23, 24, 25, 26, 27, 28, 29, 30, 31, 127, 220, 249, 10, 13, 22,
];

/// The rank of each symbol: its place in the order of the codes.
pub const RANKS: [u8; 256] = [
    84, 145, 224, 225, 226, 227, 228, 229, 230, 174, 253, 231, 232, 254, 233, 234,
    235, 236, 237, 238, 239, 240, 255, 241, 242, 243, 244, 245, 246, 247, 248, 249,
    10, 74, 75, 82, 85, 11, 68, 79, 76, 77, 69, 80, 70, 12, 13, 14,
    0, 1, 2, 15, 16, 17, 18, 19, 20, 21, 36, 71, 92, 22, 83, 78,
    86, 23, 37, 38, 39, 40, 41, 42, 43, 44, 45, 46, 47, 48, 49, 50,
    51, 52, 53, 54, 55, 56, 57, 58, 72, 59, 73, 87, 95, 88, 90, 24,
    93, 3, 25, 4, 26, 5, 27, 28, 29, 6, 60, 61, 30, 31, 32, 7,
    33, 62, 34, 8, 9, 35, 63, 64, 65, 66, 67, 94, 81, 91, 89, 250,
    98, 119, 99, 100, 120, 121, 122, 146, 123, 147, 148, 149, 150, 151, 175, 152,
    176, 177, 124, 153, 178, 154, 155, 156, 157, 106, 125, 158, 126, 159, 160, 179,
    127, 107, 101, 128, 129, 161, 162, 108, 163, 130, 131, 180, 109, 132, 164, 165,
    110, 111, 133, 112, 166, 134, 167, 168, 102, 135, 136, 137, 169, 138, 139, 170,
    190, 191, 103, 96, 140, 171, 141, 186, 192, 193, 194, 205, 206, 195, 181, 187,
    97, 113, 196, 207, 208, 197, 209, 182, 114, 115, 198, 199, 251, 210, 211, 212,
    104, 183, 105, 116, 142, 117, 118, 172, 143, 144, 188, 189, 184, 185, 200, 173,
    201, 213, 202, 203, 214, 215, 216, 217, 218, 252, 219, 220, 221, 222, 223, 204,
];

/// For each length, the number of symbols with a shorter code: the rank of
/// the first symbol of that length.
pub const FIRST_RANK: [u16; 32] = [
    0, 0, 0, 0, 0, 0, 10, 36, 68, 74, 74, 79, 82, 84, 90, 92,
    95, 95, 95, 95, 98, 106, 119, 145, 174, 186, 190, 205, 224, 253, 253, 256,
];

/// For each length up to thirty, the first code of that length.
pub const FIRST_CODE: [u32; 32] = [
    0, 0, 0, 0, 0, 0, 20, 92, 248, 508, 1016, 2042, 4090, 8184, 16380, 32764,
    65534, 131068, 262136, 524272, 1048550, 2097116, 4194258, 8388568, 16777194, 33554412, 67108832, 134217694, 268435426, 536870910, 1073741820, 0,
];

/// The longest code of a byte, in bits.
pub const MAX_CODE_LEN: u8 = 30;

/// The place of the symbol `s` in the order of the codes.
pub open spec fn rank_of(s: u8) -> nat {
    RANKS[s as int] as nat
}

/// The symbol at place `r` in the order of the codes.
pub open spec fn symbol_of(r: nat) -> u8
    recommends
        r < 256,
{
    SYMBOLS[r as int]
}

/// The number of symbols whose code is shorter than `l` bits.
pub open spec fn first_rank(l: nat) -> nat
    recommends
        l <= 31,
{
    FIRST_RANK[l as int] as nat
}

/// The first code of `l` bits.
pub open spec fn first_code(l: nat) -> nat
    recommends
        l <= 30,
{
    FIRST_CODE[l as int] as nat
}

/// The number that follows the last code of `l` bits.
pub open spec fn code_limit(l: nat) -> nat
    recommends
        l <= 30,
{
    (first_code(l) + first_rank(l + 1) - first_rank(l)) as nat
}

/// The length in bits of the code of the symbol at place `r`.
pub open spec fn len_of_rank(r: nat) -> nat {
    if r < 10 {
        5
    } else if r < 36 {
        6
    } else if r < 68 {
        7
    } else if r < 74 {
        8
    } else if r < 79 {
        10
    } else if r < 82 {
        11
    } else if r < 84 {
        12
    } else if r < 90 {
        13
    } else if r < 92 {
        14
    } else if r < 95 {
        15
    } else if r < 98 {
        19
    } else if r < 106 {
        20
    } else if r < 119 {
        21
    } else if r < 145 {
        22
    } else if r < 174 {
        23
    } else if r < 186 {
        24
    } else if r < 190 {
        25
    } else if r < 205 {
        26
    } else if r < 224 {
        27
    } else if r < 253 {
        28
    } else {
        30
    }
}

/// The length in bits of the code of `s`.
pub open spec fn code_len(s: u8) -> nat {
    len_of_rank(rank_of(s))
}

/// The code of `s`, as a number of `code_len(s)` bits.
pub open spec fn code_of(s: u8) -> nat {
    (first_code(code_len(s)) + rank_of(s) - first_rank(code_len(s))) as nat
}

/// The two permutation tables are inverse to each other.
pub proof fn lemma_rank_symbol_inverse()
    ensures
        forall|s: u8| rank_of(s) < 256 && #[trigger] symbol_of(rank_of(s)) == s,
        forall|r: nat| r < 256 ==> #[trigger] rank_of(symbol_of(r)) == r,
{
    assert forall|s: u8| rank_of(s) < 256 && #[trigger] symbol_of(rank_of(s)) == s by {
        lemma_symbol_of_rank(s);
    }
    assert forall|r: nat| r < 256 implies #[trigger] rank_of(symbol_of(r)) == r by {
        lemma_rank_of_symbol(r);
    }
}

proof fn lemma_symbol_of_rank(s: u8)
    ensures
        rank_of(s) < 256,
        symbol_of(rank_of(s)) == s,
{
}

proof fn lemma_rank_of_symbol(r: nat)
    requires
        r < 256,
    ensures
        rank_of(symbol_of(r)) == r,
{
}

/// A rank lies in the range of ranks of its length, and in that of no other
/// length.
pub proof fn lemma_len_of_rank(r: nat)
    requires
        r < 256,
    ensures
        5 <= len_of_rank(r) <= 30,
        first_rank(len_of_rank(r)) <= r < first_rank(len_of_rank(r) + 1),
        forall|l: nat|
            l <= 30 && #[trigger] first_rank(l) <= r < first_rank(l + 1) ==> len_of_rank(r) == l,
{
    assert forall|l: nat|
        l <= 30 && #[trigger] first_rank(l) <= r < first_rank(l + 1) implies len_of_rank(r)
        == l by {
        lemma_rank_range(r, l);
    }
}

proof fn lemma_rank_range(r: nat, l: nat)
    requires
        r < 256,
        l <= 30,
        first_rank(l) <= r < first_rank(l + 1),
    ensures
        len_of_rank(r) == l,
{
}

/// The code is canonical: the first code of a length is twice the number
/// that follows the last code of the length before, and no length has more
/// codes than its bits can tell apart.
pub proof fn lemma_canonical(l: nat)
    requires
        l <= 30,
    ensures
        first_rank(l) <= first_rank(l + 1) <= 256,
        first_code(l) <= code_limit(l),
        l < 30 ==> first_code(l + 1) == 2 * code_limit(l),
        l < 5 ==> code_limit(l) == 0,
        code_limit(l) < vstd::arithmetic::power2::pow2(l),
{
    vstd::arithmetic::power2::lemma2_to64();
}

} // verus!
