use vstd::arithmetic::power2::{
    lemma2_to64, lemma2_to64_rest, lemma_pow2_adds, lemma_pow2_strictly_increases,
    lemma_pow2_unfold, pow2,
};
use vstd::prelude::*;

verus! {

/// A single encoding element of a run-length code: either the marker that a
/// new value begins, or one packed piece of the current run's length.
///
/// Run lengths are packed into bytes: a piece holding 1 to 127 counts for
/// its exact value, and a piece holding `128 + e` counts for `2^e`, which
/// keeps extremely long runs compact. A piece never holds zero.
#[derive(Copy, Clone, Debug, PartialEq, Eq, Structural)]
pub enum RleInstruction {
    /// The next run begins here, with its value stored elsewhere.
    NextValue,
    /// A piece of the current run's length.
    Run(u8),
}

impl RleInstruction {
    /// A run piece never holds zero.
    pub open spec fn spec_valid(&self) -> bool {
        self matches RleInstruction::Run(v) ==> v >= 1
    }
}

/// The run length a packed byte stands for: its value when below 128, and
/// `2^(v - 128)` otherwise.
pub open spec fn spec_unpack_length(v: u8) -> u128
    recommends
        v >= 1,
{
    if v < 128 {
        v as u128
    } else {
        1u128 << ((v - 128) as u128)
    }
}

/// The floor of the base-two logarithm.
pub open spec fn spec_log2(n: int) -> nat
    decreases n,
{
    if n < 2 {
        0
    } else {
        1 + spec_log2(n / 2)
    }
}

/// Shifting one left by `e` gives two to the `e`-th power.
pub proof fn lemma_shl_one_is_pow2(e: u128)
    requires
        e < 128,
    ensures
        (1u128 << e) == pow2(e as nat),
    decreases e,
{
    lemma2_to64();
    if e == 0 {
        assert(1u128 << 0 == 1) by (bit_vector);
    } else {
        lemma_shl_one_is_pow2((e - 1) as u128);
        assert((1u128 << e) == (1u128 << ((e - 1) as u128)) * 2) by (bit_vector)
            requires
                0 < e < 128,
        ;
        lemma_pow2_unfold(e as nat);
        lemma_pow2_128_bound(e as nat);
    }
}

/// Two to any power below the index width fits in the index word.
pub proof fn lemma_pow2_128_bound(e: nat)
    requires
        e < 128,
    ensures
        0 < pow2(e) <= u128::MAX as nat,
{
    vstd::arithmetic::power2::lemma_pow2_pos(e);
    lemma_pow2_strictly_increases(e, 128);
    lemma2_to64_rest();
    lemma_pow2_adds(64, 64);
    vstd::layout::unsigned_int_max_values();
}

/// The base-two logarithm of a word-sized length stays below the word
/// width.
pub proof fn lemma_log2_u128_range(length: u128)
    requires
        length >= 1,
    ensures
        spec_log2(length as int) < 128,
{
    lemma_log2_bounds(length as int);
    lemma2_to64_rest();
    lemma_pow2_adds(64, 64);
    vstd::layout::unsigned_int_max_values();
    if spec_log2(length as int) >= 128 {
        if spec_log2(length as int) > 128 {
            lemma_pow2_strictly_increases(128, spec_log2(length as int));
        }
        assert(false);
    }
}

/// The packed run lengths are bounded by what one byte can stand for, and
/// positive.
pub proof fn lemma_unpack_bounds(v: u8)
    requires
        v >= 1,
    ensures
        1 <= spec_unpack_length(v) <= (1u128 << 127),
{
    lemma_shl_one_is_pow2(127);
    lemma2_to64();
    lemma_pow2_strictly_increases(7, 127);
    if v >= 128 {
        lemma_shl_one_is_pow2((v - 128) as u128);
        if v < 255 {
            lemma_pow2_strictly_increases((v - 128) as nat, 127);
        }
        vstd::arithmetic::power2::lemma_pow2_pos((v - 128) as nat);
    }
}

/// Unpack an encoded run-length piece into its actual value.
pub fn unpack_length(length: u8) -> (r: u128)
    requires
        length >= 1,
    ensures
        r == spec_unpack_length(length),
        r >= 1,
{
    proof {
        lemma_unpack_bounds(length);
    }
    if length < 128 {
        length as u128
    } else {
        1u128 << ((length - 128) as u128)
    }
}

/// `2^log2(n)` lies between `n/2` (exclusive) and `n` (inclusive).
pub proof fn lemma_log2_bounds(n: int)
    requires
        n >= 1,
    ensures
        pow2(spec_log2(n)) <= n < 2 * pow2(spec_log2(n)),
    decreases n,
{
    lemma2_to64();
    if n < 2 {
    } else {
        lemma_log2_bounds(n / 2);
        lemma_pow2_unfold(spec_log2(n));
    }
}

/// The floor of the base-two logarithm of a positive packed length.
fn u128_log2(n: u128) -> (r: u32)
    requires
        n >= 1,
    ensures
        r == spec_log2(n as int),
        r <= 127,
{
    let mut v: u128 = n;
    let mut r: u32 = 0;
    proof {
        lemma2_to64();
    }
    while v >= 2
        invariant
            1 <= v <= n,
            spec_log2(n as int) == r + spec_log2(v as int),
            v as nat * pow2(r as nat) <= n as nat,
            r <= 127,
        decreases v,
    {
        proof {
            lemma_pow2_unfold(r as nat + 1);
            vstd::arithmetic::power2::lemma_pow2_pos(r as nat);
            assert((v as int / 2) * (2 * pow2(r as nat)) <= v as int * pow2(r as nat))
                by (nonlinear_arith)
                requires
                    v >= 2,
                    pow2(r as nat) > 0,
            ;
            // the exponent cannot reach the word width while 2^r stays
            // within the word
            assert(2 * pow2(r as nat) <= n as nat) by (nonlinear_arith)
                requires
                    v >= 2,
                    (v as int / 2) * (2 * pow2(r as nat)) <= n as nat,
                    v as int / 2 >= 1,
                    pow2(r as nat) > 0,
            ;
            if r == 127 {
                lemma_pow2_unfold(128);
                lemma2_to64_rest();
                lemma_pow2_adds(64, 64);
                vstd::layout::unsigned_int_max_values();
                assert(false);
            }
        }
        v = v / 2;
        r = r + 1;
    }
    r
}

/// Inverse operation of `unpack_length`: the canonical leading piece for a
/// run length, and what remains of the length after it.
pub fn pack_length(length: u128) -> (r: (u8, u128))
    requires
        length >= 1,
    ensures
        r.0 >= 1,
        1 <= spec_unpack_length(r.0) <= length,
        r.1 == length - spec_unpack_length(r.0),
        length < 128 ==> r.0 == length as u8,
        length >= 128 ==> r.0 == 128 + spec_log2(length as int),
{
    if length < 128 {
        ((length as u8), 0)
    } else {
        let e = u128_log2(length);
        proof {
            lemma_log2_bounds(length as int);
            lemma_pow2_128_bound(e as nat);
            lemma_shl_one_is_pow2(e as u128);
        }
        let piece: u8 = 128 + (e as u8);
        let unpacked: u128 = 1u128 << (e as u128);
        (piece, length - unpacked)
    }
}

/// The total run length a sequence of packed pieces stands for.
pub open spec fn spec_sum_unpacked(s: Seq<u8>) -> int
    decreases s.len(),
{
    if s.len() == 0 {
        0
    } else {
        spec_sum_unpacked(s.drop_last()) + spec_unpack_length(s.last())
    }
}

/// The canonical packing of a run length into pieces: the greedy leading
/// piece, then the packing of what remains.
pub open spec fn spec_pack_pieces(length: u128) -> Seq<u8>
    decreases length,
    via spec_pack_pieces_decreases
{
    if length == 0 {
        Seq::empty()
    } else if length < 128 {
        seq![length as u8]
    } else {
        seq![(128 + spec_log2(length as int)) as u8] + spec_pack_pieces(
            (length - spec_unpack_length((128 + spec_log2(length as int)) as u8)) as u128,
        )
    }
}

#[via_fn]
proof fn spec_pack_pieces_decreases(length: u128) {
    if length >= 128 {
        lemma_log2_u128_range(length);
        lemma_log2_bounds(length as int);
        lemma_shl_one_is_pow2(spec_log2(length as int) as u128);
    }
}

/// Pack a run length as a sequence of pieces whose values add back up to
/// it; a zero length packs to no pieces at all.
pub fn pack_length_iter(length: u128) -> (r: Vec<u8>)
    ensures
        r@ == spec_pack_pieces(length),
        forall|k: int| 0 <= k < r@.len() ==> r@[k] >= 1,
        spec_sum_unpacked(r@) == length,
{
    let mut remainder = length;
    let mut r: Vec<u8> = Vec::new();
    while remainder > 0
        invariant
            spec_pack_pieces(length) == r@ + spec_pack_pieces(remainder),
            spec_sum_unpacked(r@) + remainder == length,
            forall|k: int| 0 <= k < r@.len() ==> r@[k] >= 1,
        decreases remainder,
    {
        let ghost before = r@;
        let (piece, rest) = pack_length(remainder);
        r.push(piece);
        proof {
            if remainder >= 128 {
                lemma_log2_u128_range(remainder);
                lemma_log2_bounds(remainder as int);
                lemma_shl_one_is_pow2(spec_log2(remainder as int) as u128);
            }
            assert(spec_pack_pieces(remainder) =~= seq![piece] + spec_pack_pieces(rest));
            assert(r@ + spec_pack_pieces(rest) =~= before + spec_pack_pieces(remainder));
            assert(r@.drop_last() =~= before);
        }
        remainder = rest;
    }
    proof {
        assert(r@ + spec_pack_pieces(remainder) =~= r@);
    }
    r
}

impl RleInstruction {
    /// The instructions a whole run of the given length encodes to: the
    /// next-value marker, then the packed pieces of the length.
    pub fn pack(length: u128) -> (r: Vec<RleInstruction>)
        ensures
            r@.len() >= 1,
            r@[0] == RleInstruction::NextValue,
            r@.skip(1) == spec_pack_pieces(length).map_values(
                |v: u8| RleInstruction::Run(v),
            ),
            spec_sum_unpacked(spec_pack_pieces(length)) == length,
            forall|k: int| 0 <= k < r@.len() ==> (#[trigger] r@[k]).spec_valid(),
    {
        let mut r: Vec<RleInstruction> = Vec::new();
        r.push(RleInstruction::NextValue);
        let pieces = pack_length_iter(length);
        let mut k: usize = 0;
        while k < pieces.len()
            invariant
                k <= pieces@.len(),
                r@.len() == k + 1,
                r@[0] == RleInstruction::NextValue,
                forall|j: int| 0 <= j < pieces@.len() ==> pieces@[j] >= 1,
                forall|j: int|
                    0 <= j < k ==> r@[j + 1] == RleInstruction::Run(pieces@[j]),
            decreases pieces@.len() - k,
        {
            r.push(RleInstruction::Run(pieces[k]));
            k = k + 1;
        }
        proof {
            assert(r@.skip(1) =~= pieces@.map_values(|v: u8| RleInstruction::Run(v)));
            assert forall|j: int| 0 <= j < r@.len() implies (#[trigger] r@[j]).spec_valid() by {
                if j >= 1 {
                    assert(r@[j] == RleInstruction::Run(pieces@[j - 1]));
                }
            }
        }
        r
    }

    /// Unpack this run piece into the length it stands for.
    pub fn unpack(&self) -> (r: u128)
        requires
            self is Run,
            self.spec_valid(),
        ensures
            r == spec_unpack_length(self->Run_0),
            r >= 1,
    {
        match self {
            RleInstruction::Run(length) => unpack_length(*length),
            RleInstruction::NextValue => unpack_length(1),
        }
    }

    /// Whether this instruction marks the start of the next run.
    pub fn is_next_value(&self) -> (r: bool)
        ensures
            r <==> self is NextValue,
    {
        match self {
            RleInstruction::NextValue => true,
            RleInstruction::Run(_) => false,
        }
    }
}

} // verus!
