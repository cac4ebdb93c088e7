//! Run-length packing with a level table (data representation template
//! 5.200).
//!
//! The data are a stream of tokens of `nbit` bits each. A token up to the
//! maximum level `max_level` names a level and stands for one grid point. A
//! larger token adds to the run of the level before it: the tokens that
//! follow a level are the digits, least significant first, of a number
//! written to the base `2^nbit - 1 - max_level`, each digit being the token
//! less `max_level + 1`, and the level is repeated that number of times more.
//! Level 0 marks a missing point; level `k > 0` stands for entry `k` of the
//! level table.

use vstd::prelude::*;
use vstd::arithmetic::div_mod::lemma_fundamental_div_mod_converse;
use vstd::arithmetic::power::lemma_pow_positive;
use vstd::arithmetic::power::pow;
use vstd::arithmetic::power2::lemma2_to64;
use vstd::arithmetic::power2::lemma_pow2_strictly_increases;
use vstd::arithmetic::power2::lemma_pow2_unfold;
use vstd::arithmetic::power2::pow2;
use crate::bits::bits_value;
use crate::bits::lemma_bits_value_bound;
use crate::bits::BitReader;
use crate::error::DecodeError;

verus! {

/// What the expansion remembers between two tokens: the level of the run in
/// progress, if a level has been seen, and the weight of the next digit of
/// its length.
pub struct RunModel {
    pub level: Option<u16>,
    pub weight: nat,
}

/// The expansion before the first token.
pub open spec fn run_start() -> RunModel {
    RunModel { level: None, weight: 1 }
}

/// What one token does: the state that follows, the level that it writes and
/// the number of copies. A token above `max_level` with no level before it
/// is an error.
pub open spec fn run_step(state: RunModel, token: u16, max_level: u16, base: nat) -> Result<
    (RunModel, u16, nat),
    DecodeError,
> {
    if token <= max_level {
        Ok((RunModel { level: Some(token), weight: 1 }, token, 1))
    } else {
        match state.level {
            None => Err(DecodeError::InvalidPacking),
            Some(level) => Ok(
                (
                    RunModel { level: Some(level), weight: state.weight * base },
                    level,
                    ((token - max_level - 1) * state.weight) as nat,
                ),
            ),
        }
    }
}

/// `count` copies of `level`.
pub open spec fn copies(level: u16, count: nat) -> Seq<u16> {
    Seq::new(count, |i: int| level)
}

/// The state after the first `n` tokens and the levels that they expand to,
/// or the error on the way.
pub open spec fn expand_prefix(tokens: Seq<u16>, n: nat, max_level: u16, base: nat) -> Result<
    (RunModel, Seq<u16>),
    DecodeError,
>
    decreases n,
{
    if n == 0 {
        Ok((run_start(), Seq::empty()))
    } else {
        match expand_prefix(tokens, (n - 1) as nat, max_level, base) {
            Err(e) => Err(e),
            Ok((state, levels)) => match run_step(state, tokens[n - 1], max_level, base) {
                Err(e) => Err(e),
                Ok((next, level, count)) => Ok((next, levels + copies(level, count))),
            },
        }
    }
}

/// The levels that a token stream expands to.
pub open spec fn expand(tokens: Seq<u16>, max_level: u16, base: nat) -> Result<
    Seq<u16>,
    DecodeError,
> {
    match expand_prefix(tokens, tokens.len(), max_level, base) {
        Err(e) => Err(e),
        Ok((_, levels)) => Ok(levels),
    }
}

/// The number that the digits after a level spell: digit `j` is the token
/// less `max_level + 1` and counts `base^j` times.
pub open spec fn run_extra(digits: Seq<u16>, max_level: u16, base: nat) -> int
    decreases digits.len(),
{
    if digits.len() == 0 {
        0
    } else {
        run_extra(digits.drop_last(), max_level, base) + (digits.last() - max_level - 1) * pow(
            base as int,
            (digits.len() - 1) as nat,
        )
    }
}

proof fn lemma_run_prefix(level: u16, digits: Seq<u16>, max_level: u16, base: nat, k: nat)
    requires
        level <= max_level,
        k <= digits.len(),
        forall|j: int| 0 <= j < digits.len() ==> #[trigger] digits[j] > max_level,
    ensures
        run_extra(digits.take(k as int), max_level, base) >= 0,
        pow(base as int, k) >= 0,
        expand_prefix(seq![level] + digits, k + 1, max_level, base) == Ok::<
            (RunModel, Seq<u16>),
            DecodeError,
        >(
            (
                RunModel { level: Some(level), weight: pow(base as int, k) as nat },
                copies(level, (1 + run_extra(digits.take(k as int), max_level, base)) as nat),
            ),
        ),
    decreases k,
{
    let tokens = seq![level] + digits;
    reveal_with_fuel(pow, 2);
    if k == 0 {
        reveal_with_fuel(expand_prefix, 2);
        assert(tokens[0] == level);
        assert(Seq::<u16>::empty() + copies(level, 1) =~= copies(level, 1));
    } else {
        lemma_run_prefix(level, digits, max_level, base, (k - 1) as nat);
        let before = digits.take(k - 1);
        let now = digits.take(k as int);
        assert(now.drop_last() =~= before);
        assert(now.last() == digits[k - 1]);
        assert(tokens[k as int] == digits[k - 1]);
        let weight = pow(base as int, (k - 1) as nat);
        let digit = digits[k - 1] - max_level - 1;
        assert(pow(base as int, k) == base * weight);
        assert(weight * base == base * weight) by (nonlinear_arith);
        assert(base * weight >= 0) by (nonlinear_arith)
            requires
                base >= 0,
                weight >= 0,
        ;
        assert(digit * weight >= 0) by (nonlinear_arith)
            requires
                digit >= 0,
                weight >= 0,
        ;
        let sofar = (1 + run_extra(before, max_level, base)) as nat;
        assert(copies(level, sofar) + copies(level, (digit * weight) as nat) =~= copies(
            level,
            (1 + run_extra(now, max_level, base)) as nat,
        ));
    }
}

/// A level followed by the digits of its run length expands to the level
/// repeated once and as often again as the digits say.
pub proof fn lemma_run_length(level: u16, digits: Seq<u16>, max_level: u16, base: nat)
    requires
        level <= max_level,
        forall|j: int| 0 <= j < digits.len() ==> #[trigger] digits[j] > max_level,
    ensures
        run_extra(digits, max_level, base) >= 0,
        expand(seq![level] + digits, max_level, base) == Ok::<Seq<u16>, DecodeError>(
            copies(level, (1 + run_extra(digits, max_level, base)) as nat),
        ),
{
    lemma_run_prefix(level, digits, max_level, base, digits.len());
    assert(digits.take(digits.len() as int) =~= digits);
}

/// Where the expansion stands between two tokens.
#[derive(Debug, Clone, Copy, PartialEq, Eq)]
pub enum RunState {
    /// No token has been read: a level must come.
    Start,
    /// The last token was a level: a level or the first digit of its run
    /// length may come.
    ExpectLiteralOrExtension { level: u16 },
    /// The last token was a digit of the run length of `level`; the next
    /// digit counts `weight` times, where a weight above 2^32 is kept as
    /// 2^32.
    AccumulatingExtension { level: u16, weight: u64 },
}

/// Weights are kept up to this bound: a run that long is longer than any
/// grid.
pub const WEIGHT_CAP: u64 = 0x1_0000_0000;

/// `x`, or the bound on weights if that is smaller.
pub open spec fn capped(x: nat) -> nat {
    if x <= WEIGHT_CAP {
        x
    } else {
        WEIGHT_CAP as nat
    }
}

/// Whether a state of the running expansion stands for a state of the model.
pub open spec fn tracks(state: RunState, model: RunModel) -> bool {
    match state {
        RunState::Start => model.level is None && model.weight == 1,
        RunState::ExpectLiteralOrExtension { level } => model.level == Some(level) && model.weight
            == 1,
        RunState::AccumulatingExtension { level, weight } => model.level == Some(level) && weight
            == capped(model.weight),
    }
}

/// A product with a factor of at least 1 is at least the other factor, and
/// a product with the factor 0 is 0.
proof fn lemma_product_bounds(x: nat, factor: nat)
    ensures
        factor >= 1 ==> x * factor >= x && factor * x >= x,
        factor == 0 ==> x * factor == 0 && factor * x == 0,
{
    assert(factor >= 1 ==> x * factor >= x && factor * x >= x) by (nonlinear_arith);
    assert(factor == 0 ==> x * factor == 0 && factor * x == 0) by (nonlinear_arith);
}

proof fn lemma_capped_product(w: nat, base: nat)
    ensures
        capped(capped(w) * base) == capped(w * base),
{
    lemma_product_bounds(w, base);
    lemma_product_bounds(WEIGHT_CAP as nat, base);
}

proof fn lemma_capped_count(digit: nat, w: nat)
    ensures
        digit * w < WEIGHT_CAP ==> digit * capped(w) == digit * w,
        digit * w >= WEIGHT_CAP ==> digit * capped(w) >= WEIGHT_CAP,
{
    lemma_product_bounds(w, digit);
    lemma_product_bounds(WEIGHT_CAP as nat, digit);
}

/// A weight within its bound, times a base or a digit of at most 16 bits,
/// stays below 2^48.
proof fn lemma_weight_products(weight: nat, base: nat, digit: nat)
    requires
        weight <= WEIGHT_CAP,
        base <= 0x1_0000,
        digit <= 0x1_0000,
    ensures
        weight * base <= 0x1_0000_0000_0000,
        digit * weight <= 0x1_0000_0000_0000,
{
    assert(weight * base <= 0x1_0000_0000 * 0x1_0000) by (nonlinear_arith)
        requires
            weight <= 0x1_0000_0000,
            base <= 0x1_0000,
    ;
    assert(digit * weight <= 0x1_0000 * 0x1_0000_0000) by (nonlinear_arith)
        requires
            weight <= 0x1_0000_0000,
            digit <= 0x1_0000,
    ;
}

impl RunState {
    /// The weight is within the bound on weights.
    pub open spec fn wf(self) -> bool {
        self matches RunState::AccumulatingExtension { weight, .. } ==> weight <= WEIGHT_CAP
    }

    /// What one token does to the state: the state that follows, the level
    /// that the token writes and the number of copies. A token above
    /// `max_level` in the state `Start` is an error.
    pub open spec fn step_spec(self, token: u16, max_level: u16, base: u16) -> Result<
        (RunState, u16, u64),
        DecodeError,
    > {
        if token <= max_level {
            Ok((RunState::ExpectLiteralOrExtension { level: token }, token, 1))
        } else {
            match self {
                RunState::Start => Err(DecodeError::InvalidPacking),
                RunState::ExpectLiteralOrExtension { level } => Ok(
                    (
                        RunState::AccumulatingExtension { level, weight: base as u64 },
                        level,
                        (token - max_level - 1) as u64,
                    ),
                ),
                RunState::AccumulatingExtension { level, weight } => Ok(
                    (
                        RunState::AccumulatingExtension {
                            level,
                            weight: capped((weight * base) as nat) as u64,
                        },
                        level,
                        ((token - max_level - 1) * weight) as u64,
                    ),
                ),
            }
        }
    }

    /// Takes one token. Returns the state that follows, the level to write
    /// and the number of copies to write of it.
    pub fn step(self, token: u16, max_level: u16, base: u16) -> (r: Result<
        (RunState, u16, u64),
        DecodeError,
    >)
        requires
            self.wf(),
        ensures
            r == self.step_spec(token, max_level, base),
            r matches Ok((next, _, _)) ==> next.wf(),
    {
        if token <= max_level {
            return Ok((RunState::ExpectLiteralOrExtension { level: token }, token, 1));
        }
        let digit: u64 = (token - max_level - 1) as u64;
        match self {
            RunState::Start => Err(DecodeError::InvalidPacking),
            RunState::ExpectLiteralOrExtension { level } => Ok(
                (RunState::AccumulatingExtension { level, weight: base as u64 }, level, digit),
            ),
            RunState::AccumulatingExtension { level, weight } => {
                proof {
                    lemma_weight_products(weight as nat, base as nat, digit as nat);
                }
                let grown: u64 = weight * (base as u64);
                let next_weight: u64 = if grown <= WEIGHT_CAP {
                    grown
                } else {
                    WEIGHT_CAP
                };
                Ok(
                    (
                        RunState::AccumulatingExtension { level, weight: next_weight },
                        level,
                        digit * weight,
                    ),
                )
            },
        }
    }
}

/// A step of the running expansion follows the model: it fails where the
/// model fails, writes the same level, and writes the same number of copies
/// where that is below 2^32 and at least 2^32 copies where it is not.
pub proof fn lemma_step_tracks(
    state: RunState,
    model: RunModel,
    token: u16,
    max_level: u16,
    base: u16,
)
    requires
        tracks(state, model),
    ensures
        state.wf(),
        match run_step(model, token, max_level, base as nat) {
            Err(e) => state.step_spec(token, max_level, base) == Err::<
                (RunState, u16, u64),
                DecodeError,
            >(e),
            Ok((next, level, count)) => {
                &&& state.step_spec(token, max_level, base) matches Ok((after, written, copies))
                &&& tracks(after, next)
                &&& written == level
                &&& (count < WEIGHT_CAP ==> copies == count)
                &&& (count >= WEIGHT_CAP ==> copies >= WEIGHT_CAP)
            },
        },
{
    if token > max_level {
        let digit = (token - max_level - 1) as nat;
        lemma_capped_product(model.weight, base as nat);
        lemma_capped_count(digit, model.weight);
        match state {
            RunState::Start => {},
            RunState::ExpectLiteralOrExtension { level } => {
                assert(1 * base == base) by (nonlinear_arith);
                assert(digit * 1 == digit) by (nonlinear_arith);
            },
            RunState::AccumulatingExtension { level, weight } => {
                lemma_weight_products(weight as nat, base as nat, digit);
            },
        }
    }
}

/// Once an expansion has failed it stays failed.
proof fn lemma_expand_error_stays(tokens: Seq<u16>, m: nat, n: nat, max_level: u16, base: nat)
    requires
        m <= n,
        expand_prefix(tokens, m, max_level, base) is Err,
    ensures
        expand_prefix(tokens, n, max_level, base) == expand_prefix(tokens, m, max_level, base),
    decreases n,
{
    if m < n {
        lemma_expand_error_stays(tokens, m, (n - 1) as nat, max_level, base);
    }
}

/// Once a level has been seen an expansion cannot fail, and its output only
/// grows.
proof fn lemma_expand_grows(tokens: Seq<u16>, m: nat, n: nat, max_level: u16, base: nat)
    requires
        m <= n,
        expand_prefix(tokens, m, max_level, base) matches Ok((state, _)) && state.level is Some,
    ensures
        expand_prefix(tokens, n, max_level, base) matches Ok((state, levels)) && state.level is Some
            && levels.len() >= expand_prefix(tokens, m, max_level, base).unwrap().1.len(),
    decreases n,
{
    if m < n {
        lemma_expand_grows(tokens, m, (n - 1) as nat, max_level, base);
    }
}

/// Every level of an expansion is a level that a token named, so none is
/// above `max_level`.
pub proof fn lemma_expand_bounded(tokens: Seq<u16>, n: nat, max_level: u16, base: nat)
    ensures
        expand_prefix(tokens, n, max_level, base) matches Ok((state, levels)) ==> {
            &&& state.level matches Some(level) ==> level <= max_level
            &&& forall|i: int| 0 <= i < levels.len() ==> #[trigger] levels[i] <= max_level
        },
    decreases n,
{
    if n > 0 {
        lemma_expand_bounded(tokens, (n - 1) as nat, max_level, base);
    }
}

/// Expands a token stream into levels, one per grid point, up to `limit`
/// points.
///
/// Fails with `InvalidPacking` when the first token is above `max_level`, so
/// that there is no level for it to repeat, and when the tokens expand to
/// more than `limit` levels.
pub fn expand_runs(tokens: &[u16], max_level: u16, base: u16, limit: u32) -> (r: Result<
    Vec<u16>,
    DecodeError,
>)
    ensures
        match expand(tokens@, max_level, base as nat) {
            Err(e) => r matches Err(reported) && reported == e,
            Ok(levels) => if levels.len() > limit {
                r matches Err(reported) && reported == DecodeError::InvalidPacking
            } else {
                r matches Ok(written) && written@ == levels
            },
        },
        r matches Ok(written) ==> forall|i: int|
            0 <= i < written@.len() ==> #[trigger] written@[i] <= max_level,
{
    let n: usize = tokens.len();
    let mut state = RunState::Start;
    let ghost mut model = run_start();
    let mut out: Vec<u16> = Vec::new();
    let mut i: usize = 0;
    while i < n
        invariant
            n == tokens@.len(),
            i <= n,
            tracks(state, model),
            out@.len() <= limit,
            expand_prefix(tokens@, i as nat, max_level, base as nat) == Ok::<
                (RunModel, Seq<u16>),
                DecodeError,
            >((model, out@)),
        decreases n - i,
    {
        let ghost before = out@;
        proof {
            lemma_step_tracks(state, model, tokens@[i as int], max_level, base);
        }
        match state.step(tokens[i], max_level, base) {
            Err(e) => {
                proof {
                    lemma_expand_error_stays(
                        tokens@,
                        (i + 1) as nat,
                        n as nat,
                        max_level,
                        base as nat,
                    );
                }
                return Err(e);
            },
            Ok((next, level, count)) => {
                let ghost step = run_step(model, tokens@[i as int], max_level, base as nat).unwrap();
                if count > (limit as u64) - (out.len() as u64) {
                    proof {
                        lemma_expand_grows(
                            tokens@,
                            (i + 1) as nat,
                            n as nat,
                            max_level,
                            base as nat,
                        );
                    }
                    return Err(DecodeError::InvalidPacking);
                }
                let mut k: u64 = 0;
                while k < count
                    invariant
                        k <= count,
                        count == step.2,
                        before.len() + count <= limit,
                        out@ == before + copies(level, k as nat),
                    decreases count - k,
                {
                    out.push(level);
                    proof {
                        assert(out@ =~= before + copies(level, (k + 1) as nat));
                    }
                    k = k + 1;
                }
                state = next;
                proof {
                    model = step.0;
                }
            },
        }
        i = i + 1;
    }
    proof {
        lemma_expand_bounded(tokens@, n as nat, max_level, base as nat);
    }
    Ok(out)
}

/// The tokens of `nbit` bits that a byte string holds. Bits left over at the
/// end that do not make a token are padding.
pub open spec fn tokens_of(data: Seq<u8>, nbit: nat) -> Seq<u16> {
    Seq::new((8 * data.len()) / nbit, |i: int| bits_value(data, i * nbit, nbit) as u16)
}

proof fn lemma_token_count(total: nat, read: nat, nbit: nat)
    requires
        nbit > 0,
        read * nbit <= total < (read + 1) * nbit,
    ensures
        total / nbit == read,
{
    assert((read + 1) * nbit == read * nbit + nbit) by (nonlinear_arith);
    lemma_fundamental_div_mod_converse(
        total as int,
        nbit as int,
        read as int,
        total - read * nbit,
    );
}

/// Cuts a byte string into tokens of `nbit` bits.
pub fn read_tokens(data: &[u8], nbit: u8) -> (tokens: Vec<u16>)
    requires
        1 <= nbit <= 16,
    ensures
        tokens@ == tokens_of(data@, nbit as nat),
{
    let mut reader = BitReader::new(data);
    let mut tokens: Vec<u16> = Vec::new();
    proof {
        assert(tokens@.len() * nbit == 0) by (nonlinear_arith)
            requires
                tokens@.len() == 0,
        ;
    }
    loop
        invariant
            1 <= nbit <= 16,
            reader.wf(),
            reader.source() == data@,
            reader.offset() == tokens@.len() * nbit,
            forall|i: int|
                0 <= i < tokens@.len() ==> #[trigger] tokens@[i] == bits_value(
                    data@,
                    i * nbit,
                    nbit as nat,
                ) as u16,
        ensures
            tokens@ == tokens_of(data@, nbit as nat),
        decreases reader.left(),
    {
        let ghost at = reader.offset();
        let ghost read = tokens@.len();
        proof {
            reader.lemma_offset_bound();
            assert((read + 1) * nbit == read * nbit + nbit) by (nonlinear_arith);
        }
        match reader.read_bits(nbit as u32) {
            Ok(value) => {
                proof {
                    lemma_bits_value_bound(data@, at as int, nbit as nat);
                    lemma_pow2_strictly_increases(nbit as nat, 17);
                    lemma2_to64();
                    lemma_pow2_unfold(17);
                }
                tokens.push(value as u16);
            },
            Err(_) => {
                proof {
                    lemma_token_count(8 * data@.len(), read, nbit as nat);
                    assert(tokens@ =~= tokens_of(data@, nbit as nat));
                }
                break ;
            },
        }
    }
    tokens
}

/// The packed value of a level: none for level 0, which marks a missing
/// point, and entry `level` of the table, counted from 1, for any other.
pub open spec fn level_value(levels: Seq<u16>, level: u16) -> Option<u32> {
    if level == 0 {
        None
    } else {
        Some(levels[level - 1] as u32)
    }
}

/// Whether the parameters of a run-length packing agree with each other:
/// tokens have 1 to 16 bits, a token can name the maximum level, and the
/// table has a value for every level up to it.
pub open spec fn run_length_consistent(bit_width: u8, max_level: u16, table_len: nat) -> bool {
    &&& 1 <= bit_width <= 16
    &&& max_level < pow2(bit_width as nat)
    &&& max_level <= table_len
}

/// The base to which the digits of a run length are written.
pub open spec fn run_base(bit_width: u8, max_level: u16) -> nat {
    (pow2(bit_width as nat) - 1 - max_level) as nat
}

/// What unpacking a run-length packing gives: the packed value of every
/// grid point, or `InvalidPacking` for parameters that contradict each
/// other, for a first token that is no level and for tokens that expand to
/// more than `count` points, or `Truncated` for tokens that expand to fewer.
pub open spec fn unpack_run_length_spec(
    data: Seq<u8>,
    bit_width: u8,
    max_level: u16,
    levels: Seq<u16>,
    count: u32,
) -> Result<Seq<Option<u32>>, DecodeError> {
    if !run_length_consistent(bit_width, max_level, levels.len()) {
        Err(DecodeError::InvalidPacking)
    } else {
        match expand(tokens_of(data, bit_width as nat), max_level, run_base(bit_width, max_level)) {
            Err(e) => Err(e),
            Ok(expanded) => if expanded.len() > count {
                Err(DecodeError::InvalidPacking)
            } else if expanded.len() < count {
                Err(DecodeError::Truncated)
            } else {
                Ok(Seq::new(expanded.len(), |i: int| level_value(levels, expanded[i])))
            },
        }
    }
}

/// A run-length packing unpacks to as many points as were asked for, and
/// the missing points are those of level 0.
pub proof fn lemma_level_zero_is_missing(
    data: Seq<u8>,
    bit_width: u8,
    max_level: u16,
    levels: Seq<u16>,
    count: u32,
)
    requires
        unpack_run_length_spec(data, bit_width, max_level, levels, count) is Ok,
    ensures
        expand(tokens_of(data, bit_width as nat), max_level, run_base(bit_width, max_level)) is Ok,
        unpack_run_length_spec(data, bit_width, max_level, levels, count).unwrap().len() == count,
        forall|i: int|
            0 <= i < count ==> ((#[trigger] unpack_run_length_spec(
                data,
                bit_width,
                max_level,
                levels,
                count,
            ).unwrap()[i]) is None <==> expand(
                tokens_of(data, bit_width as nat),
                max_level,
                run_base(bit_width, max_level),
            ).unwrap()[i] == 0),
{
}

fn pow2_u32(n: u8) -> (r: u32)
    requires
        n <= 16,
    ensures
        r == pow2(n as nat),
        r <= 0x1_0000,
{
    let mut r: u32 = 1;
    let mut i: u8 = 0;
    proof {
        lemma2_to64();
    }
    while i < n
        invariant
            i <= n <= 16,
            r == pow2(i as nat),
            r <= pow2(16),
            pow2(16) == 0x1_0000,
        decreases n - i,
    {
        proof {
            lemma_pow2_unfold((i + 1) as nat);
            if i + 1 < 16 {
                lemma_pow2_strictly_increases((i + 1) as nat, 16);
            }
        }
        r = r * 2;
        i = i + 1;
    }
    r
}

/// Unpacks a run-length packing from the body of Section 7: cuts the body
/// into tokens, expands them into `count` levels and looks each level up in
/// the table.
pub fn unpack_run_length(
    data: &[u8],
    bit_width: u8,
    max_level: u16,
    levels: &[u16],
    count: u32,
) -> (r: Result<Vec<Option<u32>>, DecodeError>)
    ensures
        match r {
            Ok(values) => unpack_run_length_spec(data@, bit_width, max_level, levels@, count)
                == Ok::<Seq<Option<u32>>, DecodeError>(values@),
            Err(e) => unpack_run_length_spec(data@, bit_width, max_level, levels@, count) == Err::<
                Seq<Option<u32>>,
                DecodeError,
            >(e),
        },
{
    if bit_width < 1 || bit_width > 16 {
        return Err(DecodeError::InvalidPacking);
    }
    let token_limit: u32 = pow2_u32(bit_width);
    if max_level as u32 >= token_limit || max_level as usize > levels.len() {
        return Err(DecodeError::InvalidPacking);
    }
    let base: u16 = (token_limit - 1 - max_level as u32) as u16;
    let tokens = read_tokens(data, bit_width);
    let expanded = match expand_runs(tokens.as_slice(), max_level, base, count) {
        Ok(expanded) => expanded,
        Err(e) => {
            return Err(e);
        },
    };
    if expanded.len() < count as usize {
        return Err(DecodeError::Truncated);
    }
    let n: usize = expanded.len();
    let mut values: Vec<Option<u32>> = Vec::new();
    let mut i: usize = 0;
    while i < n
        invariant
            n == expanded@.len(),
            i <= n,
            max_level <= levels@.len(),
            forall|k: int| 0 <= k < expanded@.len() ==> #[trigger] expanded@[k] <= max_level,
            values@.len() == i,
            forall|k: int| 0 <= k < i ==> #[trigger] values@[k] == level_value(levels@, expanded@[k]),
        decreases n - i,
    {
        let level: u16 = expanded[i];
        if level == 0 {
            values.push(None);
        } else {
            values.push(Some(levels[(level - 1) as usize] as u32));
        }
        i = i + 1;
    }
    proof {
        assert(values@ =~= Seq::new(expanded@.len(), |i: int| level_value(levels@, expanded@[i])));
    }
    Ok(values)
}

} // verus!
