//! Pseudo-random numbers: the `Rng` interface, the xorshift128 generator, uniform integer
//! ranges, shuffling, choosing and reservoir sampling.
//!
//! Every generator is modelled as a state that a step function maps to its next state and a
//! 32-bit output word. All derived operations are specified over that step function, so what a
//! call returns, and how far it advances the generator, is fixed exactly.
use vstd::prelude::*;
use std::marker::PhantomData;
use std::time::{Duration, SystemTime, UNIX_EPOCH};

verus! {

/// After this many rejected draws, rejection sampling stops and answers with the lower bound.
pub const MAX_DRAWS: u64 = 0xffff_ffff_ffff_ffff;

// ---------------------------------------------------------------------------------------------
// The pure model of a stream of 32-bit words.
// ---------------------------------------------------------------------------------------------

/// The 64-bit word made of a high and a low 32-bit word.
pub open spec fn combine_u64(hi: u32, lo: u32) -> u64 {
    ((hi as u64) * 0x1_0000_0000u64 + lo as u64) as u64
}

/// Two 32-bit draws, the first one giving the high half.
pub open spec fn gen_u64<S>(step: spec_fn(S) -> (S, u32), s: S) -> (S, u64) {
    let (s1, hi) = step(s);
    let (s2, lo) = step(s1);
    (s2, combine_u64(hi, lo))
}

/// A machine word: one 32-bit draw on a 32-bit platform, one 64-bit draw otherwise.
pub open spec fn gen_usize<S>(step: spec_fn(S) -> (S, u32), s: S) -> (S, usize) {
    if usize::BITS == 32 {
        let (s1, v) = step(s);
        (s1, v as usize)
    } else {
        let (s1, v) = gen_u64(step, s);
        (s1, v as usize)
    }
}

/// Draws below this bound are accepted when sampling `range` values uniformly.
pub open spec fn accept_zone_usize(range: usize) -> usize {
    (usize::MAX - usize::MAX % range) as usize
}

pub open spec fn accept_zone_u32(range: u32) -> u32 {
    (u32::MAX - u32::MAX % range) as u32
}

/// Rejection sampling of `low + v % range` with `v` drawn until `v < zone`, at most `fuel` draws.
pub open spec fn sample_usize<S>(
    step: spec_fn(S) -> (S, u32),
    s: S,
    low: usize,
    range: usize,
    zone: usize,
    fuel: nat,
) -> (S, usize)
    decreases fuel,
{
    if fuel == 0 {
        (s, low)
    } else {
        let (s1, v) = gen_usize(step, s);
        if v < zone {
            (s1, (low + v % range) as usize)
        } else {
            sample_usize(step, s1, low, range, zone, (fuel - 1) as nat)
        }
    }
}

pub open spec fn sample_u32<S>(
    step: spec_fn(S) -> (S, u32),
    s: S,
    low: u32,
    range: u32,
    zone: u32,
    fuel: nat,
) -> (S, u32)
    decreases fuel,
{
    if fuel == 0 {
        (s, low)
    } else {
        let (s1, v) = step(s);
        if v < zone {
            (s1, (low + v % range) as u32)
        } else {
            sample_u32(step, s1, low, range, zone, (fuel - 1) as nat)
        }
    }
}

/// A uniform draw from `[low, high)`.
pub open spec fn gen_range_usize<S>(step: spec_fn(S) -> (S, u32), s: S, low: usize, high: usize) -> (
    S,
    usize,
) {
    let range = (high - low) as usize;
    sample_usize(step, s, low, range, accept_zone_usize(range), MAX_DRAWS as nat)
}

pub open spec fn gen_range_u32<S>(step: spec_fn(S) -> (S, u32), s: S, low: u32, high: u32) -> (
    S,
    u32,
) {
    let range = (high - low) as u32;
    sample_u32(step, s, low, range, accept_zone_u32(range), MAX_DRAWS as nat)
}

/// `v` with the entries at `i` and `j` exchanged.
pub open spec fn swap_seq<T>(v: Seq<T>, i: int, j: int) -> Seq<T> {
    v.update(i, v[j]).update(j, v[i])
}

/// Fisher-Yates: for `i` from the end down to 1, exchange entry `i` with a uniform entry of
/// `[0, i]`. `n` is the number of entries still to be visited.
pub open spec fn shuffle_seq<S, T>(step: spec_fn(S) -> (S, u32), s: S, v: Seq<T>, n: nat) -> (
    S,
    Seq<T>,
)
    decreases n,
{
    if n < 2 {
        (s, v)
    } else {
        let i = (n - 1) as nat;
        let (s1, j) = gen_range_usize(step, s, 0, n as usize);
        shuffle_seq(step, s1, swap_seq(v, i as int, j as int), i)
    }
}

/// The bytes that `fill_bytes` writes: each 64-bit draw gives eight bytes, lowest byte first.
/// `num` holds the bits not used yet of the last draw and `count` how many bytes of it are left.
pub open spec fn fill_seq<S>(step: spec_fn(S) -> (S, u32), s: S, num: u64, count: nat, n: nat) -> (
    S,
    Seq<u8>,
)
    decreases n, if count == 0 {
        1nat
    } else {
        0nat
    },
{
    if n == 0 {
        (s, Seq::empty())
    } else if count == 0 {
        let (s1, v) = gen_u64(step, s);
        fill_seq(step, s1, v, 8, n)
    } else {
        let (s1, rest) = fill_seq(step, s, num / 256, (count - 1) as nat, (n - 1) as nat);
        (s1, seq![(num % 256) as u8].add(rest))
    }
}

/// Reservoir sampling over the entries of `rest`, the entry at position `amount + i` of the whole
/// input replacing reservoir entry `k` when a uniform `k` in `[0, amount + i]` is below `amount`.
pub open spec fn reservoir_seq<S, T>(
    step: spec_fn(S) -> (S, u32),
    s: S,
    res: Seq<T>,
    rest: Seq<T>,
    i: nat,
    amount: nat,
) -> (S, Seq<T>)
    decreases rest.len(),
{
    if rest.len() == 0 {
        (s, res)
    } else {
        let (s1, k) = gen_range_usize(step, s, 0, (i + 1 + amount) as usize);
        let res1 = if k < amount {
            res.update(k as int, rest[0])
        } else {
            res
        };
        reservoir_seq(step, s1, res1, rest.drop_first(), i + 1, amount)
    }
}

/// `amount` entries of `v` chosen by reservoir sampling; all of `v` when it is shorter.
pub open spec fn sample_seq<S, T>(step: spec_fn(S) -> (S, u32), s: S, v: Seq<T>, amount: nat) -> (
    S,
    Seq<T>,
) {
    if v.len() < amount {
        (s, v)
    } else {
        reservoir_seq(step, s, v.take(amount as int), v.skip(amount as int), 0, amount)
    }
}

/// The character at position `i` of `A..Z a..z 0..9`.
pub open spec fn ascii_alphanumeric(i: int) -> char {
    if i < 26 {
        (65 + i) as char
    } else if i < 52 {
        (97 + i - 26) as char
    } else {
        (48 + i - 52) as char
    }
}

// ---------------------------------------------------------------------------------------------
// Facts about the model.
// ---------------------------------------------------------------------------------------------

pub proof fn lemma_sample_usize_bounds<S>(
    step: spec_fn(S) -> (S, u32),
    s: S,
    low: usize,
    range: usize,
    zone: usize,
    fuel: nat,
)
    requires
        range > 0,
        low + range <= usize::MAX,
    ensures
        low <= sample_usize(step, s, low, range, zone, fuel).1 < low + range,
    decreases fuel,
{
    if fuel > 0 {
        let (s1, v) = gen_usize(step, s);
        if !(v < zone) {
            lemma_sample_usize_bounds(step, s1, low, range, zone, (fuel - 1) as nat);
        }
    }
}

pub proof fn lemma_sample_u32_bounds<S>(
    step: spec_fn(S) -> (S, u32),
    s: S,
    low: u32,
    range: u32,
    zone: u32,
    fuel: nat,
)
    requires
        range > 0,
        low + range <= u32::MAX,
    ensures
        low <= sample_u32(step, s, low, range, zone, fuel).1 < low + range,
    decreases fuel,
{
    if fuel > 0 {
        let (s1, v) = step(s);
        if !(v < zone) {
            lemma_sample_u32_bounds(step, s1, low, range, zone, (fuel - 1) as nat);
        }
    }
}

/// A uniform draw from `[low, high)` lies in `[low, high)`.
pub proof fn lemma_gen_range_usize_bounds<S>(
    step: spec_fn(S) -> (S, u32),
    s: S,
    low: usize,
    high: usize,
)
    requires
        low < high,
    ensures
        low <= gen_range_usize(step, s, low, high).1 < high,
{
    lemma_sample_usize_bounds(
        step,
        s,
        low,
        (high - low) as usize,
        accept_zone_usize((high - low) as usize),
        MAX_DRAWS as nat,
    );
}

/// A uniform draw from `[low, high)` lies in `[low, high)`.
pub proof fn lemma_gen_range_u32_bounds<S>(
    step: spec_fn(S) -> (S, u32),
    s: S,
    low: u32,
    high: u32,
)
    requires
        low < high,
    ensures
        low <= gen_range_u32(step, s, low, high).1 < high,
{
    lemma_sample_u32_bounds(
        step,
        s,
        low,
        (high - low) as u32,
        accept_zone_u32((high - low) as u32),
        MAX_DRAWS as nat,
    );
}

pub proof fn lemma_swap_multiset<T>(v: Seq<T>, i: int, j: int)
    requires
        0 <= i < v.len(),
        0 <= j < v.len(),
    ensures
        swap_seq(v, i, j).to_multiset() == v.to_multiset(),
        swap_seq(v, i, j).len() == v.len(),
{
    broadcast use vstd::seq_lib::to_multiset_update;
    broadcast use vstd::multiset::group_multiset_axioms;

    let v1 = v.update(i, v[j]);
    let m = v.to_multiset();
    assert(v.contains(v[i]));
    vstd::seq_lib::to_multiset_contains(v, v[i]);
    assert(v1.to_multiset() == m.insert(v[j]).remove(v[i]));
    assert(v1[j] == v[j]);
    assert(swap_seq(v, i, j).to_multiset() == v1.to_multiset().insert(v[i]).remove(v[j]));
    assert forall|x: T| #[trigger] swap_seq(v, i, j).to_multiset().count(x) == m.count(x) by {}
    assert(swap_seq(v, i, j).to_multiset() =~= m);
}

/// Shuffling only rearranges the entries.
pub proof fn lemma_shuffle_seq_permutes<S, T>(step: spec_fn(S) -> (S, u32), s: S, v: Seq<T>, n: nat)
    requires
        n <= v.len(),
        v.len() <= usize::MAX,
    ensures
        shuffle_seq(step, s, v, n).1.to_multiset() == v.to_multiset(),
        shuffle_seq(step, s, v, n).1.len() == v.len(),
    decreases n,
{
    if n >= 2 {
        let i = (n - 1) as nat;
        let (s1, j) = gen_range_usize(step, s, 0, n as usize);
        lemma_gen_range_usize_bounds(step, s, 0, n as usize);
        lemma_swap_multiset(v, i as int, j as int);
        lemma_shuffle_seq_permutes(step, s1, swap_seq(v, i as int, j as int), i);
    }
}

/// The bytes written are as many as asked for.
pub proof fn lemma_fill_seq_len<S>(step: spec_fn(S) -> (S, u32), s: S, num: u64, count: nat, n: nat)
    ensures
        fill_seq(step, s, num, count, n).1.len() == n,
    decreases n, if count == 0 {
        1nat
    } else {
        0nat
    },
{
    if n == 0 {
    } else if count == 0 {
        let (s1, v) = gen_u64(step, s);
        lemma_fill_seq_len(step, s1, v, 8, n);
    } else {
        lemma_fill_seq_len(step, s, num / 256, (count - 1) as nat, (n - 1) as nat);
    }
}

pub proof fn lemma_reservoir_seq<S, T>(
    step: spec_fn(S) -> (S, u32),
    s: S,
    res: Seq<T>,
    rest: Seq<T>,
    i: nat,
    amount: nat,
    whole: Seq<T>,
)
    requires
        res.len() == amount,
        i + 1 + amount + rest.len() <= usize::MAX + 1,
        forall|k: int| 0 <= k < res.len() ==> whole.contains(#[trigger] res[k]),
        forall|k: int| 0 <= k < rest.len() ==> whole.contains(#[trigger] rest[k]),
    ensures
        reservoir_seq(step, s, res, rest, i, amount).1.len() == amount,
        forall|k: int|
            0 <= k < amount ==> whole.contains(
                #[trigger] reservoir_seq(step, s, res, rest, i, amount).1[k],
            ),
    decreases rest.len(),
{
    if rest.len() > 0 {
        let (s1, k) = gen_range_usize(step, s, 0, (i + 1 + amount) as usize);
        let res1 = if k < amount {
            res.update(k as int, rest[0])
        } else {
            res
        };
        assert forall|m: int| 0 <= m < res1.len() implies whole.contains(#[trigger] res1[m]) by {
            if k < amount && m == k {
                assert(whole.contains(rest[0]));
            } else {
                assert(whole.contains(res[m]));
            }
        }
        assert forall|m: int| 0 <= m < rest.drop_first().len() implies whole.contains(
            #[trigger] rest.drop_first()[m],
        ) by {
            assert(whole.contains(rest[m + 1]));
        }
        lemma_reservoir_seq(step, s1, res1, rest.drop_first(), i + 1, amount, whole);
    }
}

/// A reservoir sample holds `min(len, amount)` entries, each of them taken from the input.
pub proof fn lemma_sample_seq<S, T>(step: spec_fn(S) -> (S, u32), s: S, v: Seq<T>, amount: nat)
    requires
        v.len() <= usize::MAX,
    ensures
        sample_seq(step, s, v, amount).1.len() == if v.len() < amount {
            v.len()
        } else {
            amount
        },
        forall|k: int|
            0 <= k < sample_seq(step, s, v, amount).1.len() ==> v.contains(
                #[trigger] sample_seq(step, s, v, amount).1[k],
            ),
{
    if v.len() >= amount {
        let res = v.take(amount as int);
        let rest = v.skip(amount as int);
        assert forall|k: int| 0 <= k < res.len() implies v.contains(#[trigger] res[k]) by {
            assert(v[k] == res[k]);
        }
        assert forall|k: int| 0 <= k < rest.len() implies v.contains(#[trigger] rest[k]) by {
            assert(v[k + amount] == rest[k]);
        }
        lemma_reservoir_seq(step, s, res, rest, 0, amount, v);
    } else {
        assert forall|k: int| 0 <= k < v.len() implies v.contains(#[trigger] v[k]) by {}
    }
}

// ---------------------------------------------------------------------------------------------
// Trusted items: two std functions without a specification in vstd.
// ---------------------------------------------------------------------------------------------

/// `<[T]>::swap`: exchanges the entries at `i` and `j`; std panics when either is out of
/// bounds, which `requires` leaves out.
#[verifier::external_body]
fn slice_swap<T>(values: &mut [T], i: usize, j: usize)
    requires
        i < old(values)@.len(),
        j < old(values)@.len(),
    ensures
        final(values)@ == swap_seq(old(values)@, i as int, j as int),
{
    values.swap(i, j)
}

/// `char::from_u32`: `Some` exactly for Unicode scalar values (below 0xD800, or from 0xE000 up to
/// 0x10FFFF), with the character whose code is `v`.
#[verifier::external_body]
fn char_from_u32(v: u32) -> (r: Option<char>)
    ensures
        (v < 0xD800 || (0xE000 <= v && v <= 0x10FFFF)) ==> r == Some(v as char),
        !(v < 0xD800 || (0xE000 <= v && v <= 0x10FFFF)) ==> r is None,
{
    char::from_u32(v)
}

// ---------------------------------------------------------------------------------------------
// The generator interface.
// ---------------------------------------------------------------------------------------------

/// A source of pseudo-random 32-bit words whose next word and next state are a function of its
/// state.
pub trait Rng: Sized {
    /// The map from a generator to the generator after one draw, and the word drawn.
    spec fn spec_step() -> spec_fn(Self) -> (Self, u32);

    fn next_u32(&mut self) -> (r: u32)
        ensures
            (*final(self), r) == (Self::spec_step())(*old(self)),
    ;

    fn next_u64(&mut self) -> (r: u64)
        ensures
            (*final(self), r) == gen_u64(Self::spec_step(), *old(self)),
    {
        let hi = self.next_u32();
        let lo = self.next_u32();
        proof {
            lemma_combine_u64(hi, lo);
        }
        ((hi as u64) << 32u64) | (lo as u64)
    }

    fn fill_bytes(&mut self, dest: &mut [u8])
        ensures
            final(dest)@.len() == old(dest)@.len(),
            (*final(self), final(dest)@) == fill_seq(
                Self::spec_step(),
                *old(self),
                0,
                0,
                old(dest)@.len(),
            ),
    {
        let ghost start = *self;
        let ghost total = fill_seq(Self::spec_step(), start, 0, 0, dest@.len());
        proof {
            lemma_fill_seq_len(Self::spec_step(), start, 0, 0, dest@.len());
        }
        let n = dest.len();
        let mut count: u64 = 0;
        let mut num: u64 = 0;
        let mut i: usize = 0;
        while i < n
            invariant
                n == dest@.len(),
                i <= n,
                count <= 8,
                total.1.len() == n,
                fill_seq(Self::spec_step(), *self, num, count as nat, (n - i) as nat) == (
                    total.0,
                    total.1.subrange(i as int, n as int),
                ),
                dest@.subrange(0, i as int) == total.1.subrange(0, i as int),
            decreases n - i,
        {
            let ghost s0 = *self;
            let ghost num0 = num;
            let ghost count0 = count;
            if count == 0 {
                num = self.next_u64();
                count = 8;
                proof {
                    assert(fill_seq(Self::spec_step(), s0, num0, 0, (n - i) as nat) == fill_seq(
                        Self::spec_step(),
                        *self,
                        num,
                        8,
                        (n - i) as nat,
                    ));
                }
            }
            let byte = (num & 0xff) as u8;
            proof {
                assert(num & 0xff == num % 256) by (bit_vector);
                let rest = fill_seq(
                    Self::spec_step(),
                    *self,
                    num / 256,
                    (count - 1) as nat,
                    (n - i - 1) as nat,
                );
                let here = fill_seq(Self::spec_step(), *self, num, count as nat, (n - i) as nat);
                assert(here == (total.0, total.1.subrange(i as int, n as int)));
                assert(here == (rest.0, seq![(num % 256) as u8].add(rest.1)));
                assert(byte == (num % 256) as u8);
                assert(total.1.subrange(i as int, n as int)[0] == byte);
                assert(total.1[i as int] == byte);
                lemma_fill_seq_len(Self::spec_step(), *self, num / 256, (count - 1) as nat, (n - i - 1) as nat);
                assert(total.1.subrange(i + 1, n as int) =~= total.1.subrange(i as int, n as int).drop_first());
                assert(seq![(num % 256) as u8].add(rest.1).drop_first() =~= rest.1);
            }
            dest[i] = byte;
            proof {
                assert(num >> 8 == num / 256) by (bit_vector);
            }
            num = num >> 8;
            count = count - 1;
            i = i + 1;
            proof {
                assert(dest@.subrange(0, i as int) =~= total.1.subrange(0, i as int));
            }
        }
        proof {
            assert(dest@ =~= total.1.subrange(0, n as int));
            assert(total.1.subrange(0, n as int) =~= total.1);
        }
    }

    /// A uniform draw from `[low, high)`.
    fn gen_range(&mut self, low: usize, high: usize) -> (r: usize)
        requires
            low < high,
        ensures
            (*final(self), r) == gen_range_usize(Self::spec_step(), *old(self), low, high),
            low <= r < high,
    {
        let range = high - low;
        let zone = usize::MAX - usize::MAX % range;
        let ghost start = *self;
        proof {
            lemma_gen_range_usize_bounds(Self::spec_step(), start, low, high);
        }
        let mut draws: u64 = 0;
        while draws < MAX_DRAWS
            invariant
                start == *old(self),
                range == high - low,
                low < high,
                zone == accept_zone_usize(range),
                draws <= MAX_DRAWS,
                sample_usize(Self::spec_step(), *self, low, range, zone, (MAX_DRAWS - draws) as nat)
                    == gen_range_usize(Self::spec_step(), start, low, high),
            decreases MAX_DRAWS - draws,
        {
            let v = if usize::BITS == 32 {
                self.next_u32() as usize
            } else {
                self.next_u64() as usize
            };
            if v < zone {
                return low + v % range;
            }
            draws = draws + 1;
        }
        low
    }

    /// A uniform draw from `[low, high)` of 32-bit words.
    fn gen_range_u32(&mut self, low: u32, high: u32) -> (r: u32)
        requires
            low < high,
        ensures
            (*final(self), r) == gen_range_u32(Self::spec_step(), *old(self), low, high),
            low <= r < high,
    {
        let range = high - low;
        let zone = u32::MAX - u32::MAX % range;
        let ghost start = *self;
        proof {
            lemma_gen_range_u32_bounds(Self::spec_step(), start, low, high);
        }
        let mut draws: u64 = 0;
        while draws < MAX_DRAWS
            invariant
                start == *old(self),
                range == high - low,
                low < high,
                zone == accept_zone_u32(range),
                draws <= MAX_DRAWS,
                sample_u32(Self::spec_step(), *self, low, range, zone, (MAX_DRAWS - draws) as nat)
                    == gen_range_u32(Self::spec_step(), start, low, high),
            decreases MAX_DRAWS - draws,
        {
            let v = self.next_u32();
            if v < zone {
                return low + v % range;
            }
            draws = draws + 1;
        }
        low
    }

    /// `true` with chance `1/n`: always for `n <= 1`, without a draw; else a draw from `[0, n)`
    /// that gives 0.
    fn gen_weighted_bool(&mut self, n: u32) -> (r: bool)
        ensures
            n <= 1 ==> r && *final(self) == *old(self),
            n > 1 ==> (*final(self), r) == ({
                let (s1, v) = gen_range_u32(Self::spec_step(), *old(self), 0, n);
                (s1, v == 0)
            }),
    {
        n <= 1 || self.gen_range_u32(0, n) == 0
    }

    fn gen_ascii_chars<'a>(&'a mut self) -> (r: AsciiGenerator<'a, Self>)
        ensures
            *r.rng == *old(self),
            *final(self) == *final(r.rng),
    {
        AsciiGenerator { rng: self }
    }

    /// A uniformly chosen entry; `None`, without a draw, for an empty slice.
    fn choose_from<'a, T>(&mut self, values: &'a [T]) -> (r: Option<&'a T>)
        ensures
            values@.len() == 0 ==> r is None && *final(self) == *old(self),
            values@.len() > 0 ==> {
                let (s1, j) = gen_range_usize(Self::spec_step(), *old(self), 0, values@.len() as usize);
                &&& *final(self) == s1
                &&& r matches Some(v) && *v == values@[j as int]
            },
    {
        if values.len() == 0 {
            None
        } else {
            let j = self.gen_range(0, values.len());
            Some(&values[j])
        }
    }

    /// A uniformly chosen entry, to change in place; `None`, without a draw, for an empty slice.
    fn choose_mut<'a, T>(&mut self, values: &'a mut [T]) -> (r: Option<&'a mut T>)
        ensures
            old(values)@.len() == 0 ==> r is None && *final(self) == *old(self) && final(values)@ == old(
                values,
            )@,
            old(values)@.len() > 0 ==> {
                let (s1, j) = gen_range_usize(
                    Self::spec_step(),
                    *old(self),
                    0,
                    old(values)@.len() as usize,
                );
                &&& *final(self) == s1
                &&& r is Some
                &&& *r->0 == old(values)@[j as int]
                &&& final(values)@ == old(values)@.update(j as int, *final(r->0))
            },
    {
        if values.len() == 0 {
            None
        } else {
            let len = values.len();
            let j = self.gen_range(0, len);
            Some(&mut values[j])
        }
    }

    /// Fisher-Yates shuffle in place.
    fn shuffle<T>(&mut self, values: &mut [T])
        ensures
            (*final(self), final(values)@) == shuffle_seq(
                Self::spec_step(),
                *old(self),
                old(values)@,
                old(values)@.len(),
            ),
            final(values)@.to_multiset() == old(values)@.to_multiset(),
    {
        let ghost start = *self;
        let ghost v0 = values@;
        let mut i = values.len();
        proof {
            lemma_shuffle_seq_permutes(Self::spec_step(), start, v0, v0.len());
        }
        while i >= 2
            invariant
                i <= values@.len(),
                values@.len() == v0.len(),
                shuffle_seq(Self::spec_step(), *self, values@, i as nat) == shuffle_seq(
                    Self::spec_step(),
                    start,
                    v0,
                    v0.len(),
                ),
            decreases i,
        {
            i = i - 1;
            let j = self.gen_range(0, i + 1);
            slice_swap(values, i, j);
        }
    }
}

pub proof fn lemma_combine_u64(hi: u32, lo: u32)
    ensures
        ((hi as u64) << 32u64) | (lo as u64) == combine_u64(hi, lo),
{
    assert(((hi as u64) << 32u64) | (lo as u64) == ((hi as u64) * 0x1_0000_0000u64 + lo as u64) as u64)
        by (bit_vector);
}

/// Draws a machine word from `rng`.
fn next_usize<R: Rng>(rng: &mut R) -> (r: usize)
    ensures
        (*final(rng), r) == gen_usize(R::spec_step(), *old(rng)),
{
    if usize::BITS == 32 {
        rng.next_u32() as usize
    } else {
        rng.next_u64() as usize
    }
}

// ---------------------------------------------------------------------------------------------
// Uniform ranges.
// ---------------------------------------------------------------------------------------------

/// A distribution that values can be drawn from, possibly changing as it is sampled.
pub trait Sample<Support> {
    /// Whether the distribution is ready to be sampled.
    spec fn spec_ready(&self) -> bool;

    fn sample<R: Rng>(&mut self, rng: &mut R) -> Support
        requires
            old(self).spec_ready(),
    ;
}

/// A distribution that values can be drawn from without changing it.
pub trait IndependentSample<Support>: Sample<Support> {
    fn ind_sample<R: Rng>(&self, rng: &mut R) -> Support
        requires
            self.spec_ready(),
    ;
}

/// A uniform distribution over `[low, low + range)`, sampled by rejection.
#[derive(Clone, Copy, Debug)]
pub struct Range<X> {
    low: X,
    range: X,
    accept_zone: X,
}

impl Range<usize> {
    pub closed spec fn spec_low(self) -> usize {
        self.low
    }

    pub closed spec fn spec_range(self) -> usize {
        self.range
    }

    pub closed spec fn spec_accept_zone(self) -> usize {
        self.accept_zone
    }

    pub open spec fn wf(self) -> bool {
        &&& self.spec_range() > 0
        &&& self.spec_low() + self.spec_range() <= usize::MAX
        &&& self.spec_accept_zone() == accept_zone_usize(self.spec_range())
    }

    /// The distribution over `[low, high)`, which must not be empty.
    pub fn new(low: usize, high: usize) -> (r: Self)
        requires
            low < high,
        ensures
            r.wf(),
            r.spec_low() == low,
            r.spec_range() == high - low,
    {
        let range = high - low;
        let zone = usize::MAX - usize::MAX % range;
        Range { low, range, accept_zone: zone }
    }

    /// Draws machine words until one falls in the accepted zone, which gives the value.
    fn draw<R: Rng>(&self, rng: &mut R) -> (r: usize)
        requires
            self.wf(),
        ensures
            (*final(rng), r) == sample_usize(
                R::spec_step(),
                *old(rng),
                self.spec_low(),
                self.spec_range(),
                self.spec_accept_zone(),
                MAX_DRAWS as nat,
            ),
            self.spec_low() <= r < self.spec_low() + self.spec_range(),
    {
        let ghost start = *rng;
        proof {
            lemma_sample_usize_bounds(
                R::spec_step(),
                start,
                self.low,
                self.range,
                self.accept_zone,
                MAX_DRAWS as nat,
            );
        }
        let mut draws: u64 = 0;
        while draws < MAX_DRAWS
            invariant
                self.wf(),
                start == *old(rng),
                draws <= MAX_DRAWS,
                sample_usize(
                    R::spec_step(),
                    *rng,
                    self.low,
                    self.range,
                    self.accept_zone,
                    (MAX_DRAWS - draws) as nat,
                ) == sample_usize(
                    R::spec_step(),
                    start,
                    self.low,
                    self.range,
                    self.accept_zone,
                    MAX_DRAWS as nat,
                ),
            decreases MAX_DRAWS - draws,
        {
            let v = next_usize(rng);
            if v < self.accept_zone {
                return self.low + v % self.range;
            }
            draws = draws + 1;
        }
        self.low
    }

}

impl Sample<usize> for Range<usize> {
    open spec fn spec_ready(&self) -> bool {
        self.wf()
    }

    fn sample<R: Rng>(&mut self, rng: &mut R) -> (r: usize)
        ensures
            *final(self) == *old(self),
            (*final(rng), r) == sample_usize(
                R::spec_step(),
                *old(rng),
                old(self).spec_low(),
                old(self).spec_range(),
                old(self).spec_accept_zone(),
                MAX_DRAWS as nat,
            ),
            old(self).spec_low() <= r < old(self).spec_low() + old(self).spec_range(),
    {
        self.draw(rng)
    }
}

impl IndependentSample<usize> for Range<usize> {
    fn ind_sample<R: Rng>(&self, rng: &mut R) -> (r: usize)
        ensures
            (*final(rng), r) == sample_usize(
                R::spec_step(),
                *old(rng),
                self.spec_low(),
                self.spec_range(),
                self.spec_accept_zone(),
                MAX_DRAWS as nat,
            ),
            self.spec_low() <= r < self.spec_low() + self.spec_range(),
    {
        self.draw(rng)
    }
}

impl Range<u32> {
    pub closed spec fn spec_low(self) -> u32 {
        self.low
    }

    pub closed spec fn spec_range(self) -> u32 {
        self.range
    }

    pub closed spec fn spec_accept_zone(self) -> u32 {
        self.accept_zone
    }

    pub open spec fn wf(self) -> bool {
        &&& self.spec_range() > 0
        &&& self.spec_low() + self.spec_range() <= u32::MAX
        &&& self.spec_accept_zone() == accept_zone_u32(self.spec_range())
    }

    /// The distribution over `[low, high)`, which must not be empty.
    pub fn new(low: u32, high: u32) -> (r: Self)
        requires
            low < high,
        ensures
            r.wf(),
            r.spec_low() == low,
            r.spec_range() == high - low,
    {
        let range = high - low;
        let zone = u32::MAX - u32::MAX % range;
        Range { low, range, accept_zone: zone }
    }

    /// Draws 32-bit words until one falls in the accepted zone, which gives the value.
    fn draw<R: Rng>(&self, rng: &mut R) -> (r: u32)
        requires
            self.wf(),
        ensures
            (*final(rng), r) == sample_u32(
                R::spec_step(),
                *old(rng),
                self.spec_low(),
                self.spec_range(),
                self.spec_accept_zone(),
                MAX_DRAWS as nat,
            ),
            self.spec_low() <= r < self.spec_low() + self.spec_range(),
    {
        let ghost start = *rng;
        proof {
            lemma_sample_u32_bounds(
                R::spec_step(),
                start,
                self.low,
                self.range,
                self.accept_zone,
                MAX_DRAWS as nat,
            );
        }
        let mut draws: u64 = 0;
        while draws < MAX_DRAWS
            invariant
                self.wf(),
                start == *old(rng),
                draws <= MAX_DRAWS,
                sample_u32(
                    R::spec_step(),
                    *rng,
                    self.low,
                    self.range,
                    self.accept_zone,
                    (MAX_DRAWS - draws) as nat,
                ) == sample_u32(
                    R::spec_step(),
                    start,
                    self.low,
                    self.range,
                    self.accept_zone,
                    MAX_DRAWS as nat,
                ),
            decreases MAX_DRAWS - draws,
        {
            let v = rng.next_u32();
            if v < self.accept_zone {
                return self.low + v % self.range;
            }
            draws = draws + 1;
        }
        self.low
    }
}

impl Sample<u32> for Range<u32> {
    open spec fn spec_ready(&self) -> bool {
        self.wf()
    }

    fn sample<R: Rng>(&mut self, rng: &mut R) -> (r: u32)
        ensures
            *final(self) == *old(self),
            (*final(rng), r) == sample_u32(
                R::spec_step(),
                *old(rng),
                old(self).spec_low(),
                old(self).spec_range(),
                old(self).spec_accept_zone(),
                MAX_DRAWS as nat,
            ),
            old(self).spec_low() <= r < old(self).spec_low() + old(self).spec_range(),
    {
        self.draw(rng)
    }
}

impl IndependentSample<u32> for Range<u32> {
    fn ind_sample<R: Rng>(&self, rng: &mut R) -> (r: u32)
        ensures
            (*final(rng), r) == sample_u32(
                R::spec_step(),
                *old(rng),
                self.spec_low(),
                self.spec_range(),
                self.spec_accept_zone(),
                MAX_DRAWS as nat,
            ),
            self.spec_low() <= r < self.spec_low() + self.spec_range(),
    {
        self.draw(rng)
    }
}

// ---------------------------------------------------------------------------------------------
// Iterators over draws.
// ---------------------------------------------------------------------------------------------

/// Endless draws of values of `T`.
pub struct Generator<'a, T, R> {
    pub rng: &'a mut R,
    pub _marker: PhantomData<T>,
}

/// A value of `T` drawn from `rng`.
pub fn gen<T: Rand<R>, R: Rng>(rng: &mut R) -> (r: T)
    ensures
        (*final(rng), r) == T::spec_rand(*old(rng)),
{
    T::rand(rng)
}

/// Endless draws of values of `T` from `rng`.
pub fn gen_iter<'a, T: Rand<R>, R: Rng>(rng: &'a mut R) -> (r: Generator<'a, T, R>)
    ensures
        *r.rng == *old(rng),
        *final(rng) == *final(r.rng),
{
    Generator { rng, _marker: PhantomData }
}

impl<'a, T: Rand<R>, R: Rng> Generator<'a, T, R> {
    pub fn next(&mut self) -> (r: Option<T>)
        ensures
            ({
                let (s1, v) = T::spec_rand(*old(self).rng);
                &&& *final(self).rng == s1
                &&& r == Some(v)
            }),
    {
        Some(T::rand(&mut *self.rng))
    }
}

/// Endless draws of ASCII letters and digits.
pub struct AsciiGenerator<'a, R> {
    pub rng: &'a mut R,
}

impl<'a, R: Rng> AsciiGenerator<'a, R> {
    /// A uniform character of `A..Z a..z 0..9`.
    pub fn next(&mut self) -> (r: Option<char>)
        ensures
            ({
                let (s1, j) = gen_range_usize(R::spec_step(), *old(self).rng, 0, 62);
                &&& *final(self).rng == s1
                &&& r == Some(ascii_alphanumeric(j as int))
            }),
    {
        let j = self.rng.gen_range(0, 62);
        Some(ascii_char(j))
    }
}

fn ascii_char(i: usize) -> (r: char)
    requires
        i < 62,
    ensures
        r == ascii_alphanumeric(i as int),
{
    if i < 26 {
        (65u8 + i as u8) as char
    } else if i < 52 {
        (97u8 + (i - 26) as u8) as char
    } else {
        (48u8 + (i - 52) as u8) as char
    }
}

// ---------------------------------------------------------------------------------------------
// Seeding.
// ---------------------------------------------------------------------------------------------

/// A generator that can be started, or restarted, from a seed.
pub trait SeedableRng<Seed>: Rng {
    /// The seeds that the generator accepts.
    spec fn spec_accepts(seed: Seed) -> bool;

    /// The generator that a seed gives.
    spec fn spec_seeded(seed: Seed) -> Self;

    fn reseed(&mut self, seed: Seed)
        requires
            Self::spec_accepts(seed),
        ensures
            *final(self) == Self::spec_seeded(seed),
    ;

    fn from_seed(seed: Seed) -> (r: Self)
        requires
            Self::spec_accepts(seed),
        ensures
            r == Self::spec_seeded(seed),
    ;
}

// ---------------------------------------------------------------------------------------------
// Values drawn from a generator.
// ---------------------------------------------------------------------------------------------

/// A type whose values can be drawn from a generator.
pub trait Rand<R: Rng>: Sized {
    /// The value drawn from a generator in state `s`, with the state the generator is left in.
    spec fn spec_rand(s: R) -> (R, Self);

    fn rand(rng: &mut R) -> (r: Self)
        ensures
            (*final(rng), r) == Self::spec_rand(*old(rng)),
    ;
}

impl<R: Rng> Rand<R> for u32 {
    open spec fn spec_rand(s: R) -> (R, u32) {
        (R::spec_step())(s)
    }

    fn rand(rng: &mut R) -> (r: u32) {
        rng.next_u32()
    }
}

impl<R: Rng> Rand<R> for u64 {
    open spec fn spec_rand(s: R) -> (R, u64) {
        gen_u64(R::spec_step(), s)
    }

    fn rand(rng: &mut R) -> (r: u64) {
        rng.next_u64()
    }
}

impl<R: Rng> Rand<R> for usize {
    open spec fn spec_rand(s: R) -> (R, usize) {
        gen_usize(R::spec_step(), s)
    }

    fn rand(rng: &mut R) -> (r: usize) {
        next_usize(rng)
    }
}

impl<R: Rng> Rand<R> for u8 {
    open spec fn spec_rand(s: R) -> (R, u8) {
        let (s1, v) = (R::spec_step())(s);
        (s1, v as u8)
    }

    fn rand(rng: &mut R) -> (r: u8) {
        rng.next_u32() as u8
    }
}

impl<R: Rng> Rand<R> for u16 {
    open spec fn spec_rand(s: R) -> (R, u16) {
        let (s1, v) = (R::spec_step())(s);
        (s1, v as u16)
    }

    fn rand(rng: &mut R) -> (r: u16) {
        rng.next_u32() as u16
    }
}

impl<R: Rng> Rand<R> for i8 {
    open spec fn spec_rand(s: R) -> (R, i8) {
        let (s1, v) = (R::spec_step())(s);
        (s1, v as i8)
    }

    fn rand(rng: &mut R) -> (r: i8) {
        rng.next_u32() as i8
    }
}

impl<R: Rng> Rand<R> for i16 {
    open spec fn spec_rand(s: R) -> (R, i16) {
        let (s1, v) = (R::spec_step())(s);
        (s1, v as i16)
    }

    fn rand(rng: &mut R) -> (r: i16) {
        rng.next_u32() as i16
    }
}

impl<R: Rng> Rand<R> for i32 {
    open spec fn spec_rand(s: R) -> (R, i32) {
        let (s1, v) = (R::spec_step())(s);
        (s1, v as i32)
    }

    fn rand(rng: &mut R) -> (r: i32) {
        rng.next_u32() as i32
    }
}

impl<R: Rng> Rand<R> for i64 {
    open spec fn spec_rand(s: R) -> (R, i64) {
        let (s1, v) = gen_u64(R::spec_step(), s);
        (s1, v as i64)
    }

    fn rand(rng: &mut R) -> (r: i64) {
        rng.next_u64() as i64
    }
}

impl<R: Rng> Rand<R> for isize {
    open spec fn spec_rand(s: R) -> (R, isize) {
        let (s1, v) = gen_usize(R::spec_step(), s);
        (s1, v as isize)
    }

    fn rand(rng: &mut R) -> (r: isize) {
        if usize::BITS == 32 {
            (rng.next_u32() as i32) as isize
        } else {
            (rng.next_u64() as i64) as isize
        }
    }
}

impl<R: Rng> Rand<R> for bool {
    /// The lowest bit of a drawn byte.
    open spec fn spec_rand(s: R) -> (R, bool) {
        let (s1, v) = (R::spec_step())(s);
        (s1, (v as u8) & 1 == 1)
    }

    fn rand(rng: &mut R) -> (r: bool) {
        let b = rng.next_u32() as u8;
        b & 1 == 1
    }
}

/// The character drawn by at most `fuel` tries of the lowest 21 bits of a 32-bit draw.
pub open spec fn rand_char_seq<S>(step: spec_fn(S) -> (S, u32), s: S, fuel: nat) -> (S, char)
    decreases fuel,
{
    if fuel == 0 {
        (s, 0 as char)
    } else {
        let (s1, v) = step(s);
        let c = v % 0x20_0000u32;
        if c < 0xD800 || (0xE000 <= c && c <= 0x10FFFF) {
            (s1, c as char)
        } else {
            rand_char_seq(step, s1, (fuel - 1) as nat)
        }
    }
}

impl<R: Rng> Rand<R> for char {
    /// Draws 21-bit codes until one is a Unicode scalar value; gives `'\0'` after `MAX_DRAWS`
    /// failed tries.
    open spec fn spec_rand(s: R) -> (R, char) {
        rand_char_seq(R::spec_step(), s, MAX_DRAWS as nat)
    }

    fn rand(rng: &mut R) -> (r: char) {
        let ghost start = *rng;
        let mut draws: u64 = 0;
        while draws < MAX_DRAWS
            invariant
                start == *old(rng),
                draws <= MAX_DRAWS,
                rand_char_seq(R::spec_step(), *rng, (MAX_DRAWS - draws) as nat) == rand_char_seq(
                    R::spec_step(),
                    start,
                    MAX_DRAWS as nat,
                ),
            decreases MAX_DRAWS - draws,
        {
            let v = rng.next_u32();
            let code = v & 0x001f_ffff;
            proof {
                assert(v & 0x001f_ffff == v % 0x20_0000) by (bit_vector);
            }
            match char_from_u32(code) {
                Some(c) => {
                    return c;
                },
                None => {},
            }
            draws = draws + 1;
        }
        '\0'
    }
}

impl<R: Rng> Rand<R> for () {
    open spec fn spec_rand(s: R) -> (R, ()) {
        (s, ())
    }

    fn rand(rng: &mut R) -> (r: ()) {
        ()
    }
}

impl<R: Rng, A: Rand<R>> Rand<R> for (A,) {
    open spec fn spec_rand(s: R) -> (R, (A,)) {
        let (s1, a) = A::spec_rand(s);
        (s1, (a,))
    }

    fn rand(rng: &mut R) -> (r: (A,)) {
        (A::rand(rng),)
    }
}

impl<R: Rng, A: Rand<R>, B: Rand<R>> Rand<R> for (A, B) {
    open spec fn spec_rand(s: R) -> (R, (A, B)) {
        let (s1, a) = A::spec_rand(s);
        let (s2, b) = B::spec_rand(s1);
        (s2, (a, b))
    }

    fn rand(rng: &mut R) -> (r: (A, B)) {
        let a = A::rand(rng);
        let b = B::rand(rng);
        (a, b)
    }
}

impl<R: Rng, A: Rand<R>, B: Rand<R>, C: Rand<R>> Rand<R> for (A, B, C) {
    open spec fn spec_rand(s: R) -> (R, (A, B, C)) {
        let (s1, a) = A::spec_rand(s);
        let (s2, b) = B::spec_rand(s1);
        let (s3, c) = C::spec_rand(s2);
        (s3, (a, b, c))
    }

    fn rand(rng: &mut R) -> (r: (A, B, C)) {
        let a = A::rand(rng);
        let b = B::rand(rng);
        let c = C::rand(rng);
        (a, b, c)
    }
}

impl<R: Rng, A: Rand<R>, B: Rand<R>, C: Rand<R>, D: Rand<R>> Rand<R> for (A, B, C, D) {
    open spec fn spec_rand(s: R) -> (R, (A, B, C, D)) {
        let (s1, a) = A::spec_rand(s);
        let (s2, b) = B::spec_rand(s1);
        let (s3, c) = C::spec_rand(s2);
        let (s4, d) = D::spec_rand(s3);
        (s4, (a, b, c, d))
    }

    fn rand(rng: &mut R) -> (r: (A, B, C, D)) {
        let a = A::rand(rng);
        let b = B::rand(rng);
        let c = C::rand(rng);
        let d = D::rand(rng);
        (a, b, c, d)
    }
}

impl<R: Rng, A: Rand<R>, B: Rand<R>, C: Rand<R>, D: Rand<R>, E: Rand<R>> Rand<R> for (A, B, C, D, E) {
    open spec fn spec_rand(s: R) -> (R, (A, B, C, D, E)) {
        let (s1, a) = A::spec_rand(s);
        let (s2, b) = B::spec_rand(s1);
        let (s3, c) = C::spec_rand(s2);
        let (s4, d) = D::spec_rand(s3);
        let (s5, e) = E::spec_rand(s4);
        (s5, (a, b, c, d, e))
    }

    fn rand(rng: &mut R) -> (r: (A, B, C, D, E)) {
        let a = A::rand(rng);
        let b = B::rand(rng);
        let c = C::rand(rng);
        let d = D::rand(rng);
        let e = E::rand(rng);
        (a, b, c, d, e)
    }
}

impl<R: Rng, A: Rand<R>, B: Rand<R>, C: Rand<R>, D: Rand<R>, E: Rand<R>, F: Rand<R>> Rand<R> for (A, B, C, D, E, F) {
    open spec fn spec_rand(s: R) -> (R, (A, B, C, D, E, F)) {
        let (s1, a) = A::spec_rand(s);
        let (s2, b) = B::spec_rand(s1);
        let (s3, c) = C::spec_rand(s2);
        let (s4, d) = D::spec_rand(s3);
        let (s5, e) = E::spec_rand(s4);
        let (s6, f) = F::spec_rand(s5);
        (s6, (a, b, c, d, e, f))
    }

    fn rand(rng: &mut R) -> (r: (A, B, C, D, E, F)) {
        let a = A::rand(rng);
        let b = B::rand(rng);
        let c = C::rand(rng);
        let d = D::rand(rng);
        let e = E::rand(rng);
        let f = F::rand(rng);
        (a, b, c, d, e, f)
    }
}

impl<R: Rng, A: Rand<R>, B: Rand<R>, C: Rand<R>, D: Rand<R>, E: Rand<R>, F: Rand<R>, G: Rand<R>> Rand<R> for (A, B, C, D, E, F, G) {
    open spec fn spec_rand(s: R) -> (R, (A, B, C, D, E, F, G)) {
        let (s1, a) = A::spec_rand(s);
        let (s2, b) = B::spec_rand(s1);
        let (s3, c) = C::spec_rand(s2);
        let (s4, d) = D::spec_rand(s3);
        let (s5, e) = E::spec_rand(s4);
        let (s6, f) = F::spec_rand(s5);
        let (s7, g) = G::spec_rand(s6);
        (s7, (a, b, c, d, e, f, g))
    }

    fn rand(rng: &mut R) -> (r: (A, B, C, D, E, F, G)) {
        let a = A::rand(rng);
        let b = B::rand(rng);
        let c = C::rand(rng);
        let d = D::rand(rng);
        let e = E::rand(rng);
        let f = F::rand(rng);
        let g = G::rand(rng);
        (a, b, c, d, e, f, g)
    }
}

impl<R: Rng, A: Rand<R>, B: Rand<R>, C: Rand<R>, D: Rand<R>, E: Rand<R>, F: Rand<R>, G: Rand<R>, H: Rand<R>> Rand<R> for (A, B, C, D, E, F, G, H) {
    open spec fn spec_rand(s: R) -> (R, (A, B, C, D, E, F, G, H)) {
        let (s1, a) = A::spec_rand(s);
        let (s2, b) = B::spec_rand(s1);
        let (s3, c) = C::spec_rand(s2);
        let (s4, d) = D::spec_rand(s3);
        let (s5, e) = E::spec_rand(s4);
        let (s6, f) = F::spec_rand(s5);
        let (s7, g) = G::spec_rand(s6);
        let (s8, h) = H::spec_rand(s7);
        (s8, (a, b, c, d, e, f, g, h))
    }

    fn rand(rng: &mut R) -> (r: (A, B, C, D, E, F, G, H)) {
        let a = A::rand(rng);
        let b = B::rand(rng);
        let c = C::rand(rng);
        let d = D::rand(rng);
        let e = E::rand(rng);
        let f = F::rand(rng);
        let g = G::rand(rng);
        let h = H::rand(rng);
        (a, b, c, d, e, f, g, h)
    }
}

impl<R: Rng, A: Rand<R>, B: Rand<R>, C: Rand<R>, D: Rand<R>, E: Rand<R>, F: Rand<R>, G: Rand<R>, H: Rand<R>, I: Rand<R>> Rand<R> for (A, B, C, D, E, F, G, H, I) {
    open spec fn spec_rand(s: R) -> (R, (A, B, C, D, E, F, G, H, I)) {
        let (s1, a) = A::spec_rand(s);
        let (s2, b) = B::spec_rand(s1);
        let (s3, c) = C::spec_rand(s2);
        let (s4, d) = D::spec_rand(s3);
        let (s5, e) = E::spec_rand(s4);
        let (s6, f) = F::spec_rand(s5);
        let (s7, g) = G::spec_rand(s6);
        let (s8, h) = H::spec_rand(s7);
        let (s9, i) = I::spec_rand(s8);
        (s9, (a, b, c, d, e, f, g, h, i))
    }

    fn rand(rng: &mut R) -> (r: (A, B, C, D, E, F, G, H, I)) {
        let a = A::rand(rng);
        let b = B::rand(rng);
        let c = C::rand(rng);
        let d = D::rand(rng);
        let e = E::rand(rng);
        let f = F::rand(rng);
        let g = G::rand(rng);
        let h = H::rand(rng);
        let i = I::rand(rng);
        (a, b, c, d, e, f, g, h, i)
    }
}

impl<R: Rng, A: Rand<R>, B: Rand<R>, C: Rand<R>, D: Rand<R>, E: Rand<R>, F: Rand<R>, G: Rand<R>, H: Rand<R>, I: Rand<R>, J: Rand<R>> Rand<R> for (A, B, C, D, E, F, G, H, I, J) {
    open spec fn spec_rand(s: R) -> (R, (A, B, C, D, E, F, G, H, I, J)) {
        let (s1, a) = A::spec_rand(s);
        let (s2, b) = B::spec_rand(s1);
        let (s3, c) = C::spec_rand(s2);
        let (s4, d) = D::spec_rand(s3);
        let (s5, e) = E::spec_rand(s4);
        let (s6, f) = F::spec_rand(s5);
        let (s7, g) = G::spec_rand(s6);
        let (s8, h) = H::spec_rand(s7);
        let (s9, i) = I::spec_rand(s8);
        let (s10, j) = J::spec_rand(s9);
        (s10, (a, b, c, d, e, f, g, h, i, j))
    }

    fn rand(rng: &mut R) -> (r: (A, B, C, D, E, F, G, H, I, J)) {
        let a = A::rand(rng);
        let b = B::rand(rng);
        let c = C::rand(rng);
        let d = D::rand(rng);
        let e = E::rand(rng);
        let f = F::rand(rng);
        let g = G::rand(rng);
        let h = H::rand(rng);
        let i = I::rand(rng);
        let j = J::rand(rng);
        (a, b, c, d, e, f, g, h, i, j)
    }
}

impl<R: Rng, A: Rand<R>, B: Rand<R>, C: Rand<R>, D: Rand<R>, E: Rand<R>, F: Rand<R>, G: Rand<R>, H: Rand<R>, I: Rand<R>, J: Rand<R>, K: Rand<R>> Rand<R> for (A, B, C, D, E, F, G, H, I, J, K) {
    open spec fn spec_rand(s: R) -> (R, (A, B, C, D, E, F, G, H, I, J, K)) {
        let (s1, a) = A::spec_rand(s);
        let (s2, b) = B::spec_rand(s1);
        let (s3, c) = C::spec_rand(s2);
        let (s4, d) = D::spec_rand(s3);
        let (s5, e) = E::spec_rand(s4);
        let (s6, f) = F::spec_rand(s5);
        let (s7, g) = G::spec_rand(s6);
        let (s8, h) = H::spec_rand(s7);
        let (s9, i) = I::spec_rand(s8);
        let (s10, j) = J::spec_rand(s9);
        let (s11, k) = K::spec_rand(s10);
        (s11, (a, b, c, d, e, f, g, h, i, j, k))
    }

    fn rand(rng: &mut R) -> (r: (A, B, C, D, E, F, G, H, I, J, K)) {
        let a = A::rand(rng);
        let b = B::rand(rng);
        let c = C::rand(rng);
        let d = D::rand(rng);
        let e = E::rand(rng);
        let f = F::rand(rng);
        let g = G::rand(rng);
        let h = H::rand(rng);
        let i = I::rand(rng);
        let j = J::rand(rng);
        let k = K::rand(rng);
        (a, b, c, d, e, f, g, h, i, j, k)
    }
}

impl<R: Rng, A: Rand<R>, B: Rand<R>, C: Rand<R>, D: Rand<R>, E: Rand<R>, F: Rand<R>, G: Rand<R>, H: Rand<R>, I: Rand<R>, J: Rand<R>, K: Rand<R>, L: Rand<R>> Rand<R> for (A, B, C, D, E, F, G, H, I, J, K, L) {
    open spec fn spec_rand(s: R) -> (R, (A, B, C, D, E, F, G, H, I, J, K, L)) {
        let (s1, a) = A::spec_rand(s);
        let (s2, b) = B::spec_rand(s1);
        let (s3, c) = C::spec_rand(s2);
        let (s4, d) = D::spec_rand(s3);
        let (s5, e) = E::spec_rand(s4);
        let (s6, f) = F::spec_rand(s5);
        let (s7, g) = G::spec_rand(s6);
        let (s8, h) = H::spec_rand(s7);
        let (s9, i) = I::spec_rand(s8);
        let (s10, j) = J::spec_rand(s9);
        let (s11, k) = K::spec_rand(s10);
        let (s12, l) = L::spec_rand(s11);
        (s12, (a, b, c, d, e, f, g, h, i, j, k, l))
    }

    fn rand(rng: &mut R) -> (r: (A, B, C, D, E, F, G, H, I, J, K, L)) {
        let a = A::rand(rng);
        let b = B::rand(rng);
        let c = C::rand(rng);
        let d = D::rand(rng);
        let e = E::rand(rng);
        let f = F::rand(rng);
        let g = G::rand(rng);
        let h = H::rand(rng);
        let i = I::rand(rng);
        let j = J::rand(rng);
        let k = K::rand(rng);
        let l = L::rand(rng);
        (a, b, c, d, e, f, g, h, i, j, k, l)
    }
}

impl<R: Rng, T: Rand<R>> Rand<R> for Option<T> {
    /// `Some` when a drawn `bool` is `true`.
    open spec fn spec_rand(s: R) -> (R, Option<T>) {
        let (s1, b) = bool::spec_rand(s);
        if b {
            let (s2, t) = T::spec_rand(s1);
            (s2, Some(t))
        } else {
            (s1, None)
        }
    }

    fn rand(rng: &mut R) -> (r: Option<T>) {
        if bool::rand(rng) {
            Some(T::rand(rng))
        } else {
            None
        }
    }
}

// ---------------------------------------------------------------------------------------------
// Reservoir sampling.
// ---------------------------------------------------------------------------------------------

/// `amount` entries of `values` picked by reservoir sampling: the first `amount` entries, each
/// later entry at position `amount + i` replacing entry `k` when a draw `k` from
/// `[0, amount + i + 1)` is below `amount`. When `values` holds fewer than `amount` entries they
/// all come back, without a draw.
pub fn sample<T, R: Rng>(rng: &mut R, values: Vec<T>, amount: usize) -> (r: Vec<T>)
    ensures
        (*final(rng), r@) == sample_seq(R::spec_step(), *old(rng), values@, amount as nat),
        r@.len() == if values@.len() < amount {
            values@.len()
        } else {
            amount as nat
        },
        forall|k: int| 0 <= k < r@.len() ==> values@.contains(#[trigger] r@[k]),
{
    let ghost start = *rng;
    let ghost v0 = values@;
    proof {
        assert(values@.len() <= usize::MAX) by {
            assert(values.len() == values@.len());
        }
        lemma_sample_seq(R::spec_step(), start, v0, amount as nat);
    }
    let mut rest = values;
    let mut reservoir: Vec<T> = Vec::new();
    while reservoir.len() < amount && rest.len() > 0
        invariant
            reservoir@.len() <= amount,
            reservoir@ + rest@ == v0,
        decreases rest@.len(),
    {
        let first = rest.remove(0);
        proof {
            assert(reservoir@.push(first) + rest@ =~= v0);
        }
        reservoir.push(first);
    }
    if reservoir.len() == amount {
        proof {
            assert(reservoir@ =~= v0.take(amount as int));
            assert(rest@ =~= v0.skip(amount as int));
        }
        let mut i: usize = 0;
        while rest.len() > 0
            invariant
                reservoir@.len() == amount,
                i + amount + rest@.len() == v0.len(),
                v0.len() <= usize::MAX,
                reservoir_seq(R::spec_step(), *rng, reservoir@, rest@, i as nat, amount as nat)
                    == sample_seq(R::spec_step(), start, v0, amount as nat),
            decreases rest@.len(),
        {
            let ghost before = rest@;
            let elem = rest.remove(0);
            let k = rng.gen_range(0, i + 1 + amount);
            if k < amount {
                reservoir.set(k, elem);
            }
            proof {
                assert(rest@ =~= before.drop_first());
            }
            i = i + 1;
        }
    } else {
        proof {
            assert(reservoir@ =~= v0);
        }
    }
    reservoir
}

// ---------------------------------------------------------------------------------------------
// The xorshift128 generator.
// ---------------------------------------------------------------------------------------------

/// One step of xorshift128 on the state `(x, y, z, w)`; the new `w` is the word drawn.
pub open spec fn xorshift_next(s: (u32, u32, u32, u32)) -> (u32, u32, u32, u32) {
    let t = s.0 ^ (s.0 << 11u32);
    (s.1, s.2, s.3, s.3 ^ (s.3 >> 19u32) ^ (t ^ (t >> 8u32)))
}

/// A state from which xorshift128 runs through its full period.
pub open spec fn nonzero_state(s: (u32, u32, u32, u32)) -> bool {
    !(s.0 == 0 && s.1 == 0 && s.2 == 0 && s.3 == 0)
}

/// The xorshift128 generator of Marsaglia.
#[derive(Clone, Debug, PartialEq, Eq, Hash, PartialOrd, Ord)]
pub struct XorShiftRng {
    x: u32,
    y: u32,
    z: u32,
    w: u32,
}

impl View for XorShiftRng {
    type V = (u32, u32, u32, u32);

    closed spec fn view(&self) -> (u32, u32, u32, u32) {
        (self.x, self.y, self.z, self.w)
    }
}

/// The generator with the given state.
pub closed spec fn xorshift_of(s: (u32, u32, u32, u32)) -> XorShiftRng {
    XorShiftRng { x: s.0, y: s.1, z: s.2, w: s.3 }
}

/// The generator made of a state has that state.
pub proof fn lemma_xorshift_of_view(s: (u32, u32, u32, u32))
    ensures
        xorshift_of(s)@ == s,
{
}

/// Two generators are equal exactly when their states are.
pub proof fn lemma_xorshift_view_eq(a: XorShiftRng, b: XorShiftRng)
    ensures
        a@ == b@ <==> a == b,
{
}

impl XorShiftRng {
    /// The generator with a fixed nonzero state, for use without a seed.
    pub fn new_unseeded() -> (r: XorShiftRng)
        ensures
            r@ == (0x193a6754u32, 0xa8a7d469u32, 0x97830e05u32, 0x113ba7bbu32),
            nonzero_state(r@),
    {
        XorShiftRng { x: 0x193a6754, y: 0xa8a7d469, z: 0x97830e05, w: 0x113ba7bb }
    }
}

impl Rng for XorShiftRng {
    closed spec fn spec_step() -> spec_fn(Self) -> (Self, u32) {
        |s: Self| (xorshift_of(xorshift_next(s@)), xorshift_next(s@).3)
    }

    fn next_u32(&mut self) -> (r: u32)
        ensures
            final(self)@ == xorshift_next(old(self)@),
            r == final(self)@.3,
    {
        let x = self.x;
        let t = x ^ (x << 11u32);
        self.x = self.y;
        self.y = self.z;
        self.z = self.w;
        let w = self.w;
        self.w = w ^ (w >> 19u32) ^ (t ^ (t >> 8u32));
        self.w
    }
}

/// A boxed generator draws what the generator in the box draws.
impl<R: Rng> Rng for Box<R> {
    open spec fn spec_step() -> spec_fn(Self) -> (Self, u32) {
        |b: Box<R>|
            {
                let (s1, v) = (R::spec_step())(*b);
                (Box::new(s1), v)
            }
    }

    fn next_u32(&mut self) -> (r: u32) {
        (**self).next_u32()
    }
}

/// One xorshift128 step keeps a non-zero state non-zero.
pub proof fn lemma_xorshift_keeps_nonzero(s: (u32, u32, u32, u32))
    requires
        nonzero_state(s),
    ensures
        nonzero_state(xorshift_next(s)),
{
    let x = s.0;
    if s.1 == 0 && s.2 == 0 && s.3 == 0 {
        let w = s.3;
        assert(x != 0 ==> (w ^ (w >> 19u32) ^ ((x ^ (x << 11u32)) ^ ((x ^ (x << 11u32)) >> 8u32)))
            != 0) by (bit_vector)
            requires
                w == 0,
        ;
    }
}

/// What a draw of a non-zero xorshift128 generator leaves is non-zero again.
pub proof fn lemma_xorshift_step_nonzero(g: XorShiftRng)
    requires
        nonzero_state(g@),
    ensures
        nonzero_state(((XorShiftRng::spec_step())(g)).0@),
        ((XorShiftRng::spec_step())(g)).0@ == xorshift_next(g@),
        ((XorShiftRng::spec_step())(g)).1 == xorshift_next(g@).3,
{
    lemma_xorshift_keeps_nonzero(g@);
}

impl SeedableRng<[u32; 4]> for XorShiftRng {
    /// Any seed but all zeros.
    open spec fn spec_accepts(seed: [u32; 4]) -> bool {
        nonzero_state((seed@[0], seed@[1], seed@[2], seed@[3]))
    }

    open spec fn spec_seeded(seed: [u32; 4]) -> XorShiftRng {
        xorshift_of((seed@[0], seed@[1], seed@[2], seed@[3]))
    }

    fn reseed(&mut self, seed: [u32; 4])
        ensures
            final(self)@ == (seed@[0], seed@[1], seed@[2], seed@[3]),
    {
        self.x = seed[0];
        self.y = seed[1];
        self.z = seed[2];
        self.w = seed[3];
    }

    fn from_seed(seed: [u32; 4]) -> (r: XorShiftRng)
        ensures
            r@ == (seed@[0], seed@[1], seed@[2], seed@[3]),
    {
        XorShiftRng { x: seed[0], y: seed[1], z: seed[2], w: seed[3] }
    }
}

/// Four words drawn at a time until they are not all zero, at most `fuel` times; the words of
/// the last try.
pub open spec fn rand_state_seq<S>(step: spec_fn(S) -> (S, u32), s: S, fuel: nat) -> (
    S,
    (u32, u32, u32, u32),
)
    decreases fuel,
{
    let (s1, a) = step(s);
    let (s2, b) = step(s1);
    let (s3, c) = step(s2);
    let (s4, d) = step(s3);
    if fuel <= 1 || nonzero_state((a, b, c, d)) {
        (s4, (a, b, c, d))
    } else {
        rand_state_seq(step, s4, (fuel - 1) as nat)
    }
}

impl<R: Rng> Rand<R> for XorShiftRng {
    /// A generator seeded by four words of `rng`, drawn again while all four are zero; after
    /// `MAX_DRAWS` all-zero tries, the generator of `new_unseeded`.
    open spec fn spec_rand(s: R) -> (R, XorShiftRng) {
        let (s1, st) = rand_state_seq(R::spec_step(), s, MAX_DRAWS as nat);
        if nonzero_state(st) {
            (s1, xorshift_of(st))
        } else {
            (s1, xorshift_of((0x193a6754u32, 0xa8a7d469u32, 0x97830e05u32, 0x113ba7bbu32)))
        }
    }

    fn rand(rng: &mut R) -> (r: XorShiftRng)
        ensures
            nonzero_state(r@),
    {
        let ghost start = *rng;
        let mut tries: u64 = 1;
        loop
            invariant
                start == *old(rng),
                1 <= tries <= MAX_DRAWS,
                rand_state_seq(R::spec_step(), *rng, (MAX_DRAWS - tries + 1) as nat)
                    == rand_state_seq(R::spec_step(), start, MAX_DRAWS as nat),
            decreases MAX_DRAWS - tries,
        {
            let a = rng.next_u32();
            let b = rng.next_u32();
            let c = rng.next_u32();
            let d = rng.next_u32();
            if !(a == 0 && b == 0 && c == 0 && d == 0) {
                return XorShiftRng { x: a, y: b, z: c, w: d };
            }
            if tries == MAX_DRAWS {
                return XorShiftRng::new_unseeded();
            }
            tries = tries + 1;
        }
    }
}

/// `std::time::SystemTime`, a reading of the system clock that the library only carries.
#[verifier::external_type_specification]
#[verifier::external_body]
pub struct ExSystemTime(SystemTime);

/// `SystemTime::now`: the clock's current reading; nothing is stated of it.
#[verifier::external_body]
fn system_time_now() -> SystemTime {
    SystemTime::now()
}

/// `SystemTime::duration_since` with `UNIX_EPOCH`: the time from the epoch to `t`, or `None`
/// where std returns its error, for a time before the epoch; nothing is stated of the value.
#[verifier::external_body]
fn duration_since_unix_epoch(t: &SystemTime) -> Option<Duration> {
    match t.duration_since(UNIX_EPOCH) {
        Ok(d) => Some(d),
        Err(_) => None,
    }
}

/// `Duration::as_secs`: the whole seconds of `d`; nothing is stated of the value.
#[verifier::external_body]
fn duration_secs(d: &Duration) -> u64 {
    d.as_secs()
}

/// `Duration::subsec_nanos`: the nanoseconds of `d` beyond its whole seconds, which std
/// documents as less than one billion.
#[verifier::external_body]
fn duration_subsec_nanos(d: &Duration) -> (r: u32)
    ensures
        r < 1_000_000_000,
{
    d.subsec_nanos()
}

/// The seed made of a time since the Unix epoch: its seconds and its nanoseconds, each as a
/// machine word (the seconds cut to the word's width).
pub fn seed_from_unix_time(seconds: u64, nanoseconds: u32) -> (r: [usize; 2])
    ensures
        r@ == seq![seconds as usize, nanoseconds as usize],
{
    let r = [seconds as usize, nanoseconds as usize];
    proof {
        assert(r@ =~= seq![seconds as usize, nanoseconds as usize]);
    }
    r
}

/// A seed from the clock, as `seed_from_unix_time` makes it of the time since the Unix epoch;
/// `None` when the clock is set before the epoch.
pub fn weak_seed() -> (r: Option<[usize; 2]>)
    ensures
        r matches Some(s) ==> s@[1] < 1_000_000_000,
{
    let now = system_time_now();
    match duration_since_unix_epoch(&now) {
        Some(d) => Some(seed_from_unix_time(duration_secs(&d), duration_subsec_nanos(&d))),
        None => None,
    }
}

/// The generator that a game's strategy starts with: the low and the high half of the rules'
/// seed, then two fixed words.
pub fn seeded_from_rules(seed: i64) -> (r: XorShiftRng)
    ensures
        r@ == (seed as u32, (seed >> 32u32) as u32, 1841971383u32, 1904458926u32),
{
    let low = seed as u32;
    let high = (seed >> 32u32) as u32;
    XorShiftRng::from_seed([low, high, 1841971383, 1904458926])
}

/// Whether a seed is all zeros, which xorshift128 does not accept.
pub fn is_zero_seed(seed: [u32; 4]) -> (r: bool)
    ensures
        r == !XorShiftRng::spec_accepts(seed),
{
    seed[0] == 0 && seed[1] == 0 && seed[2] == 0 && seed[3] == 0
}

} // verus!
