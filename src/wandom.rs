use vstd::prelude::*;

verus! {

/// The state of a xoshiro256** generator, as four words.
pub type XoState = (u64, u64, u64, u64);

/// Left rotation of a 64-bit word by `k` bits, `0 < k < 64`.
pub open spec fn rotl(x: u64, k: u64) -> u64 {
    (x << k) | (x >> ((64 - k) as u64))
}

/// One SplitMix64 step applied to a counter value that was already advanced.
#[verifier::opaque]
pub open spec fn splitmix_mix(s: u64) -> u64 {
    let v = vstd::wrapping::u64_specs::wrapping_mul(s ^ (s >> 30u64), 0xBF58476D1CE4E5B9u64);
    let v = vstd::wrapping::u64_specs::wrapping_mul(v ^ (v >> 27u64), 0x94D049BB133111EBu64);
    v ^ (v >> 31u64)
}

/// The SplitMix64 counter after `n` steps from `seed`.
pub open spec fn splitmix_counter(seed: u64, n: nat) -> u64
    decreases n,
{
    if n == 0 {
        seed
    } else {
        vstd::wrapping::u64_specs::wrapping_add(
            splitmix_counter(seed, (n - 1) as nat),
            0x9E3779B97F4A7C15u64,
        )
    }
}

/// The `n`-th output (counting from 1) of SplitMix64 seeded with `seed`.
pub open spec fn splitmix_output(seed: u64, n: nat) -> u64 {
    splitmix_mix(splitmix_counter(seed, n))
}

/// The xoshiro256** state that `XoShiRo256SS::new(seed)` starts from.
pub open spec fn seeded_state(seed: u64) -> XoState {
    (
        splitmix_output(seed, 1),
        splitmix_output(seed, 2),
        splitmix_output(seed, 3),
        splitmix_output(seed, 4),
    )
}

/// The word that one xoshiro256** step returns from state `s`.
pub open spec fn xo_output(s: XoState) -> u64 {
    vstd::wrapping::u64_specs::wrapping_mul(
        rotl(vstd::wrapping::u64_specs::wrapping_mul(s.1, 5), 7),
        9,
    )
}

/// The state that one xoshiro256** step leaves behind from state `s`.
pub open spec fn xo_next(s: XoState) -> XoState {
    let t = s.1 << 17u64;
    let n2 = s.2 ^ s.0;
    let n3 = s.3 ^ s.1;
    let n1 = s.1 ^ n2;
    let n0 = s.0 ^ n3;
    (n0, n1, n2 ^ t, rotl(n3, 45))
}

/// The largest power of two that is not above `x` (1 for `x` below 2).
pub open spec fn pow2_floor(x: nat) -> nat
    decreases x,
{
    if x < 2 {
        1
    } else {
        2 * pow2_floor(x / 2)
    }
}

/// What `rand_range(minimum, maximum)` returns from state `s`, with the state it leaves.
///
/// Bounds whose sum overflows give a raw draw; reversed bounds are swapped; equal bounds
/// give `minimum` without a draw; otherwise a draw is reduced below the largest power of
/// two not above the width of the range, which keeps it inside `[minimum, maximum)`.
pub open spec fn rand_range_spec(s: XoState, minimum: u64, maximum: u64) -> (u64, XoState)
    decreases (if minimum > maximum { 1int } else { 0int }),
{
    if maximum + minimum > u64::MAX {
        (xo_output(s), xo_next(s))
    } else if maximum < minimum {
        rand_range_spec(s, maximum, minimum)
    } else if maximum == minimum {
        (minimum, s)
    } else {
        (
            (minimum + xo_output(s) as nat % pow2_floor((maximum - minimum) as nat)) as u64,
            xo_next(s),
        )
    }
}

/// The index order after the Fisher-Yates passes for positions `i` down to 1.
pub open spec fn fisher_yates(v: Seq<usize>, s: XoState, i: nat) -> Seq<usize>
    decreases i,
{
    if i == 0 {
        v
    } else {
        let (j, s2) = rand_range_spec(s, 0, (i + 1) as u64);
        fisher_yates(v.update(i as int, v[j as int]).update(j as int, v[i as int]), s2, (i - 1) as nat)
    }
}

/// The identity order `0, 1, ..., n - 1`.
pub open spec fn identity_order(n: nat) -> Seq<usize> {
    Seq::new(n, |k: int| k as usize)
}

/// The order that `shuffled_indices(seed)` gives for a collection of `n` items.
pub open spec fn shuffle_spec(n: nat, seed: usize) -> Seq<usize> {
    if n == 0 {
        Seq::empty()
    } else {
        fisher_yates(identity_order(n), seeded_state(seed as u64), (n - 1) as nat)
    }
}

/// `p` lists each of `0..n` exactly once.
pub open spec fn is_permutation_of_range(p: Seq<usize>, n: nat) -> bool {
    &&& p.len() == n
    &&& forall|k: int| 0 <= k < n ==> #[trigger] p[k] < n
    &&& p.no_duplicates()
    &&& forall|v: int| 0 <= v < n ==> #[trigger] p.contains(v as usize)
}

fn rotate_left(x: u64, k: u64) -> (r: u64)
    requires
        0 < k < 64,
    ensures
        r == rotl(x, k),
{
    (x << k) | (x >> (64 - k))
}

/// A random order of the positions of a collection, drawn from a seed.
pub trait ShuffleIndex {
    spec fn index_count(&self) -> nat;

    fn shuffled_indices(&self, seed: usize) -> (r: Vec<usize>)
        ensures
            r@ == shuffle_spec(self.index_count(), seed),
            is_permutation_of_range(r@, self.index_count()),
    ;
}

pub(crate) proof fn lemma_swap_keeps_permutation(v: Seq<usize>, n: nat, i: int, j: int)
    requires
        is_permutation_of_range(v, n),
        0 <= i < n,
        0 <= j < n,
    ensures
        is_permutation_of_range(v.update(i, v[j]).update(j, v[i]), n),
{
    let w = v.update(i, v[j]).update(j, v[i]);
    assert forall|a: int, b: int| 0 <= a < w.len() && 0 <= b < w.len() && a != b implies w[a]
        != w[b] by {
        assert(v.no_duplicates());
    }
    assert forall|x: int| 0 <= x < n implies #[trigger] w.contains(x as usize) by {
        assert(v.contains(x as usize));
        let k = choose|k: int| 0 <= k < v.len() && v[k] == x as usize;
        if k == i {
            assert(w[j] == x as usize);
        } else if k == j {
            assert(w[i] == x as usize);
        } else {
            assert(w[k] == x as usize);
        }
    }
}

impl<T> ShuffleIndex for Vec<T> {
    open spec fn index_count(&self) -> nat {
        self@.len()
    }

    fn shuffled_indices(&self, seed: usize) -> (r: Vec<usize>) {
        let n = self.len();
        let mut rng = XoShiRo256SS::new(seed as u64);
        let mut indices: Vec<usize> = Vec::new();
        let mut k: usize = 0;
        while k < n
            invariant
                k <= n,
                n == self@.len(),
                indices@ == identity_order(n as nat).take(k as int),
            decreases n - k,
        {
            indices.push(k);
            k = k + 1;
            assert(indices@ =~= identity_order(n as nat).take(k as int));
        }
        assert(indices@ =~= identity_order(n as nat));
        assert forall|x: int| 0 <= x < n implies #[trigger] indices@.contains(x as usize) by {
            assert(indices@[x] == x as usize);
        }
        if n == 0 {
            assert(indices@ =~= shuffle_spec(0, seed));
            return indices;
        }
        assert(is_permutation_of_range(indices@, n as nat));
        let mut i: usize = n - 1;
        while i >= 1
            invariant
                1 <= n == self@.len(),
                i < n,
                is_permutation_of_range(indices@, n as nat),
                fisher_yates(indices@, rng@, i as nat) == shuffle_spec(n as nat, seed),
            decreases i,
        {
            let ghost before = indices@;
            let ghost s = rng@;
            let j = rng.rand_range(0, (i as u64) + 1);
            let a = indices[i];
            let b = indices[j as usize];
            indices[i] = b;
            indices[j as usize] = a;
            proof {
                lemma_swap_keeps_permutation(before, n as nat, i as int, j as int);
                assert(indices@ == before.update(i as int, before[j as int]).update(
                    j as int,
                    before[i as int],
                ));
            }
            i = i - 1;
        }
        indices
    }
}

/// The xoshiro256** generator.
pub struct XoShiRo256SS {
    state: [u64; 4],
}

impl View for XoShiRo256SS {
    type V = XoState;

    closed spec fn view(&self) -> XoState {
        (self.state@[0], self.state@[1], self.state@[2], self.state@[3])
    }
}

impl XoShiRo256SS {
    /// A generator whose four state words are the first four SplitMix64 outputs of `seed`.
    pub fn new(seed: u64) -> (r: Self)
        ensures
            r@ == seeded_state(seed),
    {
        let mut splitmix = SplitMix64::new(seed);
        assert(splitmix_counter(seed, 0) == seed);
        let a = splitmix.step();
        assert(splitmix.state == splitmix_counter(seed, 1));
        let b = splitmix.step();
        assert(splitmix.state == splitmix_counter(seed, 2));
        let c = splitmix.step();
        assert(splitmix.state == splitmix_counter(seed, 3));
        let d = splitmix.step();
        assert(splitmix.state == splitmix_counter(seed, 4));
        XoShiRo256SS { state: [a, b, c, d] }
    }

    /// Returns the next output and advances the state.
    pub fn step(&mut self) -> (r: u64)
        ensures
            r == xo_output(old(self)@),
            final(self)@ == xo_next(old(self)@),
    {
        let s0 = self.state[0];
        let s1 = self.state[1];
        let s2 = self.state[2];
        let s3 = self.state[3];
        let value = rotate_left(s1.wrapping_mul(5), 7).wrapping_mul(9);
        let t = s1.wrapping_shl(17);
        assert(t == s1 << 17u64) by {
            assert(17u32 % 64 == 17);
        }
        let n2 = s2 ^ s0;
        let n3 = s3 ^ s1;
        let n1 = s1 ^ n2;
        let n0 = s0 ^ n3;
        let n3 = rotate_left(n3, 45);
        self.state = [n0, n1, n2 ^ t, n3];
        value
    }

    /// A value in `[minimum, maximum)` (bounds given in either order); `minimum` when the
    /// bounds are equal, and a raw output when their sum overflows.
    pub fn rand_range(&mut self, minimum: u64, maximum: u64) -> (r: u64)
        ensures
            (r, final(self)@) == rand_range_spec(old(self)@, minimum, maximum),
            minimum < maximum && maximum + minimum <= u64::MAX ==> minimum <= r < maximum,
            maximum < minimum && maximum + minimum <= u64::MAX ==> maximum <= r < minimum,
            minimum == maximum && maximum + minimum <= u64::MAX ==> r == minimum,
        decreases (if minimum > maximum { 1int } else { 0int }),
    {
        if maximum.checked_add(minimum).is_none() {
            return self.step();
        }
        if maximum < minimum {
            return self.rand_range(maximum, minimum);
        }
        let num_range = maximum - minimum;
        if num_range == 0 {
            return minimum;
        }
        // Every value below the largest power of two that is not above the width is inside
        // the range, so no draw has to be rejected.
        let span = largest_power_of_two_within(num_range);
        let num = self.step() % span;
        proof {
            assert(num < num_range);
        }
        num + minimum
    }
}

/// The largest power of two that is not above `x`.
fn largest_power_of_two_within(x: u64) -> (r: u64)
    requires
        x >= 1,
    ensures
        r as nat == pow2_floor(x as nat),
        1 <= r <= x,
{
    let mut v: u64 = x;
    let mut p: u64 = 1;
    while v >= 2
        invariant
            v >= 1,
            p >= 1,
            p as nat * v as nat <= x as nat,
            p as nat * pow2_floor(v as nat) == pow2_floor(x as nat),
        decreases v,
    {
        let ghost old_v = v;
        let ghost old_p = p;
        assert(p as nat * 2 <= p as nat * v as nat) by (nonlinear_arith)
            requires
                v >= 2,
        ;
        assert(pow2_floor(v as nat) == 2 * pow2_floor((v / 2) as nat));
        v = v / 2;
        p = p * 2;
        assert(p as nat * v as nat <= old_p as nat * old_v as nat) by (nonlinear_arith)
            requires
                p == old_p * 2,
                v == old_v / 2,
        ;
        assert(p as nat * pow2_floor(v as nat) == old_p as nat * (2 * pow2_floor(v as nat)))
            by (nonlinear_arith)
            requires
                p == old_p * 2,
        ;
    }
    assert(p as nat <= x as nat) by (nonlinear_arith)
        requires
            v >= 1,
            p as nat * v as nat <= x as nat,
    ;
    p
}

struct SplitMix64 {
    state: u64,
}

impl SplitMix64 {
    fn new(seed: u64) -> (r: Self)
        ensures
            r.state == seed,
    {
        SplitMix64 { state: seed }
    }

    fn step(&mut self) -> (r: u64)
        ensures
            final(self).state == vstd::wrapping::u64_specs::wrapping_add(
                old(self).state,
                0x9E3779B97F4A7C15u64,
            ),
            r == splitmix_mix(final(self).state),
    {
        reveal(splitmix_mix);
        self.state = self.state.wrapping_add(0x9E3779B97F4A7C15);
        let s = self.state;
        let value = (s ^ s.wrapping_shr(30)).wrapping_mul(0xBF58476D1CE4E5B9);
        let value = (value ^ value.wrapping_shr(27)).wrapping_mul(0x94D049BB133111EB);
        value ^ value.wrapping_shr(31)
    }
}

} // verus!
