//! Deterministic gradient noise over 2D coordinates.
//!
//! A `NoiseField` is a permutation table shuffled from the seed; sampling is
//! a pure function of the table and the coordinates, stated exactly by
//! `spec_sample`. Coordinates are fixed point with `CELL` subunits per
//! lattice cell; sample values are per-mille, in [-1000, 1000], standing for
//! the real interval [-1, 1]. Multi-octave sampling doubles the frequency
//! per octave and scales each octave's weight by a per-mille persistence.

use vstd::prelude::*;
use vstd::arithmetic::div_mod::{lemma_div_is_ordered, lemma_div_multiples_vanish};
use crate::rng::RandomnessProvider;
use crate::rng::spec_shuffle_from;
use crate::rng::lemma_shuffle_len;

verus! {

/// Coordinate subunits per lattice cell.
pub const CELL: u64 = 256;

/// The fade weight of a full cell: `CELL` cubed.
pub const FADE_ONE: u64 = 16777216;

/// Magnitude of a sample: 1000 per-mille stands for 1.0.
pub const NOISE_ONE: i64 = 1000;

/// Largest coordinate `sample` accepts (an octave-doubled base coordinate).
pub const COORD_MAX: u64 = 0x40_0000_0000;

/// Largest base coordinate `sample_octaves` accepts.
pub const BASE_COORD_MAX: u64 = 0x1_0000_0000;

/// Gradient index of the lattice corner `(xi, yi)`: two chained table
/// lookups folded into the eight gradient directions.
pub open spec fn lattice_hash(perm: Seq<u8>, xi: int, yi: int) -> int {
    (perm[((perm[xi % 256] as int) + (yi % 256)) % 256] as int) % 8
}

/// Dot product of gradient direction `h` with the offset `(dx, dy)`.
pub open spec fn grad_dot(h: int, dx: int, dy: int) -> int {
    if h == 0 {
        dx
    } else if h == 1 {
        dx + dy
    } else if h == 2 {
        dy
    } else if h == 3 {
        dy - dx
    } else if h == 4 {
        -dx
    } else if h == 5 {
        -dx - dy
    } else if h == 6 {
        -dy
    } else {
        dx - dy
    }
}

/// Contribution of the corner `(xi, yi)` to a sample taken at offset
/// `(dx, dy)` from it, shifted by 512 so that it lies in [0, 1024].
pub open spec fn corner_val(perm: Seq<u8>, xi: int, yi: int, dx: int, dy: int) -> int {
    grad_dot(lattice_hash(perm, xi, yi), dx, dy) + 512
}

/// Smoothstep fade weight of an in-cell offset `t`, scaled to [0, FADE_ONE].
pub open spec fn spec_fade(t: int) -> int {
    t * t * (3 * 256 - 2 * t)
}

/// Interpolation between `a` and `b` with fade weight `w` out of `FADE_ONE`.
pub open spec fn spec_lerp(a: int, b: int, w: int) -> int {
    if b >= a {
        a + (b - a) * w / (FADE_ONE as int)
    } else {
        a - (a - b) * w / (FADE_ONE as int)
    }
}

/// The unshifted sample at `(xq, yq)`: interpolated corner contributions,
/// in [0, 1024]. Opaque: callers reason through `spec_sample` as a whole.
#[verifier::opaque]
pub open spec fn spec_sample_raw(perm: Seq<u8>, xq: int, yq: int) -> int {
    let xi = xq / 256;
    let yi = yq / 256;
    let fx = xq % 256;
    let fy = yq % 256;
    let v00 = corner_val(perm, xi, yi, fx, fy);
    let v10 = corner_val(perm, xi + 1, yi, fx - 256, fy);
    let v01 = corner_val(perm, xi, yi + 1, fx, fy - 256);
    let v11 = corner_val(perm, xi + 1, yi + 1, fx - 256, fy - 256);
    let wx = spec_fade(fx);
    let wy = spec_fade(fy);
    let a = spec_lerp(v00, v10, wx);
    let b = spec_lerp(v01, v11, wx);
    spec_lerp(a, b, wy)
}

/// What `NoiseField::sample` returns: the raw sample rescaled into
/// [-1000, 1000]. A pure function of the table and the coordinates.
pub open spec fn spec_sample(perm: Seq<u8>, xq: int, yq: int) -> int {
    spec_sample_raw(perm, xq, yq) * 2000 / 1024 - 1000
}

/// The identity table the shuffle starts from.
pub open spec fn identity_perm() -> Seq<u8> {
    Seq::new(256, |i: int| i as u8)
}

/// The permutation table a field built from `seed` holds.
pub open spec fn spec_perm(seed: u64) -> Seq<u8> {
    spec_shuffle_from(identity_perm(), seed, 255).0
}

/// Persistence raised to the `k`th power (per-mille base, raw product).
pub open spec fn spec_amp(p: int, k: int) -> int
    decreases k,
{
    if k <= 0 {
        1
    } else {
        p * spec_amp(p, k - 1)
    }
}

/// `x` scaled by the `k`th octave frequency (a power of two, capped at the
/// sixth octave).
pub open spec fn spec_scaled(x: int, k: int) -> int {
    if k <= 0 {
        x
    } else if k == 1 {
        2 * x
    } else if k == 2 {
        4 * x
    } else if k == 3 {
        8 * x
    } else if k == 4 {
        16 * x
    } else {
        32 * x
    }
}

/// Weighted sum of the first `k` octaves' shifted samples.
pub open spec fn spec_octave_num(perm: Seq<u8>, x: int, y: int, k: int, p: int) -> int
    decreases k,
{
    if k <= 0 {
        0
    } else {
        spec_octave_num(perm, x, y, k - 1, p) + (spec_sample(
            perm,
            spec_scaled(x, k - 1),
            spec_scaled(y, k - 1),
        ) + 1000) * spec_amp(p, k - 1)
    }
}

/// Sum of the first `k` octave weights.
pub open spec fn spec_octave_den(k: int, p: int) -> int
    decreases k,
{
    if k <= 0 {
        0
    } else {
        spec_octave_den(k - 1, p) + spec_amp(p, k - 1)
    }
}

/// What `NoiseField::sample_octaves` returns: the weight-normalized octave
/// sum, shifted back into [-1000, 1000].
pub open spec fn spec_sample_octaves(perm: Seq<u8>, x: int, y: int, k: int, p: int) -> int {
    spec_octave_num(perm, x, y, k, p) / spec_octave_den(k, p) - 1000
}

/// Octave weights are nonnegative and at most 1000^k for per-mille `p`.
pub proof fn lemma_amp_bounds(p: int, k: int)
    requires
        0 <= p <= 1000,
        0 <= k <= 5,
    ensures
        0 <= spec_amp(p, k) <= 1000000000000000,
    decreases k,
{
    if k == 0 {
    } else {
        lemma_amp_small(p, (k - 1) as nat);
        assert(spec_amp(p, k) == p * spec_amp(p, k - 1));
        assert(0 <= p * spec_amp(p, k - 1) <= 1000 * 1000000000000) by (nonlinear_arith)
            requires
                0 <= p <= 1000,
                0 <= spec_amp(p, k - 1) <= 1000000000000,
        ;
    }
}

/// The first five octave weights stay within 1000^4.
proof fn lemma_amp_small(p: int, k: nat)
    requires
        0 <= p <= 1000,
        k <= 4,
    ensures
        0 <= spec_amp(p, k as int) <= 1000000000000,
    decreases k,
{
    if k == 0 {
    } else {
        lemma_amp_tiny(p, (k - 1) as nat);
        assert(spec_amp(p, k as int) == p * spec_amp(p, k as int - 1));
        assert(0 <= p * spec_amp(p, k as int - 1) <= 1000 * 1000000000) by (nonlinear_arith)
            requires
                0 <= p <= 1000,
                0 <= spec_amp(p, k as int - 1) <= 1000000000,
        ;
    }
}

/// The first four octave weights stay within 1000^3.
proof fn lemma_amp_tiny(p: int, k: nat)
    requires
        0 <= p <= 1000,
        k <= 3,
    ensures
        0 <= spec_amp(p, k as int) <= 1000000000,
    decreases k,
{
    if k == 0 {
    } else {
        lemma_amp_micro(p, (k - 1) as nat);
        assert(spec_amp(p, k as int) == p * spec_amp(p, k as int - 1));
        assert(0 <= p * spec_amp(p, k as int - 1) <= 1000 * 1000000) by (nonlinear_arith)
            requires
                0 <= p <= 1000,
                0 <= spec_amp(p, k as int - 1) <= 1000000,
        ;
    }
}

/// The first three octave weights stay within 1000^2.
proof fn lemma_amp_micro(p: int, k: nat)
    requires
        0 <= p <= 1000,
        k <= 2,
    ensures
        0 <= spec_amp(p, k as int) <= 1000000,
    decreases k,
{
    if k == 0 {
    } else if k == 1 {
        assert(spec_amp(p, 1) == p * spec_amp(p, 0));
    } else {
        assert(spec_amp(p, 2) == p * spec_amp(p, 1));
        assert(spec_amp(p, 1) == p * spec_amp(p, 0));
        assert(0 <= p * (p * 1) <= 1000000) by (nonlinear_arith)
            requires
                0 <= p <= 1000,
        ;
    }
}

/// A seeded noise field; its view is the permutation table.
pub struct NoiseField {
    perm: Vec<u8>,
}

impl View for NoiseField {
    type V = Seq<u8>;

    closed spec fn view(&self) -> Seq<u8> {
        self.perm@
    }
}

impl NoiseField {
    /// A field is well formed when its table has all 256 entries.
    pub open spec fn wf(self) -> bool {
        self@.len() == 256
    }

    /// Builds the field of `seed`: the identity table shuffled by a
    /// provider seeded with `seed`.
    pub fn new(seed: u64) -> (r: NoiseField)
        ensures
            r@ == spec_perm(seed),
            r.wf(),
    {
        let mut table: Vec<u8> = Vec::new();
        let mut i: usize = 0;
        while i < 256
            invariant
                i <= 256,
                table@.len() == i,
                forall|k: int| 0 <= k < i ==> table@[k] == k as u8,
            decreases 256 - i,
        {
            table.push(i as u8);
            i = i + 1;
        }
        proof {
            assert(table@ =~= identity_perm());
        }
        let mut rng = RandomnessProvider::new(seed);
        rng.shuffle(&mut table);
        proof {
            lemma_shuffle_len(identity_perm(), seed, 255);
        }
        NoiseField { perm: table }
    }

    /// Gradient index of the corner `(xi, yi)`.
    fn hash8(&self, xi: u64, yi: u64) -> (h: u8)
        requires
            self.wf(),
        ensures
            h as int == lattice_hash(self@, xi as int, yi as int),
            h < 8,
    {
        let a = self.perm[(xi % 256) as usize] as u64;
        let idx = ((a + yi % 256) % 256) as usize;
        self.perm[idx] % 8
    }

    /// Samples the field at fixed-point coordinates `(xq, yq)`; the result
    /// is exactly `spec_sample` of the table, so two calls with the same
    /// table and coordinates return the same value.
    pub fn sample(&self, xq: u64, yq: u64) -> (r: i64)
        requires
            self.wf(),
            xq <= COORD_MAX,
            yq <= COORD_MAX,
        ensures
            r == spec_sample(self@, xq as int, yq as int),
            -1000 <= r <= 1000,
    {
        let xi = xq / 256;
        let yi = yq / 256;
        let fx = (xq % 256) as i64;
        let fy = (yq % 256) as i64;
        let h00 = self.hash8(xi, yi);
        let h10 = self.hash8(xi + 1, yi);
        let h01 = self.hash8(xi, yi + 1);
        let h11 = self.hash8(xi + 1, yi + 1);
        let v00 = (grad_dot_exec(h00, fx, fy) + 512) as u64;
        let v10 = (grad_dot_exec(h10, fx - 256, fy) + 512) as u64;
        let v01 = (grad_dot_exec(h01, fx, fy - 256) + 512) as u64;
        let v11 = (grad_dot_exec(h11, fx - 256, fy - 256) + 512) as u64;
        let wx = fade_exec((xq % 256));
        let wy = fade_exec((yq % 256));
        let a = lerp_exec(v00, v10, wx);
        let b = lerp_exec(v01, v11, wx);
        let n = lerp_exec(a, b, wy);
        proof {
            reveal(spec_sample_raw);
            lemma_div_is_ordered((n as int) * 2000, 1024int * 2000, 1024int);
            lemma_div_multiples_vanish(2000int, 1024int);
        }
        (n * 2000 / 1024) as i64 - 1000
    }

    /// Multi-octave sample: octave `o` samples at frequency `2^o` with
    /// weight `persistence^o` (per-mille persistence); the weighted mean is
    /// shifted back into [-1000, 1000]. Exactly `spec_sample_octaves`.
    #[verifier::rlimit(60)]
    pub fn sample_octaves(&self, xq: u64, yq: u64, octaves: u32, persistence: u32) -> (r: i64)
        requires
            self.wf(),
            1 <= octaves <= 6,
            persistence <= 1000,
            xq <= BASE_COORD_MAX,
            yq <= BASE_COORD_MAX,
        ensures
            r == spec_sample_octaves(
                self@,
                xq as int,
                yq as int,
                octaves as int,
                persistence as int,
            ),
            -1000 <= r <= 1000,
    {
        let mut num: u64 = 0;
        let mut den: u64 = 0;
        let mut amp: u64 = 1;
        let mut o: u32 = 0;
        while o < octaves
            invariant
                self.wf(),
                1 <= octaves <= 6,
                persistence <= 1000,
                o <= octaves,
                xq <= BASE_COORD_MAX,
                yq <= BASE_COORD_MAX,
                amp == spec_amp(persistence as int, o as int),
                num == spec_octave_num(
                    self@,
                    xq as int,
                    yq as int,
                    o as int,
                    persistence as int,
                ),
                den == spec_octave_den(o as int, persistence as int),
                num <= 2000 * den,
                den <= o * 1000000000000000,
                o >= 1 ==> den >= 1,
            decreases octaves - o,
        {
            proof {
                lemma_amp_bounds(persistence as int, o as int);
            }
            let m: u64 = if o == 0 {
                1
            } else if o == 1 {
                2
            } else if o == 2 {
                4
            } else if o == 3 {
                8
            } else if o == 4 {
                16
            } else {
                32
            };
            let cx = xq * m;
            let cy = yq * m;
            let s = self.sample(cx, cy);
            let u = (s + 1000) as u64;
            assert(u * amp <= 2000 * 1000000000000000) by (nonlinear_arith)
                requires
                    u <= 2000,
                    amp <= 1000000000000000,
            ;
            assert(u * amp <= 2000 * amp) by (nonlinear_arith)
                requires
                    u <= 2000,
                    0 <= amp,
            ;
            num = num + u * amp;
            den = den + amp;
            assert(amp * persistence <= 1000000000000000 * 1000) by (nonlinear_arith)
                requires
                    amp <= 1000000000000000,
                    persistence <= 1000,
            ;
            amp = amp * persistence as u64;
            o = o + 1;
        }
        proof {
            lemma_div_is_ordered(num as int, 2000int * (den as int), den as int);
            lemma_div_multiples_vanish(2000int, den as int);
        }
        (num / den) as i64 - 1000
    }
}

/// Executable gradient dot product; equals `grad_dot` and is bounded by the
/// largest offset magnitude times two.
fn grad_dot_exec(h: u8, dx: i64, dy: i64) -> (r: i64)
    requires
        h < 8,
        -256 <= dx <= 256,
        -256 <= dy <= 256,
    ensures
        r == grad_dot(h as int, dx as int, dy as int),
        -512 <= r <= 512,
{
    if h == 0 {
        dx
    } else if h == 1 {
        dx + dy
    } else if h == 2 {
        dy
    } else if h == 3 {
        dy - dx
    } else if h == 4 {
        -dx
    } else if h == 5 {
        -dx - dy
    } else if h == 6 {
        -dy
    } else {
        dx - dy
    }
}

/// Executable smoothstep fade; equals `spec_fade` and lies in [0, FADE_ONE].
fn fade_exec(t: u64) -> (r: u64)
    requires
        t < 256,
    ensures
        r == spec_fade(t as int),
        r <= FADE_ONE,
{
    proof {
        let ti = t as int;
        assert((256 - ti) * (256 - ti) * (256 + 2 * ti) == 16777216 - ti * ti * (3 * 256 - 2
            * ti)) by (nonlinear_arith);
        assert((256 - ti) * (256 - ti) * (256 + 2 * ti) >= 0) by (nonlinear_arith)
            requires
                0 <= ti < 256,
        ;
        assert(ti * ti * (3 * 256 - 2 * ti) >= 0) by (nonlinear_arith)
            requires
                0 <= ti < 256,
        ;
        assert(ti * ti * (3 * 256 - 2 * ti) <= 16777216);
        assert(ti * ti <= 65536) by (nonlinear_arith)
            requires
                0 <= ti < 256,
        ;
    }
    t * t * (3 * 256 - 2 * t)
}

/// Executable interpolation; equals `spec_lerp` and never leaves the
/// interval spanned by its endpoints.
fn lerp_exec(a: u64, b: u64, w: u64) -> (r: u64)
    requires
        a <= 1024,
        b <= 1024,
        w <= FADE_ONE,
    ensures
        r == spec_lerp(a as int, b as int, w as int),
        r <= 1024,
{
    if b >= a {
        let d = b - a;
        assert(d * w <= d * (FADE_ONE as int)) by (nonlinear_arith)
            requires
                0 <= d,
                0 <= w <= FADE_ONE,
        ;
        proof {
            lemma_div_is_ordered(d * w, d * (FADE_ONE as int), FADE_ONE as int);
            lemma_div_multiples_vanish(d as int, FADE_ONE as int);
            assert(d * (FADE_ONE as int) == (FADE_ONE as int) * (d as int)) by (nonlinear_arith);
            assert(d * w >= 0) by (nonlinear_arith)
                requires
                    0 <= d,
                    0 <= w,
            ;
        }
        a + d * w / FADE_ONE
    } else {
        let d = a - b;
        assert(d * w <= d * (FADE_ONE as int)) by (nonlinear_arith)
            requires
                0 <= d,
                0 <= w <= FADE_ONE,
        ;
        proof {
            lemma_div_is_ordered(d * w, d * (FADE_ONE as int), FADE_ONE as int);
            lemma_div_multiples_vanish(d as int, FADE_ONE as int);
            assert(d * (FADE_ONE as int) == (FADE_ONE as int) * (d as int)) by (nonlinear_arith);
            assert(d * w >= 0) by (nonlinear_arith)
                requires
                    0 <= d,
                    0 <= w,
            ;
        }
        a - d * w / FADE_ONE
    }
}

/// Two noise fields holding the same table sample identically everywhere:
/// sampling is a pure function of the seed-derived table and the
/// coordinates, with no hidden state.
pub proof fn lemma_noise_deterministic(f1: NoiseField, f2: NoiseField, x: int, y: int)
    requires
        f1@ == f2@,
    ensures
        spec_sample(f1@, x, y) == spec_sample(f2@, x, y),
{
}

} // verus!
