//! Drum machine step patterns: the euclidean rhythm generator that fills a
//! lane of the active pattern.

use vstd::prelude::*;
use vstd::arithmetic::div_mod::{
    lemma_add_mod_noop_right,
    lemma_fundamental_div_mod,
    lemma_fundamental_div_mod_converse,
};

verus! {

/// Steps in one drum pattern lane.
pub const STEP_COUNT: usize = 16;

/// Number of drum channels (lanes).
pub const CHANNEL_COUNT: usize = 8;

/// Number of independent patterns (A–D).
pub const PATTERN_COUNT: usize = 4;

/// Lane names, top to bottom.
pub const CHANNEL_NAMES: [&'static str; 8] = ["KICK", "SNARE", "HAT", "CLAP", "TOM1", "TOM2", "PERC", "NOISE"];

/// Pattern slot names.
pub const PATTERN_NAMES: [&'static str; 4] = ["A", "B", "C", "D"];

/// The step grid of the drum machine: patterns, velocities, lane switches
/// and euclidean generator settings (the sound parameters of each voice are
/// kept by the application).
#[derive(Clone, Copy, Debug, PartialEq, Eq)]
pub struct DrumGrid {
    pub enabled: bool,
    /// 4 independent step patterns; the edited one is `active_pattern`.
    pub patterns: [[[bool; 16]; 8]; 4],
    /// Per-step velocity (0–127) mirroring `patterns` layout.
    pub step_vel: [[[u8; 16]; 8]; 4],
    pub active_pattern: usize,
    pub pattern_clipboard: Option<[[bool; 16]; 8]>,
    pub muted: [bool; 8],
    pub soloed: [bool; 8],
    /// Euclidean generator per lane (applies to the active pattern).
    pub euclid_on: [bool; 8],
    pub euclid_hits: [u8; 8],
    pub euclid_steps: [u8; 8],
    pub euclid_offset: [u8; 8],
    /// Which channel's voice editor is expanded (None = all collapsed).
    pub expanded_channel: Option<usize>,
    /// Playhead step.
    pub current_step: usize,
}

/// Smaller of two integers.
pub open spec fn min_int(a: int, b: int) -> int {
    if a <= b { a } else { b }
}

/// Step `i` of an unrotated euclidean rhythm of `hits` over `steps` is a hit.
pub open spec fn euclid_base_hit(hits: int, steps: int, i: int) -> bool {
    (i * hits) % steps < hits
}

/// Index of the unrotated step that lands on `j` after rotating by `offset`.
pub open spec fn euclid_source_step(steps: int, offset: int, j: int) -> int {
    (j + steps - offset % steps) % steps
}

/// Step `j` of `euclidean_pattern(hits, steps, offset)`: the hit count is
/// clamped to the step count and both to `STEP_COUNT`; the rhythm is then
/// rotated right by `offset`.
pub open spec fn euclid_step(hits: int, steps: int, offset: int, j: int) -> bool {
    let s = min_int(steps, STEP_COUNT as int);
    let h = min_int(min_int(hits, steps), STEP_COUNT as int);
    &&& hits != 0
    &&& steps != 0
    &&& 0 <= j < s
    &&& euclid_base_hit(h, s, euclid_source_step(s, offset, j))
}

/// Number of `k` in `lo .. hi` for which `f(k)` holds.
pub open spec fn count_where(f: spec_fn(int) -> bool, lo: int, hi: int) -> nat
    decreases hi - lo,
{
    if hi <= lo {
        0
    } else {
        count_where(f, lo, hi - 1) + if f(hi - 1) { 1nat } else { 0nat }
    }
}

/// Bresenham/Bjorklund: distribute `hits` evenly across `steps`, then rotate by `offset`.
pub fn euclidean_pattern(hits: usize, steps: usize, offset: usize) -> (out: [bool; 16])
    requires
        steps == 0 || hits == 0 || offset + min_int(steps as int, STEP_COUNT as int) - 1
            <= usize::MAX,
    ensures
        forall|j: int| 0 <= j < 16 ==> out[j] == euclid_step(hits as int, steps as int, offset as int, j),
{
    let mut out = [false; 16];
    if steps == 0 || hits == 0 {
        return out;
    }
    let hits = if hits < steps { hits } else { steps };
    let hits = if hits < STEP_COUNT { hits } else { STEP_COUNT };
    let steps = if steps < STEP_COUNT { steps } else { STEP_COUNT };
    let ghost r = offset as int % steps as int;
    let mut i: usize = 0;
    while i < steps
        invariant
            1 <= hits <= steps <= 16,
            0 <= i <= steps,
            offset + steps - 1 <= usize::MAX,
            r == offset as int % steps as int,
            forall|j: int|
                0 <= j < 16 ==> out[j] == (j < steps && euclid_source_step(steps as int, offset as int, j) < i
                    && euclid_base_hit(hits as int, steps as int, euclid_source_step(steps as int, offset as int, j))),
        decreases steps - i,
    {
        assert(i * hits <= 16 * 16) by (nonlinear_arith)
            requires
                i <= 16,
                hits <= 16,
        ;
        if (i * hits) % steps < hits {
            let k = (i + offset) % steps;
            proof {
                assert forall|j: int| 0 <= j < steps implies
                    (j == k <==> euclid_source_step(steps as int, offset as int, j) == i) by {
                    lemma_rotation(i as int, j, offset as int, steps as int);
                }
            }
            out[k] = true;
        }
        proof {
            assert forall|j: int| 0 <= j < steps implies
                0 <= #[trigger] euclid_source_step(steps as int, offset as int, j) < steps by {
                lemma_fundamental_div_mod(j + steps - r, steps as int);
            }
        }
        i = i + 1;
    }
    out
}

/// Rotating step `i` right by `o` lands on `j` exactly when `j` rotated back is `i`.
pub proof fn lemma_rotation(i: int, j: int, o: int, s: int)
    requires
        0 <= i < s,
        0 <= j < s,
        0 <= o,
    ensures
        ((i + o) % s == j) <==> (euclid_source_step(s, o, j) == i),
{
    let r = o % s;
    lemma_fundamental_div_mod(o, s);
    lemma_add_mod_noop_right(i, o, s);
    if i + r < s {
        lemma_fundamental_div_mod_converse(i + r, s, 0, i + r);
    } else {
        lemma_fundamental_div_mod_converse(i + r, s, 1, i + r - s);
    }
    if j < r {
        lemma_fundamental_div_mod_converse(j + s - r, s, 0, j + s - r);
    } else {
        lemma_fundamental_div_mod_converse(j + s - r, s, 1, j - r);
    }
}


/// Counting over `lo .. hi` splits at any `mid` in between.
pub proof fn lemma_count_split(f: spec_fn(int) -> bool, lo: int, mid: int, hi: int)
    requires
        lo <= mid <= hi,
    ensures
        count_where(f, lo, hi) == count_where(f, lo, mid) + count_where(f, mid, hi),
    decreases hi - mid,
{
    if hi > mid {
        lemma_count_split(f, lo, mid, hi - 1);
    }
}

/// Counting a shifted predicate is counting the unshifted one over the shifted range.
pub proof fn lemma_count_shift(f: spec_fn(int) -> bool, g: spec_fn(int) -> bool, lo: int, hi: int, c: int)
    requires
        forall|k: int| lo <= k < hi ==> #[trigger] g(k) == f(k + c),
    ensures
        count_where(g, lo, hi) == count_where(f, lo + c, hi + c),
    decreases hi - lo,
{
    if hi > lo {
        lemma_count_shift(f, g, lo, hi - 1, c);
    }
}

/// Predicates that agree on `lo .. hi` have the same count there.
pub proof fn lemma_count_ext(f: spec_fn(int) -> bool, g: spec_fn(int) -> bool, lo: int, hi: int)
    requires
        forall|k: int| lo <= k < hi ==> #[trigger] f(k) == g(k),
    ensures
        count_where(f, lo, hi) == count_where(g, lo, hi),
    decreases hi - lo,
{
    if hi > lo {
        lemma_count_ext(f, g, lo, hi - 1);
    }
}

/// The first `n` steps of an unrotated rhythm hold `((n - 1) * h) / s + 1` hits.
proof fn lemma_euclid_prefix(h: int, s: int, n: int)
    requires
        1 <= h <= s,
        1 <= n <= s,
    ensures
        count_where(|i: int| euclid_base_hit(h, s, i), 0, n) == ((n - 1) * h) / s + 1,
    decreases n,
{
    let f = |i: int| euclid_base_hit(h, s, i);
    if n == 1 {
        assert(count_where(f, 0, 0) == 0);
        assert(0 * h == 0) by (nonlinear_arith);
        lemma_fundamental_div_mod_converse(0, s, 0, 0);
        assert(f(0));
    } else {
        lemma_euclid_prefix(h, s, n - 1);
        let x = (n - 2) * h;
        let y = (n - 1) * h;
        assert(y == x + h) by (nonlinear_arith)
            requires
                x == (n - 2) * h,
                y == (n - 1) * h,
        ;
        assert(x >= 0) by (nonlinear_arith)
            requires
                x == (n - 2) * h,
                n >= 2,
                h >= 1,
        ;
        lemma_fundamental_div_mod(y, s);
        let q = y / s;
        let r = y % s;
        assert(s * (q - 1) == s * q - s) by (nonlinear_arith);
        if r >= h {
            lemma_fundamental_div_mod_converse(x, s, q, r - h);
        } else {
            lemma_fundamental_div_mod_converse(x, s, q - 1, s + r - h);
        }
        assert(f(n - 1) == (r < h));
    }
}

/// An unrotated rhythm of `h` hits over `s` steps has exactly `h` hits.
pub proof fn lemma_euclid_base_count(h: int, s: int)
    requires
        1 <= h <= s,
    ensures
        count_where(|i: int| euclid_base_hit(h, s, i), 0, s) == h,
{
    lemma_euclid_prefix(h, s, s);
    assert((s - 1) * h == (h - 1) * s + (s - h)) by (nonlinear_arith);
    lemma_fundamental_div_mod_converse((s - 1) * h, s, h - 1, s - h);
}

/// Rotating a rhythm keeps its number of hits.
pub proof fn lemma_euclid_rotated_count(h: int, s: int, o: int)
    requires
        1 <= h <= s,
        0 <= o,
    ensures
        count_where(|j: int| euclid_base_hit(h, s, euclid_source_step(s, o, j)), 0, s) == h,
{
    let base = |i: int| euclid_base_hit(h, s, i);
    let g = |j: int| euclid_base_hit(h, s, euclid_source_step(s, o, j));
    let r = o % s;
    lemma_fundamental_div_mod(o, s);
    assert forall|j: int| 0 <= j < r implies #[trigger] g(j) == base(j + (s - r)) by {
        lemma_fundamental_div_mod_converse(j + s - r, s, 0, j + s - r);
    }
    lemma_count_shift(base, g, 0, r, s - r);
    assert forall|j: int| r <= j < s implies #[trigger] g(j) == base(j + (-r)) by {
        lemma_fundamental_div_mod_converse(j + s - r, s, 1, j - r);
    }
    lemma_count_shift(base, g, r, s, -r);
    lemma_count_split(g, 0, r, s);
    lemma_count_split(base, 0, s - r, s);
    lemma_euclid_base_count(h, s);
}

/// A euclidean pattern holds exactly as many hits as asked for, once the
/// hit count is clamped to the step count and both to `STEP_COUNT`.
pub proof fn lemma_euclid_hit_count(hits: int, steps: int, offset: int)
    requires
        1 <= hits,
        1 <= steps,
        0 <= offset,
    ensures
        count_where(|j: int| euclid_step(hits, steps, offset, j), 0, STEP_COUNT as int)
            == min_int(min_int(hits, steps), STEP_COUNT as int),
{
    let s = min_int(steps, STEP_COUNT as int);
    let h = min_int(min_int(hits, steps), STEP_COUNT as int);
    let p = |j: int| euclid_step(hits, steps, offset, j);
    let g = |j: int| euclid_base_hit(h, s, euclid_source_step(s, offset, j));
    lemma_count_split(p, 0, s, STEP_COUNT as int);
    lemma_count_ext(p, g, 0, s);
    lemma_count_ext(p, |j: int| false, s, STEP_COUNT as int);
    lemma_count_none(s, STEP_COUNT as int);
    lemma_euclid_rotated_count(h, s, offset);
}

/// Nothing satisfies the false predicate.
proof fn lemma_count_none(lo: int, hi: int)
    ensures
        count_where(|j: int| false, lo, hi) == 0,
    decreases hi - lo,
{
    if hi > lo {
        lemma_count_none(lo, hi - 1);
    }
}


/// Every field except the steps and velocities is the same in `g` and `h`.
pub open spec fn same_settings(g: DrumGrid, h: DrumGrid) -> bool {
    &&& g.enabled == h.enabled
    &&& g.active_pattern == h.active_pattern
    &&& g.pattern_clipboard == h.pattern_clipboard
    &&& g.muted == h.muted
    &&& g.soloed == h.soloed
    &&& g.euclid_on == h.euclid_on
    &&& g.euclid_hits == h.euclid_hits
    &&& g.euclid_steps == h.euclid_steps
    &&& g.euclid_offset == h.euclid_offset
    &&& g.expanded_channel == h.expanded_channel
    &&& g.current_step == h.current_step
}

/// Every field except the steps is the same in `g` and `h`.
pub open spec fn same_except_steps(g: DrumGrid, h: DrumGrid) -> bool {
    same_settings(g, h) && g.step_vel == h.step_vel
}

/// `h` is `g` with step `step` of lane `ch` of the active pattern flipped.
pub open spec fn toggles_step(g: DrumGrid, h: DrumGrid, ch: int, step: int) -> bool {
    &&& same_except_steps(g, h)
    &&& forall|p: int, c: int, s: int|
        0 <= p < 4 && 0 <= c < 8 && 0 <= s < 16 ==> #[trigger] h.patterns[p][c][s] == if p == g.active_pattern
            && c == ch && s == step {
            !g.patterns[p][c][s]
        } else {
            g.patterns[p][c][s]
        }
}

/// `h` is `g` with lane `ch` of the active pattern (steps and velocities)
/// played backwards.
pub open spec fn reverses_lane(g: DrumGrid, h: DrumGrid, ch: int) -> bool {
    &&& same_settings(g, h)
    &&& forall|p: int, c: int, s: int|
        0 <= p < 4 && 0 <= c < 8 && 0 <= s < 16 ==> #[trigger] h.patterns[p][c][s] == if p == g.active_pattern
            && c == ch {
            g.patterns[p][c][15 - s]
        } else {
            g.patterns[p][c][s]
        }
    &&& forall|p: int, c: int, s: int|
        0 <= p < 4 && 0 <= c < 8 && 0 <= s < 16 ==> #[trigger] h.step_vel[p][c][s] == if p == g.active_pattern
            && c == ch {
            g.step_vel[p][c][15 - s]
        } else {
            g.step_vel[p][c][s]
        }
}

/// `h` is `g` with the active pattern replaced by `pat`.
pub open spec fn sets_active_pattern(g: DrumGrid, h: DrumGrid, pat: [[bool; 16]; 8]) -> bool {
    &&& same_except_steps(g, h)
    &&& forall|p: int, c: int, s: int|
        0 <= p < 4 && 0 <= c < 8 && 0 <= s < 16 ==> #[trigger] h.patterns[p][c][s] == if p == g.active_pattern {
            pat[c][s]
        } else {
            g.patterns[p][c][s]
        }
}

/// `h` is `g` with the active pattern stored on the clipboard.
pub open spec fn copies_pattern(g: DrumGrid, h: DrumGrid) -> bool {
    h == (DrumGrid { pattern_clipboard: Some(g.patterns[g.active_pattern as int]), ..g })
}

/// `h` is `g` with the clipboard pasted over the active pattern, or `g`
/// itself when the clipboard is empty.
pub open spec fn pastes_pattern(g: DrumGrid, h: DrumGrid) -> bool {
    match g.pattern_clipboard {
        Some(clip) => sets_active_pattern(g, h, clip),
        None => h == g,
    }
}

/// `h` is `g` with every step of the active pattern off.
pub open spec fn clears_active_pattern(g: DrumGrid, h: DrumGrid) -> bool {
    &&& same_except_steps(g, h)
    &&& forall|p: int, c: int, s: int|
        0 <= p < 4 && 0 <= c < 8 && 0 <= s < 16 ==> #[trigger] h.patterns[p][c][s] == if p == g.active_pattern {
            false
        } else {
            g.patterns[p][c][s]
        }
}

/// Some lane is soloed.
pub open spec fn any_soloed(g: DrumGrid) -> bool {
    exists|i: int| 0 <= i < 8 && #[trigger] g.soloed[i]
}

/// Lane `ch` is silent: muted itself, or another lane is soloed and it is not.
pub open spec fn lane_silenced(g: DrumGrid, ch: int) -> bool {
    g.muted[ch] || (any_soloed(g) && !g.soloed[ch])
}

/// `h` is `g` with every lane whose euclidean generator is on refilled, in
/// the active pattern, from its hits / steps / offset settings.
pub open spec fn applies_euclid(g: DrumGrid, h: DrumGrid) -> bool {
    &&& same_except_steps(g, h)
    &&& forall|p: int, c: int, s: int|
        0 <= p < 4 && 0 <= c < 8 && 0 <= s < 16 ==> #[trigger] h.patterns[p][c][s] == if p == g.active_pattern
            && g.euclid_on[c] {
            euclid_step(g.euclid_hits[c] as int, g.euclid_steps[c] as int, g.euclid_offset[c] as int, s)
        } else {
            g.patterns[p][c][s]
        }
}

/// One step of the lane randomizer's linear congruential generator.
pub open spec fn lcg_next(x: int) -> int {
    (x * 1664525 + 1013904223) % 0x1_0000_0000
}

/// Generator state after `n` steps from `seed`.
pub open spec fn lcg_state(seed: int, n: nat) -> int
    decreases n,
{
    if n == 0 {
        seed
    } else {
        lcg_next(lcg_state(seed, (n - 1) as nat))
    }
}

/// Seed of lane `ch` for the sub-second nanoseconds `nanos` of the clock.
pub open spec fn lane_seed(nanos: u32, ch: int) -> int {
    (nanos + ch * 2891336453) % 0x1_0000_0000
}

/// Step `s` of a randomized lane is on when the top bit of the generator
/// state after `s + 1` steps is set.
pub open spec fn random_step_on(seed: int, s: int) -> bool {
    lcg_state(seed, (s + 1) as nat) >= 0x8000_0000
}

/// `h` is `g` with lane `ch` of the active pattern refilled by the
/// generator seeded from `nanos`.
pub open spec fn randomizes_lane(g: DrumGrid, h: DrumGrid, ch: int, nanos: u32) -> bool {
    &&& same_except_steps(g, h)
    &&& forall|p: int, c: int, s: int|
        0 <= p < 4 && 0 <= c < 8 && 0 <= s < 16 ==> #[trigger] h.patterns[p][c][s] == if p == g.active_pattern
            && c == ch {
            random_step_on(lane_seed(nanos, ch), s)
        } else {
            g.patterns[p][c][s]
        }
}

/// `x.wrapping_mul(a).wrapping_add(b)` on `u32` is `(x * a + b) mod 2^32`.
proof fn lemma_u32_mul_add_wrapping(x: u32, a: u32, b: u32)
    ensures
        vstd::wrapping::u32_specs::wrapping_add(vstd::wrapping::u32_specs::wrapping_mul(x, a), b) as int == (
        x * a + b) % 0x1_0000_0000,
{
    let m: int = 0x1_0000_0000;
    let xa = vstd::wrapping::u32_specs::wrapping_mul(x, a);
    assert(x * a >= 0) by (nonlinear_arith);
    lemma_fundamental_div_mod(x * a, m);
    assert(xa as int == (x * a) % m);
    vstd::arithmetic::div_mod::lemma_add_mod_noop(x * a, b as int, m);
    lemma_fundamental_div_mod_converse(b as int, m, 0, b as int);
    if xa + b > u32::MAX {
        lemma_fundamental_div_mod_converse(xa + b, m, 1, xa + b - m);
    } else {
        lemma_fundamental_div_mod_converse(xa + b, m, 0, xa + b);
    }
}

/// `x.wrapping_add(c.wrapping_mul(k))` on `u32` is `(x + c * k) mod 2^32`.
proof fn lemma_u32_add_mul_wrapping(x: u32, c: u32, k: u32)
    ensures
        vstd::wrapping::u32_specs::wrapping_add(x, vstd::wrapping::u32_specs::wrapping_mul(c, k)) as int == (
        x + c * k) % 0x1_0000_0000,
{
    let m: int = 0x1_0000_0000;
    let ck = vstd::wrapping::u32_specs::wrapping_mul(c, k);
    assert(c * k >= 0) by (nonlinear_arith);
    lemma_fundamental_div_mod(c * k, m);
    vstd::arithmetic::div_mod::lemma_add_mod_noop(x as int, c * k, m);
    lemma_fundamental_div_mod_converse(x as int, m, 0, x as int);
    if x + ck > u32::MAX {
        lemma_fundamental_div_mod_converse(x + ck, m, 1, x + ck - m);
    } else {
        lemma_fundamental_div_mod_converse(x + ck, m, 0, x + ck);
    }
}

/// Step `s` of lane `c` of pattern `p` in a fresh grid: a four-on-the-floor
/// kick, snare on 5 and 13 and eighth-note hats in pattern A.
pub open spec fn default_step_on(p: int, c: int, s: int) -> bool {
    p == 0 && ((c == 0 && s % 4 == 0) || (c == 1 && (s == 4 || s == 12)) || (c == 2 && s % 2 == 0))
}

/// Names of the factory kits, in the order the kit browser lists them.
pub const FACTORY_KIT_NAMES: [&'static str; 3] = ["Four-on-Floor", "Breakbeat", "Minimal"];

/// Step `s` of lane `c` of pattern `p` in factory kit `kit`; only pattern A
/// holds steps. Four-on-Floor is the fresh grid's beat; Breakbeat has kicks
/// on 1, 7, 10 and 15, snares on 5, 13 and 15, hats on every step and claps
/// on 5 and 13; Minimal has kicks on 1 and 9, snares on 5 and 13 and
/// off-beat hats on 3, 7, 11 and 15.
pub open spec fn factory_step_on(kit: int, p: int, c: int, s: int) -> bool {
    if kit == 0 {
        default_step_on(p, c, s)
    } else if kit == 1 {
        p == 0 && ((c == 0 && (s == 0 || s == 6 || s == 9 || s == 14)) || (c == 1 && (s == 4 || s == 12 || s == 14))
            || c == 2 || (c == 3 && (s == 4 || s == 12)))
    } else {
        p == 0 && ((c == 0 && (s == 0 || s == 8)) || (c == 1 && (s == 4 || s == 12)) || (c == 2 && (s == 2 || s == 6
            || s == 10 || s == 14)))
    }
}

/// The step patterns of factory kit `kit` (an index into
/// `FACTORY_KIT_NAMES`); every factory kit plays all steps at velocity 100.
pub fn factory_kit_steps(kit: usize) -> (r: ([[[bool; 16]; 8]; 4], [[[u8; 16]; 8]; 4]))
    requires
        kit < 3,
    ensures
        forall|p: int, c: int, s: int|
            0 <= p < 4 && 0 <= c < 8 && 0 <= s < 16 ==> #[trigger] r.0[p][c][s] == factory_step_on(kit as int, p, c, s),
        forall|p: int, c: int, s: int| 0 <= p < 4 && 0 <= c < 8 && 0 <= s < 16 ==> #[trigger] r.1[p][c][s] == 100,
{
    let mut patterns = [[[false; 16]; 8]; 4];
    if kit == 0 {
        patterns[0][0][0] = true;
        patterns[0][0][4] = true;
        patterns[0][0][8] = true;
        patterns[0][0][12] = true;
        patterns[0][1][4] = true;
        patterns[0][1][12] = true;
    } else if kit == 1 {
        patterns[0][0][0] = true;
        patterns[0][0][6] = true;
        patterns[0][0][9] = true;
        patterns[0][0][14] = true;
        patterns[0][1][4] = true;
        patterns[0][1][12] = true;
        patterns[0][1][14] = true;
        patterns[0][3][4] = true;
        patterns[0][3][12] = true;
    } else {
        patterns[0][0][0] = true;
        patterns[0][0][8] = true;
        patterns[0][1][4] = true;
        patterns[0][1][12] = true;
        patterns[0][2][2] = true;
        patterns[0][2][6] = true;
        patterns[0][2][10] = true;
        patterns[0][2][14] = true;
    }
    let mut i: usize = 0;
    while i < STEP_COUNT
        invariant
            i <= STEP_COUNT,
            kit < 3,
            forall|p: int, c: int, s: int|
                0 <= p < 4 && 0 <= c < 8 && 0 <= s < 16 ==> #[trigger] patterns[p][c][s] == if p == 0 && c == 2 && kit < 2 {
                    s < i && factory_step_on(kit as int, p, c, s)
                } else {
                    factory_step_on(kit as int, p, c, s)
                },
        decreases STEP_COUNT - i,
    {
        if kit == 1 || (kit == 0 && i % 2 == 0) {
            patterns[0][2][i] = true;
        }
        i = i + 1;
    }
    (patterns, [[[100u8; 16]; 8]; 4])
}

/// Two step grids with the same cells are equal.
pub proof fn lemma_patterns_eq(a: [[[bool; 16]; 8]; 4], b: [[[bool; 16]; 8]; 4])
    requires
        forall|p: int, c: int, s: int| 0 <= p < 4 && 0 <= c < 8 && 0 <= s < 16 ==> #[trigger] a[p][c][s] == b[p][c][s],
    ensures
        a == b,
{
    assert forall|p: int| 0 <= p < 4 implies #[trigger] a[p] == b[p] by {
        assert forall|c: int| 0 <= c < 8 implies #[trigger] a[p][c] == b[p][c] by {
            assert(a[p][c] =~= b[p][c]);
        }
        assert(a[p] =~= b[p]);
    }
    assert(a =~= b);
}

/// Two velocity grids with the same cells are equal.
pub proof fn lemma_velocities_eq(a: [[[u8; 16]; 8]; 4], b: [[[u8; 16]; 8]; 4])
    requires
        forall|p: int, c: int, s: int| 0 <= p < 4 && 0 <= c < 8 && 0 <= s < 16 ==> #[trigger] a[p][c][s] == b[p][c][s],
    ensures
        a == b,
{
    assert forall|p: int| 0 <= p < 4 implies #[trigger] a[p] == b[p] by {
        assert forall|c: int| 0 <= c < 8 implies #[trigger] a[p][c] == b[p][c] by {
            assert(a[p][c] =~= b[p][c]);
        }
        assert(a[p] =~= b[p]);
    }
    assert(a =~= b);
}

/// Flipping the same step twice gives back the grid.
pub proof fn lemma_toggle_step_twice(g: DrumGrid, h: DrumGrid, k: DrumGrid, ch: int, step: int)
    requires
        toggles_step(g, h, ch, step),
        toggles_step(h, k, ch, step),
    ensures
        k == g,
{
    assert forall|p: int, c: int, s: int| 0 <= p < 4 && 0 <= c < 8 && 0 <= s < 16 implies #[trigger] k.patterns[p][c][s]
        == g.patterns[p][c][s] by {
        assert(h.patterns[p][c][s] == if p == g.active_pattern && c == ch && s == step {
            !g.patterns[p][c][s]
        } else {
            g.patterns[p][c][s]
        });
    }
    lemma_patterns_eq(k.patterns, g.patterns);
}

/// Reversing the same lane twice gives back the grid.
pub proof fn lemma_reverse_lane_twice(g: DrumGrid, h: DrumGrid, k: DrumGrid, ch: int)
    requires
        reverses_lane(g, h, ch),
        reverses_lane(h, k, ch),
    ensures
        k == g,
{
    assert forall|p: int, c: int, s: int| 0 <= p < 4 && 0 <= c < 8 && 0 <= s < 16 implies #[trigger] k.patterns[p][c][s]
        == g.patterns[p][c][s] by {
        assert(h.patterns[p][c][15 - s] == if p == g.active_pattern && c == ch {
            g.patterns[p][c][15 - (15 - s)]
        } else {
            g.patterns[p][c][15 - s]
        });
        assert(h.patterns[p][c][s] == if p == g.active_pattern && c == ch {
            g.patterns[p][c][15 - s]
        } else {
            g.patterns[p][c][s]
        });
    }
    assert forall|p: int, c: int, s: int| 0 <= p < 4 && 0 <= c < 8 && 0 <= s < 16 implies #[trigger] k.step_vel[p][c][s]
        == g.step_vel[p][c][s] by {
        assert(h.step_vel[p][c][15 - s] == if p == g.active_pattern && c == ch {
            g.step_vel[p][c][15 - (15 - s)]
        } else {
            g.step_vel[p][c][15 - s]
        });
        assert(h.step_vel[p][c][s] == if p == g.active_pattern && c == ch {
            g.step_vel[p][c][15 - s]
        } else {
            g.step_vel[p][c][s]
        });
    }
    lemma_patterns_eq(k.patterns, g.patterns);
    lemma_velocities_eq(k.step_vel, g.step_vel);
}

/// Pasting after copying restores the copied pattern, whatever was edited
/// in between, as long as the clipboard and the pattern selection stayed.
pub proof fn lemma_copy_then_paste(g: DrumGrid, h: DrumGrid, edited: DrumGrid, k: DrumGrid)
    requires
        g.wf(),
        copies_pattern(g, h),
        edited.pattern_clipboard == h.pattern_clipboard,
        edited.active_pattern == g.active_pattern,
        pastes_pattern(edited, k),
    ensures
        k.patterns[g.active_pattern as int] == g.patterns[g.active_pattern as int],
{
    let a = g.active_pattern as int;
    assert forall|c: int| 0 <= c < 8 implies #[trigger] k.patterns[a][c] == g.patterns[a][c] by {
        assert(k.patterns[a][c] =~= g.patterns[a][c]);
    }
    assert(k.patterns[a] =~= g.patterns[a]);
}

/// With no lane soloed, a lane is silent exactly when it is muted; a
/// soloed lane that is not muted always sounds.
pub proof fn lemma_solo_and_mute(g: DrumGrid, ch: int)
    requires
        0 <= ch < 8,
    ensures
        !any_soloed(g) ==> (lane_silenced(g, ch) == g.muted[ch]),
        g.soloed[ch] && !g.muted[ch] ==> !lane_silenced(g, ch),
{
}

/// A kit saved from a grid and applied back gives the grid again, with
/// pattern A selected.
pub proof fn lemma_kit_round_trip(g: DrumGrid, saved: ([[[bool; 16]; 8]; 4], [[[u8; 16]; 8]; 4]), h: DrumGrid)
    requires
        saved.0 == g.patterns,
        saved.1 == g.step_vel,
        h == (DrumGrid { patterns: saved.0, step_vel: saved.1, active_pattern: 0, ..g }),
    ensures
        h == (DrumGrid { active_pattern: 0, ..g }),
        h.wf(),
{
}

/// A lane that is not soloed is silenced as soon as any other of the eight
/// lanes is soloed; a lane that is neither muted nor outranked by a solo
/// sounds.
pub proof fn lemma_other_solo_silences(g: DrumGrid, ch: int, c: int)
    requires
        0 <= ch < 8,
        0 <= c < 8,
        c != ch,
        g.soloed[c],
        !g.soloed[ch],
    ensures
        lane_silenced(g, ch),
{
    assert(g.soloed[c]);
}

impl Default for DrumGrid {
    /// A stopped machine with a basic beat in pattern A, every velocity at
    /// 100 and the euclidean generators off at 4 hits over 16 steps.
    fn default() -> (g: Self)
        ensures
            g.wf(),
            !g.enabled,
            g.active_pattern == 0,
            g.pattern_clipboard is None,
            g.expanded_channel is None,
            g.current_step == 0,
            forall|p: int, c: int, s: int|
                0 <= p < 4 && 0 <= c < 8 && 0 <= s < 16 ==> #[trigger] g.patterns[p][c][s] == default_step_on(p, c, s),
            forall|p: int, c: int, s: int| 0 <= p < 4 && 0 <= c < 8 && 0 <= s < 16 ==> #[trigger] g.step_vel[p][c][s] == 100,
            forall|c: int|
                0 <= c < 8 ==> !#[trigger] g.muted[c] && !g.soloed[c] && !g.euclid_on[c] && g.euclid_hits[c] == 4
                    && g.euclid_steps[c] == 16 && g.euclid_offset[c] == 0,
    {
        let mut patterns = [[[false; 16]; 8]; 4];
        patterns[0][0][0] = true;
        patterns[0][0][4] = true;
        patterns[0][0][8] = true;
        patterns[0][0][12] = true;
        patterns[0][1][4] = true;
        patterns[0][1][12] = true;
        let mut i: usize = 0;
        while i < STEP_COUNT
            invariant
                i <= STEP_COUNT,
                forall|p: int, c: int, s: int|
                    0 <= p < 4 && 0 <= c < 8 && 0 <= s < 16 ==> #[trigger] patterns[p][c][s] == if p == 0 && c == 2 {
                        s < i && s % 2 == 0
                    } else {
                        default_step_on(p, c, s)
                    },
            decreases STEP_COUNT - i,
        {
            if i % 2 == 0 {
                patterns[0][2][i] = true;
            }
            i = i + 1;
        }
        DrumGrid {
            enabled: false,
            patterns,
            step_vel: [[[100u8; 16]; 8]; 4],
            active_pattern: 0,
            pattern_clipboard: None,
            muted: [false; 8],
            soloed: [false; 8],
            euclid_on: [false; 8],
            euclid_hits: [4; 8],
            euclid_steps: [16; 8],
            euclid_offset: [0; 8],
            expanded_channel: None,
            current_step: 0,
        }
    }
}

impl DrumGrid {
    /// The active pattern index names one of the patterns.
    pub open spec fn wf(&self) -> bool {
        self.active_pattern < PATTERN_COUNT
    }

    /// Flip step `step` of lane `ch` in the active pattern.
    pub fn toggle_step(&mut self, ch: usize, step: usize)
        requires
            old(self).wf(),
            ch < CHANNEL_COUNT,
            step < STEP_COUNT,
        ensures
            toggles_step(*old(self), *final(self), ch as int, step as int),
    {
        let p = self.active_pattern;
        let active = self.patterns[p][ch][step];
        self.patterns[p][ch][step] = !active;
    }

    /// Make pattern `p` (0–3, A–D) the one being edited.
    pub fn select_pattern(&mut self, p: usize)
        requires
            p < PATTERN_COUNT,
        ensures
            final(self).wf(),
            *final(self) == (DrumGrid { active_pattern: p, ..*old(self) }),
    {
        self.active_pattern = p;
    }

    /// A click on lane `ch`'s name: open its voice editor, or close it when
    /// it is the one open.
    pub fn toggle_voice_editor(&mut self, ch: usize)
        ensures
            *final(self) == (DrumGrid {
                expanded_channel: if old(self).expanded_channel == Some(ch) {
                    None
                } else {
                    Some(ch)
                },
                ..*old(self)
            }),
    {
        let expanded = match self.expanded_channel {
            Some(open) => open == ch,
            None => false,
        };
        self.expanded_channel = if expanded { None } else { Some(ch) };
    }

    /// Collapse the open voice editor.
    pub fn close_voice_editor(&mut self)
        ensures
            *final(self) == (DrumGrid { expanded_channel: None, ..*old(self) }),
    {
        self.expanded_channel = None;
    }

    /// Load the steps and velocities of a kit; editing restarts on pattern A.
    pub fn apply_kit_steps(&mut self, patterns: [[[bool; 16]; 8]; 4], step_vel: [[[u8; 16]; 8]; 4])
        ensures
            final(self).wf(),
            *final(self) == (DrumGrid { patterns, step_vel, active_pattern: 0, ..*old(self) }),
    {
        self.patterns = patterns;
        self.step_vel = step_vel;
        self.active_pattern = 0;
    }

    /// The step part of a kit saved from this grid: all patterns and their
    /// velocities.
    pub fn kit_steps(&self) -> (r: ([[[bool; 16]; 8]; 4], [[[u8; 16]; 8]; 4]))
        ensures
            r.0 == self.patterns,
            r.1 == self.step_vel,
    {
        (self.patterns, self.step_vel)
    }

    /// Store the active pattern on the clipboard.
    pub fn copy_pattern(&mut self)
        requires
            old(self).wf(),
        ensures
            copies_pattern(*old(self), *final(self)),
    {
        self.pattern_clipboard = Some(self.patterns[self.active_pattern]);
    }

    /// Replace the active pattern with the clipboard, if it holds one.
    pub fn paste_pattern(&mut self)
        requires
            old(self).wf(),
        ensures
            pastes_pattern(*old(self), *final(self)),
    {
        if let Some(clip) = self.pattern_clipboard {
            self.patterns[self.active_pattern] = clip;
        }
    }

    /// Clear every step of the active pattern.
    pub fn clear_pattern(&mut self)
        requires
            old(self).wf(),
        ensures
            clears_active_pattern(*old(self), *final(self)),
    {
        self.patterns[self.active_pattern] = [[false; 16]; 8];
    }

    /// Whether lane `ch` is silent: muted, or another lane is soloed and
    /// this one is not.
    pub fn effectively_muted(&self, ch: usize) -> (r: bool)
        requires
            ch < CHANNEL_COUNT,
        ensures
            r == lane_silenced(*self, ch as int),
    {
        let mut soloed_any = false;
        let mut i: usize = 0;
        while i < CHANNEL_COUNT
            invariant
                i <= CHANNEL_COUNT,
                soloed_any == exists|k: int| 0 <= k < i && #[trigger] self.soloed[k],
            decreases CHANNEL_COUNT - i,
        {
            if self.soloed[i] {
                soloed_any = true;
            }
            i = i + 1;
        }
        self.muted[ch] || (soloed_any && !self.soloed[ch])
    }

    /// Flip the mute switch of lane `ch`.
    pub fn toggle_mute(&mut self, ch: usize)
        requires
            ch < CHANNEL_COUNT,
        ensures
            *final(self) == (DrumGrid { muted: final(self).muted, ..*old(self) }),
            final(self).muted@ == old(self).muted@.update(ch as int, !old(self).muted[ch as int]),
    {
        let muted = self.muted[ch];
        self.muted[ch] = !muted;
    }

    /// Flip the solo switch of lane `ch`.
    pub fn toggle_solo(&mut self, ch: usize)
        requires
            ch < CHANNEL_COUNT,
        ensures
            *final(self) == (DrumGrid { soloed: final(self).soloed, ..*old(self) }),
            final(self).soloed@ == old(self).soloed@.update(ch as int, !old(self).soloed[ch as int]),
    {
        let soloed = self.soloed[ch];
        self.soloed[ch] = !soloed;
    }

    /// Flip the euclidean generator switch of lane `ch`.
    pub fn toggle_euclid(&mut self, ch: usize)
        requires
            ch < CHANNEL_COUNT,
        ensures
            *final(self) == (DrumGrid { euclid_on: final(self).euclid_on, ..*old(self) }),
            final(self).euclid_on@ == old(self).euclid_on@.update(ch as int, !old(self).euclid_on[ch as int]),
    {
        let on = self.euclid_on[ch];
        self.euclid_on[ch] = !on;
    }

    /// Set the euclidean hit count of lane `ch`.
    pub fn set_euclid_hits(&mut self, ch: usize, hits: u8)
        requires
            ch < CHANNEL_COUNT,
        ensures
            *final(self) == (DrumGrid { euclid_hits: final(self).euclid_hits, ..*old(self) }),
            final(self).euclid_hits@ == old(self).euclid_hits@.update(ch as int, hits),
    {
        self.euclid_hits[ch] = hits;
    }

    /// Set the euclidean step count of lane `ch`; the hit count is lowered
    /// to the new step count when it exceeds it.
    pub fn set_euclid_steps(&mut self, ch: usize, steps: u8)
        requires
            ch < CHANNEL_COUNT,
        ensures
            *final(self) == (DrumGrid {
                euclid_steps: final(self).euclid_steps,
                euclid_hits: final(self).euclid_hits,
                ..*old(self)
            }),
            final(self).euclid_steps@ == old(self).euclid_steps@.update(ch as int, steps),
            final(self).euclid_hits@ == old(self).euclid_hits@.update(
                ch as int,
                if old(self).euclid_hits[ch as int] < steps { old(self).euclid_hits[ch as int] } else { steps },
            ),
    {
        self.euclid_steps[ch] = steps;
        let hits = self.euclid_hits[ch];
        self.euclid_hits[ch] = if hits < steps { hits } else { steps };
    }

    /// Set the euclidean rotation of lane `ch`.
    pub fn set_euclid_offset(&mut self, ch: usize, offset: u8)
        requires
            ch < CHANNEL_COUNT,
        ensures
            *final(self) == (DrumGrid { euclid_offset: final(self).euclid_offset, ..*old(self) }),
            final(self).euclid_offset@ == old(self).euclid_offset@.update(ch as int, offset),
    {
        self.euclid_offset[ch] = offset;
    }

    /// Refill, in the active pattern, every lane whose euclidean generator
    /// is on.
    pub fn apply_euclid(&mut self)
        requires
            old(self).wf(),
        ensures
            applies_euclid(*old(self), *final(self)),
    {
        let p = self.active_pattern;
        let mut ch: usize = 0;
        while ch < CHANNEL_COUNT
            invariant
                ch <= CHANNEL_COUNT,
                p == old(self).active_pattern,
                p < 4,
                same_except_steps(*old(self), *self),
                forall|q: int, c: int, s: int|
                    0 <= q < 4 && 0 <= c < 8 && 0 <= s < 16 ==> #[trigger] self.patterns[q][c][s] == if q == p
                        && c < ch && old(self).euclid_on[c] {
                        euclid_step(
                            old(self).euclid_hits[c] as int,
                            old(self).euclid_steps[c] as int,
                            old(self).euclid_offset[c] as int,
                            s,
                        )
                    } else {
                        old(self).patterns[q][c][s]
                    },
            decreases CHANNEL_COUNT - ch,
        {
            if self.euclid_on[ch] {
                let hits = self.euclid_hits[ch] as usize;
                let steps = self.euclid_steps[ch] as usize;
                let off = self.euclid_offset[ch] as usize;
                self.patterns[p][ch] = euclidean_pattern(hits, steps, off);
            }
            ch = ch + 1;
        }
    }

    /// Randomize lane `ch` of the active pattern (about half the steps on),
    /// from a linear congruential generator seeded with the sub-second
    /// nanoseconds `nanos` of the clock and the lane number.
    pub fn randomize_lane(&mut self, ch: usize, nanos: u32)
        requires
            old(self).wf(),
            ch < CHANNEL_COUNT,
        ensures
            randomizes_lane(*old(self), *final(self), ch as int, nanos),
    {
        let p = self.active_pattern;
        let seed = nanos.wrapping_add((ch as u32).wrapping_mul(2891336453u32));
        proof {
            lemma_u32_add_mul_wrapping(nanos, ch as u32, 2891336453u32);
        }
        let mut rng = seed;
        let mut step: usize = 0;
        while step < STEP_COUNT
            invariant
                step <= STEP_COUNT,
                p == old(self).active_pattern,
                p < 4,
                ch < 8,
                seed == lane_seed(nanos, ch as int),
                rng == lcg_state(seed as int, step as nat),
                same_except_steps(*old(self), *self),
                forall|q: int, c: int, s: int|
                    0 <= q < 4 && 0 <= c < 8 && 0 <= s < 16 ==> #[trigger] self.patterns[q][c][s] == if q == p
                        && c == ch && s < step {
                        random_step_on(seed as int, s)
                    } else {
                        old(self).patterns[q][c][s]
                    },
            decreases STEP_COUNT - step,
        {
            proof {
                lemma_u32_mul_add_wrapping(rng, 1_664_525u32, 1_013_904_223u32);
            }
            rng = rng.wrapping_mul(1_664_525).wrapping_add(1_013_904_223);
            assert(rng == lcg_state(seed as int, (step + 1) as nat));
            let on = (rng >> 31) != 0;
            assert(on == (rng >= 0x8000_0000u32)) by (bit_vector)
                requires
                    on == ((rng >> 31) != 0),
            ;
            self.patterns[p][ch][step] = on;
            step = step + 1;
        }
    }

    /// Play lane `ch` of the active pattern backwards (steps and velocities).
    pub fn reverse_lane(&mut self, ch: usize)
        requires
            old(self).wf(),
            ch < CHANNEL_COUNT,
        ensures
            reverses_lane(*old(self), *final(self), ch as int),
    {
        let p = self.active_pattern;
        let steps = self.patterns[p][ch];
        let vels = self.step_vel[p][ch];
        let mut s: usize = 0;
        while s < STEP_COUNT
            invariant
                s <= STEP_COUNT,
                p == old(self).active_pattern,
                p < 4,
                ch < 8,
                steps == old(self).patterns[p as int][ch as int],
                vels == old(self).step_vel[p as int][ch as int],
                same_settings(*old(self), *self),
                forall|q: int, c: int, t: int|
                    0 <= q < 4 && 0 <= c < 8 && 0 <= t < 16 ==> #[trigger] self.patterns[q][c][t] == if q == p
                        && c == ch && t < s {
                        old(self).patterns[q][c][15 - t]
                    } else {
                        old(self).patterns[q][c][t]
                    },
                forall|q: int, c: int, t: int|
                    0 <= q < 4 && 0 <= c < 8 && 0 <= t < 16 ==> #[trigger] self.step_vel[q][c][t] == if q == p
                        && c == ch && t < s {
                        old(self).step_vel[q][c][15 - t]
                    } else {
                        old(self).step_vel[q][c][t]
                    },
            decreases STEP_COUNT - s,
        {
            self.patterns[p][ch][s] = steps[15 - s];
            self.step_vel[p][ch][s] = vels[15 - s];
            s = s + 1;
        }
    }
}

} // verus!