//! Per-component fade interpolation.
//!
//! A fade from `start` to `target` over `ticks` ticks advances each 8-bit
//! component by the base step `|target - start| / ticks` per tick and
//! distributes the remainder uniformly with a Bresenham-style error term, so
//! that the component reaches `target` exactly on the last tick and moves
//! monotonically in between.

use vstd::prelude::*;

use vstd::arithmetic::div_mod::{
    lemma_div_is_ordered, lemma_fundamental_div_mod, lemma_fundamental_div_mod_converse,
};
use vstd::arithmetic::mul::lemma_mul_inequality;

verus! {

/// The largest tick count a fade accepts. The error term works on
/// `2 * ticks`, and `2 * MAX_FADE_TICKS` must stay well inside the 64-bit
/// `dx`/`dy` fields and the signed `fraction`; the bound also keeps
/// `ticks as int` arithmetic far from any overflow. At 20 ticks a second it
/// still allows fades of over a year.
pub const MAX_FADE_TICKS: usize = 0x4000_0000;

/// Distance between the start and target components.
pub open spec fn fade_amp(s: u8, e: u8) -> int {
    if e >= s {
        e - s
    } else {
        s - e
    }
}

/// How many of the remainder units have been applied after `k` ticks:
/// the rounded share `(amp % ticks) * k / ticks`.
pub open spec fn fade_extras(s: u8, e: u8, ticks: int, k: int) -> int {
    (2 * (fade_amp(s, e) % ticks) * k + ticks) / (2 * ticks)
}

/// The component value after `k` of `ticks` ticks.
pub open spec fn fade_value_at(s: u8, e: u8, ticks: int, k: int) -> int {
    if e > s {
        s + (fade_amp(s, e) / ticks) * k + fade_extras(s, e, ticks, k)
    } else {
        s - (fade_amp(s, e) / ticks) * k - fade_extras(s, e, ticks, k)
    }
}

/// The error term after `k` ticks.
pub open spec fn fade_fraction_at(s: u8, e: u8, ticks: int, k: int) -> int {
    2 * (fade_amp(s, e) % ticks) * (k + 1) - ticks - 2 * ticks * fade_extras(s, e, ticks, k)
}

/// Division of `m + a` by `d` steps by one exactly when the remainder of `m`
/// overflows.
proof fn lemma_div_add_small(m: int, a: int, d: int)
    requires
        d > 0,
        0 <= a < d,
        0 <= m,
    ensures
        (m + a) / d == m / d + if (m % d) + a >= d {
            1int
        } else {
            0int
        },
{
    lemma_fundamental_div_mod(m, d);
    let q = m / d;
    let s = m % d;
    assert(d * q == q * d) by (nonlinear_arith);
    if s + a < d {
        lemma_fundamental_div_mod_converse(m + a, d, q, s + a);
    } else {
        assert(m + a == (q + 1) * d + (s + a - d)) by (nonlinear_arith)
            requires
                m == q * d + s,
        ;
        lemma_fundamental_div_mod_converse(m + a, d, q + 1, s + a - d);
    }
}

/// The error term decides the extra unit: `extras` counts the ticks whose
/// error term was nonnegative.
pub proof fn lemma_fade_extras_step(s: u8, e: u8, ticks: int, k: int)
    requires
        ticks >= 1,
        k >= 0,
    ensures
        fade_extras(s, e, ticks, k + 1) == fade_extras(s, e, ticks, k) + if fade_fraction_at(
            s,
            e,
            ticks,
            k,
        ) >= 0 {
            1int
        } else {
            0int
        },
{
    let r = fade_amp(s, e) % ticks;
    let d = 2 * ticks;
    let m = 2 * r * k + ticks;
    assert(0 <= r < ticks) by {
        vstd::arithmetic::div_mod::lemma_mod_bound(fade_amp(s, e), ticks);
    }
    assert(0 <= 2 * r < d);
    assert(m >= 0) by (nonlinear_arith)
        requires
            r >= 0,
            k >= 0,
            ticks >= 1,
            m == 2 * r * k + ticks,
    ;
    lemma_div_add_small(m, 2 * r, d);
    assert(2 * r * (k + 1) + ticks == m + 2 * r) by (nonlinear_arith)
        requires
            m == 2 * r * k + ticks,
    ;
    assert(fade_extras(s, e, ticks, k + 1) == (m + 2 * r) / d);
    // Link the branch condition to the error term.
    lemma_fundamental_div_mod(m, d);
    let q = m / d;
    let sm = m % d;
    assert(d * q == q * d) by (nonlinear_arith);
    assert(fade_fraction_at(s, e, ticks, k) == 2 * r * (k + 1) - ticks - d * q) by (nonlinear_arith)
        requires
            d == 2 * ticks,
            q == fade_extras(s, e, ticks, k),
            fade_fraction_at(s, e, ticks, k) == 2 * (fade_amp(s, e) % ticks) * (k + 1) - ticks - 2
                * ticks * fade_extras(s, e, ticks, k),
            r == fade_amp(s, e) % ticks,
    ;
    assert(2 * r * (k + 1) == m + 2 * r - ticks);
    assert(fade_fraction_at(s, e, ticks, k) == sm + 2 * r - d) by (nonlinear_arith)
        requires
            fade_fraction_at(s, e, ticks, k) == (m + 2 * r - ticks) - ticks - d * q,
            m == q * d + sm,
            d == 2 * ticks,
    ;
    assert((fade_fraction_at(s, e, ticks, k) >= 0) == (sm + 2 * r >= d));
}

/// Bounds on the extras and the error term while the fade runs.
pub proof fn lemma_fade_extras_bounds(s: u8, e: u8, ticks: int, k: int)
    requires
        ticks >= 1,
        0 <= k <= ticks,
    ensures
        0 <= fade_extras(s, e, ticks, k),
        fade_extras(s, e, ticks, k) <= fade_amp(s, e) % ticks,
        k == 0 ==> fade_extras(s, e, ticks, k) == 0,
        k == ticks ==> fade_extras(s, e, ticks, k) == fade_amp(s, e) % ticks,
        - 2 * ticks <= fade_fraction_at(s, e, ticks, k) < 2 * ticks,
{
    let r = fade_amp(s, e) % ticks;
    let d = 2 * ticks;
    let m = 2 * r * k + ticks;
    assert(0 <= r < ticks) by {
        vstd::arithmetic::div_mod::lemma_mod_bound(fade_amp(s, e), ticks);
    }
    assert(m >= ticks) by (nonlinear_arith)
        requires
            r >= 0,
            k >= 0,
            ticks >= 1,
            m == 2 * r * k + ticks,
    ;
    if k == 0 {
        assert(m == ticks);
        lemma_fundamental_div_mod_converse(m, d, 0, ticks);
    }
    if k == ticks {
        assert(m == r * d + ticks) by (nonlinear_arith)
            requires
                m == 2 * r * ticks + ticks,
                d == 2 * ticks,
        ;
        lemma_fundamental_div_mod_converse(m, d, r, ticks);
    }
    // 0 <= extras
    lemma_div_is_ordered(0, m, d);
    // extras <= r: m <= 2*r*ticks + ticks <= r*d + (d - 1) since ticks <= 2*ticks - 1
    assert(m <= r * d + d - 1) by (nonlinear_arith)
        requires
            m == 2 * r * k + ticks,
            d == 2 * ticks,
            k <= ticks,
            r >= 0,
            ticks >= 1,
    ;
    lemma_div_is_ordered(m, r * d + d - 1, d);
    assert((r * d + d - 1) / d == r) by {
        lemma_fundamental_div_mod_converse(r * d + d - 1, d, r, d - 1);
    }
    // error-term bounds from the division remainder
    lemma_fundamental_div_mod(m, d);
    let q = m / d;
    let sm = m % d;
    assert(d * q == q * d) by (nonlinear_arith);
    assert(2 * r * (k + 1) == m + 2 * r - ticks) by (nonlinear_arith)
        requires
            m == 2 * r * k + ticks,
    ;
    assert(fade_fraction_at(s, e, ticks, k) == 2 * r * (k + 1) - ticks - d * q) by (nonlinear_arith)
        requires
            d == 2 * ticks,
            q == fade_extras(s, e, ticks, k),
            r == fade_amp(s, e) % ticks,
            fade_fraction_at(s, e, ticks, k) == 2 * (fade_amp(s, e) % ticks) * (k + 1) - ticks - 2
                * ticks * fade_extras(s, e, ticks, k),
    ;
    assert(fade_fraction_at(s, e, ticks, k) == sm + 2 * r - d) by (nonlinear_arith)
        requires
            fade_fraction_at(s, e, ticks, k) == 2 * r * (k + 1) - ticks - d * q,
            2 * r * (k + 1) == m + 2 * r - ticks,
            m == q * d + sm,
            d == 2 * ticks,
    ;
    assert(0 <= sm < d);
    assert(- d <= sm + 2 * r - d < 2 * d - d);
}

/// The value stays between start and target, moves monotonically, and lands
/// exactly on the target after the last tick.
pub proof fn lemma_fade_value_bounds(s: u8, e: u8, ticks: int, k: int)
    requires
        ticks >= 1,
        0 <= k <= ticks,
    ensures
        e > s ==> s <= fade_value_at(s, e, ticks, k) <= e,
        e <= s ==> e <= fade_value_at(s, e, ticks, k) <= s,
        k == 0 ==> fade_value_at(s, e, ticks, k) == s,
        k == ticks ==> fade_value_at(s, e, ticks, k) == e,
        fade_value_at(s, e, ticks, k) <= fade_value_at(s, e, ticks, ticks) || fade_value_at(
            s,
            e,
            ticks,
            k,
        ) >= fade_value_at(s, e, ticks, ticks),
{
    let amp = fade_amp(s, e);
    let q = amp / ticks;
    let r = amp % ticks;
    lemma_fade_extras_bounds(s, e, ticks, k);
    lemma_fundamental_div_mod(amp, ticks);
    assert(amp == q * ticks + r);
    assert(0 <= r < ticks) by {
        vstd::arithmetic::div_mod::lemma_mod_bound(amp, ticks);
    }
    assert(q >= 0) by {
        lemma_div_is_ordered(0, amp, ticks);
    }
    assert(q * k <= q * ticks) by {
        lemma_mul_inequality(k, ticks, q);
        assert(k * q <= ticks * q);
        assert(k * q == q * k) by (nonlinear_arith);
        assert(ticks * q == q * ticks) by (nonlinear_arith);
    }
    assert(q * k >= 0) by (nonlinear_arith)
        requires
            q >= 0,
            k >= 0,
    ;
    assert(q * k + fade_extras(s, e, ticks, k) <= q * ticks + r);
    if k == ticks {
        assert(q * ticks + fade_extras(s, e, ticks, ticks) == amp);
    }
    if k == 0 {
        assert(q * 0 == 0) by (nonlinear_arith);
    }
}

/// Advancing one tick moves the value by the base step, plus one when the
/// error term fired.
pub proof fn lemma_fade_value_step(s: u8, e: u8, ticks: int, k: int)
    requires
        ticks >= 1,
        0 <= k < ticks,
    ensures
        e > s ==> fade_value_at(s, e, ticks, k + 1) == fade_value_at(s, e, ticks, k) + fade_amp(
            s,
            e,
        ) / ticks + if fade_fraction_at(s, e, ticks, k) >= 0 {
            1int
        } else {
            0int
        },
        e <= s ==> fade_value_at(s, e, ticks, k + 1) == fade_value_at(s, e, ticks, k) - fade_amp(
            s,
            e,
        ) / ticks - if fade_fraction_at(s, e, ticks, k) >= 0 {
            1int
        } else {
            0int
        },
        fade_fraction_at(s, e, ticks, k + 1) == fade_fraction_at(s, e, ticks, k) + 2 * (fade_amp(
            s,
            e,
        ) % ticks) - if fade_fraction_at(s, e, ticks, k) >= 0 {
            2 * ticks
        } else {
            0int
        },
{
    let q = fade_amp(s, e) / ticks;
    let r = fade_amp(s, e) % ticks;
    lemma_fade_extras_step(s, e, ticks, k);
    let x = if fade_fraction_at(s, e, ticks, k) >= 0 {
        1int
    } else {
        0int
    };
    assert(q * (k + 1) == q * k + q) by (nonlinear_arith);
    assert(2 * r * (k + 2) == 2 * r * (k + 1) + 2 * r) by (nonlinear_arith);
    assert(2 * ticks * (fade_extras(s, e, ticks, k) + x) == 2 * ticks * fade_extras(s, e, ticks, k)
        + 2 * ticks * x) by (nonlinear_arith);
}

/// A fade of one component over `ticks` ticks starts at the start value,
/// moves monotonically towards the target, and lands exactly on the target
/// after the last tick; when start and target are equal, the value never
/// moves at all.
pub proof fn lemma_fade_progression(s: u8, e: u8, ticks: int)
    requires
        1 <= ticks,
    ensures
        fade_value_at(s, e, ticks, 0) == s,
        fade_value_at(s, e, ticks, ticks) == e,
        forall|k: int|
            0 <= k < ticks && e > s ==> fade_value_at(s, e, ticks, k) <= #[trigger] fade_value_at(
                s,
                e,
                ticks,
                k + 1,
            ) <= e,
        forall|k: int|
            0 <= k < ticks && e <= s ==> e <= #[trigger] fade_value_at(s, e, ticks, k + 1)
                <= fade_value_at(s, e, ticks, k),
        forall|k: int|
            0 <= k <= ticks && s == e ==> #[trigger] fade_value_at(s, e, ticks, k) == s,
{
    lemma_fade_value_bounds(s, e, ticks, 0);
    lemma_fade_value_bounds(s, e, ticks, ticks);
    assert forall|k: int| 0 <= k < ticks && e > s implies fade_value_at(s, e, ticks, k)
        <= #[trigger] fade_value_at(s, e, ticks, k + 1) <= e by {
        lemma_fade_value_step(s, e, ticks, k);
        lemma_fade_value_bounds(s, e, ticks, k + 1);
        assert(fade_amp(s, e) / ticks >= 0) by {
            lemma_div_is_ordered(0, fade_amp(s, e), ticks);
        }
    }
    assert forall|k: int| 0 <= k < ticks && e <= s implies e <= #[trigger] fade_value_at(
        s,
        e,
        ticks,
        k + 1,
    ) <= fade_value_at(s, e, ticks, k) by {
        lemma_fade_value_step(s, e, ticks, k);
        lemma_fade_value_bounds(s, e, ticks, k + 1);
        assert(fade_amp(s, e) / ticks >= 0) by {
            lemma_div_is_ordered(0, fade_amp(s, e), ticks);
        }
    }
    assert forall|k: int| 0 <= k <= ticks && s == e implies #[trigger] fade_value_at(
        s,
        e,
        ticks,
        k,
    ) == s by {
        lemma_fade_value_bounds(s, e, ticks, k);
    }
}

/// The per-component state of a running fade.
pub struct DmxChannelDelta {
    /// The component value after the ticks taken so far.
    pub value: u8,
    pub is_increment: bool,
    pub delta: u8,
    pub dx: u64,
    pub dy: u64,
    pub fraction: i64,
    /// Where the fade started, where it ends, its length, and the ticks
    /// taken.
    pub ghost_state: Ghost<(u8, u8, int, int)>,
}

impl DmxChannelDelta {
    pub open spec fn start(&self) -> u8 {
        self.ghost_state@.0
    }

    pub open spec fn target(&self) -> u8 {
        self.ghost_state@.1
    }

    pub open spec fn ticks(&self) -> int {
        self.ghost_state@.2
    }

    pub open spec fn taken(&self) -> int {
        self.ghost_state@.3
    }

    /// The exec fields agree with the mathematical fade state.
    pub open spec fn wf(&self) -> bool {
        let s = self.start();
        let e = self.target();
        let n = self.ticks();
        let k = self.taken();
        &&& 1 <= n <= MAX_FADE_TICKS
        &&& 0 <= k <= n
        &&& self.is_increment == (e > s)
        &&& self.delta == fade_amp(s, e) / n
        &&& self.dx == 2 * n
        &&& self.dy == 2 * (fade_amp(s, e) % n)
        &&& self.fraction == fade_fraction_at(s, e, n, k)
        &&& self.value == fade_value_at(s, e, n, k)
    }

    /// Starts a fade of one component.
    pub fn new(current_value: u8, target_value: u8, ticks: usize) -> (r: DmxChannelDelta)
        requires
            1 <= ticks <= MAX_FADE_TICKS,
        ensures
            r.wf(),
            r.start() == current_value,
            r.target() == target_value,
            r.ticks() == ticks,
            r.taken() == 0,
            r.value == current_value,
    {
        let is_increment = target_value > current_value;
        let amp: usize = if is_increment {
            (target_value - current_value) as usize
        } else {
            (current_value - target_value) as usize
        };
        let delta = (amp / ticks) as u8;
        let left_over = (amp % ticks) as u64;
        proof {
            lemma_div_is_ordered(amp as int, 255, ticks as int);
            vstd::arithmetic::div_mod::lemma_mod_bound(amp as int, ticks as int);
        }
        let dx = (ticks as u64) * 2;
        let dy = left_over * 2;
        proof {
            assert(left_over < ticks);
        }
        let fraction: i64 = (dy as i64) - (ticks as i64);
        let ghost g = (current_value, target_value, ticks as int, 0int);
        proof {
            lemma_fade_extras_bounds(current_value, target_value, ticks as int, 0);
            lemma_fade_value_bounds(current_value, target_value, ticks as int, 0);
            assert(fade_fraction_at(current_value, target_value, ticks as int, 0) == 2 * (fade_amp(
                current_value,
                target_value,
            ) % (ticks as int)) * 1 - ticks - 2 * ticks * 0) by (nonlinear_arith)
                requires
                    fade_extras(current_value, target_value, ticks as int, 0) == 0,
                    fade_fraction_at(current_value, target_value, ticks as int, 0) == 2 * (fade_amp(
                        current_value,
                        target_value,
                    ) % (ticks as int)) * (0 + 1) - ticks - 2 * ticks * fade_extras(
                        current_value,
                        target_value,
                        ticks as int,
                        0,
                    ),
            ;
        }
        DmxChannelDelta {
            value: current_value,
            is_increment,
            delta,
            dx,
            dy,
            fraction,
            ghost_state: Ghost(g),
        }
    }

    /// Advances the component by one tick.
    pub fn tick(&mut self)
        requires
            old(self).wf(),
            old(self).taken() < old(self).ticks(),
        ensures
            final(self).wf(),
            final(self).start() == old(self).start(),
            final(self).target() == old(self).target(),
            final(self).ticks() == old(self).ticks(),
            final(self).taken() == old(self).taken() + 1,
            final(self).value == fade_value_at(
                old(self).start(),
                old(self).target(),
                old(self).ticks(),
                old(self).taken() + 1,
            ),
    {
        let ghost s = self.start();
        let ghost e = self.target();
        let ghost n = self.ticks();
        let ghost k = self.taken();
        proof {
            lemma_fade_value_step(s, e, n, k);
            lemma_fade_value_bounds(s, e, n, k);
            lemma_fade_value_bounds(s, e, n, k + 1);
            lemma_fade_extras_bounds(s, e, n, k + 1);
        }
        if self.is_increment {
            self.value = self.value + self.delta;
            if self.fraction >= 0 {
                self.value = self.value + 1;
                self.fraction = self.fraction - (self.dx as i64);
            }
        } else {
            self.value = self.value - self.delta;
            if self.fraction >= 0 {
                self.value = self.value - 1;
                self.fraction = self.fraction - (self.dx as i64);
            }
        }
        self.fraction = self.fraction + (self.dy as i64);
        proof {
            self.ghost_state@ = (s, e, n, k + 1);
        }
    }

    /// Whether this component still has ground to cover: false exactly when
    /// the start equals the target.
    pub fn is_fade_needed(&self) -> (r: bool)
        requires
            self.wf(),
        ensures
            r == (self.start() != self.target()),
    {
        proof {
            let s = self.start();
            let e = self.target();
            let n = self.ticks();
            lemma_fundamental_div_mod(fade_amp(s, e), n);
            assert(n * (fade_amp(s, e) / n) == (fade_amp(s, e) / n) * n) by (nonlinear_arith);
            if self.delta == 0 && self.dy == 0 {
                assert(fade_amp(s, e) == (fade_amp(s, e) / n) * n + fade_amp(s, e) % n);
                assert(fade_amp(s, e) == 0) by (nonlinear_arith)
                    requires
                        fade_amp(s, e) == (fade_amp(s, e) / n) * n + fade_amp(s, e) % n,
                        fade_amp(s, e) / n == 0,
                        fade_amp(s, e) % n == 0,
                ;
            }
            if fade_amp(s, e) == 0 {
                lemma_div_is_ordered(0, 0, n);
                assert(fade_amp(s, e) / n == 0) by {
                    lemma_fundamental_div_mod_converse(0, n, 0, 0);
                }
                assert(fade_amp(s, e) % n == 0) by {
                    lemma_fundamental_div_mod_converse(0, n, 0, 0);
                }
            }
        }
        self.delta > 0 || self.dy > 0
    }
}

} // verus!
