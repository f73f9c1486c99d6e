use vstd::prelude::*;
use crate::config::Config;

verus! {

/// Largest lux value the controller accepts. Keeps `192 * (lux + 5)` and
/// `|a - b| * 100` within `i32` for any two accepted readings.
pub const LUX_LIMIT: i32 = 11_000_000;

/// `x` clamped into `[lo, hi]` (meaningful when `lo <= hi`).
pub open spec fn clamp_spec(x: int, lo: int, hi: int) -> int {
    if x < lo {
        lo
    } else if x > hi {
        hi
    } else {
        x
    }
}

/// Absolute value.
pub open spec fn abs_spec(x: int) -> int {
    if x < 0 {
        -x
    } else {
        x
    }
}

/// A lux reading quantized to the top of its band of five: the reading is
/// floored to a multiple of five, then the next multiple of five up is taken,
/// so small jitter within a band maps to one brightness.
pub open spec fn quantize_spec(lux: int) -> int {
    lux + 5 - lux % 5
}

/// The brightness the controller aims at for a lux reading: the quantized
/// reading scaled by 192, clamped into the device's range.
pub open spec fn target_spec(lux: int, min: int, max: int) -> int {
    clamp_spec(192 * quantize_spec(lux), min, max)
}

/// The brightness range of one backlight device: derived once from the
/// device's reported maximum, `min` is 5% of it and `step` 1%.
pub struct Backlight {
    pub config: Config,
    pub max: i32,
    pub min: i32,
    pub step: i32,
}

impl Backlight {
    /// The range invariant: the maximum is large enough that the derived
    /// minimum is positive and the derived step moves at all.
    pub open spec fn wf(self) -> bool {
        &&& 100 <= self.max
        &&& self.min == self.max as int / 20
        &&& self.step == self.max as int / 100
    }

    /// Consequences of the invariant: `0 < min < max` and `1 <= step`.
    pub proof fn lemma_wf_bounds(self)
        requires
            self.wf(),
        ensures
            0 < self.min,
            self.min < self.max,
            1 <= self.step,
            self.step <= self.min,
    {
        let m: int = self.max as int;
        vstd::arithmetic::div_mod::lemma_fundamental_div_mod(m, 20);
        vstd::arithmetic::div_mod::lemma_fundamental_div_mod(m, 100);
        vstd::arithmetic::div_mod::lemma_mod_bound(m, 20);
        vstd::arithmetic::div_mod::lemma_mod_bound(m, 100);
    }

    /// Derives the brightness range from the device's reported maximum.
    /// Fails exactly when the maximum is too small to yield a positive
    /// minimum and a non-zero step, so every constructed value satisfies
    /// `wf`.
    pub fn new(config: Config, max: i32) -> (r: Result<Backlight, StartupError>)
        ensures
            max >= 100 ==> (r matches Ok(b) && b.wf() && b.max == max && b.config == config),
            max < 100 ==> (r matches Err(e) && e == StartupError::InvalidMaxBrightness),
    {
        if max < 100 {
            return Err(StartupError::InvalidMaxBrightness);
        }
        let min: i32 = max / 20;  // 5% of max
        let step: i32 = max / 100;  // 1% of max
        Ok(Backlight { config, max, min, step })
    }
}

/// Failure while deriving the brightness range at startup.
#[derive(Clone, Copy, PartialEq, Eq, Structural, Debug)]
pub enum StartupError {
    /// The device reported a maximum brightness below the least workable one.
    InvalidMaxBrightness,
}

/// The direction of a ramp: +1 when the target is at or above the current
/// brightness, -1 when it is below.
pub open spec fn ramp_dir(current: int, target: int) -> int {
    if current > target {
        -1
    } else {
        1
    }
}

/// One step of the ramp state machine.
#[derive(Clone, Copy, PartialEq, Eq, Structural, Debug)]
pub enum RampAction {
    /// Apply this brightness value, then sleep and step again.
    Write(i32),
    /// The remaining distance is within one step: stop without a final
    /// correction.
    Converged,
    /// The cancellation flag was observed: stop without writing.
    Cancelled,
}

impl Backlight {
    /// Computes the brightness the controller aims at for an ambient
    /// reading: the reading is quantized to the top of its band of five,
    /// scaled by 192 and clamped into `[min, max]`.
    pub fn from_ambient(&self, ambient: i32) -> (r: i32)
        requires
            self.wf(),
            0 <= ambient <= LUX_LIMIT,
        ensures
            r == target_spec(ambient as int, self.min as int, self.max as int),
            self.min <= r <= self.max,
    {
        proof {
            self.lemma_wf_bounds();
        }
        let quant: i32 = ambient + 5 - ambient % 5;
        let scaled: i32 = 192 * quant;
        if scaled < self.min {
            self.min
        } else if scaled > self.max {
            self.max
        } else {
            scaled
        }
    }
}

/// Decides one ramp step from the current brightness, the target, the step
/// size and the cancellation flag as last observed. A ramp is driven by
/// calling this before every write: on `Write(b)` the caller applies `b`,
/// sleeps one interval, re-reads the flag and calls again with `current = b`;
/// on `Converged` or `Cancelled` the ramp is over. An observed cancellation
/// yields no write at all.
pub fn ramp_next(current: i32, target: i32, step: i32, cancelled: bool) -> (a: RampAction)
    requires
        1 <= step,
        0 <= current,
        0 <= target,
    ensures
        cancelled ==> a == RampAction::Cancelled,
        !cancelled && abs_spec(current - target) <= step ==> a == RampAction::Converged,
        !cancelled && abs_spec(current - target) > step ==> a == RampAction::Write(
            (current + ramp_dir(current as int, target as int) * step) as i32,
        ),
        a matches RampAction::Write(b) ==> {
            &&& abs_spec(b - target) == abs_spec(current - target) - step
            &&& current < target ==> current < b < target
            &&& current > target ==> target < b < current
        },
{
    if cancelled {
        return RampAction::Cancelled;
    }
    let dist: i32 = if current > target {
        current - target
    } else {
        target - current
    };
    if dist <= step {
        RampAction::Converged
    } else if current > target {
        RampAction::Write(current - step)
    } else {
        RampAction::Write(current + step)
    }
}

/// The exact sequence of brightness values an uncancelled ramp writes, in
/// order. Stepping stops as soon as the remaining distance is within one
/// step, so the list ends within one step of the target, never crosses it,
/// and is no longer than the remaining distance divided by the step size,
/// rounded up.
pub fn plan_ramp(current: i32, target: i32, step: i32) -> (writes: Vec<i32>)
    requires
        1 <= step,
        0 <= current,
        0 <= target,
    ensures
        abs_spec(current - target) <= step <==> writes@.len() == 0,
        forall|i: int|
            0 <= i < writes@.len() ==> writes@[i] == current + ramp_dir(
                current as int,
                target as int,
            ) * step * (i + 1),
        forall|i: int|
            0 <= i < writes@.len() ==> {
                &&& (current < target ==> current < #[trigger] writes@[i] < target)
                &&& (current > target ==> target < writes@[i] < current)
            },
        writes@.len() > 0 ==> abs_spec(writes@[writes@.len() - 1] - target) <= step,
        writes@.len() > 0 ==> abs_spec(current - target) == abs_spec(
            writes@[writes@.len() - 1] - target,
        ) + step * writes@.len(),
        step * writes@.len() <= abs_spec(current - target),
        writes@.len() <= (abs_spec(current - target) + step - 1) / (step as int),
{
    let mut writes: Vec<i32> = Vec::new();
    let mut cur: i32 = current;
    proof {
        assert(ramp_dir(current as int, target as int) * step * (writes@.len() as int)
            == 0) by (nonlinear_arith)
            requires
                writes@.len() == 0,
        ;
        assert(step * (writes@.len() as int) == 0) by (nonlinear_arith)
            requires
                writes@.len() == 0,
        ;
    }
    loop
        invariant
            1 <= step,
            0 <= current,
            0 <= target,
            0 <= cur,
            cur == current + ramp_dir(current as int, target as int) * step * writes@.len(),
            abs_spec(current - target) == abs_spec(cur - target) + step * writes@.len(),
            current < target ==> current <= cur < target,
            current > target ==> target < cur <= current,
            current == target ==> cur == current,
            forall|i: int|
                0 <= i < writes@.len() ==> writes@[i] == current + ramp_dir(
                    current as int,
                    target as int,
                ) * step * (i + 1),
            forall|i: int|
                0 <= i < writes@.len() ==> {
                    &&& (current < target ==> current < #[trigger] writes@[i] < target)
                    &&& (current > target ==> target < writes@[i] < current)
                },
        ensures
            abs_spec(cur - target) <= step,
            writes@.len() > 0 ==> cur == writes@[writes@.len() - 1],
        decreases abs_spec(cur as int - target as int),
    {
        let ghost n: int = writes@.len() as int;
        let ghost d: int = ramp_dir(current as int, target as int);
        match ramp_next(cur, target, step, false) {
            RampAction::Write(b) => {
                proof {
                    assert(d * step * (n + 1) == d * step * n + d * step) by (nonlinear_arith);
                    assert(step * (n + 1) == step * n + step) by (nonlinear_arith);
                }
                cur = b;
                writes.push(b);
            },
            _ => {
                break ;
            },
        }
    }
    proof {
        let d0: int = abs_spec(current as int - target as int);
        let n: int = writes@.len() as int;
        if n > 0 {
            assert(step <= step * n) by (nonlinear_arith)
                requires
                    1 <= step,
                    1 <= n,
            ;
            assert(abs_spec(cur as int - target as int) >= 1);
            assert(step * n < d0);
            lemma_lt_implies_le_ceil_div(n, d0, step as int);
        } else {
            vstd::arithmetic::div_mod::lemma_div_pos_is_pos(d0 + step - 1, step as int);
        }
    }
    writes
}

/// `n * s < d` with a positive step `s` puts `n` under the ceiling of
/// `d / s`.
proof fn lemma_lt_implies_le_ceil_div(n: int, d: int, s: int)
    requires
        1 <= s,
        0 <= n,
        s * n < d,
    ensures
        n <= (d + s - 1) / s,
{
    vstd::arithmetic::div_mod::lemma_fundamental_div_mod(d + s - 1, s);
    vstd::arithmetic::div_mod::lemma_mod_bound(d + s - 1, s);
    let q: int = (d + s - 1) / s;
    assert(s * n <= d - 1);
    assert(s * q == d + s - 1 - ((d + s - 1) % s));
    assert(s * q >= d - 1 + 1);
    if n > q {
        assert(s * n >= s * (q + 1)) by (nonlinear_arith)
            requires
                1 <= s,
                n >= q + 1,
        ;
        assert(s * (q + 1) == s * q + s) by (nonlinear_arith);
    }
}

/// The quantized reading never shrinks as the reading grows, so for a fixed
/// range the computed target is monotonically non-decreasing in lux, and it
/// always lies inside the range.
pub proof fn lemma_target_monotonic(l1: int, l2: int, min: int, max: int)
    requires
        0 <= l1,
        l1 <= l2,
        min <= max,
    ensures
        target_spec(l1, min, max) <= target_spec(l2, min, max),
        min <= target_spec(l1, min, max) <= max,
{
    vstd::arithmetic::div_mod::lemma_fundamental_div_mod(l1, 5);
    vstd::arithmetic::div_mod::lemma_fundamental_div_mod(l2, 5);
    vstd::arithmetic::div_mod::lemma_mod_bound(l1, 5);
    vstd::arithmetic::div_mod::lemma_mod_bound(l2, 5);
    vstd::arithmetic::div_mod::lemma_div_is_ordered(l1, l2, 5);
    assert(quantize_spec(l1) == 5 * (l1 / 5) + 5);
    assert(quantize_spec(l2) == 5 * (l2 / 5) + 5);
    assert(192 * quantize_spec(l1) <= 192 * quantize_spec(l2));
}

} // verus!
