//! The stable-curve invariant solver. Reserves are integers at one common
//! precision. The invariant `D` is found by Newton's method from the reserve
//! sum; the unknown reserve `y` given the other reserve `k` is then found by
//! Newton's method on `y^2 + (b - D) y = c`, where `c = D^3 / (n k n Ann)`
//! and `b = k + D / Ann`; each step is computed as
//! `y (y + c / y) / (2y + b - D)` so that every intermediate stays of the
//! order of the reserves. Each iteration stops at the first step that moves
//! by at most one unit, and fails after `NEWTON_ITERATIONS` steps.
use vstd::prelude::*;
use crate::arith::{checked_mul_div, max_u128};
use crate::types::ContractError;

verus! {

pub const NEWTON_ITERATIONS: u32 = 64;

/// `amp * n^k`, multiplying one factor at a time; `None` once a product
/// leaves 128 bits.
pub open spec fn ann_of(amp: int, n: int, k: nat) -> Option<int>
    decreases k,
{
    if k == 0 {
        Some(amp)
    } else {
        match ann_of(amp, n, (k - 1) as nat) {
            Some(v) => if v * n > max_u128() { None } else { Some(v * n) },
            None => None,
        }
    }
}

proof fn lemma_ann_none_stays(amp: int, n: int, k: nat, j: nat)
    requires
        k <= j,
        ann_of(amp, n, k) is None,
    ensures
        ann_of(amp, n, j) is None,
    decreases j - k,
{
    if k < j {
        lemma_ann_none_stays(amp, n, k, (j - 1) as nat);
    }
}

/// Two integers at most one apart.
pub open spec fn within_one(a: int, b: int) -> bool {
    a - b <= 1 && b - a <= 1
}

/// One Newton step for `D` from `d`, over reserves `x` and `y`:
/// `D_P = d^3 / (x n * y n)` and
/// `(Ann S + D_P n) d / ((Ann - 1) d + D_P (n + 1))`, each division floored;
/// `None` where a division by zero or a value beyond 128 bits occurs.
pub open spec fn d_step(n: int, ann: int, x: int, y: int, d: int) -> Option<int> {
    let xn = x * n;
    let yn = y * n;
    let t = d * d / xn;
    let dp = t * d / yn;
    let s = x + y;
    let a1 = ann * s;
    let a2 = dp * n;
    let num = a1 + a2;
    let b1 = (ann - 1) * d;
    let b2 = dp * (n + 1);
    let den = b1 + b2;
    let nd = num * d / den;
    if xn > max_u128() || yn > max_u128() || xn == 0 || yn == 0 || t > max_u128() || dp > max_u128()
        || s > max_u128() || a1 > max_u128() || a2 > max_u128() || num > max_u128() || ann == 0
        || b1 > max_u128() || n + 1 > max_u128()
        || b2 > max_u128() || den > max_u128() || den == 0 || nd > max_u128() {
        None
    } else {
        Some(nd)
    }
}

/// Newton's method for `D` from `d`, with `fuel` steps left.
pub open spec fn d_iter(n: int, ann: int, x: int, y: int, d: int, fuel: nat) -> Result<int, ContractError>
    decreases fuel,
{
    if fuel == 0 {
        Err(ContractError::ConvergeError)
    } else {
        match d_step(n, ann, x, y, d) {
            None => Err(ContractError::ArithmeticOverflow),
            Some(nd) => if within_one(nd, d) { Ok(nd) } else { d_iter(n, ann, x, y, nd, (fuel - 1) as nat) },
        }
    }
}

/// The invariant `D` of reserves `x` and `y`: zero for empty reserves, else
/// Newton's method started from their sum.
pub open spec fn stable_d_of(n: int, ann: int, x: int, y: int) -> Result<int, ContractError> {
    if x + y > max_u128() {
        Err(ContractError::ArithmeticOverflow)
    } else if x + y == 0 {
        Ok(0)
    } else {
        d_iter(n, ann, x, y, x + y, NEWTON_ITERATIONS as nat)
    }
}

/// The constants `(t, b, an)` of the equation for the unknown reserve given
/// the other reserve `k`: `t = D^2 / (k n)`, `b = k + D / Ann`, `an = Ann n`,
/// so that `c / y` is `t D / (an y)`.
pub open spec fn y_consts(n: int, ann: int, d: int, k: int) -> Option<(int, int, int)> {
    let kn = k * n;
    let t = d * d / kn;
    let an = ann * n;
    let b = k + d / ann;
    if kn > max_u128() || kn == 0 || t > max_u128() || an > max_u128() || ann == 0 || b > max_u128() {
        None
    } else {
        Some((t, b, an))
    }
}

/// One Newton step for the unknown reserve from `y`:
/// `y (y + t d / (an y)) / (2y + b - d)`, each division floored.
pub open spec fn y_step(t: int, b: int, an: int, d: int, y: int) -> Option<int> {
    let ay = an * y;
    let cy = t * d / ay;
    let tb = y + y + b;
    let den = tb - d;
    let ny = y * (y + cy) / den;
    if ay > max_u128() || ay == 0 || cy > max_u128() || y + cy > max_u128() || y + y > max_u128()
        || tb > max_u128() || den <= 0 || ny > max_u128() {
        None
    } else {
        Some(ny)
    }
}

/// Newton's method for the unknown reserve from `y`, with `fuel` steps left.
pub open spec fn y_iter(t: int, b: int, an: int, d: int, y: int, fuel: nat) -> Result<int, ContractError>
    decreases fuel,
{
    if fuel == 0 {
        Err(ContractError::ConvergeError)
    } else {
        match y_step(t, b, an, d, y) {
            None => Err(ContractError::ArithmeticOverflow),
            Some(ny) => if within_one(ny, y) { Ok(ny) } else { y_iter(t, b, an, d, ny, (fuel - 1) as nat) },
        }
    }
}

/// The reserve that keeps the invariant `d` when the other reserve is `k`,
/// by Newton's method started from `d`.
pub open spec fn stable_y_of(n: int, ann: int, d: int, k: int) -> Result<int, ContractError> {
    match y_consts(n, ann, d, k) {
        None => Err(ContractError::ArithmeticOverflow),
        Some(cs) => y_iter(cs.0, cs.1, cs.2, d, d, NEWTON_ITERATIONS as nat),
    }
}

/// `amp * n^n`, the amplification scaled by the asset count.
pub fn compute_ann(amp: u64, n: u128) -> (r: Option<u128>)
    ensures
        r matches Some(v) ==> ann_of(amp as int, n as int, n as nat) == Some(v as int),
        r is None ==> ann_of(amp as int, n as int, n as nat) is None,
{
    let mut v: u128 = amp as u128;
    let mut k: u128 = 0;
    while k < n
        invariant
            k <= n,
            ann_of(amp as int, n as int, k as nat) == Some(v as int),
        decreases n - k,
    {
        match v.checked_mul(n) {
            Some(w) => {
                v = w;
            },
            None => {
                proof {
                    lemma_ann_none_stays(amp as int, n as int, (k + 1) as nat, n as nat);
                }
                return None;
            },
        }
        k = k + 1;
    }
    Some(v)
}

fn d_step_exec(n: u128, ann: u128, x: u128, y: u128, d: u128) -> (r: Option<u128>)
    ensures
        r matches Some(v) ==> d_step(n as int, ann as int, x as int, y as int, d as int) == Some(v as int),
        r is None ==> d_step(n as int, ann as int, x as int, y as int, d as int) is None,
{
    let xn = x.checked_mul(n)?;
    let yn = y.checked_mul(n)?;
    let t = checked_mul_div(d, d, xn)?;
    let dp = checked_mul_div(t, d, yn)?;
    let s = x.checked_add(y)?;
    let a1 = ann.checked_mul(s)?;
    let a2 = dp.checked_mul(n)?;
    let num = a1.checked_add(a2)?;
    if ann == 0 {
        return None;
    }
    let b1 = (ann - 1).checked_mul(d)?;
    let b2 = dp.checked_mul(n.checked_add(1)?)?;
    let den = b1.checked_add(b2)?;
    checked_mul_div(num, d, den)
}

/// The invariant `D` of reserves `x` and `y` for `n` assets and scaled
/// amplification `ann`.
pub fn stableswap_d(n: u128, ann: u128, x: u128, y: u128) -> (r: Result<u128, ContractError>)
    ensures
        r matches Ok(v) ==> stable_d_of(n as int, ann as int, x as int, y as int) == Ok::<int, ContractError>(v as int),
        r matches Err(e) ==> stable_d_of(n as int, ann as int, x as int, y as int) == Err::<int, ContractError>(e),
{
    let s = match x.checked_add(y) {
        Some(s) => s,
        None => return Err(ContractError::ArithmeticOverflow),
    };
    if s == 0 {
        return Ok(0);
    }
    let mut d: u128 = s;
    let mut fuel: u32 = NEWTON_ITERATIONS;
    while fuel > 0
        invariant
            stable_d_of(n as int, ann as int, x as int, y as int)
                == d_iter(n as int, ann as int, x as int, y as int, d as int, fuel as nat),
        decreases fuel,
    {
        let nd = match d_step_exec(n, ann, x, y, d) {
            Some(v) => v,
            None => return Err(ContractError::ArithmeticOverflow),
        };
        if (nd >= d && nd - d <= 1) || (nd < d && d - nd <= 1) {
            return Ok(nd);
        }
        d = nd;
        fuel = fuel - 1;
    }
    Err(ContractError::ConvergeError)
}

fn y_consts_exec(n: u128, ann: u128, d: u128, k: u128) -> (r: Option<(u128, u128, u128)>)
    ensures
        r matches Some(v) ==> y_consts(n as int, ann as int, d as int, k as int) == Some((v.0 as int, v.1 as int, v.2 as int)),
        r is None ==> y_consts(n as int, ann as int, d as int, k as int) is None,
{
    let kn = k.checked_mul(n)?;
    let t = checked_mul_div(d, d, kn)?;
    let an = ann.checked_mul(n)?;
    if ann == 0 {
        return None;
    }
    let b = k.checked_add(d / ann)?;
    Some((t, b, an))
}

fn y_step_exec(t: u128, b: u128, an: u128, d: u128, y: u128) -> (r: Option<u128>)
    ensures
        r matches Some(v) ==> y_step(t as int, b as int, an as int, d as int, y as int) == Some(v as int),
        r is None ==> y_step(t as int, b as int, an as int, d as int, y as int) is None,
{
    let ay = an.checked_mul(y)?;
    let cy = checked_mul_div(t, d, ay)?;
    let s = y.checked_add(cy)?;
    let tb = y.checked_add(y)?.checked_add(b)?;
    if tb <= d {
        return None;
    }
    checked_mul_div(y, s, tb - d)
}

/// The reserve that keeps the invariant `d` when the other reserve is `k`.
pub fn stableswap_y(n: u128, ann: u128, d: u128, k: u128) -> (r: Result<u128, ContractError>)
    ensures
        r matches Ok(v) ==> stable_y_of(n as int, ann as int, d as int, k as int) == Ok::<int, ContractError>(v as int),
        r matches Err(e) ==> stable_y_of(n as int, ann as int, d as int, k as int) == Err::<int, ContractError>(e),
{
    let (t, b, an) = match y_consts_exec(n, ann, d, k) {
        Some(cb) => cb,
        None => return Err(ContractError::ArithmeticOverflow),
    };
    let mut y: u128 = d;
    let mut fuel: u32 = NEWTON_ITERATIONS;
    while fuel > 0
        invariant
            stable_y_of(n as int, ann as int, d as int, k as int)
                == y_iter(t as int, b as int, an as int, d as int, y as int, fuel as nat),
        decreases fuel,
    {
        let ny = match y_step_exec(t, b, an, d, y) {
            Some(v) => v,
            None => return Err(ContractError::ArithmeticOverflow),
        };
        if (ny >= y && ny - y <= 1) || (ny < y && y - ny <= 1) {
            return Ok(ny);
        }
        y = ny;
        fuel = fuel - 1;
    }
    Err(ContractError::ConvergeError)
}

proof fn lemma_d_iter_converged(n: int, ann: int, x: int, y: int, d: int, fuel: nat, v: int)
    requires
        d_iter(n, ann, x, y, d, fuel) == Ok::<int, ContractError>(v),
    ensures
        exists|p: int| #[trigger] d_step(n, ann, x, y, p) == Some(v) && within_one(v, p),
    decreases fuel,
{
    let nd = d_step(n, ann, x, y, d)->Some_0;
    if within_one(nd, d) {
        assert(d_step(n, ann, x, y, d) == Some(v) && within_one(v, d));
    } else {
        lemma_d_iter_converged(n, ann, x, y, nd, (fuel - 1) as nat, v);
    }
}

/// The invariant found for non-empty reserves is a converged Newton step:
/// one step from a value at most one unit away from it.
pub proof fn lemma_stable_d_converged(n: int, ann: int, x: int, y: int, v: int)
    requires
        stable_d_of(n, ann, x, y) == Ok::<int, ContractError>(v),
        x + y > 0,
    ensures
        exists|p: int| #[trigger] d_step(n, ann, x, y, p) == Some(v) && within_one(v, p),
{
    lemma_d_iter_converged(n, ann, x, y, x + y, NEWTON_ITERATIONS as nat, v);
}

proof fn lemma_y_iter_converged(t: int, b: int, an: int, d: int, y: int, fuel: nat, v: int)
    requires
        y_iter(t, b, an, d, y, fuel) == Ok::<int, ContractError>(v),
    ensures
        exists|p: int| #[trigger] y_step(t, b, an, d, p) == Some(v) && within_one(v, p),
    decreases fuel,
{
    let ny = y_step(t, b, an, d, y)->Some_0;
    if within_one(ny, y) {
        assert(y_step(t, b, an, d, y) == Some(v) && within_one(v, y));
    } else {
        lemma_y_iter_converged(t, b, an, d, ny, (fuel - 1) as nat, v);
    }
}

/// The reserve found for an invariant is a converged Newton step of the
/// curve equation: one step from a value at most one unit away from it.
pub proof fn lemma_stable_y_converged(n: int, ann: int, d: int, k: int, v: int)
    requires
        stable_y_of(n, ann, d, k) == Ok::<int, ContractError>(v),
    ensures
        y_consts(n, ann, d, k) is Some,
        exists|p: int| #[trigger] y_step(y_consts(n, ann, d, k)->Some_0.0, y_consts(n, ann, d, k)->Some_0.1,
            y_consts(n, ann, d, k)->Some_0.2, d, p) == Some(v) && within_one(v, p),
{
    let cs = y_consts(n, ann, d, k)->Some_0;
    lemma_y_iter_converged(cs.0, cs.1, cs.2, d, d, NEWTON_ITERATIONS as nat, v);
}

} // verus!
