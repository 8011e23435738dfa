//! Time arithmetic: seconds out of milliseconds, window epochs and capacity.

use vstd::prelude::*;
use crate::error::LimiterError;

verus! {

/// The longest window, in seconds: twice this still fits 32 bits, so that every
/// expiration the algorithms set can be passed on whatever the machine's word.
pub const MAX_WINDOW_SECS: u64 = 1_073_741_823;

/// Whole seconds in a millisecond timestamp.
pub open spec fn secs_of(now_ms: int) -> int {
    now_ms / 1000
}

/// Start of the window that holds `now_secs`: the time truncated to a multiple
/// of the window size.
pub open spec fn epoch_of(now_secs: int, window_secs: int) -> int {
    (now_secs / window_secs) * window_secs
}

/// The most units a caller may take within one window.
pub open spec fn capacity_of(limit_per_sec: int, window_secs: int) -> int {
    limit_per_sec * window_secs
}

/// A limit and a window that a limiter can work with: neither is zero, the
/// window is not longer than `MAX_WINDOW_SECS`, and the capacity is one the
/// store can count to, whose integers are signed and 64 bits wide.
pub open spec fn usable(limit_per_sec: u64, window_secs: u64) -> bool {
    &&& limit_per_sec > 0
    &&& 0 < window_secs <= MAX_WINDOW_SECS
    &&& capacity_of(limit_per_sec as int, window_secs as int) <= i64::MAX
}

/// Whole seconds in a millisecond timestamp.
pub fn seconds(now_ms: u64) -> (s: u64)
    ensures
        s == secs_of(now_ms as int),
{
    now_ms / 1000
}

/// The capacity for a limit and a window, or `Configuration` when either is
/// zero, the window is longer than `MAX_WINDOW_SECS` or the product is more
/// than the store can count to.
pub fn capacity(limit_per_sec: u64, window_secs: u64) -> (r: Result<u64, LimiterError>)
    ensures
        usable(limit_per_sec, window_secs) ==> r == Ok::<u64, LimiterError>(
            capacity_of(limit_per_sec as int, window_secs as int) as u64,
        ),
        !usable(limit_per_sec, window_secs) ==> r == Err::<u64, LimiterError>(
            LimiterError::Configuration,
        ),
{
    if limit_per_sec == 0 || window_secs == 0 || window_secs > MAX_WINDOW_SECS {
        return Err(LimiterError::Configuration);
    }
    match limit_per_sec.checked_mul(window_secs) {
        Some(c) => if c > 0x7fff_ffff_ffff_ffff {
            Err(LimiterError::Configuration)
        } else {
            Ok(c)
        },
        None => Err(LimiterError::Configuration),
    }
}

/// Facts about a window epoch: it is a multiple of the window, not after
/// `now`, and `now` is less than one window past it.
pub proof fn epoch_bounds(now_secs: int, window_secs: int)
    requires
        now_secs >= 0,
        window_secs > 0,
    ensures
        0 <= epoch_of(now_secs, window_secs) <= now_secs,
        now_secs < epoch_of(now_secs, window_secs) + window_secs,
        epoch_of(now_secs, window_secs) % window_secs == 0,
{
    let q = now_secs / window_secs;
    assert(now_secs == window_secs * q + now_secs % window_secs) by {
        vstd::arithmetic::div_mod::lemma_fundamental_div_mod(now_secs, window_secs);
    }
    assert(0 <= now_secs % window_secs < window_secs) by {
        vstd::arithmetic::div_mod::lemma_mod_pos_bound(now_secs, window_secs);
    }
    assert(q * window_secs == window_secs * q) by (nonlinear_arith);
    assert(q >= 0) by {
        vstd::arithmetic::div_mod::lemma_div_pos_is_pos(now_secs, window_secs);
    }
    assert(q * window_secs >= 0) by (nonlinear_arith)
        requires
            q >= 0,
            window_secs > 0,
    ;
    assert((q * window_secs) % window_secs == 0) by {
        vstd::arithmetic::div_mod::lemma_mod_multiples_basic(q, window_secs);
    }
}

/// Start of the window that holds `now_secs`.
pub(crate) fn epoch(now_secs: u64, window_secs: u64) -> (e: u64)
    requires
        window_secs > 0,
    ensures
        e == epoch_of(now_secs as int, window_secs as int),
        e <= now_secs,
        now_secs - e < window_secs,
{
    proof {
        epoch_bounds(now_secs as int, window_secs as int);
    }
    (now_secs / window_secs) * window_secs
}

} // verus!
