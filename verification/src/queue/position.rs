//! Cursor positions: an index below the capacity, and a lap above it.
//!
//! A lap is a power of two above the capacity, so the low bits of a position
//! are its index and the high bits count laps, modulo the word.

use vstd::prelude::*;

verus! {

/// A capacity and the lap that belongs to it.
pub open spec fn laps_ok(capacity: int, lap: int) -> bool {
    &&& 0 < capacity < lap
    &&& lap <= 0x8000_0000_0000_0000
    &&& 0x1_0000_0000_0000_0000int % lap == 0
}

/// How many laps a word counts.
pub open spec fn lap_count(lap: int) -> int {
    0x1_0000_0000_0000_0000int / lap
}

/// How many positions there are before they repeat.
pub open spec fn period(capacity: int, lap: int) -> int {
    lap_count(lap) * capacity
}

/// A word is a position where its index is below the capacity.
pub open spec fn is_position(capacity: int, lap: int, position: int) -> bool {
    &&& 0 <= position < 0x1_0000_0000_0000_0000
    &&& position % lap < capacity
}

/// The number of a position.
pub open spec fn number_of(capacity: int, lap: int, position: int) -> int {
    (position / lap) * capacity + position % lap
}

/// The position with a number.
pub open spec fn position_of(capacity: int, lap: int, number: int) -> int {
    let n = number % period(capacity, lap);
    (n / capacity) * lap + n % capacity
}

/// The position behind `position`.
pub open spec fn next_position(capacity: int, lap: int, position: int) -> int {
    let index = position % lap;
    if index + 1 < capacity {
        position + 1
    } else {
        (position - index + lap) % 0x1_0000_0000_0000_0000
    }
}

pub proof fn lemma_period(capacity: int, lap: int)
    requires
        laps_ok(capacity, lap),
    ensures
        lap_count(lap) >= 2,
        lap_count(lap) * lap == 0x1_0000_0000_0000_0000,
        period(capacity, lap) >= 2 * capacity,
        period(capacity, lap) % capacity == 0,
        period(capacity, lap) > 0,
{
    vstd::arithmetic::div_mod::lemma_fundamental_div_mod(0x1_0000_0000_0000_0000, lap);
    let m = lap_count(lap);
    assert(lap * m == 0x1_0000_0000_0000_0000);
    assert(m >= 2) by (nonlinear_arith)
        requires
            lap * m == 0x1_0000_0000_0000_0000,
            0 < lap <= 0x8000_0000_0000_0000,
    ;
    assert(m * lap == lap * m) by (nonlinear_arith);
    assert(m * capacity >= 2 * capacity) by (nonlinear_arith)
        requires
            m >= 2,
            capacity > 0,
    ;
    vstd::arithmetic::div_mod::lemma_mod_multiples_basic(m, capacity);
}

/// Positions and their numbers stand for each other.
pub proof fn lemma_number(capacity: int, lap: int, position: int)
    requires
        laps_ok(capacity, lap),
        is_position(capacity, lap, position),
    ensures
        0 <= number_of(capacity, lap, position) < period(capacity, lap),
        position_of(capacity, lap, number_of(capacity, lap, position)) == position,
        number_of(capacity, lap, position) % capacity == position % lap,
        0 <= position / lap < lap_count(lap),
{
    lemma_period(capacity, lap);
    let m = lap_count(lap);
    let q = position / lap;
    let r = position % lap;
    vstd::arithmetic::div_mod::lemma_fundamental_div_mod(position, lap);
    vstd::arithmetic::div_mod::lemma_mod_bound(position, lap);
    assert(0 <= q < m) by (nonlinear_arith)
        requires
            position == lap * q + r,
            0 <= r < lap,
            0 <= position < m * lap,
    ;
    let n = q * capacity + r;
    assert(0 <= n < m * capacity) by (nonlinear_arith)
        requires
            n == q * capacity + r,
            0 <= q <= m - 1,
            0 <= r < capacity,
    ;
    vstd::arithmetic::div_mod::lemma_small_mod(n as nat, period(capacity, lap) as nat);
    vstd::arithmetic::div_mod::lemma_fundamental_div_mod_converse(n, capacity, q, r);
    assert(q * lap == lap * q) by (nonlinear_arith);
}

/// A number of a position is that of the position, whatever the period.
pub proof fn lemma_position(capacity: int, lap: int, number: int)
    requires
        laps_ok(capacity, lap),
    ensures
        is_position(capacity, lap, position_of(capacity, lap, number)),
        number_of(capacity, lap, position_of(capacity, lap, number)) == number % period(
            capacity,
            lap,
        ),
        position_of(capacity, lap, number) % lap == number % capacity,
{
    lemma_period(capacity, lap);
    let m = lap_count(lap);
    let total = period(capacity, lap);
    let n = number % total;
    vstd::arithmetic::div_mod::lemma_mod_bound(number, total);
    vstd::arithmetic::div_mod::lemma_fundamental_div_mod(n, capacity);
    vstd::arithmetic::div_mod::lemma_mod_bound(n, capacity);
    let q = n / capacity;
    let r = n % capacity;
    assert(0 <= q < m) by (nonlinear_arith)
        requires
            n == capacity * q + r,
            0 <= r < capacity,
            0 <= n < m * capacity,
    ;
    let p = q * lap + r;
    assert(0 <= p < m * lap) by (nonlinear_arith)
        requires
            p == q * lap + r,
            0 <= q <= m - 1,
            0 <= r < lap,
    ;
    vstd::arithmetic::div_mod::lemma_fundamental_div_mod_converse(p, lap, q, r);
    assert(q * capacity == capacity * q) by (nonlinear_arith);
    // The period is a multiple of the capacity.
    vstd::arithmetic::div_mod::lemma_fundamental_div_mod(number, total);
    let k = number / total;
    assert(number == capacity * (m * k) + n) by (nonlinear_arith)
        requires
            number == total * k + n,
            total == m * capacity,
    ;
    assert(number % capacity == n % capacity) by {
        vstd::arithmetic::div_mod::lemma_mod_multiples_vanish(m * k, n, capacity);
    }
}

/// One step on the positions is one step on the numbers.
pub proof fn lemma_next(capacity: int, lap: int, position: int)
    requires
        laps_ok(capacity, lap),
        is_position(capacity, lap, position),
    ensures
        next_position(capacity, lap, position) == position_of(
            capacity,
            lap,
            number_of(capacity, lap, position) + 1,
        ),
        is_position(capacity, lap, next_position(capacity, lap, position)),
{
    lemma_period(capacity, lap);
    lemma_number(capacity, lap, position);
    lemma_position(capacity, lap, number_of(capacity, lap, position) + 1);
    let m = lap_count(lap);
    let total = period(capacity, lap);
    let q = position / lap;
    let r = position % lap;
    let n = number_of(capacity, lap, position);
    vstd::arithmetic::div_mod::lemma_fundamental_div_mod(position, lap);
    vstd::arithmetic::div_mod::lemma_mod_bound(position, lap);
    assert(q * lap == lap * q) by (nonlinear_arith);
    if r + 1 < capacity {
        assert((q + 1) * capacity <= m * capacity) by (nonlinear_arith)
            requires
                q + 1 <= m,
                capacity > 0,
        ;
        assert((q + 1) * capacity == q * capacity + capacity) by (nonlinear_arith);
        vstd::arithmetic::div_mod::lemma_small_mod((n + 1) as nat, total as nat);
        vstd::arithmetic::div_mod::lemma_fundamental_div_mod_converse(n + 1, capacity, q, r + 1);
    } else {
        assert(n + 1 == (q + 1) * capacity) by (nonlinear_arith)
            requires
                n == q * capacity + r,
                r + 1 == capacity,
        ;
        assert(position - r + lap == (q + 1) * lap) by (nonlinear_arith)
            requires
                position == lap * q + r,
        ;
        if q + 1 == m {
            assert((n + 1) % total == 0) by {
                vstd::arithmetic::div_mod::lemma_mod_self_0(total);
            }
            assert(0int / capacity == 0) by (nonlinear_arith)
                requires
                    capacity > 0,
            ;
            assert(0int % capacity == 0) by (nonlinear_arith)
                requires
                    capacity > 0,
            ;
        } else {
            assert((q + 1) * capacity < m * capacity) by (nonlinear_arith)
                requires
                    q + 1 < m,
                    capacity > 0,
            ;
            assert((q + 1) * lap < m * lap) by (nonlinear_arith)
                requires
                    q + 1 < m,
                    lap > 0,
            ;
            assert((q + 1) * capacity >= 0 && (q + 1) * lap >= 0) by (nonlinear_arith)
                requires
                    q >= 0,
                    lap > 0,
                    capacity > 0,
            ;
            vstd::arithmetic::div_mod::lemma_small_mod((n + 1) as nat, total as nat);
            vstd::arithmetic::div_mod::lemma_small_mod(
                ((q + 1) * lap) as nat,
                0x1_0000_0000_0000_0000,
            );
            vstd::arithmetic::div_mod::lemma_fundamental_div_mod_converse(n + 1, capacity, q + 1, 0);
        }
    }
}

/// A lap further is the same index.
pub proof fn lemma_lap_further(capacity: int, lap: int, position: int)
    requires
        laps_ok(capacity, lap),
        is_position(capacity, lap, position),
    ensures
        (position + lap) % 0x1_0000_0000_0000_0000 == position_of(
            capacity,
            lap,
            number_of(capacity, lap, position) + capacity,
        ),
{
    lemma_period(capacity, lap);
    lemma_number(capacity, lap, position);
    let m = lap_count(lap);
    let total = period(capacity, lap);
    let q = position / lap;
    let r = position % lap;
    let n = number_of(capacity, lap, position);
    vstd::arithmetic::div_mod::lemma_fundamental_div_mod(position, lap);
    vstd::arithmetic::div_mod::lemma_mod_bound(position, lap);
    assert(position + lap == (q + 1) * lap + r) by (nonlinear_arith)
        requires
            position == lap * q + r,
    ;
    assert(n + capacity == (q + 1) * capacity + r) by (nonlinear_arith)
        requires
            n == q * capacity + r,
    ;
    if q + 1 == m {
        vstd::arithmetic::div_mod::lemma_mod_multiples_vanish(1, r, 0x1_0000_0000_0000_0000);
        vstd::arithmetic::div_mod::lemma_small_mod(r as nat, 0x1_0000_0000_0000_0000);
        vstd::arithmetic::div_mod::lemma_mod_multiples_vanish(1, r, total);
        vstd::arithmetic::div_mod::lemma_small_mod(r as nat, total as nat);
        vstd::arithmetic::div_mod::lemma_small_mod(r as nat, capacity as nat);
        vstd::arithmetic::div_mod::lemma_basic_div(r, capacity);
        assert(n + capacity == total * 1 + r);
        assert((n + capacity) % total == r);
        assert(position + lap == 0x1_0000_0000_0000_0000 * 1 + r);
        assert((r / capacity) * lap == 0) by (nonlinear_arith)
            requires
                r / capacity == 0,
        ;
    } else {
        assert((q + 2) * capacity <= m * capacity) by (nonlinear_arith)
            requires
                q + 2 <= m,
                capacity > 0,
        ;
        assert((q + 2) * capacity == (q + 1) * capacity + capacity) by (nonlinear_arith);
        assert((q + 2) * lap <= m * lap) by (nonlinear_arith)
            requires
                q + 2 <= m,
                lap > 0,
        ;
        assert((q + 2) * lap == (q + 1) * lap + lap) by (nonlinear_arith);
        assert((q + 1) * capacity + r >= 0 && (q + 1) * lap + r >= 0) by (nonlinear_arith)
            requires
                q >= 0,
                r >= 0,
                lap > 0,
                capacity > 0,
        ;
        vstd::arithmetic::div_mod::lemma_small_mod((n + capacity) as nat, total as nat);
        vstd::arithmetic::div_mod::lemma_small_mod((position + lap) as nat, 0x1_0000_0000_0000_0000);
        vstd::arithmetic::div_mod::lemma_fundamental_div_mod_converse(
            n + capacity,
            capacity,
            q + 1,
            r,
        );
    }
}

/// Up to a lap of steps leads at most one lap of words further.
pub proof fn lemma_steps(capacity: int, lap: int, number: int, steps: int)
    requires
        laps_ok(capacity, lap),
        0 < steps <= capacity,
    ensures
        0 < (position_of(capacity, lap, number + steps) - position_of(capacity, lap, number))
            % 0x1_0000_0000_0000_0000 <= lap,
{
    lemma_period(capacity, lap);
    let m = lap_count(lap);
    let total = period(capacity, lap);
    let n = number % total;
    vstd::arithmetic::div_mod::lemma_mod_bound(number, total);
    vstd::arithmetic::div_mod::lemma_add_mod_noop(number, steps, total);
    vstd::arithmetic::div_mod::lemma_small_mod(steps as nat, total as nat);
    assert((number + steps) % total == (n + steps) % total);
    vstd::arithmetic::div_mod::lemma_fundamental_div_mod(n, capacity);
    vstd::arithmetic::div_mod::lemma_mod_bound(n, capacity);
    let q = n / capacity;
    let r = n % capacity;
    assert(0 <= q < m) by (nonlinear_arith)
        requires
            n == capacity * q + r,
            0 <= r < capacity,
            0 <= n < m * capacity,
    ;
    let from = position_of(capacity, lap, number);
    let to = position_of(capacity, lap, number + steps);
    assert(from == q * lap + r);
    let t = (n + steps) % total;
    if r + steps < capacity {
        assert(n + steps < total) by (nonlinear_arith)
            requires
                n == capacity * q + r,
                r + steps < capacity,
                q + 1 <= m,
                total == m * capacity,
                capacity > 0,
        ;
        vstd::arithmetic::div_mod::lemma_small_mod((n + steps) as nat, total as nat);
        assert(n + steps == q * capacity + (r + steps)) by (nonlinear_arith)
            requires
                n == capacity * q + r,
        ;
        vstd::arithmetic::div_mod::lemma_fundamental_div_mod_converse(
            n + steps,
            capacity,
            q,
            r + steps,
        );
        assert(to - from == steps);
        vstd::arithmetic::div_mod::lemma_small_mod(steps as nat, 0x1_0000_0000_0000_0000);
    } else {
        let rest = r + steps - capacity;
        assert(n + steps == (q + 1) * capacity + rest) by (nonlinear_arith)
            requires
                n == capacity * q + r,
                rest == r + steps - capacity,
        ;
        let ahead = lap + steps - capacity;
        vstd::arithmetic::div_mod::lemma_small_mod(ahead as nat, 0x1_0000_0000_0000_0000);
        if q + 1 == m {
            assert(n + steps == total * 1 + rest);
            vstd::arithmetic::div_mod::lemma_mod_multiples_vanish(1, rest, total);
            vstd::arithmetic::div_mod::lemma_small_mod(rest as nat, total as nat);
            vstd::arithmetic::div_mod::lemma_small_mod(rest as nat, capacity as nat);
            vstd::arithmetic::div_mod::lemma_basic_div(rest, capacity);
            assert((rest / capacity) * lap == 0) by (nonlinear_arith)
                requires
                    rest / capacity == 0,
            ;
            assert(to == rest);
            assert(q * lap == 0x1_0000_0000_0000_0000 - lap) by (nonlinear_arith)
                requires
                    m * lap == 0x1_0000_0000_0000_0000,
                    q + 1 == m,
            ;
            assert(to - from == 0x1_0000_0000_0000_0000 * -1 + ahead);
            vstd::arithmetic::div_mod::lemma_mod_multiples_vanish(
                -1,
                ahead,
                0x1_0000_0000_0000_0000,
            );
        } else {
            assert((q + 2) * capacity <= m * capacity) by (nonlinear_arith)
                requires
                    q + 2 <= m,
                    capacity > 0,
            ;
            assert((q + 2) * capacity == (q + 1) * capacity + capacity) by (nonlinear_arith);
            vstd::arithmetic::div_mod::lemma_small_mod((n + steps) as nat, total as nat);
            vstd::arithmetic::div_mod::lemma_fundamental_div_mod_converse(
                n + steps,
                capacity,
                q + 1,
                rest,
            );
            assert((q + 1) * lap == q * lap + lap) by (nonlinear_arith);
            assert(to - from == ahead);
        }
    }
}

} // verus!
