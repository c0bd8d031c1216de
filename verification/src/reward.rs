//! Reward accrual: the global reward index, a staker's pending rewards, and
//! the bond totals.

use crate::math::{checked_decimal_from_ratio, checked_mul_decimal, decimal_from_ratio, mul_atomics, mul_decimal, ratio_atomics};
use crate::msg::OverflowError;
use crate::state::{zeros, Config, Schedule, StakerInfo, StakerView, State};
use vstd::prelude::*;

verus! {

// ---------------------------------------------------------------------------
// The global reward index
// ---------------------------------------------------------------------------

pub open spec fn min_time(a: u64, b: u64) -> int {
    if a <= b {
        a as int
    } else {
        b as int
    }
}

pub open spec fn max_time(a: u64, b: u64) -> int {
    if a >= b {
        a as int
    } else {
        b as int
    }
}

/// A schedule pays out between the last distribution and `block_time` unless
/// it starts after `block_time` or ends before the last distribution.
pub open spec fn schedule_active(schedule: Schedule, last_distributed: u64, block_time: u64) -> bool {
    schedule.start_time <= block_time && schedule.end_time >= last_distributed
}

/// Seconds of the schedule that fall between the last distribution and `block_time`.
pub open spec fn passed_time(schedule: Schedule, last_distributed: u64, block_time: u64) -> int {
    min_time(schedule.end_time, block_time) - max_time(schedule.start_time, last_distributed)
}

/// The schedule's payout per second, as `Decimal` atomics.
pub open spec fn reward_per_second(schedule: Schedule) -> int {
    ratio_atomics(schedule.amount as int, schedule.end_time - schedule.start_time)
}

/// Tokens the schedule pays out over the passed time.
pub open spec fn distributed_amount(schedule: Schedule, last_distributed: u64, block_time: u64) -> int {
    mul_atomics(passed_time(schedule, last_distributed, block_time), reward_per_second(schedule))
}

/// Tokens a distribution from `last_distributed` to `block_time` pays out of
/// the schedule (nothing when the schedule is not active).
pub open spec fn schedule_payout(schedule: Schedule, last_distributed: u64, block_time: u64) -> int {
    if schedule_active(schedule, last_distributed, block_time) {
        distributed_amount(schedule, last_distributed, block_time)
    } else {
        0
    }
}

/// Tokens the first `k` schedules pay out together.
pub open spec fn payout_sum(schedules: Seq<Schedule>, k: int, last_distributed: u64, block_time: u64) -> int
    decreases k,
{
    if k <= 0 {
        0
    } else {
        payout_sum(schedules, k - 1, last_distributed, block_time) + schedule_payout(
            schedules[k - 1],
            last_distributed,
            block_time,
        )
    }
}

/// Tokens a reward token's schedules pay out from `last_distributed` to `block_time`.
pub open spec fn token_payout(schedules: Seq<Schedule>, last_distributed: u64, block_time: u64) -> int {
    payout_sum(schedules, schedules.len() as int, last_distributed, block_time)
}

/// The growth of a token's reward index: its payout per bonded unit, as
/// `Decimal` atomics.
pub open spec fn index_increment(
    schedules: Seq<Schedule>,
    last_distributed: u64,
    block_time: u64,
    total_bond_amount: u128,
) -> int {
    ratio_atomics(token_payout(schedules, last_distributed, block_time), total_bond_amount as int)
}

/// Computing a schedule's payout neither divides by zero, nor underflows, nor overflows.
pub open spec fn schedule_computable(schedule: Schedule, last_distributed: u64, block_time: u64) -> bool {
    schedule_active(schedule, last_distributed, block_time) ==> {
        &&& schedule.start_time < schedule.end_time
        &&& passed_time(schedule, last_distributed, block_time) >= 0
        &&& reward_per_second(schedule) <= u128::MAX
        &&& distributed_amount(schedule, last_distributed, block_time) <= u128::MAX
    }
}

/// Schedule `j` of a token is computable, and the running payout after it
/// fits in a `u128`.
pub open spec fn schedule_step_fits(
    schedules: Seq<Schedule>,
    j: int,
    last_distributed: u64,
    block_time: u64,
) -> bool {
    &&& schedule_computable(schedules[j], last_distributed, block_time)
    &&& payout_sum(schedules, j + 1, last_distributed, block_time) <= u128::MAX
}

/// Applying token `i`'s schedules to `index` neither indexes out of bounds, nor
/// divides by zero, nor underflows, nor overflows.
pub open spec fn token_applicable(
    schedules: Seq<Schedule>,
    index: Seq<u128>,
    i: int,
    last_distributed: u64,
    block_time: u64,
    total_bond_amount: u128,
) -> bool {
    &&& i < index.len()
    &&& forall|j: int|
        0 <= j < schedules.len() ==> #[trigger] schedule_step_fits(
            schedules,
            j,
            last_distributed,
            block_time,
        )
    &&& index_increment(schedules, last_distributed, block_time, total_bond_amount) <= u128::MAX
    &&& index[i] + index_increment(schedules, last_distributed, block_time, total_bond_amount)
        <= u128::MAX
}

/// `compute_reward` runs without a panic.
pub open spec fn can_compute_reward(config: Config, state: State, block_time: u64) -> bool {
    state.total_bond_amount == 0 || forall|i: int|
        0 <= i < config.distribution_schedule@.len() ==> #[trigger] token_applicable(
            config.distribution_schedule@[i]@,
            state.global_reward_index@,
            i,
            state.last_distributed,
            block_time,
            state.total_bond_amount,
        )
}

/// The global reward index after distributing up to `block_time`: each reward
/// token's index grows by what its schedules pay out divided by the total bond;
/// nothing is distributed while nothing is bonded.
pub open spec fn rewarded_index(config: Config, state: State, block_time: u64) -> Seq<u128> {
    let index = state.global_reward_index@;
    let schedules = config.distribution_schedule@;
    if state.total_bond_amount == 0 {
        index
    } else {
        Seq::new(
            index.len(),
            |i: int|
                if i < schedules.len() {
                    (index[i] + index_increment(
                        schedules[i]@,
                        state.last_distributed,
                        block_time,
                        state.total_bond_amount,
                    )) as u128
                } else {
                    index[i]
                },
        )
    }
}

/// Tokens a reward token's schedules pay out from `last_distributed` to
/// `block_time`, summed in order.
fn token_distributed(schedules: &Vec<Schedule>, last_distributed: u64, block_time: u64) -> (distributed: u128)
    requires
        forall|j: int|
            0 <= j < schedules@.len() ==> #[trigger] schedule_step_fits(
                schedules@,
                j,
                last_distributed,
                block_time,
            ),
    ensures
        distributed == token_payout(schedules@, last_distributed, block_time),
{
    let mut distributed: u128 = 0;
    let n = schedules.len();
    let mut j: usize = 0;
    while j < n
        invariant
            n == schedules@.len(),
            0 <= j <= n,
            forall|k: int|
                0 <= k < schedules@.len() ==> #[trigger] schedule_step_fits(
                    schedules@,
                    k,
                    last_distributed,
                    block_time,
                ),
            distributed == payout_sum(schedules@, j as int, last_distributed, block_time),
        decreases n - j,
    {
        let schedule = schedules[j];
        assert(schedule_step_fits(schedules@, j as int, last_distributed, block_time));
        if !(schedule.start_time > block_time || schedule.end_time < last_distributed) {
            let upper = if schedule.end_time <= block_time {
                schedule.end_time
            } else {
                block_time
            };
            let lower = if schedule.start_time >= last_distributed {
                schedule.start_time
            } else {
                last_distributed
            };
            let passed = upper - lower;
            let time = schedule.end_time - schedule.start_time;
            let per_second = decimal_from_ratio(schedule.amount, time as u128);
            let amount = mul_decimal(passed as u128, per_second);
            distributed = distributed + amount;
        }
        j += 1;
    }
    distributed
}

/// Distributes the rewards of every schedule up to `block_time` into the
/// global reward index and records `block_time` as the last distribution.
pub fn compute_reward(config: &Config, state: &mut State, block_time: u64)
    requires
        can_compute_reward(*config, *old(state), block_time),
    ensures
        final(state).last_distributed == block_time,
        final(state).total_bond_amount == old(state).total_bond_amount,
        final(state).global_reward_index@ == rewarded_index(*config, *old(state), block_time),
{
    if state.total_bond_amount == 0 {
        state.last_distributed = block_time;
        return;
    }
    let ghost start = *state;
    let ghost target = rewarded_index(*config, start, block_time);
    let n = config.distribution_schedule.len();
    let mut index: usize = 0;
    while index < n
        invariant
            n == config.distribution_schedule@.len(),
            0 <= index <= n,
            can_compute_reward(*config, start, block_time),
            target == rewarded_index(*config, start, block_time),
            start.total_bond_amount != 0,
            state.total_bond_amount == start.total_bond_amount,
            state.last_distributed == start.last_distributed,
            state.global_reward_index@.len() == start.global_reward_index@.len(),
            forall|j: int|
                0 <= j < state.global_reward_index@.len() ==> state.global_reward_index@[j] == (
                if j < index {
                    target[j]
                } else {
                    start.global_reward_index@[j]
                }),
        decreases n - index,
    {
        assert(token_applicable(
            config.distribution_schedule@[index as int]@,
            start.global_reward_index@,
            index as int,
            start.last_distributed,
            block_time,
            start.total_bond_amount,
        ));
        let distributed = token_distributed(
            &config.distribution_schedule[index],
            state.last_distributed,
            block_time,
        );
        let increment = decimal_from_ratio(distributed, state.total_bond_amount);
        let updated = state.global_reward_index[index] + increment;
        state.global_reward_index.set(index, updated);
        index += 1;
    }
    state.last_distributed = block_time;
    assert(state.global_reward_index@ =~= target);
}

/// The payout of a reward token's schedules when computing it runs without a
/// panic, `None` when it would panic.
fn check_token_distributed(schedules: &Vec<Schedule>, last_distributed: u64, block_time: u64) -> (distributed: Option<u128>)
    ensures
        distributed is Some <==> forall|j: int|
            0 <= j < schedules@.len() ==> #[trigger] schedule_step_fits(
                schedules@,
                j,
                last_distributed,
                block_time,
            ),
        distributed matches Some(d) ==> d == token_payout(schedules@, last_distributed, block_time),
{
    let mut distributed: u128 = 0;
    let n = schedules.len();
    let mut j: usize = 0;
    while j < n
        invariant
            n == schedules@.len(),
            0 <= j <= n,
            forall|k: int|
                0 <= k < j ==> #[trigger] schedule_step_fits(
                    schedules@,
                    k,
                    last_distributed,
                    block_time,
                ),
            distributed == payout_sum(schedules@, j as int, last_distributed, block_time),
        decreases n - j,
    {
        let schedule = schedules[j];
        let ghost k = j as int;
        if !(schedule.start_time > block_time || schedule.end_time < last_distributed) {
            let upper = if schedule.end_time <= block_time {
                schedule.end_time
            } else {
                block_time
            };
            let lower = if schedule.start_time >= last_distributed {
                schedule.start_time
            } else {
                last_distributed
            };
            if schedule.start_time >= schedule.end_time || upper < lower {
                assert(!schedule_step_fits(schedules@, k, last_distributed, block_time));
                return None;
            }
            let passed = upper - lower;
            let time = schedule.end_time - schedule.start_time;
            let amount = match checked_decimal_from_ratio(schedule.amount, time as u128) {
                None => {
                    assert(!schedule_step_fits(schedules@, k, last_distributed, block_time));
                    return None;
                },
                Some(per_second) => match checked_mul_decimal(passed as u128, per_second) {
                    None => {
                        assert(!schedule_step_fits(schedules@, k, last_distributed, block_time));
                        return None;
                    },
                    Some(amount) => amount,
                },
            };
            match distributed.checked_add(amount) {
                None => {
                    assert(!schedule_step_fits(schedules@, k, last_distributed, block_time));
                    return None;
                },
                Some(sum) => {
                    distributed = sum;
                },
            }
        }
        assert(schedule_step_fits(schedules@, k, last_distributed, block_time));
        j += 1;
    }
    Some(distributed)
}

/// Whether `compute_reward(config, state, block_time)` runs without a panic.
pub fn check_compute_reward(config: &Config, state: &State, block_time: u64) -> (ok: bool)
    ensures
        ok == can_compute_reward(*config, *state, block_time),
{
    if state.total_bond_amount == 0 {
        return true;
    }
    let n = config.distribution_schedule.len();
    let mut index: usize = 0;
    while index < n
        invariant
            n == config.distribution_schedule@.len(),
            0 <= index <= n,
            state.total_bond_amount != 0,
            forall|j: int|
                0 <= j < index ==> #[trigger] token_applicable(
                    config.distribution_schedule@[j]@,
                    state.global_reward_index@,
                    j,
                    state.last_distributed,
                    block_time,
                    state.total_bond_amount,
                ),
        decreases n - index,
    {
        let ghost i = index as int;
        let ghost schedules = config.distribution_schedule@[i]@;
        if index >= state.global_reward_index.len() {
            assert(!token_applicable(
                schedules,
                state.global_reward_index@,
                i,
                state.last_distributed,
                block_time,
                state.total_bond_amount,
            ));
            return false;
        }
        let distributed = match check_token_distributed(
            &config.distribution_schedule[index],
            state.last_distributed,
            block_time,
        ) {
            Some(d) => d,
            None => {
                assert(!token_applicable(
                    schedules,
                    state.global_reward_index@,
                    i,
                    state.last_distributed,
                    block_time,
                    state.total_bond_amount,
                ));
                return false;
            },
        };
        let fits = match checked_decimal_from_ratio(distributed, state.total_bond_amount) {
            None => false,
            Some(increment) => state.global_reward_index[index].checked_add(increment).is_some(),
        };
        if !fits {
            assert(!token_applicable(
                schedules,
                state.global_reward_index@,
                i,
                state.last_distributed,
                block_time,
                state.total_bond_amount,
            ));
            return false;
        }
        index += 1;
    }
    true
}

// ---------------------------------------------------------------------------
// A staker's pending rewards
// ---------------------------------------------------------------------------

/// Reward tokens the global index has that the staker does not yet track.
pub open spec fn missing_tokens(index: Seq<u128>, staker: StakerView) -> nat {
    if index.len() > staker.reward_index.len() {
        (index.len() - staker.reward_index.len()) as nat
    } else {
        0
    }
}

/// The staker's reward index, extended with zeros for the tokens it lacks.
pub open spec fn extended_reward_index(index: Seq<u128>, staker: StakerView) -> Seq<u128> {
    staker.reward_index + zeros(missing_tokens(index, staker))
}

/// The staker's pending rewards, extended by as many zeros as its reward index.
pub open spec fn extended_pending_reward(index: Seq<u128>, staker: StakerView) -> Seq<u128> {
    staker.pending_reward + zeros(missing_tokens(index, staker))
}

/// The staker's share of token `i` at the global index: `bond * index[i]`.
pub open spec fn accrued_share(index: Seq<u128>, staker: StakerView, i: int) -> int {
    mul_atomics(staker.bond_amount as int, index[i] as int)
}

/// The share of token `i` the staker has already been credited: `bond * reward_index[i]`.
pub open spec fn settled_share(index: Seq<u128>, staker: StakerView, i: int) -> int {
    mul_atomics(staker.bond_amount as int, extended_reward_index(index, staker)[i] as int)
}

/// The credited share of token `i` does not exceed the accrued one.
pub open spec fn share_settles(index: Seq<u128>, staker: StakerView, i: int) -> bool {
    settled_share(index, staker, i) <= accrued_share(index, staker, i)
}

/// Step `i` of `compute_staker_reward` does not overflow.
pub open spec fn share_fits(index: Seq<u128>, staker: StakerView, i: int) -> bool {
    &&& accrued_share(index, staker, i) <= u128::MAX
    &&& settled_share(index, staker, i) <= u128::MAX
    &&& share_settles(index, staker, i) ==> extended_pending_reward(index, staker)[i]
        + accrued_share(index, staker, i) - settled_share(index, staker, i) <= u128::MAX
}

/// `compute_staker_reward` runs without a panic: the staker tracks no more
/// tokens than the index, has a pending amount for each tracked token, and no
/// step it reaches overflows.
pub open spec fn can_compute_staker_reward(index: Seq<u128>, staker: StakerView) -> bool {
    &&& staker.reward_index.len() <= index.len()
    &&& staker.pending_reward.len() >= staker.reward_index.len()
    &&& forall|i: int|
        0 <= i < index.len() ==> (forall|k: int| 0 <= k < i ==> #[trigger] share_settles(index, staker, k))
            ==> #[trigger] share_fits(index, staker, i)
}

/// `compute_staker_reward` returns `Ok`: no token's credited share exceeds its accrued share.
pub open spec fn staker_reward_settles(index: Seq<u128>, staker: StakerView) -> bool {
    forall|i: int| 0 <= i < index.len() ==> #[trigger] share_settles(index, staker, i)
}

/// The pending rewards after accrual: each token gains `bond * (index - reward_index)`.
pub open spec fn accrued_pending_reward(index: Seq<u128>, staker: StakerView) -> Seq<u128> {
    let pending = extended_pending_reward(index, staker);
    Seq::new(
        pending.len(),
        |i: int|
            if i < index.len() {
                (pending[i] + accrued_share(index, staker, i) - settled_share(index, staker, i)) as u128
            } else {
                pending[i]
            },
    )
}

/// Token `j` is the first whose credited share exceeds its accrued share.
pub open spec fn is_first_shortfall(index: Seq<u128>, staker: StakerView, j: int) -> bool {
    &&& 0 <= j < index.len()
    &&& forall|k: int| 0 <= k < j ==> #[trigger] share_settles(index, staker, k)
    &&& !share_settles(index, staker, j)
}

/// `error` reports the first token whose credited share exceeds its accrued share.
pub open spec fn first_shortfall(index: Seq<u128>, staker: StakerView, error: OverflowError) -> bool {
    exists|j: int|
        #[trigger] is_first_shortfall(index, staker, j) && error.operand1 == accrued_share(
            index,
            staker,
            j,
        ) && error.operand2 == settled_share(index, staker, j)
}

/// The staker's reward index with the tokens before `j` brought up to the index.
pub open spec fn reward_index_accrued_before(index: Seq<u128>, staker: StakerView, j: int) -> Seq<
    u128,
> {
    Seq::new(
        index.len(),
        |k: int|
            if k < j {
                index[k]
            } else {
                extended_reward_index(index, staker)[k]
            },
    )
}

/// The staker's pending rewards with the tokens before `j` accrued.
pub open spec fn pending_reward_accrued_before(index: Seq<u128>, staker: StakerView, j: int) -> Seq<
    u128,
> {
    let pending = extended_pending_reward(index, staker);
    Seq::new(
        pending.len(),
        |k: int|
            if k < j {
                accrued_pending_reward(index, staker)[k]
            } else {
                pending[k]
            },
    )
}

/// Moves the rewards accrued since the staker's last update into its pending
/// rewards and brings its reward index up to the global one.
pub fn compute_staker_reward(state: &State, staker_info: &mut StakerInfo) -> (result: Result<
    (),
    OverflowError,
>)
    requires
        can_compute_staker_reward(state.global_reward_index@, old(staker_info)@),
    ensures
        final(staker_info).address == old(staker_info).address,
        final(staker_info).bond_amount == old(staker_info).bond_amount,
        result is Ok <==> staker_reward_settles(state.global_reward_index@, old(staker_info)@),
        result is Ok ==> final(staker_info).reward_index@ == state.global_reward_index@
            && final(staker_info).pending_reward@ == accrued_pending_reward(
            state.global_reward_index@,
            old(staker_info)@,
        ),
        result matches Err(e) ==> first_shortfall(state.global_reward_index@, old(staker_info)@, e),
        result is Err ==> exists|j: int|
            #[trigger] is_first_shortfall(state.global_reward_index@, old(staker_info)@, j)
                && final(staker_info).reward_index@ == reward_index_accrued_before(
                state.global_reward_index@,
                old(staker_info)@,
                j,
            ) && final(staker_info).pending_reward@ == pending_reward_accrued_before(
                state.global_reward_index@,
                old(staker_info)@,
                j,
            ),
{
    let ghost index = state.global_reward_index@;
    let ghost start = staker_info@;
    let ghost extended_index = extended_reward_index(index, start);
    let ghost extended_pending = extended_pending_reward(index, start);
    while state.global_reward_index.len() > staker_info.reward_index.len()
        invariant
            index == state.global_reward_index@,
            staker_info.address == old(staker_info).address,
            staker_info.bond_amount == start.bond_amount,
            start.reward_index.len() <= staker_info.reward_index@.len() <= index.len(),
            staker_info.reward_index@ == start.reward_index + zeros(
                (staker_info.reward_index@.len() - start.reward_index.len()) as nat,
            ),
            staker_info.pending_reward@ == start.pending_reward + zeros(
                (staker_info.reward_index@.len() - start.reward_index.len()) as nat,
            ),
        decreases index.len() - staker_info.reward_index@.len(),
    {
        let ghost before = staker_info.reward_index@.len() - start.reward_index.len();
        staker_info.reward_index.push(0);
        staker_info.pending_reward.push(0);
        assert(zeros((before + 1) as nat) =~= zeros(before as nat).push(0));
    }
    assert(staker_info.reward_index@ =~= extended_index);
    assert(staker_info.pending_reward@ =~= extended_pending);
    let n = staker_info.reward_index.len();
    let mut i: usize = 0;
    while i < n
        invariant
            index == state.global_reward_index@,
            n == index.len(),
            0 <= i <= n,
            can_compute_staker_reward(index, start),
            start == old(staker_info)@,
            staker_info.address == old(staker_info).address,
            staker_info.bond_amount == start.bond_amount,
            staker_info.reward_index@.len() == n,
            staker_info.pending_reward@.len() == extended_pending.len(),
            extended_index == extended_reward_index(index, start),
            extended_pending == extended_pending_reward(index, start),
            extended_index.len() == n,
            extended_pending.len() >= n,
            forall|k: int| 0 <= k < i ==> #[trigger] share_settles(index, start, k),
            forall|k: int|
                0 <= k < n ==> staker_info.reward_index@[k] == (if k < i {
                    index[k]
                } else {
                    extended_index[k]
                }),
            forall|k: int|
                0 <= k < extended_pending.len() ==> staker_info.pending_reward@[k] == (if k < i {
                    accrued_pending_reward(index, start)[k]
                } else {
                    extended_pending[k]
                }),
        decreases n - i,
    {
        assert(share_fits(index, start, i as int));
        let accrued = mul_decimal(staker_info.bond_amount, state.global_reward_index[i]);
        let settled = mul_decimal(staker_info.bond_amount, staker_info.reward_index[i]);
        if accrued < settled {
            assert(!share_settles(index, start, i as int));
            assert(is_first_shortfall(index, start, i as int));
            assert(staker_info.reward_index@ =~= reward_index_accrued_before(index, start, i as int));
            assert(staker_info.pending_reward@ =~= pending_reward_accrued_before(
                index,
                start,
                i as int,
            ));
            return Err(OverflowError { operand1: accrued, operand2: settled });
        }
        let pending = staker_info.pending_reward[i] + (accrued - settled);
        staker_info.reward_index.set(i, state.global_reward_index[i]);
        staker_info.pending_reward.set(i, pending);
        i += 1;
    }
    assert(staker_info.reward_index@ =~= index);
    assert(staker_info.pending_reward@ =~= accrued_pending_reward(index, start));
    Ok(())
}

/// Whether `compute_staker_reward(state, staker_info)` runs without a panic.
pub fn check_compute_staker_reward(state: &State, staker_info: &StakerInfo) -> (ok: bool)
    ensures
        ok == can_compute_staker_reward(state.global_reward_index@, staker_info@),
{
    let ghost index = state.global_reward_index@;
    let g = state.global_reward_index.len();
    let r = staker_info.reward_index.len();
    let p = staker_info.pending_reward.len();
    if r > g || p < r {
        return false;
    }
    let mut i: usize = 0;
    while i < g
        invariant
            index == state.global_reward_index@,
            g == index.len(),
            r == staker_info.reward_index@.len(),
            p == staker_info.pending_reward@.len(),
            r <= g,
            p >= r,
            0 <= i <= g,
            forall|k: int| 0 <= k < i ==> #[trigger] share_settles(index, staker_info@, k),
            forall|k: int| 0 <= k < i ==> #[trigger] share_fits(index, staker_info@, k),
        decreases g - i,
    {
        let ghost extended_index = extended_reward_index(index, staker_info@);
        let ghost extended_pending = extended_pending_reward(index, staker_info@);
        let settled_index = if i < r {
            staker_info.reward_index[i]
        } else {
            0
        };
        let pending = if i < p {
            staker_info.pending_reward[i]
        } else {
            0
        };
        assert(settled_index == extended_index[i as int]);
        assert(pending == extended_pending[i as int]);
        let accrued = match checked_mul_decimal(staker_info.bond_amount, state.global_reward_index[i]) {
            Some(v) => v,
            None => {
                assert(!share_fits(index, staker_info@, i as int));
                return false;
            },
        };
        let settled = match checked_mul_decimal(staker_info.bond_amount, settled_index) {
            Some(v) => v,
            None => {
                assert(!share_fits(index, staker_info@, i as int));
                return false;
            },
        };
        if accrued < settled {
            assert forall|j: int|
                0 <= j < index.len() && (forall|k: int|
                    0 <= k < j ==> #[trigger] share_settles(index, staker_info@, k)) implies #[trigger] share_fits(
                index,
                staker_info@,
                j,
            ) by {
                if j > i {
                    assert(share_settles(index, staker_info@, i as int));
                }
            }
            return true;
        }
        if pending.checked_add(accrued - settled).is_none() {
            assert(!share_fits(index, staker_info@, i as int));
            return false;
        }
        i += 1;
    }
    true
}

// ---------------------------------------------------------------------------
// Consistency
// ---------------------------------------------------------------------------

/// Configuration and state agree: one list of schedules per reward token, and
/// the global index tracks every token.
pub open spec fn config_state_consistent(config: Config, state: State) -> bool {
    &&& config.reward_token@.len() == config.distribution_schedule@.len()
    &&& config.distribution_schedule@.len() <= state.global_reward_index@.len()
}

/// A staker agrees with the global index: a pending amount per tracked token,
/// no more tokens than the index, and no entry ahead of the global one.
pub open spec fn staker_consistent(index: Seq<u128>, staker: StakerView) -> bool {
    &&& staker.pending_reward.len() == staker.reward_index.len()
    &&& staker.reward_index.len() <= index.len()
    &&& forall|i: int| 0 <= i < staker.reward_index.len() ==> staker.reward_index[i] <= index[i]
}

/// `later` extends `earlier` without lowering any entry.
pub open spec fn index_grows(earlier: Seq<u128>, later: Seq<u128>) -> bool {
    &&& earlier.len() <= later.len()
    &&& forall|i: int| 0 <= i < earlier.len() ==> earlier[i] <= later[i]
}

// ---------------------------------------------------------------------------
// Bond totals
// ---------------------------------------------------------------------------

/// Adds `amount` to the total bond and to the staker's bond.
pub(crate) fn increase_bond_amount(state: &mut State, staker_info: &mut StakerInfo, amount: u128)
    requires
        old(state).total_bond_amount + amount <= u128::MAX,
        old(staker_info).bond_amount + amount <= u128::MAX,
    ensures
        final(state).total_bond_amount == old(state).total_bond_amount + amount,
        final(staker_info).bond_amount == old(staker_info).bond_amount + amount,
        final(state).last_distributed == old(state).last_distributed,
        final(state).global_reward_index == old(state).global_reward_index,
        final(staker_info).address == old(staker_info).address,
        final(staker_info).reward_index == old(staker_info).reward_index,
        final(staker_info).pending_reward == old(staker_info).pending_reward,
{
    state.total_bond_amount = state.total_bond_amount + amount;
    staker_info.bond_amount = staker_info.bond_amount + amount;
}

/// Subtracts `amount` from the total bond and then from the staker's bond,
/// failing at the first subtraction that would go below zero.
pub(crate) fn decrease_bond_amount(state: &mut State, staker_info: &mut StakerInfo, amount: u128) -> (result: Result<
    (),
    OverflowError,
>)
    ensures
        final(state).last_distributed == old(state).last_distributed,
        final(state).global_reward_index == old(state).global_reward_index,
        final(staker_info).address == old(staker_info).address,
        final(staker_info).reward_index == old(staker_info).reward_index,
        final(staker_info).pending_reward == old(staker_info).pending_reward,
        result is Ok <==> (amount <= old(state).total_bond_amount && amount <= old(
            staker_info,
        ).bond_amount),
        result is Ok ==> final(state).total_bond_amount == old(state).total_bond_amount - amount
            && final(staker_info).bond_amount == old(staker_info).bond_amount - amount,
        result matches Err(e) ==> (if amount > old(state).total_bond_amount {
            e == OverflowError { operand1: old(state).total_bond_amount, operand2: amount }
        } else {
            e == OverflowError { operand1: old(staker_info).bond_amount, operand2: amount }
        }),
        result is Err ==> final(staker_info).bond_amount == old(staker_info).bond_amount,
        result is Err ==> final(state).total_bond_amount == (if amount > old(
            state,
        ).total_bond_amount {
            old(state).total_bond_amount
        } else {
            (old(state).total_bond_amount - amount) as u128
        }),
{
    if state.total_bond_amount < amount {
        return Err(OverflowError { operand1: state.total_bond_amount, operand2: amount });
    }
    state.total_bond_amount = state.total_bond_amount - amount;
    if staker_info.bond_amount < amount {
        return Err(OverflowError { operand1: staker_info.bond_amount, operand2: amount });
    }
    staker_info.bond_amount = staker_info.bond_amount - amount;
    Ok(())
}

} // verus!
