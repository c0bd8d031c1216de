//! Properties of the reward accounting that span several calls.

use crate::math::{decimal_fractional, mul_atomics, ratio_atomics};
use crate::reward::{
    accrued_pending_reward, accrued_share, can_compute_reward, can_compute_staker_reward,
    distributed_amount, index_increment, share_fits,
    extended_pending_reward, extended_reward_index, index_grows, missing_tokens, passed_time,
    payout_sum, reward_per_second, rewarded_index, schedule_active, schedule_computable,
    schedule_payout, schedule_step_fits, settled_share, share_settles, staker_consistent,
    staker_reward_settles, token_applicable, token_payout,
};
use crate::contract::{
    bond_outcome, bonding_staker, can_bond, can_redeem, lemma_first_locked_from, redeem_outcome,
    unbond_outcome, withdrawable_count,
};
use crate::msg::{is_reward_payment, ContractError, Response, Transfer};
use crate::state::{
    zeros, Config, Schedule, StakerInfo, StakerView, State, UnbondingInfo, UserEarnedInfo,
};
use vstd::prelude::*;

verus! {

/// `value * a` over a `Decimal` is monotone in `a`.
proof fn lemma_mul_atomics_monotone(value: int, a: int, b: int)
    requires
        0 <= value,
        0 <= a <= b,
    ensures
        0 <= mul_atomics(value, a) <= mul_atomics(value, b),
{
    vstd::arithmetic::mul::lemma_mul_inequality(a, b, value);
    vstd::arithmetic::mul::lemma_mul_nonnegative(value, a);
    assert(value * a == a * value) by (nonlinear_arith);
    assert(value * b == b * value) by (nonlinear_arith);
    vstd::arithmetic::div_mod::lemma_div_is_ordered(value * a, value * b, 1_000_000_000_000_000_000);
    vstd::arithmetic::div_mod::lemma_div_pos_is_pos(value * a, 1_000_000_000_000_000_000);
}

/// A schedule's payout is never negative.
proof fn lemma_schedule_payout_nonnegative(schedule: Schedule, last_distributed: u64, block_time: u64)
    requires
        schedule_computable(schedule, last_distributed, block_time),
    ensures
        schedule_payout(schedule, last_distributed, block_time) >= 0,
{
    if schedule_active(schedule, last_distributed, block_time) {
        let per = reward_per_second(schedule);
        let passed = passed_time(schedule, last_distributed, block_time);
        vstd::arithmetic::mul::lemma_mul_nonnegative(schedule.amount as int, decimal_fractional());
        vstd::arithmetic::div_mod::lemma_div_pos_is_pos(
            schedule.amount as int * decimal_fractional(),
            schedule.end_time - schedule.start_time,
        );
        lemma_mul_atomics_monotone(passed, 0, per);
    }
}

/// A token's running payout is never negative.
proof fn lemma_payout_sum_nonnegative(
    schedules: Seq<Schedule>,
    k: int,
    last_distributed: u64,
    block_time: u64,
)
    requires
        k <= schedules.len(),
        forall|j: int|
            0 <= j < schedules.len() ==> #[trigger] schedule_step_fits(
                schedules,
                j,
                last_distributed,
                block_time,
            ),
    ensures
        payout_sum(schedules, k, last_distributed, block_time) >= 0,
    decreases k,
{
    if k > 0 {
        lemma_payout_sum_nonnegative(schedules, k - 1, last_distributed, block_time);
        assert(schedule_step_fits(schedules, k - 1, last_distributed, block_time));
        lemma_schedule_payout_nonnegative(schedules[k - 1], last_distributed, block_time);
    }
}

/// Distributing rewards never lowers an entry of the global reward index and
/// never changes its length.
pub proof fn reward_distribution_grows_index(config: Config, state: State, block_time: u64)
    requires
        can_compute_reward(config, state, block_time),
    ensures
        rewarded_index(config, state, block_time).len() == state.global_reward_index@.len(),
        index_grows(state.global_reward_index@, rewarded_index(config, state, block_time)),
{
    let index = state.global_reward_index@;
    let schedules = config.distribution_schedule@;
    if state.total_bond_amount != 0 {
        assert forall|i: int| 0 <= i < index.len() implies index[i] <= rewarded_index(
            config,
            state,
            block_time,
        )[i] by {
            if i < schedules.len() {
                assert(token_applicable(
                    schedules[i]@,
                    index,
                    i,
                    state.last_distributed,
                    block_time,
                    state.total_bond_amount,
                ));
                lemma_payout_sum_nonnegative(
                    schedules[i]@,
                    schedules[i]@.len() as int,
                    state.last_distributed,
                    block_time,
                );
                let distributed = token_payout(schedules[i]@, state.last_distributed, block_time);
                vstd::arithmetic::mul::lemma_mul_nonnegative(distributed, decimal_fractional());
                vstd::arithmetic::div_mod::lemma_div_pos_is_pos(
                    distributed * decimal_fractional(),
                    state.total_bond_amount as int,
                );
            }
        }
    }
}

/// A staker consistent with an index stays consistent with any index that
/// grows from it: stakers untouched by a call remain consistent.
pub proof fn index_growth_keeps_staker_consistent(
    earlier: Seq<u128>,
    later: Seq<u128>,
    staker: StakerView,
)
    requires
        staker_consistent(earlier, staker),
        index_grows(earlier, later),
    ensures
        staker_consistent(later, staker),
{
}

/// Accrual never fails for a consistent staker: its credited share of each
/// token never exceeds the accrued share.
pub proof fn consistent_staker_settles(index: Seq<u128>, staker: StakerView)
    requires
        staker_consistent(index, staker),
    ensures
        staker_reward_settles(index, staker),
{
    assert forall|i: int| 0 <= i < index.len() implies #[trigger] share_settles(index, staker, i) by {
        let extended = extended_reward_index(index, staker);
        if i < staker.reward_index.len() {
            assert(extended[i] == staker.reward_index[i]);
        } else {
            assert(extended[i] == 0);
        }
        lemma_mul_atomics_monotone(staker.bond_amount as int, extended[i] as int, index[i] as int);
    }
}

/// After a successful accrual the staker is consistent with the index: it
/// tracks every token at the index's value.
pub proof fn accrual_makes_staker_consistent(index: Seq<u128>, staker: StakerView)
    requires
        staker_consistent(index, staker),
    ensures
        staker_consistent(
            index,
            StakerView {
                address: staker.address,
                reward_index: index,
                bond_amount: staker.bond_amount,
                pending_reward: accrued_pending_reward(index, staker),
            },
        ),
{
}

/// Accrual is idempotent: accruing a second time against the same index
/// credits nothing more.
pub proof fn accrual_is_idempotent(index: Seq<u128>, staker: StakerView)
    requires
        staker.reward_index.len() <= index.len(),
        staker.pending_reward.len() >= staker.reward_index.len(),
        staker_reward_settles(index, staker),
    ensures
        ({
            let accrued = StakerView {
                address: staker.address,
                reward_index: index,
                bond_amount: staker.bond_amount,
                pending_reward: accrued_pending_reward(index, staker),
            };
            &&& staker_reward_settles(index, accrued)
            &&& accrued_pending_reward(index, accrued) == accrued.pending_reward
        }),
{
    let accrued = StakerView {
        address: staker.address,
        reward_index: index,
        bond_amount: staker.bond_amount,
        pending_reward: accrued_pending_reward(index, staker),
    };
    assert(missing_tokens(index, accrued) == 0);
    assert(extended_reward_index(index, accrued) =~= index);
    assert(extended_pending_reward(index, accrued) =~= accrued.pending_reward);
    assert forall|i: int| 0 <= i < index.len() implies #[trigger] share_settles(index, accrued, i) by {
        assert(accrued_share(index, accrued, i) == settled_share(index, accrued, i));
    }
    assert(accrued_pending_reward(index, accrued) =~= accrued.pending_reward);
}

/// Distributing again at the time of the last distribution adds nothing:
/// no time has passed for any schedule.
pub proof fn redistribution_in_same_block_adds_nothing(config: Config, state: State)
    ensures
        rewarded_index(config, state, state.last_distributed) == state.global_reward_index@,
{
    let t = state.last_distributed;
    let index = state.global_reward_index@;
    let schedules = config.distribution_schedule@;
    if state.total_bond_amount != 0 {
        assert forall|i: int| 0 <= i < index.len() implies rewarded_index(config, state, t)[i]
            == index[i] by {
            if i < schedules.len() {
                lemma_payout_sum_at_same_time(schedules[i]@, schedules[i]@.len() as int, t);
                assert(ratio_atomics(0, state.total_bond_amount as int) == 0);
            }
        }
        assert(rewarded_index(config, state, t) =~= index);
    }
}

/// No schedule pays anything for a distribution that starts and ends at the same time.
proof fn lemma_payout_sum_at_same_time(schedules: Seq<Schedule>, k: int, t: u64)
    ensures
        payout_sum(schedules, k, t, t) == 0,
    decreases k,
{
    if k > 0 {
        lemma_payout_sum_at_same_time(schedules, k - 1, t);
        let s = schedules[k - 1];
        if schedule_active(s, t, t) {
            assert(passed_time(s, t, t) == 0);
            let per = reward_per_second(s);
            assert(0 * per == 0) by (nonlinear_arith);
            assert(mul_atomics(0, per) == 0);
        }
    }
}

/// A second redemption in the same block pays nothing: once a redemption has
/// brought the staker up to the index and cleared its pending rewards, accrual
/// at the same time credits zero for every token.
pub proof fn second_redemption_in_same_block_pays_nothing(
    config: Config,
    state: State,
    staker: StakerView,
)
    requires
        staker.reward_index == state.global_reward_index@,
        staker.pending_reward == zeros(staker.reward_index.len()),
    ensures
        staker_reward_settles(rewarded_index(config, state, state.last_distributed), staker),
        accrued_pending_reward(rewarded_index(config, state, state.last_distributed), staker)
            == zeros(staker.reward_index.len()),
{
    redistribution_in_same_block_adds_nothing(config, state);
    let index = rewarded_index(config, state, state.last_distributed);
    assert(extended_reward_index(index, staker) =~= index);
    assert(extended_pending_reward(index, staker) =~= staker.pending_reward);
    assert forall|i: int| 0 <= i < index.len() implies #[trigger] share_settles(index, staker, i) by {
        assert(accrued_share(index, staker, i) == settled_share(index, staker, i));
    }
    assert(accrued_pending_reward(index, staker) =~= zeros(staker.reward_index.len()));
}

/// Withdrawing twice at the same time pays nothing the second time: once the
/// matured unbondings are removed, the first remaining one is still locked.
pub proof fn second_withdraw_at_same_time_finds_nothing(
    infos: Seq<UnbondingInfo>,
    lock_duration: u64,
    now: u64,
)
    ensures
        ({
            let k = withdrawable_count(infos, lock_duration, now);
            withdrawable_count(infos.subrange(k as int, infos.len() as int), lock_duration, now) == 0
        }),
{
    lemma_first_locked_from(infos, lock_duration, now, 0);
    let k = withdrawable_count(infos, lock_duration, now);
    let rest = infos.subrange(k as int, infos.len() as int);
    if rest.len() > 0 {
        assert(rest[0] == infos[k as int]);
    }
}

// ---------------------------------------------------------------------------
// Payouts are bounded
// ---------------------------------------------------------------------------

/// Seconds of the schedule within `[from, to]` (zero when it does not overlap).
pub open spec fn schedule_seconds(schedule: Schedule, from: u64, to: u64) -> int {
    if schedule_active(schedule, from, to) {
        passed_time(schedule, from, to)
    } else {
        0
    }
}

/// Tokens the schedule pays out over distributions at the successive `times`.
pub open spec fn total_payout(schedule: Schedule, times: Seq<u64>) -> int
    decreases times.len(),
{
    if times.len() < 2 {
        0
    } else {
        total_payout(schedule, times.drop_last()) + schedule_payout(
            schedule,
            times[times.len() - 2],
            times[times.len() - 1],
        )
    }
}

/// Seconds of the schedule covered by distributions at the successive `times`.
pub open spec fn total_seconds(schedule: Schedule, times: Seq<u64>) -> int
    decreases times.len(),
{
    if times.len() < 2 {
        0
    } else {
        total_seconds(schedule, times.drop_last()) + schedule_seconds(
            schedule,
            times[times.len() - 2],
            times[times.len() - 1],
        )
    }
}

proof fn lemma_floor_superadditive(x: int, y: int, d: int)
    requires
        0 <= x,
        0 <= y,
        0 < d,
    ensures
        x / d + y / d <= (x + y) / d,
{
    vstd::arithmetic::div_mod::lemma_fundamental_div_mod(x, d);
    vstd::arithmetic::div_mod::lemma_fundamental_div_mod(y, d);
    vstd::arithmetic::div_mod::lemma_mod_pos_bound(x, d);
    vstd::arithmetic::div_mod::lemma_mod_pos_bound(y, d);
    vstd::arithmetic::mul::lemma_mul_is_distributive_add(d, x / d, y / d);
    vstd::arithmetic::div_mod::lemma_div_multiples_vanish(x / d + y / d, d);
    vstd::arithmetic::div_mod::lemma_div_is_ordered(d * (x / d + y / d), x + y, d);
}

proof fn lemma_seconds_additive(schedule: Schedule, a: u64, b: u64, c: u64)
    requires
        schedule.start_time < schedule.end_time,
        a <= b <= c,
    ensures
        schedule_seconds(schedule, a, b) + schedule_seconds(schedule, b, c) == schedule_seconds(
            schedule,
            a,
            c,
        ),
        0 <= schedule_seconds(schedule, a, b),
        schedule_seconds(schedule, a, c) <= schedule.end_time - schedule.start_time,
{
}

proof fn lemma_total_seconds(schedule: Schedule, times: Seq<u64>)
    requires
        schedule.start_time < schedule.end_time,
        times.len() >= 1,
        forall|i: int, j: int| 0 <= i <= j < times.len() ==> times[i] <= times[j],
    ensures
        total_seconds(schedule, times) == schedule_seconds(schedule, times[0], times.last()),
    decreases times.len(),
{
    if times.len() >= 2 {
        let rest = times.drop_last();
        lemma_total_seconds(schedule, rest);
        lemma_seconds_additive(
            schedule,
            times[0],
            times[times.len() - 2],
            times[times.len() - 1],
        );
    }
}

proof fn lemma_total_payout(schedule: Schedule, times: Seq<u64>)
    requires
        schedule.start_time < schedule.end_time,
        forall|i: int, j: int| 0 <= i <= j < times.len() ==> times[i] <= times[j],
    ensures
        0 <= total_seconds(schedule, times),
        total_payout(schedule, times) <= total_seconds(schedule, times) * reward_per_second(schedule)
            / decimal_fractional(),
    decreases times.len(),
{
    let per = reward_per_second(schedule);
    let f = decimal_fractional();
    vstd::arithmetic::mul::lemma_mul_nonnegative(schedule.amount as int, f);
    vstd::arithmetic::div_mod::lemma_div_pos_is_pos(
        schedule.amount as int * f,
        schedule.end_time - schedule.start_time,
    );
    if times.len() >= 2 {
        let rest = times.drop_last();
        lemma_total_payout(schedule, rest);
        let a = times[times.len() - 2];
        let b = times[times.len() - 1];
        lemma_seconds_additive(schedule, a, b, b);
        let seconds = schedule_seconds(schedule, a, b);
        let before = total_seconds(schedule, rest);
        vstd::arithmetic::mul::lemma_mul_nonnegative(before, per);
        vstd::arithmetic::mul::lemma_mul_nonnegative(seconds, per);
        assert(schedule_payout(schedule, a, b) == seconds * per / f) by {
            if !schedule_active(schedule, a, b) {
                assert(0 * per == 0) by (nonlinear_arith);
            }
        }
        lemma_floor_superadditive(before * per, seconds * per, f);
        assert(before * per + seconds * per == (before + seconds) * per) by (nonlinear_arith);
    }
}

/// A schedule never pays out more than its amount, however its period is
/// split across successive distributions.
pub proof fn schedule_pays_at_most_its_amount(schedule: Schedule, times: Seq<u64>)
    requires
        schedule.start_time < schedule.end_time,
        forall|i: int, j: int| 0 <= i <= j < times.len() ==> times[i] <= times[j],
    ensures
        total_payout(schedule, times) <= schedule.amount,
{
    lemma_total_payout(schedule, times);
    let per = reward_per_second(schedule);
    let f = decimal_fractional();
    let span = schedule.end_time - schedule.start_time;
    let seconds = total_seconds(schedule, times);
    if times.len() >= 1 {
        lemma_total_seconds(schedule, times);
        lemma_seconds_additive(schedule, times[0], times.last(), times.last());
    }
    assert(seconds <= span);
    vstd::arithmetic::mul::lemma_mul_nonnegative(schedule.amount as int, f);
    vstd::arithmetic::div_mod::lemma_div_pos_is_pos(schedule.amount as int * f, span);
    // span * per <= amount * f, since per is amount * f / span floored
    vstd::arithmetic::div_mod::lemma_fundamental_div_mod(schedule.amount as int * f, span);
    vstd::arithmetic::div_mod::lemma_mod_pos_bound(schedule.amount as int * f, span);
    vstd::arithmetic::mul::lemma_mul_inequality(seconds, span, per);
    assert(span * per == span * (schedule.amount as int * f / span)) by (nonlinear_arith)
        requires
            per == schedule.amount as int * f / span,
    ;
    vstd::arithmetic::div_mod::lemma_div_is_ordered(seconds * per, schedule.amount as int * f, f);
    vstd::arithmetic::div_mod::lemma_div_by_multiple(schedule.amount as int, f);
}

/// The index increment never promises more than was distributed: crediting
/// it to the whole bond pays at most the distributed amount.
pub proof fn index_increment_never_overpays(distributed: int, total_bond_amount: u128)
    requires
        0 <= distributed,
        total_bond_amount > 0,
    ensures
        mul_atomics(total_bond_amount as int, ratio_atomics(distributed, total_bond_amount as int))
            <= distributed,
{
    let f = decimal_fractional();
    let t = total_bond_amount as int;
    let increment = ratio_atomics(distributed, t);
    vstd::arithmetic::mul::lemma_mul_nonnegative(distributed, f);
    vstd::arithmetic::div_mod::lemma_fundamental_div_mod(distributed * f, t);
    vstd::arithmetic::div_mod::lemma_mod_pos_bound(distributed * f, t);
    assert(t * increment <= distributed * f);
    vstd::arithmetic::div_mod::lemma_div_is_ordered(t * increment, distributed * f, f);
    vstd::arithmetic::div_mod::lemma_div_by_multiple(distributed, f);
}

// ---------------------------------------------------------------------------
// Distributing and bonding within one block
// ---------------------------------------------------------------------------

/// A schedule computable over a distribution up to `block_time` is computable
/// over a second one at `block_time`, which pays nothing.
proof fn lemma_schedule_computable_at_same_time(schedule: Schedule, last_distributed: u64, block_time: u64)
    requires
        last_distributed <= block_time,
        schedule_computable(schedule, last_distributed, block_time),
    ensures
        schedule_computable(schedule, block_time, block_time),
{
    if schedule_active(schedule, block_time, block_time) {
        assert(passed_time(schedule, block_time, block_time) == 0);
        let per = reward_per_second(schedule);
        assert(0 * per == 0) by (nonlinear_arith);
        assert(mul_atomics(0, per) == 0);
    }
}

/// Distributing twice in one block changes nothing the second time: after a
/// distribution up to `block_time`, a second one at `block_time` runs without
/// a panic and leaves the index as it is (`compute_reward` keeps the total
/// bond and sets the time it already holds).
pub proof fn second_distribution_in_same_block_changes_nothing(
    config: Config,
    state: State,
    block_time: u64,
    after: State,
)
    requires
        state.last_distributed <= block_time,
        can_compute_reward(config, state, block_time),
        after.last_distributed == block_time,
        after.total_bond_amount == state.total_bond_amount,
        after.global_reward_index@ == rewarded_index(config, state, block_time),
    ensures
        can_compute_reward(config, after, block_time),
        rewarded_index(config, after, block_time) == after.global_reward_index@,
{
    redistribution_in_same_block_adds_nothing(config, after);
    let t = block_time;
    let total = state.total_bond_amount;
    let schedules = config.distribution_schedule@;
    if total != 0 {
        assert forall|i: int| 0 <= i < schedules.len() implies #[trigger] token_applicable(
            schedules[i]@,
            after.global_reward_index@,
            i,
            t,
            t,
            total,
        ) by {
            let list = schedules[i]@;
            assert(token_applicable(
                list,
                state.global_reward_index@,
                i,
                state.last_distributed,
                t,
                total,
            ));
            assert forall|j: int| 0 <= j < list.len() implies #[trigger] schedule_step_fits(
                list,
                j,
                t,
                t,
            ) by {
                assert(schedule_step_fits(list, j, state.last_distributed, t));
                lemma_schedule_computable_at_same_time(list[j], state.last_distributed, t);
                lemma_payout_sum_at_same_time(list, j + 1, t);
            }
            lemma_payout_sum_at_same_time(list, list.len() as int, t);
            assert(ratio_atomics(0, total as int) == 0);
        }
    }
}

/// Accrual against the index a staker already tracks credits nothing,
/// whatever its bond.
proof fn lemma_accrual_at_tracked_index(index: Seq<u128>, staker: StakerView)
    requires
        staker.reward_index == index,
    ensures
        staker_reward_settles(index, staker),
        accrued_pending_reward(index, staker) == staker.pending_reward,
{
    assert(missing_tokens(index, staker) == 0);
    assert(extended_reward_index(index, staker) =~= index);
    assert(extended_pending_reward(index, staker) =~= staker.pending_reward);
    assert forall|i: int| 0 <= i < index.len() implies #[trigger] share_settles(index, staker, i) by {
        assert(accrued_share(index, staker, i) == settled_share(index, staker, i));
    }
    assert(accrued_pending_reward(index, staker) =~= staker.pending_reward);
}

/// Splitting a bond within one block changes nothing: bonding `first_amount`
/// and then `second_amount` at the same time leaves the same state and staker
/// as bonding their sum once, and succeeds exactly when that does.
pub proof fn bonding_twice_in_a_block_equals_bonding_the_sum(
    config: Config,
    state: State,
    staker: Option<StakerInfo>,
    sender: Seq<char>,
    first_amount: u128,
    second_amount: u128,
    block_time: u64,
    first: Result<(State, StakerInfo, Response), ContractError>,
    second: Result<(State, StakerInfo, Response), ContractError>,
    whole: Result<(State, StakerInfo, Response), ContractError>,
)
    requires
        first_amount + second_amount <= u128::MAX,
        bond_outcome(config, state, staker, sender, first_amount, block_time, first),
        first matches Ok((bonded, bonded_staker, _)) ==> bond_outcome(
            config,
            bonded,
            Some(bonded_staker),
            sender,
            second_amount,
            block_time,
            second,
        ),
        bond_outcome(
            config,
            state,
            staker,
            sender,
            (first_amount + second_amount) as u128,
            block_time,
            whole,
        ),
    ensures
        first is Ok <==> whole is Ok,
        first is Ok ==> (second matches Ok((s2, k2, _)) && whole matches Ok((s3, k3, _))
            && s2.last_distributed == s3.last_distributed && s2.total_bond_amount
            == s3.total_bond_amount && s2.global_reward_index@ == s3.global_reward_index@ && k2@
            == k3@),
{
    if let Ok((bonded, bonded_staker, _)) = first {
        let index = rewarded_index(config, state, block_time);
        redistribution_in_same_block_adds_nothing(config, bonded);
        assert(bonding_staker(config, Some(bonded_staker), sender) == bonded_staker@);
        lemma_accrual_at_tracked_index(index, bonded_staker@);
    }
}

// ---------------------------------------------------------------------------
// The total bond
// ---------------------------------------------------------------------------

/// The sum of the stored stakers' bonds.
pub open spec fn bond_sum(bonds: Seq<u128>) -> int
    decreases bonds.len(),
{
    if bonds.len() == 0 {
        0
    } else {
        bond_sum(bonds.drop_last()) + bonds.last()
    }
}

proof fn lemma_bond_sum_update(bonds: Seq<u128>, k: int, bond: u128)
    requires
        0 <= k < bonds.len(),
    ensures
        bond_sum(bonds.update(k, bond)) == bond_sum(bonds) - bonds[k] + bond,
    decreases bonds.len(),
{
    let updated = bonds.update(k, bond);
    if k == bonds.len() - 1 {
        assert(updated.drop_last() =~= bonds.drop_last());
    } else {
        assert(updated.drop_last() =~= bonds.drop_last().update(k, bond));
        lemma_bond_sum_update(bonds.drop_last(), k, bond);
    }
}

proof fn lemma_bond_sum_remove(bonds: Seq<u128>, k: int)
    requires
        0 <= k < bonds.len(),
    ensures
        bond_sum(bonds.remove(k)) == bond_sum(bonds) - bonds[k],
    decreases bonds.len(),
{
    let removed = bonds.remove(k);
    if k == bonds.len() - 1 {
        assert(removed =~= bonds.drop_last());
    } else {
        assert(removed.drop_last() =~= bonds.drop_last().remove(k));
        lemma_bond_sum_remove(bonds.drop_last(), k);
    }
}

/// Bonding keeps the total bond equal to the sum of the stored stakers' bonds.
/// `bonds` lists the stored stakers' bonds, the bonding staker's at `k` when it
/// is stored; afterwards that entry holds its new bond, or a new entry does.
pub proof fn bond_keeps_total_equal_to_stored_bonds(
    config: Config,
    state: State,
    staker: Option<StakerInfo>,
    sender: Seq<char>,
    amount: u128,
    block_time: u64,
    result: Result<(State, StakerInfo, Response), ContractError>,
    bonds: Seq<u128>,
    k: int,
)
    requires
        state.total_bond_amount == bond_sum(bonds),
        staker matches Some(s) ==> 0 <= k < bonds.len() && bonds[k] == s.bond_amount,
        bond_outcome(config, state, staker, sender, amount, block_time, result),
    ensures
        result matches Ok((new_state, new_staker, _)) ==> new_state.total_bond_amount == bond_sum(
            if staker is Some {
                bonds.update(k, new_staker.bond_amount)
            } else {
                bonds.push(new_staker.bond_amount)
            },
        ),
{
    if let Ok((new_state, new_staker, _)) = result {
        if staker is Some {
            lemma_bond_sum_update(bonds, k, new_staker.bond_amount);
        } else {
            assert(bonds.push(new_staker.bond_amount).drop_last() =~= bonds);
        }
    }
}

/// Unbonding keeps the total bond equal to the sum of the stored stakers'
/// bonds. `bonds` lists the stored stakers' bonds, the unbonding staker's at
/// `k`; afterwards that entry holds its new bond, or is gone with the staker.
pub proof fn unbond_keeps_total_equal_to_stored_bonds(
    config: Config,
    state: State,
    staker: Option<StakerInfo>,
    sender_addr: String,
    amount: u128,
    block_time: u64,
    result: Result<(State, Option<StakerInfo>, UnbondingInfo, Response), ContractError>,
    bonds: Seq<u128>,
    k: int,
)
    requires
        state.total_bond_amount == bond_sum(bonds),
        staker matches Some(s) ==> 0 <= k < bonds.len() && bonds[k] == s.bond_amount,
        unbond_outcome(config, state, staker, sender_addr, amount, block_time, result),
    ensures
        result matches Ok((new_state, new_staker, _, _)) ==> new_state.total_bond_amount
            == bond_sum(
            match new_staker {
                Some(n) => bonds.update(k, n.bond_amount),
                None => bonds.remove(k),
            },
        ),
{
    if let Ok((new_state, new_staker, _, _)) = result {
        match new_staker {
            Some(n) => {
                lemma_bond_sum_update(bonds, k, n.bond_amount);
            },
            None => {
                lemma_bond_sum_remove(bonds, k);
            },
        }
    }
}

// ---------------------------------------------------------------------------
// Each schedule, each token and each staker's token on its own
// ---------------------------------------------------------------------------

proof fn lemma_payout_sum_prefix(first: Seq<Schedule>, rest: Seq<Schedule>, k: int, last_distributed: u64, block_time: u64)
    requires
        0 <= k <= first.len(),
    ensures
        payout_sum(first + rest, k, last_distributed, block_time) == payout_sum(
            first,
            k,
            last_distributed,
            block_time,
        ),
    decreases k,
{
    if k > 0 {
        lemma_payout_sum_prefix(first, rest, k - 1, last_distributed, block_time);
        assert((first + rest)[k - 1] == first[k - 1]);
    }
}

proof fn lemma_payout_sum_suffix(first: Seq<Schedule>, rest: Seq<Schedule>, k: int, last_distributed: u64, block_time: u64)
    requires
        0 <= k <= rest.len(),
    ensures
        payout_sum(first + rest, first.len() + k, last_distributed, block_time) == token_payout(
            first,
            last_distributed,
            block_time,
        ) + payout_sum(rest, k, last_distributed, block_time),
    decreases k,
{
    if k > 0 {
        lemma_payout_sum_suffix(first, rest, k - 1, last_distributed, block_time);
        assert((first + rest)[first.len() + k - 1] == rest[k - 1]);
    } else {
        lemma_payout_sum_prefix(first, rest, first.len() as int, last_distributed, block_time);
    }
}

/// A token's schedules pay independently of one another: the payout of two
/// lists joined is the sum of their payouts, and one schedule pays its
/// per-second rate (`amount / (end - start)`, as a `Decimal`) times the seconds
/// of it that passed, or nothing when it is not running over the distribution.
pub proof fn token_payout_adds_up_schedule_by_schedule(
    first: Seq<Schedule>,
    rest: Seq<Schedule>,
    schedule: Schedule,
    last_distributed: u64,
    block_time: u64,
)
    ensures
        token_payout(first + rest, last_distributed, block_time) == token_payout(
            first,
            last_distributed,
            block_time,
        ) + token_payout(rest, last_distributed, block_time),
        token_payout(seq![schedule], last_distributed, block_time) == if schedule.start_time
            > block_time || schedule.end_time < last_distributed {
            0
        } else {
            mul_atomics(
                (if schedule.end_time <= block_time {
                    schedule.end_time
                } else {
                    block_time
                }) - (if schedule.start_time >= last_distributed {
                    schedule.start_time
                } else {
                    last_distributed
                }),
                ratio_atomics(schedule.amount as int, schedule.end_time - schedule.start_time),
            )
        },
{
    lemma_payout_sum_suffix(first, rest, rest.len() as int, last_distributed, block_time);
    assert(payout_sum(seq![schedule], 0, last_distributed, block_time) == 0);
}

/// Schedules that are not running over a distribution change nothing: a list
/// pays what it pays with its inactive schedules dropped.
pub proof fn inactive_schedules_pay_nothing(
    schedules: Seq<Schedule>,
    last_distributed: u64,
    block_time: u64,
)
    ensures
        token_payout(schedules, last_distributed, block_time) == token_payout(
            schedules.filter(|s: Schedule| schedule_active(s, last_distributed, block_time)),
            last_distributed,
            block_time,
        ),
    decreases schedules.len(),
{
    let active = |s: Schedule| schedule_active(s, last_distributed, block_time);
    if schedules.len() > 0 {
        let front = schedules.drop_last();
        let x = schedules.last();
        inactive_schedules_pay_nothing(front, last_distributed, block_time);
        assert(schedules =~= front + seq![x]);
        token_payout_adds_up_schedule_by_schedule(front, seq![x], x, last_distributed, block_time);
        assert(schedules.drop_last() == front);
        reveal(Seq::filter);
        if active(x) {
            assert(schedules.filter(active) == front.filter(active).push(x));
            assert(front.filter(active).push(x) =~= front.filter(active) + seq![x]);
            token_payout_adds_up_schedule_by_schedule(
                front.filter(active),
                seq![x],
                x,
                last_distributed,
                block_time,
            );
        } else {
            assert(schedules.filter(active) == front.filter(active));
        }
    } else {
        reveal(Seq::filter);
        assert(schedules.filter(active) =~= schedules);
    }
}

/// Each reward token's index entry depends on its own schedules alone, and
/// grows by what they pay out divided by the total bond: two configurations
/// that agree on token `i`'s schedules give it the same entry, whatever the
/// other tokens' schedules pay.
pub proof fn each_token_index_grows_by_its_own_payout(
    config: Config,
    other: Config,
    state: State,
    block_time: u64,
    i: int,
)
    requires
        0 <= i < config.distribution_schedule@.len(),
        i < other.distribution_schedule@.len(),
        i < state.global_reward_index@.len(),
        config.distribution_schedule@[i]@ == other.distribution_schedule@[i]@,
    ensures
        rewarded_index(config, state, block_time)[i] == rewarded_index(other, state, block_time)[i],
        state.total_bond_amount == 0 ==> rewarded_index(config, state, block_time)[i]
            == state.global_reward_index@[i],
        state.total_bond_amount != 0 && can_compute_reward(config, state, block_time)
            ==> rewarded_index(config, state, block_time)[i] == state.global_reward_index@[i]
            + ratio_atomics(
            token_payout(config.distribution_schedule@[i]@, state.last_distributed, block_time),
            state.total_bond_amount as int,
        ),
{
    if state.total_bond_amount != 0 && can_compute_reward(config, state, block_time) {
        let list = config.distribution_schedule@[i]@;
        let old_entry = state.global_reward_index@[i];
        let increment = index_increment(
            list,
            state.last_distributed,
            block_time,
            state.total_bond_amount,
        );
        assert(token_applicable(
            list,
            state.global_reward_index@,
            i,
            state.last_distributed,
            block_time,
            state.total_bond_amount,
        ));
        assert(old_entry + increment <= u128::MAX);
        lemma_payout_sum_nonnegative(list, list.len() as int, state.last_distributed, block_time);
        let distributed = token_payout(list, state.last_distributed, block_time);
        vstd::arithmetic::mul::lemma_mul_nonnegative(distributed, decimal_fractional());
        vstd::arithmetic::div_mod::lemma_div_pos_is_pos(
            distributed * decimal_fractional(),
            state.total_bond_amount as int,
        );
        assert(increment == ratio_atomics(
            token_payout(list, state.last_distributed, block_time),
            state.total_bond_amount as int,
        ));
        assert(rewarded_index(config, state, block_time)[i] == (old_entry + increment) as u128);
    }
}

/// A reward token without a schedule list keeps its index entry: nothing is
/// distributed to it.
pub proof fn tokens_without_schedules_keep_their_index(config: Config, state: State, block_time: u64, i: int)
    requires
        config.distribution_schedule@.len() <= i < state.global_reward_index@.len(),
    ensures
        rewarded_index(config, state, block_time).len() == state.global_reward_index@.len(),
        rewarded_index(config, state, block_time)[i] == state.global_reward_index@[i],
{
}

/// Accrual is per token: a staker's new pending reward for token `i` depends
/// only on its bond and its own index and pending amount for that token, never
/// on its other tokens; two stakers that agree on those get the same amount.
pub proof fn accrual_is_per_token(index: Seq<u128>, staker: StakerView, other: StakerView, i: int)
    requires
        0 <= i < index.len(),
        staker.bond_amount == other.bond_amount,
        i < staker.reward_index.len() <= staker.pending_reward.len(),
        i < other.reward_index.len() <= other.pending_reward.len(),
        staker.reward_index[i] == other.reward_index[i],
        staker.pending_reward[i] == other.pending_reward[i],
    ensures
        accrued_pending_reward(index, staker)[i] == accrued_pending_reward(index, other)[i],
{
    assert(extended_reward_index(index, staker)[i] == staker.reward_index[i]);
    assert(extended_reward_index(index, other)[i] == other.reward_index[i]);
    assert(extended_pending_reward(index, staker)[i] == staker.pending_reward[i]);
    assert(extended_pending_reward(index, other)[i] == other.pending_reward[i]);
}

/// What accrual credits: each token's pending reward grows by
/// `bond * index - bond * reward_index`, each product floored; a token the
/// staker does not yet track starts from a zero index and nothing pending.
pub proof fn accrual_credits_each_token_its_share(index: Seq<u128>, staker: StakerView, i: int)
    requires
        0 <= i < index.len(),
        can_compute_staker_reward(index, staker),
        staker_reward_settles(index, staker),
    ensures
        accrued_pending_reward(index, staker)[i] == (if i < staker.pending_reward.len() {
            staker.pending_reward[i] as int
        } else {
            0int
        }) + mul_atomics(staker.bond_amount as int, index[i] as int) - mul_atomics(
            staker.bond_amount as int,
            if i < staker.reward_index.len() {
                staker.reward_index[i] as int
            } else {
                0int
            },
        ),
{
    assert(share_settles(index, staker, i));
    assert forall|k: int| 0 <= k < i implies #[trigger] share_settles(index, staker, k) by {}
    assert(share_fits(index, staker, i));
    if i >= staker.reward_index.len() {
        assert(extended_reward_index(index, staker)[i] == 0);
    } else {
        assert(extended_reward_index(index, staker)[i] == staker.reward_index[i]);
    }
    if i >= staker.pending_reward.len() {
        assert(extended_pending_reward(index, staker)[i] == 0);
    } else {
        assert(extended_pending_reward(index, staker)[i] == staker.pending_reward[i]);
    }
}

/// The amount a transfer moves.
pub open spec fn transfer_amount(transfer: Transfer) -> u128 {
    match transfer {
        Transfer::Bank { amount, .. } => amount,
        Transfer::Cw20 { amount, .. } => amount,
    }
}

/// The redeemed totals grow by exactly what a redemption pays: for each reward
/// token, the new total is the old one (zero for a user without a record) plus
/// the amount of that token's payment in the response.
pub proof fn redeem_records_what_it_pays(
    config: Config,
    state: State,
    staker: Option<StakerInfo>,
    earned: Option<UserEarnedInfo>,
    sender_addr: String,
    block_time: u64,
    result: Result<(State, Option<StakerInfo>, UserEarnedInfo, Response), ContractError>,
    i: int,
)
    requires
        can_redeem(config, state, staker, earned, block_time),
        redeem_outcome(config, state, staker, earned, sender_addr, block_time, result),
        0 <= i < config.reward_token@.len(),
    ensures
        result matches Ok((_, _, new_earned, response)) ==> {
            &&& i < response.messages@.len()
            &&& i < new_earned.total_earned@.len()
            &&& new_earned.total_earned@[i] == (match earned {
                Some(e) => e.total_earned@[i] as int,
                None => 0int,
            }) + transfer_amount(response.messages@[i])
        },
{
    if let Ok((_, _, new_earned, response)) = result {
        let s = staker->0;
        let index = rewarded_index(config, state, block_time);
        let pending = accrued_pending_reward(index, s@);
        assert(is_reward_payment(response.messages@[i], config.reward_token@[i], sender_addr@, pending[i]));
    }
}

} // verus!
