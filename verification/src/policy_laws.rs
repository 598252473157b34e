//! What each overflow policy amounts to over a whole run of single steps.

use vstd::prelude::*;
use vstd::arithmetic::div_mod::{lemma_mod_add_multiples_vanish, lemma_small_mod};
use crate::config::{Configuration, OverflowPolicy, RuntimeError};

verus! {

/// The least of two numbers.
pub open spec fn least(a: int, b: int) -> int {
    if a <= b {
        a
    } else {
        b
    }
}

/// The greatest of two numbers.
pub open spec fn greatest(a: int, b: int) -> int {
    if a >= b {
        a
    } else {
        b
    }
}

/// Nothing but the policy `Error` aborts a run, and each direction has its
/// own error: an increment fails with `ValueOverflow`, a decrement with
/// `ValueUnderflow`, a step to the right with `PointerOverflow` and a step to
/// the left with `PointerUnderflow`.
pub proof fn law_only_the_error_policy_aborts(
    config: Configuration,
    value: u8,
    index: nat,
    times: nat,
)
    ensures
        config.raised_by(value, times) matches Err(error) ==> error == RuntimeError::ValueOverflow
            && config.value_overflow_policy == OverflowPolicy::Error,
        config.lowered_by(value, times) matches Err(error) ==> error
            == RuntimeError::ValueUnderflow && config.value_overflow_policy
            == OverflowPolicy::Error,
        config.advanced_by(index, times) matches Err(error) ==> error
            == RuntimeError::PointerOverflow && config.pointer_overflow_policy
            == OverflowPolicy::Error,
        config.retreated_by(index, times) matches Err(error) ==> error
            == RuntimeError::PointerUnderflow && config.pointer_overflow_policy
            == OverflowPolicy::Error,
    decreases times,
{
    if times > 0 {
        if let Ok(next) = config.raised(value) {
            law_only_the_error_policy_aborts(config, next, index, (times - 1) as nat);
        }
        if let Ok(next) = config.lowered(value) {
            law_only_the_error_policy_aborts(config, next, index, (times - 1) as nat);
        }
        if let Ok(next) = config.advanced(index) {
            law_only_the_error_policy_aborts(config, value, next, (times - 1) as nat);
        }
        if let Ok(next) = config.retreated(index) {
            law_only_the_error_policy_aborts(config, value, next, (times - 1) as nat);
        }
    }
}

/// A cell within the value range stays within it, however often it is
/// incremented or decremented and whatever the policy.
pub proof fn law_values_stay_in_range(config: Configuration, value: u8, times: nat)
    requires
        config.valid(),
        config.min_value <= value <= config.max_value,
    ensures
        config.raised_by(value, times) matches Ok(raised) ==> config.min_value <= raised
            <= config.max_value,
        config.lowered_by(value, times) matches Ok(lowered) ==> config.min_value <= lowered
            <= config.max_value,
    decreases times,
{
    if times > 0 {
        if let Ok(next) = config.raised(value) {
            law_values_stay_in_range(config, next, (times - 1) as nat);
        }
        if let Ok(next) = config.lowered(value) {
            law_values_stay_in_range(config, next, (times - 1) as nat);
        }
    }
}

/// Under `Wrap` a cell counts modulo the size of the value range: from the
/// greatest value it goes on at the least, and from the least at the greatest.
pub proof fn law_wrapped_values_count_modulo_the_range(
    config: Configuration,
    value: u8,
    times: nat,
)
    requires
        config.valid(),
        config.value_overflow_policy == OverflowPolicy::Wrap,
        config.min_value <= value <= config.max_value,
    ensures
        config.raised_by(value, times) == Ok::<u8, RuntimeError>(
            (config.min_value + (value - config.min_value + times) % (config.max_value
                - config.min_value + 1)) as u8,
        ),
        config.lowered_by(value, times) == Ok::<u8, RuntimeError>(
            (config.min_value + (value - config.min_value - times) % (config.max_value
                - config.min_value + 1)) as u8,
        ),
    decreases times,
{
    let size = config.max_value - config.min_value + 1;
    let offset = value - config.min_value;
    if times == 0 {
        lemma_small_mod(offset as nat, size as nat);
    } else {
        let up = config.raised(value)->Ok_0;
        let down = config.lowered(value)->Ok_0;
        law_wrapped_values_count_modulo_the_range(config, up, (times - 1) as nat);
        law_wrapped_values_count_modulo_the_range(config, down, (times - 1) as nat);
        if value == config.max_value {
            lemma_mod_add_multiples_vanish(times - 1, size);
        }
        if value == config.min_value {
            lemma_mod_add_multiples_vanish(-times, size);
        }
    }
}

/// Under `Wrap` the cell pointer counts modulo the length of the tape.
pub proof fn law_wrapped_pointer_counts_modulo_the_tape(
    config: Configuration,
    index: nat,
    times: nat,
)
    requires
        config.valid(),
        config.pointer_overflow_policy == OverflowPolicy::Wrap,
        index < config.tape_length,
    ensures
        config.advanced_by(index, times) == Ok::<nat, RuntimeError>(
            ((index + times) as int % config.tape_length as int) as nat,
        ),
        config.retreated_by(index, times) == Ok::<nat, RuntimeError>(
            ((index - times) % config.tape_length as int) as nat,
        ),
    decreases times,
{
    let length = config.tape_length as int;
    if times == 0 {
        lemma_small_mod(index, length as nat);
    } else {
        let right = config.advanced(index)->Ok_0;
        let left = config.retreated(index)->Ok_0;
        law_wrapped_pointer_counts_modulo_the_tape(config, right, (times - 1) as nat);
        law_wrapped_pointer_counts_modulo_the_tape(config, left, (times - 1) as nat);
        if index + 1 == length {
            lemma_mod_add_multiples_vanish(times - 1, length);
        }
        if index == 0 {
            lemma_mod_add_multiples_vanish(-times, length);
        }
    }
}

/// Under `Ignore` the steps that would leave the range are dropped: a cell
/// goes up to the greatest value and no further, and down to the least; the
/// cell pointer goes right to the last cell and left to the first.
pub proof fn law_ignored_steps_stop_at_the_edge(
    config: Configuration,
    value: u8,
    index: nat,
    times: nat,
)
    requires
        config.valid(),
        config.min_value <= value <= config.max_value,
        index < config.tape_length,
    ensures
        config.value_overflow_policy == OverflowPolicy::Ignore ==> {
            &&& config.raised_by(value, times) == Ok::<u8, RuntimeError>(
                least(value + times, config.max_value as int) as u8,
            )
            &&& config.lowered_by(value, times) == Ok::<u8, RuntimeError>(
                greatest(value - times, config.min_value as int) as u8,
            )
        },
        config.pointer_overflow_policy == OverflowPolicy::Ignore ==> {
            &&& config.advanced_by(index, times) == Ok::<nat, RuntimeError>(
                least((index + times) as int, config.tape_length - 1) as nat,
            )
            &&& config.retreated_by(index, times) == Ok::<nat, RuntimeError>(
                greatest(index - times, 0) as nat,
            )
        },
    decreases times,
{
    if times > 0 {
        if config.value_overflow_policy == OverflowPolicy::Ignore {
            let up = config.raised(value)->Ok_0;
            let down = config.lowered(value)->Ok_0;
            law_ignored_steps_stop_at_the_edge(config, up, index, (times - 1) as nat);
            law_ignored_steps_stop_at_the_edge(config, down, index, (times - 1) as nat);
        }
        if config.pointer_overflow_policy == OverflowPolicy::Ignore {
            let right = config.advanced(index)->Ok_0;
            let left = config.retreated(index)->Ok_0;
            law_ignored_steps_stop_at_the_edge(config, value, right, (times - 1) as nat);
            law_ignored_steps_stop_at_the_edge(config, value, left, (times - 1) as nat);
        }
    }
}

/// Under `Error` a run of steps either stays within the range, and then is
/// plain addition or subtraction, or aborts with the error of its direction.
pub proof fn law_errors_come_exactly_at_the_edge(
    config: Configuration,
    value: u8,
    index: nat,
    times: nat,
)
    requires
        config.valid(),
        config.min_value <= value <= config.max_value,
        index < config.tape_length,
    ensures
        config.value_overflow_policy == OverflowPolicy::Error ==> {
            &&& config.raised_by(value, times) == if value + times <= config.max_value {
                Ok::<u8, RuntimeError>((value + times) as u8)
            } else {
                Err::<u8, RuntimeError>(RuntimeError::ValueOverflow)
            }
            &&& config.lowered_by(value, times) == if value - times >= config.min_value {
                Ok::<u8, RuntimeError>((value - times) as u8)
            } else {
                Err::<u8, RuntimeError>(RuntimeError::ValueUnderflow)
            }
        },
        config.pointer_overflow_policy == OverflowPolicy::Error ==> {
            &&& config.advanced_by(index, times) == if index + times < config.tape_length {
                Ok::<nat, RuntimeError>(index + times)
            } else {
                Err::<nat, RuntimeError>(RuntimeError::PointerOverflow)
            }
            &&& config.retreated_by(index, times) == if index >= times {
                Ok::<nat, RuntimeError>((index - times) as nat)
            } else {
                Err::<nat, RuntimeError>(RuntimeError::PointerUnderflow)
            }
        },
    decreases times,
{
    if times > 0 {
        if config.value_overflow_policy == OverflowPolicy::Error {
            if let Ok(up) = config.raised(value) {
                law_errors_come_exactly_at_the_edge(config, up, index, (times - 1) as nat);
            }
            if let Ok(down) = config.lowered(value) {
                law_errors_come_exactly_at_the_edge(config, down, index, (times - 1) as nat);
            }
        }
        if config.pointer_overflow_policy == OverflowPolicy::Error {
            if let Ok(right) = config.advanced(index) {
                law_errors_come_exactly_at_the_edge(config, value, right, (times - 1) as nat);
            }
            if let Ok(left) = config.retreated(index) {
                law_errors_come_exactly_at_the_edge(config, value, left, (times - 1) as nat);
            }
        }
    }
}

} // verus!
