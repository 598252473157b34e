//! The configuration of a run, and the arithmetic that it governs: what a
//! cell and the cell pointer do at the edges of their ranges.

use vstd::prelude::*;

verus! {

/// What happens when a step would leave a range.
#[derive(Clone, Copy, Debug, PartialEq, Eq, Structural)]
pub enum OverflowPolicy {
    /// Go on at the other end of the range.
    Wrap,
    /// Abort the run.
    Error,
    /// Drop the step.
    Ignore,
}

/// What a read stores once the input has ended.
#[derive(Clone, Copy, Debug, PartialEq, Eq, Structural)]
pub enum EofPolicy {
    /// Zero.
    Zero,
    /// The least cell value.
    Minimum,
    /// The greatest cell value.
    Maximum,
    /// Minus one as a cell holds it: all bits set.
    NegativeOne,
    /// Nothing: the cell keeps its value.
    NoChange,
}

/// Why a run was aborted. Each comes up only under the policy `Error`.
#[derive(Clone, Copy, Debug, PartialEq, Eq, Structural)]
pub enum RuntimeError {
    /// A cell at the greatest value was to be incremented.
    ValueOverflow,
    /// A cell at the least value was to be decremented.
    ValueUnderflow,
    /// The cell pointer was to move right of the last cell.
    PointerOverflow,
    /// The cell pointer was to move left of the first cell.
    PointerUnderflow,
}

impl RuntimeError {
    /// What there is to say of the error.
    pub open spec fn wording(self) -> Seq<char> {
        match self {
            RuntimeError::ValueOverflow => "Cell value overflow"@,
            RuntimeError::ValueUnderflow => "Cell value underflow"@,
            RuntimeError::PointerOverflow => "Cell pointer overflow"@,
            RuntimeError::PointerUnderflow => "Cell pointer underflow"@,
        }
    }

    /// The error in words.
    pub fn message(&self) -> (text: &'static str)
        ensures
            text@ == self.wording(),
    {
        match self {
            RuntimeError::ValueOverflow => "Cell value overflow",
            RuntimeError::ValueUnderflow => "Cell value underflow",
            RuntimeError::PointerOverflow => "Cell pointer overflow",
            RuntimeError::PointerUnderflow => "Cell pointer underflow",
        }
    }
}

/// The settings of a run. They do not change while it lasts.
#[derive(Clone, Copy, Debug, PartialEq, Eq, Structural)]
pub struct Configuration {
    /// The number of cells on the tape.
    pub tape_length: usize,
    /// The least value that arithmetic gives a cell.
    pub min_value: u8,
    /// The greatest value that arithmetic gives a cell.
    pub max_value: u8,
    /// What a read stores once the input has ended.
    pub eof_policy: EofPolicy,
    /// What happens when a cell would leave the value range.
    pub value_overflow_policy: OverflowPolicy,
    /// What happens when the cell pointer would leave the tape.
    pub pointer_overflow_policy: OverflowPolicy,
}

impl Default for Configuration {
    /// 30000 cells that range over the whole byte, everything wraps, and the
    /// end of the input reads as zero.
    fn default() -> (configuration: Configuration)
        ensures
            configuration == (Configuration {
                tape_length: 30000,
                min_value: 0,
                max_value: 255,
                eof_policy: EofPolicy::Zero,
                value_overflow_policy: OverflowPolicy::Wrap,
                pointer_overflow_policy: OverflowPolicy::Wrap,
            }),
    {
        Configuration {
            tape_length: 30000,
            min_value: 0,
            max_value: 255,
            eof_policy: EofPolicy::Zero,
            value_overflow_policy: OverflowPolicy::Wrap,
            pointer_overflow_policy: OverflowPolicy::Wrap,
        }
    }
}

impl Configuration {
    /// A tape has at least one cell, and the value range is not empty.
    pub open spec fn valid(self) -> bool {
        self.tape_length >= 1 && self.min_value <= self.max_value
    }

    /// One increment of a cell. A cell at or above the greatest value cannot
    /// go up: it wraps to the least value, aborts the run, or stays.
    pub open spec fn raised(self, value: u8) -> Result<u8, RuntimeError> {
        if value < self.max_value {
            Ok((value + 1) as u8)
        } else {
            match self.value_overflow_policy {
                OverflowPolicy::Wrap => Ok(self.min_value),
                OverflowPolicy::Error => Err(RuntimeError::ValueOverflow),
                OverflowPolicy::Ignore => Ok(value),
            }
        }
    }

    /// One decrement of a cell. A cell at or below the least value cannot go
    /// down: it wraps to the greatest value, aborts the run, or stays.
    pub open spec fn lowered(self, value: u8) -> Result<u8, RuntimeError> {
        if value > self.min_value {
            Ok((value - 1) as u8)
        } else {
            match self.value_overflow_policy {
                OverflowPolicy::Wrap => Ok(self.max_value),
                OverflowPolicy::Error => Err(RuntimeError::ValueUnderflow),
                OverflowPolicy::Ignore => Ok(value),
            }
        }
    }

    /// One step of the cell pointer to the right. On the last cell it wraps
    /// to the first, aborts the run, or stays.
    pub open spec fn advanced(self, index: nat) -> Result<nat, RuntimeError> {
        if index + 1 < self.tape_length {
            Ok(index + 1)
        } else {
            match self.pointer_overflow_policy {
                OverflowPolicy::Wrap => Ok(0),
                OverflowPolicy::Error => Err(RuntimeError::PointerOverflow),
                OverflowPolicy::Ignore => Ok(index),
            }
        }
    }

    /// One step of the cell pointer to the left. On the first cell it wraps
    /// to the last, aborts the run, or stays.
    pub open spec fn retreated(self, index: nat) -> Result<nat, RuntimeError> {
        if index > 0 {
            Ok((index - 1) as nat)
        } else {
            match self.pointer_overflow_policy {
                OverflowPolicy::Wrap => Ok((self.tape_length - 1) as nat),
                OverflowPolicy::Error => Err(RuntimeError::PointerUnderflow),
                OverflowPolicy::Ignore => Ok(index),
            }
        }
    }

    /// `times` increments of a cell, one after the other; the first that
    /// aborts the run ends them.
    pub open spec fn raised_by(self, value: u8, times: nat) -> Result<u8, RuntimeError>
        decreases times,
    {
        if times == 0 {
            Ok(value)
        } else {
            match self.raised(value) {
                Ok(next) => self.raised_by(next, (times - 1) as nat),
                Err(error) => Err(error),
            }
        }
    }

    /// `times` decrements of a cell, one after the other; the first that
    /// aborts the run ends them.
    pub open spec fn lowered_by(self, value: u8, times: nat) -> Result<u8, RuntimeError>
        decreases times,
    {
        if times == 0 {
            Ok(value)
        } else {
            match self.lowered(value) {
                Ok(next) => self.lowered_by(next, (times - 1) as nat),
                Err(error) => Err(error),
            }
        }
    }

    /// `times` steps of the cell pointer to the right, one after the other;
    /// the first that aborts the run ends them.
    pub open spec fn advanced_by(self, index: nat, times: nat) -> Result<nat, RuntimeError>
        decreases times,
    {
        if times == 0 {
            Ok(index)
        } else {
            match self.advanced(index) {
                Ok(next) => self.advanced_by(next, (times - 1) as nat),
                Err(error) => Err(error),
            }
        }
    }

    /// `times` steps of the cell pointer to the left, one after the other;
    /// the first that aborts the run ends them.
    pub open spec fn retreated_by(self, index: nat, times: nat) -> Result<nat, RuntimeError>
        decreases times,
    {
        if times == 0 {
            Ok(index)
        } else {
            match self.retreated(index) {
                Ok(next) => self.retreated_by(next, (times - 1) as nat),
                Err(error) => Err(error),
            }
        }
    }

    /// What a read stores in a cell that holds `value` once the input has
    /// ended.
    pub open spec fn at_end_of_input(self, value: u8) -> u8 {
        match self.eof_policy {
            EofPolicy::Zero => 0,
            EofPolicy::Minimum => self.min_value,
            EofPolicy::Maximum => self.max_value,
            EofPolicy::NegativeOne => 255,
            EofPolicy::NoChange => value,
        }
    }

    /// Whether the configuration can govern a run.
    pub fn is_valid(&self) -> (valid: bool)
        ensures
            valid == self.valid(),
    {
        self.tape_length >= 1 && self.min_value <= self.max_value
    }

    /// Increments a cell value `times` times under the value policy.
    pub fn raise(&self, value: u8, times: usize) -> (result: Result<u8, RuntimeError>)
        ensures
            result == self.raised_by(value, times as nat),
    {
        let mut current: u8 = value;
        let mut done: usize = 0;
        while done < times
            invariant
                done <= times,
                self.raised_by(value, times as nat) == self.raised_by(
                    current,
                    (times - done) as nat,
                ),
            decreases times - done,
        {
            if current < self.max_value {
                current = current + 1;
            } else {
                match self.value_overflow_policy {
                    OverflowPolicy::Wrap => {
                        current = self.min_value;
                    },
                    OverflowPolicy::Error => {
                        return Err(RuntimeError::ValueOverflow);
                    },
                    OverflowPolicy::Ignore => {},
                }
            }
            done = done + 1;
        }
        Ok(current)
    }

    /// Decrements a cell value `times` times under the value policy.
    pub fn lower(&self, value: u8, times: usize) -> (result: Result<u8, RuntimeError>)
        ensures
            result == self.lowered_by(value, times as nat),
    {
        let mut current: u8 = value;
        let mut done: usize = 0;
        while done < times
            invariant
                done <= times,
                self.lowered_by(value, times as nat) == self.lowered_by(
                    current,
                    (times - done) as nat,
                ),
            decreases times - done,
        {
            if current > self.min_value {
                current = current - 1;
            } else {
                match self.value_overflow_policy {
                    OverflowPolicy::Wrap => {
                        current = self.max_value;
                    },
                    OverflowPolicy::Error => {
                        return Err(RuntimeError::ValueUnderflow);
                    },
                    OverflowPolicy::Ignore => {},
                }
            }
            done = done + 1;
        }
        Ok(current)
    }

    /// Moves a cell index `times` cells to the right under the pointer policy.
    /// An index on the tape stays on the tape.
    pub fn advance(&self, index: usize, times: usize) -> (result: Result<usize, RuntimeError>)
        requires
            self.valid(),
        ensures
            match result {
                Ok(moved) => self.advanced_by(index as nat, times as nat) == Ok::<
                    nat,
                    RuntimeError,
                >(moved as nat),
                Err(error) => self.advanced_by(index as nat, times as nat) == Err::<
                    nat,
                    RuntimeError,
                >(error),
            },
            index < self.tape_length ==> (result matches Ok(moved) ==> moved < self.tape_length),
    {
        let mut current: usize = index;
        let mut done: usize = 0;
        while done < times
            invariant
                done <= times,
                self.valid(),
                self.advanced_by(index as nat, times as nat) == self.advanced_by(
                    current as nat,
                    (times - done) as nat,
                ),
            decreases times - done,
        {
            if current < self.tape_length - 1 {
                current = current + 1;
            } else {
                match self.pointer_overflow_policy {
                    OverflowPolicy::Wrap => {
                        current = 0;
                    },
                    OverflowPolicy::Error => {
                        return Err(RuntimeError::PointerOverflow);
                    },
                    OverflowPolicy::Ignore => {},
                }
            }
            done = done + 1;
        }
        proof {
            if index < self.tape_length {
                self.lemma_pointer_stays_on_tape(index as nat, times as nat);
            }
        }
        Ok(current)
    }

    /// Moves a cell index `times` cells to the left under the pointer policy.
    /// An index on the tape stays on the tape.
    pub fn retreat(&self, index: usize, times: usize) -> (result: Result<usize, RuntimeError>)
        requires
            self.valid(),
        ensures
            match result {
                Ok(moved) => self.retreated_by(index as nat, times as nat) == Ok::<
                    nat,
                    RuntimeError,
                >(moved as nat),
                Err(error) => self.retreated_by(index as nat, times as nat) == Err::<
                    nat,
                    RuntimeError,
                >(error),
            },
            index < self.tape_length ==> (result matches Ok(moved) ==> moved < self.tape_length),
    {
        let mut current: usize = index;
        let mut done: usize = 0;
        while done < times
            invariant
                done <= times,
                self.valid(),
                self.retreated_by(index as nat, times as nat) == self.retreated_by(
                    current as nat,
                    (times - done) as nat,
                ),
            decreases times - done,
        {
            if current > 0 {
                current = current - 1;
            } else {
                match self.pointer_overflow_policy {
                    OverflowPolicy::Wrap => {
                        current = self.tape_length - 1;
                    },
                    OverflowPolicy::Error => {
                        return Err(RuntimeError::PointerUnderflow);
                    },
                    OverflowPolicy::Ignore => {},
                }
            }
            done = done + 1;
        }
        proof {
            if index < self.tape_length {
                self.lemma_pointer_stays_on_tape(index as nat, times as nat);
            }
        }
        Ok(current)
    }

    /// However often the cell pointer steps, from a cell of the tape it
    /// reaches a cell of the tape.
    pub proof fn lemma_pointer_stays_on_tape(self, index: nat, times: nat)
        requires
            self.valid(),
            index < self.tape_length,
        ensures
            self.advanced_by(index, times) matches Ok(moved) ==> moved < self.tape_length,
            self.retreated_by(index, times) matches Ok(moved) ==> moved < self.tape_length,
        decreases times,
    {
        if times > 0 {
            if let Ok(next) = self.advanced(index) {
                self.lemma_pointer_stays_on_tape(next, (times - 1) as nat);
            }
            if let Ok(next) = self.retreated(index) {
                self.lemma_pointer_stays_on_tape(next, (times - 1) as nat);
            }
        }
    }

    /// What a read stores in a cell that holds `value` once the input has
    /// ended.
    pub fn end_of_input(&self, value: u8) -> (stored: u8)
        ensures
            stored == self.at_end_of_input(value),
    {
        match self.eof_policy {
            EofPolicy::Zero => 0,
            EofPolicy::Minimum => self.min_value,
            EofPolicy::Maximum => self.max_value,
            EofPolicy::NegativeOne => 255,
            EofPolicy::NoChange => value,
        }
    }
}

} // verus!
