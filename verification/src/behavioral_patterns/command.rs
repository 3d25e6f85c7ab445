//! Command: a request as an object, which can be queued and undone.

use vstd::prelude::*;

verus! {

/// One step of a calculation, which can be taken back.
pub trait Command {
    /// What `exec` makes of `operand`.
    spec fn exec_spec(&self, operand: int) -> int;

    /// What `undo` makes of `operand`.
    spec fn undo_spec(&self, operand: int) -> int;

    /// Takes the step.
    fn exec(&self, operand: i64) -> (result: i64)
        requires
            i64::MIN <= self.exec_spec(operand as int) <= i64::MAX,
        ensures
            result == self.exec_spec(operand as int),
    ;

    /// Takes the step back.
    fn undo(&self, operand: i64) -> (result: i64)
        requires
            i64::MIN <= self.undo_spec(operand as int) <= i64::MAX,
        ensures
            result == self.undo_spec(operand as int),
    ;
}

/// Adds a fixed number.
pub struct AddCommand {
    pub operand: i64,
}

impl Command for AddCommand {
    open spec fn exec_spec(&self, operand: int) -> int {
        self.operand + operand
    }

    open spec fn undo_spec(&self, operand: int) -> int {
        operand - self.operand
    }

    fn exec(&self, operand: i64) -> (result: i64) {
        self.operand + operand
    }

    fn undo(&self, operand: i64) -> (result: i64) {
        operand - self.operand
    }
}

/// Changes the sign.
pub struct NegateCommand;

impl Command for NegateCommand {
    open spec fn exec_spec(&self, operand: int) -> int {
        -operand
    }

    open spec fn undo_spec(&self, operand: int) -> int {
        -operand
    }

    fn exec(&self, operand: i64) -> (result: i64) {
        assert(operand * (-1) == -operand) by (nonlinear_arith);
        operand * -1
    }

    fn undo(&self, operand: i64) -> (result: i64) {
        self.exec(operand)
    }
}

/// The operand after the first `count` steps of `commands`.
pub open spec fn exec_steps(commands: Seq<Box<dyn Command>>, count: int, operand: int) -> int
    decreases count,
{
    if count <= 0 {
        operand
    } else {
        commands[count - 1].exec_spec(exec_steps(commands, count - 1, operand))
    }
}

/// The operand after the last `count` steps of `commands` were taken back,
/// the last one first.
pub open spec fn undo_steps(commands: Seq<Box<dyn Command>>, count: int, operand: int) -> int
    decreases count,
{
    if count <= 0 {
        operand
    } else {
        commands[commands.len() - count].undo_spec(undo_steps(commands, count - 1, operand))
    }
}

/// Where each command takes back what it did, taking back the last `count`
/// steps of a run leads to where the run stood before them.
pub proof fn lemma_undo_steps_exec_steps(commands: Seq<Box<dyn Command>>, count: int, operand: int)
    requires
        0 <= count <= commands.len(),
        forall|i: int, x: int|
            0 <= i < commands.len() ==> commands[i].undo_spec(#[trigger] commands[i].exec_spec(x))
                == x,
    ensures
        undo_steps(commands, count, exec_steps(commands, commands.len() as int, operand))
            == exec_steps(commands, commands.len() - count, operand),
    decreases count,
{
    if count > 0 {
        lemma_undo_steps_exec_steps(commands, count - 1, operand);
        let i = commands.len() - count;
        assert(exec_steps(commands, i + 1, operand) == commands[i].exec_spec(
            exec_steps(commands, i, operand),
        ));
    }
}

/// Taking back every step of a run gives the operand with which it began,
/// where each command takes back what it did.
pub proof fn lemma_undo_all_exec_all(commands: Seq<Box<dyn Command>>, operand: int)
    requires
        forall|i: int, x: int|
            0 <= i < commands.len() ==> commands[i].undo_spec(#[trigger] commands[i].exec_spec(x))
                == x,
    ensures
        undo_steps(
            commands,
            commands.len() as int,
            exec_steps(commands, commands.len() as int, operand),
        ) == operand,
{
    lemma_undo_steps_exec_steps(commands, commands.len() as int, operand);
}

/// The user of the commands: takes them one after another.
pub struct Calculator {
    pub commands: Vec<Box<dyn Command>>,
}

impl Calculator {
    /// Takes every step, the first one first.
    pub fn exec_all(&self, operand: i64) -> (result: i64)
        requires
            forall|count: int|
                0 <= count <= self.commands.len() ==> i64::MIN <= #[trigger] exec_steps(
                    self.commands@,
                    count,
                    operand as int,
                ) <= i64::MAX,
        ensures
            result == exec_steps(self.commands@, self.commands.len() as int, operand as int),
    {
        let mut acc = operand;
        let mut i: usize = 0;
        while i < self.commands.len()
            invariant
                i <= self.commands.len(),
                acc == exec_steps(self.commands@, i as int, operand as int),
                forall|count: int|
                    0 <= count <= self.commands.len() ==> i64::MIN <= #[trigger] exec_steps(
                        self.commands@,
                        count,
                        operand as int,
                    ) <= i64::MAX,
            decreases self.commands.len() - i,
        {
            assert(i64::MIN <= exec_steps(self.commands@, i + 1, operand as int) <= i64::MAX);
            acc = self.commands[i].exec(acc);
            i = i + 1;
        }
        acc
    }

    /// Takes every step back, the last one first.
    pub fn undo_all(&self, operand: i64) -> (result: i64)
        requires
            forall|count: int|
                0 <= count <= self.commands.len() ==> i64::MIN <= #[trigger] undo_steps(
                    self.commands@,
                    count,
                    operand as int,
                ) <= i64::MAX,
        ensures
            result == undo_steps(self.commands@, self.commands.len() as int, operand as int),
    {
        let mut acc = operand;
        let mut left: usize = self.commands.len();
        while left > 0
            invariant
                left <= self.commands.len(),
                acc == undo_steps(self.commands@, self.commands.len() - left, operand as int),
                forall|count: int|
                    0 <= count <= self.commands.len() ==> i64::MIN <= #[trigger] undo_steps(
                        self.commands@,
                        count,
                        operand as int,
                    ) <= i64::MAX,
            decreases left,
        {
            assert(i64::MIN <= undo_steps(
                self.commands@,
                self.commands.len() - left + 1,
                operand as int,
            ) <= i64::MAX);
            left = left - 1;
            acc = self.commands[left].undo(acc);
        }
        acc
    }
}

} // verus!
