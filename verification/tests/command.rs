use rust_design_pattern::behavioral_patterns::command::{
    AddCommand, Calculator, Command, NegateCommand,
};

#[test]
fn mod_case1() {
    let command1 = AddCommand { operand: 3 };
    let command2 = NegateCommand;
    let command3 = AddCommand { operand: 8 };
    let commands: Vec<Box<dyn Command>> =
        vec![Box::new(command1), Box::new(command2), Box::new(command3)];
    let sut = Calculator { commands };

    assert_eq!(sut.exec_all(0), 5);
    assert_eq!(sut.undo_all(5), 0);
}

#[test]
fn single_steps() {
    let add = AddCommand { operand: 3 };
    assert_eq!(add.exec(4), 7);
    assert_eq!(add.undo(7), 4);
    assert_eq!(NegateCommand.exec(4), -4);
    assert_eq!(NegateCommand.undo(-4), 4);
    assert_eq!(NegateCommand.exec(0), 0);
}

#[test]
fn no_commands_leave_the_operand() {
    let sut = Calculator { commands: vec![] };
    assert_eq!(sut.exec_all(42), 42);
    assert_eq!(sut.undo_all(42), 42);
}

#[test]
fn steps_are_taken_in_order_and_taken_back_in_reverse() {
    let commands: Vec<Box<dyn Command>> = vec![
        Box::new(NegateCommand),
        Box::new(AddCommand { operand: 10 }),
    ];
    let sut = Calculator { commands };
    // -(4) + 10, not -(4 + 10)
    assert_eq!(sut.exec_all(4), 6);
    // (6 - 10) negated, not -(6) - 10
    assert_eq!(sut.undo_all(6), 4);
}

#[test]
fn undo_all_takes_back_exec_all() {
    let commands: Vec<Box<dyn Command>> = vec![
        Box::new(AddCommand { operand: 3 }),
        Box::new(NegateCommand),
        Box::new(AddCommand { operand: -8 }),
        Box::new(NegateCommand),
    ];
    let sut = Calculator { commands };
    for operand in [-20i64, -1, 0, 1, 7, 1000] {
        assert_eq!(sut.undo_all(sut.exec_all(operand)), operand);
    }
}
