use wgpu_calc::algorithm::{Algorithm, ExecutionUnit, Function, VariableBind};
use wgpu_calc::coding::Shader;
use wgpu_calc::errors::{OperationError, VariableError, VariableNotFound};
use wgpu_calc::interface::{BindEntry, Command, Submission};
use wgpu_calc::variable::VariableHandle;

fn handle(key: u64, extents: [u32; 3]) -> VariableHandle {
    VariableHandle::from_parts(key, Some("variable"), 4, extents)
}

fn write(variable: usize) -> Command {
    Command::BufferWrite { variable, buffer: variable }
}

fn bind(entries: &[(u32, usize)]) -> Command {
    Command::Bind {
        entries: entries
            .iter()
            .map(|&(binding, variable)| BindEntry { binding, variable })
            .collect(),
    }
}

fn execute(module: usize, entry_point: usize, workgroup: [u32; 3]) -> Command {
    Command::Execute { module, entry_point, workgroup, label: "function".to_string() }
}

fn commands(submissions: &[Submission]) -> Vec<&Command> {
    let mut tape = Vec::new();
    for submission in submissions {
        if let Submission::Streams(streams) = submission {
            for stream in streams {
                tape.extend(stream.iter());
            }
        }
    }
    tape
}

/// Every dispatch directly follows a bind group, and every attached variable is
/// staged earlier on the tape or counted among the `staged` oldest.
fn in_order(tape: &[&Command], staged: usize) -> bool {
    tape.iter().enumerate().all(|(at, command)| match command {
        Command::Execute { .. } => at > 0 && matches!(tape[at - 1], Command::Bind { .. }),
        Command::Bind { entries } => {
            at + 1 < tape.len()
                && matches!(tape[at + 1], Command::Execute { .. })
                && entries.iter().all(|entry| {
                    entry.variable < staged
                        || tape[..at].iter().any(|earlier| {
                            matches!(earlier, Command::BufferWrite { variable, .. } if *variable == entry.variable)
                        })
                })
        }
        Command::BufferWrite { .. } => true,
    })
}

#[test]
fn a_new_algorithm_holds_nothing() {
    let algorithm = Algorithm::new(Some("Test algorithm"));
    assert_eq!(algorithm.get_label(), &Some("Test algorithm".to_string()));
    assert_eq!(algorithm.variables().len(), 0);
    assert_eq!(algorithm.modules().len(), 0);
    assert_eq!(algorithm.pending(), 0);
    assert_eq!(Algorithm::new(None).get_label(), &None);
}

#[test]
fn a_function_becomes_staging_then_bind_group_then_dispatch() {
    let shader = Shader::from_content("source");
    let mut algorithm = Algorithm::new(None);
    let function = Function::new(
        &shader,
        "add_matrices",
        vec![VariableBind::new(handle(1, [3, 3, 1]), 0), VariableBind::new(handle(2, [3, 3, 1]), 1)],
    );
    assert_eq!(algorithm.add_fun(function), Ok(()));
    assert_eq!(algorithm.pending(), 1);

    let submissions = algorithm.run().unwrap();
    assert_eq!(
        submissions,
        vec![Submission::Streams(vec![vec![
            write(0),
            write(1),
            bind(&[(0, 0), (1, 1)]),
            execute(0, 0, [3, 3, 1]),
        ]])]
    );
    assert_eq!(algorithm.pending(), 0);
    assert_eq!(algorithm.variables().len(), 2);
    assert_eq!(algorithm.modules().len(), 1);
    assert_eq!(algorithm.run().unwrap(), vec![]);
}

#[test]
fn a_variable_bound_twice_in_one_function_is_staged_once() {
    let shader = Shader::from_content("source");
    let mut algorithm = Algorithm::new(None);
    let function = Function::new(
        &shader,
        "add",
        vec![VariableBind::new(handle(1, [3, 3, 1]), 0), VariableBind::new(handle(1, [3, 3, 1]), 0)],
    );
    algorithm.add_fun(function).unwrap();
    let submissions = algorithm.run().unwrap();
    assert_eq!(
        submissions,
        vec![Submission::Streams(vec![vec![
            write(0),
            bind(&[(0, 0), (0, 0)]),
            execute(0, 0, [3, 3, 1]),
        ]])]
    );
    assert_eq!(algorithm.variables().len(), 1);
    assert_eq!(algorithm.variables().get(0).unwrap().binds, vec![0, 0]);
}

#[test]
fn a_resident_variable_is_not_staged_again() {
    let shader = Shader::from_content("source");
    let mut algorithm = Algorithm::new(None);
    algorithm
        .add_fun(Function::new(&shader, "add_1", vec![VariableBind::new(handle(1, [2, 2, 1]), 0)]))
        .unwrap();
    let first = algorithm.run().unwrap();
    assert!(in_order(&commands(&first), 0));

    algorithm
        .add_fun(Function::new(
            &shader,
            "scale",
            vec![VariableBind::new(handle(2, [2, 2, 1]), 1), VariableBind::new(handle(1, [2, 2, 1]), 0)],
        ))
        .unwrap();
    algorithm
        .add_fun(Function::new(&shader, "add_1", vec![VariableBind::new(handle(2, [2, 2, 1]), 0)]))
        .unwrap();
    let second = algorithm.run().unwrap();
    assert_eq!(
        second,
        vec![
            Submission::Streams(vec![vec![write(1), bind(&[(1, 1), (0, 0)]), execute(0, 1, [2, 2, 1])]]),
            Submission::Streams(vec![vec![bind(&[(0, 1)]), execute(0, 0, [2, 2, 1])]]),
        ]
    );
    assert!(in_order(&commands(&second), 1));
    assert!(!in_order(&commands(&second), 0));
    assert_eq!(algorithm.variables().get(0).unwrap().binds, vec![0, 0]);
    assert_eq!(algorithm.variables().get(1).unwrap().binds, vec![1, 0]);
}

#[test]
fn the_workgroup_counts_are_those_of_the_variable_attached_last() {
    let shader = Shader::from_content("source");
    let mut algorithm = Algorithm::new(None);
    let function = Function::new(
        &shader,
        "f",
        vec![VariableBind::new(handle(1, [8, 8, 1]), 0), VariableBind::new(handle(2, [4, 2, 1]), 1)],
    );
    algorithm.add_fun(function).unwrap();
    let submissions = algorithm.run().unwrap();
    assert_eq!(commands(&submissions)[3], &execute(0, 0, [4, 2, 1]));
}

#[test]
fn a_function_tells_whether_its_variables_agree_in_their_extents() {
    let shader = Shader::from_content("source");
    let same = Function::new(
        &shader,
        "f",
        vec![VariableBind::new(handle(1, [8, 8, 1]), 0), VariableBind::new(handle(2, [8, 8, 1]), 1)],
    );
    assert!(same.has_agreeing_extents());
    let different = Function::new(
        &shader,
        "f",
        vec![VariableBind::new(handle(1, [8, 8, 1]), 0), VariableBind::new(handle(2, [4, 2, 1]), 1)],
    );
    assert!(!different.has_agreeing_extents());
    assert!(Function::new(&shader, "f", vec![]).has_agreeing_extents());
}

#[test]
fn refused_extents_leave_the_algorithm_as_it_was() {
    let shader = Shader::from_content("source");
    let mut algorithm = Algorithm::new(None);
    let function = Function::new(
        &shader,
        "f",
        vec![VariableBind::new(handle(1, [1, 1, 1]), 0), VariableBind::new(handle(2, [1, 65536, 1]), 1)],
    );
    assert!(function.is_schedulable());
    assert_eq!(algorithm.add_fun(function), Err(VariableError::WorkgroupDimensionError(1)));
    assert_eq!(algorithm.variables().len(), 0);
    assert_eq!(algorithm.modules().len(), 0);
    assert_eq!(algorithm.pending(), 0);
}

#[test]
fn a_function_without_variables_or_beyond_every_tier_cannot_be_scheduled() {
    let shader = Shader::from_content("source");
    assert!(!Function::new(&shader, "f", vec![]).is_schedulable());
    let beyond = Function::new(&shader, "f", vec![VariableBind::new(handle(1, [4194241, 1, 1]), 0)]);
    assert!(!beyond.is_schedulable());
    let first_is_not_planned = Function::new(
        &shader,
        "f",
        vec![VariableBind::new(handle(1, [4194241, 1, 1]), 0), VariableBind::new(handle(2, [1, 1, 1]), 1)],
    );
    assert!(first_is_not_planned.is_schedulable());
}

#[test]
fn reading_back_a_variable_that_was_never_attached_is_not_found() {
    let shader = Shader::from_content("source");
    let mut algorithm = Algorithm::new(Some("Test algorithm"));
    assert_eq!(
        algorithm.read_variable(&handle(1, [1, 1, 1])),
        Err(VariableNotFound {
            variable: Some("variable".to_string()),
            label: Some("Test algorithm".to_string()),
        })
    );
    algorithm
        .add_fun(Function::new(&shader, "f", vec![VariableBind::new(handle(1, [1, 1, 1]), 0)]))
        .unwrap();
    assert_eq!(algorithm.read_variable(&handle(1, [1, 1, 1])), Ok(()));
    assert_eq!(
        algorithm.read_variable(&VariableHandle::from_parts(2, None, 4, [1, 1, 1])),
        Err(VariableNotFound { variable: None, label: Some("Test algorithm".to_string()) })
    );
    assert_eq!(algorithm.pending(), 2);
    let submissions = algorithm.run().unwrap();
    assert_eq!(submissions.len(), 2);
    assert_eq!(submissions[1], Submission::Read(0));
}

#[test]
fn a_serial_unit_is_one_stream_and_a_read_back_is_a_read() {
    let unit = ExecutionUnit::Serial { commands: vec![write(0)], variables: vec![0] };
    assert_eq!(unit.finish(), Ok(Submission::Streams(vec![vec![write(0)]])));
    assert_eq!(ExecutionUnit::ReadBuffer(4).finish(), Ok(Submission::Read(4)));
}

#[test]
fn a_parallel_group_submits_its_streams_together() {
    let group = ExecutionUnit::Parallel(vec![
        ExecutionUnit::Serial { commands: vec![write(0)], variables: vec![0] },
        ExecutionUnit::Serial { commands: vec![write(1), bind(&[(0, 1)])], variables: vec![1] },
    ]);
    assert_eq!(
        group.finish(),
        Ok(Submission::Streams(vec![vec![write(0)], vec![write(1), bind(&[(0, 1)])]]))
    );
    assert_eq!(ExecutionUnit::Parallel(vec![]).finish(), Ok(Submission::Streams(vec![])));
}

#[test]
fn a_parallel_group_inside_a_parallel_group_is_refused() {
    let nested = ExecutionUnit::Parallel(vec![
        ExecutionUnit::Serial { commands: vec![write(0)], variables: vec![0] },
        ExecutionUnit::Parallel(vec![]),
    ]);
    assert_eq!(nested.finish(), Err(OperationError::NestedParallel));
    let with_read = ExecutionUnit::Parallel(vec![ExecutionUnit::ReadBuffer(0)]);
    assert_eq!(with_read.finish(), Err(OperationError::NestedParallel));
}

#[test]
fn bindings_are_mutable_unless_marked() {
    let bind = VariableBind::new(handle(1, [1, 1, 1]), 2);
    assert!(bind.is_mutable());
    let marked = bind.set_immutable();
    assert!(!marked.is_mutable());
    let unmarked = marked.set_mutable();
    assert!(unmarked.is_mutable());
    assert_eq!(unmarked.bind_group, 2);
    assert_eq!(unmarked.variable, handle(1, [1, 1, 1]));
}
