use wgpu_calc::errors::OperationError;
use wgpu_calc::interface::{BindEntry, Command};
use wgpu_calc::solver::{ComputePass, Operation, Pipeline, Solver};

fn dispatch() -> Operation {
    Operation::Pipeline { pipeline: Pipeline { module: 1, entry_point: 2 }, workgroup: [4, 5, 6] }
}

fn bound_dispatch() -> Operation {
    Operation::from_bind_and_pipeline_descriptors(
        vec![BindEntry { binding: 0, variable: 3 }],
        Pipeline { module: 0, entry_point: 1 },
        [7, 8, 9],
    )
}

#[test]
fn a_bare_dispatch_cannot_come_first() {
    let mut solver = Solver::new(Some("solver"));
    assert!(solver.can_add(&dispatch()));
    assert_eq!(
        solver.add_operation(dispatch()),
        Err(OperationError::BindingNotPresent("solver".to_string()))
    );
    assert_eq!(solver.len(), 0);
    assert!(solver.get(0).is_none());
    assert!(!Solver::new(None).can_add(&dispatch()));
    assert!(Solver::new(None).can_add(&bound_dispatch()));
}

#[test]
fn operations_are_queued_in_the_order_they_came() {
    let mut solver = Solver::new(None);
    assert_eq!(solver.add_operation(Operation::BufferWrite { buffer: 0, variable: 0 }), Ok(()));
    assert!(solver.can_add(&dispatch()));
    assert_eq!(solver.add_operation(bound_dispatch()), Ok(()));
    assert_eq!(solver.add_operation(dispatch()), Ok(()));
    assert_eq!(solver.add_operation(Operation::Parallel { operations: vec![dispatch()] }), Ok(()));
    assert_eq!(solver.len(), 4);
    assert_eq!(solver.get(0), Some(&Operation::BufferWrite { buffer: 0, variable: 0 }));
    assert_eq!(solver.get(1), Some(&bound_dispatch()));
    assert_eq!(solver.get(2), Some(&dispatch()));
    assert_eq!(solver.get(3), Some(&Operation::Parallel { operations: vec![dispatch()] }));
    assert_eq!(solver.get(4), None);
}

#[test]
fn the_constructor_makes_a_bound_dispatch() {
    assert_eq!(
        bound_dispatch(),
        Operation::BindAndPipeline {
            bind_group: vec![BindEntry { binding: 0, variable: 3 }],
            pipeline: Pipeline { module: 0, entry_point: 1 },
            workgroup: [7, 8, 9],
        }
    );
}

#[test]
fn dispatches_are_recorded_in_a_compute_pass() {
    let mut pass = ComputePass::new("pass");
    assert_eq!(bound_dispatch().add_to_compute_pass(&mut pass), Ok(()));
    assert_eq!(dispatch().add_to_compute_pass(&mut pass), Ok(()));
    assert_eq!(
        pass.finish(),
        vec![
            Command::Bind { entries: vec![BindEntry { binding: 0, variable: 3 }] },
            Command::Execute { module: 0, entry_point: 1, workgroup: [7, 8, 9], label: "pass".to_string() },
            Command::Execute { module: 1, entry_point: 2, workgroup: [4, 5, 6], label: "pass".to_string() },
        ]
    );
}

#[test]
fn parallel_groups_and_buffer_writes_do_not_belong_in_a_compute_pass() {
    let mut pass = ComputePass::new("pass");
    assert_eq!(
        Operation::Parallel { operations: vec![] }.add_to_compute_pass(&mut pass),
        Err(OperationError::ComputePassOnParallel)
    );
    assert_eq!(
        Operation::BufferWrite { buffer: 1, variable: 1 }.add_to_compute_pass(&mut pass),
        Err(OperationError::ComputePassOnBuffer)
    );
    assert_eq!(pass.finish(), vec![]);
}
