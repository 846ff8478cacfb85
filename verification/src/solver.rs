//! Operations that are queued one by one, and how each is recorded in a compute pass.
//!
//! A [`Solver`] collects the [`Operation`]s of a computation in the order in
//! which they are to run. An operation names what it binds and dispatches by
//! indices: those of the variable store and of the module cache.

use vstd::prelude::*;
use crate::errors::OperationError;
use crate::interface::{label_text, name_text, stream_view, BindEntry, Command, CommandModel};

verus! {

/// The entry point of a module, as the module cache numbers them.
#[derive(Debug, Clone, Copy, PartialEq, Eq, Structural)]
pub struct Pipeline {
    /// The index of the module in the module cache.
    pub module: usize,
    /// The index of the entry point inside the module.
    pub entry_point: usize,
}

/// One step of a computation.
#[derive(Debug, PartialEq, Eq)]
pub enum Operation {
    /// Sets a bind group, then dispatches a pipeline.
    BindAndPipeline {
        bind_group: Vec<BindEntry>,
        pipeline: Pipeline,
        workgroup: [u32; 3],
    },
    /// Dispatches a pipeline on the bind group that is set already.
    Pipeline {
        pipeline: Pipeline,
        workgroup: [u32; 3],
    },
    /// Operations that are submitted together, each as a command stream of its own.
    Parallel {
        operations: Vec<Operation>,
    },
    /// Stages the bytes of a variable into a buffer.
    BufferWrite {
        buffer: usize,
        variable: usize,
    },
}

/// The commands that are recorded in one compute pass, with the label they carry.
#[derive(Debug)]
pub struct ComputePass {
    label: String,
    commands: Vec<Command>,
}

impl View for ComputePass {
    type V = Seq<CommandModel>;

    closed spec fn view(&self) -> Seq<CommandModel> {
        stream_view(self.commands)
    }
}

impl ComputePass {
    /// The label of the pass.
    pub closed spec fn label(&self) -> Seq<char> {
        self.label@
    }

    /// A pass in which nothing is recorded yet.
    pub fn new(label: &str) -> (pass: ComputePass)
        ensures
            pass@ == Seq::<CommandModel>::empty(),
            pass.label() == label@,
    {
        let pass = ComputePass { label: label.to_owned(), commands: Vec::new() };
        assert(pass@ =~= Seq::<CommandModel>::empty());
        pass
    }

    /// Ends the pass and hands out what was recorded.
    pub fn finish(self) -> (commands: Vec<Command>)
        ensures
            stream_view(commands) == self@,
    {
        self.commands
    }
}

/// What recording `operation` adds to a pass with the label `label`, or why it
/// cannot be recorded.
///
/// A dispatch is recorded, after its bind group where it brings one. A parallel
/// group and a buffer write do not belong in a pass.
pub open spec fn recorded(operation: Operation, label: Seq<char>) -> Result<
    Seq<CommandModel>,
    OperationError,
> {
    match operation {
        Operation::BindAndPipeline { bind_group, pipeline, workgroup } => Ok(
            seq![
                CommandModel::Bind { entries: bind_group@ },
                CommandModel::Execute {
                    module: pipeline.module,
                    entry_point: pipeline.entry_point,
                    workgroup,
                    label,
                },
            ],
        ),
        Operation::Pipeline { pipeline, workgroup } => Ok(
            seq![
                CommandModel::Execute {
                    module: pipeline.module,
                    entry_point: pipeline.entry_point,
                    workgroup,
                    label,
                },
            ],
        ),
        Operation::Parallel { operations } => Err(OperationError::ComputePassOnParallel),
        Operation::BufferWrite { buffer, variable } => Err(OperationError::ComputePassOnBuffer),
    }
}

/// A copy of a bind group.
fn copy_entries(entries: &Vec<BindEntry>) -> (copy: Vec<BindEntry>)
    ensures
        copy@ == entries@,
{
    let mut copy: Vec<BindEntry> = Vec::new();
    let mut at: usize = 0;
    while at < entries.len()
        invariant
            at <= entries.len(),
            copy@ == entries@.take(at as int),
        decreases entries.len() - at,
    {
        copy.push(entries[at]);
        at = at + 1;
        assert(copy@ =~= entries@.take(at as int));
    }
    assert(entries@.take(at as int) =~= entries@);
    copy
}

impl Operation {
    /// The operation that sets `bind_group` and dispatches `pipeline` over
    /// `workgroup` workgroups.
    pub fn from_bind_and_pipeline_descriptors(
        bind_group: Vec<BindEntry>,
        pipeline: Pipeline,
        workgroup: [u32; 3],
    ) -> (operation: Operation)
        ensures
            operation == (Operation::BindAndPipeline { bind_group, pipeline, workgroup }),
    {
        Operation::BindAndPipeline { bind_group, pipeline, workgroup }
    }

    /// Records the operation at the end of `compute_pass`.
    ///
    /// Where the operation cannot be recorded the pass stays as it is.
    pub fn add_to_compute_pass(&self, compute_pass: &mut ComputePass) -> (added: Result<
        (),
        OperationError,
    >)
        ensures
            final(compute_pass).label() == old(compute_pass).label(),
            match recorded(*self, old(compute_pass).label()) {
                Ok(commands) => added is Ok && final(compute_pass)@ == old(compute_pass)@ + commands,
                Err(refusal) => added == Err::<(), OperationError>(refusal) && final(compute_pass)@
                    == old(compute_pass)@,
            },
    {
        let ghost before = compute_pass@;
        match self {
            Operation::BindAndPipeline { bind_group, pipeline, workgroup } => {
                let bind = Command::Bind { entries: copy_entries(bind_group) };
                let execute = Command::Execute {
                    module: pipeline.module,
                    entry_point: pipeline.entry_point,
                    workgroup: *workgroup,
                    label: compute_pass.label.clone(),
                };
                let ghost commands = seq![bind@, execute@];
                compute_pass.commands.push(bind);
                compute_pass.commands.push(execute);
                assert(compute_pass@ =~= before + commands);
                Ok(())
            },
            Operation::Pipeline { pipeline, workgroup } => {
                let execute = Command::Execute {
                    module: pipeline.module,
                    entry_point: pipeline.entry_point,
                    workgroup: *workgroup,
                    label: compute_pass.label.clone(),
                };
                let ghost commands = seq![execute@];
                compute_pass.commands.push(execute);
                assert(compute_pass@ =~= before + commands);
                Ok(())
            },
            Operation::Parallel { operations } => Err(OperationError::ComputePassOnParallel),
            Operation::BufferWrite { buffer, variable } => Err(OperationError::ComputePassOnBuffer),
        }
    }
}

/// The operations of one computation, in the order in which they are to run.
///
/// Nothing is queued until the first operation arrives. That first operation
/// has to bring a bind group or data: a bare dispatch is refused, since there
/// would be nothing bound for it to work on.
#[derive(Debug)]
pub struct Solver {
    operations: Option<Vec<Operation>>,
    label: Option<String>,
}

impl Solver {
    /// The queued operations, oldest first; `None` until the first arrives.
    pub closed spec fn queued(&self) -> Option<Seq<Operation>> {
        match self.operations {
            Some(operations) => Some(operations@),
            None => None,
        }
    }

    /// The label of the solver.
    pub closed spec fn label(&self) -> Option<String> {
        self.label
    }

    /// A solver with nothing queued.
    pub fn new(label: Option<&str>) -> (solver: Solver)
        ensures
            solver.queued() is None,
            label_text(solver.label()) == name_text(label),
    {
        let label = match label {
            Some(text) => Some(text.to_owned()),
            None => None,
        };
        Solver { operations: None, label }
    }

    /// Whether [`Solver::add_operation`] may be called with `operation`: always
    /// but for a bare dispatch on a solver with nothing queued and no label to
    /// name in the refusal.
    pub open spec fn accepts(&self, operation: Operation) -> bool {
        self.queued() is None && operation is Pipeline ==> self.label() is Some
    }

    /// Whether [`Solver::add_operation`] may be called with `operation`.
    pub fn can_add(&self, operation: &Operation) -> (fits: bool)
        ensures
            fits == self.accepts(*operation),
    {
        match (&self.operations, operation, &self.label) {
            (None, Operation::Pipeline { pipeline, workgroup }, None) => false,
            _ => true,
        }
    }

    /// The number of queued operations.
    pub fn len(&self) -> (count: usize)
        ensures
            count == match self.queued() {
                Some(operations) => operations.len(),
                None => 0,
            },
    {
        match &self.operations {
            Some(operations) => operations.len(),
            None => 0,
        }
    }

    /// The queued operation at `index`.
    pub fn get(&self, index: usize) -> (operation: Option<&Operation>)
        ensures
            operation is Some <==> (self.queued() matches Some(operations) && index
                < operations.len()),
            operation matches Some(found) ==> *found == self.queued()->Some_0[index as int],
    {
        match &self.operations {
            Some(operations) => {
                if index < operations.len() {
                    Some(&operations[index])
                } else {
                    None
                }
            },
            None => None,
        }
    }

    /// Queues `operation` behind those that are queued.
    ///
    /// A bare dispatch as the first operation is refused with the solver's
    /// label, and nothing is queued.
    pub fn add_operation(&mut self, operation: Operation) -> (added: Result<(), OperationError>)
        requires
            old(self).accepts(operation),
        ensures
            final(self).label() == old(self).label(),
            match old(self).queued() {
                Some(operations) => added is Ok && final(self).queued() == Some(
                    operations.push(operation),
                ),
                None => if operation is Pipeline {
                    &&& added == Err::<(), OperationError>(
                        OperationError::BindingNotPresent(old(self).label()->Some_0),
                    )
                    &&& final(self).queued() is None
                } else {
                    added is Ok && final(self).queued() == Some(seq![operation])
                },
            },
    {
        match &mut self.operations {
            Some(operations) => {
                operations.push(operation);
                Ok(())
            },
            None => {
                match operation {
                    Operation::Pipeline { pipeline, workgroup } => {
                        match &self.label {
                            Some(label) => Err(OperationError::BindingNotPresent(label.clone())),
                            None => unreached(),
                        }
                    },
                    _ => {
                        let mut operations: Vec<Operation> = Vec::new();
                        operations.push(operation);
                        self.operations = Some(operations);
                        Ok(())
                    },
                }
            },
        }
    }
}

} // verus!
