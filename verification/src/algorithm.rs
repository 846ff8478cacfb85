//! Functions, and the scheduler that orders the steps the device carries out for them.
//!
//! - A [`Function`] is a shader with an entry point and the variables it works on.
//! - A [`VariableBind`] attaches one variable to a bind slot of the shader.
//! - An [`ExecutionUnit`] is what the device is handed in one go.
//! - The [`Algorithm`] collects functions, keeps the variable store and the
//!   module cache, and hands out the units in the order of the functions.

use std::marker::PhantomData;
use vstd::prelude::*;
use crate::cache::{
    cache_well_formed, lemma_register, register_spec, registered, ModuleCache, ModuleModel,
};
use crate::coding::Shader;
use crate::errors::{OperationError, VariableError, VariableNotFound};
use crate::interface::{
    label_text, name_text, stream_view, BindEntry, Command, CommandModel, Submission,
    SubmissionModel,
};
use crate::store::{
    index_of, intern_spec, lemma_index_of, lemma_intern, resident, store_well_formed, StoredModel,
    VariableStore,
};
use crate::tape::{
    function_commands, lemma_append_function, ordered, resolved, staged_once, staging,
};
use crate::variable::{plan, plan_spec, plannable, within_limits, VariableHandle};

verus! {

/// Marks a [`VariableBind`] whose variable the device may change.
#[derive(Debug)]
pub struct Mutable;

/// Marks a [`VariableBind`] whose variable the caller promises is only read.
///
/// The promise is not checked anywhere.
#[derive(Debug)]
pub struct Immutable;

/// Attaches a variable to a bind slot of a shader.
#[derive(Debug)]
pub struct VariableBind<Type = Mutable> {
    /// The attached variable.
    pub variable: VariableHandle,
    /// The bind slot in the shader.
    pub bind_group: u32,
    /// The mutability tag.
    pub mutable: PhantomData<Type>,
}

impl VariableBind<Mutable> {
    /// Attaches `variable` to the bind slot `bind_group`, as mutable.
    pub fn new(variable: VariableHandle, bind_group: u32) -> (bind: VariableBind<Mutable>)
        ensures
            bind.variable == variable,
            bind.bind_group == bind_group,
    {
        VariableBind { variable, bind_group, mutable: PhantomData }
    }

    /// Whether the device may change the variable: always, for this tag.
    pub fn is_mutable(&self) -> (mutable: bool)
        ensures
            mutable,
    {
        true
    }

    /// The same attachment with the promise that the variable is only read.
    pub fn set_immutable(self) -> (bind: VariableBind<Immutable>)
        ensures
            bind.variable == self.variable,
            bind.bind_group == self.bind_group,
    {
        VariableBind { variable: self.variable, bind_group: self.bind_group, mutable: PhantomData }
    }
}

impl VariableBind<Immutable> {
    /// Whether the device may change the variable: never, for this tag.
    pub fn is_mutable(&self) -> (mutable: bool)
        ensures
            !mutable,
    {
        false
    }

    /// The same attachment without the promise that the variable is only read.
    pub fn set_mutable(self) -> (bind: VariableBind<Mutable>)
        ensures
            bind.variable == self.variable,
            bind.bind_group == self.bind_group,
    {
        VariableBind { variable: self.variable, bind_group: self.bind_group, mutable: PhantomData }
    }
}

/// One computation: a shader, an entry point in it, and the attached variables
/// in the order they were declared.
pub struct Function<'a> {
    shader: &'a Shader,
    entry_point: String,
    variables: Vec<VariableBind>,
}

impl<'a> Function<'a> {
    /// The source text of the shader.
    pub closed spec fn source(&self) -> Seq<char> {
        self.shader@
    }

    /// The name of the entry point.
    pub closed spec fn entry(&self) -> Seq<char> {
        self.entry_point@
    }

    /// The attached variables, in declaration order.
    pub closed spec fn bindings(&self) -> Seq<VariableBind> {
        self.variables@
    }

    /// The function can be added to an algorithm: it attaches a variable, and the
    /// extents of the variable it attaches last can be planned.
    pub open spec fn schedulable(&self) -> bool {
        &&& self.bindings().len() > 0
        &&& within_limits(self.bindings().last().variable.dimensions)
    }

    /// Every attached variable has the extents of the one that is attached last,
    /// so the dispatch that is planned for the last covers them all.
    pub open spec fn extents_agree(&self) -> bool {
        forall|k: int|
            0 <= k < self.bindings().len() ==> (#[trigger] self.bindings()[k]).variable.dimensions
                == self.bindings().last().variable.dimensions
    }

    /// Whether the attached variables agree in their extents.
    ///
    /// The workgroup counts of a function are those of the variable it attaches
    /// last. Where the extents differ, the dispatch covers that variable only.
    pub fn has_agreeing_extents(&self) -> (agree: bool)
        ensures
            agree == self.extents_agree(),
    {
        let count = self.variables.len();
        let mut at: usize = 0;
        while at < count
            invariant
                at <= count == self.variables.len(),
                forall|k: int|
                    0 <= k < at ==> (#[trigger] self.bindings()[k]).variable.dimensions
                        == self.bindings().last().variable.dimensions,
            decreases count - at,
        {
            let extents = &self.variables[at].variable.dimensions;
            let wanted = &self.variables[count - 1].variable.dimensions;
            if extents[0] != wanted[0] || extents[1] != wanted[1] || extents[2] != wanted[2] {
                assert(self.bindings()[at as int].variable.dimensions
                    != self.bindings().last().variable.dimensions);
                return false;
            }
            assert(self.bindings()[at as int].variable.dimensions
                =~= self.bindings().last().variable.dimensions);
            at = at + 1;
        }
        true
    }

    /// Whether the function can be added to an algorithm.
    pub fn is_schedulable(&self) -> (fits: bool)
        ensures
            fits == self.schedulable(),
    {
        let count = self.variables.len();
        count > 0 && plannable(self.variables[count - 1].variable.dimensions)
    }

    /// Brings together what makes one computation.
    pub fn new(shader: &'a Shader, entry_point: &str, variables: Vec<VariableBind>) -> (function:
        Function<'a>)
        ensures
            function.source() == shader@,
            function.entry() == entry_point@,
            function.bindings() == variables@,
    {
        Function { shader, entry_point: entry_point.to_owned(), variables }
    }
}

/// The store after every binding of `bindings` was interned, first to last.
pub open spec fn intern_all(store: Seq<StoredModel>, bindings: Seq<VariableBind>) -> Seq<
    StoredModel,
>
    decreases bindings.len(),
{
    if bindings.len() == 0 {
        store
    } else {
        intern_spec(
            intern_all(store, bindings.drop_last()),
            bindings.last().variable,
            bindings.last().bind_group,
        )
    }
}

/// The bind group of a function: each binding's slot with the store index of
/// its variable, in declaration order.
pub open spec fn bind_entries(store: Seq<StoredModel>, bindings: Seq<VariableBind>) -> Seq<BindEntry> {
    Seq::new(
        bindings.len(),
        |k: int|
            BindEntry {
                binding: bindings[k].bind_group,
                variable: index_of(store, bindings[k].variable.key) as usize,
            },
    )
}

/// What is submitted to the device in one go.
#[derive(Debug)]
pub enum ExecutionUnit {
    /// One command stream, and the store indices of the variables it touches.
    Serial {
        commands: Vec<Command>,
        variables: Vec<usize>,
    },
    /// Several command streams that are submitted together. Every member has
    /// to be a `Serial` unit.
    Parallel(Vec<ExecutionUnit>),
    /// The read-back of the variable with this store index.
    ReadBuffer(usize),
}

/// An [`ExecutionUnit`] as a mathematical value. Of the members of a parallel
/// group it keeps the command stream of each `Serial` member, and `None` for
/// any other member.
pub enum UnitModel {
    Serial { commands: Seq<CommandModel>, variables: Seq<usize> },
    Parallel(Seq<Option<Seq<CommandModel>>>),
    ReadBuffer(usize),
}

/// The command stream of a `Serial` unit.
pub open spec fn serial_stream(unit: ExecutionUnit) -> Option<Seq<CommandModel>> {
    match unit {
        ExecutionUnit::Serial { commands, variables } => Some(stream_view(commands)),
        _ => None,
    }
}

impl View for ExecutionUnit {
    type V = UnitModel;

    open spec fn view(&self) -> UnitModel {
        match *self {
            ExecutionUnit::Serial { commands, variables } => UnitModel::Serial {
                commands: stream_view(commands),
                variables: variables@,
            },
            ExecutionUnit::Parallel(members) => UnitModel::Parallel(
                members@.map_values(|member: ExecutionUnit| serial_stream(member)),
            ),
            ExecutionUnit::ReadBuffer(variable) => UnitModel::ReadBuffer(variable),
        }
    }
}

/// What the backend is handed for `unit`, or the error that the unit is
/// refused with: a parallel group with a member that is no `Serial` unit.
pub open spec fn submission_spec(unit: UnitModel) -> Result<SubmissionModel, OperationError> {
    match unit {
        UnitModel::Serial { commands, variables } => Ok(SubmissionModel::Streams(seq![commands])),
        UnitModel::Parallel(members) => {
            if forall|i: int| 0 <= i < members.len() ==> (#[trigger] members[i]) is Some {
                Ok(
                    SubmissionModel::Streams(
                        Seq::new(members.len(), |i: int| members[i]->Some_0),
                    ),
                )
            } else {
                Err(OperationError::NestedParallel)
            }
        },
        UnitModel::ReadBuffer(variable) => Ok(SubmissionModel::Read(variable)),
    }
}

impl ExecutionUnit {
    /// Turns the unit into what the backend is handed for it.
    pub fn finish(self) -> (submission: Result<Submission, OperationError>)
        ensures
            match submission {
                Ok(handed) => submission_spec(self@) == Ok::<SubmissionModel, OperationError>(
                    handed@,
                ),
                Err(refusal) => submission_spec(self@) == Err::<SubmissionModel, OperationError>(
                    refusal,
                ),
            },
    {
        match self {
            ExecutionUnit::Serial { commands, variables } => {
                let mut streams: Vec<Vec<Command>> = Vec::new();
                streams.push(commands);
                let handed = Submission::Streams(streams);
                assert(handed@->Streams_0 =~= seq![stream_view(commands)]);
                Ok(handed)
            },
            ExecutionUnit::Parallel(members) => {
                let ghost model = members@.map_values(|member: ExecutionUnit| serial_stream(member));
                let mut streams: Vec<Vec<Command>> = Vec::new();
                for member in iter: members
                    invariant
                        iter.seq() == members@,
                        self@ == UnitModel::Parallel(model),
                        streams@.len() == iter.index(),
                        model == members@.map_values(|member: ExecutionUnit| serial_stream(member)),
                        forall|i: int|
                            0 <= i < iter.index() ==> (#[trigger] model[i]) == Some(
                                stream_view(streams@[i]),
                            ),
                {
                    match member {
                        ExecutionUnit::Serial { commands, variables } => {
                            streams.push(commands);
                            assert(model[iter.index() as int] == Some(stream_view(commands)));
                        },
                        _ => {
                            assert(model[iter.index() as int] is None);
                            return Err(OperationError::NestedParallel);
                        },
                    }
                }
                let handed = Submission::Streams(streams);
                assert(handed@->Streams_0 =~= Seq::new(model.len(), |i: int| model[i]->Some_0));
                Ok(handed)
            },
            ExecutionUnit::ReadBuffer(variable) => Ok(Submission::Read(variable)),
        }
    }
}

/// The commands that `unit` puts on the tape: those of a `Serial` unit.
pub open spec fn unit_commands(unit: UnitModel) -> Seq<CommandModel> {
    match unit {
        UnitModel::Serial { commands, variables } => commands,
        _ => Seq::empty(),
    }
}

/// The tape of `units`: their commands in the order in which a drain hands
/// them to the device.
pub open spec fn tape(units: Seq<UnitModel>) -> Seq<CommandModel>
    decreases units.len(),
{
    if units.len() == 0 {
        Seq::empty()
    } else {
        tape(units.drop_last()) + unit_commands(units.last())
    }
}

/// An [`Algorithm`] as a mathematical value.
pub struct AlgorithmModel {
    /// The records of the variable store.
    pub variables: Seq<StoredModel>,
    /// The modules of the module cache.
    pub modules: Seq<ModuleModel>,
    /// The units that wait for the next drain, oldest first.
    pub units: Seq<UnitModel>,
    /// The number of variables whose bytes an earlier drain has staged.
    pub staged: int,
}

impl AlgorithmModel {
    /// What holds of every algorithm.
    ///
    /// - The store and the cache are well formed.
    /// - No parallel group waits, and every read-back that waits is of a
    ///   variable of the store.
    /// - The tape of the waiting units is in order, stages each variable that
    ///   no earlier drain has staged, once, and leads somewhere with every index.
    #[verifier::opaque]
    pub open spec fn well_formed(self) -> bool {
        &&& store_well_formed(self.variables)
        &&& cache_well_formed(self.modules)
        &&& 0 <= self.staged <= self.variables.len()
        &&& forall|i: int|
            0 <= i < self.units.len() ==> match #[trigger] self.units[i] {
                UnitModel::Serial { commands, variables } => true,
                UnitModel::Parallel(members) => false,
                UnitModel::ReadBuffer(variable) => variable < self.variables.len(),
            }
        &&& ordered(tape(self.units), self.staged)
        &&& staged_once(tape(self.units), self.staged, self.variables.len() as int)
        &&& resolved(tape(self.units), self.variables.len() as int, self.modules)
    }
}

/// The units of an algorithm as mathematical values.
pub open spec fn units_view(units: Vec<ExecutionUnit>) -> Seq<UnitModel> {
    units@.map_values(|unit: ExecutionUnit| unit@)
}

/// What a drain hands to the backend for `units`, unit by unit.
pub open spec fn submitted(units: Seq<UnitModel>) -> Seq<SubmissionModel> {
    Seq::new(units.len(), |i: int| submission_spec(units[i])->Ok_0)
}

/// The submissions of a drain as mathematical values.
pub open spec fn submissions_view(submissions: Vec<Submission>) -> Seq<SubmissionModel> {
    submissions@.map_values(|submission: Submission| submission@)
}

/// The commands of `streams`, stream after stream.
pub open spec fn stream_commands(streams: Seq<Seq<CommandModel>>) -> Seq<CommandModel>
    decreases streams.len(),
{
    if streams.len() == 0 {
        Seq::empty()
    } else {
        stream_commands(streams.drop_last()) + streams.last()
    }
}

/// The commands that a drain hands to the device, in the order of `submissions`.
pub open spec fn drained(submissions: Seq<SubmissionModel>) -> Seq<CommandModel>
    decreases submissions.len(),
{
    if submissions.len() == 0 {
        Seq::empty()
    } else {
        drained(submissions.drop_last()) + match submissions.last() {
            SubmissionModel::Streams(streams) => stream_commands(streams),
            SubmissionModel::Read(variable) => Seq::empty(),
        }
    }
}

/// Where no parallel group waits, a drain hands the device the tape of the
/// waiting units.
pub proof fn lemma_drained_tape(units: Seq<UnitModel>)
    requires
        forall|i: int| 0 <= i < units.len() ==> !((#[trigger] units[i]) is Parallel),
    ensures
        drained(submitted(units)) == tape(units),
    decreases units.len(),
{
    if units.len() > 0 {
        lemma_drained_tape(units.drop_last());
        assert(submitted(units).drop_last() =~= submitted(units.drop_last()));
        match units.last() {
            UnitModel::Serial { commands, variables } => {
                let streams = seq![commands];
                assert(streams.drop_last() =~= Seq::<Seq<CommandModel>>::empty());
                assert(stream_commands(streams) =~= commands) by {
                    assert(stream_commands(streams.drop_last()) =~= Seq::<CommandModel>::empty());
                }
            },
            _ => {},
        }
    }
}

/// The algorithm after `function` was added, where its extents are accepted.
///
/// - The store has interned every binding, first to last.
/// - The cache has registered the entry point of the shader.
/// - One more unit waits: the single command stream that stages the variables
///   that were not resident, sets the bind group and dispatches the entry
///   point, with the workgroup counts of the variable that is attached last.
pub open spec fn add_fun_spec(before: AlgorithmModel, function: Function<'_>) -> AlgorithmModel {
    let store = intern_all(before.variables, function.bindings());
    let entries = bind_entries(store, function.bindings());
    let found = registered(before.modules, function.source(), function.entry());
    AlgorithmModel {
        variables: store,
        modules: register_spec(before.modules, function.source(), function.entry()),
        units: before.units.push(
            UnitModel::Serial {
                commands: function_commands(
                    before.variables.len() as int,
                    store.len() as int,
                    entries,
                    found.0,
                    found.1,
                    plan_spec(function.bindings().last().variable.dimensions)->Ok_0,
                ),
                variables: entries.map_values(|entry: BindEntry| entry.variable),
            },
        ),
        staged: before.staged,
    }
}

/// The algorithm after a drain: nothing waits, and every variable is staged.
pub open spec fn run_spec(before: AlgorithmModel) -> AlgorithmModel {
    AlgorithmModel { units: Seq::empty(), staged: before.variables.len() as int, ..before }
}

/// The algorithm after the read-back of the variable with the store index
/// `variable` was asked for.
pub open spec fn read_variable_spec(before: AlgorithmModel, variable: int) -> AlgorithmModel {
    AlgorithmModel { units: before.units.push(UnitModel::ReadBuffer(variable as usize)), ..before }
}

/// Some binding of `bindings` attaches the variable with identity `key`.
pub open spec fn attached(bindings: Seq<VariableBind>, key: u64) -> bool {
    exists|k: int| 0 <= k < bindings.len() && (#[trigger] bindings[k]).variable.key == key
}

/// Interning the bindings of a function keeps a store well formed and every
/// record where it is, and leaves resident the variables that were resident
/// or are attached, and no others.
pub proof fn lemma_intern_all(store: Seq<StoredModel>, bindings: Seq<VariableBind>)
    requires
        store_well_formed(store),
    ensures
        store_well_formed(intern_all(store, bindings)),
        store.len() <= intern_all(store, bindings).len() <= store.len() + bindings.len(),
        forall|key: u64|
            resident(store, key) ==> resident(intern_all(store, bindings), key) && index_of(
                intern_all(store, bindings),
                key,
            ) == index_of(store, key),
        forall|k: int|
            0 <= k < bindings.len() ==> resident(
                intern_all(store, bindings),
                (#[trigger] bindings[k]).variable.key,
            ),
        forall|key: u64|
            resident(intern_all(store, bindings), key) ==> resident(store, key) || attached(
                bindings,
                key,
            ),
    decreases bindings.len(),
{
    if bindings.len() > 0 {
        let earlier = intern_all(store, bindings.drop_last());
        let after = intern_all(store, bindings);
        let last = bindings.last();
        lemma_intern_all(store, bindings.drop_last());
        lemma_intern(earlier, last.variable, last.bind_group);
        assert forall|k: int| 0 <= k < bindings.len() implies resident(
            after,
            (#[trigger] bindings[k]).variable.key,
        ) by {
            if k < bindings.len() - 1 {
                assert(bindings.drop_last()[k] == bindings[k]);
                assert(resident(earlier, bindings.drop_last()[k].variable.key));
            }
        }
        assert forall|key: u64| resident(after, key) implies resident(store, key) || attached(
            bindings,
            key,
        ) by {
            let i = index_of(after, key);
            if i < earlier.len() {
                assert(earlier[i].variable.key == key);
                if !resident(store, key) {
                    let k = choose|k: int|
                        0 <= k < bindings.drop_last().len() && (
                        #[trigger] bindings.drop_last()[k]).variable.key == key;
                    assert(bindings[k].variable.key == key);
                }
            } else {
                assert(bindings[bindings.len() - 1].variable.key == key);
            }
        }
    }
}

/// A function that attaches one variable several times makes one record and
/// one buffer for it at most: one where the variable was not resident, none
/// where it was. So its bytes are staged once at most, however often it is
/// attached.
pub proof fn lemma_one_variable_one_record(store: Seq<StoredModel>, bindings: Seq<VariableBind>)
    requires
        store_well_formed(store),
        bindings.len() > 0,
        forall|k: int|
            0 <= k < bindings.len() ==> (#[trigger] bindings[k]).variable.key
                == bindings[0].variable.key,
    ensures
        intern_all(store, bindings).len() == if resident(store, bindings[0].variable.key) {
            store.len()
        } else {
            store.len() + 1
        },
        staging(store.len() as int, intern_all(store, bindings).len() as int).len() <= 1,
    decreases bindings.len(),
{
    let key = bindings[0].variable.key;
    let earlier = intern_all(store, bindings.drop_last());
    let last = bindings.last();
    assert(last == bindings[bindings.len() - 1]);
    lemma_intern_all(store, bindings.drop_last());
    lemma_intern(earlier, last.variable, last.bind_group);
    if bindings.len() == 1 {
        assert(bindings.drop_last() =~= Seq::<VariableBind>::empty());
        assert(earlier == store);
    } else {
        assert(bindings.drop_last()[0] == bindings[0]);
        assert forall|k: int| 0 <= k < bindings.drop_last().len() implies (
        #[trigger] bindings.drop_last()[k]).variable.key
            == bindings.drop_last()[0].variable.key by {
            assert(bindings.drop_last()[k] == bindings[k]);
        }
        lemma_one_variable_one_record(store, bindings.drop_last());
        assert(resident(earlier, bindings.drop_last()[0].variable.key));
    }
}

/// The tables of a well-formed scheduler are well formed.
pub proof fn lemma_tables_well_formed(model: AlgorithmModel)
    requires
        model.well_formed(),
    ensures
        store_well_formed(model.variables),
        cache_well_formed(model.modules),
        0 <= model.staged <= model.variables.len(),
{
    reveal(AlgorithmModel::well_formed);
}

/// A scheduler with nothing stored, cached or waiting is well formed.
pub proof fn lemma_new_well_formed()
    ensures
        (AlgorithmModel {
            variables: Seq::empty(),
            modules: Seq::empty(),
            units: Seq::empty(),
            staged: 0,
        }).well_formed(),
{
    reveal(AlgorithmModel::well_formed);
}

/// Adding a function keeps the scheduler well formed.
pub proof fn lemma_add_fun_well_formed(before: AlgorithmModel, function: Function<'_>)
    requires
        before.well_formed(),
        intern_all(before.variables, function.bindings()).len() <= usize::MAX,
        registered(before.modules, function.source(), function.entry()).0 <= usize::MAX,
        registered(before.modules, function.source(), function.entry()).1 <= usize::MAX,
    ensures
        add_fun_spec(before, function).well_formed(),
{
    reveal(AlgorithmModel::well_formed);
    let after = add_fun_spec(before, function);
    let bindings = function.bindings();
    let store = after.variables;
    let entries = bind_entries(store, bindings);
    let found = registered(before.modules, function.source(), function.entry());
    let workgroup = plan_spec(bindings.last().variable.dimensions)->Ok_0;
    lemma_intern_all(before.variables, bindings);
    lemma_register(before.modules, function.source(), function.entry());
    assert forall|k: int| 0 <= k < entries.len() implies (#[trigger] entries[k]).variable
        < store.len() by {
        assert(resident(store, bindings[k].variable.key));
        lemma_index_of(store, bindings[k].variable.key);
    }
    assert forall|m: int| 0 <= m < before.modules.len() implies (
    #[trigger] before.modules[m]).entry_point.len() <= after.modules[m].entry_point.len() by {
        assert(before.modules[m].entry_point.is_prefix_of(after.modules[m].entry_point));
    }
    let added = function_commands(
        before.variables.len() as int,
        store.len() as int,
        entries,
        found.0,
        found.1,
        workgroup,
    );
    lemma_append_function(
        tape(before.units),
        before.staged,
        before.variables.len() as int,
        store.len() as int,
        entries,
        found.0,
        found.1,
        workgroup,
        before.modules,
        after.modules,
    );
    assert(after.units.drop_last() =~= before.units);
    assert(tape(after.units) == tape(before.units) + added);
    assert forall|i: int| 0 <= i < after.units.len() implies match #[trigger] after.units[i] {
        UnitModel::Serial { commands, variables } => true,
        UnitModel::Parallel(members) => false,
        UnitModel::ReadBuffer(variable) => variable < after.variables.len(),
    } by {
        if i < before.units.len() {
            assert(after.units[i] == before.units[i]);
        }
    }
}

/// A drain keeps the scheduler well formed; what it drains is in order and
/// stages each variable once; and no unit that waits is refused.
pub proof fn lemma_run_well_formed(before: AlgorithmModel)
    requires
        before.well_formed(),
    ensures
        run_spec(before).well_formed(),
        ordered(tape(before.units), before.staged),
        staged_once(tape(before.units), before.staged, before.variables.len() as int),
        resolved(tape(before.units), before.variables.len() as int, before.modules),
        forall|i: int| 0 <= i < before.units.len() ==> submission_spec(#[trigger] before.units[i]) is Ok,
        drained(submitted(before.units)) == tape(before.units),
{
    reveal(AlgorithmModel::well_formed);
    lemma_drained_tape(before.units);
}

/// Asking for the read-back of a variable of the store keeps the scheduler
/// well formed.
pub proof fn lemma_read_variable_well_formed(before: AlgorithmModel, variable: int)
    requires
        before.well_formed(),
        0 <= variable < before.variables.len() <= usize::MAX,
    ensures
        read_variable_spec(before, variable).well_formed(),
{
    reveal(AlgorithmModel::well_formed);
    let after = read_variable_spec(before, variable);
    assert(after.units.drop_last() =~= before.units);
    assert(tape(after.units) =~= tape(before.units));
    assert forall|i: int| 0 <= i < after.units.len() implies match #[trigger] after.units[i] {
        UnitModel::Serial { commands, variables } => true,
        UnitModel::Parallel(members) => false,
        UnitModel::ReadBuffer(variable) => variable < after.variables.len(),
    } by {
        if i < before.units.len() {
            assert(after.units[i] == before.units[i]);
        }
    }
}

/// Interns every binding, first to last, and returns the bind group and the
/// store indices of the attached variables.
fn intern_bindings(store: &mut VariableStore, bindings: &Vec<VariableBind>) -> (found: (
    Vec<BindEntry>,
    Vec<usize>,
))
    requires
        old(store).well_formed(),
    ensures
        final(store).well_formed(),
        final(store)@ == intern_all(old(store)@, bindings@),
        found.0@ == bind_entries(final(store)@, bindings@),
        found.1@ == found.0@.map_values(|entry: BindEntry| entry.variable),
{
    let mut entries: Vec<BindEntry> = Vec::new();
    let mut touched: Vec<usize> = Vec::new();
    let mut at: usize = 0;
    while at < bindings.len()
        invariant
            at <= bindings.len(),
            store.well_formed(),
            store@ == intern_all(old(store)@, bindings@.take(at as int)),
            entries@.len() == at,
            touched@.len() == at,
            forall|k: int| 0 <= k < at ==> resident(store@, (#[trigger] bindings@[k]).variable.key),
            forall|k: int|
                0 <= k < at ==> (#[trigger] entries@[k]) == (BindEntry {
                    binding: bindings@[k].bind_group,
                    variable: index_of(store@, bindings@[k].variable.key) as usize,
                }),
            forall|k: int| 0 <= k < at ==> (#[trigger] touched@[k]) == entries@[k].variable,
        decreases bindings.len() - at,
    {
        let bind = &bindings[at];
        let ghost earlier = store@;
        proof {
            lemma_intern(earlier, bind.variable, bind.bind_group);
            assert(bindings@.take(at + 1).drop_last() =~= bindings@.take(at as int));
            assert(bindings@.take(at + 1).last() == bindings@[at as int]);
        }
        let found = store.intern(bind.variable.clone(), bind.bind_group);
        entries.push(BindEntry { binding: bind.bind_group, variable: found.0 });
        touched.push(found.0);
        proof {
            assert forall|k: int| 0 <= k < at + 1 implies resident(
                store@,
                (#[trigger] bindings@[k]).variable.key,
            ) by {
                if k < at {
                    assert(resident(earlier, bindings@[k].variable.key));
                }
            }
            assert forall|k: int| 0 <= k < at + 1 implies (#[trigger] entries@[k]) == (BindEntry {
                binding: bindings@[k].bind_group,
                variable: index_of(store@, bindings@[k].variable.key) as usize,
            }) by {
                if k < at {
                    assert(resident(earlier, bindings@[k].variable.key));
                }
            }
        }
        at = at + 1;
    }
    assert(bindings@.take(at as int) =~= bindings@);
    assert(entries@ =~= bind_entries(store@, bindings@));
    assert(touched@ =~= entries@.map_values(|entry: BindEntry| entry.variable));
    (entries, touched)
}

/// The commands that stage the variables with the store indices from `first`
/// up to `last`.
fn staging_commands(first: usize, last: usize) -> (commands: Vec<Command>)
    requires
        first <= last,
    ensures
        stream_view(commands) == staging(first as int, last as int),
{
    let mut commands: Vec<Command> = Vec::new();
    let mut variable: usize = first;
    assert(stream_view(commands) =~= staging(first as int, variable as int));
    while variable < last
        invariant
            first <= variable <= last,
            stream_view(commands) == staging(first as int, variable as int),
        decreases last - variable,
    {
        let ghost earlier = stream_view(commands);
        let command = Command::BufferWrite { variable, buffer: variable };
        commands.push(command);
        assert(stream_view(commands) =~= earlier.push(command@));
        variable = variable + 1;
        assert(earlier.push(command@) =~= staging(first as int, variable as int));
    }
    commands
}

/// The scheduler of one session.
///
/// Functions are added one after the other. Each becomes a unit that waits
/// until the next drain, which hands the waiting units to the backend in the
/// order in which they were added. The variable store and the module cache
/// outlive the drains: a variable is staged once in a session, and a shader
/// registered once.
pub struct Algorithm<'a> {
    variables: VariableStore,
    modules: ModuleCache<'a>,
    solvers: Vec<ExecutionUnit>,
    label: Option<String>,
    staged: usize,
}

impl<'a> View for Algorithm<'a> {
    type V = AlgorithmModel;

    closed spec fn view(&self) -> AlgorithmModel {
        AlgorithmModel {
            variables: self.variables@,
            modules: self.modules@,
            units: units_view(self.solvers),
            staged: self.staged as int,
        }
    }
}

impl<'a> Algorithm<'a> {
    /// The invariant of the scheduler: see [`AlgorithmModel::well_formed`].
    pub open spec fn well_formed(&self) -> bool {
        self@.well_formed()
    }

    /// The label of the session.
    pub closed spec fn label(&self) -> Option<String> {
        self.label
    }

    /// A scheduler with nothing stored, cached or waiting.
    pub fn new(label: Option<&str>) -> (algorithm: Algorithm<'a>)
        ensures
            algorithm.well_formed(),
            algorithm@ == (AlgorithmModel {
                variables: Seq::empty(),
                modules: Seq::empty(),
                units: Seq::empty(),
                staged: 0,
            }),
            label_text(algorithm.label()) == name_text(label),
    {
        let label = match label {
            Some(text) => Some(text.to_owned()),
            None => None,
        };
        let algorithm = Algorithm {
            variables: VariableStore::new(),
            modules: ModuleCache::new(),
            solvers: Vec::new(),
            label,
            staged: 0,
        };
        proof {
            assert(algorithm@.units =~= Seq::empty());
            lemma_new_well_formed();
        }
        algorithm
    }

    /// The label of the session.
    pub fn get_label(&self) -> (label: &Option<String>)
        ensures
            *label == self.label(),
    {
        &self.label
    }

    /// The variable store.
    pub fn variables(&self) -> (store: &VariableStore)
        ensures
            store@ == self@.variables,
    {
        &self.variables
    }

    /// The module cache.
    pub fn modules(&self) -> (cache: &ModuleCache<'a>)
        ensures
            cache@ == self@.modules,
    {
        &self.modules
    }

    /// The number of units that wait for the next drain.
    pub fn pending(&self) -> (count: usize)
        ensures
            count == self@.units.len(),
    {
        self.solvers.len()
    }

    /// Schedules `function`.
    ///
    /// Where the extents of the variable that is attached last are refused,
    /// the refusal is returned and nothing changes.
    pub fn add_fun(&mut self, function: Function<'a>) -> (added: Result<(), VariableError<u32>>)
        requires
            old(self).well_formed(),
            function.schedulable(),
        ensures
            final(self).well_formed(),
            final(self).label() == old(self).label(),
            match plan_spec(function.bindings().last().variable.dimensions) {
                Ok(workgroup) => added is Ok && final(self)@ == add_fun_spec(old(self)@, function),
                Err(refusal) => added == Err::<(), VariableError<u32>>(refusal) && final(self)@
                    == old(self)@,
            },
    {
        let count = function.variables.len();
        let workgroup = match plan(function.variables[count - 1].variable.dimensions) {
            Ok(workgroup) => workgroup,
            Err(refusal) => {
                return Err(refusal);
            },
        };
        proof {
            lemma_tables_well_formed(self@);
            lemma_intern_all(self@.variables, function.bindings());
        }
        let first = self.variables.len();
        let (entries, touched) = intern_bindings(&mut self.variables, &function.variables);
        let last = self.variables.len();
        let mut commands = staging_commands(first, last);
        let found = self.modules.register(function.shader, function.entry_point.as_str());
        proof {
            lemma_add_fun_well_formed(old(self)@, function);
        }
        let ghost staged_commands = stream_view(commands);
        let bind = Command::Bind { entries };
        let execute = Command::Execute {
            module: found.0,
            entry_point: found.1,
            workgroup,
            label: "function".to_owned(),
        };
        let ghost tail = seq![bind@, execute@];
        commands.push(bind);
        commands.push(execute);
        assert(stream_view(commands) =~= staged_commands + tail);
        let unit = ExecutionUnit::Serial { commands, variables: touched };
        self.solvers.push(unit);
        assert(self@.units =~= old(self)@.units.push(unit@));
        Ok(())
    }

    /// Hands the waiting units to the backend, oldest first, and leaves none waiting.
    ///
    /// The store and the cache stay as they are. Every variable of the store
    /// counts as staged from now on.
    pub fn run(&mut self) -> (handed: Result<Vec<Submission>, OperationError>)
        requires
            old(self).well_formed(),
        ensures
            final(self).well_formed(),
            final(self).label() == old(self).label(),
            final(self)@ == run_spec(old(self)@),
            handed matches Ok(submissions) && submissions_view(submissions) == submitted(
                old(self)@.units,
            ),
            drained(submitted(old(self)@.units)) == tape(old(self)@.units),
            ordered(tape(old(self)@.units), old(self)@.staged),
            staged_once(
                tape(old(self)@.units),
                old(self)@.staged,
                old(self)@.variables.len() as int,
            ),
            resolved(
                tape(old(self)@.units),
                old(self)@.variables.len() as int,
                old(self)@.modules,
            ),
    {
        proof {
            lemma_run_well_formed(self@);
        }
        let mut waiting: Vec<ExecutionUnit> = Vec::new();
        std::mem::swap(&mut self.solvers, &mut waiting);
        self.staged = self.variables.len();
        assert(self@.units =~= Seq::empty());
        let ghost units = old(self)@.units;
        let mut submissions: Vec<Submission> = Vec::new();
        for unit in iter: waiting
            invariant
                iter.seq() == waiting@,
                units == units_view(waiting),
                forall|i: int| 0 <= i < units.len() ==> submission_spec(#[trigger] units[i]) is Ok,
                submissions_view(submissions) == submitted(units).take(iter.index() as int),
        {
            assert(unit@ == units[iter.index() as int]);
            match unit.finish() {
                Ok(submission) => {
                    let ghost earlier = submissions_view(submissions);
                    submissions.push(submission);
                    assert(submissions_view(submissions) =~= earlier.push(submission@));
                    assert(earlier.push(submission@) =~= submitted(units).take(iter.index() + 1));
                },
                Err(refusal) => {
                    return Err(refusal);
                },
            }
        }
        assert(submitted(units).take(units.len() as int) =~= submitted(units));
        Ok(submissions)
    }

    /// Asks for the read-back of `var` at the next drain.
    ///
    /// A variable that no function has attached is not found, and nothing changes.
    pub fn read_variable(&mut self, var: &VariableHandle) -> (asked: Result<(), VariableNotFound>)
        requires
            old(self).well_formed(),
        ensures
            final(self).well_formed(),
            final(self).label() == old(self).label(),
            resident(old(self)@.variables, var.key) ==> asked is Ok && final(self)@
                == read_variable_spec(old(self)@, index_of(old(self)@.variables, var.key)),
            !resident(old(self)@.variables, var.key) ==> final(self)@ == old(self)@ && asked == Err::<
                (),
                VariableNotFound,
            >(VariableNotFound { variable: var.name, label: old(self).label() }),
    {
        proof {
            lemma_tables_well_formed(self@);
        }
        let count = self.variables.len();
        match self.variables.position(var) {
            None => {
                let variable = match &var.name {
                    Some(text) => Some(text.clone()),
                    None => None,
                };
                let label = match &self.label {
                    Some(text) => Some(text.clone()),
                    None => None,
                };
                Err(VariableNotFound { variable, label })
            },
            Some(index) => {
                proof {
                    lemma_index_of(self@.variables, var.key);
                    lemma_read_variable_well_formed(self@, index as int);
                }
                let unit = ExecutionUnit::ReadBuffer(index);
                self.solvers.push(unit);
                assert(self@.units =~= old(self)@.units.push(unit@));
                Ok(())
            },
        }
    }
}

} // verus!
