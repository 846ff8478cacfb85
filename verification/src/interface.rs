//! The values that cross to the device backend.
//!
//! The scheduler never holds a device object. It describes buffers, bind-group
//! layouts and commands as plain values, and refers to buffers, variables and
//! pipelines by their indices in its own tables. A backend turns these values
//! into device calls.

use vstd::prelude::*;

verus! {

/// What a buffer may be used for on the device.
#[derive(Debug, Clone, Copy, PartialEq, Eq, Structural)]
pub struct BufferUsage {
    /// The buffer can be bound as a storage buffer.
    pub storage: bool,
    /// The buffer can be the destination of a copy or a write.
    pub copy_dst: bool,
    /// The buffer can be the source of a copy.
    pub copy_src: bool,
    /// The buffer can be mapped for the host to read.
    pub map_read: bool,
}

impl BufferUsage {
    /// The uses of a variable's buffer: storage that is written from the host
    /// and copied back.
    pub open spec fn variable_storage() -> BufferUsage {
        BufferUsage { storage: true, copy_dst: true, copy_src: true, map_read: false }
    }

    /// The uses of a staging buffer: the destination of a copy that the host
    /// then maps and reads.
    pub open spec fn read_back() -> BufferUsage {
        BufferUsage { storage: false, copy_dst: true, copy_src: false, map_read: true }
    }
}

/// The text of an optional owned label.
pub open spec fn label_text(label: Option<String>) -> Option<Seq<char>> {
    match label {
        Some(text) => Some(text@),
        None => None,
    }
}

/// The text of an optional borrowed label.
pub open spec fn name_text(name: Option<&str>) -> Option<Seq<char>> {
    match name {
        Some(text) => Some(text@),
        None => None,
    }
}

/// How a buffer is to be created.
#[derive(Debug, PartialEq, Eq)]
pub struct BufferDescriptor {
    /// A name for diagnostics.
    pub label: Option<String>,
    /// The size in bytes.
    pub size: u64,
    /// The uses the buffer is created for.
    pub usage: BufferUsage,
    /// Whether the buffer is mapped for the host at creation.
    pub mapped_at_creation: bool,
}

impl BufferDescriptor {
    /// The descriptor of a variable's buffer: storage that can be written from
    /// the host and copied back, of the given size, not mapped at creation.
    pub fn storage(label: Option<&str>, size: u64) -> (descriptor: BufferDescriptor)
        ensures
            label_text(descriptor.label) == name_text(label),
            descriptor.size == size,
            descriptor.usage == BufferUsage::variable_storage(),
            !descriptor.mapped_at_creation,
    {
        let label = match label {
            Some(text) => Some(text.to_owned()),
            None => None,
        };
        BufferDescriptor {
            label,
            size,
            usage: BufferUsage { storage: true, copy_dst: true, copy_src: true, map_read: false },
            mapped_at_creation: false,
        }
    }

    /// The descriptor of the buffer through which a buffer of `size` bytes is
    /// read back: as large, the destination of a copy, readable by the host.
    pub fn staging(size: u64) -> (descriptor: BufferDescriptor)
        ensures
            label_text(descriptor.label) == Some("Staging Buffer"@),
            descriptor.size == size,
            descriptor.usage == BufferUsage::read_back(),
            !descriptor.mapped_at_creation,
    {
        BufferDescriptor {
            label: Some("Staging Buffer".to_owned()),
            size,
            usage: BufferUsage { storage: false, copy_dst: true, copy_src: false, map_read: true },
            mapped_at_creation: false,
        }
    }
}

/// One entry of a bind-group layout: a storage buffer visible to compute shaders.
#[derive(Debug, Clone, Copy, PartialEq, Eq)]
pub struct BindGroupLayoutEntry {
    /// The bind slot in the shader.
    pub binding: u32,
    /// Whether the shader may only read the buffer.
    pub read_only: bool,
    /// Whether the binding takes a dynamic offset.
    pub has_dynamic_offset: bool,
    /// The least size a bound buffer must have; `None` when nothing is demanded.
    pub min_binding_size: Option<u64>,
}

impl BindGroupLayoutEntry {
    /// The entry never demands a least size of zero.
    pub open spec fn well_formed(&self) -> bool {
        self.min_binding_size != Some(0u64)
    }
}

/// One entry of a bind group: the variable attached to a bind slot.
#[derive(Debug, Clone, Copy, PartialEq, Eq, Structural)]
pub struct BindEntry {
    /// The bind slot in the shader.
    pub binding: u32,
    /// The index of the variable's record in the variable store.
    pub variable: usize,
}

/// One step that the device backend carries out.
#[derive(Debug, PartialEq, Eq)]
pub enum Command {
    /// Stage the bytes of a variable into its buffer.
    BufferWrite {
        /// The index of the variable's record in the variable store.
        variable: usize,
        /// The index of the buffer that backs the variable.
        buffer: usize,
    },
    /// Set the bind group for the dispatch that follows.
    Bind {
        /// The attached variables, in the order they were declared.
        entries: Vec<BindEntry>,
    },
    /// Dispatch a cached pipeline.
    Execute {
        /// The index of the module in the module cache.
        module: usize,
        /// The index of the entry point inside the module.
        entry_point: usize,
        /// The workgroup count along each axis.
        workgroup: [u32; 3],
        /// A name for diagnostics.
        label: String,
    },
}

/// A [`Command`] as a mathematical value.
pub enum CommandModel {
    BufferWrite { variable: usize, buffer: usize },
    Bind { entries: Seq<BindEntry> },
    Execute { module: usize, entry_point: usize, workgroup: [u32; 3], label: Seq<char> },
}

impl View for Command {
    type V = CommandModel;

    open spec fn view(&self) -> CommandModel {
        match *self {
            Command::BufferWrite { variable, buffer } => CommandModel::BufferWrite {
                variable,
                buffer,
            },
            Command::Bind { entries } => CommandModel::Bind { entries: entries@ },
            Command::Execute { module, entry_point, workgroup, label } => CommandModel::Execute {
                module,
                entry_point,
                workgroup,
                label: label@,
            },
        }
    }
}

/// A command stream as a sequence of mathematical values.
pub open spec fn stream_view(stream: Vec<Command>) -> Seq<CommandModel> {
    stream@.map_values(|command: Command| command@)
}

/// What the backend does for one drained unit.
#[derive(Debug, PartialEq, Eq)]
pub enum Submission {
    /// Finish each command stream and submit them together.
    Streams(Vec<Vec<Command>>),
    /// Read the buffer of the variable with this store index back into the variable.
    Read(usize),
}

/// A [`Submission`] as a mathematical value.
pub enum SubmissionModel {
    Streams(Seq<Seq<CommandModel>>),
    Read(usize),
}

impl View for Submission {
    type V = SubmissionModel;

    open spec fn view(&self) -> SubmissionModel {
        match *self {
            Submission::Streams(streams) => SubmissionModel::Streams(
                streams@.map_values(|stream: Vec<Command>| stream_view(stream)),
            ),
            Submission::Read(variable) => SubmissionModel::Read(variable),
        }
    }
}

} // verus!
