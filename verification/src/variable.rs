//! The capability a data object needs to be scheduled, and the workgroup planner.
//!
//! The planner maps the extents of a variable, one for each of three axes, to
//! the workgroup counts of the dispatch that covers it. Each axis falls in one
//! of three tiers:
//!
//! - up to [`DIRECT_EXTENT_MAX`], the extent is the workgroup count;
//! - above that and up to [`FIRST_AXIS_EXTENT_MAX`] on the first axis, or up to
//!   [`OTHER_AXIS_EXTENT_MAX`] on the other two, the extent is refused with an
//!   error that names the axis;
//! - above that, no device can dispatch the variable at all, and [`plan`] does
//!   not take it. [`plannable`] tells, and [`checked_plan`] tests before it plans.

use vstd::prelude::*;
use crate::errors::VariableError;
use crate::interface::{label_text, name_text, BufferDescriptor, BufferUsage};

verus! {

/// The largest extent that is dispatched as it stands.
pub const DIRECT_EXTENT_MAX: u32 = 65535;

/// The largest extent that the first axis reports as an error.
pub const FIRST_AXIS_EXTENT_MAX: u32 = 4_194_240;

/// The largest extent that the second and third axes report as an error.
pub const OTHER_AXIS_EXTENT_MAX: u32 = 16_776_960;

/// The extent is used as the axis's workgroup count.
pub open spec fn axis_direct(extent: u32) -> bool {
    extent <= DIRECT_EXTENT_MAX
}

/// The extent is refused with an error naming the axis.
pub open spec fn axis_refused(extent: u32, axis: int) -> bool {
    ||| DIRECT_EXTENT_MAX < extent <= FIRST_AXIS_EXTENT_MAX
    ||| FIRST_AXIS_EXTENT_MAX < extent <= OTHER_AXIS_EXTENT_MAX && (axis == 1 || axis == 2)
}

/// Every axis before `axis` is dispatched as it stands, so planning gets to `axis`.
pub open spec fn reaches(dimension_sizes: [u32; 3], axis: int) -> bool {
    forall|j: int| 0 <= j < axis ==> axis_direct(#[trigger] dimension_sizes[j])
}

/// Planning never meets an extent that no device can dispatch.
pub open spec fn within_limits(dimension_sizes: [u32; 3]) -> bool {
    forall|i: int|
        0 <= i < 3 && reaches(dimension_sizes, i) ==> axis_direct(#[trigger] dimension_sizes[i])
            || axis_refused(dimension_sizes[i], i)
}

/// The workgroup counts for the given extents, or the first axis that is refused.
pub open spec fn plan_spec(dimension_sizes: [u32; 3]) -> Result<[u32; 3], VariableError<u32>> {
    if !axis_direct(dimension_sizes[0]) {
        Err(VariableError::WorkgroupDimensionError(0))
    } else if !axis_direct(dimension_sizes[1]) {
        Err(VariableError::WorkgroupDimensionError(1))
    } else if !axis_direct(dimension_sizes[2]) {
        Err(VariableError::WorkgroupDimensionError(2))
    } else {
        Ok(dimension_sizes)
    }
}

/// Whether [`plan`] may be called on these extents.
pub fn plannable(dimension_sizes: [u32; 3]) -> (fits: bool)
    ensures
        fits == within_limits(dimension_sizes),
{
    let mut axis: usize = 0;
    while axis < 3
        invariant
            axis <= 3,
            reaches(dimension_sizes, axis as int),
            forall|i: int|
                0 <= i < axis ==> axis_direct(#[trigger] dimension_sizes[i]),
        decreases 3 - axis,
    {
        let extent: u32 = dimension_sizes[axis];
        if extent > DIRECT_EXTENT_MAX {
            let refused = extent <= FIRST_AXIS_EXTENT_MAX || (extent <= OTHER_AXIS_EXTENT_MAX
                && axis != 0);
            proof {
                if refused {
                    assert forall|i: int| 0 <= i < 3 && reaches(dimension_sizes, i) implies axis_direct(
                        #[trigger] dimension_sizes[i],
                    ) || axis_refused(dimension_sizes[i], i) by {
                        if i > axis {
                            assert(!axis_direct(dimension_sizes[axis as int]));
                        }
                    }
                } else {
                    assert(reaches(dimension_sizes, axis as int));
                }
            }
            return refused;
        }
        axis = axis + 1;
    }
    true
}

/// Maps a variable's extents to the workgroup counts of its dispatch.
///
/// The axes are taken in order. An extent up to [`DIRECT_EXTENT_MAX`] is the
/// axis's workgroup count. The first larger extent ends planning with an error
/// that names its axis, whatever the extents of the axes behind it.
pub fn plan(dimension_sizes: [u32; 3]) -> (workgroup: Result<[u32; 3], VariableError<u32>>)
    requires
        within_limits(dimension_sizes),
    ensures
        workgroup == plan_spec(dimension_sizes),
        workgroup is Ok <==> forall|i: int| 0 <= i < 3 ==> axis_direct(#[trigger] dimension_sizes[i]),
        workgroup matches Err(VariableError::WorkgroupDimensionError(axis)) ==> axis < 3
            && axis_refused(dimension_sizes[axis as int], axis as int) && reaches(
            dimension_sizes,
            axis as int,
        ),
{
    let mut axis: usize = 0;
    while axis < 3
        invariant
            axis <= 3,
            within_limits(dimension_sizes),
            forall|i: int| 0 <= i < axis ==> axis_direct(#[trigger] dimension_sizes[i]),
        decreases 3 - axis,
    {
        if dimension_sizes[axis] > DIRECT_EXTENT_MAX {
            assert(reaches(dimension_sizes, axis as int));
            assert(axis_refused(dimension_sizes[axis as int], axis as int));
            return Err(VariableError::WorkgroupDimensionError(axis as u32));
        }
        axis = axis + 1;
    }
    Ok(dimension_sizes)
}

/// Plans the dispatch where one exists.
///
/// `None` stands for extents that no device can dispatch; on all others the
/// result is that of [`plan`].
pub fn checked_plan(dimension_sizes: [u32; 3]) -> (workgroup: Option<
    Result<[u32; 3], VariableError<u32>>,
>)
    ensures
        workgroup is Some <==> within_limits(dimension_sizes),
        workgroup matches Some(planned) ==> planned == plan_spec(dimension_sizes),
{
    if plannable(dimension_sizes) {
        Some(plan(dimension_sizes))
    } else {
        None
    }
}

/// What a data object must offer to take part in a computation on the device.
///
/// The scheduler asks a variable for its name, size and extents when a
/// [`VariableHandle`] is made of it. The backend asks for its bytes when the
/// buffer is written, and hands bytes back when the buffer is read.
///
/// The extents of a variable belong to its value: [`Variable::extents`] names
/// them, and an implementation's [`Variable::dimension_sizes`] has to return
/// them. What is proved of a variable's dispatch holds of the implementations
/// that keep to this.
pub trait Variable {
    /// A name for diagnostics.
    fn get_name(&self) -> Option<&str>;

    /// The size in bytes of the data, which is the size of its buffer.
    fn byte_size(&self) -> u64;

    /// The data as the bytes that the shader expects.
    fn byte_data(&self) -> &[u8];

    /// Overwrites the data with bytes laid out as [`Variable::byte_data`] lays them out.
    fn read_data(&mut self, slice: &[u8]);

    /// The number of elements along each of up to three dimensions, as a
    /// property of the variable's value.
    spec fn extents(&self) -> [u32; 3];

    /// Reports the extents of the variable.
    fn dimension_sizes(&self) -> (sizes: [u32; 3])
        ensures
            sizes == self.extents(),
    ;

    /// The descriptor of the buffer that backs this variable.
    fn to_buffer_descriptor(&self) -> (descriptor: BufferDescriptor)
        ensures
            descriptor.usage == BufferUsage::variable_storage(),
            !descriptor.mapped_at_creation,
    {
        BufferDescriptor::storage(self.get_name(), self.byte_size())
    }

    /// The workgroup counts that cover this variable, as [`checked_plan`] gives
    /// them for its extents: `None` where no device can dispatch the variable,
    /// else the counts or the first axis that is refused.
    fn get_workgroup(&self) -> (workgroup: Option<Result<[u32; 3], VariableError<u32>>>)
        ensures
            workgroup is Some <==> within_limits(self.extents()),
            workgroup matches Some(planned) ==> planned == plan_spec(self.extents()),
    {
        checked_plan(self.dimension_sizes())
    }
}

/// What the scheduler knows of a variable.
///
/// A handle stands for one variable. Its `key` is the variable's identity: two
/// handles name the same variable exactly when their keys are equal, whatever
/// else they hold. The other fields are the facts that were read from the
/// variable when the handle was made.
#[derive(Debug, PartialEq, Eq)]
pub struct VariableHandle {
    /// The identity of the variable.
    pub key: u64,
    /// The variable's name, for diagnostics.
    pub name: Option<String>,
    /// The size of the variable's data in bytes.
    pub byte_size: u64,
    /// The number of elements along each dimension.
    pub dimensions: [u32; 3],
}

impl Clone for VariableHandle {
    fn clone(&self) -> (copy: Self)
        ensures
            copy == *self,
    {
        let name = match &self.name {
            Some(text) => Some(text.clone()),
            None => None,
        };
        VariableHandle {
            key: self.key,
            name,
            byte_size: self.byte_size,
            dimensions: self.dimensions,
        }
    }
}

impl VariableHandle {
    /// A handle with exactly these facts.
    pub fn from_parts(key: u64, name: Option<&str>, byte_size: u64, dimensions: [u32; 3]) -> (handle:
        Self)
        ensures
            handle.key == key,
            label_text(handle.name) == name_text(name),
            handle.byte_size == byte_size,
            handle.dimensions == dimensions,
    {
        let name = match name {
            Some(text) => Some(text.to_owned()),
            None => None,
        };
        VariableHandle { key, name, byte_size, dimensions }
    }

    /// A handle for `variable` under the identity `key`, holding the name, size
    /// and extents that the variable reports now.
    pub fn new<V: Variable>(key: u64, variable: &V) -> (handle: Self)
        ensures
            handle.key == key,
            handle.dimensions == variable.extents(),
    {
        let name = variable.get_name();
        let byte_size = variable.byte_size();
        let dimensions = variable.dimension_sizes();
        VariableHandle::from_parts(key, name, byte_size, dimensions)
    }

    /// Whether both handles name the same variable.
    pub fn same_variable(&self, other: &VariableHandle) -> (same: bool)
        ensures
            same == (self.key == other.key),
    {
        self.key == other.key
    }

    /// The descriptor that [`VariableHandle::to_buffer_descriptor`] returns:
    /// storage that can be written from the host and copied back, named and
    /// sized as the variable is, not mapped at creation.
    pub open spec fn to_buffer_descriptor_spec(&self) -> BufferDescriptor {
        BufferDescriptor {
            label: self.name,
            size: self.byte_size,
            usage: BufferUsage::variable_storage(),
            mapped_at_creation: false,
        }
    }

    /// The descriptor of the buffer that backs the variable.
    pub fn to_buffer_descriptor(&self) -> (descriptor: BufferDescriptor)
        ensures
            descriptor == self.to_buffer_descriptor_spec(),
    {
        let label = match &self.name {
            Some(text) => Some(text.clone()),
            None => None,
        };
        BufferDescriptor {
            label,
            size: self.byte_size,
            usage: BufferUsage { storage: true, copy_dst: true, copy_src: true, map_read: false },
            mapped_at_creation: false,
        }
    }
}

} // verus!
