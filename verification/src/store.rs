//! The variable store: one record for each distinct variable.
//!
//! Variables are told apart by identity, not by content: two variables that
//! hold the same data are two variables, each with a buffer of its own. A
//! variable that is attached again keeps its record and its buffer, so its
//! bytes are staged once.

use vstd::prelude::*;
use crate::interface::{BindGroupLayoutEntry, BufferDescriptor};
use crate::variable::VariableHandle;

verus! {

/// The store's record of one variable.
#[derive(Debug)]
pub struct StoredVariable {
    /// The variable, as it was when it was first seen.
    pub variable: VariableHandle,
    /// The bind slots the variable has been attached to, oldest first.
    pub binds: Vec<u32>,
    /// The index of the buffer that backs the variable.
    pub buffer_index: usize,
}

/// A [`StoredVariable`] as a mathematical value.
pub struct StoredModel {
    pub variable: VariableHandle,
    pub binds: Seq<u32>,
    pub buffer_index: int,
}

impl View for StoredVariable {
    type V = StoredModel;

    open spec fn view(&self) -> StoredModel {
        StoredModel {
            variable: self.variable,
            binds: self.binds@,
            buffer_index: self.buffer_index as int,
        }
    }
}

impl StoredVariable {
    /// The layout entry for this variable at the bind slot `bind`: a storage
    /// buffer that the shader may write, without dynamic offset, at least as
    /// large as the variable where the variable has a size at all.
    pub fn get_bind_group_layout_entry(&self, bind: u32) -> (entry: BindGroupLayoutEntry)
        ensures
            entry == (BindGroupLayoutEntry {
                binding: bind,
                read_only: false,
                has_dynamic_offset: false,
                min_binding_size: if self.variable.byte_size == 0 {
                    None
                } else {
                    Some(self.variable.byte_size)
                },
            }),
            entry.well_formed(),
    {
        let size = self.variable.byte_size;
        BindGroupLayoutEntry {
            binding: bind,
            read_only: false,
            has_dynamic_offset: false,
            min_binding_size: if size == 0 {
                None
            } else {
                Some(size)
            },
        }
    }

    /// The descriptor of the buffer that backs this variable.
    pub fn to_buffer_descriptor(&self) -> (descriptor: BufferDescriptor)
        ensures
            descriptor == self.variable.to_buffer_descriptor_spec(),
    {
        self.variable.to_buffer_descriptor()
    }
}

/// The records of a store as mathematical values.
pub open spec fn records_view(records: Vec<StoredVariable>) -> Seq<StoredModel> {
    records@.map_values(|record: StoredVariable| record@)
}

/// Some record of `store` is of the variable with identity `key`.
pub open spec fn resident(store: Seq<StoredModel>, key: u64) -> bool {
    exists|i: int| 0 <= i < store.len() && (#[trigger] store[i]).variable.key == key
}

/// The index of a record of the variable with identity `key`.
pub open spec fn index_of(store: Seq<StoredModel>, key: u64) -> int {
    choose|i: int| 0 <= i < store.len() && (#[trigger] store[i]).variable.key == key
}

/// No two records are of the same variable, and each record's buffer has the
/// record's own index.
pub open spec fn store_well_formed(store: Seq<StoredModel>) -> bool {
    &&& forall|i: int, j: int|
        0 <= i < j < store.len() ==> (#[trigger] store[i]).variable.key != (
        #[trigger] store[j]).variable.key
    &&& forall|i: int| 0 <= i < store.len() ==> (#[trigger] store[i]).buffer_index == i
    &&& forall|i: int| 0 <= i < store.len() ==> (#[trigger] store[i]).binds.len() > 0
}

/// The store after `variable` was attached to `slot`.
///
/// A variable that is resident keeps its record, which gains the slot. Any
/// other variable gets a new record at the end, with a new buffer.
pub open spec fn intern_spec(store: Seq<StoredModel>, variable: VariableHandle, slot: u32) -> Seq<
    StoredModel,
> {
    if resident(store, variable.key) {
        let at = index_of(store, variable.key);
        store.update(at, StoredModel { binds: store[at].binds.push(slot), ..store[at] })
    } else {
        store.push(
            StoredModel { variable, binds: seq![slot], buffer_index: store.len() as int },
        )
    }
}

/// Whether [`intern_spec`] makes a record: a new record has a new buffer, and
/// the bytes of its variable have yet to be staged.
pub open spec fn interned_fresh(store: Seq<StoredModel>, variable: VariableHandle) -> bool {
    !resident(store, variable.key)
}

/// The index of the record that [`intern_spec`] finds or makes.
pub open spec fn interned_index(store: Seq<StoredModel>, variable: VariableHandle) -> int {
    if resident(store, variable.key) {
        index_of(store, variable.key)
    } else {
        store.len() as int
    }
}

/// Interning keeps a store well formed, keeps every record where it is, and
/// leaves the variable resident at the index that [`interned_index`] gives.
pub proof fn lemma_intern(store: Seq<StoredModel>, variable: VariableHandle, slot: u32)
    requires
        store_well_formed(store),
    ensures
        store_well_formed(intern_spec(store, variable, slot)),
        intern_spec(store, variable, slot).len() == if resident(store, variable.key) {
            store.len()
        } else {
            store.len() + 1
        },
        forall|i: int|
            0 <= i < store.len() ==> (#[trigger] intern_spec(store, variable, slot)[i]).variable
                == store[i].variable,
        resident(intern_spec(store, variable, slot), variable.key),
        index_of(intern_spec(store, variable, slot), variable.key) == interned_index(
            store,
            variable,
        ),
        0 <= interned_index(store, variable) < intern_spec(store, variable, slot).len(),
        forall|key: u64|
            resident(store, key) ==> resident(intern_spec(store, variable, slot), key) && index_of(
                intern_spec(store, variable, slot),
                key,
            ) == index_of(store, key),
{
    let after = intern_spec(store, variable, slot);
    let at = interned_index(store, variable);
    assert(0 <= at < after.len() && after[at].variable.key == variable.key);
    assert forall|i: int, j: int| 0 <= i < j < after.len() implies (#[trigger] after[i]).variable.key
        != (#[trigger] after[j]).variable.key by {
        if j < store.len() {
            assert(store[i].variable.key != store[j].variable.key);
        } else {
            assert(store[i].variable.key != variable.key);
        }
    }
    assert forall|i: int| 0 <= i < after.len() implies (#[trigger] after[i]).buffer_index == i
        && after[i].binds.len() > 0 by {
        if i < store.len() {
            assert(store[i].buffer_index == i);
        }
    }
    let found = index_of(after, variable.key);
    assert(found == at) by {
        if found < at {
            assert(after[found].variable.key != after[at].variable.key);
        } else if found > at {
            assert(after[at].variable.key != after[found].variable.key);
        }
    }
    assert forall|key: u64| resident(store, key) implies resident(after, key) && index_of(
        after,
        key,
    ) == index_of(store, key) by {
        let i = index_of(store, key);
        assert(after[i].variable.key == key);
        let j = index_of(after, key);
        if j < i {
            assert(after[j].variable.key != after[i].variable.key);
        } else if j > i {
            assert(after[i].variable.key != after[j].variable.key);
        }
    }
}

/// Interning one variable twice with one slot leaves one record of it, and
/// stages its bytes once at most.
///
/// The second interning finds the variable resident, so it makes no record and
/// no buffer, asks for no staging, and returns the index that the first
/// returned. Only the first can have made the record, and it has where the
/// variable was not resident before. The record holds the slot once for each
/// interning.
pub proof fn lemma_intern_twice(
    store: Seq<StoredModel>,
    variable: VariableHandle,
    again: VariableHandle,
    slot: u32,
)
    requires
        store_well_formed(store),
        again.key == variable.key,
    ensures
        ({
            let once = intern_spec(store, variable, slot);
            let twice = intern_spec(once, again, slot);
            let at = interned_index(store, variable);
            &&& interned_fresh(store, variable) == !resident(store, variable.key)
            &&& !interned_fresh(once, again)
            &&& interned_index(once, again) == at
            &&& twice.len() == once.len()
            &&& forall|i: int|
                0 <= i < twice.len() && (#[trigger] twice[i]).variable.key == variable.key ==> i
                    == at
            &&& 0 <= at < twice.len()
            &&& twice[at].variable.key == variable.key
            &&& twice[at].binds == once[at].binds.push(slot)
            &&& once[at].binds == if resident(store, variable.key) {
                store[at].binds.push(slot)
            } else {
                seq![slot]
            }
        }),
{
    let once = intern_spec(store, variable, slot);
    let twice = intern_spec(once, again, slot);
    let at = interned_index(store, variable);
    lemma_intern(store, variable, slot);
    lemma_intern(once, again, slot);
    assert forall|i: int|
        0 <= i < twice.len() && (#[trigger] twice[i]).variable.key == variable.key implies i
        == at by {
        if i < at {
            assert(twice[i].variable.key != twice[at].variable.key);
        } else if i > at {
            assert(twice[at].variable.key != twice[i].variable.key);
        }
    }
}

/// The table of the variables that are resident on the device.
///
/// Each distinct variable has one record, made when the variable is first
/// attached. Records are never removed and never move.
pub struct VariableStore {
    records: Vec<StoredVariable>,
}

impl View for VariableStore {
    type V = Seq<StoredModel>;

    closed spec fn view(&self) -> Seq<StoredModel> {
        records_view(self.records)
    }
}

impl VariableStore {
    /// The invariant of the store: see [`store_well_formed`].
    pub open spec fn well_formed(&self) -> bool {
        store_well_formed(self@)
    }

    /// A store without records.
    pub fn new() -> (store: VariableStore)
        ensures
            store@ == Seq::<StoredModel>::empty(),
            store.well_formed(),
    {
        let store = VariableStore { records: Vec::new() };
        assert(store@ =~= Seq::<StoredModel>::empty());
        store
    }

    /// The number of records, which is the number of buffers.
    pub fn len(&self) -> (count: usize)
        ensures
            count == self@.len(),
    {
        self.records.len()
    }

    /// The record at `index`.
    pub fn get(&self, index: usize) -> (record: Option<&StoredVariable>)
        ensures
            record is Some <==> index < self@.len(),
            record matches Some(found) ==> found@ == self@[index as int],
    {
        if index < self.records.len() {
            Some(&self.records[index])
        } else {
            None
        }
    }

    /// The index of the record of `variable`, if the variable is resident.
    pub fn position(&self, variable: &VariableHandle) -> (found: Option<usize>)
        requires
            self.well_formed(),
        ensures
            found is Some <==> resident(self@, variable.key),
            found matches Some(at) ==> at == index_of(self@, variable.key),
    {
        let mut at: usize = 0;
        while at < self.records.len()
            invariant
                at <= self.records.len(),
                self.well_formed(),
                forall|i: int| 0 <= i < at ==> (#[trigger] self@[i]).variable.key != variable.key,
            decreases self.records.len() - at,
        {
            if self.records[at].variable.same_variable(variable) {
                proof {
                    assert(self@[at as int].variable.key == variable.key);
                    let chosen = index_of(self@, variable.key);
                    if chosen < at {
                        assert(self@[chosen].variable.key != variable.key);
                    } else if chosen > at {
                        assert(self@[at as int].variable.key != self@[chosen].variable.key);
                    }
                }
                return Some(at);
            }
            at = at + 1;
        }
        None
    }

    /// Attaches `variable` to the bind slot `slot`.
    ///
    /// Returns the index of the variable's record, and whether the record is
    /// new: a new record has a new buffer, which has yet to be written.
    pub fn intern(&mut self, variable: VariableHandle, slot: u32) -> (found: (usize, bool))
        requires
            old(self).well_formed(),
        ensures
            final(self).well_formed(),
            final(self)@ == intern_spec(old(self)@, variable, slot),
            found.0 == interned_index(old(self)@, variable),
            found.1 == interned_fresh(old(self)@, variable),
    {
        proof {
            lemma_intern(self@, variable, slot);
        }
        match self.position(&variable) {
            Some(at) => {
                self.records[at].binds.push(slot);
                assert(self@ =~= intern_spec(old(self)@, variable, slot));
                (at, false)
            },
            None => {
                let at = self.records.len();
                let mut binds: Vec<u32> = Vec::new();
                binds.push(slot);
                self.records.push(StoredVariable { variable, binds, buffer_index: at });
                assert(self@ =~= intern_spec(old(self)@, variable, slot));
                (at, true)
            },
        }
    }
}

/// In a well-formed store the index of a resident variable is a valid index,
/// and the record there is the variable's.
pub proof fn lemma_index_of(store: Seq<StoredModel>, key: u64)
    requires
        resident(store, key),
    ensures
        0 <= index_of(store, key) < store.len(),
        store[index_of(store, key)].variable.key == key,
{
}

} // verus!
