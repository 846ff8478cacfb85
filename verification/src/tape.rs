//! The order of the commands that the device is handed.
//!
//! A tape is a sequence of commands. What a scheduler hands out between two
//! drains is one tape, and this module states what holds of each: bytes are
//! staged before they are bound, a bind group comes before its dispatch, and
//! nothing is staged twice.

use vstd::prelude::*;
use crate::cache::ModuleModel;
use crate::interface::{BindEntry, CommandModel};

verus! {

/// `tape` stages the bytes of the variable with the store index `variable`
/// somewhere before the place `before`.
pub open spec fn staged_before(tape: Seq<CommandModel>, variable: usize, before: int) -> bool {
    exists|j: int|
        0 <= j < before && j < tape.len() && #[trigger] tape[j] == (CommandModel::BufferWrite {
            variable,
            buffer: variable,
        })
}

/// The order that every tape keeps.
///
/// - A dispatch comes directly after a bind group, and a bind group directly
///   before a dispatch.
/// - A variable that a bind group attaches has had its bytes staged: earlier on
///   this tape, or on an earlier one, which is so for the `staged` oldest
///   variables.
pub open spec fn ordered(tape: Seq<CommandModel>, staged: int) -> bool {
    &&& forall|i: int|
        0 <= i < tape.len() && (#[trigger] tape[i]) is Execute ==> i > 0 && tape[i - 1] is Bind
    &&& forall|i: int|
        0 <= i < tape.len() && (#[trigger] tape[i]) is Bind ==> i + 1 < tape.len() && tape[i
            + 1] is Execute
    &&& forall|i: int, k: int|
        0 <= i < tape.len() && (#[trigger] tape[i]) is Bind && 0 <= k < tape[i]->entries.len()
            ==> (#[trigger] tape[i]->entries[k]).variable < staged || staged_before(
            tape,
            tape[i]->entries[k].variable,
            i,
        )
}

/// The bytes of each variable are staged once.
///
/// The tape stages the variables with a store index from `staged` up to
/// `variables`, each once and each into its own buffer, and no others.
pub open spec fn staged_once(tape: Seq<CommandModel>, staged: int, variables: int) -> bool {
    &&& forall|j: int|
        0 <= j < tape.len() && (#[trigger] tape[j]) is BufferWrite ==> staged
            <= tape[j]->variable < variables && tape[j]->buffer == tape[j]->variable
    &&& forall|i: int, j: int|
        0 <= i < j < tape.len() && (#[trigger] tape[i]) is BufferWrite && (
        #[trigger] tape[j]) is BufferWrite ==> tape[i]->variable != tape[j]->variable
    &&& forall|variable: usize|
        staged <= variable < variables ==> #[trigger] staged_before(
            tape,
            variable,
            tape.len() as int,
        )
}

/// Every index on the tape leads somewhere: a bind group names records of the
/// store, a dispatch names an entry point of a module of the cache.
pub open spec fn resolved(tape: Seq<CommandModel>, variables: int, modules: Seq<ModuleModel>) -> bool {
    &&& forall|i: int, k: int|
        0 <= i < tape.len() && (#[trigger] tape[i]) is Bind && 0 <= k < tape[i]->entries.len()
            ==> (#[trigger] tape[i]->entries[k]).variable < variables
    &&& forall|i: int|
        0 <= i < tape.len() && (#[trigger] tape[i]) is Execute ==> tape[i]->module
            < modules.len() && tape[i]->entry_point < modules[tape[i]->module as int].entry_point.len()
}

/// The label that the dispatch of a function carries.
pub open spec fn function_label() -> Seq<char> {
    "function"@
}

/// The commands that stage the variables with the store indices from `first`
/// up to `last`, oldest first.
pub open spec fn staging(first: int, last: int) -> Seq<CommandModel> {
    Seq::new(
        (last - first) as nat,
        |k: int|
            CommandModel::BufferWrite { variable: (first + k) as usize, buffer: (first + k) as usize },
    )
}

/// The commands of one function: the staging of the variables that were not
/// resident, the bind group, the dispatch.
pub open spec fn function_commands(
    first: int,
    last: int,
    entries: Seq<BindEntry>,
    module: int,
    entry_point: int,
    workgroup: [u32; 3],
) -> Seq<CommandModel> {
    staging(first, last) + seq![
        CommandModel::Bind { entries },
        CommandModel::Execute {
            module: module as usize,
            entry_point: entry_point as usize,
            workgroup,
            label: function_label(),
        },
    ]
}

/// What is staged before one place is staged before every later place.
pub proof fn lemma_staged_later(tape: Seq<CommandModel>, variable: usize, at: int, later: int)
    requires
        staged_before(tape, variable, at),
        at <= later,
    ensures
        staged_before(tape, variable, later),
{
    let j = choose|j: int|
        0 <= j < at && j < tape.len() && #[trigger] tape[j] == (CommandModel::BufferWrite {
            variable,
            buffer: variable,
        });
    assert(0 <= j < later && tape[j] == CommandModel::BufferWrite { variable, buffer: variable });
}

/// The commands of one function may follow any tape that is in order: the
/// longer tape is in order again, stages each variable once, and leads
/// somewhere with every index.
pub proof fn lemma_append_function(
    before: Seq<CommandModel>,
    staged: int,
    first: int,
    last: int,
    entries: Seq<BindEntry>,
    module: int,
    entry_point: int,
    workgroup: [u32; 3],
    modules_before: Seq<ModuleModel>,
    modules: Seq<ModuleModel>,
)
    requires
        ordered(before, staged),
        staged_once(before, staged, first),
        resolved(before, first, modules_before),
        0 <= staged <= first <= last <= usize::MAX,
        forall|k: int| 0 <= k < entries.len() ==> (#[trigger] entries[k]).variable < last,
        modules.len() >= modules_before.len(),
        forall|m: int|
            0 <= m < modules_before.len() ==> (#[trigger] modules_before[m]).entry_point.len()
                <= modules[m].entry_point.len(),
        0 <= module < modules.len(),
        0 <= entry_point < modules[module].entry_point.len(),
        module <= usize::MAX,
        entry_point <= usize::MAX,
    ensures
        ordered(
            before + function_commands(first, last, entries, module, entry_point, workgroup),
            staged,
        ),
        staged_once(
            before + function_commands(first, last, entries, module, entry_point, workgroup),
            staged,
            last,
        ),
        resolved(
            before + function_commands(first, last, entries, module, entry_point, workgroup),
            last,
            modules,
        ),
{
    let added = function_commands(first, last, entries, module, entry_point, workgroup);
    let after = before + added;
    let count = last - first;
    let bind_at = before.len() + count;
    assert(added.len() == count + 2);
    assert(after.len() == before.len() + count + 2);
    assert forall|i: int| 0 <= i < before.len() implies #[trigger] after[i] == before[i] by {}
    assert forall|k: int| 0 <= k < count implies #[trigger] after[before.len() + k] == (
    CommandModel::BufferWrite { variable: (first + k) as usize, buffer: (first + k) as usize }) by {
        assert(after[before.len() + k] == added[k]);
    }
    assert(after[bind_at] == CommandModel::Bind { entries }) by {
        assert(after[bind_at] == added[count]);
    }
    assert(after[bind_at + 1] is Execute && after[bind_at + 1]->module == module && after[bind_at
        + 1]->entry_point == entry_point) by {
        assert(after[bind_at + 1] == added[count + 1]);
    }
    assert forall|variable: usize, at: int|
        staged_before(before, variable, at) implies #[trigger] staged_before(after, variable, at) by {
        let j = choose|j: int|
            0 <= j < at && j < before.len() && #[trigger] before[j] == (CommandModel::BufferWrite {
                variable,
                buffer: variable,
            });
        assert(after[j] == before[j]);
    }
    assert forall|variable: usize| first <= variable < last implies #[trigger] staged_before(
        after,
        variable,
        bind_at,
    ) by {
        let j = before.len() + (variable - first);
        assert(after[j] == CommandModel::BufferWrite { variable, buffer: variable });
    }
    // order
    assert forall|i: int| 0 <= i < after.len() && (#[trigger] after[i]) is Execute implies i > 0
        && after[i - 1] is Bind by {
        if i < before.len() {
            assert(before[i] is Execute);
            assert(after[i - 1] == before[i - 1]);
        } else if i < bind_at {
            assert(after[before.len() + (i - before.len())] is BufferWrite);
        }
    }
    assert forall|i: int| 0 <= i < after.len() && (#[trigger] after[i]) is Bind implies i + 1
        < after.len() && after[i + 1] is Execute by {
        if i < before.len() {
            assert(before[i] is Bind);
            assert(after[i + 1] == before[i + 1]);
        } else if i < bind_at {
            assert(after[before.len() + (i - before.len())] is BufferWrite);
        }
    }
    assert forall|i: int, k: int|
        0 <= i < after.len() && (#[trigger] after[i]) is Bind && 0 <= k
            < after[i]->entries.len() implies (#[trigger] after[i]->entries[k]).variable < staged
        || staged_before(after, after[i]->entries[k].variable, i) by {
        let variable = after[i]->entries[k].variable;
        if i < before.len() {
            assert(before[i] is Bind);
            assert(before[i]->entries[k].variable < staged || staged_before(before, variable, i));
        } else if i < bind_at {
            assert(after[before.len() + (i - before.len())] is BufferWrite);
        } else {
            assert(i == bind_at);
            assert(entries[k].variable < last);
            if variable < staged {
            } else if variable < first {
                assert(staged_before(before, variable, before.len() as int));
                assert(staged_before(after, variable, before.len() as int));
                lemma_staged_later(after, variable, before.len() as int, i);
            } else {
                assert(staged_before(after, variable, bind_at));
            }
        }
    }

    // staged once
    assert forall|j: int| 0 <= j < after.len() && (#[trigger] after[j]) is BufferWrite implies staged
        <= after[j]->variable < last && after[j]->buffer == after[j]->variable by {
        if j < before.len() {
            assert(before[j] is BufferWrite);
        } else if j < bind_at {
            assert(after[before.len() + (j - before.len())] is BufferWrite);
        }
    }
    assert forall|i: int, j: int|
        0 <= i < j < after.len() && (#[trigger] after[i]) is BufferWrite && (
        #[trigger] after[j]) is BufferWrite implies after[i]->variable != after[j]->variable by {
        if j < before.len() {
            assert(before[i] is BufferWrite && before[j] is BufferWrite);
        } else if j < bind_at {
            assert(after[before.len() + (j - before.len())] is BufferWrite);
            if i < before.len() {
                assert(before[i] is BufferWrite);
            } else {
                assert(after[before.len() + (i - before.len())] is BufferWrite);
            }
        }
    }
    assert forall|variable: usize| staged <= variable < last implies #[trigger] staged_before(
        after,
        variable,
        after.len() as int,
    ) by {
        if variable < first {
            assert(staged_before(before, variable, before.len() as int));
            assert(staged_before(after, variable, before.len() as int));
            lemma_staged_later(after, variable, before.len() as int, after.len() as int);
        } else {
            assert(staged_before(after, variable, bind_at));
            lemma_staged_later(after, variable, bind_at, after.len() as int);
        }
    }

    // resolved
    assert forall|i: int, k: int|
        0 <= i < after.len() && (#[trigger] after[i]) is Bind && 0 <= k
            < after[i]->entries.len() implies (#[trigger] after[i]->entries[k]).variable < last by {
        if i < before.len() {
            assert(before[i] is Bind);
            assert(before[i]->entries[k].variable < first);
        } else if i < bind_at {
            assert(after[before.len() + (i - before.len())] is BufferWrite);
        } else {
            assert(entries[k].variable < last);
        }
    }
    assert forall|i: int| 0 <= i < after.len() && (#[trigger] after[i]) is Execute implies after[i]->module
        < modules.len() && after[i]->entry_point
        < modules[after[i]->module as int].entry_point.len() by {
        if i < before.len() {
            assert(before[i] is Execute);
            assert(modules_before[before[i]->module as int].entry_point.len()
                <= modules[before[i]->module as int].entry_point.len());
        } else if i < bind_at {
            assert(after[before.len() + (i - before.len())] is BufferWrite);
        }
    }
}

} // verus!
