//! The module cache: one record for each distinct shader source.
//!
//! Shaders are told apart by their source text: two shaders with the same text
//! are one module, since compiling the same source twice gains nothing.

use vstd::prelude::*;
use crate::coding::Shader;

verus! {

/// A shader with the entry points that are registered against it.
#[derive(Debug)]
pub struct Module<'a> {
    /// The shader.
    pub shader: &'a Shader,
    /// The names of the registered entry points, oldest first.
    pub entry_point: Vec<String>,
}

/// A [`Module`] as a mathematical value.
pub struct ModuleModel {
    pub shader: Seq<char>,
    pub entry_point: Seq<Seq<char>>,
}

impl<'a> View for Module<'a> {
    type V = ModuleModel;

    open spec fn view(&self) -> ModuleModel {
        ModuleModel {
            shader: self.shader@,
            entry_point: self.entry_point@.map_values(|name: String| name@),
        }
    }
}

/// `entry` is among `names`.
pub open spec fn entry_known(names: Seq<Seq<char>>, entry: Seq<char>) -> bool {
    exists|i: int| 0 <= i < names.len() && #[trigger] names[i] == entry
}

/// `at` is the first place of `entry` in `names`.
pub open spec fn first_entry(names: Seq<Seq<char>>, entry: Seq<char>, at: int) -> bool {
    &&& 0 <= at < names.len()
    &&& names[at] == entry
    &&& forall|j: int| 0 <= j < at ==> #[trigger] names[j] != entry
}

/// The first place of `entry` in `names`.
pub open spec fn entry_index(names: Seq<Seq<char>>, entry: Seq<char>) -> int {
    choose|at: int| first_entry(names, entry, at)
}

/// An entry that is known has exactly one first place.
pub proof fn lemma_first_entry(names: Seq<Seq<char>>, entry: Seq<char>, at: int)
    requires
        first_entry(names, entry, at),
    ensures
        entry_known(names, entry),
        entry_index(names, entry) == at,
{
    let chosen = entry_index(names, entry);
    assert(first_entry(names, entry, chosen));
    if chosen < at {
        assert(names[chosen] != entry);
    } else if chosen > at {
        assert(names[at] != entry);
    }
}

impl<'a> Module<'a> {
    /// A module for `shader` with no entry point yet.
    pub fn new(shader: &'a Shader) -> (module: Module<'a>)
        ensures
            module@ == (ModuleModel { shader: shader@, entry_point: Seq::empty() }),
    {
        let module = Module { shader, entry_point: Vec::new() };
        assert(module@.entry_point =~= Seq::empty());
        module
    }

    /// Registers the entry point `e_p` and returns its index.
    pub fn add_entry_point(&mut self, e_p: &str) -> (index: usize)
        ensures
            final(self)@ == (ModuleModel {
                entry_point: old(self)@.entry_point.push(e_p@),
                ..old(self)@
            }),
            index == old(self)@.entry_point.len(),
    {
        self.entry_point.push(e_p.to_owned());
        assert(self@.entry_point =~= old(self)@.entry_point.push(e_p@));
        self.entry_point.len() - 1
    }

    /// The index of the first entry point named `e_p`.
    pub fn find_entry_point(&self, e_p: &str) -> (found: Option<usize>)
        ensures
            found is Some <==> entry_known(self@.entry_point, e_p@),
            found matches Some(at) ==> first_entry(self@.entry_point, e_p@, at as int),
    {
        let wanted = e_p.to_owned();
        let mut at: usize = 0;
        while at < self.entry_point.len()
            invariant
                at <= self.entry_point.len(),
                wanted@ == e_p@,
                forall|j: int| 0 <= j < at ==> #[trigger] self@.entry_point[j] != e_p@,
            decreases self.entry_point.len() - at,
        {
            if self.entry_point[at] == wanted {
                assert(self@.entry_point[at as int] == e_p@);
                return Some(at);
            }
            at = at + 1;
        }
        None
    }
}

/// The modules of a cache as mathematical values.
pub open spec fn modules_view(modules: Vec<Module<'_>>) -> Seq<ModuleModel> {
    modules@.map_values(|module: Module<'_>| module@)
}

/// Some module of `modules` has the source text `source`.
pub open spec fn module_known(modules: Seq<ModuleModel>, source: Seq<char>) -> bool {
    exists|i: int| 0 <= i < modules.len() && (#[trigger] modules[i]).shader == source
}

/// The index of a module with the source text `source`.
pub open spec fn module_index(modules: Seq<ModuleModel>, source: Seq<char>) -> int {
    choose|i: int| 0 <= i < modules.len() && (#[trigger] modules[i]).shader == source
}

/// No two modules have the same source text, and no module holds an entry
/// point twice or none at all.
pub open spec fn cache_well_formed(modules: Seq<ModuleModel>) -> bool {
    &&& forall|i: int, j: int|
        0 <= i < j < modules.len() ==> (#[trigger] modules[i]).shader != (
        #[trigger] modules[j]).shader
    &&& forall|m: int, i: int, j: int|
        0 <= m < modules.len() && 0 <= i < j < modules[m].entry_point.len() ==> (
        #[trigger] modules[m].entry_point[i]) != (#[trigger] modules[m].entry_point[j])
    &&& forall|m: int| 0 <= m < modules.len() ==> (#[trigger] modules[m]).entry_point.len() > 0
}

/// The cache after the entry point `entry` of the shader with the source
/// `source` was registered.
///
/// A new source gets a new module at the end, with the one entry point. A
/// known source keeps its module, which gains the entry point unless it holds
/// it already.
pub open spec fn register_spec(modules: Seq<ModuleModel>, source: Seq<char>, entry: Seq<char>) -> Seq<
    ModuleModel,
> {
    if module_known(modules, source) {
        let at = module_index(modules, source);
        if entry_known(modules[at].entry_point, entry) {
            modules
        } else {
            modules.update(
                at,
                ModuleModel { entry_point: modules[at].entry_point.push(entry), ..modules[at] },
            )
        }
    } else {
        modules.push(ModuleModel { shader: source, entry_point: seq![entry] })
    }
}

/// The indices of the module and of the entry point that [`register_spec`]
/// finds or makes.
pub open spec fn registered(modules: Seq<ModuleModel>, source: Seq<char>, entry: Seq<char>) -> (
    int,
    int,
) {
    if module_known(modules, source) {
        let at = module_index(modules, source);
        if entry_known(modules[at].entry_point, entry) {
            (at, entry_index(modules[at].entry_point, entry))
        } else {
            (at, modules[at].entry_point.len() as int)
        }
    } else {
        (modules.len() as int, 0)
    }
}

/// In a well-formed cache a source has one module only.
pub proof fn lemma_module_index(modules: Seq<ModuleModel>, source: Seq<char>, at: int)
    requires
        cache_well_formed(modules),
        0 <= at < modules.len(),
        modules[at].shader == source,
    ensures
        module_known(modules, source),
        module_index(modules, source) == at,
{
    let chosen = module_index(modules, source);
    if chosen < at {
        assert(modules[chosen].shader != modules[at].shader);
    } else if chosen > at {
        assert(modules[at].shader != modules[chosen].shader);
    }
}

/// Registering keeps a cache well formed and keeps every module and entry
/// point where it is, and the indices that [`registered`] gives lead to the
/// source and the entry point that were registered.
pub proof fn lemma_register(modules: Seq<ModuleModel>, source: Seq<char>, entry: Seq<char>)
    requires
        cache_well_formed(modules),
    ensures
        cache_well_formed(register_spec(modules, source, entry)),
        register_spec(modules, source, entry).len() >= modules.len(),
        forall|m: int|
            0 <= m < modules.len() ==> (#[trigger] register_spec(modules, source, entry)[m]).shader
                == modules[m].shader && modules[m].entry_point.is_prefix_of(
                register_spec(modules, source, entry)[m].entry_point,
            ),
        ({
            let after = register_spec(modules, source, entry);
            let (m, e) = registered(modules, source, entry);
            &&& 0 <= m < after.len()
            &&& 0 <= e < after[m].entry_point.len()
            &&& after[m].shader == source
            &&& after[m].entry_point[e] == entry
        }),
{
    let after = register_spec(modules, source, entry);
    let (m, e) = registered(modules, source, entry);
    if module_known(modules, source) {
        let at = module_index(modules, source);
        if entry_known(modules[at].entry_point, entry) {
            let found = choose|i: int|
                0 <= i < modules[at].entry_point.len() && #[trigger] modules[at].entry_point[i]
                    == entry;
            lemma_first_exists(modules[at].entry_point, entry, found);
        } else {
            assert forall|k: int, i: int, j: int|
                0 <= k < after.len() && 0 <= i < j < after[k].entry_point.len() implies (
            #[trigger] after[k].entry_point[i]) != (#[trigger] after[k].entry_point[j]) by {
                if k == at {
                    if j < modules[at].entry_point.len() {
                        assert(modules[k].entry_point[i] != modules[k].entry_point[j]);
                    } else {
                        assert(modules[at].entry_point[i] != entry);
                    }
                } else {
                    assert(modules[k].entry_point[i] != modules[k].entry_point[j]);
                }
            }
            assert forall|i: int, j: int| 0 <= i < j < after.len() implies (
            #[trigger] after[i]).shader != (#[trigger] after[j]).shader by {
                assert(modules[i].shader != modules[j].shader);
            }
            assert forall|k: int| 0 <= k < after.len() implies (#[trigger] after[k]).entry_point.len()
                > 0 by {
                assert(modules[k].entry_point.len() > 0);
            }
        }
    } else {
        assert forall|i: int, j: int| 0 <= i < j < after.len() implies (#[trigger] after[i]).shader
            != (#[trigger] after[j]).shader by {
            if j < modules.len() {
                assert(modules[i].shader != modules[j].shader);
            } else {
                assert(modules[i].shader != source);
            }
        }
        assert forall|k: int, i: int, j: int|
            0 <= k < after.len() && 0 <= i < j < after[k].entry_point.len() implies (
        #[trigger] after[k].entry_point[i]) != (#[trigger] after[k].entry_point[j]) by {
            if k < modules.len() {
                assert(modules[k].entry_point[i] != modules[k].entry_point[j]);
            }
        }
        assert forall|k: int| 0 <= k < after.len() implies (#[trigger] after[k]).entry_point.len()
            > 0 by {
            if k < modules.len() {
                assert(modules[k].entry_point.len() > 0);
            }
        }
    }
}

/// An entry that occurs somewhere has a first place.
pub proof fn lemma_first_exists(names: Seq<Seq<char>>, entry: Seq<char>, at: int)
    requires
        0 <= at < names.len(),
        names[at] == entry,
    ensures
        first_entry(names, entry, entry_index(names, entry)),
    decreases at,
{
    if exists|j: int| 0 <= j < at && #[trigger] names[j] == entry {
        let j = choose|j: int| 0 <= j < at && #[trigger] names[j] == entry;
        lemma_first_exists(names, entry, j);
    } else {
        assert(first_entry(names, entry, at));
    }
}

/// The table of the shaders that are known, each with its entry points.
///
/// Shaders are told apart by their source text. Modules and entry points are
/// never removed and never move, so their indices stay valid.
pub struct ModuleCache<'a> {
    modules: Vec<Module<'a>>,
}

impl<'a> View for ModuleCache<'a> {
    type V = Seq<ModuleModel>;

    closed spec fn view(&self) -> Seq<ModuleModel> {
        modules_view(self.modules)
    }
}

impl<'a> ModuleCache<'a> {
    /// The invariant of the cache: see [`cache_well_formed`].
    pub open spec fn well_formed(&self) -> bool {
        cache_well_formed(self@)
    }

    /// A cache without modules.
    pub fn new() -> (cache: ModuleCache<'a>)
        ensures
            cache@ == Seq::<ModuleModel>::empty(),
            cache.well_formed(),
    {
        let cache = ModuleCache { modules: Vec::new() };
        assert(cache@ =~= Seq::<ModuleModel>::empty());
        cache
    }

    /// The number of modules.
    pub fn len(&self) -> (count: usize)
        ensures
            count == self@.len(),
    {
        self.modules.len()
    }

    /// The module at `index`.
    pub fn get(&self, index: usize) -> (module: Option<&Module<'a>>)
        ensures
            module is Some <==> index < self@.len(),
            module matches Some(found) ==> found@ == self@[index as int],
    {
        if index < self.modules.len() {
            Some(&self.modules[index])
        } else {
            None
        }
    }

    /// The index of the module with the source text of `shader`.
    pub fn position(&self, shader: &Shader) -> (found: Option<usize>)
        requires
            self.well_formed(),
        ensures
            found is Some <==> module_known(self@, shader@),
            found matches Some(at) ==> at == module_index(self@, shader@),
    {
        let mut at: usize = 0;
        while at < self.modules.len()
            invariant
                at <= self.modules.len(),
                self.well_formed(),
                forall|i: int| 0 <= i < at ==> (#[trigger] self@[i]).shader != shader@,
            decreases self.modules.len() - at,
        {
            if self.modules[at].shader.same_source(shader) {
                proof {
                    lemma_module_index(self@, shader@, at as int);
                }
                return Some(at);
            }
            at = at + 1;
        }
        None
    }

    /// Registers the entry point `entry_point` of `shader`.
    ///
    /// Returns the index of the shader's module and the index of the entry
    /// point inside it.
    pub fn register(&mut self, shader: &'a Shader, entry_point: &str) -> (found: (usize, usize))
        requires
            old(self).well_formed(),
        ensures
            final(self).well_formed(),
            final(self)@ == register_spec(old(self)@, shader@, entry_point@),
            (found.0 as int, found.1 as int) == registered(old(self)@, shader@, entry_point@),
    {
        proof {
            lemma_register(self@, shader@, entry_point@);
        }
        match self.position(shader) {
            Some(at) => {
                match self.modules[at].find_entry_point(entry_point) {
                    Some(index) => {
                        proof {
                            lemma_first_entry(
                                self@[at as int].entry_point,
                                entry_point@,
                                index as int,
                            );
                        }
                        (at, index)
                    },
                    None => {
                        let index = self.modules[at].add_entry_point(entry_point);
                        assert(self@ =~= register_spec(old(self)@, shader@, entry_point@));
                        (at, index)
                    },
                }
            },
            None => {
                let at = self.modules.len();
                let mut module = Module::new(shader);
                module.add_entry_point(entry_point);
                assert(module@.entry_point =~= seq![entry_point@]);
                self.modules.push(module);
                assert(self@ =~= register_spec(old(self)@, shader@, entry_point@));
                (at, 0)
            },
        }
    }
}

} // verus!
