//! The module registry and dependency-graph builder.
//!
//! The registry is the one piece of shared mutable state: a concurrent map
//! from mod name to module, held behind trusted operations over a lock-free
//! concurrent hash map. Dependency links are lookups by name into the
//! registry — the registry slot, not an owning pointer, is the long-lived
//! identity of a module — and a dependency that is not yet registered is
//! satisfied by synthesizing and registering a placeholder module, so a
//! later, fuller build of that mod upgrades the slot in place.

use vstd::prelude::*;
use dashmap::DashMap;
use crate::component::Component;
use crate::component::FileEntry;
use crate::component::SpecComponent;
use crate::component::scan_components;
use crate::component::components_from_files;
use crate::value::SpecKey;
use crate::value::SpecValue;
use crate::meta::Meta;
use crate::meta::SpecMeta;

verus! {


#[verifier::external_type_specification]
#[verifier::external_body]
#[verifier::reject_recursive_types(K)]
#[verifier::reject_recursive_types(V)]
#[verifier::reject_recursive_types(S)]
pub struct ExDashMap<K, V, S>(DashMap<K, V, S>);

/// Specification-level mirror of a dependency link.
pub ghost struct SpecDependency {
    pub name: Seq<char>,
    pub was_present: bool,
}

/// A dependency link of a module: the name it is resolved by in the
/// registry, and whether the target was already registered when this link
/// was made (when not, a placeholder was synthesized for it).
#[derive(Debug, Clone, PartialEq)]
pub struct Dependency {
    pub name: String,
    pub was_present: bool,
}

impl View for Dependency {
    type V = SpecDependency;

    open spec fn view(&self) -> SpecDependency {
        SpecDependency { name: self.name@, was_present: self.was_present }
    }
}

impl DeepView for Dependency {
    type V = SpecDependency;

    open spec fn deep_view(&self) -> SpecDependency {
        self.view()
    }
}

impl Dependency {
    /// A link with the given name and presence flag.
    pub fn new(name: String, was_present: bool) -> (d: Dependency)
        ensures
            d.name == name,
            d.was_present == was_present,
    {
        Dependency { name, was_present }
    }
}

/// Specification-level mirror of a module.
pub ghost struct SpecModule {
    pub meta: SpecMeta,
    pub components: Seq<SpecComponent>,
    pub dependencies: Seq<SpecDependency>,
    pub is_valid: bool,
}

/// A mod as registered: its metadata, its hashed components, its resolved
/// dependency links, and whether its payload directory could be scanned.
#[derive(Debug, Clone, PartialEq)]
pub struct Module {
    pub meta: Meta,
    pub components: Vec<Component>,
    pub dependencies: Vec<Dependency>,
    pub is_valid: bool,
}

impl View for Module {
    type V = SpecModule;

    open spec fn view(&self) -> SpecModule {
        SpecModule {
            meta: self.meta@,
            components: self.components.deep_view(),
            dependencies: self.dependencies.deep_view(),
            is_valid: self.is_valid,
        }
    }
}

impl Module {
    /// A module with the given parts.
    pub fn new(
        meta: Meta,
        components: Vec<Component>,
        dependencies: Vec<Dependency>,
        is_valid: bool,
    ) -> (m: Module)
        ensures
            m.meta == meta,
            m.components == components,
            m.dependencies == dependencies,
            m.is_valid == is_valid,
    {
        Module { meta, components, dependencies, is_valid }
    }

    /// A placeholder registered for a dependency whose own descriptor has
    /// not been built yet: only the name is populated, and the module is
    /// not valid.
    pub fn placeholder(name: String) -> (m: Module)
        ensures
            m@ == spec_placeholder(name@),
    {
        let m = Module {
            meta: Meta {
                name,
                version: None,
                local_path: String::new(),
                dependencies: Vec::new(),
                tags: Vec::new(),
                remote_file_id: None,
            },
            components: Vec::new(),
            dependencies: Vec::new(),
            is_valid: false,
        };
        proof {
            assert(m@.meta.dependencies =~= spec_placeholder(name@).meta.dependencies);
            assert(m@.meta.tags =~= spec_placeholder(name@).meta.tags);
            assert(m@.components =~= spec_placeholder(name@).components);
            assert(m@.dependencies =~= spec_placeholder(name@).dependencies);
            assert(m@ == spec_placeholder(name@));
        }
        m
    }
}

/// The mirror of a placeholder module under the given name.
pub open spec fn spec_placeholder(name: Seq<char>) -> SpecModule {
    SpecModule {
        meta: SpecMeta {
            name,
            version: None,
            local_path: Seq::empty(),
            dependencies: Seq::empty(),
            tags: Seq::empty(),
            remote_file_id: None,
        },
        components: Seq::empty(),
        dependencies: Seq::empty(),
        is_valid: false,
    }
}

/// The registry and graph builder handed to every build call: the shared
/// concurrent store of modules, keyed by mod name. Lookups and updates are
/// individually atomic; the check-then-insert used for dependency
/// resolution is one atomic operation of the underlying map.
pub struct ModuleManager {
    map: DashMap<String, Module>,
}

/// What the concurrent map holds: each name bound to its module.
pub uninterp spec fn registry_entries(m: DashMap<String, Module>) -> Map<Seq<char>, SpecModule>;

/// The empty registry contents.
pub open spec fn empty_registry() -> Map<Seq<char>, SpecModule> {
    Map::empty()
}

/// Relies on `dashmap::DashMap::new`: the new map is empty.
#[verifier::external_body]
fn registry_new() -> (res: DashMap<String, Module>)
    ensures
        registry_entries(res) == empty_registry(),
{
    DashMap::new()
}

/// Relies on `dashmap::DashMap::insert`: binds the module under the name,
/// replacing any previous binding. The registry's invariant — every module
/// sits under its own name — is kept by demanding it of the caller.
#[verifier::external_body]
fn registry_insert(r: &mut DashMap<String, Module>, name: String, m: Module)
    requires
        name@ == m.meta.name@,
    ensures
        registry_entries(*final(r)) == registry_entries(*old(r)).insert(name@, m@),
{
    r.insert(name, m);
}

/// Relies on `dashmap::DashMap::get`: a copy of the module bound to the
/// name, if any.
#[verifier::external_body]
fn registry_get(r: &DashMap<String, Module>, name: &str) -> (res: Option<Module>)
    ensures
        match res {
            Some(m) => registry_entries(*r).contains_key(name@) && m@ == registry_entries(
                *r,
            )[name@],
            None => !registry_entries(*r).contains_key(name@),
        },
{
    match r.get(name) {
        Some(guard) => Some(guard.value().clone()),
        None => None,
    }
}

/// Relies on `dashmap::DashMap::entry`: one atomic check-then-insert. When
/// the name is bound the binding is kept and copied out; when it is not,
/// the candidate is bound and copied out. The flag tells which happened.
/// The registry's invariant — every module sits under its own name — is
/// kept by demanding it of the caller.
#[verifier::external_body]
fn registry_get_or_insert(r: &mut DashMap<String, Module>, name: String, candidate: Module) -> (res: (
    Module,
    bool,
))
    requires
        candidate.meta.name@ == name@,
    ensures
        registry_entries(*final(r)) == registry_entries(*old(r)).insert(name@, res.0@),
        registry_entries(*old(r)).contains_key(name@) ==> res.1 && res.0@ == registry_entries(
            *old(r),
        )[name@],
        !registry_entries(*old(r)).contains_key(name@) ==> !res.1 && res.0 == candidate,
{
    match r.entry(name) {
        dashmap::Entry::Occupied(e) => (e.get().clone(), true),
        dashmap::Entry::Vacant(e) => {
            let out = candidate.clone();
            e.insert(candidate);
            (out, false)
        },
    }
}

/// Relies on `dashmap::DashMap::len`: the number of bound names.
#[verifier::external_body]
fn registry_len(r: &DashMap<String, Module>) -> (n: usize)
    ensures
        n == registry_entries(*r).dom().len(),
{
    r.len()
}

/// Relies on `dashmap::DashMap::iter`: a copy of every module, each bound
/// to its own name, names distinct; the order is unspecified.
#[verifier::external_body]
fn registry_values(r: &DashMap<String, Module>) -> (res: Vec<Module>)
    ensures
        res@.len() == registry_entries(*r).dom().len(),
        forall|i: int|
            0 <= i < res@.len() ==> registry_entries(*r).contains_pair(
                #[trigger] res@[i].meta.name@,
                res@[i]@,
            ),
        forall|i: int, j: int|
            0 <= i < j < res@.len() ==> res@[i].meta.name@ != res@[j].meta.name@,
{
    r.iter().map(|e| e.value().clone()).collect()
}

/// Relies on `dashmap::DashMap::insert`: binds the module under its own
/// name, replacing any previous binding, and hands the same module back.
#[verifier::external_body]
fn registry_register(r: &mut DashMap<String, Module>, m: Module) -> (out: Module)
    ensures
        out == m,
        registry_entries(*final(r)) == registry_entries(*old(r)).insert(m.meta.name@, m@),
{
    let out = m.clone();
    r.insert(out.meta.name.clone(), m);
    out
}

/// Why a single build failed. A failed build never poisons the registry.
#[derive(Debug, Clone, Copy, PartialEq, Eq, Structural)]
pub enum BuildError {
    /// The descriptor text has no full parse.
    Parse(crate::parser::ParseError),
    /// The parsed tree has no valid metadata.
    Extract(crate::meta::ExtractError),
}

/// Parses a descriptor text and extracts its metadata; `descriptor_path`
/// stands in for a missing `path` key.
pub fn meta_from_content(content: &str, descriptor_path: &str) -> (r: Result<Meta, BuildError>)
    requires
        content@.len() <= 0x0fff_ffff,
    ensures
        ({
            let doc = crate::parser::spec_parse_doc(content@);
            match r {
                Ok(m) => doc is Ok && crate::meta::spec_extract(doc->Ok_0, descriptor_path@)
                    == Ok::<SpecMeta, crate::meta::ExtractError>(m@),
                Err(e) => match e {
                    BuildError::Parse(pe) => doc == Err::<Map<SpecKey, SpecValue>, int>(
                        pe.pos as int,
                    ),
                    BuildError::Extract(x) => doc is Ok && crate::meta::spec_extract(
                        doc->Ok_0,
                        descriptor_path@,
                    ) == Err::<SpecMeta, crate::meta::ExtractError>(x),
                },
            }
        }),
{
    match crate::parser::parse_content(content) {
        Err(e) => Err(BuildError::Parse(e)),
        Ok(entries) => match Meta::extract(&entries, descriptor_path) {
            Ok(m) => Ok(m),
            Err(e) => Err(BuildError::Extract(e)),
        },
    }
}

/// The effect of resolving a run of dependency names against a registry,
/// left to right, each distinct name resolved once (first occurrence
/// wins): a name already bound links to its binding; an unbound name has a
/// placeholder synthesized and bound, and links to that.
pub open spec fn spec_resolve(
    entries: Map<Seq<char>, SpecModule>,
    names: Seq<Seq<char>>,
    seen: Seq<Seq<char>>,
) -> (Map<Seq<char>, SpecModule>, Seq<SpecDependency>)
    decreases names.len(),
{
    if names.len() == 0 {
        (entries, Seq::empty())
    } else {
        let n = names.first();
        if seen.contains(n) {
            spec_resolve(entries, names.drop_first(), seen)
        } else {
            let was = entries.contains_key(n);
            let e2 = if was {
                entries
            } else {
                entries.insert(n, spec_placeholder(n))
            };
            let rec = spec_resolve(e2, names.drop_first(), seen.push(n));
            (rec.0, seq![SpecDependency { name: n, was_present: was }] + rec.1)
        }
    }
}

impl View for ModuleManager {
    type V = Map<Seq<char>, SpecModule>;

    closed spec fn view(&self) -> Map<Seq<char>, SpecModule> {
        registry_entries(self.map)
    }
}

impl ModuleManager {
    /// A manager over an empty registry.
    pub fn new() -> (m: ModuleManager)
        ensures
            m@ == empty_registry(),
    {
        ModuleManager { map: registry_new() }
    }

    /// Registers the module under its own name, replacing the contents of
    /// any module already bound to it — the slot keeps its identity.
    pub fn add_module(&mut self, module: Module)
        ensures
            final(self)@ == old(self)@.insert(module.meta.name@, module@),
    {
        let name = module.meta.name.clone();
        registry_insert(&mut self.map, name, module);
    }

    /// A copy of the module bound to the name, if any.
    pub fn find_module(&self, name: &str) -> (r: Option<Module>)
        ensures
            match r {
                Some(m) => self@.contains_key(name@) && m@ == self@[name@],
                None => !self@.contains_key(name@),
            },
    {
        registry_get(&self.map, name)
    }

    /// The number of registered modules.
    pub fn module_count(&self) -> (n: usize)
        ensures
            n == self@.dom().len(),
    {
        registry_len(&self.map)
    }

    /// A copy of every registered module, in unspecified order.
    pub fn all_modules(&self) -> (res: Vec<Module>)
        ensures
            res@.len() == self@.dom().len(),
            forall|i: int|
                0 <= i < res@.len() ==> self@.contains_pair(
                    #[trigger] res@[i].meta.name@,
                    res@[i]@,
                ),
    {
        registry_values(&self.map)
    }

    /// The module bound to the name; when there is none, a placeholder is
    /// synthesized, registered under the name, and handed back — one
    /// atomic operation of the registry.
    pub fn get_or_insert(&mut self, name: &str) -> (r: Module)
        ensures
            old(self)@.contains_key(name@) ==> final(self)@ == old(self)@ && r@ == old(
                self,
            )@[name@],
            !old(self)@.contains_key(name@) ==> final(self)@ == old(self)@.insert(
                name@,
                spec_placeholder(name@),
            ) && r@ == spec_placeholder(name@),
    {
        let owned: String = name.to_owned();
        let candidate = Module::placeholder(owned.clone());
        let ghost pre = self@;
        let (target, _was_present) = registry_get_or_insert(&mut self.map, owned, candidate);
        proof {
            if pre.contains_key(name@) {
                assert(self@ =~= pre.insert(name@, pre[name@]));
                assert(self@ =~= pre);
            }
        }
        target
    }

    /// Resolves the names left to right, each distinct name once: an
    /// unregistered dependency has a placeholder synthesized and
    /// registered atomically, and the link records whether the target
    /// pre-existed.
    pub fn resolve_dependencies(&mut self, names: &Vec<String>) -> (deps: Vec<Dependency>)
        ensures
            ({
                let r = spec_resolve(old(self)@, names.deep_view(), Seq::empty());
                final(self)@ == r.0 && deps.deep_view() == r.1
            }),
    {
        let ghost orig = self@;
        let ghost all = names.deep_view();
        let mut deps: Vec<Dependency> = Vec::new();
        let mut seen: Vec<String> = Vec::new();
        let mut i: usize = 0;
        proof {
            assert(all.skip(0) =~= all);
            assert(deps.deep_view() =~= Seq::<SpecDependency>::empty());
            assert(seen.deep_view() =~= Seq::<Seq<char>>::empty());
            let full = spec_resolve(orig, all, Seq::empty());
            assert(spec_resolve(self@, all.skip(0), seen.deep_view()) == full);
            assert(full.1 =~= deps.deep_view() + full.1);
        }
        while i < names.len()
            invariant
                i <= names@.len(),
                orig == old(self)@,
                all == names.deep_view(),
                all.len() == names@.len(),
                forall|j: int| 0 <= j < names@.len() ==> all[j] == #[trigger] names@[j]@,
                ({
                    let full = spec_resolve(orig, all, Seq::empty());
                    let cur = spec_resolve(self@, all.skip(i as int), seen.deep_view());
                    full.0 == cur.0 && full.1 == deps.deep_view() + cur.1
                }),
            decreases names@.len() - i,
        {
            let ghost pre_self = self@;
            let ghost pre_seen = seen.deep_view();
            let ghost pre_deps = deps.deep_view();
            let ghost rest = all.skip(i as int);
            proof {
                assert(rest.len() > 0);
                assert(rest.first() == all[i as int]);
                assert(rest.drop_first() =~= all.skip(i + 1 as int));
            }
            let name_ref = &names[i];
            let already = crate::descriptor::contains_string(&seen, name_ref.as_str());
            if already {
                proof {
                    let cur_pre = spec_resolve(pre_self, rest, pre_seen);
                    assert(pre_seen.contains(all[i as int]));
                    assert(cur_pre == spec_resolve(pre_self, rest.drop_first(), pre_seen));
                    assert(cur_pre == spec_resolve(self@, all.skip(i + 1 as int), pre_seen));
                }
            } else {
                proof {
                    assert(!pre_seen.contains(all[i as int]));
                }
                let candidate = Module::placeholder(name_ref.clone());
                let (_target, was_present) = registry_get_or_insert(
                    &mut self.map,
                    name_ref.clone(),
                    candidate,
                );
                let dep = Dependency::new(name_ref.clone(), was_present);
                let ghost depv = dep@;
                deps.push(dep);
                seen.push(name_ref.clone());
                proof {
                    let n = all[i as int];
                    assert(seen.deep_view() =~= pre_seen.push(n));
                    assert(deps.deep_view() =~= pre_deps.push(depv));
                    assert(depv == SpecDependency { name: n, was_present });
                    if was_present {
                        assert(self@ =~= pre_self.insert(n, pre_self[n]));
                        assert(self@ =~= pre_self);
                    } else {
                        assert(self@ =~= pre_self.insert(n, spec_placeholder(n)));
                    }
                    let cur_pre = spec_resolve(pre_self, rest, pre_seen);
                    let cur_post = spec_resolve(self@, all.skip(i + 1 as int), seen.deep_view());
                    assert(cur_post == spec_resolve(self@, rest.drop_first(), pre_seen.push(n)));
                    assert(cur_pre.0 == cur_post.0);
                    assert(cur_pre.1 =~= seq![depv] + cur_post.1);
                    assert(pre_deps + cur_pre.1 =~= deps.deep_view() + cur_post.1);
                }
            }
            i = i + 1;
        }
        proof {
            assert(all.skip(i as int).len() == 0);
            assert(spec_resolve(self@, all.skip(i as int), seen.deep_view()).1
                =~= Seq::<SpecDependency>::empty());
            assert(deps.deep_view() + Seq::<SpecDependency>::empty() =~= deps.deep_view());
        }
        deps
    }

    /// Builds and registers a module from its extracted metadata and the
    /// outcome of scanning its payload directory. A scan that could not
    /// read the directory (`None`) degrades the module to invalid with no
    /// components rather than failing the build; each declared dependency
    /// is resolved against the registry, with a placeholder registered for
    /// a missing one; and the module is then registered under its own
    /// name, replacing the contents of any slot already there.
    pub fn build_module(&mut self, meta: Meta, scan: Option<Vec<FileEntry>>) -> (m: Module)
        ensures
            ({
                let r = spec_resolve(old(self)@, meta.dependencies.deep_view(), Seq::empty());
                &&& m@.meta == meta@
                &&& m@.dependencies == r.1
                &&& m@.components == (match scan {
                    Some(fs) => scan_components(fs.deep_view()),
                    None => Seq::<SpecComponent>::empty(),
                })
                &&& m@.is_valid == (scan is Some)
                &&& final(self)@ == r.0.insert(meta@.name, m@)
            }),
    {
        let deps = self.resolve_dependencies(&meta.dependencies);
        let components: Vec<Component> = match &scan {
            Some(fs) => components_from_files(fs),
            None => Vec::new(),
        };
        proof {
            if scan is None {
                assert(components.deep_view() =~= Seq::<SpecComponent>::empty());
            }
        }
        let is_valid = match &scan {
            Some(_) => true,
            None => false,
        };
        let module = Module::new(meta, components, deps, is_valid);
        let out = registry_register(&mut self.map, module);
        out
    }
}

} // verus!
