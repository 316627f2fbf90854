//! The environment of a layer: entries for every phase, for the build, for the
//! launch and for single process types, and the entries that follow from the
//! layer's conventional directories.

use vstd::prelude::*;
use vstd::std_specs::cmp::PartialEqSpecImpl;
use vstd::string::*;
use crate::bytes::{bytes_eq, copy_bytes};
use crate::env::Env;
use crate::layer_env::behavior::ModificationBehavior;
use crate::layer_env::codec::{file_views, written_form};
use crate::layer_env::delta::LayerEnvDelta;
use crate::layer_env::layer_dir::{bin_path, dir_delta, env_build_name, env_build_path,
    env_launch_name, env_launch_path, env_name, env_path, layer_paths_delta, lib_path, EnvDir,
    LayerDir};
use crate::layer_env::merge::{apply_delta, DeltaMap, EnvMap};
use crate::layer_env::target::{Target, TargetLifecycle};
use crate::path::{join_path, joined};
use crate::table::{strictly_sorted, SortedTable};

verus! {

/// The entries of a layer by scope.
pub struct LayerEnvView {
    /// The entries for every phase and process.
    pub all: DeltaMap,
    /// The entries for the build.
    pub build: DeltaMap,
    /// The entries for the launch of any process.
    pub launch: DeltaMap,
    /// The entries for the launch of single process types, by the bytes of the
    /// name of the process type.
    pub process: Map<Seq<u8>, DeltaMap>,
    /// The entries that follow from the conventional directories of the layer.
    pub layer_paths: DeltaMap,
}

/// The entries that are meant for a target alone, if there are any: none for
/// `All`, and none for a process type for which nothing was inserted.
pub open spec fn target_delta(view: LayerEnvView, target: Target) -> Option<DeltaMap> {
    match target {
        Target::All => None,
        Target::Build => Some(view.build),
        Target::Launch => Some(view.launch),
        Target::Process(name) => if view.process.contains_key(name) {
            Some(view.process[name])
        } else {
            None
        },
    }
}

/// The environment that a target sees: the entries of the conventional
/// directories are applied first, then those for every phase, then those of the
/// target itself.
pub open spec fn apply_layer_env(view: LayerEnvView, target: Target, env: EnvMap) -> EnvMap {
    let with_paths = apply_delta(view.layer_paths, env);
    let with_all = apply_delta(view.all, with_paths);
    match target_delta(view, target) {
        Some(delta) => apply_delta(delta, with_all),
        None => with_all,
    }
}

/// The entries of a process type, empty where nothing was inserted for it.
pub open spec fn process_delta(view: LayerEnvView, name: Seq<u8>) -> DeltaMap {
    if view.process.contains_key(name) {
        view.process[name]
    } else {
        Map::empty()
    }
}

/// The entries after one more was inserted for a target.
pub open spec fn insert_entry(
    view: LayerEnvView,
    target: Target,
    behavior: ModificationBehavior,
    name: Seq<u8>,
    value: Seq<u8>,
) -> LayerEnvView {
    match target {
        Target::All => LayerEnvView { all: view.all.insert((behavior, name), value), ..view },
        Target::Build => LayerEnvView { build: view.build.insert((behavior, name), value), ..view },
        Target::Launch => LayerEnvView {
            launch: view.launch.insert((behavior, name), value),
            ..view
        },
        Target::Process(process) => LayerEnvView {
            process: view.process.insert(
                process,
                process_delta(view, process).insert((behavior, name), value),
            ),
            ..view
        },
    }
}

/// Scopes do not leak: an entry inserted for the build, for the launch or for
/// a process type changes nothing of what any other target sees. (An entry
/// inserted for `All` is seen by every target.)
pub proof fn lemma_scope_isolation(
    view: LayerEnvView,
    scope: Target,
    behavior: ModificationBehavior,
    name: Seq<u8>,
    value: Seq<u8>,
    target: Target,
    env: EnvMap,
)
    requires
        scope != Target::All,
        target != scope,
    ensures
        apply_layer_env(insert_entry(view, scope, behavior, name, value), target, env)
            == apply_layer_env(view, target, env),
{
}

/// The entries of a process type are seen only when that process type is
/// launched: they change nothing for the build, for the launch in general, or
/// for any other process type.
pub proof fn lemma_process_scope_isolation(
    view: LayerEnvView,
    process: Seq<u8>,
    behavior: ModificationBehavior,
    name: Seq<u8>,
    value: Seq<u8>,
    other: Seq<u8>,
    env: EnvMap,
)
    requires
        other != process,
    ensures
        ({
            let inserted = insert_entry(view, Target::Process(process), behavior, name, value);
            &&& apply_layer_env(inserted, Target::All, env) == apply_layer_env(
                view,
                Target::All,
                env,
            )
            &&& apply_layer_env(inserted, Target::Build, env) == apply_layer_env(
                view,
                Target::Build,
                env,
            )
            &&& apply_layer_env(inserted, Target::Launch, env) == apply_layer_env(
                view,
                Target::Launch,
                env,
            )
            &&& apply_layer_env(inserted, Target::Process(other), env) == apply_layer_env(
                view,
                Target::Process(other),
                env,
            )
        }),
{
}

/// The entries of the conventional directories are seen by every target, in
/// the same way: what a target sees is what its own entries make of what `All`
/// sees.
pub proof fn lemma_targets_build_on_all(view: LayerEnvView, target: Target, env: EnvMap)
    ensures
        apply_layer_env(view, target, env) == match target_delta(view, target) {
            Some(delta) => apply_delta(delta, apply_layer_env(view, Target::All, env)),
            None => apply_layer_env(view, Target::All, env),
        },
{
}

/// The environment of a layer.
#[derive(Debug)]
pub struct LayerEnv {
    all: LayerEnvDelta,
    build: LayerEnvDelta,
    launch: LayerEnvDelta,
    process: SortedTable<LayerEnvDelta>,
    layer_paths: LayerEnvDelta,
}

impl View for LayerEnv {
    type V = LayerEnvView;

    closed spec fn view(&self) -> LayerEnvView {
        LayerEnvView {
            all: self.all@,
            build: self.build@,
            launch: self.launch@,
            process: self.process.map(),
            layer_paths: self.layer_paths@,
        }
    }
}

impl LayerEnv {
    /// A layer environment that modifies no variable.
    pub fn empty() -> (layer_env: Self)
        ensures
            layer_env@ == (LayerEnvView {
                all: Map::empty(),
                build: Map::empty(),
                launch: Map::empty(),
                process: Map::empty(),
                layer_paths: Map::empty(),
            }),
    {
        Self::from_parts(
            LayerEnvDelta::empty(),
            LayerEnvDelta::empty(),
            LayerEnvDelta::empty(),
            SortedTable::new(),
            LayerEnvDelta::empty(),
        )
    }

    /// The layer environment that holds the given entries.
    fn from_parts(
        all: LayerEnvDelta,
        build: LayerEnvDelta,
        launch: LayerEnvDelta,
        process: SortedTable<LayerEnvDelta>,
        layer_paths: LayerEnvDelta,
    ) -> (layer_env: Self)
        ensures
            layer_env@ == (LayerEnvView {
                all: all@,
                build: build@,
                launch: launch@,
                process: process.map(),
                layer_paths: layer_paths@,
            }),
    {
        proof {
            use_type_invariant(&all);
            use_type_invariant(&build);
            use_type_invariant(&launch);
            use_type_invariant(&process);
            use_type_invariant(&layer_paths);
        }
        LayerEnv { all, build, launch, process, layer_paths }
    }

    /// The environment that `target` sees when this layer is applied to `env`.
    pub fn apply(&self, target: TargetLifecycle, env: &Env) -> (result: Env)
        ensures
            result@ == apply_layer_env(self@, target@, env@),
    {
        let with_paths = self.layer_paths.apply(env);
        let with_all = self.all.apply(&with_paths);
        match target {
            TargetLifecycle::All => with_all,
            TargetLifecycle::Build => self.build.apply(&with_all),
            TargetLifecycle::Launch => self.launch.apply(&with_all),
            TargetLifecycle::Process(name) => match self.process.get(name.as_str().as_bytes()) {
                Some(delta) => delta.apply(&with_all),
                None => with_all,
            },
        }
    }

    /// Inserts an entry for `target`. Where there is an entry for the same
    /// target, behavior and name already, its value is replaced.
    pub fn insert(
        &mut self,
        target: TargetLifecycle,
        behavior: ModificationBehavior,
        name: &[u8],
        value: &[u8],
    )
        ensures
            final(self)@ == insert_entry(old(self)@, target@, behavior, name@, value@),
    {
        let mut taken = LayerEnv::empty();
        std::mem::swap(self, &mut taken);
        let LayerEnv { mut all, mut build, mut launch, mut process, layer_paths } = taken;
        match target {
            TargetLifecycle::All => all.insert(behavior, name, value),
            TargetLifecycle::Build => build.insert(behavior, name, value),
            TargetLifecycle::Launch => launch.insert(behavior, name, value),
            TargetLifecycle::Process(process_name) => {
                let key = copy_bytes(process_name.as_str().as_bytes());
                let mut delta = match process.remove(key.as_slice()) {
                    Some(delta) => delta,
                    None => LayerEnvDelta::empty(),
                };
                delta.insert(behavior, name, value);
                process.insert(key, delta);
                assert(process.map() =~= old(self).process.map().insert(
                    key@,
                    process_delta(old(self)@, key@).insert((behavior, name@), value@),
                ));
            },
        }
        *self = Self::from_parts(all, build, launch, process, layer_paths);
    }

    /// The names of the process types that have entries, as bytes, in
    /// ascending order.
    pub closed spec fn process_names(&self) -> Seq<Seq<u8>> {
        self.process.keys()
    }

    /// What every value of this type satisfies.
    #[verifier::type_invariant]
    pub closed spec fn wf(&self) -> bool {
        &&& self.all.wf()
        &&& self.build.wf()
        &&& self.launch.wf()
        &&& self.process.wf()
        &&& self.layer_paths.wf()
    }

    /// The names of the process types are in strictly ascending order, and
    /// they are the process types that have entries.
    pub proof fn lemma_process_names(&self)
        requires
            self.wf(),
        ensures
            strictly_sorted(self.process_names()),
            forall|name: Seq<u8>|
                self@.process.contains_key(name) <==> self.process_names().contains(name),
    {
    }

    /// The environment of the layer whose directory was found as `layer_dir`
    /// describes it. A directory `bin` puts its path in front of `PATH`, a
    /// directory `lib` puts its path in front of `LIBRARY_PATH` and of
    /// `LD_LIBRARY_PATH`; the files of `env`, `env.build` and `env.launch` are
    /// the entries for every phase, for the build and for the launch. Entries
    /// of single process types are not read.
    pub fn read_from_layer_dir(layer_dir: &LayerDir) -> (layer_env: Self)
        ensures
            layer_env@ == (LayerEnvView {
                all: dir_delta(layer_dir.env),
                build: dir_delta(layer_dir.env_build),
                launch: dir_delta(layer_dir.env_launch),
                process: Map::empty(),
                layer_paths: layer_paths_delta(
                    layer_dir.path@,
                    layer_dir.has_bin,
                    layer_dir.has_lib,
                ),
            }),
    {
        let separator = ":".as_bytes();
        let mut layer_paths = LayerEnvDelta::empty();
        if layer_dir.has_bin {
            let bin = bin_path(layer_dir.path.as_slice());
            layer_paths.insert(ModificationBehavior::Prepend, "PATH".as_bytes(), bin.as_slice());
            layer_paths.insert(ModificationBehavior::Delimiter, "PATH".as_bytes(), separator);
        }
        if layer_dir.has_lib {
            let lib = lib_path(layer_dir.path.as_slice());
            layer_paths.insert(
                ModificationBehavior::Prepend,
                "LIBRARY_PATH".as_bytes(),
                lib.as_slice(),
            );
            layer_paths.insert(
                ModificationBehavior::Delimiter,
                "LIBRARY_PATH".as_bytes(),
                separator,
            );
            layer_paths.insert(
                ModificationBehavior::Prepend,
                "LD_LIBRARY_PATH".as_bytes(),
                lib.as_slice(),
            );
            layer_paths.insert(
                ModificationBehavior::Delimiter,
                "LD_LIBRARY_PATH".as_bytes(),
                separator,
            );
        }
        let all = match &layer_dir.env {
            Some(files) => LayerEnvDelta::read_from_env_dir(files.as_slice()),
            None => LayerEnvDelta::empty(),
        };
        let build = match &layer_dir.env_build {
            Some(files) => LayerEnvDelta::read_from_env_dir(files.as_slice()),
            None => LayerEnvDelta::empty(),
        };
        let launch = match &layer_dir.env_launch {
            Some(files) => LayerEnvDelta::read_from_env_dir(files.as_slice()),
            None => LayerEnvDelta::empty(),
        };
        Self::from_parts(all, build, launch, SortedTable::new(), layer_paths)
    }

    /// The environment directories to write below `layer_dir`, in the order in
    /// which they are to be written: `env` with the entries for every phase,
    /// `env.build` with those for the build, `env.launch` with those for the
    /// launch, and then below `env.launch` one directory for each process type
    /// that has entries, in ascending order of the names. The entries of the
    /// conventional directories are not written.
    pub fn write_to_layer_dir(&self, layer_dir: &[u8]) -> (dirs: Vec<EnvDir>)
        ensures
            dirs@.len() == 3 + self.process_names().len(),
            dirs@[0].path@ == joined(layer_dir@, env_name()),
            written_form(file_views(dirs@[0].files@), self@.all),
            dirs@[1].path@ == joined(layer_dir@, env_build_name()),
            written_form(file_views(dirs@[1].files@), self@.build),
            dirs@[2].path@ == joined(layer_dir@, env_launch_name()),
            written_form(file_views(dirs@[2].files@), self@.launch),
            forall|i: int|
                #![trigger dirs@[3 + i]]
                0 <= i < self.process_names().len() ==> {
                    &&& self@.process.contains_key(self.process_names()[i])
                    &&& dirs@[3 + i].path@ == joined(
                        joined(layer_dir@, env_launch_name()),
                        self.process_names()[i],
                    )
                    &&& written_form(
                        file_views(dirs@[3 + i].files@),
                        self@.process[self.process_names()[i]],
                    )
                },
    {
        proof {
            use_type_invariant(&self.process);
        }
        let mut dirs: Vec<EnvDir> = Vec::new();
        dirs.push(EnvDir { path: env_path(layer_dir), files: self.all.write_to_env_dir() });
        dirs.push(
            EnvDir { path: env_build_path(layer_dir), files: self.build.write_to_env_dir() },
        );
        let launch_dir = env_launch_path(layer_dir);
        dirs.push(
            EnvDir {
                path: copy_bytes(launch_dir.as_slice()),
                files: self.launch.write_to_env_dir(),
            },
        );
        let mut i: usize = 0;
        while i < self.process.len()
            invariant
                self.process.wf(),
                launch_dir@ == joined(layer_dir@, env_launch_name()),
                i <= self.process.keys().len(),
                dirs@.len() == 3 + i,
                dirs@[0].path@ == joined(layer_dir@, env_name()),
                written_form(file_views(dirs@[0].files@), self@.all),
                dirs@[1].path@ == joined(layer_dir@, env_build_name()),
                written_form(file_views(dirs@[1].files@), self@.build),
                dirs@[2].path@ == joined(layer_dir@, env_launch_name()),
                written_form(file_views(dirs@[2].files@), self@.launch),
                forall|j: int|
                    #![trigger dirs@[3 + j]]
                    0 <= j < i ==> {
                        &&& self@.process.contains_key(self.process_names()[j])
                        &&& dirs@[3 + j].path@ == joined(launch_dir@, self.process_names()[j])
                        &&& written_form(
                            file_views(dirs@[3 + j].files@),
                            self@.process[self.process_names()[j]],
                        )
                    },
            decreases self.process.keys().len() - i,
        {
            let path = join_path(launch_dir.as_slice(), self.process.key_at(i).as_slice());
            let files = self.process.value_at(i).write_to_env_dir();
            proof {
                self.process.lemma_entry(i as int);
            }
            let ghost before = dirs@;
            dirs.push(EnvDir { path, files });
            proof {
                assert forall|j: int| #![trigger dirs@[3 + j]] 0 <= j < i implies dirs@[3 + j]
                    == before[3 + j] by {}
                assert(dirs@[0] == before[0]);
                assert(dirs@[1] == before[1]);
                assert(dirs@[2] == before[2]);
            }
            i += 1;
        }
        dirs
    }
}

/// Whether two tables of process types hold the same entries for the same
/// process types.
fn same_processes(first: &SortedTable<LayerEnvDelta>, second: &SortedTable<LayerEnvDelta>) -> (same:
    bool)
    ensures
        same == (first.map() == second.map()),
{
    proof {
        use_type_invariant(first);
        use_type_invariant(second);
        if first.map() == second.map() {
            first.lemma_same_map(second);
        }
    }
    if first.len() != second.len() {
        return false;
    }
    let mut i: usize = 0;
    while i < first.len()
        invariant
            first.wf(),
            second.wf(),
            first.keys().len() == second.keys().len(),
            i <= first.keys().len(),
            first.map() == second.map() ==> first.keys() == second.keys() && first.vals()
                == second.vals(),
            forall|j: int|
                0 <= j < i ==> first.keys()[j] == second.keys()[j] && first.vals()[j]
                    == second.vals()[j],
        decreases first.keys().len() - i,
    {
        if !bytes_eq(first.key_at(i).as_slice(), second.key_at(i).as_slice()) {
            return false;
        }
        if !first.value_at(i).eq(second.value_at(i)) {
            return false;
        }
        i += 1;
    }
    proof {
        assert(first.keys() =~= second.keys());
        assert(first.vals() =~= second.vals());
    }
    true
}

impl PartialEq for LayerEnv {
    /// Two layer environments are equal when they hold the same entries in
    /// each scope.
    fn eq(&self, other: &Self) -> (same: bool) {
        self.all.eq(&other.all) && self.build.eq(&other.build) && self.launch.eq(&other.launch)
            && same_processes(&self.process, &other.process) && self.layer_paths.eq(
            &other.layer_paths,
        )
    }
}

impl PartialEqSpecImpl for LayerEnv {
    open spec fn obeys_eq_spec() -> bool {
        true
    }

    open spec fn eq_spec(&self, other: &Self) -> bool {
        self@ == other@
    }
}

impl Eq for LayerEnv {

}

} // verus!
