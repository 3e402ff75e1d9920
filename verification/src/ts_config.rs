//! TypeScript configurations, and which of them holds for a file.
//!
//! A configuration holds for the files below its own directory. Where several
//! do, the closest one wins, so that the aliases of one package of a monorepo
//! do not reach into another.

use vstd::prelude::*;
use crate::path_laws::lemma_distance_to_prefix;
use crate::path_utils::{
    begins_with_components, components, distance, pop_component, popped, split_components,
};
use crate::text::{rows, strs, views};

verus! {

/// One entry of the `paths` table: a pattern, which may end in `*`, and what
/// stands in for it. Only the first target is ever used.
#[derive(Clone, Debug, PartialEq, Eq)]
pub struct PathAlias {
    pub pattern: String,
    pub targets: Vec<String>,
}

/// An alias as a value of the model.
pub struct PathAliasView {
    pub pattern: Seq<char>,
    pub targets: Seq<Seq<char>>,
}

impl View for PathAlias {
    type V = PathAliasView;

    open spec fn view(&self) -> PathAliasView {
        PathAliasView { pattern: self.pattern@, targets: strs(self.targets@) }
    }
}

/// The compiler options that matter for resolving imports. The entries of
/// `paths` are tried in the order in which they stand.
#[derive(Clone, Debug, PartialEq, Eq)]
pub struct CompilerOptions {
    pub base_url: Option<String>,
    pub paths: Option<Vec<PathAlias>>,
}

/// Compiler options as a value of the model.
pub struct CompilerOptionsView {
    pub base_url: Option<Seq<char>>,
    pub paths: Option<Seq<PathAliasView>>,
}

impl View for CompilerOptions {
    type V = CompilerOptionsView;

    open spec fn view(&self) -> CompilerOptionsView {
        CompilerOptionsView {
            base_url: match self.base_url {
                Some(b) => Some(b@),
                None => None,
            },
            paths: match self.paths {
                Some(p) => Some(views(p@)),
                None => None,
            },
        }
    }
}

/// A configuration file: its options, and its own path below the project
/// root.
#[derive(Clone, Debug, PartialEq, Eq)]
pub struct TypeScriptConfig {
    pub compiler_options: Option<CompilerOptions>,
    pub file_path: String,
}

/// A configuration as a value of the model.
pub struct TypeScriptConfigView {
    pub compiler_options: Option<CompilerOptionsView>,
    pub file_path: Seq<char>,
}

impl View for TypeScriptConfig {
    type V = TypeScriptConfigView;

    open spec fn view(&self) -> TypeScriptConfigView {
        TypeScriptConfigView {
            compiler_options: match self.compiler_options {
                Some(o) => Some(o@),
                None => None,
            },
            file_path: self.file_path@,
        }
    }
}

/// The directory of a configuration: the components of its path without the
/// file name.
pub open spec fn config_dir(config: TypeScriptConfigView) -> Seq<Seq<char>> {
    popped(components(config.file_path))
}

/// Whether the file at `path` lies in or below the configuration's directory.
pub open spec fn encloses(config: TypeScriptConfigView, path: Seq<char>) -> bool {
    config_dir(config).is_prefix_of(components(path))
}

/// The distance from the file at `path` to the configuration's directory.
pub open spec fn config_distance(config: TypeScriptConfigView, path: Seq<char>) -> nat {
    distance(components(path), config_dir(config))
}

/// The position of the closest among the first `n` configurations that
/// enclose `path`; of those at the same distance the first.
pub open spec fn closest_among(configs: Seq<TypeScriptConfigView>, path: Seq<char>, n: nat)
    -> Option<int>
    decreases n,
{
    if n == 0 {
        None
    } else {
        let k = n - 1;
        match closest_among(configs, path, k as nat) {
            None => if encloses(configs[k], path) {
                Some(k)
            } else {
                None
            },
            Some(j) => if encloses(configs[k], path) && config_distance(configs[k], path)
                < config_distance(configs[j], path) {
                Some(k)
            } else {
                Some(j)
            },
        }
    }
}

/// The position of the configuration that holds for the file at `path`.
pub open spec fn closest(configs: Seq<TypeScriptConfigView>, path: Seq<char>) -> Option<int> {
    closest_among(configs, path, configs.len())
}

/// The alias table of a configuration, where there is one.
pub open spec fn aliases_of(config: Option<TypeScriptConfigView>) -> Option<Seq<PathAliasView>> {
    match config {
        Some(c) => match c.compiler_options {
            Some(o) => o.paths,
            None => None,
        },
        None => None,
    }
}

/// The base path of a configuration, where it declares one.
pub open spec fn base_path_of(config: Option<TypeScriptConfigView>) -> Option<Seq<char>> {
    match config {
        Some(c) => match c.compiler_options {
            Some(o) => o.base_url,
            None => None,
        },
        None => None,
    }
}

/// The configuration that is chosen encloses the path, and no other that
/// encloses it is closer, nor as close and earlier in the list. None is chosen
/// only where none encloses the path.
pub proof fn lemma_closest_is_nearest(configs: Seq<TypeScriptConfigView>, path: Seq<char>, n: nat)
    requires
        n <= configs.len(),
    ensures
        match closest_among(configs, path, n) {
            Some(k) => {
                &&& 0 <= k < n
                &&& encloses(configs[k], path)
                &&& forall|j: int|
                    0 <= j < n && encloses(#[trigger] configs[j], path) ==> {
                        &&& config_distance(configs[k], path) <= config_distance(configs[j], path)
                        &&& j < k ==> config_distance(configs[k], path) < config_distance(
                            configs[j],
                            path,
                        )
                    }
            },
            None => forall|j: int| 0 <= j < n ==> !encloses(#[trigger] configs[j], path),
        },
    decreases n,
{
    if n > 0 {
        lemma_closest_is_nearest(configs, path, (n - 1) as nat);
    }
}

/// The components of the directory that a configuration stands in.
pub fn config_dir_components(config: &TypeScriptConfig) -> (dir: Vec<Vec<char>>)
    ensures
        rows(dir@) == config_dir(config@),
{
    let mut dir = split_components(config.file_path.as_str());
    pop_component(&mut dir);
    dir
}

/// The position, in `ts_configs`, of the configuration that holds for the file
/// at `path`.
pub fn closest_index(ts_configs: &Vec<TypeScriptConfig>, path: &str) -> (r: Option<usize>)
    ensures
        match r {
            Some(k) => closest(views(ts_configs@), path@) == Some(k as int) && k < ts_configs.len(),
            None => closest(views(ts_configs@), path@) is None,
        },
{
    let comps = split_components(path);
    let mut best: Option<usize> = None;
    let mut best_distance: usize = 0;
    let mut i: usize = 0;
    let ghost configs = views(ts_configs@);
    while i < ts_configs.len()
        invariant
            i <= ts_configs.len(),
            configs == views(ts_configs@),
            rows(comps@) == components(path@),
            match best {
                Some(k) => {
                    &&& closest_among(configs, path@, i as nat) == Some(k as int)
                    &&& k < i
                    &&& best_distance == config_distance(configs[k as int], path@)
                },
                None => closest_among(configs, path@, i as nat) is None,
            },
        decreases ts_configs.len() - i,
    {
        let dir = config_dir_components(&ts_configs[i]);
        assert(configs[i as int] == ts_configs@[i as int]@);
        if begins_with_components(&comps, &dir) {
            proof {
                lemma_distance_to_prefix(rows(comps@), rows(dir@));
            }
            let d = comps.len() - dir.len();
            match best {
                None => {
                    best = Some(i);
                    best_distance = d;
                },
                Some(_) => {
                    if d < best_distance {
                        best = Some(i);
                        best_distance = d;
                    }
                },
            }
        }
        i += 1;
    }
    best
}

/// The configuration that holds for the file at `path`: among those whose
/// directory the file lies in or below, the one at the smallest distance, and
/// of several at that distance the first.
pub fn get_closest<'a>(ts_configs: &'a Vec<TypeScriptConfig>, path: &str) -> (r: Option<
    &'a TypeScriptConfig,
>)
    ensures
        match closest(views(ts_configs@), path@) {
            Some(k) => 0 <= k < ts_configs.len() && r == Some(&ts_configs@[k]),
            None => r is None,
        },
{
    match closest_index(ts_configs, path) {
        Some(k) => Some(&ts_configs[k]),
        None => None,
    }
}

/// The alias table of the configuration; none where there is no
/// configuration, or it has no options, or they declare no table.
pub fn get_aliases<'a>(ts_config: Option<&'a TypeScriptConfig>) -> (r: Option<&'a Vec<PathAlias>>)
    ensures
        match r {
            Some(p) => {
                &&& ts_config is Some
                &&& ts_config->0.compiler_options is Some
                &&& ts_config->0.compiler_options->0.paths == Some(*p)
                &&& aliases_of(Some(ts_config->0@)) == Some(views(p@))
            },
            None => {
                ||| ts_config is None
                ||| ts_config->0.compiler_options is None
                ||| ts_config->0.compiler_options->0.paths is None
            },
        },
        r is None && ts_config is Some ==> aliases_of(Some(ts_config->0@)) is None,
{
    match ts_config {
        Some(c) => match &c.compiler_options {
            Some(o) => match &o.paths {
                Some(p) => Some(p),
                None => None,
            },
            None => None,
        },
        None => None,
    }
}

/// The base path of the configuration; none where there is no configuration,
/// or it has no options, or they declare no base path.
pub fn get_base_path<'a>(ts_config: Option<&'a TypeScriptConfig>) -> (r: Option<&'a String>)
    ensures
        match r {
            Some(b) => {
                &&& ts_config is Some
                &&& ts_config->0.compiler_options is Some
                &&& ts_config->0.compiler_options->0.base_url == Some(*b)
                &&& base_path_of(Some(ts_config->0@)) == Some(b@)
            },
            None => {
                ||| ts_config is None
                ||| ts_config->0.compiler_options is None
                ||| ts_config->0.compiler_options->0.base_url is None
            },
        },
        r is None && ts_config is Some ==> base_path_of(Some(ts_config->0@)) is None,
{
    match ts_config {
        Some(c) => match &c.compiler_options {
            Some(o) => match &o.base_url {
                Some(b) => Some(b),
                None => None,
            },
            None => None,
        },
        None => None,
    }
}

} // verus!
