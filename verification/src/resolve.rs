//! From an import specifier to the key of the node it refers to.
//!
//! A specifier that begins with `.` is taken relative to the directory of the
//! importing file. Any other is held against the aliases of the configuration
//! that holds for the file; where none matches it stays as written, the name
//! of a package or a path that nothing resolves.

use vstd::prelude::*;
use crate::languages::{Import, ImportView};
use crate::path_utils::{
    components, join_components, joined, normalize_components, normalized, pop_component, popped,
    render, rendered, split_chars, split_components,
};
use crate::text::{begins_with, chars_of, copy_chars, rows, string_of, views};
use crate::ts_config::{
    aliases_of, base_path_of, config_dir, config_dir_components, get_aliases, get_base_path,
    PathAlias, PathAliasView, TypeScriptConfig, TypeScriptConfigView,
};

verus! {

/// Whether the text ends in the wildcard `*`.
pub open spec fn has_wildcard(s: Seq<char>) -> bool {
    s.len() > 0 && s.last() == '*'
}

/// The text without the wildcard that it may end in.
pub open spec fn without_wildcard(s: Seq<char>) -> Seq<char> {
    if has_wildcard(s) {
        s.drop_last()
    } else {
        s
    }
}

/// What a specifier has to begin with for the alias to apply.
pub open spec fn alias_prefix(alias: PathAliasView) -> Seq<char> {
    without_wildcard(alias.pattern)
}

/// What stands in for the prefix: the first target, without its wildcard
/// where the pattern has one.
pub open spec fn alias_target(alias: PathAliasView) -> Seq<char> {
    if has_wildcard(alias.pattern) {
        without_wildcard(alias.targets[0])
    } else {
        alias.targets[0]
    }
}

/// Whether the alias applies to the specifier. One without a target never
/// does.
pub open spec fn alias_matches(alias: PathAliasView, source: Seq<char>) -> bool {
    alias.targets.len() > 0 && alias_prefix(alias).is_prefix_of(source)
}

/// The position of the last among the first `n` aliases that applies to the
/// specifier.
pub open spec fn last_match(aliases: Seq<PathAliasView>, source: Seq<char>, n: nat) -> Option<int>
    decreases n,
{
    if n == 0 {
        None
    } else if alias_matches(aliases[n - 1], source) {
        Some(n - 1)
    } else {
        last_match(aliases, source, (n - 1) as nat)
    }
}

/// The specifier with the alias's target in place of its prefix.
pub open spec fn substituted(alias: PathAliasView, source: Seq<char>) -> Seq<char> {
    alias_target(alias) + source.skip(alias_prefix(alias).len() as int)
}

/// The components of the base path of a configuration; none where it
/// declares no base path.
pub open spec fn base_components(config: TypeScriptConfigView) -> Seq<Seq<char>> {
    match base_path_of(Some(config)) {
        Some(b) => components(b),
        None => Seq::<Seq<char>>::empty(),
    }
}

/// The key of an aliased specifier: what the alias makes of it, taken
/// relative to the configuration's directory and base path, in normal form.
pub open spec fn resolved_alias(
    config: TypeScriptConfigView,
    alias: PathAliasView,
    source: Seq<char>,
) -> Seq<char> {
    rendered(
        normalized(
            joined(
                joined(config_dir(config), base_components(config)),
                components(substituted(alias, source)),
            ),
        ),
    )
}

/// The key of a relative specifier: the specifier taken relative to the
/// importing file's directory, in normal form.
pub open spec fn resolved_relative(importer: Seq<char>, source: Seq<char>) -> Seq<char> {
    rendered(normalized(joined(popped(components(importer)), components(source))))
}

/// Whether the specifier is relative.
pub open spec fn is_relative(source: Seq<char>) -> bool {
    source.len() > 0 && source[0] == '.'
}

/// The text without the separator that it may end in.
pub open spec fn without_trailing_slash(s: Seq<char>) -> Seq<char> {
    if s.len() > 0 && s.last() == '/' {
        s.drop_last()
    } else {
        s
    }
}

/// What a specifier that is not relative resolves to under a configuration:
/// what the last alias that applies makes of it, and the specifier itself
/// where none applies.
pub open spec fn resolved_bare(config: Option<TypeScriptConfigView>, source: Seq<char>) -> Seq<
    char,
> {
    match aliases_of(config) {
        Some(aliases) => match last_match(aliases, source, aliases.len()) {
            Some(a) => resolved_alias(config->0, aliases[a], source),
            None => source,
        },
        None => source,
    }
}

/// The key of the node that an import refers to, under the configuration
/// that holds for the importing file.
pub open spec fn key_for(config: Option<TypeScriptConfigView>, import: ImportView) -> Seq<char> {
    without_trailing_slash(
        if is_relative(import.source) {
            resolved_relative(import.file_path, import.source)
        } else {
            resolved_bare(config, import.source)
        },
    )
}

/// Whether the characters end in the wildcard.
fn ends_in_wildcard(s: &Vec<char>) -> (r: bool)
    ensures
        r == has_wildcard(s@),
{
    s.len() > 0 && s[s.len() - 1] == '*'
}

/// Takes the wildcard off the end, where there is one.
fn strip_wildcard(s: &mut Vec<char>)
    ensures
        final(s)@ == without_wildcard(old(s)@),
{
    if ends_in_wildcard(s) {
        s.pop();
    }
}

/// The position of the last alias that applies to the specifier.
fn find_last_match(aliases: &Vec<PathAlias>, source: &Vec<char>) -> (r: Option<usize>)
    ensures
        match r {
            Some(a) => a < aliases.len() && alias_matches(aliases@[a as int]@, source@)
                && last_match(views(aliases@), source@, aliases.len() as nat) == Some(a as int),
            None => last_match(views(aliases@), source@, aliases.len() as nat) is None,
        },
{
    let mut n: usize = aliases.len();
    let ghost table = views(aliases@);
    while n > 0
        invariant
            n <= aliases.len(),
            table == views(aliases@),
            last_match(table, source@, aliases.len() as nat) == last_match(
                table,
                source@,
                n as nat,
            ),
        decreases n,
    {
        let alias = &aliases[n - 1];
        assert(table[n - 1] == alias@);
        if alias.targets.len() > 0 {
            let mut prefix = chars_of(alias.pattern.as_str());
            strip_wildcard(&mut prefix);
            if begins_with(source, &prefix) {
                return Some(n - 1);
            }
        }
        n -= 1;
    }
    None
}

/// The specifier with the alias's target in place of its prefix.
fn substitute(alias: &PathAlias, source: &Vec<char>) -> (out: Vec<char>)
    requires
        alias_matches(alias@, source@),
    ensures
        out@ == substituted(alias@, source@),
{
    let pattern = chars_of(alias.pattern.as_str());
    let mut out = chars_of(alias.targets[0].as_str());
    let mut skip = pattern.len();
    if ends_in_wildcard(&pattern) {
        strip_wildcard(&mut out);
        skip = skip - 1;
    }
    assert(skip == alias_prefix(alias@).len());
    let ghost base = out@;
    let mut j: usize = skip;
    assert(source@.subrange(skip as int, skip as int) =~= Seq::<char>::empty());
    assert(out@ =~= base + source@.subrange(skip as int, j as int));
    while j < source.len()
        invariant
            skip <= j <= source.len(),
            out@ == base + source@.subrange(skip as int, j as int),
        decreases source.len() - j,
    {
        out.push(source[j]);
        assert(source@.subrange(skip as int, j + 1) =~= source@.subrange(
            skip as int,
            j as int,
        ).push(source@[j as int]));
        assert(out@ =~= base + source@.subrange(skip as int, j + 1));
        j += 1;
    }
    assert(source@.subrange(skip as int, source.len() as int) =~= source@.skip(skip as int));
    out
}

/// No components.
fn empty_components() -> (out: Vec<Vec<char>>)
    ensures
        rows(out@) == Seq::<Seq<char>>::empty(),
{
    let out: Vec<Vec<char>> = Vec::new();
    assert(rows(out@) =~= Seq::<Seq<char>>::empty());
    out
}

/// The key of the node that `import` refers to, under the configuration
/// `config` of the importing file.
pub fn resolve_import(config: Option<&TypeScriptConfig>, import: &Import) -> (key: String)
    ensures
        key@ == key_for(
            match config {
                Some(c) => Some(c@),
                None => None,
            },
            import@,
        ),
{
    let source = chars_of(import.source.as_str());
    let mut key: Vec<char>;
    if source.len() > 0 && source[0] == '.' {
        let mut dir = split_components(import.file_path.as_str());
        pop_component(&mut dir);
        let more = split_chars(&source);
        let comps = join_components(&dir, &more);
        let plain = normalize_components(&comps);
        key = render(&plain);
    } else {
        key = copy_chars(&source);
        match config {
            Some(c) => {
                match get_aliases(Some(c)) {
                    Some(aliases) => {
                        match find_last_match(aliases, &source) {
                            Some(a) => {
                                assert(views(aliases@)[a as int] == aliases@[a as int]@);
                                let text = substitute(&aliases[a], &source);
                                let dir = config_dir_components(c);
                                let base = match get_base_path(Some(c)) {
                                    Some(b) => split_components(b.as_str()),
                                    None => empty_components(),
                                };
                                let more = split_chars(&text);
                                let comps = join_components(&join_components(&dir, &base), &more);
                                let plain = normalize_components(&comps);
                                key = render(&plain);
                            },
                            None => {},
                        }
                    },
                    None => {},
                }
            },
            None => {},
        }
    }
    if key.len() > 0 && key[key.len() - 1] == '/' {
        key.pop();
    }
    string_of(&key)
}

} // verus!
