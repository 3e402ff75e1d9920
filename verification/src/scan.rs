//! What a walk over a source tree does with each entry that it meets.

use regex::Regex;
use vstd::prelude::*;
use crate::path_utils::{components, ends_in_file_name, file_name_of, split_components};
use crate::patterns::regex_matches;
use crate::text::{chars_of, same_chars};

verus! {

/// What an entry of the source tree is used for.
#[derive(Clone, Copy, Debug, PartialEq, Eq)]
pub struct EntryUse {
    /// The entry is a package manifest.
    pub is_package_json: bool,
    /// The entry is a TypeScript configuration.
    pub is_ts_config: bool,
    /// The entry is a file to be parsed.
    pub is_source: bool,
}

/// The file name of a package manifest.
pub open spec fn manifest_name() -> Seq<char> {
    "package.json"@
}

/// The file name of a TypeScript configuration.
pub open spec fn config_name() -> Seq<char> {
    "tsconfig.json"@
}

/// What the entry at `path` is used for, given whether it is a file, whether
/// the pattern for source files matches its path, and whether the pattern to
/// ignore does. An entry to ignore is used for nothing. Any other is a
/// manifest or a configuration by its file name, and a file to be parsed
/// where it is a file that the pattern for source files matches.
pub open spec fn entry_use(path: Seq<char>, is_file: bool, wanted: bool, ignored: bool)
    -> EntryUse {
    if ignored {
        EntryUse { is_package_json: false, is_ts_config: false, is_source: false }
    } else {
        EntryUse {
            is_package_json: file_name_of(components(path)) == Some(manifest_name()),
            is_ts_config: file_name_of(components(path)) == Some(config_name()),
            is_source: is_file && wanted,
        }
    }
}

/// Whether the path ends in the file name `name`.
fn is_named(path: &str, name: &str) -> (r: bool)
    ensures
        r == (file_name_of(components(path@)) == Some(name@)),
{
    let comps = split_components(path);
    if ends_in_file_name(&comps) {
        let wanted = chars_of(name);
        same_chars(&comps[comps.len() - 1], &wanted)
    } else {
        false
    }
}

/// Decides what the entry at `path` is used for, once it is known whether the
/// pattern for source files matches its path (`wanted`) and whether the
/// pattern to ignore does (`ignored`).
pub fn sort_entry(path: &str, is_file: bool, wanted: bool, ignored: bool) -> (r: EntryUse)
    ensures
        r == entry_use(path@, is_file, wanted, ignored),
{
    if ignored {
        EntryUse { is_package_json: false, is_ts_config: false, is_source: false }
    } else {
        EntryUse {
            is_package_json: is_named(path, "package.json"),
            is_ts_config: is_named(path, "tsconfig.json"),
            is_source: is_file && wanted,
        }
    }
}

/// Holds the path of an entry against the two patterns, and decides what the
/// entry is used for.
pub fn classify_entry(path: &str, is_file: bool, pattern: &Regex, ignore_pattern: &Regex) -> (r:
    EntryUse)
    ensures
        r == entry_use(
            path@,
            is_file,
            regex_matches(*pattern, path@),
            regex_matches(*ignore_pattern, path@),
        ),
{
    let ignored = ignore_pattern.is_match(path);
    let wanted = pattern.is_match(path);
    sort_entry(path, is_file, wanted, ignored)
}

} // verus!
