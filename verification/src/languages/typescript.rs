//! TypeScript files, which are read as JavaScript files are.

use vstd::prelude::*;
use crate::languages::javascript::{script_file, script_test_file, JavaScript};
use crate::languages::{FileError, Language, ModuleItem, ParsedFile, TestFile};
use crate::patterns::TestPatterns;
use crate::text::views;

verus! {

/// The TypeScript family of languages.
#[derive(Clone, Copy, Debug, PartialEq, Eq)]
pub struct TypeScript {}

impl Language for TypeScript {
    fn parse_file(
        &self,
        path: &str,
        root_prefix: &str,
        contents: &str,
        items: &Vec<ModuleItem>,
    ) -> (r: Result<ParsedFile, FileError>)
        ensures
            r matches Ok(file) ==> file@ == script_file(
                path@,
                root_prefix@,
                contents@,
                views(items@),
            ),
    {
        (JavaScript {  }).parse_file(path, root_prefix, contents, items)
    }

    fn parse_test_file(&self, path: &str, contents: &str, patterns: &TestPatterns) -> (r: TestFile)
        ensures
            r@ == script_test_file(path@, contents@),
    {
        (JavaScript {  }).parse_test_file(path, contents, patterns)
    }
}

} // verus!
