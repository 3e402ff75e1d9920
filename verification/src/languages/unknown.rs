//! Files of no known language: only their lines are counted.

use vstd::prelude::*;
use crate::languages::{
    extension_of_path, path_extension, relative_path, relative_to, FileError, Language, ModuleItem,
    ParsedFile, ParsedFileView, TestFile, TestFileView,
};
use crate::languages::javascript::text_or_empty;
use crate::languages::{ExportView, ImportView};
use crate::path_utils::{components, ends_in_file_name, file_name_of, split_components};
use crate::patterns::TestPatterns;
use crate::text::{chars_of, line_count_of, split_lines, string_of};

verus! {

/// A file of no known language.
#[derive(Clone, Copy, Debug, PartialEq, Eq)]
pub struct Unknown {}

/// The name of the file that the path ends in, with its extension; empty
/// where the path ends in no file name.
pub open spec fn plain_name(path: Seq<char>) -> Seq<char> {
    text_or_empty(file_name_of(components(path)))
}

/// What is known of a file of no known language below `root`: its lines, its
/// name and its place, and no import or export.
pub open spec fn plain_file(path: Seq<char>, root: Seq<char>, contents: Seq<char>)
    -> ParsedFileView {
    ParsedFileView {
        line_count: line_count_of(contents) as usize,
        imports: Seq::<ImportView>::empty(),
        exports: Seq::<ExportView>::empty(),
        name: plain_name(path),
        extension: text_or_empty(path_extension(path)),
        path: relative_to(path, root),
    }
}

/// What is known of a test file of no known language: its lines, and no
/// test.
pub open spec fn plain_test_file(path: Seq<char>, contents: Seq<char>) -> TestFileView {
    TestFileView {
        line_count: line_count_of(contents) as usize,
        name: plain_name(path),
        path,
        test_count: 0,
        skipped_test_count: 0,
    }
}

/// The name of the file that the path ends in, with its extension.
fn file_name(path: &str) -> (name: String)
    ensures
        name@ == plain_name(path@),
{
    let comps = split_components(path);
    if ends_in_file_name(&comps) {
        string_of(&comps[comps.len() - 1])
    } else {
        String::new()
    }
}

impl Language for Unknown {
    fn parse_file(
        &self,
        path: &str,
        root_prefix: &str,
        contents: &str,
        items: &Vec<ModuleItem>,
    ) -> (r: Result<ParsedFile, FileError>)
        ensures
            r matches Ok(file) ==> file@ == plain_file(path@, root_prefix@, contents@),
    {
        let file_path = match relative_path(path, root_prefix) {
            Some(p) => p,
            None => {
                return Err(FileError::OutsideRoot);
            },
        };
        let lines = split_lines(contents);
        let extension = match extension_of_path(path) {
            Some(e) => string_of(&e),
            None => String::new(),
        };
        let file = ParsedFile {
            line_count: lines.len(),
            imports: Vec::new(),
            exports: Vec::new(),
            name: file_name(path),
            extension,
            path: file_path,
        };
        assert(file@.imports =~= Seq::<ImportView>::empty());
        assert(file@.exports =~= Seq::<ExportView>::empty());
        Ok(file)
    }

    fn parse_test_file(&self, path: &str, contents: &str, patterns: &TestPatterns) -> (r: TestFile)
        ensures
            r@ == plain_test_file(path@, contents@),
    {
        let lines = split_lines(contents);
        TestFile {
            line_count: lines.len(),
            name: file_name(path),
            path: string_of(&chars_of(path)),
            test_count: 0,
            skipped_test_count: 0,
        }
    }
}

} // verus!
