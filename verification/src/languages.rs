//! What is known of one source file once it has been read: its imports, its
//! exports and its size.

pub mod javascript;
pub mod typescript;
pub mod unknown;

use vstd::prelude::*;
use crate::languages::javascript::JavaScript;
use crate::languages::typescript::TypeScript;
use crate::languages::unknown::Unknown;
use crate::path_utils::{
    begins_with_components, components, ends_in_file_name, extension, extension_of, file_name_of,
    render, rendered, split_components,
};
use crate::patterns::TestPatterns;
use crate::text::{
    copy_chars, lemma_rows_push, line_count_of, opt_str, rows, string_of, strs, views,
};

verus! {

/// One import clause of a file.
#[derive(Clone, Debug, PartialEq, Eq)]
pub struct Import {
    /// The specifier as written: relative, aliased, or the name of a package.
    pub source: String,
    /// The path of the importing file.
    pub file_path: String,
    /// The names bound by the clause.
    pub named: Vec<String>,
    /// Whether the clause binds the default export.
    pub is_default: bool,
    pub line: usize,
}

/// An import as a value of the model.
pub struct ImportView {
    pub source: Seq<char>,
    pub file_path: Seq<char>,
    pub named: Seq<Seq<char>>,
    pub is_default: bool,
    pub line: usize,
}

impl View for Import {
    type V = ImportView;

    open spec fn view(&self) -> ImportView {
        ImportView {
            source: self.source@,
            file_path: self.file_path@,
            named: strs(self.named@),
            is_default: self.is_default,
            line: self.line,
        }
    }
}

/// One export clause of a file. A `source` that is not empty marks a
/// re-export from another file.
#[derive(Clone, Debug, PartialEq, Eq)]
pub struct Export {
    pub file_path: String,
    pub line: usize,
    pub named: Vec<String>,
    pub default: String,
    pub source: String,
}

/// An export as a value of the model.
pub struct ExportView {
    pub file_path: Seq<char>,
    pub line: usize,
    pub named: Seq<Seq<char>>,
    pub default: Seq<char>,
    pub source: Seq<char>,
}

impl View for Export {
    type V = ExportView;

    open spec fn view(&self) -> ExportView {
        ExportView {
            file_path: self.file_path@,
            line: self.line,
            named: strs(self.named@),
            default: self.default@,
            source: self.source@,
        }
    }
}

/// A source file after parsing.
#[derive(Clone, Debug, PartialEq, Eq)]
pub struct ParsedFile {
    pub line_count: usize,
    pub imports: Vec<Import>,
    pub exports: Vec<Export>,
    /// The name under which the file is shown.
    pub name: String,
    pub extension: String,
    /// The path of the file below the project root.
    pub path: String,
}

/// A parsed file as a value of the model.
pub struct ParsedFileView {
    pub line_count: usize,
    pub imports: Seq<ImportView>,
    pub exports: Seq<ExportView>,
    pub name: Seq<char>,
    pub extension: Seq<char>,
    pub path: Seq<char>,
}

impl View for ParsedFile {
    type V = ParsedFileView;

    open spec fn view(&self) -> ParsedFileView {
        ParsedFileView {
            line_count: self.line_count,
            imports: views(self.imports@),
            exports: views(self.exports@),
            name: self.name@,
            extension: self.extension@,
            path: self.path@,
        }
    }
}

/// A test file after counting.
#[derive(Clone, Debug, PartialEq, Eq)]
pub struct TestFile {
    pub line_count: usize,
    pub name: String,
    pub path: String,
    pub test_count: usize,
    pub skipped_test_count: usize,
}

/// A test file as a value of the model.
pub struct TestFileView {
    pub line_count: usize,
    pub name: Seq<char>,
    pub path: Seq<char>,
    pub test_count: usize,
    pub skipped_test_count: usize,
}

impl View for TestFile {
    type V = TestFileView;

    open spec fn view(&self) -> TestFileView {
        TestFileView {
            line_count: self.line_count,
            name: self.name@,
            path: self.path@,
            test_count: self.test_count,
            skipped_test_count: self.skipped_test_count,
        }
    }
}

/// One import or export clause of a module, as a parser hands it over: the
/// kind of the clause, and the text of the parts that matter.
#[derive(Clone, Debug, PartialEq, Eq)]
pub enum ModuleItem {
    /// `import d, {a, b} from 'x'`: the text between the braces, the quoted
    /// source, and whether a default binding stands in front.
    ImportNamed { specifiers: String, source: Option<String>, has_default: bool },
    /// `import d from 'x'`
    ImportDefault { source: Option<String> },
    /// `import * as n from 'x'`
    ImportNamespace { source: Option<String> },
    /// `export {a, b} from 'x'`
    ExportNamedFrom { specifiers: String, source: Option<String> },
    /// `export {a, b}`
    ExportNamed { specifiers: String },
    /// `export * from 'x'`
    ExportFrom { source: Option<String> },
    /// `export default e`
    ExportDefault { expression: Option<String> },
}

/// A clause as a value of the model.
pub enum ModuleItemView {
    ImportNamed { specifiers: Seq<char>, source: Option<Seq<char>>, has_default: bool },
    ImportDefault { source: Option<Seq<char>> },
    ImportNamespace { source: Option<Seq<char>> },
    ExportNamedFrom { specifiers: Seq<char>, source: Option<Seq<char>> },
    ExportNamed { specifiers: Seq<char> },
    ExportFrom { source: Option<Seq<char>> },
    ExportDefault { expression: Option<Seq<char>> },
}

impl View for ModuleItem {
    type V = ModuleItemView;

    open spec fn view(&self) -> ModuleItemView {
        match self {
            ModuleItem::ImportNamed { specifiers, source, has_default } => {
                ModuleItemView::ImportNamed {
                    specifiers: specifiers@,
                    source: opt_str(*source),
                    has_default: *has_default,
                }
            },
            ModuleItem::ImportDefault { source } => ModuleItemView::ImportDefault {
                source: opt_str(*source),
            },
            ModuleItem::ImportNamespace { source } => ModuleItemView::ImportNamespace {
                source: opt_str(*source),
            },
            ModuleItem::ExportNamedFrom { specifiers, source } => ModuleItemView::ExportNamedFrom {
                specifiers: specifiers@,
                source: opt_str(*source),
            },
            ModuleItem::ExportNamed { specifiers } => ModuleItemView::ExportNamed {
                specifiers: specifiers@,
            },
            ModuleItem::ExportFrom { source } => ModuleItemView::ExportFrom {
                source: opt_str(*source),
            },
            ModuleItem::ExportDefault { expression } => ModuleItemView::ExportDefault {
                expression: opt_str(*expression),
            },
        }
    }
}

/// Why a file could not be taken in.
#[derive(Clone, Copy, Debug, PartialEq, Eq)]
pub enum FileError {
    /// The file does not lie below the project root.
    OutsideRoot,
    /// No language is known for the file's extension.
    UnsupportedExtension,
}

/// The languages that a file can be read as.
#[derive(Clone, Copy, Debug, PartialEq, Eq)]
pub enum LanguageKind {
    JavaScript,
    TypeScript,
    /// A file without extension: only its lines are counted.
    Unknown,
}

/// The extension of the file that the path ends in, if it has one.
pub open spec fn path_extension(path: Seq<char>) -> Option<Seq<char>> {
    match file_name_of(components(path)) {
        Some(name) => extension_of(name),
        None => None,
    }
}

/// The language of the file at `path`, by its extension; none where the
/// extension is not known.
pub open spec fn language_of(path: Seq<char>) -> Option<LanguageKind> {
    match path_extension(path) {
        None => Some(LanguageKind::Unknown),
        Some(e) => if e == seq!['j', 's'] || e == seq!['j', 's', 'x'] {
            Some(LanguageKind::JavaScript)
        } else if e == seq!['t', 's'] || e == seq!['t', 's', 'x'] {
            Some(LanguageKind::TypeScript)
        } else {
            None
        },
    }
}

/// Whether the file at `path` lies in or below `root`.
pub open spec fn is_below(path: Seq<char>, root: Seq<char>) -> bool {
    components(root).is_prefix_of(components(path))
}

/// The path of a file below `root`, seen from there.
pub open spec fn relative_to(path: Seq<char>, root: Seq<char>) -> Seq<char> {
    rendered(components(path).skip(components(root).len() as int))
}

/// The extension of the file at `path`; none where it has none.
pub fn extension_of_path(path: &str) -> (ext: Option<Vec<char>>)
    ensures
        match ext {
            Some(e) => path_extension(path@) == Some(e@),
            None => path_extension(path@) is None,
        },
{
    let comps = split_components(path);
    if ends_in_file_name(&comps) {
        extension(&comps[comps.len() - 1])
    } else {
        None
    }
}

/// The language that the file at `path` is read as: by its extension
/// JavaScript (`js`, `jsx`) or TypeScript (`ts`, `tsx`), and none in
/// particular where it has no extension. Any other extension is refused.
pub fn get_language(path: &str) -> (r: Result<LanguageKind, FileError>)
    ensures
        match r {
            Ok(kind) => language_of(path@) == Some(kind),
            Err(e) => language_of(path@) is None && e == FileError::UnsupportedExtension,
        },
{
    match extension_of_path(path) {
        None => Ok(LanguageKind::Unknown),
        Some(e) => {
            let n = e.len();
            if n == 2 && e[0] == 'j' && e[1] == 's' {
                assert(e@ =~= seq!['j', 's']);
                Ok(LanguageKind::JavaScript)
            } else if n == 3 && e[0] == 'j' && e[1] == 's' && e[2] == 'x' {
                assert(e@ =~= seq!['j', 's', 'x']);
                Ok(LanguageKind::JavaScript)
            } else if n == 2 && e[0] == 't' && e[1] == 's' {
                assert(e@ =~= seq!['t', 's']);
                Ok(LanguageKind::TypeScript)
            } else if n == 3 && e[0] == 't' && e[1] == 's' && e[2] == 'x' {
                assert(e@ =~= seq!['t', 's', 'x']);
                Ok(LanguageKind::TypeScript)
            } else {
                proof {
                    let js = seq!['j', 's'];
                    let jsx = seq!['j', 's', 'x'];
                    let ts = seq!['t', 's'];
                    let tsx = seq!['t', 's', 'x'];
                    if e@ == js {
                        assert(e@[0] == js[0] && e@[1] == js[1]);
                    }
                    if e@ == jsx {
                        assert(e@[0] == jsx[0] && e@[1] == jsx[1] && e@[2] == jsx[2]);
                    }
                    if e@ == ts {
                        assert(e@[0] == ts[0] && e@[1] == ts[1]);
                    }
                    if e@ == tsx {
                        assert(e@[0] == tsx[0] && e@[1] == tsx[1] && e@[2] == tsx[2]);
                    }
                }
                Err(FileError::UnsupportedExtension)
            }
        },
    }
}

/// The path of the file seen from `root`; none where the file does not lie
/// in or below `root`.
pub fn relative_path(path: &str, root: &str) -> (r: Option<String>)
    ensures
        match r {
            Some(p) => is_below(path@, root@) && p@ == relative_to(path@, root@),
            None => !is_below(path@, root@),
        },
{
    let comps = split_components(path);
    let base = split_components(root);
    if !begins_with_components(&comps, &base) {
        return None;
    }
    let mut rest: Vec<Vec<char>> = Vec::new();
    let mut k: usize = base.len();
    let ghost all = rows(comps@);
    assert(rows(rest@) =~= all.subrange(base.len() as int, k as int));
    while k < comps.len()
        invariant
            base.len() <= k <= comps.len(),
            all == rows(comps@),
            rows(rest@) == all.subrange(base.len() as int, k as int),
        decreases comps.len() - k,
    {
        let ghost before = rest@;
        let name = copy_chars(&comps[k]);
        rest.push(name);
        proof {
            lemma_rows_push(before, name);
            assert(all.subrange(base.len() as int, k + 1) =~= all.subrange(
                base.len() as int,
                k as int,
            ).push(all[k as int]));
        }
        k += 1;
    }
    assert(all.subrange(base.len() as int, comps.len() as int) =~= all.skip(base.len() as int));
    let text = render(&rest);
    Some(string_of(&text))
}

/// What every language says of a file once it has been read.
pub trait Language {
    /// The facts of the source file at `path`, which lies below
    /// `root_prefix`, holds the text `contents`, and of which a parser found
    /// the clauses `items`.
    fn parse_file(
        &self,
        path: &str,
        root_prefix: &str,
        contents: &str,
        items: &Vec<ModuleItem>,
    ) -> (r: Result<ParsedFile, FileError>)
        ensures
            match r {
                Ok(file) => {
                    &&& is_below(path@, root_prefix@)
                    &&& file@.path == relative_to(path@, root_prefix@)
                    &&& file@.line_count == line_count_of(contents@)
                },
                Err(e) => !is_below(path@, root_prefix@) && e == FileError::OutsideRoot,
            },
    ;

    /// The counts of the test file at `path`, which holds the text
    /// `contents`.
    fn parse_test_file(&self, path: &str, contents: &str, patterns: &TestPatterns) -> (r: TestFile)
        ensures
            r@.path == path@,
            r@.line_count == line_count_of(contents@),
    ;
}

/// Reads a source file as the language that its extension calls for.
pub fn parse_file(path: &str, prefix: &str, contents: &str, items: &Vec<ModuleItem>) -> (r: Result<
    ParsedFile,
    FileError,
>)
    ensures
        match r {
            Ok(file) => {
                &&& language_of(path@) is Some
                &&& is_below(path@, prefix@)
                &&& file@ == match language_of(path@) {
                    Some(LanguageKind::Unknown) => unknown::plain_file(path@, prefix@, contents@),
                    _ => javascript::script_file(path@, prefix@, contents@, views(items@)),
                }
            },
            Err(e) => e == if language_of(path@) is None {
                FileError::UnsupportedExtension
            } else {
                FileError::OutsideRoot
            } && (language_of(path@) is None || !is_below(path@, prefix@)),
        },
{
    match get_language(path) {
        Ok(LanguageKind::JavaScript) => (JavaScript {  }).parse_file(path, prefix, contents, items),
        Ok(LanguageKind::TypeScript) => (TypeScript {  }).parse_file(path, prefix, contents, items),
        Ok(LanguageKind::Unknown) => (Unknown {  }).parse_file(path, prefix, contents, items),
        Err(e) => Err(e),
    }
}

/// Reads a test file as the language that its extension calls for. A file
/// without extension is refused, as is one with an extension that is not
/// known.
pub fn parse_test_file(path: &str, contents: &str, patterns: &TestPatterns) -> (r: Result<
    TestFile,
    FileError,
>)
    ensures
        match r {
            Ok(file) => {
                &&& language_of(path@) == Some(LanguageKind::JavaScript) || language_of(path@)
                    == Some(LanguageKind::TypeScript)
                &&& file@ == javascript::script_test_file(path@, contents@)
            },
            Err(e) => {
                &&& e == FileError::UnsupportedExtension
                &&& language_of(path@) is None || language_of(path@) == Some(LanguageKind::Unknown)
            },
        },
{
    match get_language(path) {
        Ok(LanguageKind::JavaScript) => Ok((JavaScript {  }).parse_test_file(path, contents, patterns)),
        Ok(LanguageKind::TypeScript) => Ok((TypeScript {  }).parse_test_file(path, contents, patterns)),
        Ok(LanguageKind::Unknown) => Err(FileError::UnsupportedExtension),
        Err(e) => Err(e),
    }
}

} // verus!
