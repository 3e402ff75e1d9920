//! JavaScript files: their imports, their exports, and the tests in them.

use vstd::prelude::*;
use crate::languages::{
    extension_of_path, path_extension, relative_path, relative_to, Export, ExportView, FileError,
    Import, ImportView, Language, ModuleItem, ModuleItemView, ParsedFile, ParsedFileView, TestFile,
    TestFileView,
};
use crate::path_utils::{display_name, file_display_name};
use crate::patterns::{count_marks, count_true, skipped_marks, test_marks, TestPatterns};
use crate::text::{
    chars_of, lemma_views_push, line_count_of, lines_of, pieces, rows, split_lines, split_on,
    string_of, strip_quotes, strs, trim, trimmed, views, without_quotes,
};

verus! {

/// The JavaScript family of languages.
#[derive(Clone, Copy, Debug, PartialEq, Eq)]
pub struct JavaScript {}

/// The names in the text between the braces of a clause: what stands between
/// its commas, without the white space around it.
pub open spec fn names_listed(specifiers: Seq<char>) -> Seq<Seq<char>> {
    Seq::new(pieces(specifiers, ',').len(), |i: int| trimmed(pieces(specifiers, ',')[i]))
}

/// The specifier that a clause imports from: the source without its
/// quotation marks, and empty where the clause has none.
pub open spec fn specifier_of(source: Option<Seq<char>>) -> Seq<char> {
    match source {
        Some(s) => without_quotes(s),
        None => Seq::<char>::empty(),
    }
}

/// What is in an optional text; nothing where there is none.
pub open spec fn text_or_empty(text: Option<Seq<char>>) -> Seq<char> {
    match text {
        Some(s) => s,
        None => Seq::<char>::empty(),
    }
}

/// The import that a clause stands for, if it is an import clause.
pub open spec fn import_of(item: ModuleItemView, file_path: Seq<char>) -> Option<ImportView> {
    match item {
        ModuleItemView::ImportNamed { specifiers, source, has_default } => Some(
            ImportView {
                source: specifier_of(source),
                file_path,
                named: names_listed(specifiers),
                is_default: has_default,
                line: 0,
            },
        ),
        ModuleItemView::ImportDefault { source } => Some(
            ImportView {
                source: specifier_of(source),
                file_path,
                named: Seq::<Seq<char>>::empty(),
                is_default: true,
                line: 0,
            },
        ),
        ModuleItemView::ImportNamespace { source } => Some(
            ImportView {
                source: specifier_of(source),
                file_path,
                named: Seq::<Seq<char>>::empty(),
                is_default: true,
                line: 0,
            },
        ),
        _ => None,
    }
}

/// The export that a clause stands for, if it is an export clause.
pub open spec fn export_of(item: ModuleItemView, file_path: Seq<char>) -> Option<ExportView> {
    match item {
        ModuleItemView::ExportNamedFrom { specifiers, source } => Some(
            ExportView {
                file_path,
                line: 0,
                named: names_listed(specifiers),
                default: Seq::<char>::empty(),
                source: text_or_empty(source),
            },
        ),
        ModuleItemView::ExportNamed { specifiers } => Some(
            ExportView {
                file_path,
                line: 0,
                named: names_listed(specifiers),
                default: Seq::<char>::empty(),
                source: Seq::<char>::empty(),
            },
        ),
        ModuleItemView::ExportFrom { source } => Some(
            ExportView {
                file_path,
                line: 0,
                named: Seq::<Seq<char>>::empty(),
                default: Seq::<char>::empty(),
                source: text_or_empty(source),
            },
        ),
        ModuleItemView::ExportDefault { expression } => Some(
            ExportView {
                file_path,
                line: 0,
                named: Seq::<Seq<char>>::empty(),
                default: text_or_empty(expression),
                source: Seq::<char>::empty(),
            },
        ),
        _ => None,
    }
}

/// The imports among the first `n` clauses, in order.
pub open spec fn imports_among(items: Seq<ModuleItemView>, file_path: Seq<char>, n: nat) -> Seq<
    ImportView,
>
    decreases n,
{
    if n == 0 {
        Seq::<ImportView>::empty()
    } else {
        match import_of(items[n - 1], file_path) {
            Some(import) => imports_among(items, file_path, (n - 1) as nat).push(import),
            None => imports_among(items, file_path, (n - 1) as nat),
        }
    }
}

/// The exports among the first `n` clauses, in order.
pub open spec fn exports_among(items: Seq<ModuleItemView>, file_path: Seq<char>, n: nat) -> Seq<
    ExportView,
>
    decreases n,
{
    if n == 0 {
        Seq::<ExportView>::empty()
    } else {
        match export_of(items[n - 1], file_path) {
            Some(export) => exports_among(items, file_path, (n - 1) as nat).push(export),
            None => exports_among(items, file_path, (n - 1) as nat),
        }
    }
}

/// What is known of a script below `root` once it has been read.
pub open spec fn script_file(
    path: Seq<char>,
    root: Seq<char>,
    contents: Seq<char>,
    items: Seq<ModuleItemView>,
) -> ParsedFileView {
    ParsedFileView {
        line_count: line_count_of(contents) as usize,
        imports: imports_among(items, relative_to(path, root), items.len()),
        exports: exports_among(items, relative_to(path, root), items.len()),
        name: display_name(path),
        extension: text_or_empty(path_extension(path)),
        path: relative_to(path, root),
    }
}

/// What is known of a test script once its tests have been counted.
pub open spec fn script_test_file(path: Seq<char>, contents: Seq<char>) -> TestFileView {
    TestFileView {
        line_count: line_count_of(contents) as usize,
        name: display_name(path),
        path,
        test_count: count_true(test_marks(lines_of(contents)), lines_of(contents).len()) as usize,
        skipped_test_count: count_true(
            skipped_marks(lines_of(contents)),
            lines_of(contents).len(),
        ) as usize,
    }
}

/// The names in the text between the braces of a clause.
fn list_names(specifiers: &String) -> (names: Vec<String>)
    ensures
        strs(names@) == names_listed(specifiers@),
{
    let chars = chars_of(specifiers.as_str());
    let parts = split_on(&chars, ',');
    let ghost all = rows(parts@);
    let mut names: Vec<String> = Vec::new();
    let mut i: usize = 0;
    while i < parts.len()
        invariant
            i <= parts.len(),
            all == rows(parts@),
            all == pieces(specifiers@, ','),
            names.len() == i,
            forall|j: int| 0 <= j < i ==> (#[trigger] names@[j])@ == trimmed(all[j]),
        decreases parts.len() - i,
    {
        assert(all[i as int] == parts@[i as int]@);
        let name = trim(&parts[i]);
        names.push(string_of(&name));
        i += 1;
    }
    assert(strs(names@) =~= names_listed(specifiers@));
    names
}

/// The specifier that a clause imports from.
fn specifier(source: &Option<String>) -> (out: String)
    ensures
        out@ == specifier_of(crate::text::opt_str(*source)),
{
    match source {
        Some(s) => {
            let chars = chars_of(s.as_str());
            let plain = strip_quotes(&chars);
            string_of(&plain)
        },
        None => String::new(),
    }
}

/// A copy of an optional text; empty where there is none.
fn or_empty(text: &Option<String>) -> (out: String)
    ensures
        out@ == text_or_empty(crate::text::opt_str(*text)),
{
    match text {
        Some(s) => s.clone(),
        None => String::new(),
    }
}

/// An empty list of names.
fn no_names() -> (names: Vec<String>)
    ensures
        strs(names@) == Seq::<Seq<char>>::empty(),
{
    let names: Vec<String> = Vec::new();
    assert(strs(names@) =~= Seq::<Seq<char>>::empty());
    names
}

impl JavaScript {
    /// The name under which the file at `path` is shown: its name without
    /// the extension, and the name of its directory where the file is the
    /// directory's entry file (`index`).
    pub fn get_file_name(&self, path: &str) -> (name: String)
        ensures
            name@ == display_name(path@),
    {
        let name = file_display_name(path);
        string_of(&name)
    }

    /// The imports and exports of the module at `file_path`, one for each
    /// import or export clause that a parser found in it, in their order.
    pub fn parse_module(&self, items: &Vec<ModuleItem>, file_path: &String) -> (r: (
        Vec<Import>,
        Vec<Export>,
    ))
        ensures
            views(r.0@) == imports_among(views(items@), file_path@, items.len() as nat),
            views(r.1@) == exports_among(views(items@), file_path@, items.len() as nat),
    {
        let mut imports: Vec<Import> = Vec::new();
        let mut exports: Vec<Export> = Vec::new();
        let ghost all = views(items@);
        let mut i: usize = 0;
        assert(views(imports@) =~= imports_among(all, file_path@, 0));
        assert(views(exports@) =~= exports_among(all, file_path@, 0));
        while i < items.len()
            invariant
                i <= items.len(),
                all == views(items@),
                views(imports@) == imports_among(all, file_path@, i as nat),
                views(exports@) == exports_among(all, file_path@, i as nat),
            decreases items.len() - i,
        {
            assert(all[i as int] == items@[i as int]@);
            let ghost imports_before = imports@;
            let ghost exports_before = exports@;
            match &items[i] {
                ModuleItem::ImportNamed { specifiers, source, has_default } => {
                    let import = Import {
                        source: specifier(source),
                        file_path: file_path.clone(),
                        named: list_names(specifiers),
                        is_default: *has_default,
                        line: 0,
                    };
                    imports.push(import);
                    proof {
                        lemma_views_push(imports_before, import);
                    }
                },
                ModuleItem::ImportDefault { source } => {
                    let import = Import {
                        source: specifier(source),
                        file_path: file_path.clone(),
                        named: no_names(),
                        is_default: true,
                        line: 0,
                    };
                    imports.push(import);
                    proof {
                        lemma_views_push(imports_before, import);
                    }
                },
                ModuleItem::ImportNamespace { source } => {
                    let import = Import {
                        source: specifier(source),
                        file_path: file_path.clone(),
                        named: no_names(),
                        is_default: true,
                        line: 0,
                    };
                    imports.push(import);
                    proof {
                        lemma_views_push(imports_before, import);
                    }
                },
                ModuleItem::ExportNamedFrom { specifiers, source } => {
                    let export = Export {
                        file_path: file_path.clone(),
                        line: 0,
                        named: list_names(specifiers),
                        default: String::new(),
                        source: or_empty(source),
                    };
                    exports.push(export);
                    proof {
                        lemma_views_push(exports_before, export);
                    }
                },
                ModuleItem::ExportNamed { specifiers } => {
                    let export = Export {
                        file_path: file_path.clone(),
                        line: 0,
                        named: list_names(specifiers),
                        default: String::new(),
                        source: String::new(),
                    };
                    exports.push(export);
                    proof {
                        lemma_views_push(exports_before, export);
                    }
                },
                ModuleItem::ExportFrom { source } => {
                    let export = Export {
                        file_path: file_path.clone(),
                        line: 0,
                        named: no_names(),
                        default: String::new(),
                        source: or_empty(source),
                    };
                    exports.push(export);
                    proof {
                        lemma_views_push(exports_before, export);
                    }
                },
                ModuleItem::ExportDefault { expression } => {
                    let export = Export {
                        file_path: file_path.clone(),
                        line: 0,
                        named: no_names(),
                        default: or_empty(expression),
                        source: String::new(),
                    };
                    exports.push(export);
                    proof {
                        lemma_views_push(exports_before, export);
                    }
                },
            }
            i += 1;
        }
        (imports, exports)
    }
}

impl Language for JavaScript {
    /// The facts of a script: its lines, its imports and exports, the name
    /// under which it is shown, its extension, and its path below the root.
    fn parse_file(
        &self,
        path: &str,
        root_prefix: &str,
        contents: &str,
        items: &Vec<ModuleItem>,
    ) -> (r: Result<ParsedFile, FileError>)
        ensures
            r matches Ok(file) ==> file@ == script_file(
                path@,
                root_prefix@,
                contents@,
                views(items@),
            ),
    {
        let file_path = match relative_path(path, root_prefix) {
            Some(p) => p,
            None => {
                return Err(FileError::OutsideRoot);
            },
        };
        let (imports, exports) = self.parse_module(items, &file_path);
        let lines = split_lines(contents);
        let extension = match extension_of_path(path) {
            Some(e) => string_of(&e),
            None => String::new(),
        };
        Ok(
            ParsedFile {
                line_count: lines.len(),
                imports,
                exports,
                name: self.get_file_name(path),
                extension,
                path: file_path,
            },
        )
    }

    /// The counts of a test script: its lines, and how many of them hold the
    /// call of a test, and of a skipped test.
    fn parse_test_file(&self, path: &str, contents: &str, patterns: &TestPatterns) -> (r: TestFile)
        ensures
            r@ == script_test_file(path@, contents@),
    {
        let lines = split_lines(contents);
        let (tests, skipped) = patterns.mark_lines(&lines);
        TestFile {
            line_count: lines.len(),
            name: self.get_file_name(path),
            path: string_of(&chars_of(path)),
            test_count: count_marks(&tests),
            skipped_test_count: count_marks(&skipped),
        }
    }
}

} // verus!
