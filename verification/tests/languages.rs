use react_analyzer::languages::javascript::JavaScript;
use react_analyzer::languages::typescript::TypeScript;
use react_analyzer::languages::unknown::Unknown;
use react_analyzer::languages::{
    get_language, parse_file, parse_test_file, relative_path, Export, FileError, Import, Language,
    LanguageKind, ModuleItem, ParsedFile, TestFile,
};
use react_analyzer::patterns::{accepted, compile_pattern, count_marks, PatternError, TestPatterns};

fn names(list: &[&str]) -> Vec<String> {
    list.iter().map(|n| n.to_string()).collect()
}

fn some(text: &str) -> Option<String> {
    Some(text.to_string())
}

#[test]
fn test_file_name() {
    let js = JavaScript {};
    // Most file names
    assert_eq!(js.get_file_name("/MyTest/component.tsx"), String::from("component"));
    assert_eq!(js.get_file_name("/MyTest/test.spec.js"), String::from("test.spec"));
    // index file names
    assert_eq!(js.get_file_name("/MyComponent/index.jsx"), String::from("MyComponent"));
}

#[test]
fn file_names_at_the_edges() {
    let js = JavaScript {};
    assert_eq!(js.get_file_name("index.js"), "index");
    assert_eq!(js.get_file_name("/index.js"), "index");
    assert_eq!(js.get_file_name("a.b/index.js"), "a");
    assert_eq!(js.get_file_name(".eslintrc"), ".eslintrc");
    assert_eq!(js.get_file_name("README"), "README");
    assert_eq!(js.get_file_name(""), "");
    assert_eq!(js.get_file_name("/"), "");
    assert_eq!(js.get_file_name("a/.."), "");
    assert_eq!(js.get_file_name("src/index.d.ts"), "index.d");
}

#[test]
fn the_language_goes_by_the_extension() {
    assert_eq!(get_language("a/b.js"), Ok(LanguageKind::JavaScript));
    assert_eq!(get_language("a/b.jsx"), Ok(LanguageKind::JavaScript));
    assert_eq!(get_language("a/b.ts"), Ok(LanguageKind::TypeScript));
    assert_eq!(get_language("a/b.test.tsx"), Ok(LanguageKind::TypeScript));
    assert_eq!(get_language("Makefile"), Ok(LanguageKind::Unknown));
    assert_eq!(get_language(".gitignore"), Ok(LanguageKind::Unknown));
    assert_eq!(get_language("a/b.css"), Err(FileError::UnsupportedExtension));
    assert_eq!(get_language("a/b.JS"), Err(FileError::UnsupportedExtension));
    assert_eq!(get_language("a/b."), Err(FileError::UnsupportedExtension));
}

#[test]
fn a_path_is_taken_relative_to_the_root() {
    assert_eq!(relative_path("/repo/src/a.ts", "/repo"), some("src/a.ts"));
    assert_eq!(relative_path("/repo/src/a.ts", "/repo/"), some("src/a.ts"));
    assert_eq!(relative_path("./src/a.ts", "."), some("src/a.ts"));
    assert_eq!(relative_path("src/a.ts", ""), some("src/a.ts"));
    assert_eq!(relative_path("/repo", "/repo"), some(""));
    assert_eq!(relative_path("/repository/a.ts", "/repo"), None);
    assert_eq!(relative_path("src/a.ts", "/repo"), None);
}

#[test]
fn import_clauses_become_imports() {
    let items = vec![
        ModuleItem::ImportNamed {
            specifiers: "a, b as c ,\n  d".to_string(),
            source: some("'./lib'"),
            has_default: false,
        },
        ModuleItem::ImportNamed { specifiers: "x".to_string(), source: some("\"react\""), has_default: true },
        ModuleItem::ImportDefault { source: some("'lodash'") },
        ModuleItem::ImportNamespace { source: None },
    ];
    let path = "src/a.ts".to_string();
    let (imports, exports) = (JavaScript {}).parse_module(&items, &path);
    assert!(exports.is_empty());
    assert_eq!(
        imports,
        vec![
            Import {
                source: "./lib".to_string(),
                file_path: "src/a.ts".to_string(),
                named: names(&["a", "b as c", "d"]),
                is_default: false,
                line: 0,
            },
            Import {
                source: "react".to_string(),
                file_path: "src/a.ts".to_string(),
                named: names(&["x"]),
                is_default: true,
                line: 0,
            },
            Import {
                source: "lodash".to_string(),
                file_path: "src/a.ts".to_string(),
                named: vec![],
                is_default: true,
                line: 0,
            },
            Import {
                source: "".to_string(),
                file_path: "src/a.ts".to_string(),
                named: vec![],
                is_default: true,
                line: 0,
            },
        ]
    );
}

#[test]
fn export_clauses_become_exports() {
    let items = vec![
        ModuleItem::ExportNamedFrom { specifiers: " a , b ".to_string(), source: some("'./x'") },
        ModuleItem::ExportNamed { specifiers: "c".to_string() },
        ModuleItem::ExportFrom { source: some("'./all'") },
        ModuleItem::ExportFrom { source: None },
        ModuleItem::ExportDefault { expression: some("App") },
        ModuleItem::ExportDefault { expression: None },
    ];
    let path = "m.js".to_string();
    let (imports, exports) = (JavaScript {}).parse_module(&items, &path);
    assert!(imports.is_empty());
    let export = |named: &[&str], default: &str, source: &str| Export {
        file_path: "m.js".to_string(),
        line: 0,
        named: names(named),
        default: default.to_string(),
        source: source.to_string(),
    };
    assert_eq!(
        exports,
        vec![
            export(&["a", "b"], "", "'./x'"),
            export(&["c"], "", ""),
            export(&[], "", "'./all'"),
            export(&[], "", ""),
            export(&[], "App", ""),
            export(&[], "", ""),
        ]
    );
}

#[test]
fn an_empty_list_of_specifiers_holds_one_empty_name() {
    let items = vec![ModuleItem::ImportNamed { specifiers: "".to_string(), source: None, has_default: false }];
    let path = "m.js".to_string();
    let (imports, _) = (JavaScript {}).parse_module(&items, &path);
    assert_eq!(imports[0].named, names(&[""]));
    let items = vec![ModuleItem::ExportNamed { specifiers: "a,,b \u{a0}, \t".to_string() }];
    let (_, exports) = (JavaScript {}).parse_module(&items, &path);
    assert_eq!(exports[0].named, names(&["a", "", "b", ""]));
}

#[test]
fn quotation_marks_leave_the_source_wherever_they_stand() {
    let items = vec![ModuleItem::ImportDefault { source: some("\"it's\"") }];
    let path = "m.js".to_string();
    let (imports, _) = (JavaScript {}).parse_module(&items, &path);
    assert_eq!(imports[0].source, "its");
}

#[test]
fn a_script_is_parsed_into_its_facts() {
    let items = vec![
        ModuleItem::ImportNamed { specifiers: "x".to_string(), source: some("'./b'"), has_default: false },
        ModuleItem::ExportDefault { expression: some("x") },
    ];
    let contents = "import {x} from './b'\n\nexport default x\n";
    let parsed = parse_file("/repo/src/Foo/index.tsx", "/repo", contents, &items);
    assert_eq!(
        parsed,
        Ok(ParsedFile {
            line_count: 3,
            imports: vec![Import {
                source: "./b".to_string(),
                file_path: "src/Foo/index.tsx".to_string(),
                named: names(&["x"]),
                is_default: false,
                line: 0,
            }],
            exports: vec![Export {
                file_path: "src/Foo/index.tsx".to_string(),
                line: 0,
                named: vec![],
                default: "x".to_string(),
                source: "".to_string(),
            }],
            name: "Foo".to_string(),
            extension: "tsx".to_string(),
            path: "src/Foo/index.tsx".to_string(),
        })
    );
    assert_eq!((TypeScript {}).parse_file("/repo/src/Foo/index.tsx", "/repo", contents, &items), parsed);
    assert_eq!((JavaScript {}).parse_file("/repo/src/Foo/index.tsx", "/repo", contents, &items), parsed);
}

#[test]
fn a_file_without_extension_keeps_only_its_lines() {
    let items = vec![ModuleItem::ImportDefault { source: some("'x'") }];
    let parsed = parse_file("/repo/Makefile", "/repo", "all:\n\techo\n", &items);
    assert_eq!(
        parsed,
        Ok(ParsedFile {
            line_count: 2,
            imports: vec![],
            exports: vec![],
            name: "Makefile".to_string(),
            extension: "".to_string(),
            path: "Makefile".to_string(),
        })
    );
    assert_eq!((Unknown {}).parse_file("/repo/Makefile", "/repo", "all:\n\techo\n", &items), parsed);
}

#[test]
fn files_that_cannot_be_taken_in_are_refused() {
    assert_eq!(parse_file("/repo/a.css", "/repo", "", &vec![]), Err(FileError::UnsupportedExtension));
    assert_eq!(parse_file("/elsewhere/a.ts", "/repo", "", &vec![]), Err(FileError::OutsideRoot));
    assert_eq!(parse_file("/elsewhere/Makefile", "/repo", "", &vec![]), Err(FileError::OutsideRoot));
    assert_eq!(parse_file("/elsewhere/a.css", "/repo", "", &vec![]), Err(FileError::UnsupportedExtension));
}

#[test]
fn lines_are_counted_as_a_reader_counts_them() {
    let count = |text: &str| parse_file("a.js", "", text, &vec![]).unwrap().line_count;
    assert_eq!(count(""), 0);
    assert_eq!(count("a"), 1);
    assert_eq!(count("a\n"), 1);
    assert_eq!(count("a\nb"), 2);
    assert_eq!(count("a\r\nb\r\n"), 2);
    assert_eq!(count("\n"), 1);
    assert_eq!(count("\n\n\n"), 3);
    assert_eq!(count("a\n\nb\n"), 3);
    for text in ["", "a", "a\n", "a\nb", "\n\n", "x\r\ny\r", "\r\n\r\n", "one\ntwo\nthree"] {
        assert_eq!(count(text), text.lines().count());
    }
}

#[test]
fn tests_and_skipped_tests_are_counted_line_by_line() {
    let patterns = TestPatterns::new().unwrap();
    let lines = [
        "import { sum } from './sum';\n",
        "describe('sum', () => {\n",
        "  test('adds', () => {\n",
        "    expect(sum(1, 2)).toBe(3);\n",
        "  });\n",
        "  it(\"works on zero\", () => {});\n",
        "  test.skip('later', () => {});\n",
        "  it.skip('never', () => {});\n",
        "  test(name, () => {});\n",
        "});\r\n",
        "test('one', f); test('two', g);",
    ];
    let text = lines.join("");
    let contents = text.as_str();
    let parsed = parse_test_file("/repo/src/sum.test.js", contents, &patterns);
    assert_eq!(
        parsed,
        Ok(TestFile {
            line_count: 11,
            name: "sum.test".to_string(),
            path: "/repo/src/sum.test.js".to_string(),
            test_count: 3,
            skipped_test_count: 2,
        })
    );
    assert_eq!((TypeScript {}).parse_test_file("/repo/src/sum.test.js", contents, &patterns), parsed.unwrap());
}

#[test]
fn a_line_is_a_test_only_where_the_pattern_finds_one() {
    let patterns = TestPatterns::new().unwrap();
    assert!(patterns.declares_test("test('a', () => {})"));
    assert!(patterns.declares_test("  it(\"a\", f)"));
    assert!(patterns.declares_test("submit('a', f)"));
    assert!(!patterns.declares_test("test('a')"));
    assert!(!patterns.declares_test("test(a, b)"));
    assert!(!patterns.declares_test(""));
    assert!(!patterns.declares_test("(test|it)"));
    assert!(patterns.declares_skipped_test("test.skip('a', f)"));
    assert!(patterns.declares_skipped_test("it_skip('a', f)"));
    assert!(!patterns.declares_skipped_test("test('a', f)"));
    assert!(!patterns.declares_skipped_test("skip('a', f)"));
}

#[test]
fn marks_are_counted() {
    assert_eq!(count_marks(&vec![]), 0);
    assert_eq!(count_marks(&vec![false, false]), 0);
    assert_eq!(count_marks(&vec![true, false, true, true]), 3);
    let patterns = TestPatterns::new().unwrap();
    let lines: Vec<Vec<char>> =
        ["test('a', f)", "x", "it.skip('b', g)"].iter().map(|l| l.chars().collect()).collect();
    assert_eq!(patterns.mark_lines(&lines), (vec![true, false, false], vec![false, false, true]));
}

#[test]
fn test_files_of_no_script_language_are_refused() {
    let patterns = TestPatterns::new().unwrap();
    assert_eq!(parse_test_file("a.test.css", "", &patterns), Err(FileError::UnsupportedExtension));
    assert_eq!(parse_test_file("Makefile", "", &patterns), Err(FileError::UnsupportedExtension));
    assert_eq!(
        (Unknown {}).parse_test_file("dir/Makefile", "test('a', f)\n", &patterns),
        TestFile {
            line_count: 1,
            name: "Makefile".to_string(),
            path: "dir/Makefile".to_string(),
            test_count: 0,
            skipped_test_count: 0,
        }
    );
}

#[test]
fn a_pattern_that_is_not_well_formed_is_rejected() {
    assert_eq!(compile_pattern("(unclosed").err(), Some(PatternError::Rejected));
    assert_eq!(compile_pattern("a{2,1}").err(), Some(PatternError::Rejected));
    let digits = compile_pattern("^[0-9]+$").unwrap();
    assert!(digits.is_match("2024"));
    assert!(!digits.is_match("20x24"));
}

#[test]
fn what_the_compiler_refuses_is_a_rejection() {
    assert_eq!(accepted(regex::Regex::new("a(")).err(), Some(PatternError::Rejected));
    let kept = accepted(regex::Regex::new("a+b")).unwrap();
    assert_eq!(kept.as_str(), "a+b");
}
