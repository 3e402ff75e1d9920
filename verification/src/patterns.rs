//! Regular expressions, and the two that tell tests from other lines of a
//! test file.

use regex::Regex;
use vstd::prelude::*;
use crate::text::{rows, string_of};

verus! {

/// A compiled pattern of the `regex` crate. It is carried about as it is:
/// nothing is known of what is inside.
#[verifier::external_type_specification]
#[verifier::external_body]
pub struct ExRegex(regex::Regex);

/// The error with which the `regex` crate refuses a pattern. It is carried
/// about as it is.
#[verifier::external_type_specification]
#[verifier::external_body]
pub struct ExRegexError(regex::Error);

/// Whether the compiled pattern matches somewhere in `text`: what
/// `Regex::is_match` answers.
pub uninterp spec fn regex_matches(re: Regex, text: Seq<char>) -> bool;

/// Whether the pattern written as `pattern`, compiled as `Regex::new`
/// compiles it, matches somewhere in `text`.
pub uninterp spec fn pattern_matches(pattern: Seq<char>, text: Seq<char>) -> bool;

/// `Regex::new` compiles the text of a pattern. What the compiled pattern
/// matches depends on that text alone. Nothing is claimed about which texts
/// it accepts.
pub assume_specification[ Regex::new ](re: &str) -> (r: Result<Regex, regex::Error>)
    ensures
        r matches Ok(compiled) ==> forall|text: Seq<char>| #[trigger]
            regex_matches(compiled, text) == pattern_matches(re@, text),
;

/// `Regex::is_match` tells whether the pattern matches anywhere in the text.
/// That depends on the compiled pattern and on the text searched, and on
/// nothing else.
pub assume_specification[ Regex::is_match ](re: &Regex, haystack: &str) -> (r: bool)
    ensures
        r == regex_matches(*re, haystack@),
;

/// The call of a test: `test(` or `it(`, a quoted name, and a comma.
pub open spec fn test_pattern() -> Seq<char> {
    "(test|it)\\(('|\").*('|\"),"@
}

/// The call of a skipped test: `test.skip(` or `it.skip(`, a quoted name, and
/// a comma.
pub open spec fn skipped_pattern() -> Seq<char> {
    "(test.skip|it.skip)\\(('|\").*('|\"),"@
}

/// Why no patterns could be had.
#[derive(Clone, Copy, Debug, PartialEq, Eq)]
pub enum PatternError {
    /// The pattern was not accepted.
    Rejected,
}

/// Which of the lines hold the call of a test.
pub open spec fn test_marks(lines: Seq<Seq<char>>) -> Seq<bool> {
    Seq::new(lines.len(), |i: int| pattern_matches(test_pattern(), lines[i]))
}

/// Which of the lines hold the call of a skipped test.
pub open spec fn skipped_marks(lines: Seq<Seq<char>>) -> Seq<bool> {
    Seq::new(lines.len(), |i: int| pattern_matches(skipped_pattern(), lines[i]))
}

/// How many of the first `n` marks are set.
pub open spec fn count_true(marks: Seq<bool>, n: nat) -> nat
    decreases n,
{
    if n == 0 {
        0
    } else if marks[n - 1] {
        count_true(marks, (n - 1) as nat) + 1
    } else {
        count_true(marks, (n - 1) as nat)
    }
}

/// No more marks are set than there are.
proof fn lemma_count_true_bound(marks: Seq<bool>, n: nat)
    ensures
        count_true(marks, n) <= n,
    decreases n,
{
    if n > 0 {
        lemma_count_true_bound(marks, (n - 1) as nat);
    }
}

/// The number of marks that are set.
pub fn count_marks(marks: &Vec<bool>) -> (count: usize)
    ensures
        count == count_true(marks@, marks.len() as nat),
{
    let mut count: usize = 0;
    let mut i: usize = 0;
    while i < marks.len()
        invariant
            i <= marks.len(),
            count == count_true(marks@, i as nat),
        decreases marks.len() - i,
    {
        proof {
            lemma_count_true_bound(marks@, i as nat);
        }
        if marks[i] {
            count += 1;
        }
        i += 1;
    }
    count
}

/// What came of compiling a pattern, in the terms of this library: the
/// compiled pattern where there is one, and the rejection where there is
/// not.
pub fn accepted(compiled: Result<Regex, regex::Error>) -> (r: Result<Regex, PatternError>)
    ensures
        match compiled {
            Ok(re) => r == Ok::<Regex, PatternError>(re),
            Err(_) => r == Err::<Regex, PatternError>(PatternError::Rejected),
        },
{
    match compiled {
        Ok(re) => Ok(re),
        Err(_) => Err(PatternError::Rejected),
    }
}

/// Compiles the text of a pattern. What the compiled pattern matches depends
/// on that text alone.
pub fn compile_pattern(text: &str) -> (r: Result<Regex, PatternError>)
    ensures
        match r {
            Ok(compiled) => forall|t: Seq<char>| #[trigger]
                regex_matches(compiled, t) == pattern_matches(text@, t),
            Err(e) => e == PatternError::Rejected,
        },
{
    accepted(Regex::new(text))
}

/// The two patterns, compiled once for all files.
pub struct TestPatterns {
    test: Regex,
    skipped: Regex,
}

impl TestPatterns {
    #[verifier::type_invariant]
    spec fn holds_both(self) -> bool {
        &&& forall|text: Seq<char>| #[trigger]
            regex_matches(self.test, text) == pattern_matches(test_pattern(), text)
        &&& forall|text: Seq<char>| #[trigger]
            regex_matches(self.skipped, text) == pattern_matches(skipped_pattern(), text)
    }

    /// Compiles the two patterns: the one for the call of a test, and the one
    /// for the call of a skipped test. Where both are accepted, the result
    /// holds them, each matching what its text says; where one is not, the
    /// result is the rejection.
    pub fn new() -> (r: Result<TestPatterns, PatternError>)
        ensures
            match r {
                Ok(patterns) => patterns.well_formed(),
                Err(e) => e == PatternError::Rejected,
            },
    {
        let test = match compile_pattern("(test|it)\\(('|\").*('|\"),") {
            Ok(re) => re,
            Err(e) => {
                return Err(e);
            },
        };
        let skipped = match compile_pattern("(test.skip|it.skip)\\(('|\").*('|\"),") {
            Ok(re) => re,
            Err(e) => {
                return Err(e);
            },
        };
        Ok(TestPatterns { test, skipped })
    }

    /// The compiled pattern that finds the call of a test.
    pub closed spec fn test_regex(&self) -> Regex {
        self.test
    }

    /// The compiled pattern that finds the call of a skipped test.
    pub closed spec fn skipped_regex(&self) -> Regex {
        self.skipped
    }

    /// The two compiled patterns match what the texts of the two patterns
    /// say: the first the call of a test, the second the call of a skipped
    /// test.
    pub open spec fn well_formed(&self) -> bool {
        &&& forall|text: Seq<char>| #[trigger]
            regex_matches(self.test_regex(), text) == pattern_matches(test_pattern(), text)
        &&& forall|text: Seq<char>| #[trigger]
            regex_matches(self.skipped_regex(), text) == pattern_matches(skipped_pattern(), text)
    }

    /// Whether the line holds the call of a test.
    pub fn declares_test(&self, line: &str) -> (r: bool)
        ensures
            r == pattern_matches(test_pattern(), line@),
    {
        proof {
            use_type_invariant(self);
        }
        self.test.is_match(line)
    }

    /// Whether the line holds the call of a skipped test.
    pub fn declares_skipped_test(&self, line: &str) -> (r: bool)
        ensures
            r == pattern_matches(skipped_pattern(), line@),
    {
        proof {
            use_type_invariant(self);
        }
        self.skipped.is_match(line)
    }

    /// For each line, whether it holds the call of a test, and whether it
    /// holds the call of a skipped test.
    pub fn mark_lines(&self, lines: &Vec<Vec<char>>) -> (r: (Vec<bool>, Vec<bool>))
        ensures
            r.0@ == test_marks(rows(lines@)),
            r.1@ == skipped_marks(rows(lines@)),
    {
        let mut tests: Vec<bool> = Vec::new();
        let mut skipped: Vec<bool> = Vec::new();
        let ghost all = rows(lines@);
        let mut i: usize = 0;
        while i < lines.len()
            invariant
                i <= lines.len(),
                all == rows(lines@),
                tests.len() == i,
                skipped.len() == i,
                forall|j: int| 0 <= j < i ==> tests@[j] == test_marks(all)[j],
                forall|j: int| 0 <= j < i ==> skipped@[j] == skipped_marks(all)[j],
            decreases lines.len() - i,
        {
            assert(all[i as int] == lines@[i as int]@);
            let line = string_of(&lines[i]);
            tests.push(self.declares_test(line.as_str()));
            skipped.push(self.declares_skipped_test(line.as_str()));
            i += 1;
        }
        assert(tests@ =~= test_marks(all));
        assert(skipped@ =~= skipped_marks(all));
        (tests, skipped)
    }
}

} // verus!
