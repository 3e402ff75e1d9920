//! Character sequences: the form in which paths and import specifiers are
//! taken apart and put together again.

use vstd::prelude::*;

verus! {

/// `String::push` appends the given character to the end of the string and
/// leaves the characters before it as they were.
pub assume_specification[ String::push ](s: &mut String, ch: char)
    ensures
        final(s)@ == old(s)@.push(ch),
;

/// What a vector of character vectors holds, row by row.
pub open spec fn rows(v: Seq<Vec<char>>) -> Seq<Seq<char>> {
    Seq::new(v.len(), |i: int| v[i]@)
}

/// What a vector of strings holds, string by string.
pub open spec fn strs(v: Seq<String>) -> Seq<Seq<char>> {
    Seq::new(v.len(), |i: int| v[i]@)
}

/// The views of the elements of a sequence.
pub open spec fn views<T: View>(v: Seq<T>) -> Seq<T::V> {
    Seq::new(v.len(), |i: int| v[i]@)
}

/// The views of a sequence with one more element.
pub proof fn lemma_views_push<T: View>(v: Seq<T>, x: T)
    ensures
        views(v.push(x)) == views(v).push(x@),
{
    assert(views(v.push(x)) =~= views(v).push(x@));
}

/// What an optional string holds.
pub open spec fn opt_str(s: Option<String>) -> Option<Seq<char>> {
    match s {
        Some(t) => Some(t@),
        None => None,
    }
}

/// The rows of a sequence with one more vector.
pub proof fn lemma_rows_push(v: Seq<Vec<char>>, x: Vec<char>)
    ensures
        rows(v.push(x)) == rows(v).push(x@),
{
    assert(rows(v.push(x)) =~= rows(v).push(x@));
}

/// The rows of a sequence without its last vector.
pub proof fn lemma_rows_drop_last(v: Seq<Vec<char>>)
    requires
        v.len() > 0,
    ensures
        rows(v.drop_last()) == rows(v).drop_last(),
{
    assert(rows(v.drop_last()) =~= rows(v).drop_last());
}

/// The strings of a sequence with one more string.
pub proof fn lemma_strs_push(v: Seq<String>, x: String)
    ensures
        strs(v.push(x)) == strs(v).push(x@),
{
    assert(strs(v.push(x)) =~= strs(v).push(x@));
}

/// A copy of an optional string.
pub fn copy_opt_str(s: &Option<String>) -> (out: Option<String>)
    ensures
        opt_str(out) == opt_str(*s),
{
    match s {
        Some(t) => Some(t.clone()),
        None => None,
    }
}

/// The characters of `s`, in order.
pub fn chars_of(s: &str) -> (out: Vec<char>)
    ensures
        out@ == s@,
{
    let mut out: Vec<char> = Vec::new();
    for c in it: s.chars()
        invariant
            it.seq() == s@,
            out@ == it.seq().take(it.index()),
    {
        out.push(c);
        assert(it.seq().take(it.index() + 1) =~= it.seq().take(it.index()).push(c));
    }
    assert(out@ =~= s@);
    out
}

/// The string made of the characters of `v`, in order.
pub fn string_of(v: &Vec<char>) -> (out: String)
    ensures
        out@ == v@,
{
    let mut out = String::new();
    let mut i: usize = 0;
    while i < v.len()
        invariant
            i <= v.len(),
            out@ == v@.take(i as int),
        decreases v.len() - i,
    {
        out.push(v[i]);
        assert(v@.take(i + 1) =~= v@.take(i as int).push(v@[i as int]));
        i += 1;
    }
    assert(v@.take(v.len() as int) =~= v@);
    out
}

/// A fresh vector with the characters of `v`.
pub fn copy_chars(v: &Vec<char>) -> (out: Vec<char>)
    ensures
        out@ == v@,
{
    let mut out: Vec<char> = Vec::new();
    let mut i: usize = 0;
    while i < v.len()
        invariant
            i <= v.len(),
            out@ == v@.take(i as int),
        decreases v.len() - i,
    {
        out.push(v[i]);
        assert(v@.take(i + 1) =~= v@.take(i as int).push(v@[i as int]));
        i += 1;
    }
    assert(v@.take(v.len() as int) =~= v@);
    out
}

/// Whether `a` and `b` hold the same characters.
pub fn same_chars(a: &Vec<char>, b: &Vec<char>) -> (r: bool)
    ensures
        r == (a@ == b@),
{
    if a.len() != b.len() {
        return false;
    }
    let mut i: usize = 0;
    while i < a.len()
        invariant
            i <= a.len(),
            a.len() == b.len(),
            a@.take(i as int) == b@.take(i as int),
        decreases a.len() - i,
    {
        if a[i] != b[i] {
            return false;
        }
        assert(a@.take(i + 1) =~= a@.take(i as int).push(a@[i as int]));
        assert(b@.take(i + 1) =~= b@.take(i as int).push(b@[i as int]));
        i += 1;
    }
    assert(a@.take(a.len() as int) =~= a@);
    assert(b@.take(b.len() as int) =~= b@);
    true
}

/// Whether `s` begins with the characters of `prefix`.
pub fn begins_with(s: &Vec<char>, prefix: &Vec<char>) -> (r: bool)
    ensures
        r == prefix@.is_prefix_of(s@),
{
    if prefix.len() > s.len() {
        return false;
    }
    let mut i: usize = 0;
    while i < prefix.len()
        invariant
            i <= prefix.len(),
            prefix.len() <= s.len(),
            prefix@.take(i as int) == s@.take(i as int),
        decreases prefix.len() - i,
    {
        if prefix[i] != s[i] {
            assert(prefix@[i as int] != s@.subrange(0, prefix@.len() as int)[i as int]);
            return false;
        }
        assert(prefix@.take(i + 1) =~= prefix@.take(i as int).push(prefix@[i as int]));
        assert(s@.take(i + 1) =~= s@.take(i as int).push(s@[i as int]));
        i += 1;
    }
    assert(prefix@.take(prefix.len() as int) =~= prefix@);
    assert(s@.take(prefix.len() as int) =~= s@.subrange(0, prefix@.len() as int));
    true
}

/// The character of a decimal digit.
pub open spec fn digit_char(d: nat) -> char {
    if d == 0 {
        '0'
    } else if d == 1 {
        '1'
    } else if d == 2 {
        '2'
    } else if d == 3 {
        '3'
    } else if d == 4 {
        '4'
    } else if d == 5 {
        '5'
    } else if d == 6 {
        '6'
    } else if d == 7 {
        '7'
    } else if d == 8 {
        '8'
    } else {
        '9'
    }
}

/// The decimal digits of a number, the most significant first, without
/// leading zeros.
pub open spec fn decimal(n: nat) -> Seq<char>
    decreases n,
{
    if n < 10 {
        seq![digit_char(n)]
    } else {
        decimal(n / 10).push(digit_char(n % 10))
    }
}

/// The character of a decimal digit.
fn digit(d: usize) -> (c: char)
    requires
        d < 10,
    ensures
        c == digit_char(d as nat),
{
    if d == 0 {
        '0'
    } else if d == 1 {
        '1'
    } else if d == 2 {
        '2'
    } else if d == 3 {
        '3'
    } else if d == 4 {
        '4'
    } else if d == 5 {
        '5'
    } else if d == 6 {
        '6'
    } else if d == 7 {
        '7'
    } else if d == 8 {
        '8'
    } else {
        '9'
    }
}

/// Appends the decimal digits of `n` to `out`.
pub fn push_decimal(out: &mut String, n: usize)
    ensures
        final(out)@ == old(out)@ + decimal(n as nat),
{
    let mut low: Vec<char> = Vec::new();
    let mut rest: usize = n;
    // `low` holds the digits below `rest`, the least significant first
    while rest >= 10
        invariant
            decimal(n as nat) == decimal(rest as nat) + low@.reverse(),
        decreases rest,
    {
        let c = digit(rest % 10);
        let ghost before = low@;
        low.push(c);
        proof {
            assert(low@.reverse() =~= seq![c] + before.reverse());
            assert(decimal(rest as nat) == decimal((rest / 10) as nat).push(c));
            assert(decimal((rest / 10) as nat).push(c) + before.reverse() =~= decimal(
                (rest / 10) as nat,
            ) + low@.reverse());
        }
        rest = rest / 10;
    }
    let first = digit(rest);
    out.push(first);
    let ghost base = out@;
    let mut k: usize = low.len();
    assert(low@.reverse().take(0) =~= Seq::<char>::empty());
    assert(out@ =~= base + low@.reverse().take(0));
    while k > 0
        invariant
            k <= low.len(),
            out@ == base + low@.reverse().take(low.len() - k),
        decreases k,
    {
        k -= 1;
        out.push(low[k]);
        proof {
            let r = low@.reverse();
            let i = low.len() - k - 1;
            assert(r[i] == low@[k as int]);
            assert(r.take(i + 1) =~= r.take(i).push(r[i]));
            assert(out@ =~= base + r.take(i + 1));
        }
    }
    proof {
        let r = low@.reverse();
        assert(r.take(low.len() as int) =~= r);
        assert(decimal(rest as nat) == seq![first]);
        assert(out@ =~= old(out)@ + decimal(n as nat));
    }
}

/// The pieces of `s` between the occurrences of `sep`, empty pieces
/// included. There is always at least one piece.
pub open spec fn pieces(s: Seq<char>, sep: char) -> Seq<Seq<char>>
    decreases s.len(),
{
    if s.len() == 0 {
        seq![Seq::<char>::empty()]
    } else {
        let before = pieces(s.drop_last(), sep);
        if s.last() == sep {
            before.push(Seq::<char>::empty())
        } else {
            before.drop_last().push(before.last().push(s.last()))
        }
    }
}

/// There is at least one piece.
pub proof fn lemma_pieces_nonempty(s: Seq<char>, sep: char)
    ensures
        pieces(s, sep).len() > 0,
    decreases s.len(),
{
    if s.len() > 0 {
        lemma_pieces_nonempty(s.drop_last(), sep);
    }
}

/// Splits the characters at each occurrence of `sep`.
pub fn split_on(chars: &Vec<char>, sep: char) -> (out: Vec<Vec<char>>)
    ensures
        rows(out@) == pieces(chars@, sep),
{
    let mut out: Vec<Vec<char>> = Vec::new();
    let mut cur: Vec<char> = Vec::new();
    let mut i: usize = 0;
    proof {
        assert(chars@.take(0) =~= Seq::<char>::empty());
        assert(pieces(chars@.take(0), sep).drop_last() =~= Seq::<Seq<char>>::empty());
        assert(rows(out@) =~= pieces(chars@.take(0), sep).drop_last());
    }
    while i < chars.len()
        invariant
            i <= chars.len(),
            rows(out@) == pieces(chars@.take(i as int), sep).drop_last(),
            cur@ == pieces(chars@.take(i as int), sep).last(),
        decreases chars.len() - i,
    {
        let c = chars[i];
        proof {
            let s0 = chars@.take(i as int);
            let s1 = chars@.take(i + 1);
            assert(s1.drop_last() =~= s0);
            assert(s1.last() == c);
            lemma_pieces_nonempty(s0, sep);
            assert(pieces(s0, sep) =~= pieces(s0, sep).drop_last().push(pieces(s0, sep).last()));
        }
        if c == sep {
            let ghost before = out@;
            out.push(cur);
            proof {
                lemma_rows_push(before, cur);
                let s0 = chars@.take(i as int);
                let s1 = chars@.take(i + 1);
                assert(pieces(s1, sep) == pieces(s0, sep).push(Seq::<char>::empty()));
                assert(pieces(s1, sep).drop_last() =~= pieces(s0, sep));
            }
            cur = Vec::new();
        } else {
            cur.push(c);
            proof {
                let s0 = chars@.take(i as int);
                let s1 = chars@.take(i + 1);
                assert(pieces(s1, sep).drop_last() =~= pieces(s0, sep).drop_last());
            }
        }
        i += 1;
    }
    let ghost before = out@;
    out.push(cur);
    proof {
        assert(chars@.take(chars.len() as int) =~= chars@);
        lemma_pieces_nonempty(chars@, sep);
        lemma_rows_push(before, cur);
        assert(rows(out@) =~= pieces(chars@, sep));
    }
    out
}

/// Whether the character is white space: a blank, a tab or line break, or
/// one of the other separators that Unicode counts as white space.
pub open spec fn is_space(c: char) -> bool {
    let u = c as u32;
    ||| 0x09 <= u <= 0x0D
    ||| u == 0x20
    ||| u == 0x85
    ||| u == 0xA0
    ||| u == 0x1680
    ||| 0x2000 <= u <= 0x200A
    ||| u == 0x2028
    ||| u == 0x2029
    ||| u == 0x202F
    ||| u == 0x205F
    ||| u == 0x3000
}

/// The position of the first character at or behind `i` that is no white
/// space; the length of the text where there is none.
pub open spec fn first_kept(s: Seq<char>, i: nat) -> nat
    decreases s.len() - i,
{
    if i < s.len() && is_space(s[i as int]) {
        first_kept(s, i + 1)
    } else {
        i
    }
}

/// The position behind the last character before `n` that is no white
/// space; 0 where there is none.
pub open spec fn end_kept(s: Seq<char>, n: nat) -> nat
    decreases n,
{
    if n > 0 && is_space(s[n - 1]) {
        end_kept(s, (n - 1) as nat)
    } else {
        n
    }
}

/// The text without the white space that it begins and ends with.
pub open spec fn trimmed(s: Seq<char>) -> Seq<char> {
    if first_kept(s, 0) < end_kept(s, s.len()) {
        s.subrange(first_kept(s, 0) as int, end_kept(s, s.len()) as int)
    } else {
        Seq::<char>::empty()
    }
}

/// Whether the character is a quotation mark, single or double.
pub open spec fn is_quote(c: char) -> bool {
    c == '\'' || c == '"'
}

/// The text without its quotation marks.
pub open spec fn without_quotes(s: Seq<char>) -> Seq<char>
    decreases s.len(),
{
    if s.len() == 0 {
        Seq::<char>::empty()
    } else if is_quote(s.last()) {
        without_quotes(s.drop_last())
    } else {
        without_quotes(s.drop_last()).push(s.last())
    }
}

/// The line without the carriage return that it may end in.
pub open spec fn without_return(line: Seq<char>) -> Seq<char> {
    if line.len() > 0 && line.last() == '\r' {
        line.drop_last()
    } else {
        line
    }
}

/// The number of lines of a text: one for each line break, and one more for
/// what follows the last line break, unless nothing does.
pub open spec fn line_count_of(s: Seq<char>) -> nat {
    if pieces(s, '\n').last().len() == 0 {
        (pieces(s, '\n').len() - 1) as nat
    } else {
        pieces(s, '\n').len()
    }
}

/// The lines of a text. A line ends with a line break, which is no part of
/// it, nor is a carriage return in front of the line break. What follows the
/// last line break is a line unless it is empty.
pub open spec fn lines_of(s: Seq<char>) -> Seq<Seq<char>> {
    Seq::new(
        line_count_of(s),
        |i: int|
            if i < pieces(s, '\n').len() - 1 {
                without_return(pieces(s, '\n')[i])
            } else {
                pieces(s, '\n')[i]
            },
    )
}

/// Whether the character is white space.
pub fn is_space_char(c: char) -> (r: bool)
    ensures
        r == is_space(c),
{
    let u: u32 = c as u32;
    (0x09 <= u && u <= 0x0D) || u == 0x20 || u == 0x85 || u == 0xA0 || u == 0x1680 || (0x2000 <= u
        && u <= 0x200A) || u == 0x2028 || u == 0x2029 || u == 0x202F || u == 0x205F || u == 0x3000
}

/// The characters without the white space that they begin and end with.
pub fn trim(s: &Vec<char>) -> (out: Vec<char>)
    ensures
        out@ == trimmed(s@),
{
    let mut a: usize = 0;
    while a < s.len() && is_space_char(s[a])
        invariant
            a <= s.len(),
            first_kept(s@, 0) == first_kept(s@, a as nat),
        decreases s.len() - a,
    {
        a += 1;
    }
    let mut b: usize = s.len();
    while b > 0 && is_space_char(s[b - 1])
        invariant
            b <= s.len(),
            end_kept(s@, s@.len()) == end_kept(s@, b as nat),
        decreases b,
    {
        b -= 1;
    }
    let mut out: Vec<char> = Vec::new();
    if a < b {
        let mut i: usize = a;
        assert(out@ =~= s@.subrange(a as int, i as int));
        while i < b
            invariant
                a <= i <= b <= s.len(),
                out@ == s@.subrange(a as int, i as int),
            decreases b - i,
        {
            out.push(s[i]);
            assert(s@.subrange(a as int, i + 1) =~= s@.subrange(a as int, i as int).push(
                s@[i as int],
            ));
            i += 1;
        }
    }
    out
}

/// The characters without the quotation marks among them.
pub fn strip_quotes(s: &Vec<char>) -> (out: Vec<char>)
    ensures
        out@ == without_quotes(s@),
{
    let mut out: Vec<char> = Vec::new();
    let mut i: usize = 0;
    assert(s@.take(0) =~= Seq::<char>::empty());
    while i < s.len()
        invariant
            i <= s.len(),
            out@ == without_quotes(s@.take(i as int)),
        decreases s.len() - i,
    {
        let c = s[i];
        proof {
            assert(s@.take(i + 1).drop_last() =~= s@.take(i as int));
            assert(s@.take(i + 1).last() == c);
        }
        if c != '\'' && c != '"' {
            out.push(c);
        }
        i += 1;
    }
    assert(s@.take(s.len() as int) =~= s@);
    out
}

/// The lines of a text.
pub fn split_lines(text: &str) -> (out: Vec<Vec<char>>)
    ensures
        rows(out@) == lines_of(text@),
        out.len() == line_count_of(text@),
{
    let chars = chars_of(text);
    let raw = split_on(&chars, '\n');
    let ghost all = rows(raw@);
    proof {
        lemma_pieces_nonempty(chars@, '\n');
    }
    let n = raw.len();
    let count = if raw[n - 1].len() == 0 {
        n - 1
    } else {
        n
    };
    let mut out: Vec<Vec<char>> = Vec::new();
    let mut i: usize = 0;
    while i < count
        invariant
            i <= count,
            n == raw.len(),
            count == line_count_of(chars@),
            all == rows(raw@),
            all == pieces(chars@, '\n'),
            out.len() == i,
            forall|j: int| 0 <= j < i ==> (#[trigger] out@[j])@ == lines_of(chars@)[j],
        decreases count - i,
    {
        assert(all[i as int] == raw@[i as int]@);
        let mut line = copy_chars(&raw[i]);
        if i < n - 1 && line.len() > 0 && line[line.len() - 1] == '\r' {
            line.pop();
        }
        out.push(line);
        i += 1;
    }
    assert(rows(out@) =~= lines_of(chars@));
    out
}

} // verus!
