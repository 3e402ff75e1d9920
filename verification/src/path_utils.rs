//! Paths as sequences of components.
//!
//! A path is text in which `/` separates the pieces. Its components are the
//! root (`/`, when the text begins with a separator), a leading `.`, and every
//! piece that is neither empty nor `.`. All rules of this module are lexical:
//! nothing here looks at a file system.

use vstd::prelude::*;
use crate::path_laws::lemma_distance_closed_form;
use crate::text::{
    chars_of, copy_chars, lemma_pieces_nonempty, lemma_rows_drop_last, lemma_rows_push, pieces, rows,
    same_chars, split_on,
};

verus! {

/// The root component.
pub open spec fn root_name() -> Seq<char> {
    seq!['/']
}

/// The component that stands for the current directory.
pub open spec fn dot_name() -> Seq<char> {
    seq!['.']
}

/// The component that stands for the parent directory.
pub open spec fn dotdot_name() -> Seq<char> {
    seq!['.', '.']
}

/// The pieces of `s` between its separators, empty pieces included. There is
/// always at least one piece.
pub open spec fn segments(s: Seq<char>) -> Seq<Seq<char>> {
    pieces(s, '/')
}

/// A piece that names something: not empty and not `.`.
pub open spec fn is_named(seg: Seq<char>) -> bool {
    seg.len() > 0 && seg != dot_name()
}

/// The pieces among `segs` that name something, in order.
pub open spec fn names_kept(segs: Seq<Seq<char>>) -> Seq<Seq<char>>
    decreases segs.len(),
{
    if segs.len() == 0 {
        Seq::<Seq<char>>::empty()
    } else if is_named(segs.last()) {
        names_kept(segs.drop_last()).push(segs.last())
    } else {
        names_kept(segs.drop_last())
    }
}

/// Whether the text begins at the root.
pub open spec fn has_root(s: Seq<char>) -> bool {
    s.len() > 0 && s[0] == '/'
}

/// Whether the first piece of the text is `.`.
pub open spec fn has_leading_dot(s: Seq<char>) -> bool {
    s.len() > 0 && s[0] == '.' && (s.len() == 1 || s[1] == '/')
}

/// What stands before the named pieces: the root, a leading `.`, or nothing.
pub open spec fn lead(s: Seq<char>) -> Seq<Seq<char>> {
    if has_root(s) {
        seq![root_name()]
    } else if has_leading_dot(s) {
        seq![dot_name()]
    } else {
        Seq::<Seq<char>>::empty()
    }
}

/// The components of the path written as `s`.
pub open spec fn components(s: Seq<char>) -> Seq<Seq<char>> {
    lead(s) + names_kept(segments(s))
}

/// The buffer after `name` was pushed onto it: a name that begins at the root
/// replaces the buffer, any other is appended behind a separator, which is
/// left out where the buffer is empty or ends in one.
pub open spec fn pushed(buf: Seq<char>, name: Seq<char>) -> Seq<char> {
    if has_root(name) {
        name
    } else if buf.len() == 0 || buf.last() == '/' {
        buf + name
    } else {
        buf.push('/') + name
    }
}

/// The text of a sequence of components: each pushed in turn onto an empty
/// buffer.
pub open spec fn rendered(comps: Seq<Seq<char>>) -> Seq<char>
    decreases comps.len(),
{
    if comps.len() == 0 {
        Seq::<char>::empty()
    } else {
        pushed(rendered(comps.drop_last()), comps.last())
    }
}

/// The components without their last one. The root is never taken away, and
/// nothing is taken from an empty path.
pub open spec fn popped(comps: Seq<Seq<char>>) -> Seq<Seq<char>> {
    if comps.len() == 0 || comps.last() == root_name() {
        comps
    } else {
        comps.drop_last()
    }
}

/// The components of a path that is taken relative to another: the second
/// alone where it begins at the root; else the second behind the first,
/// without the `.` that it may begin with unless the first is empty.
pub open spec fn joined(base: Seq<Seq<char>>, path: Seq<Seq<char>>) -> Seq<Seq<char>> {
    if path.len() > 0 && path[0] == root_name() {
        path
    } else if base.len() > 0 && path.len() > 0 && path[0] == dot_name() {
        base + path.skip(1)
    } else {
        base + path
    }
}

/// The components that are left when each `.` is dropped, each `..` takes away
/// the component before it, and a root starts over.
pub open spec fn normalized(comps: Seq<Seq<char>>) -> Seq<Seq<char>>
    decreases comps.len(),
{
    if comps.len() == 0 {
        Seq::<Seq<char>>::empty()
    } else {
        let before = normalized(comps.drop_last());
        let c = comps.last();
        if c == root_name() {
            seq![root_name()]
        } else if c == dot_name() {
            before
        } else if c == dotdot_name() {
            popped(before)
        } else {
            before.push(c)
        }
    }
}

/// The normal form of the path written as `s`.
pub open spec fn normal_form(s: Seq<char>) -> Seq<char> {
    rendered(normalized(components(s)))
}

/// The number of steps between two sequences of components: none where they
/// are equal; else one step that takes the last component from the longer of
/// the two, from the second where neither is longer, and the steps that are
/// left after it.
pub open spec fn distance(a: Seq<Seq<char>>, b: Seq<Seq<char>>) -> nat
    decreases a.len() + b.len(),
{
    if a == b {
        0
    } else if a.len() > b.len() {
        1 + distance(a.drop_last(), b)
    } else if b.len() > 0 {
        1 + distance(a, b.drop_last())
    } else {
        0
    }
}

/// The distance between the paths written as `a` and `b`.
pub open spec fn path_distance_of(a: Seq<char>, b: Seq<char>) -> nat {
    distance(components(a), components(b))
}

/// The first position from `i` on at which `a` and `b` differ or one of them
/// ends.
pub open spec fn shared_from(a: Seq<Seq<char>>, b: Seq<Seq<char>>, i: nat) -> nat
    decreases a.len() - i,
{
    if i < a.len() && i < b.len() && a[i as int] == b[i as int] {
        shared_from(a, b, i + 1)
    } else {
        i
    }
}

/// The number of leading components that `a` and `b` have in common.
pub open spec fn shared(a: Seq<Seq<char>>, b: Seq<Seq<char>>) -> nat {
    shared_from(a, b, 0)
}

/// The name of the file or directory that the components end in; none where
/// they are empty or end in the root, `.` or `..`.
pub open spec fn file_name_of(comps: Seq<Seq<char>>) -> Option<Seq<char>> {
    if comps.len() > 0 && comps.last() != root_name() && comps.last() != dot_name() && comps.last()
        != dotdot_name() {
        Some(comps.last())
    } else {
        None
    }
}

/// The position of the last `.` in `name`, or -1.
pub open spec fn last_dot(name: Seq<char>) -> int
    decreases name.len(),
{
    if name.len() == 0 {
        -1
    } else if name.last() == '.' {
        name.len() - 1
    } else {
        last_dot(name.drop_last())
    }
}

/// The name without its extension. A name whose only `.` is its first
/// character has no extension.
pub open spec fn stem_of(name: Seq<char>) -> Seq<char> {
    if last_dot(name) <= 0 {
        name
    } else {
        name.take(last_dot(name))
    }
}

/// What follows the last `.` of the name, where that `.` is not its first
/// character.
pub open spec fn extension_of(name: Seq<char>) -> Option<Seq<char>> {
    if last_dot(name) <= 0 {
        None
    } else {
        Some(name.skip(last_dot(name) + 1))
    }
}

/// The name with `ext` in place of its extension; with none where `ext` is
/// empty.
pub open spec fn renamed(name: Seq<char>, ext: Seq<char>) -> Seq<char> {
    if ext.len() == 0 {
        stem_of(name)
    } else {
        stem_of(name).push('.') + ext
    }
}

/// The components with the extension of their file name replaced. Where they
/// end in no file name they stay as they are.
pub open spec fn with_extension(comps: Seq<Seq<char>>, ext: Seq<char>) -> Seq<Seq<char>> {
    match file_name_of(comps) {
        Some(name) => comps.drop_last().push(renamed(name, ext)),
        None => comps,
    }
}

/// The stem that stands for a directory's entry file.
pub open spec fn index_stem() -> Seq<char> {
    seq!['i', 'n', 'd', 'e', 'x']
}

/// Whether the components end in a file whose stem is `index`.
pub open spec fn is_index_file(comps: Seq<Seq<char>>) -> bool {
    match file_name_of(comps) {
        Some(name) => stem_of(name) == index_stem(),
        None => false,
    }
}

/// The name under which a file is shown: its stem, or the stem of its
/// directory where the file is the directory's entry file and the directory
/// has a name. Empty where the path ends in no file name.
pub open spec fn display_name(s: Seq<char>) -> Seq<char> {
    let comps = components(s);
    match file_name_of(comps) {
        None => Seq::<char>::empty(),
        Some(name) => if stem_of(name) == index_stem() {
            match file_name_of(comps.drop_last()) {
                Some(dir) => stem_of(dir),
                None => stem_of(name),
            }
        } else {
            stem_of(name)
        },
    }
}

/// There is at least one piece.
pub proof fn lemma_segments_nonempty(s: Seq<char>)
    ensures
        segments(s).len() > 0,
{
    lemma_pieces_nonempty(s, '/');
}

/// Whether the piece names something.
fn is_named_piece(seg: &Vec<char>) -> (r: bool)
    ensures
        r == is_named(seg@),
{
    if seg.len() == 0 {
        false
    } else if seg.len() == 1 && seg[0] == '.' {
        assert(seg@ =~= dot_name());
        false
    } else {
        if seg.len() == 1 {
            assert(seg@[0] != dot_name()[0]);
        }
        true
    }
}

/// Whether the component is the root.
fn is_root_piece(seg: &Vec<char>) -> (r: bool)
    ensures
        r == (seg@ == root_name()),
{
    if seg.len() == 1 && seg[0] == '/' {
        assert(seg@ =~= root_name());
        true
    } else {
        if seg.len() == 1 {
            assert(seg@[0] != root_name()[0]);
        }
        false
    }
}

/// Whether the component is `.`.
fn is_dot_piece(seg: &Vec<char>) -> (r: bool)
    ensures
        r == (seg@ == dot_name()),
{
    if seg.len() == 1 && seg[0] == '.' {
        assert(seg@ =~= dot_name());
        true
    } else {
        if seg.len() == 1 {
            assert(seg@[0] != dot_name()[0]);
        }
        false
    }
}

/// Whether the component is `..`.
fn is_dotdot_piece(seg: &Vec<char>) -> (r: bool)
    ensures
        r == (seg@ == dotdot_name()),
{
    if seg.len() == 2 && seg[0] == '.' && seg[1] == '.' {
        assert(seg@ =~= dotdot_name());
        true
    } else {
        if seg.len() == 2 {
            assert(seg@[0] != dotdot_name()[0] || seg@[1] != dotdot_name()[1]);
        }
        false
    }
}

/// Takes the text of a path apart into its components.
pub fn split_components(path: &str) -> (out: Vec<Vec<char>>)
    ensures
        rows(out@) == components(path@),
{
    let chars = chars_of(path);
    split_chars(&chars)
}

/// Takes the characters of a path apart into its components.
pub fn split_chars(chars: &Vec<char>) -> (out: Vec<Vec<char>>)
    ensures
        rows(out@) == components(chars@),
{
    let n = chars.len();
    let mut out: Vec<Vec<char>> = Vec::new();
    if n > 0 && chars[0] == '/' {
        let mut root: Vec<char> = Vec::new();
        root.push('/');
        assert(root@ =~= root_name());
        out.push(root);
    } else if n > 0 && chars[0] == '.' && (n == 1 || chars[1] == '/') {
        let mut dot: Vec<char> = Vec::new();
        dot.push('.');
        assert(dot@ =~= dot_name());
        out.push(dot);
    }
    assert(rows(out@) =~= lead(chars@));
    let segs = split_on(chars, '/');
    let ghost all = rows(segs@);
    let mut k: usize = 0;
    proof {
        assert(all.take(0) =~= Seq::<Seq<char>>::empty());
        assert(rows(out@) =~= lead(chars@) + names_kept(all.take(0)));
    }
    while k < segs.len()
        invariant
            k <= segs.len(),
            all == rows(segs@),
            rows(out@) == lead(chars@) + names_kept(all.take(k as int)),
        decreases segs.len() - k,
    {
        proof {
            assert(all.take(k + 1).drop_last() =~= all.take(k as int));
            assert(all.take(k + 1).last() == segs@[k as int]@);
        }
        if is_named_piece(&segs[k]) {
            let ghost before = out@;
            let name = copy_chars(&segs[k]);
            out.push(name);
            proof {
                lemma_rows_push(before, name);
                assert(rows(out@) =~= lead(chars@) + names_kept(all.take(k + 1)));
            }
        }
        k += 1;
    }
    assert(all.take(segs.len() as int) =~= all);
    out
}

/// Pushes one component onto the text of a path.
pub fn push_component(buf: &mut Vec<char>, name: &Vec<char>)
    ensures
        final(buf)@ == pushed(old(buf)@, name@),
{
    if name.len() > 0 && name[0] == '/' {
        *buf = copy_chars(name);
    } else {
        if buf.len() > 0 && buf[buf.len() - 1] != '/' {
            buf.push('/');
        }
        let ghost base = buf@;
        let mut j: usize = 0;
        assert(buf@ =~= base + name@.take(0));
        while j < name.len()
            invariant
                j <= name.len(),
                buf@ == base + name@.take(j as int),
            decreases name.len() - j,
        {
            buf.push(name[j]);
            assert(name@.take(j + 1) =~= name@.take(j as int).push(name@[j as int]));
            assert(buf@ =~= base + name@.take(j + 1));
            j += 1;
        }
        assert(name@.take(name.len() as int) =~= name@);
    }
}

/// Writes a sequence of components as text.
pub fn render(comps: &Vec<Vec<char>>) -> (out: Vec<char>)
    ensures
        out@ == rendered(rows(comps@)),
{
    let mut out: Vec<char> = Vec::new();
    let mut k: usize = 0;
    proof {
        assert(rows(comps@).take(0) =~= Seq::<Seq<char>>::empty());
    }
    while k < comps.len()
        invariant
            k <= comps.len(),
            out@ == rendered(rows(comps@).take(k as int)),
        decreases comps.len() - k,
    {
        proof {
            let all = rows(comps@);
            assert(all.take(k + 1).drop_last() =~= all.take(k as int));
            assert(all.take(k + 1).last() == comps@[k as int]@);
        }
        push_component(&mut out, &comps[k]);
        k += 1;
    }
    assert(rows(comps@).take(comps.len() as int) =~= rows(comps@));
    out
}

/// Drops each `.`, lets each `..` take away the component before it, and
/// starts over at a root.
pub fn normalize_components(comps: &Vec<Vec<char>>) -> (out: Vec<Vec<char>>)
    ensures
        rows(out@) == normalized(rows(comps@)),
{
    let mut out: Vec<Vec<char>> = Vec::new();
    let mut k: usize = 0;
    proof {
        assert(rows(comps@).take(0) =~= Seq::<Seq<char>>::empty());
        assert(rows(out@) =~= Seq::<Seq<char>>::empty());
    }
    while k < comps.len()
        invariant
            k <= comps.len(),
            rows(out@) == normalized(rows(comps@).take(k as int)),
        decreases comps.len() - k,
    {
        let name = &comps[k];
        proof {
            let all = rows(comps@);
            assert(all.take(k + 1).drop_last() =~= all.take(k as int));
            assert(all.take(k + 1).last() == name@);
        }
        if is_root_piece(name) {
            out = Vec::new();
            out.push(copy_chars(name));
            assert(rows(out@) =~= seq![root_name()]);
        } else if is_dot_piece(name) {
            // dropped
        } else if is_dotdot_piece(name) {
            pop_component(&mut out);
        } else {
            let ghost before = out@;
            let copy = copy_chars(name);
            out.push(copy);
            proof {
                lemma_rows_push(before, copy);
            }
        }
        k += 1;
    }
    assert(rows(comps@).take(comps.len() as int) =~= rows(comps@));
    out
}

/// The text of a path in normal form.
pub fn normalize_text(path: &str) -> (out: Vec<char>)
    ensures
        out@ == normal_form(path@),
{
    let comps = split_components(path);
    let plain = normalize_components(&comps);
    render(&plain)
}

/// The position of the last `.` in the name.
fn find_last_dot(name: &Vec<char>) -> (r: Option<usize>)
    ensures
        match r {
            Some(d) => d as int == last_dot(name@) && d < name.len(),
            None => last_dot(name@) == -1,
        },
{
    let mut n: usize = name.len();
    assert(name@.take(n as int) =~= name@);
    while n > 0
        invariant
            n <= name.len(),
            last_dot(name@) == last_dot(name@.take(n as int)),
        decreases n,
    {
        assert(name@.take(n as int).drop_last() =~= name@.take(n - 1));
        if name[n - 1] == '.' {
            return Some(n - 1);
        }
        n -= 1;
    }
    None
}

/// The first `n` characters.
fn take_chars(v: &Vec<char>, n: usize) -> (out: Vec<char>)
    requires
        n <= v.len(),
    ensures
        out@ == v@.take(n as int),
{
    let mut out: Vec<char> = Vec::new();
    let mut i: usize = 0;
    while i < n
        invariant
            i <= n <= v.len(),
            out@ == v@.take(i as int),
        decreases n - i,
    {
        out.push(v[i]);
        assert(v@.take(i + 1) =~= v@.take(i as int).push(v@[i as int]));
        i += 1;
    }
    out
}

/// The characters behind the first `n`.
fn skip_chars(v: &Vec<char>, n: usize) -> (out: Vec<char>)
    requires
        n <= v.len(),
    ensures
        out@ == v@.skip(n as int),
{
    let mut out: Vec<char> = Vec::new();
    let mut i: usize = n;
    while i < v.len()
        invariant
            n <= i <= v.len(),
            out@ == v@.subrange(n as int, i as int),
        decreases v.len() - i,
    {
        out.push(v[i]);
        assert(v@.subrange(n as int, i + 1) =~= v@.subrange(n as int, i as int).push(v@[i as int]));
        i += 1;
    }
    assert(v@.subrange(n as int, v.len() as int) =~= v@.skip(n as int));
    out
}

/// The name without its extension.
pub fn stem(name: &Vec<char>) -> (out: Vec<char>)
    ensures
        out@ == stem_of(name@),
{
    match find_last_dot(name) {
        Some(d) => if d == 0 {
            copy_chars(name)
        } else {
            take_chars(name, d)
        },
        None => copy_chars(name),
    }
}

/// The extension of the name, if it has one.
pub fn extension(name: &Vec<char>) -> (out: Option<Vec<char>>)
    ensures
        match out {
            Some(e) => extension_of(name@) == Some(e@),
            None => extension_of(name@) is None,
        },
{
    match find_last_dot(name) {
        Some(d) => if d == 0 {
            None
        } else {
            Some(skip_chars(name, d + 1))
        },
        None => None,
    }
}

/// Whether the components end in a file name.
pub fn ends_in_file_name(comps: &Vec<Vec<char>>) -> (r: bool)
    ensures
        r == file_name_of(rows(comps@)) is Some,
        r ==> comps.len() > 0 && file_name_of(rows(comps@)) == Some(comps@[comps.len() - 1]@),
{
    if comps.len() == 0 {
        false
    } else {
        let name = &comps[comps.len() - 1];
        !is_root_piece(name) && !is_dot_piece(name) && !is_dotdot_piece(name)
    }
}

/// Whether the characters spell `index`.
fn is_index_stem(v: &Vec<char>) -> (r: bool)
    ensures
        r == (v@ == index_stem()),
{
    if v.len() == 5 && v[0] == 'i' && v[1] == 'n' && v[2] == 'd' && v[3] == 'e' && v[4] == 'x' {
        assert(v@ =~= index_stem());
        true
    } else {
        if v.len() == 5 {
            assert(v@[0] != index_stem()[0] || v@[1] != index_stem()[1] || v@[2] != index_stem()[2]
                || v@[3] != index_stem()[3] || v@[4] != index_stem()[4]);
        }
        false
    }
}

/// Whether the components end in a file whose stem is `index`.
pub fn ends_in_index_file(comps: &Vec<Vec<char>>) -> (r: bool)
    ensures
        r == is_index_file(rows(comps@)),
{
    if ends_in_file_name(comps) {
        let st = stem(&comps[comps.len() - 1]);
        is_index_stem(&st)
    } else {
        false
    }
}

/// The number of leading components that `a` and `b` have in common.
pub fn shared_len(a: &Vec<Vec<char>>, b: &Vec<Vec<char>>) -> (n: usize)
    ensures
        n == shared(rows(a@), rows(b@)),
        n <= a.len(),
        n <= b.len(),
{
    let mut i: usize = 0;
    while i < a.len() && i < b.len() && same_chars(&a[i], &b[i])
        invariant
            i <= a.len(),
            i <= b.len(),
            shared(rows(a@), rows(b@)) == shared_from(rows(a@), rows(b@), i as nat),
        decreases a.len() - i,
    {
        i += 1;
    }
    i
}

/// The number of directories between two paths: the steps that bring both to
/// the components they have in common, a step taking the last component from
/// one of them.
pub fn path_distance(path_a: &str, path_b: &str) -> (d: usize)
    requires
        path_distance_of(path_a@, path_b@) <= usize::MAX,
    ensures
        d == path_distance_of(path_a@, path_b@),
{
    let a = split_components(path_a);
    let b = split_components(path_b);
    let n = shared_len(&a, &b);
    proof {
        lemma_distance_closed_form(rows(a@), rows(b@));
    }
    (a.len() - n) + (b.len() - n)
}

/// The name under which the file at `path` is shown.
pub fn file_display_name(path: &str) -> (out: Vec<char>)
    ensures
        out@ == display_name(path@),
{
    let mut comps = split_components(path);
    if !ends_in_file_name(&comps) {
        return Vec::new();
    }
    let own = stem(&comps[comps.len() - 1]);
    if is_index_stem(&own) {
        let ghost before = comps@;
        comps.pop();
        proof {
            lemma_rows_drop_last(before);
        }
        if ends_in_file_name(&comps) {
            return stem(&comps[comps.len() - 1]);
        }
    }
    own
}

/// Replaces the extension of the file name that the components end in.
pub fn set_extension(comps: &mut Vec<Vec<char>>, ext: &Vec<char>)
    ensures
        rows(final(comps)@) == with_extension(rows(old(comps)@), ext@),
{
    if ends_in_file_name(comps) {
        let ghost before = comps@;
        let mut name = stem(&comps[comps.len() - 1]);
        if ext.len() > 0 {
            name.push('.');
            let ghost base = name@;
            let mut j: usize = 0;
            while j < ext.len()
                invariant
                    j <= ext.len(),
                    name@ == base + ext@.take(j as int),
                decreases ext.len() - j,
            {
                name.push(ext[j]);
                assert(ext@.take(j + 1) =~= ext@.take(j as int).push(ext@[j as int]));
                assert(name@ =~= base + ext@.take(j + 1));
                j += 1;
            }
            assert(ext@.take(ext.len() as int) =~= ext@);
        }
        comps.pop();
        let ghost mid = comps@;
        comps.push(name);
        proof {
            lemma_rows_drop_last(before);
            lemma_rows_push(mid, name);
        }
    }
}

/// Takes the last component away, unless it is the root.
pub fn pop_component(comps: &mut Vec<Vec<char>>)
    ensures
        rows(final(comps)@) == popped(rows(old(comps)@)),
{
    let n = comps.len();
    if n > 0 && !is_root_piece(&comps[n - 1]) {
        let ghost before = comps@;
        comps.pop();
        proof {
            lemma_rows_drop_last(before);
        }
    }
}

/// Puts the components of `more` behind those of `comps`.
pub fn append_components(comps: &mut Vec<Vec<char>>, more: &Vec<Vec<char>>)
    ensures
        rows(final(comps)@) == rows(old(comps)@) + rows(more@),
{
    let mut k: usize = 0;
    assert(rows(more@).take(0) =~= Seq::<Seq<char>>::empty());
    assert(rows(comps@) =~= rows(old(comps)@) + rows(more@).take(0));
    while k < more.len()
        invariant
            k <= more.len(),
            rows(comps@) == rows(old(comps)@) + rows(more@).take(k as int),
        decreases more.len() - k,
    {
        let ghost before = comps@;
        let copy = copy_chars(&more[k]);
        comps.push(copy);
        proof {
            lemma_rows_push(before, copy);
            assert(rows(more@).take(k + 1) =~= rows(more@).take(k as int).push(more@[k as int]@));
            assert(rows(comps@) =~= rows(old(comps)@) + rows(more@).take(k + 1));
        }
        k += 1;
    }
    assert(rows(more@).take(more.len() as int) =~= rows(more@));
}

/// The components of `path` taken relative to `base`.
pub fn join_components(base: &Vec<Vec<char>>, path: &Vec<Vec<char>>) -> (out: Vec<Vec<char>>)
    ensures
        rows(out@) == joined(rows(base@), rows(path@)),
{
    let mut out: Vec<Vec<char>> = Vec::new();
    assert(rows(out@) =~= Seq::<Seq<char>>::empty());
    let ghost all = rows(path@);
    let mut k: usize = 0;
    if path.len() > 0 && is_root_piece(&path[0]) {
        assert(all =~= Seq::<Seq<char>>::empty() + all.skip(0));
    } else {
        append_components(&mut out, base);
        if base.len() > 0 && path.len() > 0 && is_dot_piece(&path[0]) {
            k = 1;
        } else {
            assert(all.skip(0) =~= all);
        }
        assert(rows(out@) =~= rows(base@) + all.skip(k as int).take(0));
    }
    let ghost start = rows(out@);
    let ghost first = k;
    assert(rows(out@) =~= start + all.subrange(first as int, k as int));
    while k < path.len()
        invariant
            first <= k <= path.len(),
            all == rows(path@),
            rows(out@) == start + all.subrange(first as int, k as int),
        decreases path.len() - k,
    {
        let ghost before = out@;
        let copy = copy_chars(&path[k]);
        out.push(copy);
        proof {
            lemma_rows_push(before, copy);
            assert(all.subrange(first as int, k + 1) =~= all.subrange(first as int, k as int).push(
                all[k as int],
            ));
            assert(rows(out@) =~= start + all.subrange(first as int, k + 1));
        }
        k += 1;
    }
    assert(all.subrange(first as int, path.len() as int) =~= all.skip(first as int));
    out
}

/// Whether `prefix` holds the leading components of `comps`.
pub fn begins_with_components(comps: &Vec<Vec<char>>, prefix: &Vec<Vec<char>>) -> (r: bool)
    ensures
        r == rows(prefix@).is_prefix_of(rows(comps@)),
{
    if prefix.len() > comps.len() {
        return false;
    }
    let ghost p = rows(prefix@);
    let ghost c = rows(comps@);
    let mut i: usize = 0;
    while i < prefix.len()
        invariant
            i <= prefix.len(),
            prefix.len() <= comps.len(),
            p == rows(prefix@),
            c == rows(comps@),
            forall|j: int| 0 <= j < i ==> p[j] == c[j],
        decreases prefix.len() - i,
    {
        if !same_chars(&prefix[i], &comps[i]) {
            assert(p[i as int] != c.subrange(0, p.len() as int)[i as int]);
            return false;
        }
        i += 1;
    }
    assert(p =~= c.subrange(0, p.len() as int));
    true
}

} // verus!
