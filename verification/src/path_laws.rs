//! What holds of the path model: a normal form is left alone by a second
//! normalisation, and the distance between two paths has a closed form.

use vstd::prelude::*;
use crate::path_utils::{
    components, distance, dot_name, dotdot_name, has_leading_dot, has_root, is_named, lead,
    lemma_segments_nonempty, names_kept, normal_form, normalized, path_distance_of, rendered,
    root_name, segments, shared, shared_from,
};

verus! {

/// No separator occurs in `c`.
pub open spec fn slash_free(c: Seq<char>) -> bool {
    forall|i: int| 0 <= i < c.len() ==> c[i] != '/'
}

/// A component that names a file or a directory.
pub open spec fn is_normal(c: Seq<char>) -> bool {
    c.len() > 0 && slash_free(c) && c != dot_name() && c != dotdot_name()
}

/// What can occur among the components of a path: the root, or a piece
/// without separator that is not empty.
pub open spec fn is_piece(c: Seq<char>) -> bool {
    c == root_name() || (c.len() > 0 && slash_free(c))
}

/// Every element is a piece.
pub open spec fn all_pieces(comps: Seq<Seq<char>>) -> bool {
    forall|i: int| 0 <= i < comps.len() ==> is_piece(#[trigger] comps[i])
}

/// A sequence of components in normal form: names only, behind at most a
/// root.
pub open spec fn is_plain(comps: Seq<Seq<char>>) -> bool {
    forall|i: int|
        0 <= i < comps.len() ==> (i == 0 && comps[0] == root_name()) || is_normal(
            #[trigger] comps[i],
        )
}

/// The root, `.` and `..` differ from each other, and the root is no name.
proof fn lemma_root_not_normal()
    ensures
        !is_normal(root_name()),
        root_name() != dot_name(),
        root_name() != dotdot_name(),
        dot_name() != dotdot_name(),
{
    assert(root_name()[0] == '/');
    assert(dot_name()[0] == '.');
    assert(dotdot_name().len() == 2);
}

/// Text without separator that is appended lengthens the last piece.
pub proof fn lemma_segments_extend(a: Seq<char>, c: Seq<char>)
    requires
        slash_free(c),
    ensures
        segments(a).len() > 0,
        segments(a + c) == segments(a).drop_last().push(segments(a).last() + c),
    decreases c.len(),
{
    lemma_segments_nonempty(a);
    if c.len() == 0 {
        assert(a + c =~= a);
        assert(segments(a).last() + c =~= segments(a).last());
        assert(segments(a) =~= segments(a).drop_last().push(segments(a).last()));
    } else {
        let c0 = c.drop_last();
        assert(slash_free(c0));
        lemma_segments_extend(a, c0);
        assert((a + c).drop_last() =~= a + c0);
        assert((a + c).last() == c.last());
        let before = segments(a + c0);
        assert(before.drop_last() =~= segments(a).drop_last());
        assert(before.last().push(c.last()) =~= segments(a).last() + c);
    }
}

/// Every piece between separators is free of them.
pub proof fn lemma_segments_slash_free(s: Seq<char>)
    ensures
        forall|j: int| 0 <= j < segments(s).len() ==> slash_free(#[trigger] segments(s)[j]),
    decreases s.len(),
{
    if s.len() > 0 {
        lemma_segments_slash_free(s.drop_last());
        lemma_segments_nonempty(s.drop_last());
    }
}

/// What is kept of pieces without separator is not empty, has no separator,
/// and is not `.`.
proof fn lemma_names_kept_pieces(segs: Seq<Seq<char>>)
    requires
        forall|j: int| 0 <= j < segs.len() ==> slash_free(#[trigger] segs[j]),
    ensures
        forall|k: int|
            0 <= k < names_kept(segs).len() ==> {
                let c = #[trigger] names_kept(segs)[k];
                c.len() > 0 && slash_free(c) && c != dot_name()
            },
    decreases segs.len(),
{
    if segs.len() > 0 {
        lemma_names_kept_pieces(segs.drop_last());
        let kept = names_kept(segs);
        let before = names_kept(segs.drop_last());
        assert forall|k: int| 0 <= k < kept.len() implies {
            let c = #[trigger] kept[k];
            c.len() > 0 && slash_free(c) && c != dot_name()
        } by {
            if k < before.len() {
                assert(kept[k] == before[k]);
            } else {
                assert(kept[k] == segs[segs.len() - 1]);
            }
        }
    }
}

/// What a further piece adds to the pieces that are kept.
pub proof fn lemma_names_kept_push(segs: Seq<Seq<char>>, x: Seq<char>)
    ensures
        names_kept(segs.push(x)) == if is_named(x) {
            names_kept(segs).push(x)
        } else {
            names_kept(segs)
        },
{
    assert(segs.push(x).drop_last() =~= segs);
}

/// Of empty pieces none is kept.
proof fn lemma_names_kept_none()
    ensures
        names_kept(Seq::<Seq<char>>::empty()) == Seq::<Seq<char>>::empty(),
        names_kept(seq![Seq::<char>::empty()]) == Seq::<Seq<char>>::empty(),
        names_kept(seq![Seq::<char>::empty(), Seq::<char>::empty()]) == Seq::<Seq<char>>::empty(),
{
    let none = Seq::<Seq<char>>::empty();
    let empty = Seq::<char>::empty();
    lemma_names_kept_push(none, empty);
    assert(none.push(empty) =~= seq![empty]);
    lemma_names_kept_push(seq![empty], empty);
    assert(seq![empty].push(empty) =~= seq![empty, empty]);
}

/// The components of any text are pieces.
pub proof fn lemma_components_are_pieces(s: Seq<char>)
    ensures
        all_pieces(components(s)),
{
    lemma_segments_slash_free(s);
    lemma_names_kept_pieces(segments(s));
    let cs = components(s);
    assert forall|i: int| 0 <= i < cs.len() implies is_piece(#[trigger] cs[i]) by {
        if i < lead(s).len() {
            assert(cs[i] == lead(s)[i]);
            if !has_root(s) {
                assert(dot_name().len() == 1 && dot_name()[0] == '.');
            }
        } else {
            assert(cs[i] == names_kept(segments(s))[i - lead(s).len()]);
        }
    }
}

/// Normalising leaves names only, behind at most a root.
pub proof fn lemma_normalized_is_plain(comps: Seq<Seq<char>>)
    requires
        all_pieces(comps),
    ensures
        is_plain(normalized(comps)),
    decreases comps.len(),
{
    if comps.len() > 0 {
        let c = comps.last();
        assert(is_piece(c));
        assert(all_pieces(comps.drop_last()));
        lemma_normalized_is_plain(comps.drop_last());
        let before = normalized(comps.drop_last());
        if c == root_name() {
        } else if c == dot_name() {
        } else if c == dotdot_name() {
        } else {
            assert(is_normal(c));
            let after = before.push(c);
            assert forall|i: int| 0 <= i < after.len() implies (i == 0 && after[0] == root_name())
                || is_normal(#[trigger] after[i]) by {
                if i < before.len() {
                    assert(after[i] == before[i]);
                }
            }
        }
    }
}

/// A sequence in normal form is its own normal form.
pub proof fn lemma_plain_is_fixed(comps: Seq<Seq<char>>)
    requires
        is_plain(comps),
    ensures
        normalized(comps) == comps,
    decreases comps.len(),
{
    lemma_root_not_normal();
    if comps.len() > 0 {
        let c = comps.last();
        let init = comps.drop_last();
        assert(is_plain(init)) by {
            assert forall|i: int| 0 <= i < init.len() implies (i == 0 && init[0] == root_name())
                || is_normal(#[trigger] init[i]) by {
                assert(init[i] == comps[i]);
            }
        }
        lemma_plain_is_fixed(init);
        if c == root_name() {
            assert(comps.len() == 1);
            assert(comps =~= seq![root_name()]);
        } else {
            assert(is_normal(comps[comps.len() - 1]));
            assert(comps =~= init.push(c));
        }
    }
}

/// The text of components that end in a name is not empty and ends in no
/// separator.
proof fn lemma_rendered_ends_in_name(comps: Seq<Seq<char>>)
    requires
        comps.len() > 0,
        is_normal(comps.last()),
    ensures
        rendered(comps).len() > 0,
        rendered(comps).last() != '/',
        rendered(comps)[0] == (if comps.len() == 1 {
            comps[0][0]
        } else {
            rendered(comps.drop_last())[0]
        }) || rendered(comps.drop_last()).len() == 0,
{
    let c = comps.last();
    let r = rendered(comps.drop_last());
    assert(c[c.len() - 1] != '/');
    assert(c[0] != '/');
    assert(!has_root(c));
}

/// Taking the text of a normal form apart gives its components back.
pub proof fn lemma_components_of_rendered(comps: Seq<Seq<char>>)
    requires
        is_plain(comps),
    ensures
        components(rendered(comps)) == comps,
    decreases comps.len(),
{
    lemma_root_not_normal();
    let empty = Seq::<char>::empty();
    let none = Seq::<Seq<char>>::empty();
    assert(segments(empty) == seq![empty]);
    lemma_names_kept_none();
    if comps.len() == 0 {
        assert(components(rendered(comps)) =~= comps);
    } else {
        let c = comps.last();
        let init = comps.drop_last();
        assert(is_plain(init)) by {
            assert forall|i: int| 0 <= i < init.len() implies (i == 0 && init[0] == root_name())
                || is_normal(#[trigger] init[i]) by {
                assert(init[i] == comps[i]);
            }
        }
        lemma_components_of_rendered(init);
        let r = rendered(init);
        if c == root_name() {
            assert(comps.len() == 1);
            assert(rendered(comps) == root_name());
            let t = root_name();
            assert(t.drop_last() =~= empty);
            assert(segments(t) == seq![empty].push(empty));
            assert(seq![empty].push(empty) =~= seq![empty, empty]);
            assert(components(t) =~= comps);
        } else {
            assert(is_normal(comps[comps.len() - 1]));
            assert(c[0] != '/');
            assert(!has_root(c));
            assert(is_named(c));
            if init.len() == 0 {
                assert(r =~= empty);
                assert(rendered(comps) =~= c);
                lemma_segments_extend(empty, c);
                assert(empty + c =~= c);
                assert(segments(c) =~= seq![c]);
                lemma_names_kept_push(none, c);
                assert(none.push(c) =~= seq![c]);
                assert(names_kept(seq![c]) =~= seq![c]);
                if c[0] == '.' {
                    if c.len() == 1 {
                        assert(c =~= dot_name());
                    } else {
                        assert(c[1] != '/');
                    }
                }
                assert(!has_leading_dot(c));
                assert(components(c) =~= comps);
            } else if init.last() == root_name() {
                assert(init.len() == 1);
                assert(init =~= seq![root_name()]);
                assert(r == root_name());
                let t = root_name();
                assert(t.drop_last() =~= empty);
                assert(segments(t) == seq![empty].push(empty));
                let full = t + c;
                assert(rendered(comps) == full);
                lemma_segments_extend(t, c);
                assert(empty + c =~= c);
                assert(segments(full) =~= seq![empty, c]);
                lemma_names_kept_push(seq![empty], c);
                assert(seq![empty].push(c) =~= seq![empty, c]);
                assert(names_kept(seq![empty, c]) =~= seq![c]);
                assert(has_root(full));
                assert(components(full) =~= comps);
            } else {
                assert(is_normal(init[init.len() - 1]));
                lemma_rendered_ends_in_name(init);
                let sep = r.push('/');
                let full = sep + c;
                assert(rendered(comps) == full);
                assert(sep.drop_last() =~= r);
                assert(segments(sep) == segments(r).push(empty));
                lemma_segments_extend(sep, c);
                assert(empty + c =~= c);
                assert(segments(full) =~= segments(r).push(c));
                lemma_names_kept_push(segments(r), c);
                assert(names_kept(segments(full)) == names_kept(segments(r)).push(c));
                assert(full[0] == r[0]);
                if r.len() >= 2 {
                    assert(full[1] == r[1]);
                } else {
                    assert(full[1] == '/');
                }
                assert(lead(full) == lead(r));
                assert(components(full) =~= (lead(r) + names_kept(segments(r))).push(c));
                assert(comps =~= init.push(c));
            }
        }
    }
}

/// Normalising twice gives what normalising once gives.
pub proof fn lemma_normal_form_idempotent(s: Seq<char>)
    ensures
        normal_form(normal_form(s)) == normal_form(s),
{
    let n = normalized(components(s));
    lemma_components_are_pieces(s);
    lemma_normalized_is_plain(components(s));
    lemma_components_of_rendered(n);
    lemma_plain_is_fixed(n);
}

/// `a` and `b` agree on their first `n` components.
pub open spec fn agree_upto(a: Seq<Seq<char>>, b: Seq<Seq<char>>, n: int) -> bool {
    &&& 0 <= n <= a.len()
    &&& n <= b.len()
    &&& forall|i: int| 0 <= i < n ==> a[i] == b[i]
}

/// At position `n` one of `a` and `b` ends, or they differ there.
pub open spec fn stops_at(a: Seq<Seq<char>>, b: Seq<Seq<char>>, n: int) -> bool {
    n == a.len() || n == b.len() || a[n] != b[n]
}

/// Up to the position that `shared_from` gives the two sequences agree, and
/// there they stop agreeing.
proof fn lemma_shared_from(a: Seq<Seq<char>>, b: Seq<Seq<char>>, i: nat)
    requires
        agree_upto(a, b, i as int),
    ensures
        agree_upto(a, b, shared_from(a, b, i) as int),
        stops_at(a, b, shared_from(a, b, i) as int),
    decreases a.len() - i,
{
    if i < a.len() && i < b.len() && a[i as int] == b[i as int] {
        lemma_shared_from(a, b, i + 1);
    }
}

/// The common prefix of two sequences is the only position up to which they
/// agree and at which they stop agreeing.
pub proof fn lemma_shared_is(a: Seq<Seq<char>>, b: Seq<Seq<char>>, m: int)
    requires
        agree_upto(a, b, m),
        stops_at(a, b, m),
    ensures
        shared(a, b) == m,
{
    lemma_shared_from(a, b, 0);
    let n = shared(a, b) as int;
    if n < m {
        assert(a[n] == b[n]);
    } else if m < n {
        assert(a[m] == b[m]);
    }
}

/// The distance between two sequences of components is what each has beyond
/// their common prefix, added up.
pub proof fn lemma_distance_closed_form(a: Seq<Seq<char>>, b: Seq<Seq<char>>)
    ensures
        distance(a, b) == a.len() + b.len() - 2 * shared(a, b),
    decreases a.len() + b.len(),
{
    lemma_shared_from(a, b, 0);
    let n = shared(a, b) as int;
    if a == b {
        lemma_shared_is(a, b, a.len() as int);
    } else if a.len() > b.len() {
        let a0 = a.drop_last();
        assert(agree_upto(a0, b, n));
        assert(stops_at(a0, b, n));
        lemma_shared_is(a0, b, n);
        lemma_distance_closed_form(a0, b);
    } else if b.len() > 0 {
        let b0 = b.drop_last();
        if n == b.len() {
            assert(a =~= b);
        }
        assert(agree_upto(a, b0, n));
        assert(stops_at(a, b0, n));
        lemma_shared_is(a, b0, n);
        lemma_distance_closed_form(a, b0);
    } else {
        assert(a =~= b);
    }
}

/// The distance does not depend on the order of the two paths.
pub proof fn lemma_distance_symmetric(a: Seq<Seq<char>>, b: Seq<Seq<char>>)
    ensures
        distance(a, b) == distance(b, a),
{
    lemma_shared_from(a, b, 0);
    let n = shared(a, b) as int;
    assert(agree_upto(b, a, n));
    assert(stops_at(b, a, n));
    lemma_shared_is(b, a, n);
    lemma_distance_closed_form(a, b);
    lemma_distance_closed_form(b, a);
}

/// From a path to one that it begins with, the distance is the number of
/// components that the longer one has more.
pub proof fn lemma_distance_to_prefix(a: Seq<Seq<char>>, b: Seq<Seq<char>>)
    requires
        b.is_prefix_of(a),
    ensures
        distance(a, b) == a.len() - b.len(),
        distance(b, a) == a.len() - b.len(),
{
    assert(agree_upto(a, b, b.len() as int)) by {
        assert forall|i: int| 0 <= i < b.len() implies a[i] == b[i] by {
            assert(a.subrange(0, b.len() as int)[i] == a[i]);
        }
    }
    lemma_shared_is(a, b, b.len() as int);
    lemma_distance_closed_form(a, b);
    lemma_distance_symmetric(a, b);
}

/// Two paths with the same components are at distance 0, and only those.
pub proof fn lemma_distance_zero(a: Seq<char>, b: Seq<char>)
    ensures
        path_distance_of(a, b) == 0 <==> components(a) == components(b),
{
    let x = components(a);
    let y = components(b);
    lemma_distance_closed_form(x, y);
    lemma_shared_from(x, y, 0);
    if distance(x, y) == 0 {
        assert(x =~= y);
    }
}

/// A `.` among the components changes nothing.
pub proof fn lemma_dot_is_dropped(before: Seq<Seq<char>>, after: Seq<Seq<char>>)
    ensures
        normalized(before.push(dot_name()) + after) == normalized(before + after),
    decreases after.len(),
{
    lemma_root_not_normal();
    if after.len() == 0 {
        assert(before.push(dot_name()) + after =~= before.push(dot_name()));
        assert(before + after =~= before);
        assert(before.push(dot_name()).drop_last() =~= before);
    } else {
        lemma_dot_is_dropped(before, after.drop_last());
        assert((before.push(dot_name()) + after).drop_last() =~= before.push(dot_name())
            + after.drop_last());
        assert((before + after).drop_last() =~= before + after.drop_last());
    }
}

/// A name and the `..` behind it cancel each other.
pub proof fn lemma_parent_cancels_name(
    before: Seq<Seq<char>>,
    name: Seq<char>,
    after: Seq<Seq<char>>,
)
    requires
        is_normal(name),
    ensures
        normalized(before.push(name).push(dotdot_name()) + after) == normalized(before + after),
    decreases after.len(),
{
    lemma_root_not_normal();
    let with = before.push(name).push(dotdot_name());
    if after.len() == 0 {
        assert(with + after =~= with);
        assert(before + after =~= before);
        assert(with.drop_last() =~= before.push(name));
        assert(before.push(name).drop_last() =~= before);
        assert(name != root_name()) by {
            assert(root_name()[0] == '/');
        }
        assert(normalized(before.push(name)) == normalized(before).push(name));
        assert(normalized(before).push(name).drop_last() =~= normalized(before));
    } else {
        lemma_parent_cancels_name(before, name, after.drop_last());
        assert((with + after).drop_last() =~= with + after.drop_last());
        assert((before + after).drop_last() =~= before + after.drop_last());
    }
}

} // verus!
