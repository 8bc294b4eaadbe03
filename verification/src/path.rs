//! Slash-separated paths as text.
//!
//! A path is a sequence of components: an optional root `/`, an optional
//! leading `.`, and the non-empty pieces between slashes other than `.`.
//! Repeated slashes, inner `.` pieces and trailing slashes separate components
//! without being one.

use vstd::prelude::*;
use crate::text;

verus! {

// ------------------------------------------------------------- components --

/// Whether the text between two slashes is a component of its own.
pub open spec fn is_piece(t: Seq<char>) -> bool {
    t.len() > 0 && t != seq!['.']
}

/// Where the components of `p` at or after `from` begin and end, `from` being
/// the position right behind a slash or the beginning of the path.
pub open spec fn body_spans(p: Seq<char>, from: int) -> Seq<(int, int)>
    decreases p.len() + 1 - from,
{
    if from < 0 || from >= p.len() {
        Seq::empty()
    } else {
        proof {
            text::lemma_next_at(p, '/', from);
        }
        let end = text::next_at(p, '/', from);
        let rest = body_spans(p, end + 1);
        if is_piece(p.subrange(from, end)) {
            seq![(from, end)] + rest
        } else {
            rest
        }
    }
}

/// Whether a path begins with a root or with a `.` component.
pub open spec fn has_head_component(p: Seq<char>) -> bool {
    ||| p.len() > 0 && p[0] == '/'
    ||| p.len() > 0 && p[0] == '.' && (p.len() == 1 || p[1] == '/')
}

/// Where the components of a path begin and end.
pub open spec fn spans(p: Seq<char>) -> Seq<(int, int)> {
    if has_head_component(p) {
        seq![(0int, 1int)] + body_spans(p, 1)
    } else {
        body_spans(p, 0)
    }
}

/// The components of a path as texts: `/` for the root, `.`, `..`, or a name.
pub open spec fn components(p: Seq<char>) -> Seq<Seq<char>> {
    spans(p).map_values(|s: (int, int)| p.subrange(s.0, s.1))
}

/// Whether a component is a name, rather than `/`, `.` or `..`.
pub open spec fn is_name(c: Seq<char>) -> bool {
    c != seq!['/'] && c != seq!['.'] && c != seq!['.', '.']
}

/// Whether `n` can stand as a file name: not empty, without a slash, and
/// neither `.` nor `..`.
pub open spec fn is_file_name(n: Seq<char>) -> bool {
    n.len() > 0 && !n.contains('/') && is_name(n)
}

/// Whether a path begins at the root.
pub open spec fn is_absolute(p: Seq<char>) -> bool {
    p.len() > 0 && p[0] == '/'
}

// ---------------------------------------------------------- parts of paths --

/// The last component of a path, where it is a name.
pub open spec fn file_name(p: Seq<char>) -> Option<Seq<char>> {
    let c = components(p);
    if c.len() > 0 && is_name(c.last()) {
        Some(c.last())
    } else {
        None
    }
}

/// How many characters of a file name stand before its extension: those before
/// the last dot, or all of them where there is no dot but at the beginning.
pub open spec fn stem_len(name: Seq<char>) -> int {
    let dot = text::last_at(name, '.');
    if dot <= 0 {
        name.len() as int
    } else {
        dot
    }
}

/// The file name without its extension.
pub open spec fn file_stem(p: Seq<char>) -> Option<Seq<char>> {
    match file_name(p) {
        Some(n) => Some(n.take(stem_len(n))),
        None => None,
    }
}

/// What follows the last dot of the file name, a dot at its beginning aside.
pub open spec fn extension(p: Seq<char>) -> Option<Seq<char>> {
    match file_name(p) {
        Some(n) => if stem_len(n) < n.len() {
            Some(n.skip(stem_len(n) + 1))
        } else {
            None
        },
        None => None,
    }
}

/// The text of `p` up to the end of its first `k` components.
pub open spec fn upto(p: Seq<char>, k: int) -> Seq<char> {
    if k <= 0 {
        p.take(0)
    } else {
        p.take(spans(p)[k - 1].1)
    }
}

/// The path without its last component; a root, or nothing, has no parent.
pub open spec fn parent(p: Seq<char>) -> Option<Seq<char>> {
    let c = components(p);
    if c.len() == 0 || c.last() == seq!['/'] {
        None
    } else {
        Some(upto(p, c.len() - 1))
    }
}

/// `b` underneath `a`; an absolute `b` stands for itself.
pub open spec fn joined_path(a: Seq<char>, b: Seq<char>) -> Seq<char> {
    if is_absolute(b) {
        b
    } else if a.len() > 0 && a.last() != '/' {
        a + seq!['/'] + b
    } else {
        a + b
    }
}

/// The path with `ext` for the extension of its file name; a path without a
/// file name stays as it is.
pub open spec fn with_extension(p: Seq<char>, ext: Seq<char>) -> Seq<char> {
    match file_name(p) {
        Some(n) => {
            let stem = p.take(spans(p).last().0 + stem_len(n));
            if ext.len() == 0 {
                stem
            } else {
                stem + seq!['.'] + ext
            }
        },
        None => p,
    }
}

/// The path with `name` for its file name; `name` goes underneath a path that
/// has none.
pub open spec fn with_file_name(p: Seq<char>, name: Seq<char>) -> Seq<char> {
    match file_name(p) {
        Some(_) => joined_path(upto(p, components(p).len() - 1), name),
        None => joined_path(p, name),
    }
}

/// What is left of `p` behind the components of `base`, where `p` begins with
/// them.
pub open spec fn stripped(p: Seq<char>, base: Seq<char>) -> Option<Seq<char>> {
    let c = components(p);
    let b = components(base);
    if b.len() <= c.len() && c.take(b.len() as int) == b {
        if b.len() == 0 {
            Some(upto(p, c.len() as int))
        } else if b.len() == c.len() {
            Some(p.take(0))
        } else {
            Some(p.subrange(spans(p)[b.len() as int].0, spans(p).last().1))
        }
    } else {
        None
    }
}

// --------------------------------------------------------------- ordering --

/// The place of a component's kind: root, `.`, `..`, names.
pub open spec fn kind_rank(c: Seq<char>) -> int {
    if c == seq!['/'] {
        0
    } else if c == seq!['.'] {
        1
    } else if c == seq!['.', '.'] {
        2
    } else {
        3
    }
}

/// Whether one component comes before another: by kind, names by their text.
pub open spec fn component_before(a: Seq<char>, b: Seq<char>) -> bool {
    kind_rank(a) < kind_rank(b) || (kind_rank(a) == 3 && kind_rank(b) == 3 && text::text_before(a, b))
}

/// Whether one list of components comes before another.
pub open spec fn components_before(a: Seq<Seq<char>>, b: Seq<Seq<char>>) -> bool
    decreases a.len(),
{
    if b.len() == 0 {
        false
    } else if a.len() == 0 {
        true
    } else if a[0] != b[0] {
        component_before(a[0], b[0])
    } else {
        components_before(a.skip(1), b.skip(1))
    }
}

/// Whether one path comes before another: component by component.
pub open spec fn path_before(p: Seq<char>, q: Seq<char>) -> bool {
    components_before(components(p), components(q))
}

// ------------------------------------------------------------------ lemmas --

/// The spans of a path lie inside it, one behind the other, each over a piece.
pub proof fn lemma_body_spans(p: Seq<char>, from: int)
    requires
        0 <= from,
    ensures
        forall|i: int|
            0 <= i < body_spans(p, from).len() ==> from <= (#[trigger] body_spans(p, from)[i]).0
                < body_spans(p, from)[i].1 <= p.len(),
        forall|i: int, j: int|
            0 <= i < j < body_spans(p, from).len() ==> (#[trigger] body_spans(p, from)[i]).1 < (
            #[trigger] body_spans(p, from)[j]).0,
        forall|i: int|
            0 <= i < body_spans(p, from).len() ==> is_piece(
                p.subrange((#[trigger] body_spans(p, from)[i]).0, body_spans(p, from)[i].1),
            ) && !p.subrange(body_spans(p, from)[i].0, body_spans(p, from)[i].1).contains('/'),
    decreases p.len() + 1 - from,
{
    if from < p.len() {
        text::lemma_next_at(p, '/', from);
        let end = text::next_at(p, '/', from);
        lemma_body_spans(p, end + 1);
        let rest = body_spans(p, end + 1);
        let all = body_spans(p, from);
        if is_piece(p.subrange(from, end)) {
            assert(all == seq![(from, end)] + rest);
            assert forall|i: int| 0 <= i < all.len() implies from <= (#[trigger] all[i]).0
                < all[i].1 <= p.len() && is_piece(p.subrange(all[i].0, all[i].1)) && !p.subrange(
                all[i].0,
                all[i].1,
            ).contains('/') by {
                if i > 0 {
                    assert(all[i] == rest[i - 1]);
                }
            }
            assert forall|i: int, j: int| 0 <= i < j < all.len() implies (#[trigger] all[i]).1 < (
            #[trigger] all[j]).0 by {
                assert(all[j] == rest[j - 1]);
                if i > 0 {
                    assert(all[i] == rest[i - 1]);
                }
            }
        } else {
            assert(all == rest);
        }
    }
}

/// The spans of a path lie inside it, one behind the other; the component over
/// each is not empty.
pub proof fn lemma_spans(p: Seq<char>)
    ensures
        forall|i: int|
            0 <= i < spans(p).len() ==> 0 <= (#[trigger] spans(p)[i]).0 < spans(p)[i].1 <= p.len(),
        forall|i: int, j: int|
            0 <= i < j < spans(p).len() ==> (#[trigger] spans(p)[i]).1 <= (#[trigger] spans(
                p,
            )[j]).0,
        forall|i: int|
            1 <= i < spans(p).len() ==> is_piece(
                p.subrange((#[trigger] spans(p)[i]).0, spans(p)[i].1),
            ) && !p.subrange(spans(p)[i].0, spans(p)[i].1).contains('/'),
        spans(p).len() > 0 && !has_head_component(p) ==> is_piece(
            p.subrange(spans(p)[0].0, spans(p)[0].1),
        ) && !p.subrange(spans(p)[0].0, spans(p)[0].1).contains('/'),
        spans(p).len() > 0 && !is_absolute(p) ==> !p.subrange(
            spans(p)[0].0,
            spans(p)[0].1,
        ).contains('/'),
        components(p).len() == spans(p).len(),
{
    let all = spans(p);
    if has_head_component(p) {
        lemma_body_spans(p, 1);
        let rest = body_spans(p, 1);
        assert(all == seq![(0int, 1int)] + rest);
        assert forall|i: int| 1 <= i < all.len() implies (#[trigger] all[i]) == rest[i - 1] by {}
        assert forall|i: int| 0 <= i < all.len() implies 0 <= (#[trigger] all[i]).0 < all[i].1
            <= p.len() by {
            if i > 0 {
                assert(all[i] == rest[i - 1]);
            }
        }
        assert forall|i: int, j: int| 0 <= i < j < all.len() implies (#[trigger] all[i]).1 <= (
        #[trigger] all[j]).0 by {
            assert(all[j] == rest[j - 1]);
            if i > 0 {
                assert(all[i] == rest[i - 1]);
            }
        }
        assert forall|i: int| 1 <= i < all.len() implies is_piece(
            p.subrange((#[trigger] all[i]).0, all[i].1),
        ) && !p.subrange(all[i].0, all[i].1).contains('/') by {
            assert(all[i] == rest[i - 1]);
        }
        if !is_absolute(p) {
            assert(p.subrange(0, 1) =~= seq!['.']);
            assert(!seq!['.'].contains('/'));
        }
    } else {
        lemma_body_spans(p, 0);
    }
}

/// A component that is a name holds no slash and is not empty.
pub proof fn lemma_component_is_file_name(p: Seq<char>, i: int)
    requires
        0 <= i < components(p).len(),
        is_name(components(p)[i]),
    ensures
        is_file_name(components(p)[i]),
{
    lemma_spans(p);
    let s = spans(p)[i];
    assert(components(p)[i] == p.subrange(s.0, s.1));
    if i == 0 && is_absolute(p) {
        assert(p.subrange(0, 1) =~= seq!['/']);
    }
}

/// A file name is a name without a slash.
pub proof fn lemma_file_name(p: Seq<char>)
    ensures
        file_name(p) matches Some(n) ==> is_file_name(n),
{
    if file_name(p) is Some {
        lemma_component_is_file_name(p, components(p).len() - 1);
    }
}

/// The spans of `d` with a file name behind it, from a position inside `d` on.
proof fn lemma_join_body(d: Seq<char>, n: Seq<char>, from: int)
    requires
        d.len() > 0,
        is_file_name(n),
        0 <= from <= d.len() || (from == d.len() + 1 && d.last() != '/'),
    ensures
        ({
            let p = joined_path(d, n);
            body_spans(p, from) == body_spans(d, from).push(((p.len() - n.len()) as int, p.len() as int))
        }),
    decreases d.len() + 1 - from,
{
    let p = joined_path(d, n);
    let k = p.len() - n.len();
    assert(n[0] != '/') by {
        if n[0] == '/' {
            assert(n.contains(n[0]));
        }
    }
    assert(forall|i: int| 0 <= i < d.len() ==> p[i] == d[i]);
    assert(forall|i: int| 0 <= i < n.len() ==> p[k + i] == n[i]);
    if from == k {
        assert forall|i: int| from <= i < p.len() implies p[i] != '/' by {
            assert(n.contains(n[i - k]));
        }
        text::lemma_next_at_is(p, '/', from, p.len() as int);
        assert(p.subrange(from, p.len() as int) =~= n);
        assert(body_spans(p, p.len() as int + 1) =~= Seq::<(int, int)>::empty());
        assert(body_spans(d, from) =~= Seq::<(int, int)>::empty());
        assert(body_spans(p, from) =~= seq![(from, p.len() as int)]);
    } else if from == d.len() {
        // a slash was put between the two
        assert(p[from] == '/');
        text::lemma_next_at_is(p, '/', from, from);
        assert(p.subrange(from, from).len() == 0);
        lemma_join_body(d, n, from + 1);
        assert(body_spans(d, from) =~= Seq::<(int, int)>::empty());
        assert(body_spans(d, from + 1) =~= Seq::<(int, int)>::empty());
    } else {
        text::lemma_next_at(d, '/', from);
        let e = text::next_at(d, '/', from);
        if e == d.len() {
            assert(d[d.len() - 1] != '/');
            assert(p[e] == '/');
        }
        assert forall|i: int| from <= i < e implies p[i] != '/' by {
            assert(p[i] == d[i]);
        }
        text::lemma_next_at_is(p, '/', from, e);
        assert(p.subrange(from, e) =~= d.subrange(from, e));
        lemma_join_body(d, n, e + 1);
        let last = (k as int, p.len() as int);
        assert(seq![(from, e)] + body_spans(d, e + 1).push(last) =~= (seq![(from, e)]
            + body_spans(d, e + 1)).push(last));
    }
}

/// A file name put underneath a path becomes one more component.
pub proof fn lemma_join_spans(d: Seq<char>, n: Seq<char>)
    requires
        is_file_name(n),
    ensures
        ({
            let p = joined_path(d, n);
            &&& spans(p) == spans(d).push(((p.len() - n.len()) as int, p.len() as int))
            &&& components(p) == components(d).push(n)
        }),
{
    let p = joined_path(d, n);
    let k = p.len() - n.len();
    assert(n[0] != '/') by {
        if n[0] == '/' {
            assert(n.contains(n[0]));
        }
    }
    if d.len() == 0 {
        assert(p =~= n);
        assert(!has_head_component(p)) by {
            if n.len() == 1 && n[0] == '.' {
                assert(n =~= seq!['.']);
            }
            if n.len() > 1 && n[1] == '/' {
                assert(n.contains(n[1]));
            }
        }
        assert forall|i: int| 0 <= i < p.len() implies p[i] != '/' by {
            assert(n.contains(n[i]));
        }
        text::lemma_next_at_is(p, '/', 0, p.len() as int);
        assert(p.subrange(0, p.len() as int) =~= n);
        assert(body_spans(p, p.len() as int + 1) =~= Seq::<(int, int)>::empty());
        assert(spans(p) =~= seq![(0int, p.len() as int)]);
        assert(spans(d) =~= Seq::<(int, int)>::empty());
        assert(spans(p) =~= spans(d).push((k as int, p.len() as int)));
    } else {
        assert(forall|i: int| 0 <= i < d.len() ==> p[i] == d[i]);
        assert(has_head_component(p) == has_head_component(d)) by {
            if d.len() == 1 && d[0] == '.' {
                assert(p[1] == '/');
            }
        }
        if has_head_component(d) {
            lemma_join_body(d, n, 1);
            assert(spans(p) =~= spans(d).push((k as int, p.len() as int)));
        } else {
            lemma_join_body(d, n, 0);
        }
    }
    lemma_spans(d);
    let c = components(d).push(n);
    assert forall|i: int| 0 <= i < c.len() implies components(p)[i] == c[i] by {
        if i < components(d).len() {
            let s = spans(d)[i];
            assert(spans(p)[i] == s);
            assert(p.subrange(s.0, s.1) =~= d.subrange(s.0, s.1));
        } else {
            assert(p.subrange(k as int, p.len() as int) =~= n);
        }
    }
    assert(components(p) =~= c);
}

/// Spans moved `k` characters to the right.
pub open spec fn shifted(s: Seq<(int, int)>, k: int) -> Seq<(int, int)> {
    s.map_values(|x: (int, int)| (x.0 + k, x.1 + k))
}

/// The spans of a text behind another.
proof fn lemma_shift_body(a: Seq<char>, r: Seq<char>, from: int)
    requires
        0 <= from <= r.len() + 1,
    ensures
        body_spans(a + r, a.len() + from) == shifted(body_spans(r, from), a.len() as int),
    decreases r.len() + 1 - from,
{
    let p = a + r;
    let k = a.len() as int;
    if from >= r.len() {
        assert(body_spans(p, k + from) =~= shifted(body_spans(r, from), k));
    } else {
        text::lemma_next_at(r, '/', from);
        let e = text::next_at(r, '/', from);
        assert forall|i: int| k + from <= i < k + e implies p[i] != '/' by {
            assert(p[i] == r[i - k]);
        }
        text::lemma_next_at_is(p, '/', k + from, k + e);
        assert(p.subrange(k + from, k + e) =~= r.subrange(from, e));
        lemma_shift_body(a, r, e + 1);
        assert(body_spans(p, k + from) =~= shifted(body_spans(r, from), k));
    }
}

/// The spans of `d` with a relative path behind it, from a position inside `d`
/// on.
proof fn lemma_join_tree_body(d: Seq<char>, r: Seq<char>, from: int)
    requires
        d.len() > 0,
        !is_absolute(r),
        0 <= from <= d.len() || (from == d.len() + 1 && d.last() != '/'),
    ensures
        ({
            let p = joined_path(d, r);
            body_spans(p, from) == body_spans(d, from) + shifted(
                body_spans(r, 0),
                p.len() - r.len(),
            )
        }),
    decreases d.len() + 1 - from,
{
    let p = joined_path(d, r);
    let k = p.len() - r.len();
    let tail = shifted(body_spans(r, 0), k);
    assert(forall|i: int| 0 <= i < d.len() ==> p[i] == d[i]);
    if from == k {
        assert(p =~= p.take(k) + r);
        lemma_shift_body(p.take(k), r, 0);
        assert(body_spans(d, from) =~= Seq::<(int, int)>::empty());
        assert(body_spans(d, from) + tail =~= tail);
    } else if from == d.len() {
        // a slash was put between the two
        assert(p[from] == '/');
        text::lemma_next_at_is(p, '/', from, from);
        assert(p.subrange(from, from).len() == 0);
        lemma_join_tree_body(d, r, from + 1);
        assert(body_spans(d, from) =~= Seq::<(int, int)>::empty());
        assert(body_spans(d, from + 1) =~= Seq::<(int, int)>::empty());
    } else {
        text::lemma_next_at(d, '/', from);
        let e = text::next_at(d, '/', from);
        if e == d.len() {
            assert(d[d.len() - 1] != '/');
            assert(p[e] == '/');
        }
        assert forall|i: int| from <= i < e implies p[i] != '/' by {
            assert(p[i] == d[i]);
        }
        text::lemma_next_at_is(p, '/', from, e);
        assert(p.subrange(from, e) =~= d.subrange(from, e));
        lemma_join_tree_body(d, r, e + 1);
        assert(seq![(from, e)] + (body_spans(d, e + 1) + tail) =~= (seq![(from, e)] + body_spans(
            d,
            e + 1,
        )) + tail);
    }
}

/// A relative path put underneath another adds its components; a `.` at its
/// beginning is left out.
pub proof fn lemma_join_components(d: Seq<char>, r: Seq<char>)
    requires
        !has_head_component(r),
    ensures
        components(joined_path(d, r)) == components(d) + components(r),
{
    let p = joined_path(d, r);
    let k = p.len() - r.len();
    if d.len() == 0 {
        assert(p =~= r);
        assert(spans(d) =~= Seq::<(int, int)>::empty());
        assert(components(p) =~= components(d) + components(r));
    } else {
        assert(forall|i: int| 0 <= i < d.len() ==> p[i] == d[i]);
        assert(has_head_component(p) == has_head_component(d)) by {
            if d.len() == 1 && d[0] == '.' {
                assert(p[1] == '/');
            }
        }
        let tail = shifted(spans(r), k);
        if has_head_component(d) {
            lemma_join_tree_body(d, r, 1);
            assert(spans(p) =~= spans(d) + tail);
        } else {
            lemma_join_tree_body(d, r, 0);
        }
        lemma_spans(d);
        lemma_spans(r);
        let c = components(d) + components(r);
        assert forall|i: int| 0 <= i < c.len() implies components(p)[i] == c[i] by {
            let m = components(d).len() as int;
            if i < m {
                let s = spans(d)[i];
                assert(spans(p)[i] == s);
                assert(p.subrange(s.0, s.1) =~= d.subrange(s.0, s.1));
            } else {
                let s = spans(r)[i - m];
                assert(spans(p)[i] == (s.0 + k, s.1 + k));
                assert(p.subrange(s.0 + k, s.1 + k) =~= r.subrange(s.0, s.1));
            }
        }
        assert(components(p) =~= c);
    }
}

/// The spans of the text up to the end of a component are those up to it.
proof fn lemma_take_body(p: Seq<char>, from: int, i: int)
    requires
        0 <= from,
        0 <= i < body_spans(p, from).len(),
    ensures
        body_spans(p.take(body_spans(p, from)[i].1), from) == body_spans(p, from).take(i + 1),
    decreases p.len() + 1 - from,
{
    lemma_body_spans(p, from);
    text::lemma_next_at(p, '/', from);
    let e = text::next_at(p, '/', from);
    let rest = body_spans(p, e + 1);
    let all = body_spans(p, from);
    let cut = all[i].1;
    let q = p.take(cut);
    assert(from <= all[0].0);
    assert(all[0].0 < all[i].1) by {
        if i > 0 {
            assert(all[0].1 < all[i].0);
        }
    }
    assert(from < cut);
    if is_piece(p.subrange(from, e)) {
        assert(all[0] == (from, e));
        assert(e <= cut) by {
            if i > 0 {
                assert(all[0].1 < all[i].0);
            }
        }
        assert forall|k: int| from <= k < e implies q[k] != '/' by {
            assert(q[k] == p[k]);
        }
        if e < cut {
            assert(q[e] == p[e]);
        }
        text::lemma_next_at_is(q, '/', from, e);
        assert(q.subrange(from, e) =~= p.subrange(from, e));
        if i == 0 {
            assert(body_spans(q, e + 1) =~= Seq::<(int, int)>::empty());
            assert(body_spans(q, from) =~= all.take(1));
        } else {
            assert(all[i] == rest[i - 1]);
            lemma_take_body(p, e + 1, i - 1);
            assert(seq![(from, e)] + rest.take(i) =~= all.take(i + 1));
        }
    } else {
        assert(all == rest);
        lemma_body_spans(p, e + 1);
        assert(e + 1 <= all[0].0);
        assert(e < cut);
        assert forall|k: int| from <= k < e implies q[k] != '/' by {
            assert(q[k] == p[k]);
        }
        assert(q[e] == p[e]);
        text::lemma_next_at_is(q, '/', from, e);
        assert(q.subrange(from, e) =~= p.subrange(from, e));
        lemma_take_body(p, e + 1, i);
    }
}

/// The text of a path up to the end of its first `k` components has just these
/// components.
pub proof fn lemma_upto(p: Seq<char>, k: int)
    requires
        0 <= k <= components(p).len(),
    ensures
        spans(upto(p, k)) == spans(p).take(k),
        components(upto(p, k)) == components(p).take(k),
{
    lemma_spans(p);
    let q = upto(p, k);
    if k == 0 {
        assert(spans(q) =~= spans(p).take(0));
    } else {
        let cut = spans(p)[k - 1].1;
        assert(0 <= spans(p)[0].0 < spans(p)[0].1 <= cut) by {
            if k > 1 {
                assert(spans(p)[0].1 <= spans(p)[k - 1].0);
            }
        }
        assert(forall|i: int| 0 <= i < cut ==> q[i] == p[i]);
        if has_head_component(p) {
            let rest = body_spans(p, 1);
            if k == 1 {
                assert(cut == 1);
                assert(q.len() == 1);
                assert(has_head_component(q));
                assert(body_spans(q, 1) =~= Seq::<(int, int)>::empty());
                assert(spans(q) =~= spans(p).take(1));
            } else {
                assert(spans(p)[k - 1] == rest[k - 2]);
                lemma_body_spans(p, 1);
                lemma_take_body(p, 1, k - 2);
                assert(cut > 1);
                assert(has_head_component(q)) by {
                    assert(q[0] == p[0]);
                    if cut > 1 {
                        assert(q[1] == p[1]);
                    }
                }
                assert(seq![(0int, 1int)] + rest.take(k - 1) =~= spans(p).take(k));
            }
        } else {
            lemma_take_body(p, 0, k - 1);
            assert(!has_head_component(q)) by {
                assert(q[0] == p[0]);
                if q.len() == 1 && q[0] == '.' {
                    // the path would be a single dot, which is no piece
                    assert(spans(p)[0].0 == 0 && spans(p)[0].1 == 1);
                    assert(p.subrange(0, 1) =~= seq!['.']);
                }
                if q.len() > 1 {
                    assert(q[1] == p[1]);
                }
            }
        }
    }
    let c = components(p).take(k);
    assert forall|i: int| 0 <= i < c.len() implies components(q)[i] == c[i] by {
        let s = spans(p)[i];
        assert(spans(q)[i] == s);
        if i < k - 1 {
            assert(spans(p)[i].1 <= spans(p)[k - 1].0);
        }
        assert(q.subrange(s.0, s.1) =~= p.subrange(s.0, s.1));
    }
    assert(components(q) =~= c);
}

/// A file name put underneath a path is that path's file name, and the path
/// without it is the parent.
pub proof fn lemma_join_parts(d: Seq<char>, n: Seq<char>)
    requires
        is_file_name(n),
    ensures
        file_name(joined_path(d, n)) == Some(n),
        parent(joined_path(d, n)) == Some(upto(d, components(d).len() as int)),
{
    lemma_join_spans(d, n);
    lemma_spans(d);
    let p = joined_path(d, n);
    assert(components(p).last() == n);
    assert(n != seq!['/']);
    let m = components(d).len() as int;
    if m > 0 {
        assert(spans(p)[m - 1] == spans(d)[m - 1]);
        assert(n[0] != '/') by {
            if n[0] == '/' {
                assert(n.contains(n[0]));
            }
        }
        assert(upto(p, m) =~= upto(d, m));
    } else {
        assert(upto(p, 0) =~= upto(d, 0));
    }
}

/// A file name put underneath the parent of a path gets that same parent.
pub proof fn lemma_sibling(p: Seq<char>, n: Seq<char>)
    requires
        is_file_name(n),
        parent(p) is Some,
    ensures
        file_name(joined_path(parent(p)->0, n)) == Some(n),
        parent(joined_path(parent(p)->0, n)) == parent(p),
        components(joined_path(parent(p)->0, n)) == components(p).drop_last().push(n),
{
    let k = components(p).len() - 1;
    let d = parent(p)->0;
    lemma_upto(p, k);
    lemma_spans(p);
    lemma_join_parts(d, n);
    lemma_join_spans(d, n);
    assert(components(p).take(k) =~= components(p).drop_last());
    if k == 0 {
        assert(upto(d, 0) =~= d);
    } else {
        assert(spans(d)[k - 1] == spans(p)[k - 1]);
        assert(upto(d, k) =~= d);
    }
}

/// The spans from the beginning of the `i`th on.
proof fn lemma_body_from(p: Seq<char>, from: int, i: int)
    requires
        0 <= from,
        0 <= i < body_spans(p, from).len(),
    ensures
        body_spans(p, body_spans(p, from)[i].0) == body_spans(p, from).skip(i),
    decreases p.len() + 1 - from,
{
    text::lemma_next_at(p, '/', from);
    let e = text::next_at(p, '/', from);
    if is_piece(p.subrange(from, e)) {
        if i == 0 {
            assert(body_spans(p, from).skip(0) =~= body_spans(p, from));
        } else {
            lemma_body_from(p, e + 1, i - 1);
            assert(body_spans(p, from)[i] == body_spans(p, e + 1)[i - 1]);
            assert(body_spans(p, from).skip(i) =~= body_spans(p, e + 1).skip(i - 1));
        }
    } else {
        lemma_body_from(p, e + 1, i);
    }
}

/// What is left of a path behind the components of another begins with no root
/// and no `.`, and has the components that are left.
pub proof fn lemma_stripped(p: Seq<char>, base: Seq<char>)
    requires
        stripped(p, base) is Some,
        components(base).len() > 0,
    ensures
        !has_head_component(stripped(p, base)->0),
        components(p) == components(base) + components(stripped(p, base)->0),
{
    let n = components(p).len() as int;
    let b = components(base).len() as int;
    let r = stripped(p, base)->0;
    lemma_spans(p);
    if b == n {
        assert(components(r) =~= Seq::<Seq<char>>::empty());
        assert(components(p).take(b) =~= components(p));
        assert(components(p) =~= components(base) + components(r));
    } else {
        lemma_upto(p, n);
        let q = upto(p, n);
        let f = spans(p)[b].0;
        assert(spans(p).take(n) =~= spans(p));
        assert(spans(q) == spans(p));
        assert(spans(p)[b].1 <= spans(p).last().1) by {
            if b < n - 1 {
                assert(spans(p)[b].1 <= spans(p)[n - 1].0);
            }
        }
        assert(q =~= q.take(f) + r);
        assert(has_head_component(q) == has_head_component(p)) by {
            assert(spans(p)[0].1 <= spans(p)[b].0);
            assert(q.len() >= 2);
            assert(q[0] == p[0] && q[1] == p[1]);
        }
        let start = if has_head_component(q) {
            1int
        } else {
            0int
        };
        lemma_body_from(q, start, b - start);
        assert(body_spans(q, f) =~= spans(p).skip(b));
        lemma_shift_body(q.take(f), r, 0);
        assert(body_spans(q, f) == shifted(body_spans(r, 0), f));
        let first = p.subrange(spans(p)[b].0, spans(p)[b].1);
        assert(is_piece(first) && !first.contains('/'));
        assert(first[0] == r[0]);
        assert(first.contains(first[0]));
        if has_head_component(r) {
            let e = text::next_at(r, '/', 0);
            text::lemma_next_at(r, '/', 0);
            assert(shifted(body_spans(r, 0), f)[0] == spans(p)[b]);
            assert(body_spans(r, 0)[0].0 == 0);
            assert(!is_piece(r.subrange(0, 1))) by {
                assert(r.subrange(0, 1) =~= seq!['.']);
            }
            assert(first.len() > 1) by {
                if first.len() == 1 {
                    assert(first =~= seq!['.']);
                }
            }
            assert(first[1] == r[1]);
            assert(first.contains(first[1]));
        }
        assert(spans(r) == body_spans(r, 0));
        assert forall|i: int| 0 <= i < n - b implies components(r)[i] == components(p)[b + i] by {
            assert(spans(p).skip(b)[i] == spans(p)[b + i]);
            let s = spans(r)[i];
            assert(shifted(spans(r), f)[i] == (s.0 + f, s.1 + f));
            assert(r.subrange(s.0, s.1) =~= p.subrange(s.0 + f, s.1 + f));
        }
        assert(components(p) =~= components(p).take(b) + components(r));
    }
}

/// A span begins where the search for it began, or behind a slash.
proof fn lemma_body_starts(p: Seq<char>, from: int, i: int)
    requires
        0 <= from,
        0 <= i < body_spans(p, from).len(),
    ensures
        ({
            let s = body_spans(p, from)[i].0;
            from <= s < p.len() && (s == from || p[s - 1] == '/')
        }),
    decreases p.len() + 1 - from,
{
    text::lemma_next_at(p, '/', from);
    let e = text::next_at(p, '/', from);
    if is_piece(p.subrange(from, e)) {
        if i > 0 {
            lemma_body_starts(p, e + 1, i - 1);
        }
    } else {
        lemma_body_starts(p, e + 1, i);
    }
}

/// A component that is a name stands at the beginning of the path or right
/// behind a slash.
proof fn lemma_name_starts(p: Seq<char>, i: int)
    requires
        0 <= i < spans(p).len(),
        is_name(components(p)[i]),
    ensures
        spans(p)[i].0 == 0 || p[spans(p)[i].0 - 1] == '/',
{
    if has_head_component(p) {
        if i == 0 {
            assert(components(p)[0] == p.subrange(0, 1));
            assert(p.subrange(0, 1) =~= seq![p[0]]);
        } else if p[0] == '/' {
            lemma_body_starts(p, 1, i - 1);
        } else {
            assert(body_spans(p, 1).len() > 0);
            assert(p.len() > 1);
            text::lemma_next_at_is(p, '/', 1, 1);
            assert(p.subrange(1, 1).len() == 0);
            assert(body_spans(p, 1) == body_spans(p, 2));
            lemma_body_starts(p, 2, i - 1);
        }
    } else {
        lemma_body_starts(p, 0, i);
    }
}

/// The stem of a file name is not empty.
pub proof fn lemma_stem(n: Seq<char>)
    requires
        is_file_name(n),
    ensures
        0 < stem_len(n) <= n.len(),
{
    text::lemma_last_at(n, '.');
}

/// Another extension changes the last component alone.
pub proof fn lemma_with_extension(p: Seq<char>, ext: Seq<char>)
    requires
        file_name(p) is Some,
        ext.len() > 0,
        !ext.contains('/'),
    ensures
        components(with_extension(p, ext)) == components(p).drop_last().push(
            file_stem(p)->0 + seq!['.'] + ext,
        ),
{
    let k = components(p).len() - 1;
    let n = components(p)[k];
    lemma_file_name(p);
    lemma_stem(n);
    lemma_spans(p);
    lemma_name_starts(p, k);
    let s = spans(p)[k];
    let d = p.take(s.0);
    let whole = upto(p, k + 1);
    lemma_upto(p, k + 1);
    assert(components(p).take(k + 1) =~= components(p));
    assert(whole =~= d + n);
    assert(n[0] != '/') by {
        assert(n.contains(n[0]));
    }
    assert(joined_path(d, n) =~= whole);
    lemma_join_spans(d, n);
    assert(components(d) =~= components(p).drop_last());
    let stem = n.take(stem_len(n));
    let m = stem + seq!['.'] + ext;
    assert(m[0] == n[0]);
    assert(is_file_name(m)) by {
        assert forall|i: int| 0 <= i < m.len() implies m[i] != '/' by {
            if i < stem.len() {
                assert(m[i] == n[i]);
                assert(n.contains(n[i]));
            } else if i > stem.len() {
                assert(m[i] == ext[i - stem.len() - 1]);
                assert(ext.contains(ext[i - stem.len() - 1]));
            }
        }
        assert(!m.contains('/'));
        assert(m.len() >= 3);
        assert(seq!['/'].len() == 1 && seq!['.'].len() == 1 && seq!['.', '.'].len() == 2);
        assert(is_name(m));
    }
    assert(with_extension(p, ext) =~= d + m);
    assert(joined_path(d, m) =~= d + m);
    lemma_join_spans(d, m);
}

/// Components are ordered strictly and totally.
proof fn lemma_component_order(a: Seq<char>, b: Seq<char>, c: Seq<char>)
    ensures
        !component_before(a, a),
        a == b || component_before(a, b) || component_before(b, a),
        component_before(a, b) && component_before(b, c) ==> component_before(a, c),
{
    text::lemma_before_irreflexive(a);
    text::lemma_before_total(a, b);
    if text::text_before(a, b) && text::text_before(b, c) {
        text::lemma_before_transitive(a, b, c);
    }
}

/// No list of components comes before itself.
proof fn lemma_components_irreflexive(a: Seq<Seq<char>>)
    ensures
        !components_before(a, a),
    decreases a.len(),
{
    if a.len() > 0 {
        lemma_components_irreflexive(a.skip(1));
    }
}

/// Of two different lists of components one comes before the other.
proof fn lemma_components_total(a: Seq<Seq<char>>, b: Seq<Seq<char>>)
    ensures
        a == b || components_before(a, b) || components_before(b, a),
    decreases a.len(),
{
    if a.len() > 0 && b.len() > 0 {
        lemma_component_order(a[0], b[0], b[0]);
        if a[0] == b[0] {
            lemma_components_total(a.skip(1), b.skip(1));
            if a.skip(1) == b.skip(1) {
                assert(a.len() == a.skip(1).len() + 1 == b.len());
                assert forall|k: int| 0 <= k < a.len() implies a[k] == b[k] by {
                    if k > 0 {
                        assert(a[k] == a.skip(1)[k - 1]);
                        assert(b[k] == b.skip(1)[k - 1]);
                    }
                }
                assert(a =~= b);
            }
        }
    } else if a.len() == 0 && b.len() == 0 {
        assert(a =~= b);
    }
}

/// The order of lists of components is transitive.
proof fn lemma_components_transitive(a: Seq<Seq<char>>, b: Seq<Seq<char>>, c: Seq<Seq<char>>)
    requires
        components_before(a, b),
        components_before(b, c),
    ensures
        components_before(a, c),
    decreases a.len(),
{
    if a.len() > 0 {
        lemma_component_order(a[0], b[0], c[0]);
        lemma_component_order(b[0], c[0], a[0]);
        lemma_component_order(a[0], c[0], b[0]);
        if a[0] == b[0] && b[0] == c[0] {
            lemma_components_transitive(a.skip(1), b.skip(1), c.skip(1));
        } else if a[0] != b[0] && b[0] != c[0] {
            if a[0] == c[0] {
                lemma_component_order(a[0], b[0], a[0]);
            }
        }
    }
}

/// The order of paths: never both ways, and what does not come after something
/// that does not come after a third does not come after it. Paths that come in
/// neither order have the same components.
pub proof fn lemma_path_order(p: Seq<char>, q: Seq<char>, r: Seq<char>)
    ensures
        path_before(p, q) ==> !path_before(q, p),
        !path_before(q, p) && !path_before(r, q) ==> !path_before(r, p),
        !path_before(p, q) && !path_before(q, p) ==> components(p) == components(q),
{
    let a = components(p);
    let b = components(q);
    let c = components(r);
    lemma_components_irreflexive(a);
    lemma_components_total(a, b);
    lemma_components_total(b, c);
    if components_before(a, b) && components_before(b, a) {
        lemma_components_transitive(a, b, a);
    }
    if !components_before(b, a) && !components_before(c, b) && components_before(c, a) {
        lemma_components_irreflexive(c);
        if a == b {
        } else if b == c {
        } else {
            lemma_components_transitive(a, b, c);
            lemma_components_transitive(a, c, a);
        }
    }
}

// ------------------------------------------------------------- computation --

/// Positions in a path as mathematical integers.
pub open spec fn span_view(v: Seq<(usize, usize)>) -> Seq<(int, int)> {
    v.map_values(|s: (usize, usize)| (s.0 as int, s.1 as int))
}

/// Where the components of a path begin and end.
fn find_spans(chars: &Vec<char>) -> (r: Vec<(usize, usize)>)
    ensures
        span_view(r@) == spans(chars@),
        forall|i: int|
            0 <= i < r@.len() ==> (#[trigger] r@[i]).0 < r@[i].1 && r@[i].1 <= chars@.len(),
{
    let mut out: Vec<(usize, usize)> = Vec::new();
    let mut from: usize = 0;
    assert(span_view(out@) =~= Seq::<(int, int)>::empty());
    if chars.len() > 0 && (chars[0] == '/' || (chars[0] == '.' && (chars.len() == 1 || chars[1]
        == '/'))) {
        out.push((0, 1));
        from = 1;
        assert(span_view(out@) =~= seq![(0int, 1int)]);
    }
    assert(span_view(out@) + body_spans(chars@, from as int) =~= spans(chars@));
    while from < chars.len()
        invariant
            from <= chars@.len(),
            span_view(out@) + body_spans(chars@, from as int) == spans(chars@),
        decreases chars@.len() - from,
    {
        let end: usize = text::find_next(chars, '/', from);
        let ghost before = span_view(out@);
        let ghost piece = chars@.subrange(from as int, end as int);
        let ghost rest = body_spans(chars@, end + 1);
        if end > from && !(end - from == 1 && chars[from] == '.') {
            proof {
                if piece == seq!['.'] {
                    assert(piece[0] == '.');
                    assert(piece.len() == 1);
                }
            }
            out.push((from, end));
            assert(span_view(out@) =~= before.push((from as int, end as int)));
            assert(before + (seq![(from as int, end as int)] + rest) =~= before.push(
                (from as int, end as int),
            ) + rest);
        } else {
            proof {
                if end > from {
                    assert(piece =~= seq!['.']);
                }
            }
        }
        if end == chars.len() {
            from = end;
            assert(body_spans(chars@, end + 1) =~= body_spans(chars@, end as int));
        } else {
            from = end + 1;
        }
    }
    assert(span_view(out@) =~= spans(chars@));
    proof {
        lemma_spans(chars@);
        assert forall|i: int| 0 <= i < out@.len() implies (#[trigger] out@[i]).0 < out@[i].1
            && out@[i].1 <= chars@.len() by {
            assert(spans(chars@)[i] == span_view(out@)[i]);
        }
    }
    out
}

/// Whether `chars[from..to]`, a component, is a name.
fn is_name_at(chars: &Vec<char>, from: usize, to: usize) -> (r: bool)
    requires
        from < to <= chars@.len(),
    ensures
        r == is_name(chars@.subrange(from as int, to as int)),
{
    let ghost c = chars@.subrange(from as int, to as int);
    let n: usize = to - from;
    if n == 1 && (chars[from] == '/' || chars[from] == '.') {
        assert(c =~= seq![chars@[from as int]]);
        false
    } else if n == 2 && chars[from] == '.' && chars[from + 1] == '.' {
        assert(c =~= seq!['.', '.']);
        false
    } else {
        proof {
            if c == seq!['/'] || c == seq!['.'] {
                assert(c.len() == 1 && c[0] == chars@[from as int]);
            }
            if c == seq!['.', '.'] {
                assert(c.len() == 2 && c[0] == chars@[from as int] && c[1] == chars@[from + 1]);
            }
        }
        true
    }
}

/// The components of a path.
pub fn components_of(p: &str) -> (r: Vec<String>)
    ensures
        text::texts(r@) == components(p@),
{
    let chars = text::chars_of(p);
    let sp = find_spans(&chars);
    let mut out: Vec<String> = Vec::new();
    let mut i: usize = 0;
    while i < sp.len()
        invariant
            chars@ == p@,
            span_view(sp@) == spans(p@),
            forall|k: int|
                0 <= k < sp@.len() ==> (#[trigger] sp@[k]).0 < sp@[k].1 && sp@[k].1 <= chars@.len(),
            i <= sp@.len(),
            text::texts(out@) == components(p@).take(i as int),
        decreases sp@.len() - i,
    {
        let s = sp[i];
        text::push_string(&mut out, text::string_of(&chars, s.0, s.1));
        proof {
            assert(span_view(sp@)[i as int] == (s.0 as int, s.1 as int));
            assert(components(p@)[i as int] == p@.subrange(s.0 as int, s.1 as int));
            assert(components(p@).take(i + 1) =~= components(p@).take(i as int).push(
                components(p@)[i as int],
            ));
        }
        i += 1;
    }
    assert(components(p@).take(i as int) =~= components(p@));
    out
}

/// Whether two paths have the same components.
pub fn same_path(a: &str, b: &str) -> (r: bool)
    ensures
        r == (components(a@) == components(b@)),
{
    let x = components_of(a);
    let y = components_of(b);
    proof {
        assert(text::texts(x@).len() == x@.len());
        assert(text::texts(y@).len() == y@.len());
    }
    if x.len() != y.len() {
        return false;
    }
    let mut i: usize = 0;
    while i < x.len()
        invariant
            i <= x@.len() == y@.len(),
            text::texts(x@) == components(a@),
            text::texts(y@) == components(b@),
            forall|k: int| 0 <= k < i ==> components(a@)[k] == components(b@)[k],
        decreases x@.len() - i,
    {
        assert(components(a@)[i as int] == x@[i as int]@);
        assert(components(b@)[i as int] == y@[i as int]@);
        if !text::same(x[i].as_str(), y[i].as_str()) {
            return false;
        }
        i += 1;
    }
    assert(text::texts(x@).len() == x@.len());
    assert(text::texts(y@).len() == y@.len());
    assert(components(a@) =~= components(b@));
    true
}

/// Where the file name of a path begins and ends.
fn name_span(chars: &Vec<char>) -> (r: Option<(usize, usize)>)
    ensures
        match r {
            Some(s) => s.0 < s.1 <= chars@.len() && spans(chars@).len() > 0 && spans(chars@).last()
                == (s.0 as int, s.1 as int) && file_name(chars@) == Some(
                chars@.subrange(s.0 as int, s.1 as int),
            ),
            None => file_name(chars@) is None,
        },
{
    let sp = find_spans(chars);
    if sp.len() == 0 {
        assert(spans(chars@).len() == 0);
        return None;
    }
    let s = sp[sp.len() - 1];
    proof {
        assert(span_view(sp@).last() == (s.0 as int, s.1 as int));
        assert(components(chars@).last() == chars@.subrange(s.0 as int, s.1 as int));
    }
    if is_name_at(chars, s.0, s.1) {
        Some(s)
    } else {
        None
    }
}

/// The number of characters of `chars[from..to]`, a file name, that stand
/// before its extension.
fn stem_length(chars: &Vec<char>, from: usize, to: usize) -> (r: usize)
    requires
        from < to <= chars@.len(),
    ensures
        r == stem_len(chars@.subrange(from as int, to as int)),
        0 < r <= to - from,
{
    let ghost name = chars@.subrange(from as int, to as int);
    let mut i: usize = to;
    while i > from
        invariant
            from <= i <= to <= chars@.len(),
            name == chars@.subrange(from as int, to as int),
            forall|k: int| i - from <= k < name.len() ==> name[k] != '.',
        decreases i,
    {
        i -= 1;
        if chars[i] == '.' {
            proof {
                assert(name[i - from] == '.');
                text::lemma_last_at_is(name, '.', i - from);
            }
            return if i == from {
                to - from
            } else {
                i - from
            };
        }
    }
    proof {
        text::lemma_last_at_is(name, '.', -1);
    }
    to - from
}

/// The file name of a path.
pub fn file_name_of(p: &str) -> (r: Option<String>)
    ensures
        text::opt_text(r) == file_name(p@),
{
    let chars = text::chars_of(p);
    match name_span(&chars) {
        Some(s) => Some(text::string_of(&chars, s.0, s.1)),
        None => None,
    }
}

/// The file name of a path without its extension.
pub fn file_stem_of(p: &str) -> (r: Option<String>)
    ensures
        text::opt_text(r) == file_stem(p@),
{
    let chars = text::chars_of(p);
    match name_span(&chars) {
        Some(s) => {
            let n: usize = stem_length(&chars, s.0, s.1);
            let r = text::string_of(&chars, s.0, s.0 + n);
            assert(r@ =~= chars@.subrange(s.0 as int, s.1 as int).take(n as int));
            Some(r)
        },
        None => None,
    }
}

/// The extension of a path's file name.
pub fn extension_of(p: &str) -> (r: Option<String>)
    ensures
        text::opt_text(r) == extension(p@),
{
    let chars = text::chars_of(p);
    match name_span(&chars) {
        Some(s) => {
            let n: usize = stem_length(&chars, s.0, s.1);
            if n < s.1 - s.0 {
                let r = text::string_of(&chars, s.0 + n + 1, s.1);
                assert(r@ =~= chars@.subrange(s.0 as int, s.1 as int).skip(n + 1));
                Some(r)
            } else {
                None
            }
        },
        None => None,
    }
}

/// The path without its last component.
pub fn parent_of(p: &str) -> (r: Option<String>)
    ensures
        text::opt_text(r) == parent(p@),
{
    let chars = text::chars_of(p);
    let sp = find_spans(&chars);
    if sp.len() == 0 {
        assert(spans(chars@).len() == 0);
        return None;
    }
    let s = sp[sp.len() - 1];
    let ghost c = chars@.subrange(s.0 as int, s.1 as int);
    proof {
        assert(span_view(sp@).last() == (s.0 as int, s.1 as int));
        assert(components(chars@).last() == c);
    }
    if s.1 - s.0 == 1 && chars[s.0] == '/' {
        assert(c =~= seq!['/']);
        return None;
    }
    proof {
        if c == seq!['/'] {
            assert(c.len() == 1 && c[0] == chars@[s.0 as int]);
        }
    }
    let end: usize = if sp.len() >= 2 {
        sp[sp.len() - 2].1
    } else {
        0
    };
    proof {
        if sp@.len() >= 2 {
            assert(span_view(sp@)[sp@.len() - 2].1 == sp@[sp@.len() - 2].1);
        }
    }
    let r = text::string_of(&chars, 0, end);
    assert(r@ =~= upto(p@, components(p@).len() - 1));
    Some(r)
}

/// `b` underneath `a`.
pub fn join_path(a: &str, b: &str) -> (r: String)
    ensures
        r@ == joined_path(a@, b@),
{
    let ca = text::chars_of(a);
    let cb = text::chars_of(b);
    if cb.len() > 0 && cb[0] == '/' {
        b.to_owned()
    } else if ca.len() > 0 && ca[ca.len() - 1] != '/' {
        let mut r = a.to_owned();
        r.push('/');
        r.append(b);
        assert(r@ =~= a@ + seq!['/'] + b@);
        r
    } else {
        text::cat(a, b)
    }
}

/// The path with another extension.
pub fn replace_extension(p: &str, ext: &str) -> (r: String)
    ensures
        r@ == with_extension(p@, ext@),
{
    let chars = text::chars_of(p);
    match name_span(&chars) {
        Some(s) => {
            let n: usize = stem_length(&chars, s.0, s.1);
            let mut r = text::string_of(&chars, 0, s.0 + n);
            if !ext.is_empty() {
                r.push('.');
                r.append(ext);
            }
            assert(r@ =~= with_extension(p@, ext@));
            r
        },
        None => p.to_owned(),
    }
}

/// The path with another file name.
pub fn replace_file_name(p: &str, name: &str) -> (r: String)
    ensures
        r@ == with_file_name(p@, name@),
{
    let chars = text::chars_of(p);
    match name_span(&chars) {
        Some(_) => {
            proof {
                assert(components(p@).last() != seq!['/']);
            }
            match parent_of(p) {
                Some(d) => join_path(d.as_str(), name),
                None => join_path("", name),
            }
        },
        None => join_path(p, name),
    }
}

/// What is left of `p` behind the components of `base`.
pub fn strip_base(p: &str, base: &str) -> (r: Option<String>)
    ensures
        text::opt_text(r) == stripped(p@, base@),
{
    let chars = text::chars_of(p);
    let sp = find_spans(&chars);
    let c = components_of(p);
    let b = components_of(base);
    proof {
        assert(text::texts(c@).len() == c@.len());
        assert(text::texts(b@).len() == b@.len());
        assert(span_view(sp@).len() == sp@.len());
    }
    if b.len() > c.len() {
        return None;
    }
    let mut i: usize = 0;
    while i < b.len()
        invariant
            i <= b@.len() <= c@.len(),
            text::texts(c@) == components(p@),
            text::texts(b@) == components(base@),
            forall|k: int| 0 <= k < i ==> components(p@)[k] == components(base@)[k],
        decreases b@.len() - i,
    {
        proof {
            assert(text::texts(c@)[i as int] == c@[i as int]@);
            assert(text::texts(b@)[i as int] == b@[i as int]@);
        }
        if !text::same(c[i].as_str(), b[i].as_str()) {
            assert(components(p@).take(b@.len() as int)[i as int] != components(base@)[i as int]);
            return None;
        }
        i += 1;
    }
    assert(components(p@).take(b@.len() as int) =~= components(base@));
    proof {
        assert forall|k: int| 0 <= k < sp@.len() implies spans(p@)[k] == (
            (#[trigger] sp@[k]).0 as int,
            sp@[k].1 as int,
        ) by {
            assert(span_view(sp@)[k] == (sp@[k].0 as int, sp@[k].1 as int));
        }
    }
    let n: usize = sp.len();
    if b.len() == c.len() && b.len() > 0 {
        let r = text::string_of(&chars, 0, 0);
        assert(r@ =~= p@.take(0));
        Some(r)
    } else if n == 0 {
        let r = text::string_of(&chars, 0, 0);
        assert(r@ =~= upto(p@, 0));
        Some(r)
    } else {
        let from: usize = if b.len() == 0 {
            0
        } else {
            sp[b.len()].0
        };
        let to: usize = sp[n - 1].1;
        proof {
            lemma_spans(p@);
            assert(spans(p@)[n - 1] == spans(p@).last());
            if b@.len() > 0 {
                assert(spans(p@)[b@.len() as int].0 == from);
            }
        }
        let r = text::string_of(&chars, from, to);
        proof {
            if b@.len() == 0 {
                assert(r@ =~= upto(p@, components(p@).len() as int));
            }
        }
        Some(r)
    }
}

/// The place of a component's kind.
fn rank_of(c: &str) -> (r: u8)
    ensures
        r == kind_rank(c@),
{
    proof {
        reveal_strlit("/");
        reveal_strlit(".");
        reveal_strlit("..");
        assert("/"@ =~= seq!['/']);
        assert("."@ =~= seq!['.']);
        assert(".."@ =~= seq!['.', '.']);
    }
    if text::same(c, "/") {
        0
    } else if text::same(c, ".") {
        1
    } else if text::same(c, "..") {
        2
    } else {
        3
    }
}

/// Equal beginnings do not matter to [`components_before`].
proof fn lemma_components_after_common(a: Seq<Seq<char>>, b: Seq<Seq<char>>, n: int)
    requires
        0 <= n <= a.len(),
        n <= b.len(),
        a.take(n) == b.take(n),
    ensures
        components_before(a, b) == components_before(a.skip(n), b.skip(n)),
    decreases n,
{
    if n == 0 {
        assert(a.skip(0) =~= a);
        assert(b.skip(0) =~= b);
    } else {
        assert(a[0] == a.take(n)[0] && b[0] == b.take(n)[0]);
        let x = a.skip(1).take(n - 1);
        let y = b.skip(1).take(n - 1);
        assert forall|k: int| 0 <= k < n - 1 implies x[k] == y[k] by {
            assert(a[k + 1] == a.take(n)[k + 1] && b[k + 1] == b.take(n)[k + 1]);
            assert(x[k] == a[k + 1] && y[k] == b[k + 1]);
        }
        assert(x =~= y);
        lemma_components_after_common(a.skip(1), b.skip(1), n - 1);
        assert(a.skip(1).skip(n - 1) =~= a.skip(n));
        assert(b.skip(1).skip(n - 1) =~= b.skip(n));
    }
}

/// Whether one path comes before another.
pub fn path_is_before(p: &str, q: &str) -> (r: bool)
    ensures
        r == path_before(p@, q@),
{
    let a = components_of(p);
    let b = components_of(q);
    let ghost x = components(p@);
    let ghost y = components(q@);
    let mut i: usize = 0;
    while i < a.len() && i < b.len()
        invariant
            text::texts(a@) == x,
            text::texts(b@) == y,
            x == components(p@),
            y == components(q@),
            i <= a@.len(),
            i <= b@.len(),
            x.take(i as int) == y.take(i as int),
        decreases a@.len() - i,
    {
        proof {
            assert(text::texts(a@)[i as int] == a@[i as int]@);
            assert(text::texts(b@)[i as int] == b@[i as int]@);
        }
        if !text::same(a[i].as_str(), b[i].as_str()) {
            proof {
                lemma_components_after_common(x, y, i as int);
                assert(x.skip(i as int)[0] == a@[i as int]@);
                assert(y.skip(i as int)[0] == b@[i as int]@);
            }
            let ra: u8 = rank_of(a[i].as_str());
            let rb: u8 = rank_of(b[i].as_str());
            return ra < rb || (ra == 3 && rb == 3 && text::is_before(a[i].as_str(), b[i].as_str()));
        }
        assert(x.take(i + 1) =~= x.take(i as int).push(x[i as int]));
        assert(y.take(i + 1) =~= y.take(i as int).push(y[i as int]));
        i += 1;
    }
    proof {
        lemma_components_after_common(x, y, i as int);
        assert(x.len() == a@.len() && y.len() == b@.len());
    }
    i < b.len()
}

} // verus!
