//! Lexical cleaning of URL paths.
//!
//! `clean` normalizes a path the way a POSIX path is normalized: runs of `/`
//! collapse to one, `.` segments disappear, a `..` segment removes the
//! segment before it, and `..` segments left over at the root are absorbed.
//! The result always starts with `/`; a trailing slash in the input is kept.
//!
//! The model splits the rooted path into its `/`-separated segments
//! (`split_segs`), folds them through a stack (`norm_segs`), and renders the
//! surviving segments back into a rooted path (`render`).

use vstd::prelude::*;

verus! {

/// The input re-rooted: a path that does not start with `/` is treated as if
/// `/` were prepended.
pub open spec fn rooted_of(p: Seq<char>) -> Seq<char> {
    if p.len() > 0 && p[0] == '/' {
        p
    } else {
        seq!['/'] + p
    }
}

/// The `/`-separated segments of `q`, empty segments included, so that
/// `split_segs("/a//b")` is `["", "a", "", "b"]`.
pub open spec fn split_segs(q: Seq<char>) -> Seq<Seq<char>>
    decreases q.len(),
{
    if q.len() == 0 {
        seq![Seq::<char>::empty()]
    } else if q[0] == '/' {
        seq![Seq::<char>::empty()] + split_segs(q.drop_first())
    } else {
        let rest = split_segs(q.drop_first());
        seq![seq![q[0]] + rest[0]] + rest.drop_first()
    }
}

/// One step of normalization: empty and `.` segments vanish, `..` removes
/// the last surviving segment (or nothing, at the root), anything else is
/// kept verbatim.
pub open spec fn norm_segs(segs: Seq<Seq<char>>) -> Seq<Seq<char>>
    decreases segs.len(),
{
    if segs.len() == 0 {
        Seq::<Seq<char>>::empty()
    } else {
        let prev = norm_segs(segs.drop_last());
        let s = segs.last();
        if s.len() == 0 || s == seq!['.'] {
            prev
        } else if s == seq!['.', '.'] {
            if prev.len() > 0 {
                prev.drop_last()
            } else {
                prev
            }
        } else {
            prev.push(s)
        }
    }
}

/// Whether the cleaned path must keep a trailing slash: the rooted input
/// ends in `/`, or its final segment is exactly `.`.
pub open spec fn has_trailing(q: Seq<char>) -> bool {
    ||| (q.len() > 1 && q.last() == '/')
    ||| (q.len() >= 2 && q[q.len() - 2] == '/' && q.last() == '.')
}

/// The segments laid out again, one `/` before each: `["a", "b"]` becomes
/// `"/a/b"`.
pub open spec fn render_inner(segs: Seq<Seq<char>>) -> Seq<char>
    decreases segs.len(),
{
    if segs.len() == 0 {
        Seq::<char>::empty()
    } else {
        seq!['/'] + segs[0] + render_inner(segs.drop_first())
    }
}

/// The cleaned path for a surviving segment stack: `/` alone when nothing
/// survived, otherwise the joined segments with the trailing slash restored.
pub open spec fn render(segs: Seq<Seq<char>>, trailing: bool) -> Seq<char> {
    if segs.len() == 0 {
        seq!['/']
    } else if trailing {
        render_inner(segs) + seq!['/']
    } else {
        render_inner(segs)
    }
}

/// The result of lexically cleaning `p`.
pub open spec fn spec_clean(p: Seq<char>) -> Seq<char> {
    let q = rooted_of(p);
    render(norm_segs(split_segs(q)), has_trailing(q))
}

/// The characters of `s`, one by one.
pub(crate) fn str_chars(s: &str) -> (r: Vec<char>)
    ensures
        r@ == s@,
{
    broadcast use vstd::string::axiom_spec_iter;

    let mut r: Vec<char> = Vec::new();
    for c in it: s.chars()
        invariant
            it.seq() == s@,
            r@ == it.seq().take(it.index() as int),
    {
        r.push(c);
    }
    r
}

/// Splitting yields at least one segment, even for the empty path.
proof fn lemma_split_nonempty(q: Seq<char>)
    ensures
        split_segs(q).len() >= 1,
    decreases q.len(),
{
    if q.len() > 0 {
        lemma_split_nonempty(q.drop_first());
    }
}

/// The `/`-separated segments of `q`, as a vector.
fn split_chars(q: &Vec<char>) -> (r: Vec<Vec<char>>)
    ensures
        r.deep_view() == split_segs(q@),
{
    let n = q.len();
    let mut done: Vec<Vec<char>> = Vec::new();
    let mut cur: Vec<char> = Vec::new();
    let mut i: usize = 0;
    proof {
        lemma_split_nonempty(q@);
        assert(q@.skip(0) == q@);
        assert(split_segs(q@) =~= done.deep_view() + seq![cur@ + split_segs(q@.skip(0)).first()]
            + split_segs(q@.skip(0)).drop_first());
    }
    while i < n
        invariant
            n == q.len(),
            i <= n,
            split_segs(q@) == done.deep_view() + seq![cur@ + split_segs(
                q@.skip(i as int),
            ).first()] + split_segs(q@.skip(i as int)).drop_first(),
        decreases n - i,
    {
        proof {
            assert(q@.skip(i as int).len() > 0);
            assert(q@.skip(i as int)[0] == q@[i as int]);
            assert(q@.skip(i as int).drop_first() =~= q@.skip(i as int + 1));
            lemma_split_nonempty(q@.skip(i as int + 1));
        }
        let ghost old_done = done.deep_view();
        let ghost old_cur = cur@;
        if q[i] == '/' {
            done.push(cur);
            cur = Vec::new();
            proof {
                let rest = split_segs(q@.skip(i as int + 1));
                assert(split_segs(q@.skip(i as int)) == seq![Seq::<char>::empty()] + rest);
                assert(done.deep_view() =~~= old_done.push(old_cur));
                assert(rest =~= seq![rest.first()] + rest.drop_first());
                assert(old_done + seq![old_cur + Seq::<char>::empty()] + rest =~= done.deep_view()
                    + seq![cur@ + rest.first()] + rest.drop_first());
            }
        } else {
            cur.push(q[i]);
            proof {
                let rest = split_segs(q@.skip(i as int + 1));
                assert(split_segs(q@.skip(i as int)) == seq![seq![q@[i as int]] + rest[0]]
                    + rest.drop_first());
                assert(old_cur + (seq![q@[i as int]] + rest[0]) =~= cur@ + rest.first());
            }
        }
        i += 1;
    }
    let ghost final_segs = done.deep_view().push(cur@);
    proof {
        assert(q@.skip(n as int) =~= Seq::<char>::empty());
        assert(split_segs(q@) =~= final_segs);
    }
    done.push(cur);
    proof {
        assert(done.deep_view() =~~= final_segs);
    }
    done
}

/// Folds the segments through the normalization stack.
fn normalize(segs: Vec<Vec<char>>) -> (r: Vec<Vec<char>>)
    ensures
        r.deep_view() == norm_segs(segs.deep_view()),
{
    let n = segs.len();
    let mut r: Vec<Vec<char>> = Vec::new();
    proof {
        assert(segs.deep_view().take(0) =~= Seq::<Seq<char>>::empty());
        assert(r.deep_view() =~= norm_segs(segs.deep_view().take(0)));
    }
    for k in 0..n
        invariant
            n == segs.len(),
            r.deep_view() == norm_segs(segs.deep_view().take(k as int)),
    {
        let ghost prefix = segs.deep_view().take(k as int);
        let ghost prev = r.deep_view();
        proof {
            assert(segs.deep_view().take(k as int + 1).drop_last() =~= prefix);
            assert(segs.deep_view().take(k as int + 1).last() == segs@[k as int].deep_view());
            assert(segs@[k as int].deep_view() =~= segs@[k as int]@);
        }
        let seg = &segs[k];
        if seg.len() == 0 {
        } else if seg.len() == 1 && seg[0] == '.' {
            proof {
                assert(seg@ =~= seq!['.']);
            }
        } else if seg.len() == 2 && seg[0] == '.' && seg[1] == '.' {
            proof {
                assert(seg@ =~= seq!['.', '.']);
            }
            if r.len() > 0 {
                r.pop();
                proof {
                    assert(r.deep_view() =~~= prev.drop_last());
                }
            }
        } else {
            proof {
                assert(seg@ != seq!['.']);
                assert(seg@ != seq!['.', '.']);
            }
            let copy = seg.clone();
            r.push(copy);
            proof {
                assert(r.deep_view() =~~= prev.push(seg@));
            }
        }
    }
    proof {
        assert(segs.deep_view().take(n as int) =~= segs.deep_view());
    }
    r
}

/// Lays the surviving segments out again as a rooted path.
fn render_chars(segs: &Vec<Vec<char>>, trailing: bool) -> (r: Vec<char>)
    ensures
        r@ == render(segs.deep_view(), trailing),
{
    let n = segs.len();
    if n == 0 {
        let mut r: Vec<char> = Vec::new();
        r.push('/');
        proof {
            assert(r@ =~= seq!['/']);
        }
        return r;
    }
    let mut r: Vec<char> = Vec::new();
    proof {
        assert(segs.deep_view().take(0) =~= Seq::<Seq<char>>::empty());
        assert(r@ =~= render_inner(segs.deep_view().take(0)));
    }
    for k in 0..n
        invariant
            n == segs.len(),
            r@ == render_inner(segs.deep_view().take(k as int)),
    {
        let ghost prefix = segs.deep_view().take(k as int);
        proof {
            lemma_render_inner_app(prefix, seq![segs@[k as int].deep_view()]);
            assert(prefix + seq![segs@[k as int].deep_view()] =~= segs.deep_view().take(
                k as int + 1,
            ));
            assert(seq![segs@[k as int].deep_view()].drop_first() =~= Seq::<Seq<char>>::empty());
            assert(render_inner(Seq::<Seq<char>>::empty()) =~= Seq::<char>::empty());
            assert(seq![segs@[k as int].deep_view()][0] == segs@[k as int].deep_view());
            assert(render_inner(seq![segs@[k as int].deep_view()]) =~= seq!['/']
                + segs@[k as int].deep_view());
            assert(segs@[k as int].deep_view() =~= segs@[k as int]@);
        }
        r.push('/');
        let seg = &segs[k];
        let m = seg.len();
        for j in 0..m
            invariant
                m == seg.len(),
                r@ == render_inner(segs.deep_view().take(k as int)) + seq!['/'] + seg@.take(
                    j as int,
                ),
        {
            r.push(seg[j]);
            proof {
                assert(seg@.take(j as int).push(seg@[j as int]) =~= seg@.take(j as int + 1));
                assert(r@ =~= render_inner(segs.deep_view().take(k as int)) + seq!['/'] + seg@.take(
                    j as int + 1,
                ));
            }
        }
        proof {
            assert(seg@.take(m as int) =~= seg@);
            assert(r@ =~= render_inner(segs.deep_view().take(k as int + 1)));
        }
    }
    proof {
        assert(segs.deep_view().take(n as int) =~= segs.deep_view());
    }
    if trailing {
        r.push('/');
        proof {
            assert(r@ =~= render_inner(segs.deep_view()) + seq!['/']);
        }
    }
    r
}

/// `render_inner` distributes over concatenation: each segment contributes
/// its own `/`-prefixed run of characters.
proof fn lemma_render_inner_app(a: Seq<Seq<char>>, b: Seq<Seq<char>>)
    ensures
        render_inner(a + b) == render_inner(a) + render_inner(b),
    decreases a.len(),
{
    if a.len() == 0 {
        assert(a + b =~= b);
        assert(render_inner(a) + render_inner(b) =~= render_inner(b));
    } else {
        lemma_render_inner_app(a.drop_first(), b);
        assert((a + b).drop_first() =~= a.drop_first() + b);
        assert((a + b)[0] == a[0]);
        assert(seq!['/'] + a[0] + (render_inner(a.drop_first()) + render_inner(b)) =~= (seq!['/']
            + a[0] + render_inner(a.drop_first())) + render_inner(b));
    }
}

/// Builds a `String` out of a sequence of characters.
///
/// Relies on `String`'s `FromIterator<char>` impl of std: collecting
/// characters yields the string of exactly those characters in order.
#[verifier::external_body]
fn chars_to_string(v: Vec<char>) -> (r: String)
    ensures
        r@ == v@,
{
    String::from_iter(v)
}

/// One segment laid out at the end: a rendered stack ends in `/` followed by
/// its last segment.
proof fn lemma_render_inner_last(st: Seq<Seq<char>>)
    requires
        st.len() > 0,
    ensures
        render_inner(st) == render_inner(st.drop_last()) + seq!['/'] + st.last(),
{
    lemma_render_inner_app(st.drop_last(), seq![st.last()]);
    assert(st.drop_last() + seq![st.last()] =~= st);
    assert(seq![st.last()].drop_first() =~= Seq::<Seq<char>>::empty());
    assert(seq![st.last()][0] == st.last());
    assert(render_inner(Seq::<Seq<char>>::empty()) == Seq::<char>::empty());
    assert(render_inner(seq![st.last()]) == seq!['/'] + st.last() + Seq::<char>::empty());
    assert(render_inner(st.drop_last()) + (seq!['/'] + st.last() + Seq::<char>::empty()) =~=
    render_inner(st.drop_last()) + seq!['/'] + st.last());
}

/// How a cleaned path takes itself apart again: its segments are the
/// normalized stack framed by the empty segments the root (and a kept
/// trailing slash) contribute, its normalization is that same stack, it is
/// already rooted, and it keeps its trailing slash exactly when the stack is
/// non-empty and the input asked for one.
proof fn lemma_clean_split(p: Seq<char>)
    ensures
        valid_stack(norm_segs(split_segs(rooted_of(p)))),
        ({
            let st = norm_segs(split_segs(rooted_of(p)));
            let t = has_trailing(rooted_of(p));
            let c = spec_clean(p);
            &&& split_segs(c) == if st.len() == 0 {
                seq![Seq::<char>::empty(), Seq::<char>::empty()]
            } else if t {
                (seq![Seq::<char>::empty()] + st).push(Seq::<char>::empty())
            } else {
                seq![Seq::<char>::empty()] + st
            }
            &&& norm_segs(split_segs(c)) == st
            &&& rooted_of(c) == c
            &&& c.len() > 0 && c[0] == '/'
            &&& has_trailing(c) == (st.len() > 0 && t)
        }),
{
    let q = rooted_of(p);
    let st = norm_segs(split_segs(q));
    let t = has_trailing(q);
    let c = spec_clean(p);
    let e = Seq::<char>::empty();
    lemma_split_no_slash(q);
    lemma_norm_valid(split_segs(q));
    if st.len() == 0 {
        assert(c == seq!['/']);
        assert(c.drop_first() =~= e);
        assert(split_segs(c) == seq![e] + split_segs(e));
        assert(split_segs(c) =~= seq![e, e]);
        let two = seq![e, e];
        assert(two.drop_last() =~= seq![e]);
        assert(seq![e].drop_last() =~= Seq::<Seq<char>>::empty());
        assert(seq![e].last() == e);
        assert(norm_segs(Seq::<Seq<char>>::empty()) == Seq::<Seq<char>>::empty());
        assert(norm_segs(seq![e]) == Seq::<Seq<char>>::empty());
        assert(two.last() == e);
        assert(norm_segs(two) =~= st);
        assert(!has_trailing(c));
    } else {
        assert(forall|i: int| 0 <= i < st.len() ==> !(#[trigger] st[i]).contains('/'));
        let ri = render_inner(st);
        lemma_split_render_inner(st);
        assert(ri == seq!['/'] + st[0] + render_inner(st.drop_first()));
        assert(ri.len() > 0 && ri[0] == '/');
        assert(seq![e].drop_last() =~= Seq::<Seq<char>>::empty());
        assert(seq![e].last() == e);
        assert(norm_segs(Seq::<Seq<char>>::empty()) == Seq::<Seq<char>>::empty());
        assert(norm_segs(seq![e]) =~= Seq::<Seq<char>>::empty());
        lemma_norm_append_valid(seq![e], st);
        assert(norm_segs(seq![e] + st) =~= st);
        lemma_render_inner_last(st);
        let l = st.last();
        assert(valid_seg(l));
        if t {
            assert(c == ri + seq!['/']);
            lemma_split_append_slash(ri);
            lemma_norm_append_empty(seq![e] + st);
            assert(c.last() == '/' && c.len() > 1);
            assert(has_trailing(c));
        } else {
            assert(c == ri);
            assert(c == render_inner(st.drop_last()) + seq!['/'] + l);
            assert(c.last() == l.last());
            assert(l.last() != '/') by {
                if l.last() == '/' {
                    assert(l.contains('/'));
                }
            }
            if c.last() == '.' {
                if l.len() == 1 {
                    assert(l =~= seq!['.']);
                    assert(false);
                } else {
                    assert(c[c.len() - 2] == l[l.len() - 2]);
                    assert(l[l.len() - 2] != '/') by {
                        if l[l.len() - 2] == '/' {
                            assert(l.contains('/'));
                        }
                    }
                }
            }
            assert(!has_trailing(c));
        }
    }
}

/// Cleaning is idempotent: a cleaned path cleans to itself.
pub proof fn lemma_clean_idempotent(p: Seq<char>)
    ensures
        spec_clean(spec_clean(p)) == spec_clean(p),
{
    let q = rooted_of(p);
    let st = norm_segs(split_segs(q));
    let t = has_trailing(q);
    let c = spec_clean(p);
    lemma_clean_split(p);
    if st.len() == 0 {
        assert(spec_clean(c) == render(st, has_trailing(c)));
        assert(spec_clean(c) == c);
    } else {
        assert(spec_clean(c) == render(st, st.len() > 0 && t));
        assert(render(st, st.len() > 0 && t) == render(st, t));
    }
}

/// A cleaned path is never empty and always starts with `/`.
pub proof fn lemma_clean_rooted(p: Seq<char>)
    ensures
        spec_clean(p).len() > 0,
        spec_clean(p)[0] == '/',
{
    lemma_clean_split(p);
}

/// A cleaned path holds no `..` segment: excess `..` segments are absorbed
/// at the root, and never climb above it.
pub proof fn lemma_clean_no_dot_dot(p: Seq<char>)
    ensures
        forall|i: int|
            0 <= i < split_segs(spec_clean(p)).len() ==> #[trigger] split_segs(spec_clean(p))[i]
                != seq!['.', '.'],
{
    lemma_clean_split(p);
    let st = norm_segs(split_segs(rooted_of(p)));
    let e = Seq::<char>::empty();
    assert(e != seq!['.', '.']);
    assert forall|i: int| 0 <= i < split_segs(spec_clean(p)).len() implies #[trigger] split_segs(
        spec_clean(p),
    )[i] != seq!['.', '.'] by {
        let segs = split_segs(spec_clean(p));
        if segs[i] != e {
            assert(1 <= i < 1 + st.len());
            assert(segs[i] == st[i - 1]);
            assert(valid_seg(st[i - 1]));
        }
    }
}

/// Lexically cleans a URL path.
///
/// The following rules are applied until no further processing can be done:
/// runs of slashes collapse to a single slash, `.` segments are dropped, a
/// `..` segment removes the segment written before it, and `..` segments at
/// the root are dropped. The result always starts with `/`; the empty path
/// cleans to `/`; a trailing slash is preserved.
pub fn clean(p: &str) -> (r: String)
    ensures
        r@ == spec_clean(p@),
{
    let mut q = str_chars(p);
    if q.len() == 0 || q[0] != '/' {
        q.insert(0, '/');
        proof {
            assert(q@ =~= rooted_of(p@));
        }
    }
    let n = q.len();
    let trailing = (n > 1 && q[n - 1] == '/') || (n >= 2 && q[n - 2] == '/' && q[n - 1] == '.');
    proof {
        assert(trailing == has_trailing(q@));
    }
    let segs = split_chars(&q);
    let stack = normalize(segs);
    let out = render_chars(&stack, trailing);
    chars_to_string(out)
}

/// A segment as it can appear in a normalized stack: non-empty, free of `/`,
/// and neither `.` nor `..`.
pub open spec fn valid_seg(s: Seq<char>) -> bool {
    &&& s.len() > 0
    &&& !s.contains('/')
    &&& s != seq!['.']
    &&& s != seq!['.', '.']
}

/// Every segment of the stack is a `valid_seg`.
pub open spec fn valid_stack(st: Seq<Seq<char>>) -> bool {
    forall|i: int| 0 <= i < st.len() ==> valid_seg(#[trigger] st[i])
}

/// No segment produced by splitting contains a `/`.
proof fn lemma_split_no_slash(q: Seq<char>)
    ensures
        forall|i: int|
            0 <= i < split_segs(q).len() ==> !(#[trigger] split_segs(q)[i]).contains('/'),
    decreases q.len(),
{
    if q.len() == 0 {
        assert(!Seq::<char>::empty().contains('/'));
    } else if q[0] == '/' {
        lemma_split_no_slash(q.drop_first());
        assert(!Seq::<char>::empty().contains('/'));
        assert forall|i: int| 0 <= i < split_segs(q).len() implies !(#[trigger] split_segs(
            q,
        )[i]).contains('/') by {
            if i > 0 {
                assert(split_segs(q)[i] == split_segs(q.drop_first())[i - 1]);
            }
        }
    } else {
        lemma_split_no_slash(q.drop_first());
        let rest = split_segs(q.drop_first());
        lemma_split_nonempty(q.drop_first());
        assert(!(seq![q[0]] + rest[0]).contains('/')) by {
            if (seq![q[0]] + rest[0]).contains('/') {
                let j = choose|j: int|
                    0 <= j < (seq![q[0]] + rest[0]).len() && (seq![q[0]] + rest[0])[j] == '/';
                if j == 0 {
                    assert(q[0] == '/');
                } else {
                    assert(rest[0][j - 1] == '/');
                    assert(rest[0].contains('/'));
                }
            }
        }
        assert forall|i: int| 0 <= i < split_segs(q).len() implies !(#[trigger] split_segs(
            q,
        )[i]).contains('/') by {
            if i > 0 {
                assert(split_segs(q)[i] == rest.drop_first()[i - 1]);
                assert(rest.drop_first()[i - 1] == rest[i]);
            }
        }
    }
}

/// Normalizing segments that are free of `/` yields a valid stack.
proof fn lemma_norm_valid(segs: Seq<Seq<char>>)
    requires
        forall|i: int| 0 <= i < segs.len() ==> !(#[trigger] segs[i]).contains('/'),
    ensures
        valid_stack(norm_segs(segs)),
    decreases segs.len(),
{
    if segs.len() > 0 {
        lemma_norm_valid(segs.drop_last());
        let prev = norm_segs(segs.drop_last());
        let s = segs.last();
        if s.len() == 0 || s == seq!['.'] {
        } else if s == seq!['.', '.'] {
            if prev.len() > 0 {
                assert(valid_stack(prev.drop_last())) by {
                    assert(forall|i: int|
                        0 <= i < prev.drop_last().len() ==> prev.drop_last()[i] == prev[i]);
                }
            }
        } else {
            assert(!s.contains('/'));
            assert(valid_stack(prev.push(s))) by {
                assert(forall|i: int| 0 <= i < prev.len() ==> prev.push(s)[i] == prev[i]);
                assert(prev.push(s).last() == s);
            }
        }
    }
}

/// Valid segments pass through normalization untouched and pop nothing.
proof fn lemma_norm_append_valid(a: Seq<Seq<char>>, st: Seq<Seq<char>>)
    requires
        valid_stack(st),
    ensures
        norm_segs(a + st) == norm_segs(a) + st,
    decreases st.len(),
{
    if st.len() == 0 {
        assert(a + st =~= a);
        assert(norm_segs(a) + st =~= norm_segs(a));
    } else {
        assert(valid_stack(st.drop_last())) by {
            assert(forall|i: int|
                0 <= i < st.drop_last().len() ==> st.drop_last()[i] == st[i]);
        }
        lemma_norm_append_valid(a, st.drop_last());
        assert((a + st).drop_last() =~= a + st.drop_last());
        assert((a + st).last() == st.last());
        assert(valid_seg(st.last()));
        assert(norm_segs(a + st) == norm_segs(a + st.drop_last()).push(st.last()));
        assert((norm_segs(a) + st.drop_last()).push(st.last()) =~= norm_segs(a) + st);
    }
}

/// Appending one empty segment changes nothing under normalization.
proof fn lemma_norm_append_empty(a: Seq<Seq<char>>)
    ensures
        norm_segs(a.push(Seq::<char>::empty())) == norm_segs(a),
{
    assert(a.push(Seq::<char>::empty()).drop_last() =~= a);
    assert(a.push(Seq::<char>::empty()).last() == Seq::<char>::empty());
}

/// A slash-free prefix only lengthens the first segment of a split.
proof fn lemma_split_prepend(a: Seq<char>, b: Seq<char>)
    requires
        !a.contains('/'),
    ensures
        split_segs(a + b) == seq![a + split_segs(b)[0]] + split_segs(b).drop_first(),
    decreases a.len(),
{
    lemma_split_nonempty(b);
    if a.len() == 0 {
        assert(a + b =~= b);
        assert(a + split_segs(b)[0] =~= split_segs(b)[0]);
        assert(seq![split_segs(b)[0]] + split_segs(b).drop_first() =~= split_segs(b));
    } else {
        assert(a[0] != '/') by {
            if a[0] == '/' {
                assert(a.contains('/'));
            }
        }
        assert(!a.drop_first().contains('/')) by {
            if a.drop_first().contains('/') {
                let j = choose|j: int|
                    0 <= j < a.drop_first().len() && a.drop_first()[j] == '/';
                assert(a[j + 1] == '/');
                assert(a.contains('/'));
            }
        }
        lemma_split_prepend(a.drop_first(), b);
        assert((a + b).len() > 0);
        assert((a + b)[0] == a[0]);
        assert((a + b).drop_first() =~= a.drop_first() + b);
        let rest = split_segs(a.drop_first() + b);
        assert(rest[0] == a.drop_first() + split_segs(b)[0]);
        assert(rest.drop_first() =~= split_segs(b).drop_first());
        assert(seq![a[0]] + (a.drop_first() + split_segs(b)[0]) =~= a + split_segs(b)[0]);
    }
}

/// A trailing slash splits off exactly one more empty segment.
proof fn lemma_split_append_slash(q: Seq<char>)
    ensures
        split_segs(q + seq!['/']) == split_segs(q).push(Seq::<char>::empty()),
    decreases q.len(),
{
    if q.len() == 0 {
        assert(q + seq!['/'] =~= seq!['/']);
        assert((q + seq!['/']).len() == 1 && (q + seq!['/'])[0] == '/');
        assert((q + seq!['/']).drop_first() =~= Seq::<char>::empty());
        assert(split_segs(Seq::<char>::empty()) == seq![Seq::<char>::empty()]);
        assert(split_segs(q + seq!['/']) == seq![Seq::<char>::empty()] + split_segs(
            (q + seq!['/']).drop_first(),
        ));
        assert(split_segs(q + seq!['/']) =~= split_segs(q).push(Seq::<char>::empty()));
    } else {
        lemma_split_append_slash(q.drop_first());
        assert((q + seq!['/'])[0] == q[0]);
        assert((q + seq!['/']).drop_first() =~= q.drop_first() + seq!['/']);
        lemma_split_nonempty(q.drop_first());
        let rest = split_segs(q.drop_first());
        if q[0] == '/' {
            assert(seq![Seq::<char>::empty()] + rest.push(Seq::<char>::empty()) =~= (seq![
                Seq::<char>::empty(),
            ] + rest).push(Seq::<char>::empty()));
        } else {
            assert(rest.push(Seq::<char>::empty())[0] == rest[0]);
            assert(rest.push(Seq::<char>::empty()).drop_first() =~= rest.drop_first().push(
                Seq::<char>::empty(),
            ));
            assert(seq![seq![q[0]] + rest[0]] + rest.drop_first().push(Seq::<char>::empty()) =~= (
            seq![seq![q[0]] + rest[0]] + rest.drop_first()).push(Seq::<char>::empty()));
        }
    }
}

/// Splitting a rendered stack recovers the stack, behind the one empty
/// segment that the leading slash contributes.
proof fn lemma_split_render_inner(st: Seq<Seq<char>>)
    requires
        st.len() > 0,
        forall|i: int| 0 <= i < st.len() ==> !(#[trigger] st[i]).contains('/'),
    ensures
        split_segs(render_inner(st)) == seq![Seq::<char>::empty()] + st,
    decreases st.len(),
{
    let tail = render_inner(st.drop_first());
    assert(render_inner(st) == seq!['/'] + st[0] + tail);
    assert(render_inner(st).len() > 0);
    assert(render_inner(st)[0] == '/');
    assert(render_inner(st).drop_first() =~= st[0] + tail);
    lemma_split_prepend(st[0], tail);
    if st.len() == 1 {
        assert(st.drop_first() =~= Seq::<Seq<char>>::empty());
        assert(tail == Seq::<char>::empty());
        assert(split_segs(tail) == seq![Seq::<char>::empty()]);
        assert(st[0] + split_segs(tail)[0] =~= st[0]);
        assert(split_segs(st[0] + tail) =~= seq![st[0]]);
        assert(seq![Seq::<char>::empty()] + seq![st[0]] =~= seq![Seq::<char>::empty()] + st);
    } else {
        assert(forall|i: int|
            0 <= i < st.drop_first().len() ==> st.drop_first()[i] == st[i + 1]);
        lemma_split_render_inner(st.drop_first());
        assert(split_segs(tail)[0] == Seq::<char>::empty());
        assert(st[0] + split_segs(tail)[0] =~= st[0]);
        assert(split_segs(tail).drop_first() =~= st.drop_first());
        assert(split_segs(st[0] + tail) =~= seq![st[0]] + st.drop_first());
        assert(seq![Seq::<char>::empty()] + (seq![st[0]] + st.drop_first()) =~= seq![
            Seq::<char>::empty(),
        ] + st);
    }
}

} // verus!
