//! Lexical normalization of caller-supplied relative paths.
//!
//! Normalization is purely textual: it cannot see symbolic links, so a link
//! inside the served root may still point outside it. Guarding against that
//! is left to the deployment.
use vstd::prelude::*;
use vstd::string::*;

verus! {

/// The pieces of `s` between separators, as `str::split('/')` yields them:
/// one more piece than there are separators, empty pieces included.
pub open spec fn pieces(s: Seq<char>) -> Seq<Seq<char>>
    decreases s.len(),
{
    if s.len() == 0 {
        seq![Seq::<char>::empty()]
    } else {
        let prev = pieces(s.drop_last());
        if s.last() == '/' {
            prev.push(Seq::<char>::empty())
        } else {
            prev.drop_last().push(prev.last().push(s.last()))
        }
    }
}

/// The segment `.`.
pub open spec fn cur_dir() -> Seq<char> {
    seq!['.']
}

/// The segment `..`.
pub open spec fn parent_dir() -> Seq<char> {
    seq!['.', '.']
}

/// Applies one segment to the retained segments: empty pieces and `.` are
/// dropped, `..` removes the last retained segment when there is one, and
/// anything else is kept verbatim.
pub open spec fn step(kept: Seq<Seq<char>>, seg: Seq<char>) -> Seq<Seq<char>> {
    if seg.len() == 0 || seg == cur_dir() {
        kept
    } else if seg == parent_dir() {
        if kept.len() > 0 {
            kept.drop_last()
        } else {
            kept
        }
    } else {
        kept.push(seg)
    }
}

/// Lexical resolution of `segs`, starting from the retained segments `kept`.
pub open spec fn resolve_from(kept: Seq<Seq<char>>, segs: Seq<Seq<char>>) -> Seq<Seq<char>>
    decreases segs.len(),
{
    if segs.len() == 0 {
        kept
    } else {
        step(resolve_from(kept, segs.drop_last()), segs.last())
    }
}

/// The normalized segments of a raw path.
pub open spec fn normal_segments(s: Seq<char>) -> Seq<Seq<char>> {
    resolve_from(Seq::empty(), pieces(s))
}

/// Segments joined with `/` between them.
pub open spec fn join(segs: Seq<Seq<char>>) -> Seq<char>
    decreases segs.len(),
{
    if segs.len() == 0 {
        Seq::empty()
    } else if segs.len() == 1 {
        segs[0]
    } else {
        join(segs.drop_last()) + seq!['/'] + segs.last()
    }
}

/// The normalized form of a raw path, as text.
pub open spec fn normalized(s: Seq<char>) -> Seq<char> {
    join(normal_segments(s))
}

/// A segment that names an entry of a directory: not empty, not `.` or
/// `..`, and free of separators.
pub open spec fn is_normal(seg: Seq<char>) -> bool {
    &&& seg.len() > 0
    &&& seg != cur_dir()
    &&& seg != parent_dir()
    &&& !seg.contains('/')
}

pub open spec fn all_normal(segs: Seq<Seq<char>>) -> bool {
    forall|i: int| 0 <= i < segs.len() ==> is_normal(#[trigger] segs[i])
}

pub open spec fn view_all(v: Seq<String>) -> Seq<Seq<char>> {
    v.map_values(|s: String| s@)
}

fn is_segment(seg: &str, dots: usize) -> (r: bool)
    requires
        dots == 1 || dots == 2,
    ensures
        r == (seg@ == Seq::new(dots as nat, |_i: int| '.')),
{
    let n = seg.unicode_len();
    if n != dots {
        return false;
    }
    let mut i: usize = 0;
    while i < n
        invariant
            n == seg@.len(),
            i <= n,
            forall|j: int| 0 <= j < i ==> seg@[j] == '.',
        decreases n - i,
    {
        if seg.get_char(i) != '.' {
            assert(seg@ != Seq::new(dots as nat, |_i: int| '.'));
            return false;
        }
        i = i + 1;
    }
    assert(seg@ =~= Seq::new(dots as nat, |_i: int| '.'));
    true
}

/// Applies one segment to the retained segments.
fn apply_segment(kept: &mut Vec<String>, seg: &str)
    ensures
        view_all(final(kept)@) == step(view_all(old(kept)@), seg@),
{
    let ghost before = view_all(kept@);
    if seg.unicode_len() == 0 || is_segment(seg, 1) {
        assert(seg@.len() == 0 || seg@ =~= cur_dir());
    } else if is_segment(seg, 2) {
        assert(seg@ =~= parent_dir());
        assert(seg@ != cur_dir()) by {
            assert(seg@.len() != cur_dir().len());
        }
        if kept.len() > 0 {
            kept.pop();
            assert(view_all(kept@) =~= before.drop_last());
        }
    } else {
        assert(seg@ != cur_dir()) by {
            if seg@ == cur_dir() {
                assert(seg@ =~= Seq::new(1, |_i: int| '.'));
            }
        }
        assert(seg@ != parent_dir()) by {
            if seg@ == parent_dir() {
                assert(seg@ =~= Seq::new(2, |_i: int| '.'));
            }
        }
        kept.push(seg.to_owned());
        assert(view_all(kept@) =~= before.push(seg@));
    }
}

proof fn lemma_pieces_next(s: Seq<char>, i: int)
    requires
        0 <= i < s.len(),
    ensures
        s[i] == '/' ==> pieces(s.take(i + 1)) == pieces(s.take(i)).push(Seq::<char>::empty()),
        s[i] != '/' ==> pieces(s.take(i + 1)) == pieces(s.take(i)).drop_last().push(
            pieces(s.take(i)).last().push(s[i]),
        ),
{
    assert(s.take(i + 1).drop_last() =~= s.take(i));
}

proof fn lemma_pieces_nonempty(s: Seq<char>)
    ensures
        pieces(s).len() >= 1,
    decreases s.len(),
{
    if s.len() > 0 {
        lemma_pieces_nonempty(s.drop_last());
    }
}

proof fn lemma_resolve_concat(kept: Seq<Seq<char>>, x: Seq<Seq<char>>, y: Seq<Seq<char>>)
    ensures
        resolve_from(kept, x + y) == resolve_from(resolve_from(kept, x), y),
    decreases y.len(),
{
    if y.len() == 0 {
        assert(x + y =~= x);
    } else {
        assert((x + y).drop_last() =~= x + y.drop_last());
        lemma_resolve_concat(kept, x, y.drop_last());
    }
}

proof fn lemma_pieces_append(a: Seq<char>, b: Seq<char>)
    ensures
        pieces(a + seq!['/'] + b) == pieces(a) + pieces(b),
    decreases b.len(),
{
    if b.len() == 0 {
        assert(a + seq!['/'] + b =~= a.push('/'));
        assert(a.push('/').drop_last() =~= a);
        assert(pieces(a) + pieces(b) =~= pieces(a).push(Seq::<char>::empty()));
    } else {
        let whole = a + seq!['/'] + b;
        assert(whole.drop_last() =~= a + seq!['/'] + b.drop_last());
        lemma_pieces_append(a, b.drop_last());
        lemma_pieces_nonempty(b.drop_last());
        let pa = pieces(a);
        let pb = pieces(b.drop_last());
        if b.last() == '/' {
            assert(pa + pb.push(Seq::<char>::empty()) =~= (pa + pb).push(Seq::<char>::empty()));
        } else {
            assert((pa + pb).last() == pb.last());
            assert((pa + pb).drop_last() + seq![pb.last().push(b.last())] =~= pa + pb.drop_last().push(
                pb.last().push(b.last()),
            ));
            assert((pa + pb).drop_last().push(pb.last().push(b.last())) =~= pa + pb.drop_last().push(
                pb.last().push(b.last()),
            ));
        }
    }
}

proof fn lemma_pieces_single(b: Seq<char>)
    requires
        !b.contains('/'),
    ensures
        pieces(b) == seq![b],
    decreases b.len(),
{
    if b.len() == 0 {
        assert(b =~= Seq::<char>::empty());
        assert(pieces(b) =~= seq![b]);
    } else {
        let d = b.drop_last();
        assert(!d.contains('/')) by {
            if d.contains('/') {
                let k = choose|k: int| 0 <= k < d.len() && d[k] == '/';
                assert(b[k] == '/');
            }
        }
        lemma_pieces_single(d);
        assert(b.last() != '/') by {
            assert(b[b.len() - 1] == b.last());
        }
        assert(d.push(b.last()) =~= b);
        let prev = pieces(d);
        assert(prev.drop_last() =~= Seq::<Seq<char>>::empty());
        assert(prev.last() == d);
        assert(pieces(b) == prev.drop_last().push(prev.last().push(b.last())));
        assert(pieces(b).len() == 1);
        assert(pieces(b)[0] == b);
        assert(pieces(b) =~= seq![b]);
    }
}

proof fn lemma_resolve_normal(kept: Seq<Seq<char>>, segs: Seq<Seq<char>>)
    requires
        all_normal(segs),
    ensures
        resolve_from(kept, segs) == kept + segs,
    decreases segs.len(),
{
    if segs.len() == 0 {
        assert(kept + segs =~= kept);
    } else {
        lemma_resolve_normal(kept, segs.drop_last());
        assert(is_normal(segs[segs.len() - 1]));
        assert((kept + segs.drop_last()).push(segs.last()) =~= kept + segs);
    }
}

proof fn lemma_resolve_joined(kept: Seq<Seq<char>>, segs: Seq<Seq<char>>)
    requires
        all_normal(segs),
    ensures
        resolve_from(kept, pieces(join(segs))) == kept + segs,
    decreases segs.len(),
{
    if segs.len() == 0 {
        assert(pieces(Seq::<char>::empty()) =~= seq![Seq::<char>::empty()]);
        let one = seq![Seq::<char>::empty()];
        assert(one.drop_last() =~= Seq::<Seq<char>>::empty());
        assert(resolve_from(kept, one.drop_last()) == kept);
        assert(resolve_from(kept, one) == step(kept, one.last()));
        assert(kept + segs =~= kept);
    } else {
        let front = segs.drop_last();
        let last = segs.last();
        assert(is_normal(segs[segs.len() - 1]));
        lemma_pieces_single(last);
        assert(seq![last].drop_last() =~= Seq::<Seq<char>>::empty());
        assert(seq![last].last() == last);
        assert(resolve_from(kept + front, Seq::<Seq<char>>::empty()) == kept + front);
        assert(resolve_from(kept + front, seq![last]) == step(kept + front, last));
        assert(step(kept + front, last) == (kept + front).push(last));
        if segs.len() == 1 {
            assert(front =~= Seq::<Seq<char>>::empty());
            assert(kept + front =~= kept);
            assert(kept.push(last) =~= kept + segs);
        } else {
            lemma_pieces_append(join(front), last);
            lemma_resolve_concat(kept, pieces(join(front)), seq![last]);
            lemma_resolve_joined(kept, front);
            assert(all_normal(front)) by {
                assert forall|i: int| 0 <= i < front.len() implies is_normal(#[trigger] front[i]) by {
                    assert(front[i] == segs[i]);
                }
            }
            assert((kept + front).push(last) =~= kept + segs);
        }
    }
}

proof fn lemma_pieces_no_sep(s: Seq<char>)
    ensures
        forall|i: int| 0 <= i < pieces(s).len() ==> !(#[trigger] pieces(s)[i]).contains('/'),
    decreases s.len(),
{
    lemma_pieces_nonempty(s);
    if s.len() == 0 {
        assert(!Seq::<char>::empty().contains('/'));
    } else {
        let prev = pieces(s.drop_last());
        lemma_pieces_no_sep(s.drop_last());
        lemma_pieces_nonempty(s.drop_last());
        if s.last() == '/' {
            assert(!Seq::<char>::empty().contains('/'));
            assert forall|i: int| 0 <= i < pieces(s).len() implies !(#[trigger] pieces(s)[i]).contains('/') by {
                if i < prev.len() {
                    assert(pieces(s)[i] == prev[i]);
                }
            }
        } else {
            let grown = prev.last().push(s.last());
            assert(!grown.contains('/')) by {
                assert(!prev[prev.len() - 1].contains('/'));
                if grown.contains('/') {
                    let k = choose|k: int| 0 <= k < grown.len() && grown[k] == '/';
                    if k < prev.last().len() {
                        assert(prev.last()[k] == '/');
                    }
                }
            }
            assert forall|i: int| 0 <= i < pieces(s).len() implies !(#[trigger] pieces(s)[i]).contains('/') by {
                if i < prev.len() - 1 {
                    assert(pieces(s)[i] == prev[i]);
                }
            }
        }
    }
}

proof fn lemma_resolve_keeps_normal(kept: Seq<Seq<char>>, segs: Seq<Seq<char>>)
    requires
        all_normal(kept),
        forall|i: int| 0 <= i < segs.len() ==> !(#[trigger] segs[i]).contains('/'),
    ensures
        all_normal(resolve_from(kept, segs)),
    decreases segs.len(),
{
    if segs.len() > 0 {
        lemma_resolve_keeps_normal(kept, segs.drop_last());
        let r = resolve_from(kept, segs.drop_last());
        assert(!segs[segs.len() - 1].contains('/'));
        let n = resolve_from(kept, segs);
        assert forall|i: int| 0 <= i < n.len() implies is_normal(#[trigger] n[i]) by {
            if i < r.len() {
                assert(n[i] == r[i]);
            }
        }
    }
}

/// Every segment of a normalized path names a directory entry: none is
/// empty, `.` or `..`, and none holds a separator.
pub proof fn lemma_normalized_segments_are_normal(raw: Seq<char>)
    ensures
        all_normal(normal_segments(raw)),
{
    lemma_pieces_no_sep(raw);
    lemma_resolve_keeps_normal(Seq::empty(), pieces(raw));
}

/// A relative path placed under a root directory, with one separator
/// between them unless the root is empty or already ends in one.
pub open spec fn joined(root: Seq<char>, rel: Seq<char>) -> Seq<char> {
    if root.len() == 0 || root.last() == '/' {
        root + rel
    } else {
        root + seq!['/'] + rel
    }
}

/// Joining any root directory with the normalized form of any raw path, and
/// resolving the result lexically, yields the root's own segments followed
/// by the normalized segments: the join never leaves the root.
pub proof fn lemma_join_stays_under_root(root: Seq<char>, raw: Seq<char>)
    ensures
        normal_segments(joined(root, normalized(raw))) == normal_segments(root) + normal_segments(
            raw,
        ),
        normal_segments(root).is_prefix_of(normal_segments(joined(root, normalized(raw)))),
{
    let norm = normal_segments(raw);
    lemma_normalized_segments_are_normal(raw);
    if root.len() == 0 {
        assert(root + normalized(raw) =~= normalized(raw));
        assert(pieces(root) =~= seq![Seq::<char>::empty()]);
        let one = seq![Seq::<char>::empty()];
        assert(one.drop_last() =~= Seq::<Seq<char>>::empty());
        assert(resolve_from(Seq::empty(), one.drop_last()) == Seq::<Seq<char>>::empty());
        assert(resolve_from(Seq::empty(), one) == step(Seq::empty(), one.last()));
        assert(normal_segments(root) == Seq::<Seq<char>>::empty());
        lemma_resolve_joined(Seq::empty(), norm);
        assert(Seq::<Seq<char>>::empty() + norm =~= norm);
    } else {
        let base = if root.last() == '/' {
            root.drop_last()
        } else {
            root
        };
        if root.last() == '/' {
            assert(base + seq!['/'] + normalized(raw) =~= root + normalized(raw));
            assert(pieces(root) == pieces(base).push(Seq::<char>::empty()));
            assert(pieces(root).drop_last() =~= pieces(base));
        }
        assert(normal_segments(root) == normal_segments(base));
        lemma_pieces_append(base, join(norm));
        lemma_resolve_concat(Seq::empty(), pieces(base), pieces(join(norm)));
        lemma_resolve_joined(normal_segments(base), norm);
    }
    let whole = normal_segments(root) + norm;
    assert(whole.subrange(0, normal_segments(root).len() as int) =~= normal_segments(root));
}

/// Places the normalized form of `raw` under `root`.
pub fn join_under(root: &str, raw: &str) -> (r: String)
    ensures
        r@ == joined(root@, normalized(raw@)),
{
    let rel = normalize_path(raw);
    let mut out = root.to_owned();
    let n = root.unicode_len();
    if n > 0 && root.get_char(n - 1) != '/' {
        out.append("/");
        proof { reveal_strlit("/"); }
    }
    out.append(rel.as_str());
    out
}

/// Normalizes a raw path in the order the segments come.
pub fn normalize_path(path: &str) -> (r: String)
    ensures
        r@ == normalized(path@),
{
    let n = path.unicode_len();
    let mut kept: Vec<String> = Vec::new();
    let mut start: usize = 0;
    let mut i: usize = 0;
    proof {
        assert(path@.take(0) =~= Seq::<char>::empty());
        assert(path@.subrange(0, 0) =~= Seq::<char>::empty());
        assert(view_all(kept@) =~= Seq::<Seq<char>>::empty());
    }
    while i < n
        invariant
            n == path@.len(),
            start <= i <= n,
            pieces(path@.take(i as int)).len() >= 1,
            view_all(kept@) == resolve_from(
                Seq::empty(),
                pieces(path@.take(i as int)).drop_last(),
            ),
            pieces(path@.take(i as int)).last() == path@.subrange(start as int, i as int),
        decreases n - i,
    {
        let c = path.get_char(i);
        let ghost prev = pieces(path@.take(i as int));
        proof {
            lemma_pieces_next(path@, i as int);
        }
        if c == '/' {
            let seg = path.substring_char(start, i);
            apply_segment(&mut kept, seg);
            proof {
                let next = pieces(path@.take(i + 1));
                assert(next.drop_last() =~= prev);
                assert(prev =~= prev.drop_last().push(prev.last()));
                assert(next.last() =~= path@.subrange(i + 1, i + 1));
            }
            start = i + 1;
        } else {
            proof {
                let next = pieces(path@.take(i + 1));
                assert(next.drop_last() =~= prev.drop_last());
                assert(next.last() =~= path@.subrange(start as int, i + 1));
            }
        }
        i = i + 1;
    }
    let seg = path.substring_char(start, n);
    apply_segment(&mut kept, seg);
    proof {
        let all = pieces(path@.take(n as int));
        assert(path@.take(n as int) =~= path@);
        assert(all =~= all.drop_last().push(all.last()));
        assert(view_all(kept@) == normal_segments(path@));
    }
    join_segments(&kept)
}

fn join_segments(segs: &Vec<String>) -> (r: String)
    ensures
        r@ == join(view_all(segs@)),
{
    let mut out = String::new();
    let mut i: usize = 0;
    while i < segs.len()
        invariant
            i <= segs.len(),
            out@ == join(view_all(segs@).take(i as int)),
        decreases segs.len() - i,
    {
        let ghost before = view_all(segs@).take(i as int);
        let ghost after = view_all(segs@).take(i + 1);
        proof {
            assert(after.drop_last() =~= before);
        }
        if i > 0 {
            out.append("/");
            proof { reveal_strlit("/"); }
        }
        out.append(segs[i].as_str());
        proof {
            if i == 0 {
                assert(out@ =~= after[0]);
            } else {
                assert(out@ =~= join(before) + seq!['/'] + after.last());
            }
        }
        i = i + 1;
    }
    proof {
        assert(view_all(segs@).take(segs.len() as int) =~= view_all(segs@));
    }
    out
}

} // verus!
