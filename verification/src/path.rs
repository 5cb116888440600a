//! Repository-relative paths: `/`-separated text, read as a sequence of
//! non-empty components.

use vstd::prelude::*;
use vstd::string::*;

verus! {

/// The components completed so far, extended by the one in progress unless
/// it is empty.
pub open spec fn close(done: Seq<Seq<char>>, cur: Seq<char>) -> Seq<Seq<char>> {
    if cur.len() > 0 {
        done.push(cur)
    } else {
        done
    }
}

/// The state of reading `s` from left to right: the components that a
/// separator has closed, and the characters read since the last separator.
pub open spec fn split_state(s: Seq<char>) -> (Seq<Seq<char>>, Seq<char>)
    decreases s.len(),
{
    if s.len() == 0 {
        (Seq::empty(), Seq::empty())
    } else {
        let (done, cur) = split_state(s.drop_last());
        if s.last() == '/' {
            (close(done, cur), Seq::empty())
        } else {
            (done, cur.push(s.last()))
        }
    }
}

/// The components of a path: its maximal runs of characters other than `/`.
/// Leading, trailing and repeated separators contribute nothing.
pub open spec fn segments(s: Seq<char>) -> Seq<Seq<char>> {
    close(split_state(s).0, split_state(s).1)
}

/// Whether `part` can stand as a component: it is non-empty and holds no
/// separator.
pub open spec fn is_component(part: Seq<char>) -> bool {
    part.len() > 0 && !part.contains('/')
}

/// The components joined by single separators.
pub open spec fn join(parts: Seq<Seq<char>>) -> Seq<char>
    decreases parts.len(),
{
    if parts.len() == 0 {
        Seq::empty()
    } else if parts.len() == 1 {
        parts[0]
    } else {
        join(parts.drop_last()).push('/') + parts.last()
    }
}

/// The components of `path` below the directory with the components
/// `scope`: `None` unless the path lies strictly inside that directory. The
/// directory without components is the root, which every path with a
/// component lies inside.
pub open spec fn below(path: Seq<Seq<char>>, scope: Seq<Seq<char>>) -> Option<Seq<Seq<char>>> {
    if scope.len() < path.len() && path.take(scope.len() as int) == scope {
        Some(path.skip(scope.len() as int))
    } else {
        None
    }
}

/// Every component of a path is non-empty and free of separators.
pub proof fn lemma_segments_are_components(s: Seq<char>)
    ensures
        forall|i: int| 0 <= i < segments(s).len() ==> is_component(#[trigger] segments(s)[i]),
        !split_state(s).1.contains('/'),
        forall|i: int|
            0 <= i < split_state(s).0.len() ==> (#[trigger] split_state(s).0[i]).len() > 0 && !split_state(
                s,
            ).0[i].contains('/'),
    decreases s.len(),
{
    if s.len() > 0 {
        lemma_segments_are_components(s.drop_last());
        let (done, cur) = split_state(s.drop_last());
        if s.last() != '/' {
            let grown = cur.push(s.last());
            assert forall|c: char| grown.contains(c) implies c != '/' by {
                let k = choose|k: int| 0 <= k < grown.len() && grown[k] == c;
                if k < cur.len() {
                    assert(cur.contains(c));
                }
            }
        }
    }
}

/// A component is a path of one component.
pub proof fn lemma_segments_of_component(part: Seq<char>)
    requires
        !part.contains('/'),
    ensures
        split_state(part) == (Seq::<Seq<char>>::empty(), part),
        part.len() > 0 ==> segments(part) == seq![part],
    decreases part.len(),
{
    if part.len() > 0 {
        let front = part.drop_last();
        assert forall|c: char| front.contains(c) implies c != '/' by {
            let k = choose|k: int| 0 <= k < front.len() && front[k] == c;
            assert(part[k] == c);
            assert(part.contains(c));
        }
        lemma_segments_of_component(front);
        assert(part.contains(part.last()));
        assert(front.push(part.last()) =~= part);
    } else {
        assert(part =~= Seq::<char>::empty());
    }
}

/// The components of two paths put together with a separator are those of
/// the first followed by those of the second.
pub proof fn lemma_segments_of_concat(a: Seq<char>, b: Seq<char>)
    ensures
        split_state(a.push('/') + b) == (segments(a) + split_state(b).0, split_state(b).1),
        segments(a.push('/') + b) == segments(a) + segments(b),
    decreases b.len(),
{
    let t = a.push('/');
    if b.len() == 0 {
        assert(t + b =~= t);
        assert(t.drop_last() =~= a);
        assert(segments(a) + split_state(b).0 =~= segments(a));
    } else {
        let front = b.drop_last();
        lemma_segments_of_concat(a, front);
        assert((t + b).drop_last() =~= t + front);
        assert((t + b).last() == b.last());
        if b.last() == '/' {
            let (done, cur) = split_state(front);
            assert(close(segments(a) + done, cur) =~= segments(a) + close(done, cur));
        }
    }
    let (done, cur) = split_state(b);
    assert(close(segments(a) + done, cur) =~= segments(a) + close(done, cur));
}

/// Joining components and splitting the result gives the components back.
pub proof fn lemma_segments_of_join(parts: Seq<Seq<char>>)
    requires
        forall|i: int| 0 <= i < parts.len() ==> is_component(#[trigger] parts[i]),
    ensures
        segments(join(parts)) == parts,
    decreases parts.len(),
{
    if parts.len() == 0 {
        assert(segments(Seq::<char>::empty()) =~= parts);
    } else if parts.len() == 1 {
        assert(is_component(parts[0]));
        lemma_segments_of_component(parts[0]);
        assert(seq![parts[0]] =~= parts);
    } else {
        let front = parts.drop_last();
        assert forall|i: int| 0 <= i < front.len() implies is_component(#[trigger] front[i]) by {
            assert(front[i] == parts[i]);
        }
        lemma_segments_of_join(front);
        assert(is_component(parts[parts.len() - 1]));
        lemma_segments_of_component(parts.last());
        lemma_segments_of_concat(join(front), parts.last());
        assert(front + seq![parts.last()] =~= parts);
    }
}

/// Splits a path into its components.
pub fn split_path(path: &str) -> (parts: Vec<String>)
    ensures
        parts.deep_view() == segments(path@),
{
    let mut parts: Vec<String> = Vec::new();
    let mut cur = String::new();
    assert(parts.deep_view() =~= Seq::<Seq<char>>::empty());
    for c in it: path.chars()
        invariant
            it.seq() == path@,
            parts.deep_view() == split_state(path@.take(it.index())).0,
            cur@ == split_state(path@.take(it.index())).1,
    {
        proof {
            assert(path@.take(it.index() + 1).drop_last() == path@.take(it.index()));
        }
        if c == '/' {
            if !cur.as_str().is_empty() {
                let ghost before = parts.deep_view();
                let ghost pushed = cur@;
                parts.push(cur);
                assert(parts.deep_view() =~= before.push(pushed));
            }
            cur = String::new();
        } else {
            cur.push(c);
        }
    }
    proof {
        assert(path@.take(path@.len() as int) == path@);
    }
    if !cur.as_str().is_empty() {
        let ghost before = parts.deep_view();
        let ghost pushed = cur@;
        parts.push(cur);
        assert(parts.deep_view() =~= before.push(pushed));
    }
    parts
}

/// Joins the components from position `from` on with single separators.
pub fn join_path(parts: &Vec<String>, from: usize) -> (joined: String)
    ensures
        from <= parts.len() ==> joined@ == join(parts.deep_view().skip(from as int)),
        from > parts.len() ==> joined@ == Seq::<char>::empty(),
{
    let mut joined = String::new();
    if from > parts.len() {
        return joined;
    }
    let mut i: usize = from;
    let ghost all = parts.deep_view();
    proof {
        assert(all.subrange(from as int, from as int) =~= Seq::<Seq<char>>::empty());
    }
    while i < parts.len()
        invariant
            from <= i <= parts.len(),
            all == parts.deep_view(),
            joined@ == join(all.subrange(from as int, i as int)),
        decreases parts.len() - i,
    {
        let ghost sofar = all.subrange(from as int, i as int);
        let ghost next = all.subrange(from as int, i + 1);
        proof {
            assert(next.drop_last() =~= sofar);
            assert(next.last() == parts[i as int]@);
        }
        if i > from {
            joined.push('/');
            joined.append(parts[i].as_str());
        } else {
            joined.append(parts[i].as_str());
            assert(joined@ =~= parts[i as int]@);
        }
        i += 1;
    }
    proof {
        assert(all.subrange(from as int, parts.len() as int) =~= all.skip(from as int));
    }
    joined
}

/// Whether the path with the components `path` lies strictly inside the
/// directory with the components `scope`.
pub fn is_inside(path: &Vec<String>, scope: &Vec<String>) -> (inside: bool)
    ensures
        inside == below(path.deep_view(), scope.deep_view()) is Some,
{
    if scope.len() >= path.len() {
        return false;
    }
    let ghost p = path.deep_view();
    let ghost s = scope.deep_view();
    let mut i: usize = 0;
    while i < scope.len()
        invariant
            i <= scope.len() < path.len(),
            p == path.deep_view(),
            s == scope.deep_view(),
            p.take(i as int) == s.take(i as int),
        decreases scope.len() - i,
    {
        let same = path[i] == scope[i];
        proof {
            assert(p[i as int] == path[i as int]@);
            assert(s[i as int] == scope[i as int]@);
        }
        if !same {
            proof {
                assert(p.take(s.len() as int)[i as int] != s[i as int]);
            }
            return false;
        }
        proof {
            assert(p.take(i + 1) =~= p.take(i as int).push(p[i as int]));
            assert(s.take(i + 1) =~= s.take(i as int).push(s[i as int]));
        }
        i += 1;
    }
    proof {
        assert(s.take(s.len() as int) == s);
    }
    true
}

/// The components of `path` below the directory whose components are
/// `scope`, if `path` lies strictly inside it.
pub fn relative_parts(path: &str, scope: &Vec<String>) -> (rest: Option<Vec<String>>)
    ensures
        rest.deep_view() == below(segments(path@), scope.deep_view()),
{
    let mut parts = split_path(path);
    if !is_inside(&parts, scope) {
        return None;
    }
    let ghost p = parts.deep_view();
    let rest = parts.split_off(scope.len());
    assert(rest.deep_view() =~= p.skip(scope.deep_view().len() as int));
    Some(rest)
}

/// Whether one of the paths lies strictly inside the directory with the
/// components `dir`.
pub open spec fn holds_path(dir: Seq<Seq<char>>, paths: Seq<Seq<Seq<char>>>) -> bool {
    exists|k: int| 0 <= k < paths.len() && below(#[trigger] paths[k], dir) is Some
}

/// Whether one of the paths lies strictly inside the directory with the
/// components `dir`.
pub fn holds_path_in(dir: &Vec<String>, paths: &Vec<Vec<String>>) -> (yes: bool)
    ensures
        yes == holds_path(dir.deep_view(), paths.deep_view()),
{
    let mut k: usize = 0;
    while k < paths.len()
        invariant
            k <= paths.len(),
            forall|m: int|
                0 <= m < k ==> below(#[trigger] paths.deep_view()[m], dir.deep_view()) is None,
        decreases paths.len() - k,
    {
        if is_inside(&paths[k], dir) {
            assert(below(paths.deep_view()[k as int], dir.deep_view()) is Some);
            return true;
        }
        k += 1;
    }
    false
}

} // verus!
