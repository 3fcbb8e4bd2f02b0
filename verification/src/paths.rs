//! Paths as texts, with `/` between their parts.

use vstd::prelude::*;

use crate::text::{
    chars_of, find_char, lemma_seek_char, lemma_seek_rest, maybe, seek_char, text_eq, text_of,
    texts,
};

verus! {

/// A path taken from a directory.
pub open spec fn path_in(cwd: Seq<char>, p: Seq<char>) -> Seq<char> {
    if p.len() > 0 && p[0] == '/' {
        p
    } else if cwd.len() > 0 && cwd.last() != '/' {
        cwd.push('/') + p
    } else {
        cwd + p
    }
}

/// A path taken from a directory.
pub fn path_for(cwd: &str, p: &str) -> (res: String)
    ensures
        res@ == path_in(cwd@, p@),
{
    let pc = chars_of(p);
    let cc = chars_of(cwd);
    if pc.len() > 0 && pc[0] == '/' {
        p.to_owned()
    } else {
        let mut res = cwd.to_owned();
        if cc.len() > 0 && cc[cc.len() - 1] != '/' {
            res.push('/');
        }
        res.push_str(p);
        res
    }
}

// ---------------------------------------------------------------------------------
// Components
// ---------------------------------------------------------------------------------
/// Whether a path begins at the root directory.
pub open spec fn absolute(p: Seq<char>) -> bool {
    p.len() > 0 && p[0] == '/'
}

/// Whether a piece between two slashes names something: it is neither empty nor `.`.
pub open spec fn names(piece: Seq<char>) -> bool {
    piece.len() > 0 && piece != seq!['.']
}

/// The names in a path, in order; `..` counts as one.
pub open spec fn parts(p: Seq<char>) -> Seq<Seq<char>>
    decreases p.len(),
{
    let z = seek_char(p, 0, '/');
    let head: Seq<Seq<char>> = if names(p.take(z)) {
        seq![p.take(z)]
    } else {
        Seq::empty()
    };
    if 0 <= z < p.len() {
        head + parts(p.skip(z + 1))
    } else {
        head
    }
}

/// The components of a path: the root or a leading `.`, and the names.
pub open spec fn components(p: Seq<char>) -> Seq<Seq<char>> {
    let lead: Seq<Seq<char>> = if absolute(p) {
        seq![seq!['/']]
    } else if p.take(seek_char(p, 0, '/')) == seq!['.'] {
        seq![seq!['.']]
    } else {
        Seq::empty()
    };
    lead + parts(p)
}

/// Whether a path has a component `..`.
pub open spec fn climbs(p: Seq<char>) -> bool {
    parts(p).contains(seq!['.', '.'])
}

/// Whether a path has a piece `.`.
pub open spec fn stays(p: Seq<char>) -> bool
    decreases p.len(),
{
    let z = seek_char(p, 0, '/');
    p.take(z) == seq!['.'] || (0 <= z < p.len() && stays(p.skip(z + 1)))
}

/// Whether a path lies in a directory, by their components alone.
pub open spec fn lies_in(p: Seq<char>, dir: Seq<char>) -> bool {
    components(dir).is_prefix_of(components(p))
}

/// A path without the slashes and the pieces `.` at its end.
pub open spec fn trim_path(p: Seq<char>) -> Seq<char>
    decreases p.len(),
{
    if p.len() > 1 && (p.last() == '/' || (p.last() == '.' && p[p.len() - 2] == '/')) {
        trim_path(p.drop_last())
    } else {
        p
    }
}

/// The offset behind the last slash, or 0.
pub open spec fn behind_slash(p: Seq<char>) -> int
    decreases p.len(),
{
    if p.len() == 0 {
        0
    } else if p.last() == '/' {
        p.len() as int
    } else {
        behind_slash(p.drop_last())
    }
}

/// The directory that holds what a path names: empty for a single name, none for the root
/// and the empty path.
pub open spec fn parent(p: Seq<char>) -> Option<Seq<char>> {
    let t = trim_path(p);
    if t.len() == 0 || t == seq!['/'] {
        None
    } else {
        Some(trim_path(t.take(behind_slash(t))))
    }
}

/// Whether a path begins at the root directory.
pub fn is_absolute(p: &str) -> (res: bool)
    ensures
        res == absolute(p@),
{
    let chars = chars_of(p);
    chars.len() > 0 && chars[0] == '/'
}

/// The names in a path, in order.
pub fn path_parts(p: &str) -> (res: Vec<String>)
    ensures
        texts(res@) == parts(p@),
{
    let chars = chars_of(p);
    let mut out: Vec<String> = Vec::new();
    let mut from: usize = 0;
    proof {
        assert(chars@.skip(0) =~= p@);
        assert(texts(out@) + parts(p@) =~= parts(p@));
    }
    loop
        invariant_except_break
            texts(out@) + parts(p@.skip(from as int)) == parts(p@),
        invariant
            chars@ == p@,
            from <= chars.len(),
        ensures
            texts(out@) == parts(p@),
        decreases chars.len() - from,
    {
        let z = find_char(chars.as_slice(), from, '/');
        let ghost rest = p@.skip(from as int);
        let ghost o0 = out@;
        proof {
            lemma_seek_char(p@, from as int, '/');
            lemma_seek_char(rest, 0, '/');
            let w = seek_char(rest, 0, '/');
            if w < rest.len() {
                assert(p@[from + w] == rest[w]);
            }
            if z < p@.len() {
                assert(rest[z - from] == p@[z as int]);
            }
            assert(w == z - from) by {
                if w < z - from {
                    assert(p@[from + w] == '/');
                }
                if z - from < w {
                    assert(rest[z - from] == '/');
                }
            }
            assert(rest.take(z - from) =~= p@.subrange(from as int, z as int));
        }
        let kept = z > from && !(z - from == 1 && chars[from] == '.');
        proof {
            let piece = rest.take(z - from);
            if piece.len() == 1 && piece[0] == '.' {
                assert(piece =~= seq!['.']);
            }
            assert(kept == names(piece));
        }
        if kept {
            out.push(text_of(chars.as_slice(), from, z));
            proof {
                assert(texts(out@) =~= texts(o0).push(rest.take(z - from)));
            }
        }
        if z >= chars.len() {
            proof {
                assert(texts(out@) =~= texts(o0) + parts(rest));
            }
            break;
        }
        proof {
            assert(rest.skip(z - from + 1) =~= p@.skip(z + 1));
            assert(texts(out@) + parts(p@.skip(z + 1)) =~= texts(o0) + parts(rest));
        }
        from = z + 1;
    }
    out
}

/// Whether a path has a component `..`.
pub fn has_climb(p: &str) -> (res: bool)
    ensures
        res == climbs(p@),
{
    let v = path_parts(p);
    proof {
        reveal_strlit("..");
        assert(".."@ =~= seq!['.', '.']);
    }
    let mut i: usize = 0;
    while i < v.len()
        invariant
            i <= v@.len(),
            texts(v@) == parts(p@),
            ".."@ == seq!['.', '.'],
            forall|k: int| 0 <= k < i ==> #[trigger] parts(p@)[k] != seq!['.', '.'],
        decreases v.len() - i,
    {
        proof {
            assert(texts(v@)[i as int] == v@[i as int]@);
        }
        if text_eq(v[i].as_str(), "..") {
            proof {
                assert(parts(p@)[i as int] == seq!['.', '.']);
            }
            return true;
        }
        i += 1;
    }
    false
}

/// Whether a path has a piece `.`.
pub fn has_stay(p: &str) -> (res: bool)
    ensures
        res == stays(p@),
{
    let chars = chars_of(p);
    let mut from: usize = 0;
    proof {
        assert(chars@.skip(0) =~= p@);
    }
    loop
        invariant
            chars@ == p@,
            from <= chars.len(),
            stays(p@) == stays(p@.skip(from as int)),
        decreases chars.len() - from,
    {
        let z = find_char(chars.as_slice(), from, '/');
        let ghost rest = p@.skip(from as int);
        proof {
            lemma_seek_rest(p@, from as int, '/');
            lemma_seek_char(p@, from as int, '/');
            let piece = rest.take(z - from);
            if piece.len() == 1 && piece[0] == '.' {
                assert(piece =~= seq!['.']);
            }
            assert((piece == seq!['.']) == (z - from == 1 && p@[from as int] == '.'));
        }
        if z - from == 1 && chars[from] == '.' {
            return true;
        }
        if z >= chars.len() {
            return false;
        }
        proof {
            assert(rest.skip(z - from + 1) =~= p@.skip(z + 1));
        }
        from = z + 1;
    }
}

/// The components of a path.
pub fn path_components(p: &str) -> (res: Vec<String>)
    ensures
        texts(res@) == components(p@),
{
    let chars = chars_of(p);
    let mut names = path_parts(p);
    let mut out: Vec<String> = Vec::new();
    let z = find_char(chars.as_slice(), 0, '/');
    proof {
        reveal_strlit("/");
        reveal_strlit(".");
        assert("/"@ =~= seq!['/']);
        assert("."@ =~= seq!['.']);
        lemma_seek_char(p@, 0, '/');
        let piece = p@.take(z as int);
        if piece.len() == 1 && piece[0] == '.' {
            assert(piece =~= seq!['.']);
        }
    }
    if chars.len() > 0 && chars[0] == '/' {
        out.push("/".to_owned());
    } else if z == 1 && chars[0] == '.' {
        out.push(".".to_owned());
    }
    let ghost lead = texts(out@);
    out.append(&mut names);
    proof {
        assert(texts(out@) =~= lead + parts(p@));
        assert(texts(out@) =~= components(p@));
    }
    out
}

/// Whether a path lies in a directory, by their components alone.
pub fn is_in(p: &str, dir: &str) -> (res: bool)
    ensures
        res == lies_in(p@, dir@),
{
    let a = path_components(p);
    let d = path_components(dir);
    if d.len() > a.len() {
        return false;
    }
    let mut i: usize = 0;
    while i < d.len()
        invariant
            i <= d@.len() <= a@.len(),
            texts(a@) == components(p@),
            texts(d@) == components(dir@),
            forall|k: int| 0 <= k < i ==> #[trigger] components(dir@)[k] == components(p@)[k],
        decreases d.len() - i,
    {
        proof {
            assert(texts(a@)[i as int] == a@[i as int]@);
            assert(texts(d@)[i as int] == d@[i as int]@);
        }
        if !text_eq(a[i].as_str(), d[i].as_str()) {
            return false;
        }
        i += 1;
    }
    proof {
        assert(components(p@).subrange(0, d@.len() as int) =~= components(dir@));
    }
    true
}

fn trim_to(chars: &[char], to: usize) -> (res: usize)
    requires
        to <= chars@.len(),
    ensures
        res <= to,
        chars@.take(res as int) == trim_path(chars@.take(to as int)),
{
    let mut to = to;
    let ghost all = trim_path(chars@.take(to as int));
    let ghost start = to;
    while to > 1 && (chars[to - 1] == '/' || (chars[to - 1] == '.' && chars[to - 2] == '/'))
        invariant
            to <= start <= chars@.len(),
            all == trim_path(chars@.take(to as int)),
        decreases to,
    {
        proof {
            assert(chars@.take(to as int).drop_last() =~= chars@.take(to - 1));
        }
        to -= 1;
    }
    to
}

/// The directory that holds what a path names.
pub fn parent_of(p: &str) -> (res: Option<String>)
    ensures
        maybe(res) == parent(p@),
{
    let chars = chars_of(p);
    let s = chars.as_slice();
    proof {
        assert(p@.take(p@.len() as int) =~= p@);
    }
    let end = trim_to(s, s.len());
    let ghost t = trim_path(p@);
    if end == 0 {
        return None;
    }
    if end == 1 && s[0] == '/' {
        proof {
            assert(t =~= seq!['/']);
        }
        return None;
    }
    proof {
        assert(t != seq!['/']) by {
            if t == seq!['/'] {
                assert(t.len() == 1 && t[0] == '/');
            }
        }
    }
    let mut k: usize = end;
    while k > 0 && s[k - 1] != '/'
        invariant
            k <= end <= s@.len(),
            t == s@.take(end as int),
            behind_slash(t) == behind_slash(s@.take(k as int)),
        decreases k,
    {
        proof {
            assert(s@.take(k as int).drop_last() =~= s@.take(k - 1));
        }
        k -= 1;
    }
    proof {
        assert(behind_slash(t) == k);
        assert(t.take(k as int) =~= s@.take(k as int));
    }
    let to = trim_to(s, k);
    proof {
        assert(s@.subrange(0, to as int) =~= s@.take(to as int));
    }
    Some(text_of(s, 0, to))
}

proof fn lemma_behind_slash(d: Seq<char>, n: Seq<char>)
    requires
        forall|i: int| 0 <= i < n.len() ==> #[trigger] n[i] != '/',
    ensures
        behind_slash(d.push('/') + n) == d.len() + 1,
    decreases n.len(),
{
    let p = d.push('/') + n;
    if n.len() > 0 {
        assert(p.last() == n.last());
        assert(p.drop_last() =~= d.push('/') + n.drop_last());
        lemma_behind_slash(d, n.drop_last());
    } else {
        assert(p.last() == '/');
    }
}

/// The directory above a name in a directory is the directory, without the slashes and the
/// pieces `.` at its end.
pub proof fn lemma_parent(d: Seq<char>, n: Seq<char>)
    requires
        d.len() > 0,
        names(n),
        forall|i: int| 0 <= i < n.len() ==> #[trigger] n[i] != '/',
    ensures
        parent(d.push('/') + n) == Some(trim_path(d)),
{
    let p = d.push('/') + n;
    assert(p.last() == n.last());
    if n.len() == 1 && n[0] == '.' {
        assert(n =~= seq!['.']);
    }
    if n.len() > 1 {
        assert(p[p.len() - 2] == n[n.len() - 2]);
    }
    assert(trim_path(p) == p);
    assert(p.len() >= 2);
    assert(p != seq!['/']) by {
        assert(seq!['/'].len() == 1);
    }
    lemma_behind_slash(d, n);
    let h = d.push('/');
    assert(p.take((d.len() + 1) as int) =~= h);
    assert(h.last() == '/' && h.drop_last() =~= d);
    assert(trim_path(h) == trim_path(d));
}

/// A relative path is taken from the directory, with one slash between the two; an absolute one is
/// taken as it is.
pub proof fn law_path_is_taken_from_the_directory(dir: Seq<char>, p: Seq<char>)
    ensures
        p.len() > 0 && p[0] == '/' ==> path_in(dir, p) == p,
        dir.len() > 0 && dir.last() != '/' && (p.len() == 0 || p[0] != '/') ==> path_in(dir, p) == dir
            + seq!['/'] + p,
        dir.len() > 0 && dir.last() == '/' && (p.len() == 0 || p[0] != '/') ==> path_in(dir, p) == dir
            + p,
{
    assert(dir.push('/') =~= dir + seq!['/']);
}

/// The names in a path are what stands between its slashes, in their order, but for the empty
/// pieces and those that are a dot.
pub proof fn law_names_stand_between_slashes(a: Seq<char>, b: Seq<char>)
    requires
        forall|i: int| 0 <= i < a.len() ==> #[trigger] a[i] != '/',
    ensures
        a.len() > 0 && a != seq!['.'] ==> parts(a) == seq![a] && parts(a.push('/') + b) == seq![a]
            + parts(b),
        a.len() == 0 || a == seq!['.'] ==> parts(a) == Seq::<Seq<char>>::empty() && parts(
            a.push('/') + b,
        ) == parts(b),
{
    lemma_seek_char(a, 0, '/');
    assert(a.take(a.len() as int) =~= a);
    let p = a.push('/') + b;
    lemma_seek_char(p, 0, '/');
    assert(p[a.len() as int] == '/');
    let z = seek_char(p, 0, '/');
    assert(z == a.len()) by {
        if z < a.len() {
            assert(p[z] == a[z]);
        }
    }
    assert(p.take(z) =~= a);
    assert(p.skip(z + 1) =~= b);
    assert(Seq::<Seq<char>>::empty() + parts(b) =~= parts(b));
}

/// Whether a path lies in a directory is decided by whole components: each of the directory is the
/// one of the path in its place.
pub proof fn law_lying_in_is_by_components(p: Seq<char>, dir: Seq<char>)
    ensures
        lies_in(p, dir) <==> components(dir).len() <= components(p).len() && forall|i: int|
            0 <= i < components(dir).len() ==> #[trigger] components(p)[i] == components(dir)[i],
        absolute(p) ==> components(p) == seq![seq!['/']] + parts(p),
{
    let d = components(dir);
    let c = components(p);
    if lies_in(p, dir) {
        assert forall|i: int| 0 <= i < d.len() implies #[trigger] c[i] == d[i] by {}
    }
    if d.len() <= c.len() && forall|i: int| 0 <= i < d.len() ==> #[trigger] c[i] == d[i] {
        assert(c.subrange(0, d.len() as int) =~= d);
    }
}

} // verus!
