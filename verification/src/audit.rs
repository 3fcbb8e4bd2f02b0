//! Shell-command auditor.
//!
//! Scans a shell command for literal byte patterns of known attack shapes (a download
//! piped into a shell, `eval` of a remote fetch, base64 piped into a shell, a blind
//! `npx --yes`). Returns findings with a severity; the caller decides what to do about
//! them.
//!
//! The scanner is a flat Aho-Corasick automaton: one walk over the input finds every
//! occurrence of every pattern, overlapping ones included.

use vstd::prelude::*;
use vstd::utf8::*;

verus! {

#[derive(Debug, Clone, Copy, PartialEq, Eq, Structural)]
pub enum Severity {
    Warn,
    Block,
}

/// A byte string to look for.
#[derive(Debug, Clone)]
pub struct Pattern {
    pub needle: &'static [u8],
    pub severity: Severity,
    pub label: &'static str,
}

/// An occurrence of a pattern.
#[derive(Debug, Clone, PartialEq, Eq)]
pub struct Finding {
    pub label: &'static str,
    pub severity: Severity,
    pub offset: usize,
}

// ---------------------------------------------------------------------------------
// Meaning
// ---------------------------------------------------------------------------------
/// The patterns among the first `k` whose needle is `s`, in their order.
pub open spec fn own_hits(pats: Seq<Pattern>, s: Seq<u8>, k: nat) -> Seq<usize>
    decreases k,
{
    if k == 0 {
        Seq::empty()
    } else {
        let before = own_hits(pats, s, (k - 1) as nat);
        if pats[k - 1].needle@ == s {
            before.push((k - 1) as usize)
        } else {
            before
        }
    }
}

/// The patterns with a non-empty needle that `s` ends with: longer needles first, equal
/// ones in their order.
pub open spec fn suffix_hits(pats: Seq<Pattern>, s: Seq<u8>) -> Seq<usize>
    decreases s.len(),
{
    if s.len() == 0 {
        Seq::empty()
    } else {
        own_hits(pats, s, pats.len()) + suffix_hits(pats, s.drop_first())
    }
}

/// The finding for pattern `pi` where its needle ends at `end`.
pub open spec fn finding(pats: Seq<Pattern>, pi: usize, end: int) -> Finding {
    let p = pats[pi as int];
    Finding { label: p.label, severity: p.severity, offset: (end - p.needle@.len()) as usize }
}

pub open spec fn findings_at(pats: Seq<Pattern>, hits: Seq<usize>, end: int) -> Seq<Finding> {
    Seq::new(hits.len(), |i: int| finding(pats, hits[i], end))
}

/// The findings in the first `end` bytes: from left to right by where the needle ends.
pub open spec fn findings(pats: Seq<Pattern>, hay: Seq<u8>, end: int) -> Seq<Finding>
    decreases end,
{
    if end <= 0 {
        Seq::empty()
    } else {
        findings(pats, hay, end - 1) + findings_at(pats, suffix_hits(pats, hay.take(end)), end)
    }
}

/// The findings that block.
pub open spec fn blocking_only(f: Seq<Finding>) -> Seq<Finding>
    decreases f.len(),
{
    if f.len() == 0 {
        Seq::empty()
    } else {
        let before = blocking_only(f.drop_last());
        if f.last().severity == Severity::Block {
            before.push(f.last())
        } else {
            before
        }
    }
}

// ---------------------------------------------------------------------------------
// Longest known suffix
// ---------------------------------------------------------------------------------
/// The longest suffix of `s` that is among `paths`.
spec fn longest(paths: Seq<Seq<u8>>, s: Seq<u8>) -> Seq<u8>
    decreases s.len(),
{
    if s.len() == 0 || paths.contains(s) {
        s
    } else {
        longest(paths, s.drop_first())
    }
}

/// With every path its prefixes are there too.
spec fn prefix_closed(paths: Seq<Seq<u8>>) -> bool {
    forall|i: int|
        0 <= i < paths.len() && (#[trigger] paths[i]).len() > 0 ==> paths.contains(
            paths[i].drop_last(),
        )
}

proof fn lemma_longest_len(paths: Seq<Seq<u8>>, s: Seq<u8>)
    ensures
        longest(paths, s).len() <= s.len(),
    decreases s.len(),
{
    if s.len() > 0 && !paths.contains(s) {
        lemma_longest_len(paths, s.drop_first());
    }
}

/// One more byte: the longest suffix is found from the longest suffix before.
proof fn lemma_longest_push(paths: Seq<Seq<u8>>, s: Seq<u8>, b: u8)
    requires
        prefix_closed(paths),
    ensures
        longest(paths, s.push(b)) == longest(paths, longest(paths, s).push(b)),
    decreases s.len(),
{
    if s.len() > 0 && !paths.contains(s) {
        assert(s.push(b).drop_last() =~= s);
        if paths.contains(s.push(b)) {
            let i = choose|i: int| 0 <= i < paths.len() && paths[i] == s.push(b);
            assert(paths[i].len() > 0);
            assert(paths.contains(paths[i].drop_last()));
        }
        assert(s.push(b).drop_first() =~= s.drop_first().push(b));
        lemma_longest_push(paths, s.drop_first(), b);
    }
}

/// Where every needle is among the paths, the longest known suffix has the same hits.
proof fn lemma_hits_of_longest(pats: Seq<Pattern>, paths: Seq<Seq<u8>>, s: Seq<u8>)
    requires
        forall|i: int|
            0 <= i < pats.len() && (#[trigger] pats[i]).needle@.len() > 0 ==> paths.contains(
                pats[i].needle@,
            ),
    ensures
        suffix_hits(pats, s) == suffix_hits(pats, longest(paths, s)),
    decreases s.len(),
{
    if s.len() > 0 && !paths.contains(s) {
        lemma_no_own(pats, s, pats.len());
        assert(own_hits(pats, s, pats.len()) + suffix_hits(pats, s.drop_first()) =~= suffix_hits(
            pats,
            s.drop_first(),
        ));
        lemma_hits_of_longest(pats, paths, s.drop_first());
    }
}

proof fn lemma_no_own(pats: Seq<Pattern>, s: Seq<u8>, k: nat)
    requires
        k <= pats.len(),
        forall|i: int| 0 <= i < k ==> (#[trigger] pats[i]).needle@ != s,
    ensures
        own_hits(pats, s, k) == Seq::<usize>::empty(),
    decreases k,
{
    if k > 0 {
        assert(pats[k - 1].needle@ != s);
        lemma_no_own(pats, s, (k - 1) as nat);
    }
}

// ---------------------------------------------------------------------------------
// Automaton
// ---------------------------------------------------------------------------------
/// A state: the children by byte, the state of the longest proper suffix, and the
/// patterns that end here.
struct Node {
    goto: Vec<Option<usize>>,
    fail: usize,
    output: Vec<usize>,
}

fn new_node() -> (n: Node)
    ensures
        n.goto@.len() == 256,
        forall|b: int| 0 <= b < 256 ==> (#[trigger] n.goto@[b]) is None,
        n.fail == 0,
        n.output@ == Seq::<usize>::empty(),
{
    let mut goto: Vec<Option<usize>> = Vec::new();
    let mut b: usize = 0;
    while b < 256
        invariant
            b <= 256,
            goto@.len() == b,
            forall|k: int| 0 <= k < b ==> (#[trigger] goto@[k]) is None,
        decreases 256 - b,
    {
        goto.push(None);
        b += 1;
    }
    Node { goto, fail: 0, output: Vec::new() }
}

/// The states form a trie in which state `v` stands for `paths[v]`.
spec fn is_trie(nodes: Seq<Node>, paths: Seq<Seq<u8>>) -> bool {
    &&& nodes.len() == paths.len()
    &&& nodes.len() > 0
    &&& paths[0].len() == 0
    &&& paths.no_duplicates()
    &&& prefix_closed(paths)
    &&& forall|v: int| 0 <= v < nodes.len() ==> (#[trigger] nodes[v]).goto@.len() == 256
    &&& forall|v: int, b: int|
        0 <= v < nodes.len() && 0 <= b < 256 ==> edge_ok(
            nodes,
            paths,
            v,
            b,
            #[trigger] nodes[v].goto@[b],
        )
}

spec fn edge_ok(nodes: Seq<Node>, paths: Seq<Seq<u8>>, v: int, b: int, to: Option<usize>) -> bool {
    match to {
        Some(u) => 0 < u < nodes.len() && paths[u as int] == paths[v].push(b as u8),
        None => !paths.contains(paths[v].push(b as u8)),
    }
}

/// The state's link and patterns are final.
spec fn node_done(pats: Seq<Pattern>, nodes: Seq<Node>, paths: Seq<Seq<u8>>, v: int) -> bool {
    &&& nodes[v].fail < nodes.len()
    &&& v != 0 ==> paths[nodes[v].fail as int] == longest(paths, paths[v].drop_first())
    &&& nodes[v].output@ == suffix_hits(pats, paths[v])
}

/// Every non-empty needle is among the paths.
spec fn needles_in(pats: Seq<Pattern>, paths: Seq<Seq<u8>>, k: int) -> bool {
    forall|i: int|
        0 <= i < k && (#[trigger] pats[i]).needle@.len() > 0 ==> paths.contains(pats[i].needle@)
}

spec fn automaton(pats: Seq<Pattern>, nodes: Seq<Node>, paths: Seq<Seq<u8>>) -> bool {
    &&& is_trie(nodes, paths)
    &&& needles_in(pats, paths, pats.len() as int)
    &&& forall|v: int| 0 <= v < nodes.len() ==> #[trigger] node_done(pats, nodes, paths, v)
}

/// The state has only the patterns whose needle is its own path, among the first `k`.
spec fn own_only(
    pats: Seq<Pattern>,
    nodes: Seq<Node>,
    paths: Seq<Seq<u8>>,
    v: int,
    k: nat,
) -> bool {
    nodes[v].output@ == (if v == 0 {
        Seq::empty()
    } else {
        own_hits(pats, paths[v], k)
    })
}

proof fn lemma_contains_at(paths: Seq<Seq<u8>>, i: int)
    requires
        0 <= i < paths.len(),
    ensures
        paths.contains(paths[i]),
{
}

/// Adds a child to state `cur`.
fn add_child(nodes: &mut Vec<Node>, Ghost(paths): Ghost<Seq<Seq<u8>>>, cur: usize, b: u8)
    requires
        is_trie(old(nodes)@, paths),
        cur < old(nodes)@.len(),
        old(nodes)@[cur as int].goto@[b as int] is None,
    ensures
        is_trie(final(nodes)@, paths.push(paths[cur as int].push(b))),
        final(nodes)@.len() == old(nodes)@.len() + 1,
        forall|v: int|
            0 <= v < old(nodes)@.len() ==> (#[trigger] final(nodes)@[v]).output@ == old(
                nodes,
            )@[v].output@,
        final(nodes)@[old(nodes)@.len() as int].output@ == Seq::<usize>::empty(),
{
    let ghost before = nodes@;
    let u = nodes.len();
    nodes.push(new_node());
    nodes[cur].goto[b as usize] = Some(u);
    proof {
        lemma_trie_after_add(before, nodes@, paths, cur as int, b, u);
    }
}

proof fn lemma_trie_after_add(
    before: Seq<Node>,
    after: Seq<Node>,
    paths: Seq<Seq<u8>>,
    cur: int,
    b: u8,
    u: usize,
)
    requires
        is_trie(before, paths),
        0 <= cur < before.len(),
        before[cur].goto@[b as int] is None,
        u == before.len(),
        after.len() == before.len() + 1,
        forall|v: int| 0 <= v < before.len() && v != cur ==> (#[trigger] after[v]) == before[v],
        after[cur].goto@ == before[cur].goto@.update(b as int, Some(u)),
        after[before.len() as int].goto@.len() == 256,
        forall|k: int| 0 <= k < 256 ==> (#[trigger] after[before.len() as int].goto@[k]) is None,
    ensures
        is_trie(after, paths.push(paths[cur].push(b))),
{
    let path = paths[cur].push(b);
    let more = paths.push(path);
    assert(edge_ok(before, paths, cur, b as int, before[cur].goto@[b as int]));
    assert(!paths.contains(path));
    assert(more.no_duplicates());
    assert forall|i: int| 0 <= i < more.len() && (#[trigger] more[i]).len() > 0 implies more.contains(
        more[i].drop_last(),
    ) by {
        if i < paths.len() {
            assert(more[i] == paths[i]);
            let j = choose|j: int| 0 <= j < paths.len() && paths[j] == paths[i].drop_last();
            assert(more[j] == paths[i].drop_last());
        } else {
            assert(path.drop_last() =~= paths[cur]);
            assert(more[cur] == paths[cur]);
        }
    }
    assert forall|v: int, k: int| 0 <= v < after.len() && 0 <= k < 256 implies edge_ok(
        after,
        more,
        v,
        k,
        #[trigger] after[v].goto@[k],
    ) by {
        if v < before.len() {
            assert(more[v] == paths[v]);
            assert(edge_ok(before, paths, v, k, before[v].goto@[k]));
            if v == cur && k == b as int {
                assert(after[v].goto@[k] == Some(u));
            } else {
                assert(after[v].goto@[k] == before[v].goto@[k]);
                match after[v].goto@[k] {
                    Some(x) => {
                        assert(more[x as int] == paths[x as int]);
                    },
                    None => {
                        // The new path is a child of `cur` by `b` only.
                        let p = paths[v].push(k as u8);
                        if more.contains(p) {
                            let j = choose|j: int| 0 <= j < more.len() && more[j] == p;
                            if j < paths.len() {
                                assert(paths[j] == p);
                                assert(paths.contains(p));
                            } else {
                                assert(p == path);
                                assert(p.drop_last() =~= paths[v]);
                                assert(path.drop_last() =~= paths[cur]);
                                assert(p.last() == k as u8);
                                assert(path.last() == b);
                                assert(v == cur);
                            }
                        }
                    },
                }
            }
        } else {
            // Nothing lies below the new path.
            assert(more[v] == path);
            let p = path.push(k as u8);
            if more.contains(p) {
                let j = choose|j: int| 0 <= j < more.len() && more[j] == p;
                if j < paths.len() {
                    assert(paths[j] == p);
                    assert(p.drop_last() =~= path);
                    assert(paths.contains(paths[j].drop_last()));
                } else {
                    assert(p.len() == path.len() + 1);
                }
            }
        }
    }
    assert forall|v: int| 0 <= v < after.len() implies (#[trigger] after[v]).goto@.len() == 256 by {
        if v < before.len() && v != cur {
            assert(after[v] == before[v]);
        }
    }
}

/// Inserts the needle of pattern `pi`, whose index its last state then has.
fn insert_needle(
    nodes: &mut Vec<Node>,
    Ghost(paths): Ghost<Seq<Seq<u8>>>,
    pats: &Vec<Pattern>,
    pi: usize,
) -> (res: Ghost<Seq<Seq<u8>>>)
    requires
        is_trie(old(nodes)@, paths),
        pi < pats@.len(),
        pats@[pi as int].needle@.len() > 0,
        needles_in(pats@, paths, pi as int),
        forall|v: int| #![trigger old(nodes)@[v]]
            0 <= v < old(nodes)@.len() ==> own_only(pats@, old(nodes)@, paths, v, pi as nat),
    ensures
        is_trie(final(nodes)@, res@),
        needles_in(pats@, res@, pi + 1),
        forall|v: int| #![trigger final(nodes)@[v]]
            0 <= v < final(nodes)@.len() ==> own_only(
                pats@,
                final(nodes)@,
                res@,
                v,
                (pi + 1) as nat,
            ),
{
    let needle = pats[pi].needle;
    let mut cur: usize = 0;
    let mut j: usize = 0;
    let ghost mut ps = paths;
    proof {
        assert(ps[0] =~= needle@.take(0));
    }
    while j < needle.len()
        invariant
            j <= needle@.len(),
            needle@ == pats@[pi as int].needle@,
            pi < pats@.len(),
            is_trie(nodes@, ps),
            cur < nodes@.len(),
            ps[cur as int] == needle@.take(j as int),
            needles_in(pats@, ps, pi as int),
            forall|v: int| #![trigger nodes@[v]]
                0 <= v < nodes@.len() ==> own_only(pats@, nodes@, ps, v, pi as nat),
        decreases needle.len() - j,
    {
        let b = needle[j];
        let ghost before = nodes@;
        let ghost ps0 = ps;
        proof {
            assert(needle@.take(j + 1) =~= needle@.take(j as int).push(b));
            assert(edge_ok(before, ps, cur as int, b as int, before[cur as int].goto@[b as int]));
        }
        match nodes[cur].goto[b as usize] {
            Some(u) => {
                cur = u;
            },
            None => {
                let u = nodes.len();
                add_child(nodes, Ghost(ps), cur, b);
                proof {
                    let path = ps[cur as int].push(b);
                    ps = ps.push(path);
                    assert forall|i: int|
                        0 <= i < pi && (#[trigger] pats@[i]).needle@.len() > 0 implies ps.contains(
                        pats@[i].needle@,
                    ) by {
                        let k = choose|k: int| 0 <= k < ps0.len() && ps0[k] == pats@[i].needle@;
                        assert(ps[k] == pats@[i].needle@);
                    }
                    assert forall|v: int| #![trigger nodes@[v]]
                        0 <= v < nodes@.len() implies own_only(pats@, nodes@, ps, v, pi as nat) by {
                        if v < before.len() {
                            assert(own_only(pats@, before, ps0, v, pi as nat)) by {
                                assert(before[v] == before[v]);
                            }
                            assert(ps[v] == ps0[v]);
                        } else {
                            assert forall|i: int| 0 <= i < pi implies (
                            #[trigger] pats@[i]).needle@ != path by {
                                if pats@[i].needle@ == path {
                                    assert(ps0.contains(path));
                                }
                            }
                            lemma_no_own(pats@, path, pi as nat);
                        }
                    }
                }
                cur = u;
            },
        }
        j += 1;
    }
    let ghost before = nodes@;
    proof {
        assert(needle@.take(j as int) =~= needle@);
        assert(own_only(pats@, before, ps, cur as int, pi as nat)) by {
            assert(before[cur as int] == before[cur as int]);
        }
    }
    nodes[cur].output.push(pi);
    proof {
        assert forall|v: int| #![trigger nodes@[v]] 0 <= v < nodes@.len() && v != cur implies nodes@[v]
            == before[v] by {}
        lemma_same_goto(before, nodes@, ps);
        assert forall|v: int| #![trigger nodes@[v]] 0 <= v < nodes@.len() implies own_only(
            pats@,
            nodes@,
            ps,
            v,
            (pi + 1) as nat,
        ) by {
            assert(own_only(pats@, before, ps, v, pi as nat)) by {
                assert(before[v] == before[v]);
            }
            if v != cur {
                assert(ps[v] != ps[cur as int]);
            }
        }
        lemma_contains_at(ps, cur as int);
    }
    Ghost(ps)
}

/// The shape of a trie rests on its edges alone.
proof fn lemma_same_goto(a: Seq<Node>, b: Seq<Node>, paths: Seq<Seq<u8>>)
    requires
        is_trie(a, paths),
        b.len() == a.len(),
        forall|v: int| 0 <= v < a.len() ==> (#[trigger] b[v]).goto@ == a[v].goto@,
    ensures
        is_trie(b, paths),
{
    assert forall|v: int, k: int| 0 <= v < b.len() && 0 <= k < 256 implies edge_ok(
        b,
        paths,
        v,
        k,
        #[trigger] b[v].goto@[k],
    ) by {
        assert(edge_ok(a, paths, v, k, a[v].goto@[k]));
    }
}

/// The walk in order of depth that links the states: `order` lists the linked states, the
/// children of those before `head` are among them, and so are the children by a byte
/// below `b` of the one at `head`.
spec fn linking(
    pats: Seq<Pattern>,
    nodes: Seq<Node>,
    paths: Seq<Seq<u8>>,
    order: Seq<usize>,
    head: int,
    b: int,
) -> bool {
    &&& is_trie(nodes, paths)
    &&& needles_in(pats, paths, pats.len() as int)
    &&& node_done(pats, nodes, paths, 0)
    &&& order.no_duplicates()
    &&& 0 <= head <= order.len()
    &&& forall|j: int|
        0 <= j < order.len() ==> 0 < #[trigger] order[j] < nodes.len() && node_done(
            pats,
            nodes,
            paths,
            order[j] as int,
        )
    &&& forall|v: usize| #![trigger order.contains(v)]
        0 < v < nodes.len() && !order.contains(v) ==> own_only(
            pats,
            nodes,
            paths,
            v as int,
            pats.len(),
        )
    &&& forall|i: int, j: int|
        0 <= i <= j < order.len() ==> paths[(#[trigger] order[i]) as int].len() <= paths[(
        #[trigger] order[j]) as int].len()
    &&& forall|i: int, j: int|
        head <= i < order.len() && 0 <= j < order.len() ==> paths[(
        #[trigger] order[j]) as int].len() <= paths[(#[trigger] order[i]) as int].len() + 1
    &&& forall|k: int|
        0 <= k < 256 ==> child_in(order, #[trigger] nodes[0].goto@[k])
    &&& forall|i: int, k: int|
        0 <= i < order.len() && 0 <= k < 256 && (i < head || (i == head && k < b)) ==> child_in(
            order,
            #[trigger] nodes[order[i] as int].goto@[k],
        )
    &&& forall|j: int|
        0 <= j < order.len() && paths[(#[trigger] order[j]) as int].len() != 1 ==> has_parent(
            paths,
            order,
            head,
            b,
            paths[order[j] as int],
        )
}

spec fn child_in(order: Seq<usize>, to: Option<usize>) -> bool {
    to matches Some(u) ==> order.contains(u)
}

/// The parent of path `p` is listed before `head`, or at `head` with a byte below `b`.
spec fn has_parent(paths: Seq<Seq<u8>>, order: Seq<usize>, head: int, b: int, p: Seq<u8>) -> bool {
    exists|i: int|
        0 <= i < order.len() && paths[(#[trigger] order[i]) as int] == p.drop_last() && (i < head
            || (i == head && p.last() < b))
}

/// Every state that is not deeper than the one at `head` is listed.
proof fn lemma_listed(
    pats: Seq<Pattern>,
    nodes: Seq<Node>,
    paths: Seq<Seq<u8>>,
    order: Seq<usize>,
    head: int,
    b: int,
    x: usize,
)
    requires
        linking(pats, nodes, paths, order, head, b),
        0 < x < nodes.len() <= usize::MAX,
        head == order.len() || paths[x as int].len() <= paths[order[head] as int].len(),
    ensures
        order.contains(x),
    decreases paths[x as int].len(),
{
    let px = paths[x as int];
    if px.len() == 0 {
        assert(paths[0] =~= px);
        assert(false);
    }
    assert(paths.contains(px.drop_last()));
    let p = choose|p: int| 0 <= p < paths.len() && paths[p] == px.drop_last();
    let k = px.last() as int;
    assert(px.drop_last().push(px.last()) =~= px);
    assert(edge_ok(nodes, paths, p, k, nodes[p].goto@[k]));
    lemma_contains_at(paths, x as int);
    assert(nodes[p].goto@[k] == Some(x)) by {
        match nodes[p].goto@[k] {
            Some(u) => {
                assert(paths[u as int] == paths[x as int]);
            },
            None => {},
        }
    }
    if p == 0 {
        assert(child_in(order, nodes[0].goto@[k]));
    } else {
        lemma_listed(pats, nodes, paths, order, head, b, p as usize);
        let j = choose|j: int| 0 <= j < order.len() && order[j] == p as usize;
        assert(j < head) by {
            if head < order.len() && head <= j {
                assert(paths[order[head] as int].len() <= paths[order[j] as int].len());
            }
        }
        assert(child_in(order, nodes[order[j] as int].goto@[k]));
    }
}

/// A list of distinct states is no longer than the states are many.
proof fn lemma_at_most(order: Seq<usize>, n: nat)
    requires
        order.no_duplicates(),
        forall|j: int| 0 <= j < order.len() ==> (#[trigger] order[j]) < n,
    ensures
        order.len() <= n,
{
    let ints = order.map_values(|x: usize| x as int);
    assert(ints.no_duplicates());
    ints.unique_seq_to_set();
    vstd::set_lib::lemma_int_range(0, n as int);
    assert(ints.to_set().subset_of(vstd::set_lib::set_int_range(0, n as int)));
    vstd::set_lib::lemma_len_subset(ints.to_set(), vstd::set_lib::set_int_range(0, n as int));
}

/// Appends a copy of `more`.
fn extend(out: &mut Vec<usize>, more: &Vec<usize>)
    ensures
        final(out)@ == old(out)@ + more@,
{
    let ghost start = out@;
    let mut i: usize = 0;
    while i < more.len()
        invariant
            i <= more@.len(),
            out@ =~= start + more@.take(i as int),
        decreases more.len() - i,
    {
        out.push(more[i]);
        i += 1;
    }
    proof {
        assert(more@.take(i as int) =~= more@);
    }
}

/// Finds the state of the longest suffix of `paths[f]` and `b` that is there, going up the
/// links from `f`.
fn climb(
    nodes: &Vec<Node>,
    Ghost(pats): Ghost<Seq<Pattern>>,
    Ghost(paths): Ghost<Seq<Seq<u8>>>,
    from: usize,
    b: u8,
) -> (res: usize)
    requires
        is_trie(nodes@, paths),
        from < nodes@.len(),
        forall|v: int| #![trigger nodes@[v]]
            0 <= v < nodes@.len() && paths[v].len() <= paths[from as int].len() ==> node_done(
                pats,
                nodes@,
                paths,
                v,
            ),
    ensures
        res < nodes@.len(),
        paths[res as int] == longest(paths, paths[from as int].push(b)),
{
    let mut f: usize = from;
    loop
        invariant
            is_trie(nodes@, paths),
            from < nodes@.len(),
            f < nodes@.len(),
            paths[f as int].len() <= paths[from as int].len(),
            forall|v: int| #![trigger nodes@[v]]
                0 <= v < nodes@.len() && paths[v].len() <= paths[from as int].len() ==> node_done(
                    pats,
                    nodes@,
                    paths,
                    v,
                ),
            longest(paths, paths[from as int].push(b)) == longest(paths, paths[f as int].push(b)),
        decreases paths[f as int].len(),
    {
        let ghost p = paths[f as int];
        proof {
            assert(edge_ok(nodes@, paths, f as int, b as int, nodes@[f as int].goto@[b as int]));
            assert(node_done(pats, nodes@, paths, f as int)) by {
                assert(nodes@[f as int] == nodes@[f as int]);
            }
        }
        match nodes[f].goto[b as usize] {
            Some(g) => {
                proof {
                    lemma_contains_at(paths, g as int);
                }
                return g;
            },
            None => {
                if f == 0 {
                    proof {
                        assert(p.push(b).drop_first() =~= Seq::<u8>::empty());
                        assert(paths[0] =~= Seq::<u8>::empty());
                        assert(longest(paths, Seq::<u8>::empty()) =~= Seq::<u8>::empty());
                    }
                    return 0;
                }
                proof {
                    if p.len() == 0 {
                        assert(paths[0] =~= p);
                        assert(false);
                    }
                    assert(p.push(b).drop_first() =~= p.drop_first().push(b));
                    lemma_longest_push(paths, p.drop_first(), b);
                    lemma_longest_len(paths, p.drop_first());
                }
                f = nodes[f].fail;
            },
        }
    }
}

/// Links the children of the root.
fn link_root(
    nodes: &mut Vec<Node>,
    Ghost(paths): Ghost<Seq<Seq<u8>>>,
    Ghost(pats): Ghost<Seq<Pattern>>,
) -> (order: Vec<usize>)
    requires
        is_trie(old(nodes)@, paths),
        needles_in(pats, paths, pats.len() as int),
        forall|v: int| #![trigger old(nodes)@[v]]
            0 <= v < old(nodes)@.len() ==> own_only(pats, old(nodes)@, paths, v, pats.len()),
    ensures
        linking(pats, final(nodes)@, paths, order@, 0, 0),
        final(nodes)@.len() == old(nodes)@.len(),
{
    let mut order: Vec<usize> = Vec::new();
    let ghost start = nodes@;
    nodes[0].fail = 0;
    proof {
        lemma_same_goto(start, nodes@, paths);
        assert(own_only(pats, start, paths, 0, pats.len())) by {
            assert(start[0] == start[0]);
        }
        assert forall|v: int| #![trigger nodes@[v]] 0 <= v < nodes@.len() implies own_only(
            pats,
            nodes@,
            paths,
            v,
            pats.len(),
        ) by {
            assert(own_only(pats, start, paths, v, pats.len())) by {
                assert(start[v] == start[v]);
            }
        }
    }
    let mut b: usize = 0;
    while b < 256
        invariant
            b <= 256,
            is_trie(nodes@, paths),
            nodes@.len() == start.len(),
            nodes@[0].fail == 0,
            forall|v: int| #![trigger nodes@[v]]
                0 <= v < nodes@.len() ==> own_only(pats, nodes@, paths, v, pats.len()),
            order@.no_duplicates(),
            forall|j: int|
                0 <= j < order@.len() ==> 0 < #[trigger] order@[j] < nodes@.len()
                    && nodes@[order@[j] as int].fail == 0 && paths[order@[j] as int].len() == 1
                    && paths[order@[j] as int][0] < b,
            forall|k: int| 0 <= k < b ==> child_in(order@, #[trigger] nodes@[0].goto@[k]),
        decreases 256 - b,
    {
        let ghost before = nodes@;
        let ghost o0 = order@;
        proof {
            assert(edge_ok(before, paths, 0, b as int, before[0].goto@[b as int]));
        }
        if let Some(c) = nodes[0].goto[b] {
            nodes[c].fail = 0;
            order.push(c);
            proof {
                lemma_same_goto(before, nodes@, paths);
                assert(paths[c as int] =~= seq![b as u8]);
                assert forall|v: int| #![trigger nodes@[v]] 0 <= v < nodes@.len() implies own_only(
                    pats,
                    nodes@,
                    paths,
                    v,
                    pats.len(),
                ) by {
                    assert(own_only(pats, before, paths, v, pats.len())) by {
                        assert(before[v] == before[v]);
                    }
                }
                assert forall|j: int| 0 <= j < order@.len() implies 0 < #[trigger] order@[j]
                    < nodes@.len() && nodes@[order@[j] as int].fail == 0
                    && paths[order@[j] as int].len() == 1 && paths[order@[j] as int][0] < b
                    + 1 by {
                    if j < o0.len() {
                        assert(order@[j] == o0[j]);
                    }
                }
                assert forall|k: int| 0 <= k < b + 1 implies child_in(
                    order@,
                    #[trigger] nodes@[0].goto@[k],
                ) by {
                    assert(nodes@[0].goto@ == before[0].goto@);
                    if k < b {
                        assert(child_in(o0, before[0].goto@[k]));
                        if let Some(u) = before[0].goto@[k] {
                            let i = choose|i: int| 0 <= i < o0.len() && o0[i] == u;
                            assert(order@[i] == u);
                        }
                    } else {
                        assert(order@[o0.len() as int] == c);
                    }
                }
            }
        }
        b += 1;
    }
    proof {
        assert(own_only(pats, nodes@, paths, 0, pats.len())) by {
            assert(nodes@[0] == nodes@[0]);
        }
        assert(suffix_hits(pats, paths[0]) =~= Seq::<usize>::empty());
        assert forall|j: int| 0 <= j < order@.len() implies 0 < #[trigger] order@[j] < nodes@.len()
            && node_done(pats, nodes@, paths, order@[j] as int) by {
            let v = order@[j] as int;
            assert(own_only(pats, nodes@, paths, v, pats.len())) by {
                assert(nodes@[v] == nodes@[v]);
            }
            let p = paths[v];
            assert(p.drop_first() =~= Seq::<u8>::empty());
            assert(longest(paths, Seq::<u8>::empty()) =~= Seq::<u8>::empty());
            assert(paths[0] =~= Seq::<u8>::empty());
            assert(suffix_hits(pats, p.drop_first()) =~= Seq::<usize>::empty());
            assert(suffix_hits(pats, p) =~= own_hits(pats, p, pats.len()));
        }
        assert forall|v: usize| #![trigger order@.contains(v)]
            0 < v < nodes@.len() && !order@.contains(v) implies own_only(
            pats,
            nodes@,
            paths,
            v as int,
            pats.len(),
        ) by {
            assert(nodes@[v as int] == nodes@[v as int]);
        }
    }
    order
}

/// Links child `v` of state `u`, which is at `head` of the walk, by byte `b`.
fn link_child(
    nodes: &mut Vec<Node>,
    Ghost(paths): Ghost<Seq<Seq<u8>>>,
    Ghost(pats): Ghost<Seq<Pattern>>,
    order: &mut Vec<usize>,
    head: usize,
    b: u8,
)
    requires
        linking(pats, old(nodes)@, paths, old(order)@, head as int, b as int),
        head < old(order)@.len(),
    ensures
        linking(pats, final(nodes)@, paths, final(order)@, head as int, b + 1),
        final(nodes)@.len() == old(nodes)@.len(),
        head < final(order)@.len(),
{
    let ghost n0 = nodes@;
    let ghost o0 = order@;
    let u = order[head];
    proof {
        assert(edge_ok(n0, paths, u as int, b as int, n0[u as int].goto@[b as int]));
        assert(node_done(pats, n0, paths, u as int));
    }
    let v = match nodes[u].goto[b as usize] {
        Some(v) => v,
        None => {
            proof {
                assert forall|j: int|
                    0 <= j < o0.len() && paths[(
                    #[trigger] o0[j]) as int].len() != 1 implies has_parent(
                    paths,
                    o0,
                    head as int,
                    b + 1,
                    paths[o0[j] as int],
                ) by {
                    assert(has_parent(paths, o0, head as int, b as int, paths[o0[j] as int]));
                    let i = choose|i: int|
                        0 <= i < o0.len() && paths[(#[trigger] o0[i]) as int]
                            == paths[o0[j] as int].drop_last() && (i < head || (i == head
                            && paths[o0[j] as int].last() < b));
                    assert(paths[o0[i] as int] == paths[o0[j] as int].drop_last());
                }
            }
            return;
        },
    };
    let ghost pu = paths[u as int];
    let ghost pv = paths[v as int];
    proof {
        if pu.len() == 0 {
            assert(paths[0] =~= pu);
            assert(false);
        }
        assert(pv.drop_first() =~= pu.drop_first().push(b));
        lemma_longest_push(paths, pu.drop_first(), b);
        lemma_longest_len(paths, pu.drop_first());
        // `v` was not listed yet: its parent is `u`.
        if o0.contains(v) {
            let j = choose|j: int| 0 <= j < o0.len() && o0[j] == v;
            assert(has_parent(paths, o0, head as int, b as int, paths[o0[j] as int]));
            let i = choose|i: int|
                0 <= i < o0.len() && paths[(#[trigger] o0[i]) as int] == pv.drop_last() && (i < head
                    || (i == head && pv.last() < b));
            assert(pv.drop_last() =~= pu);
            assert(o0[i] == u);
            assert(pv.last() == b);
        }
        assert forall|x: int| #![trigger n0[x]]
            0 <= x < n0.len() && paths[x].len() <= pu.len() implies node_done(
            pats,
            n0,
            paths,
            x,
        ) by {
            if x > 0 {
                assert(n0.len() == nodes.len());
                lemma_listed(pats, n0, paths, o0, head as int, b as int, x as usize);
                let j = choose|j: int| 0 <= j < o0.len() && o0[j] == x as usize;
                assert(node_done(pats, n0, paths, o0[j] as int));
            }
        }
    }
    let up = nodes[u].fail;
    let f = climb(nodes, Ghost(pats), Ghost(paths), up, b);
    proof {
        lemma_longest_len(paths, paths[up as int].push(b));
        assert(node_done(pats, n0, paths, f as int)) by {
            assert(n0[f as int] == n0[f as int]);
        }
        lemma_hits_of_longest(pats, paths, pv.drop_first());
        assert(own_only(pats, n0, paths, v as int, pats.len()));
    }
    let mut output: Vec<usize> = Vec::new();
    extend(&mut output, &nodes[v].output);
    extend(&mut output, &nodes[f].output);
    nodes[v].fail = f;
    nodes[v].output = output;
    order.push(v);
    proof {
        assert(output@ =~= own_hits(pats, pv, pats.len()) + suffix_hits(pats, pv.drop_first()));
        lemma_same_goto(n0, nodes@, paths);
        lemma_after_link(pats, n0, nodes@, paths, o0, order@, head as int, b, u, v);
    }
}

proof fn lemma_after_link(
    pats: Seq<Pattern>,
    n0: Seq<Node>,
    n1: Seq<Node>,
    paths: Seq<Seq<u8>>,
    o0: Seq<usize>,
    o1: Seq<usize>,
    head: int,
    b: u8,
    u: usize,
    v: usize,
)
    requires
        linking(pats, n0, paths, o0, head, b as int),
        0 <= head < o0.len(),
        u == o0[head],
        n0[u as int].goto@[b as int] == Some(v),
        0 < v < n0.len(),
        paths[v as int] == paths[u as int].push(b),
        !o0.contains(v),
        o1 == o0.push(v),
        n1.len() == n0.len(),
        is_trie(n1, paths),
        forall|x: int| 0 <= x < n0.len() && x != v ==> (#[trigger] n1[x]) == n0[x],
        n1[v as int].goto@ == n0[v as int].goto@,
        node_done(pats, n1, paths, v as int),
    ensures
        linking(pats, n1, paths, o1, head, b + 1),
{
    assert forall|j: int| 0 <= j < o1.len() implies 0 < #[trigger] o1[j] < n1.len() && node_done(
        pats,
        n1,
        paths,
        o1[j] as int,
    ) by {
        if j < o0.len() {
            assert(o1[j] == o0[j]);
            assert(node_done(pats, n0, paths, o0[j] as int));
            assert(o0[j] != v) by {
                if o0[j] == v {
                    assert(o0.contains(v));
                }
            }
        }
    }
    assert(node_done(pats, n1, paths, 0)) by {
        assert(n1[0] == n0[0]);
    }
    assert forall|x: usize| #![trigger o1.contains(x)]
        0 < x < n1.len() && !o1.contains(x) implies own_only(
        pats,
        n1,
        paths,
        x as int,
        pats.len(),
    ) by {
        assert(x != v) by {
            assert(o1[o0.len() as int] == v);
        }
        if o0.contains(x) {
            let j = choose|j: int| 0 <= j < o0.len() && o0[j] == x;
            assert(o1[j] == x);
        }
        assert(own_only(pats, n0, paths, x as int, pats.len()));
        assert(n1[x as int] == n0[x as int]);
    }
    assert forall|i: int, j: int| 0 <= i <= j < o1.len() implies paths[(
    #[trigger] o1[i]) as int].len() <= paths[(#[trigger] o1[j]) as int].len() by {
        if j < o0.len() {
            assert(o1[i] == o0[i] && o1[j] == o0[j]);
        } else if i < o0.len() {
            assert(o1[i] == o0[i]);
            assert(paths[o0[i] as int].len() <= paths[o0[head] as int].len() + 1);
        }
    }
    assert forall|i: int, j: int| head <= i < o1.len() && 0 <= j < o1.len() implies paths[(
    #[trigger] o1[j]) as int].len() <= paths[(#[trigger] o1[i]) as int].len() + 1 by {
        if i < o0.len() {
            assert(o1[i] == o0[i]);
            assert(paths[o0[head] as int].len() <= paths[o0[i] as int].len());
        }
        if j < o0.len() {
            assert(o1[j] == o0[j]);
            assert(paths[o0[j] as int].len() <= paths[o0[head] as int].len() + 1);
            if i >= o0.len() {
                assert(o1[i] == v);
            }
        } else {
            assert(o1[j] == v);
        }
    }
    assert forall|to: Option<usize>| child_in(o0, to) implies #[trigger] child_in(o1, to) by {
        if let Some(x) = to {
            let j = choose|j: int| 0 <= j < o0.len() && o0[j] == x;
            assert(o1[j] == x);
        }
    }
    assert forall|k: int| 0 <= k < 256 implies child_in(o1, #[trigger] n1[0].goto@[k]) by {
        assert(n1[0] == n0[0]);
        assert(child_in(o0, n0[0].goto@[k]));
    }
    assert forall|i: int, k: int|
        0 <= i < o1.len() && 0 <= k < 256 && (i < head || (i == head && k < b + 1)) implies child_in(
        o1,
        #[trigger] n1[o1[i] as int].goto@[k],
    ) by {
        assert(o1[i] == o0[i]);
        assert(n1[o1[i] as int].goto@ == n0[o0[i] as int].goto@);
        if i == head && k == b as int {
            assert(o1[o0.len() as int] == v);
        } else {
            assert(child_in(o0, n0[o0[i] as int].goto@[k]));
        }
    }
    assert forall|j: int|
        0 <= j < o1.len() && paths[(#[trigger] o1[j]) as int].len() != 1 implies has_parent(
        paths,
        o1,
        head,
        b + 1,
        paths[o1[j] as int],
    ) by {
        let p = paths[o1[j] as int];
        if j < o0.len() {
            assert(o1[j] == o0[j]);
            assert(has_parent(paths, o0, head, b as int, paths[o0[j] as int]));
            let i = choose|i: int|
                0 <= i < o0.len() && paths[(#[trigger] o0[i]) as int] == p.drop_last() && (i < head
                    || (i == head && p.last() < b));
            assert(o1[i] == o0[i]);
        } else {
            assert(p.drop_last() =~= paths[u as int]);
            assert(o1[head] == u);
        }
    }
}

/// Links every state to that of its longest proper suffix, and gives it the patterns that
/// end there.
fn link(
    nodes: &mut Vec<Node>,
    Ghost(paths): Ghost<Seq<Seq<u8>>>,
    Ghost(pats): Ghost<Seq<Pattern>>,
)
    requires
        is_trie(old(nodes)@, paths),
        needles_in(pats, paths, pats.len() as int),
        forall|v: int| #![trigger old(nodes)@[v]]
            0 <= v < old(nodes)@.len() ==> own_only(pats, old(nodes)@, paths, v, pats.len()),
    ensures
        automaton(pats, final(nodes)@, paths),
{
    let mut order = link_root(nodes, Ghost(paths), Ghost(pats));
    let mut head: usize = 0;
    while head < order.len()
        invariant
            linking(pats, nodes@, paths, order@, head as int, 0),
        decreases nodes@.len() - head,
    {
        proof {
            lemma_at_most(order@, nodes@.len());
        }
        let mut b: usize = 0;
        let ghost count = nodes@.len();
        while b < 256
            invariant
                b <= 256,
                head < order@.len(),
                nodes@.len() == count,
                linking(pats, nodes@, paths, order@, head as int, b as int),
            decreases 256 - b,
        {
            link_child(nodes, Ghost(paths), Ghost(pats), &mut order, head, b as u8);
            b += 1;
        }
        proof {
            lemma_next_head(pats, nodes@, paths, order@, head as int);
        }
        head += 1;
    }
    proof {
        assert forall|v: int| 0 <= v < nodes@.len() implies #[trigger] node_done(
            pats,
            nodes@,
            paths,
            v,
        ) by {
            if v > 0 {
                assert(nodes@.len() == nodes.len());
                lemma_listed(pats, nodes@, paths, order@, head as int, 0, v as usize);
                let j = choose|j: int| 0 <= j < order@.len() && order@[j] == v as usize;
                assert(node_done(pats, nodes@, paths, order@[j] as int));
            }
        }
    }
}

proof fn lemma_next_head(
    pats: Seq<Pattern>,
    nodes: Seq<Node>,
    paths: Seq<Seq<u8>>,
    order: Seq<usize>,
    head: int,
)
    requires
        linking(pats, nodes, paths, order, head, 256),
        head < order.len(),
    ensures
        linking(pats, nodes, paths, order, head + 1, 0),
{
    assert forall|i: int, k: int|
        0 <= i < order.len() && 0 <= k < 256 && (i < head + 1 || (i == head + 1 && k
            < 0)) implies child_in(order, #[trigger] nodes[order[i] as int].goto@[k]) by {}
    assert forall|j: int|
        0 <= j < order.len() && paths[(#[trigger] order[j]) as int].len() != 1 implies has_parent(
        paths,
        order,
        head + 1,
        0,
        paths[order[j] as int],
    ) by {
        let p = paths[order[j] as int];
        assert(has_parent(paths, order, head, 256, p));
        let i = choose|i: int|
            0 <= i < order.len() && paths[(#[trigger] order[i]) as int] == p.drop_last() && (i < head
                || (i == head && p.last() < 256));
        assert(paths[order[i] as int] == p.drop_last());
    }
}

/// The states for a list of patterns.
fn build_trie(pats: &Vec<Pattern>) -> (res: (Vec<Node>, Ghost<Seq<Seq<u8>>>))
    ensures
        automaton(pats@, res.0@, res.1@),
{
    let mut nodes: Vec<Node> = Vec::new();
    nodes.push(new_node());
    let mut paths: Ghost<Seq<Seq<u8>>> = Ghost(Seq::empty().push(Seq::<u8>::empty()));
    let mut pi: usize = 0;
    proof {
        assert forall|v: int, b: int| 0 <= v < nodes@.len() && 0 <= b < 256 implies edge_ok(
            nodes@,
            paths@,
            v,
            b,
            #[trigger] nodes@[v].goto@[b],
        ) by {
            let p = paths@[0].push(b as u8);
            assert(paths@[v].len() == 0);
            if paths@.contains(p) {
                assert(p.len() == 1);
            }
        }
    }
    while pi < pats.len()
        invariant
            pi <= pats@.len(),
            is_trie(nodes@, paths@),
            needles_in(pats@, paths@, pi as int),
            forall|v: int| #![trigger nodes@[v]]
                0 <= v < nodes@.len() ==> own_only(pats@, nodes@, paths@, v, pi as nat),
        decreases pats.len() - pi,
    {
        if pats[pi].needle.len() > 0 {
            paths = insert_needle(&mut nodes, paths, pats, pi);
        } else {
            proof {
                assert forall|v: int| #![trigger nodes@[v]] 0 <= v < nodes@.len() implies own_only(
                    pats@,
                    nodes@,
                    paths@,
                    v,
                    (pi + 1) as nat,
                ) by {
                    assert(own_only(pats@, nodes@, paths@, v, pi as nat));
                    if v > 0 && paths@[v].len() == 0 {
                        assert(paths@[0] =~= paths@[v]);
                    }
                }
            }
        }
        pi += 1;
    }
    link(&mut nodes, paths, Ghost(pats@));
    (nodes, paths)
}

/// A set of patterns, ready to scan with.
pub struct Scanner {
    patterns: Vec<Pattern>,
    nodes: Vec<Node>,
    paths: Ghost<Seq<Seq<u8>>>,
}

impl View for Scanner {
    type V = Seq<Pattern>;

    closed spec fn view(&self) -> Seq<Pattern> {
        self.patterns@
    }
}

/// The patterns that a scanner has where nothing else is asked for: needle, severity and
/// label.
pub open spec fn default_table() -> Seq<(Seq<char>, Severity, Seq<char>)> {
    seq![
        ("| bash"@, Severity::Block, "pipe-to-bash"@),
        ("|bash"@, Severity::Block, "pipe-to-bash"@),
        ("| sh"@, Severity::Block, "pipe-to-sh"@),
        ("|sh "@, Severity::Block, "pipe-to-sh"@),
        ("| zsh"@, Severity::Block, "pipe-to-zsh"@),
        ("| ksh"@, Severity::Block, "pipe-to-ksh"@),
        ("| dash"@, Severity::Block, "pipe-to-dash"@),
        ("eval $(curl"@, Severity::Block, "eval-curl"@),
        ("eval \"$(curl"@, Severity::Block, "eval-curl"@),
        ("eval $(wget"@, Severity::Block, "eval-wget"@),
        ("eval \"$(wget"@, Severity::Block, "eval-wget"@),
        ("base64 -d | bash"@, Severity::Block, "base64-pipe-bash"@),
        ("base64 -d | sh"@, Severity::Block, "base64-pipe-sh"@),
        ("base64 --decode | bash"@, Severity::Block, "base64-pipe-bash"@),
        ("npx --yes "@, Severity::Warn, "npx-auto-install"@),
        ("npx -y "@, Severity::Warn, "npx-auto-install"@),
        ("pnpx "@, Severity::Warn, "pnpx-auto-install"@),
        ("wget -O-"@, Severity::Warn, "wget-stdout"@),
        ("wget -qO-"@, Severity::Warn, "wget-stdout"@),
        ("node -e "@, Severity::Warn, "node-inline-eval"@),
        ("python -c "@, Severity::Warn, "python-inline-eval"@),
        ("python3 -c "@, Severity::Warn, "python-inline-eval"@),
    ]
}

/// True where the patterns are those of a table.
pub open spec fn from_table(
    pats: Seq<Pattern>,
    table: Seq<(Seq<char>, Severity, Seq<char>)>,
) -> bool {
    &&& pats.len() == table.len()
    &&& forall|i: int| #![trigger pats[i]]
        0 <= i < pats.len() ==> {
            &&& pats[i].needle@ == encode_utf8(table[i].0)
            &&& pats[i].severity == table[i].1
            &&& pats[i].label@ == table[i].2
        }
}

fn add_pattern(
    list: &mut Vec<Pattern>,
    needle: &'static str,
    severity: Severity,
    label: &'static str,
)
    ensures
        final(list)@.len() == old(list)@.len() + 1,
        forall|i: int| 0 <= i < old(list)@.len() ==> (#[trigger] final(list)@[i]) == old(list)@[i],
        final(list)@.last().needle@ == encode_utf8(needle@),
        final(list)@.last().severity == severity,
        final(list)@.last().label@ == label@,
{
    list.push(Pattern { needle: needle.as_bytes(), severity, label });
}

fn default_list() -> (list: Vec<Pattern>)
    ensures
        from_table(list@, default_table()),
{
    let mut list: Vec<Pattern> = Vec::new();
    add_pattern(&mut list, "| bash", Severity::Block, "pipe-to-bash");
    add_pattern(&mut list, "|bash", Severity::Block, "pipe-to-bash");
    add_pattern(&mut list, "| sh", Severity::Block, "pipe-to-sh");
    add_pattern(&mut list, "|sh ", Severity::Block, "pipe-to-sh");
    add_pattern(&mut list, "| zsh", Severity::Block, "pipe-to-zsh");
    add_pattern(&mut list, "| ksh", Severity::Block, "pipe-to-ksh");
    add_pattern(&mut list, "| dash", Severity::Block, "pipe-to-dash");
    add_pattern(&mut list, "eval $(curl", Severity::Block, "eval-curl");
    add_pattern(&mut list, "eval \"$(curl", Severity::Block, "eval-curl");
    add_pattern(&mut list, "eval $(wget", Severity::Block, "eval-wget");
    add_pattern(&mut list, "eval \"$(wget", Severity::Block, "eval-wget");
    add_pattern(&mut list, "base64 -d | bash", Severity::Block, "base64-pipe-bash");
    add_pattern(&mut list, "base64 -d | sh", Severity::Block, "base64-pipe-sh");
    add_pattern(&mut list, "base64 --decode | bash", Severity::Block, "base64-pipe-bash");
    add_pattern(&mut list, "npx --yes ", Severity::Warn, "npx-auto-install");
    add_pattern(&mut list, "npx -y ", Severity::Warn, "npx-auto-install");
    add_pattern(&mut list, "pnpx ", Severity::Warn, "pnpx-auto-install");
    add_pattern(&mut list, "wget -O-", Severity::Warn, "wget-stdout");
    add_pattern(&mut list, "wget -qO-", Severity::Warn, "wget-stdout");
    add_pattern(&mut list, "node -e ", Severity::Warn, "node-inline-eval");
    add_pattern(&mut list, "python -c ", Severity::Warn, "python-inline-eval");
    add_pattern(&mut list, "python3 -c ", Severity::Warn, "python-inline-eval");
    list
}

impl Scanner {
    #[verifier::type_invariant]
    spec fn ready(self) -> bool {
        automaton(self.patterns@, self.nodes@, self.paths@)
    }

    /// A scanner for the given patterns. Empty needles are ignored.
    pub fn new(patterns: Vec<Pattern>) -> (res: Self)
        ensures
            res@ == patterns@,
    {
        let (nodes, paths) = build_trie(&patterns);
        Scanner { patterns, nodes, paths }
    }

    /// A scanner for the known attack shapes.
    pub fn default_patterns() -> (res: Self)
        ensures
            from_table(res@, default_table()),
    {
        Self::new(default_list())
    }

    /// All occurrences of the patterns, overlapping ones included, from left to right by
    /// where they end; at one place longer needles come first.
    pub fn scan(&self, haystack: &[u8]) -> (out: Vec<Finding>)
        ensures
            out@ == findings(self@, haystack@, haystack@.len() as int),
    {
        proof {
            use_type_invariant(self);
        }
        let mut out: Vec<Finding> = Vec::new();
        let mut state: usize = 0;
        let mut i: usize = 0;
        let ghost paths = self.paths@;
        proof {
            assert(haystack@.take(0) =~= Seq::<u8>::empty());
            assert(paths[0] =~= Seq::<u8>::empty());
            assert(longest(paths, Seq::<u8>::empty()) =~= Seq::<u8>::empty());
        }
        while i < haystack.len()
            invariant
                i <= haystack@.len(),
                automaton(self.patterns@, self.nodes@, paths),
                state < self.nodes@.len(),
                paths[state as int] == longest(paths, haystack@.take(i as int)),
                out@ == findings(self.patterns@, haystack@, i as int),
            decreases haystack.len() - i,
        {
            let b = haystack[i];
            let ghost seen = haystack@.take(i + 1);
            proof {
                assert(seen =~= haystack@.take(i as int).push(b));
                lemma_longest_push(paths, haystack@.take(i as int), b);
                assert forall|v: int| #![trigger self.nodes@[v]]
                    0 <= v < self.nodes@.len() && paths[v].len()
                        <= paths[state as int].len() implies node_done(
                    self.patterns@,
                    self.nodes@,
                    paths,
                    v,
                ) by {}
            }
            state = climb(&self.nodes, Ghost(self.patterns@), Ghost(paths), state, b);
            let ghost hits = suffix_hits(self.patterns@, seen);
            proof {
                lemma_hits_of_longest(self.patterns@, paths, seen);
                assert(node_done(self.patterns@, self.nodes@, paths, state as int));
                assert(self.patterns@.len() == self.patterns.len());
                lemma_hits_sound(self.patterns@, seen);
            }
            let ghost start = out@;
            let mut k: usize = 0;
            while k < self.nodes[state].output.len()
                invariant
                    i < haystack.len(),
                    state < self.nodes@.len(),
                    hits == self.nodes@[state as int].output@,
                    k <= hits.len(),
                    seen.len() == i + 1,
                    forall|j: int|
                        0 <= j < hits.len() ==> hit_ok(self.patterns@, seen, #[trigger] hits[j]),
                    out@ == start + findings_at(self.patterns@, hits.take(k as int), i + 1),
                decreases hits.len() - k,
            {
                let pi = self.nodes[state].output[k];
                proof {
                    assert(hit_ok(self.patterns@, seen, hits[k as int]));
                }
                let p = &self.patterns[pi];
                out.push(
                    Finding {
                        label: p.label,
                        severity: p.severity,
                        offset: i + 1 - p.needle.len(),
                    },
                );
                proof {
                    assert(findings_at(self.patterns@, hits.take(k + 1), i + 1) =~= findings_at(
                        self.patterns@,
                        hits.take(k as int),
                        i + 1,
                    ).push(finding(self.patterns@, hits[k as int], i + 1)));
                    assert(out@ =~= start + findings_at(self.patterns@, hits.take(k + 1), i + 1));
                }
                k += 1;
            }
            proof {
                assert(hits.take(k as int) =~= hits);
            }
            i += 1;
        }
        out
    }

    /// The findings of a scan that block.
    pub fn blocking(&self, haystack: &[u8]) -> (out: Vec<Finding>)
        ensures
            out@ == blocking_only(findings(self@, haystack@, haystack@.len() as int)),
    {
        let all = self.scan(haystack);
        let mut out: Vec<Finding> = Vec::new();
        let mut i: usize = 0;
        proof {
            assert(all@.take(0) =~= Seq::<Finding>::empty());
        }
        while i < all.len()
            invariant
                i <= all@.len(),
                out@ == blocking_only(all@.take(i as int)),
            decreases all.len() - i,
        {
            let f = &all[i];
            proof {
                assert(all@.take(i + 1).drop_last() =~= all@.take(i as int));
                assert(all@.take(i + 1).last() == *f);
            }
            if f.severity == Severity::Block {
                out.push(Finding { label: f.label, severity: f.severity, offset: f.offset });
            }
            i += 1;
        }
        proof {
            assert(all@.take(i as int) =~= all@);
        }
        out
    }
}

impl Default for Scanner {
    /// A scanner for the known attack shapes.
    fn default() -> (res: Self)
        ensures
            from_table(res@, default_table()),
    {
        Self::default_patterns()
    }
}

// ---------------------------------------------------------------------------------
// Laws
// ---------------------------------------------------------------------------------
/// Pattern `pi` has a non-empty needle and `s` ends with it.
pub open spec fn hit_ok(pats: Seq<Pattern>, s: Seq<u8>, pi: usize) -> bool {
    &&& pi < pats.len()
    &&& 0 < pats[pi as int].needle@.len() <= s.len()
    &&& s.skip(s.len() - pats[pi as int].needle@.len()) == pats[pi as int].needle@
}

proof fn lemma_own_sound(pats: Seq<Pattern>, s: Seq<u8>, k: nat)
    requires
        k <= pats.len() <= usize::MAX,
    ensures
        forall|j: int|
            0 <= j < own_hits(pats, s, k).len() ==> (#[trigger] own_hits(pats, s, k)[j]) < k
                && pats[own_hits(pats, s, k)[j] as int].needle@ == s,
    decreases k,
{
    if k > 0 {
        lemma_own_sound(pats, s, (k - 1) as nat);
    }
}

proof fn lemma_own_complete(pats: Seq<Pattern>, s: Seq<u8>, k: nat, pi: usize)
    requires
        pi < k <= pats.len() <= usize::MAX,
        pats[pi as int].needle@ == s,
    ensures
        own_hits(pats, s, k).contains(pi),
    decreases k,
{
    let before = own_hits(pats, s, (k - 1) as nat);
    if pi == k - 1 {
        assert(own_hits(pats, s, k) == before.push(pi));
        assert(own_hits(pats, s, k)[before.len() as int] == pi);
    } else {
        lemma_own_complete(pats, s, (k - 1) as nat, pi);
        let j = choose|j: int| 0 <= j < before.len() && before[j] == pi;
        assert(own_hits(pats, s, k)[j] == pi);
    }
}

proof fn lemma_hits_sound(pats: Seq<Pattern>, s: Seq<u8>)
    requires
        pats.len() <= usize::MAX,
    ensures
        forall|j: int|
            0 <= j < suffix_hits(pats, s).len() ==> hit_ok(
                pats,
                s,
                #[trigger] suffix_hits(pats, s)[j],
            ),
    decreases s.len(),
{
    if s.len() > 0 {
        let own = own_hits(pats, s, pats.len());
        lemma_own_sound(pats, s, pats.len());
        lemma_hits_sound(pats, s.drop_first());
        assert forall|j: int| 0 <= j < suffix_hits(pats, s).len() implies hit_ok(
            pats,
            s,
            #[trigger] suffix_hits(pats, s)[j],
        ) by {
            let pi = suffix_hits(pats, s)[j];
            if j < own.len() {
                assert(pi == own[j]);
                assert(s.skip(0) =~= s);
            } else {
                assert(pi == suffix_hits(pats, s.drop_first())[j - own.len()]);
                assert(hit_ok(pats, s.drop_first(), pi));
                let m = pats[pi as int].needle@.len();
                assert(s.skip(s.len() - m) =~= s.drop_first().skip(s.drop_first().len() - m));
            }
        }
    }
}

proof fn lemma_hits_complete(pats: Seq<Pattern>, s: Seq<u8>, pi: usize)
    requires
        pats.len() <= usize::MAX,
        hit_ok(pats, s, pi),
    ensures
        suffix_hits(pats, s).contains(pi),
    decreases s.len(),
{
    let own = own_hits(pats, s, pats.len());
    let rest = suffix_hits(pats, s.drop_first());
    let m = pats[pi as int].needle@.len();
    if m == s.len() {
        assert(s.skip(0) =~= s);
        lemma_own_complete(pats, s, pats.len(), pi);
        let j = choose|j: int| 0 <= j < own.len() && own[j] == pi;
        assert(suffix_hits(pats, s)[j] == pi);
    } else {
        assert(s.skip(s.len() - m) =~= s.drop_first().skip(s.drop_first().len() - m));
        lemma_hits_complete(pats, s.drop_first(), pi);
        let j = choose|j: int| 0 <= j < rest.len() && rest[j] == pi;
        assert(suffix_hits(pats, s)[own.len() + j] == pi);
    }
}

/// Findings in a part of the input come first among the findings in the whole.
pub proof fn law_left_to_right(pats: Seq<Pattern>, hay: Seq<u8>, a: int, b: int)
    requires
        0 <= a <= b <= hay.len(),
    ensures
        findings(pats, hay, a).is_prefix_of(findings(pats, hay, b)),
    decreases b - a,
{
    if a < b {
        law_left_to_right(pats, hay, a, b - 1);
    }
}

/// Every occurrence of a pattern with a non-empty needle is found.
pub proof fn law_scan_complete(pats: Seq<Pattern>, hay: Seq<u8>, pi: usize, offset: int)
    requires
        pats.len() <= usize::MAX,
        pi < pats.len(),
        pats[pi as int].needle@.len() > 0,
        0 <= offset,
        offset + pats[pi as int].needle@.len() <= hay.len(),
        hay.subrange(offset, offset + pats[pi as int].needle@.len()) == pats[pi as int].needle@,
    ensures
        findings(pats, hay, hay.len() as int).contains(
            finding(pats, pi, offset + pats[pi as int].needle@.len()),
        ),
{
    let end = offset + pats[pi as int].needle@.len();
    let s = hay.take(end);
    assert(s.skip(offset) =~= hay.subrange(offset, end));
    lemma_hits_complete(pats, s, pi);
    let hits = suffix_hits(pats, s);
    let j = choose|j: int| 0 <= j < hits.len() && hits[j] == pi;
    let before = findings(pats, hay, end - 1);
    assert(findings(pats, hay, end)[before.len() + j] == finding(pats, pi, end));
    law_left_to_right(pats, hay, end, hay.len() as int);
    assert(findings(pats, hay, hay.len() as int)[before.len() + j] == finding(pats, pi, end));
}

/// Every finding is an occurrence: at its offset the input holds the needle of a pattern
/// with that label and severity.
pub proof fn law_scan_sound(pats: Seq<Pattern>, hay: Seq<u8>, end: int, i: int) -> (pi: usize)
    requires
        pats.len() <= usize::MAX,
        0 <= end <= hay.len() <= usize::MAX,
        0 <= i < findings(pats, hay, end).len(),
    ensures
        pi < pats.len(),
        ({
            let f = findings(pats, hay, end)[i];
            let p = pats[pi as int];
            &&& f.label == p.label
            &&& f.severity == p.severity
            &&& p.needle@.len() > 0
            &&& f.offset + p.needle@.len() <= end
            &&& hay.subrange(f.offset as int, f.offset + p.needle@.len()) == p.needle@
        }),
    decreases end,
{
    let before = findings(pats, hay, end - 1);
    if i < before.len() {
        assert(findings(pats, hay, end)[i] == before[i]);
        law_scan_sound(pats, hay, end - 1, i)
    } else {
        let s = hay.take(end);
        let hits = suffix_hits(pats, s);
        lemma_hits_sound(pats, s);
        let pi = hits[i - before.len()];
        assert(hit_ok(pats, s, pi));
        let m = pats[pi as int].needle@.len();
        assert(findings(pats, hay, end)[i] == finding(pats, pi, end));
        assert(s.skip(end - m) =~= hay.subrange(end - m, end));
        pi
    }
}

/// The findings that block are all those whose severity says so, in their order.
pub proof fn law_blocking_is_by_severity(f: Seq<Finding>)
    ensures
        blocking_only(f) == f.filter(|x: Finding| x.severity == Severity::Block),
    decreases f.len(),
{
    reveal(Seq::filter);
    if f.len() > 0 {
        law_blocking_is_by_severity(f.drop_last());
    }
}

proof fn lemma_blocking_has(f: Seq<Finding>, i: int)
    requires
        0 <= i < f.len(),
        f[i].severity == Severity::Block,
    ensures
        blocking_only(f).len() > 0,
    decreases f.len(),
{
    if i < f.len() - 1 {
        lemma_blocking_has(f.drop_last(), i);
    }
}

/// Wherever a command hands text to a shell through a pipe, or evaluates what was fetched, the
/// usual patterns block it, whatever else it holds.
pub proof fn law_known_shapes_are_blocked(
    pats: Seq<Pattern>,
    needle: Seq<char>,
    hay: Seq<u8>,
    offset: int,
)
    requires
        from_table(pats, default_table()),
        needle == "| bash"@ || needle == "|bash"@ || needle == "| sh"@ || needle == "|sh "@ || needle
            == "| zsh"@ || needle == "| ksh"@ || needle == "| dash"@ || needle == "eval $(curl"@
            || needle == "eval \"$(curl"@ || needle == "eval $(wget"@ || needle == "eval \"$(wget"@
            || needle == "base64 -d | bash"@ || needle == "base64 -d | sh"@ || needle
            == "base64 --decode | bash"@,
        0 <= offset,
        offset + encode_utf8(needle).len() <= hay.len(),
        hay.subrange(offset, offset + encode_utf8(needle).len()) == encode_utf8(needle),
    ensures
        blocking_only(findings(pats, hay, hay.len() as int)).len() > 0,
{
    let t = default_table();
    let i: int = if needle == "| bash"@ {
        0
    } else if needle == "|bash"@ {
        1
    } else if needle == "| sh"@ {
        2
    } else if needle == "|sh "@ {
        3
    } else if needle == "| zsh"@ {
        4
    } else if needle == "| ksh"@ {
        5
    } else if needle == "| dash"@ {
        6
    } else if needle == "eval $(curl"@ {
        7
    } else if needle == "eval \"$(curl"@ {
        8
    } else if needle == "eval $(wget"@ {
        9
    } else if needle == "eval \"$(wget"@ {
        10
    } else if needle == "base64 -d | bash"@ {
        11
    } else if needle == "base64 -d | sh"@ {
        12
    } else {
        13
    };
    assert(t[i].0 == needle && t[i].1 == Severity::Block);
    assert(pats[i].needle@ == encode_utf8(needle));
    reveal_strlit("| bash");
    reveal_strlit("|bash");
    reveal_strlit("| sh");
    reveal_strlit("|sh ");
    reveal_strlit("| zsh");
    reveal_strlit("| ksh");
    reveal_strlit("| dash");
    reveal_strlit("eval $(curl");
    reveal_strlit("eval \"$(curl");
    reveal_strlit("eval $(wget");
    reveal_strlit("eval \"$(wget");
    reveal_strlit("base64 -d | bash");
    reveal_strlit("base64 -d | sh");
    reveal_strlit("base64 --decode | bash");
    assert(needle.len() > 0);
    assert(is_ascii_chars(needle));
    is_ascii_chars_encode_utf8(needle);
    law_scan_complete(pats, hay, i as usize, offset);
    let all = findings(pats, hay, hay.len() as int);
    let x = finding(pats, i as usize, offset + pats[i].needle@.len());
    let j = choose|j: int| 0 <= j < all.len() && all[j] == x;
    lemma_blocking_has(all, j);
}

} // verus!
