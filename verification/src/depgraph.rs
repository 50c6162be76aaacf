//! The resource dependency forest. Archive entries carry no names;
//! entries of the recognized container kinds are parsed, each child
//! name they reference is hashed back into the archive index, and the
//! recovered parent-child edges form a forest over the flat store. The
//! forest is printed depth first; a parsed entry that no traversal ever
//! reaches betrays a cycle, which is fatal for the whole scan.
use vstd::prelude::*;

use crate::bytes::{dec_rep, u64_to_string};
use crate::pak::{content_of, file_count_of, find_hit, PakReader};
use crate::user::{sniff, User};
use crate::Error;

verus! {

/// One node per archive entry, mutated as other entries are parsed.
#[derive(Debug)]
pub struct TreeNode {
    pub parsed: bool,
    pub children: Vec<usize>,
    pub name: Option<String>,
    pub has_parent: bool,
    pub visited: bool,
}

/// Every child edge points inside the arena.
pub open spec fn nodes_wf(nodes: Seq<TreeNode>) -> bool {
    forall|i: int, k: int|
        0 <= i < nodes.len() && 0 <= k < nodes[i].children@.len() ==> (
        #[trigger] nodes[i].children@[k]) < nodes.len()
}

/// How many nodes the traversal has not reached yet.
pub open spec fn unvisited_count(nodes: Seq<TreeNode>) -> nat
    decreases nodes.len(),
{
    if nodes.len() == 0 {
        0
    } else {
        unvisited_count(nodes.drop_last()) + (if nodes.last().visited {
            0nat
        } else {
            1nat
        })
    }
}

/// How many nodes have recovered a name.
pub open spec fn named_count(nodes: Seq<TreeNode>) -> nat
    decreases nodes.len(),
{
    if nodes.len() == 0 {
        0
    } else {
        named_count(nodes.drop_last()) + (if nodes.last().name is Some {
            1nat
        } else {
            0nat
        })
    }
}

/// All fields except the visited flag.
pub open spec fn shell_eq(a: &TreeNode, b: &TreeNode) -> bool {
    &&& a.parsed == b.parsed
    &&& a.children == b.children
    &&& a.name == b.name
    &&& a.has_parent == b.has_parent
}

pub open spec fn shells_eq(o: Seq<TreeNode>, f: Seq<TreeNode>) -> bool {
    &&& o.len() == f.len()
    &&& forall|i: int| 0 <= i < o.len() ==> shell_eq(&o[i], &#[trigger] f[i])
}

pub open spec fn visited_monotone(o: Seq<TreeNode>, f: Seq<TreeNode>) -> bool {
    forall|i: int| 0 <= i < o.len() && (#[trigger] o[i]).visited ==> f[i].visited
}

/// Every node the traversal freshly reached has all children reached.
pub open spec fn newly_closed(o: Seq<TreeNode>, f: Seq<TreeNode>) -> bool {
    forall|i: int|
        0 <= i < f.len() && (#[trigger] f[i]).visited && !o[i].visited ==> (forall|k: int|
            0 <= k < f[i].children@.len() ==> f[#[trigger] f[i].children@[k] as int].visited)
}

/// Entry `i` reads and parses as a recognized container: the bytes
/// alone decide it.
#[verifier::opaque]
pub open spec fn entry_parsed_spec(s: Seq<u8>, i: int) -> bool {
    &&& crate::pak::read_spec(s, i) is Some
    &&& crate::user::user_parseable(content_of(s, i))
}

/// Entry `i` fails the sweep: unreadable, or carrying a recognized
/// magic over a body that does not parse.
#[verifier::opaque]
pub open spec fn entry_skipped_spec(s: Seq<u8>, i: int) -> bool {
    ||| crate::pak::read_spec(s, i) is None
    ||| (crate::user::sniff_spec(content_of(s, i)) is Some && !crate::user::user_parseable(
        content_of(s, i),
    ))
}

/// The names entry `i` references, children first then resources.
#[verifier::opaque]
pub open spec fn entry_names(s: Seq<u8>, i: int) -> Seq<Seq<char>> {
    crate::user::user_names(content_of(s, i))
}

/// The archive indices the given names resolve to, in order, with the
/// misses dropped.
pub open spec fn resolved_of(s: Seq<u8>, names: Seq<Seq<char>>) -> Seq<usize>
    decreases names.len(),
{
    if names.len() == 0 {
        Seq::empty()
    } else {
        let rest = resolved_of(s, names.drop_last());
        match find_hit(s, names.last()) {
            Some(c) => rest.push(c as usize),
            None => rest,
        }
    }
}

/// The child edges entry `i` contributes to the forest.
pub open spec fn dep_children(s: Seq<u8>, i: int) -> Seq<usize> {
    if entry_parsed_spec(s, i) {
        resolved_of(s, entry_names(s, i))
    } else {
        Seq::empty()
    }
}

/// Among the first `upto` entries, some parsed one references a name
/// resolving to `c`.
pub open spec fn partial_parent(s: Seq<u8>, upto: int, c: int) -> bool {
    exists|j: int, k: int|
        0 <= j < upto && entry_parsed_spec(s, j) && 0 <= k < entry_names(s, j).len() && find_hit(
            s,
            entry_names(s, j)[k],
        ) == Some(c)
}

/// As `partial_parent`, with entry `jcur`'s first `kdone` names also
/// counted: the state in the middle of one entry's name pass.
pub open spec fn partial_parent_mid(s: Seq<u8>, upto: int, jcur: int, kdone: int, c: int) -> bool {
    ||| partial_parent(s, upto, c)
    ||| exists|k: int|
        0 <= k < kdone && k < entry_names(s, jcur).len() && find_hit(s, entry_names(s, jcur)[k])
            == Some(c)
}

/// Some parsed entry references a name resolving to `c`: entry `c` has
/// a parent and a recovered path.
pub open spec fn has_parent_spec(s: Seq<u8>, c: int) -> bool {
    partial_parent(s, file_count_of(s), c)
}

/// `nm` is a name some parsed entry references, and it resolves to `c`.
pub open spec fn is_recovered_name(s: Seq<u8>, c: int, nm: Seq<char>) -> bool {
    exists|j: int, k: int|
        0 <= j < file_count_of(s) && entry_parsed_spec(s, j) && 0 <= k < entry_names(s, j).len()
            && entry_names(s, j)[k] == nm && find_hit(s, nm) == Some(c)
}

/// `nm` is a referenced name no archive entry is stored under.
pub open spec fn is_missing_name(s: Seq<u8>, nm: Seq<char>) -> bool {
    exists|j: int, k: int|
        0 <= j < file_count_of(s) && entry_parsed_spec(s, j) && 0 <= k < entry_names(s, j).len()
            && entry_names(s, j)[k] == nm && find_hit(s, nm) is None
}

/// The whole dependency graph the bytes dictate.
pub open spec fn dep_graph(s: Seq<u8>) -> Seq<Seq<usize>> {
    Seq::new(file_count_of(s) as nat, |i: int| dep_children(s, i))
}

/// The node arena's child edges, as a bare graph.
pub open spec fn graph_of(nodes: Seq<TreeNode>) -> Seq<Seq<usize>> {
    Seq::new(nodes.len(), |i: int| nodes[i].children@)
}

/// `b` lies at most `steps` edges below `a`.
pub open spec fn greach(g: Seq<Seq<usize>>, a: int, b: int, steps: nat) -> bool
    decreases steps,
{
    if a == b {
        true
    } else if steps == 0 {
        false
    } else {
        0 <= a < g.len() && exists|k: int|
            0 <= k < g[a].len() && greach(g, g[a][k] as int, b, (steps - 1) as nat)
    }
}

pub open spec fn reach_from(g: Seq<Seq<usize>>, a: int, b: int) -> bool {
    exists|steps: nat| greach(g, a, b, steps)
}

/// Entry `b` sits in the forest: reachable from some parsed entry that
/// no other entry references.
pub open spec fn dep_rooted(s: Seq<u8>, b: int) -> bool {
    exists|r: int|
        0 <= r < file_count_of(s) && entry_parsed_spec(s, r) && !has_parent_spec(s, r)
            && reach_from(dep_graph(s), r, b)
}

/// The dependency structure is no forest: some parsed entry is
/// reachable from no root.
pub open spec fn dep_cycle(s: Seq<u8>) -> bool {
    exists|i: int| 0 <= i < file_count_of(s) && entry_parsed_spec(s, i) && !dep_rooted(s, i)
}

/// The node arena a scan of these bytes must build: parsed flags,
/// child edges, parent flags and recovered names all dictated by the
/// entries' contents.
pub open spec fn scan_nodes_ok(s: Seq<u8>, nodes: Seq<TreeNode>) -> bool {
    &&& nodes.len() == file_count_of(s)
    &&& forall|i: int|
        0 <= i < nodes.len() ==> ((#[trigger] nodes[i]).parsed <==> entry_parsed_spec(s, i))
    &&& forall|i: int|
        0 <= i < nodes.len() ==> (#[trigger] nodes[i]).children@ == dep_children(s, i)
    &&& forall|i: int|
        0 <= i < nodes.len() ==> ((#[trigger] nodes[i]).has_parent <==> has_parent_spec(s, i))
    &&& forall|i: int|
        0 <= i < nodes.len() ==> ((#[trigger] nodes[i]).name is Some <==> has_parent_spec(s, i))
    &&& forall|i: int|
        0 <= i < nodes.len() ==> match (#[trigger] nodes[i]).name {
            Some(nm) => is_recovered_name(s, i, nm@),
            None => true,
        }
}

/// The skipped list holds exactly the failing entries, in order.
pub open spec fn skipped_ok(s: Seq<u8>, sk: Seq<u32>) -> bool {
    &&& forall|k1: int, k2: int| 0 <= k1 < k2 < sk.len() ==> sk[k1] < sk[k2]
    &&& forall|k: int| 0 <= k < sk.len() ==> (#[trigger] sk[k]) < file_count_of(s)
    &&& forall|k: int| 0 <= k < sk.len() ==> entry_skipped_spec(s, (#[trigger] sk[k]) as int)
    &&& forall|i: int|
        0 <= i < file_count_of(s) && entry_skipped_spec(s, i) ==> exists|k: int|
            0 <= k < sk.len() && sk[k] == i
}

/// Every logged name is a genuinely unresolved reference, and every
/// unresolved reference is logged.
pub open spec fn missing_ok(s: Seq<u8>, ms: Seq<String>) -> bool {
    &&& forall|m: int| 0 <= m < ms.len() ==> is_missing_name(s, (#[trigger] ms[m])@)
    &&& forall|j: int, k: int|
        0 <= j < file_count_of(s) && entry_parsed_spec(s, j) && 0 <= k < entry_names(s, j).len()
            && find_hit(s, #[trigger] entry_names(s, j)[k]) is None ==> exists|m: int|
            0 <= m < ms.len() && ms[m]@ == entry_names(s, j)[k]
}

/// The traversal reached exactly the rooted entries.
pub open spec fn visited_ok(s: Seq<u8>, nodes: Seq<TreeNode>) -> bool {
    forall|i: int| 0 <= i < nodes.len() ==> ((#[trigger] nodes[i]).visited <==> dep_rooted(s, i))
}

/// Four spaces per tree level.
pub open spec fn indent(depth: nat) -> Seq<char>
    decreases depth,
{
    if depth == 0 {
        Seq::empty()
    } else {
        indent((depth - 1) as nat) + "    "@
    }
}

/// One printed tree line: the indent, a dash, then the node's
/// recovered name or its decimal index.
pub open spec fn name_line(name: Option<String>, idx: int, depth: nat) -> Seq<char> {
    indent(depth) + "- "@ + (match name {
        Some(nm) => nm@,
        None => dec_rep(idx as nat),
    })
}

pub open spec fn names_of(nodes: Seq<TreeNode>) -> Seq<Option<String>> {
    Seq::new(nodes.len(), |i: int| nodes[i].name)
}

/// The line is some node's line at some depth, in the fixed format.
pub open spec fn line_formed(names: Seq<Option<String>>, l: String) -> bool {
    exists|j: int, d: nat| 0 <= j < names.len() && l@ == name_line(names[j], j, d)
}

/// An entry that did not parse contributes no parent edges.
#[verifier::spinoff_prover]
#[verifier::rlimit(60)]
proof fn lemma_partial_parent_skip(s: Seq<u8>, idx: int)
    requires
        0 <= idx,
        !entry_parsed_spec(s, idx),
    ensures
        forall|c: int| #[trigger] partial_parent(s, idx + 1, c) <==> partial_parent(s, idx, c),
{
    assert forall|c: int| #[trigger] partial_parent(s, idx + 1, c) implies partial_parent(
        s,
        idx,
        c,
    ) by {
        let (j, k) = choose|j: int, k: int|
            0 <= j < idx + 1 && entry_parsed_spec(s, j) && 0 <= k < entry_names(s, j).len()
                && find_hit(s, entry_names(s, j)[k]) == Some(c);
        assert(j != idx);
    }
}

/// Finishing one parsed entry's name pass closes its contribution.
#[verifier::spinoff_prover]
#[verifier::rlimit(100)]
proof fn lemma_partial_parent_close(s: Seq<u8>, idx: int)
    requires
        0 <= idx,
        entry_parsed_spec(s, idx),
    ensures
        forall|c: int| #[trigger] partial_parent(s, idx + 1, c) <==> partial_parent_mid(
            s,
            idx,
            idx,
            entry_names(s, idx).len() as int,
            c,
        ),
{
    assert forall|c: int|
        #[trigger] partial_parent(s, idx + 1, c) implies partial_parent_mid(
        s,
        idx,
        idx,
        entry_names(s, idx).len() as int,
        c,
    ) by {
        let (j, k) = choose|j: int, k: int|
            0 <= j < idx + 1 && entry_parsed_spec(s, j) && 0 <= k < entry_names(s, j).len()
                && find_hit(s, entry_names(s, j)[k]) == Some(c);
        if j == idx {
            assert(0 <= k < entry_names(s, idx).len() && find_hit(s, entry_names(s, idx)[k])
                == Some(c));
        } else {
            assert(partial_parent(s, idx, c));
        }
    }
    assert forall|c: int|
        partial_parent_mid(s, idx, idx, entry_names(s, idx).len() as int, c) implies #[trigger] partial_parent(
        s,
        idx + 1,
        c,
    ) by {
        if partial_parent(s, idx, c) {
            let (j, k) = choose|j: int, k: int|
                0 <= j < idx && entry_parsed_spec(s, j) && 0 <= k < entry_names(s, j).len()
                    && find_hit(s, entry_names(s, j)[k]) == Some(c);
            assert(0 <= j < idx + 1 && entry_parsed_spec(s, j) && 0 <= k < entry_names(
                s,
                j,
            ).len() && find_hit(s, entry_names(s, j)[k]) == Some(c));
        } else {
            let k = choose|k: int|
                0 <= k < entry_names(s, idx).len() && find_hit(s, entry_names(s, idx)[k]) == Some(
                    c,
                );
            assert(0 <= idx < idx + 1 && entry_parsed_spec(s, idx) && 0 <= k < entry_names(
                s,
                idx,
            ).len() && find_hit(s, entry_names(s, idx)[k]) == Some(c));
        }
    }
}

/// No more entries stay unreached than there are entries.
proof fn lemma_unvisited_le_len(nodes: Seq<TreeNode>)
    ensures
        unvisited_count(nodes) <= nodes.len(),
    decreases nodes.len(),
{
    if nodes.len() > 0 {
        lemma_unvisited_le_len(nodes.drop_last());
    }
}

/// Walking edges from a reached node only meets reached nodes, when
/// every reached node's children are reached.
proof fn lemma_greach_visited(nodes: Seq<TreeNode>, a: int, b: int, steps: nat)
    requires
        nodes_wf(nodes),
        0 <= a < nodes.len(),
        nodes[a].visited,
        forall|x: int, k: int|
            0 <= x < nodes.len() && (#[trigger] nodes[x]).visited && 0 <= k
                < nodes[x].children@.len() ==> nodes[#[trigger] nodes[x].children@[k] as int].visited,
        greach(graph_of(nodes), a, b, steps),
    ensures
        0 <= b < nodes.len() && nodes[b].visited,
    decreases steps,
{
    if a != b {
        let g = graph_of(nodes);
        let k = choose|k: int|
            0 <= k < g[a].len() && greach(g, g[a][k] as int, b, (steps - 1) as nat);
        assert(g[a] == nodes[a].children@);
        assert(nodes[nodes[a].children@[k] as int].visited);
        lemma_greach_visited(nodes, nodes[a].children@[k] as int, b, (steps - 1) as nat);
    }
}

proof fn lemma_unvisited_mark(o: Seq<TreeNode>, f: Seq<TreeNode>, i: int)
    requires
        0 <= i < o.len(),
        f == o.update(i, f[i]),
        !o[i].visited,
        f[i].visited,
    ensures
        unvisited_count(f) + 1 == unvisited_count(o),
    decreases o.len(),
{
    if o.len() == 0 {
    } else if i == o.len() - 1 {
        assert(f.drop_last() =~= o.drop_last());
    } else {
        assert(f.drop_last() =~= o.drop_last().update(i, f[i]));
        assert(f.last() == o.last());
        lemma_unvisited_mark(o.drop_last(), f.drop_last(), i);
    }
}

proof fn lemma_unvisited_monotone(o: Seq<TreeNode>, f: Seq<TreeNode>)
    requires
        o.len() == f.len(),
        visited_monotone(o, f),
    ensures
        unvisited_count(f) <= unvisited_count(o),
    decreases o.len(),
{
    if o.len() > 0 {
        assert(forall|i: int|
            0 <= i < o.len() - 1 && (#[trigger] o.drop_last()[i]).visited ==> f.drop_last()[
                i].visited);
        lemma_unvisited_monotone(o.drop_last(), f.drop_last());
        assert(o.last() == o[o.len() - 1]);
    }
}

/// Prints one forest depth first: four spaces per level, a dash, then
/// the node's recovered name or its decimal index, then its children.
/// A node already reached is not printed again, which also bounds the
/// walk; everything freshly reached lies below `current`.
#[verifier::spinoff_prover]
#[verifier::rlimit(100)]
pub fn visit_tree(nodes: &mut Vec<TreeNode>, lines: &mut Vec<String>, current: usize, depth: u64)
    requires
        current < old(nodes)@.len(),
        nodes_wf(old(nodes)@),
        depth + unvisited_count(old(nodes)@) <= 0xFFFF_FFFF,
    ensures
        final(nodes)@.len() == old(nodes)@.len(),
        nodes_wf(final(nodes)@),
        shells_eq(old(nodes)@, final(nodes)@),
        visited_monotone(old(nodes)@, final(nodes)@),
        final(nodes)@[current as int].visited,
        newly_closed(old(nodes)@, final(nodes)@),
        final(lines)@.len() + unvisited_count(final(nodes)@) == old(lines)@.len()
            + unvisited_count(old(nodes)@),
        unvisited_count(final(nodes)@) <= unvisited_count(old(nodes)@),
        forall|k: int|
            0 <= k < old(lines)@.len() ==> old(lines)@[k] == #[trigger] final(lines)@[k],
        forall|j: int|
            0 <= j < final(nodes)@.len() && (#[trigger] final(nodes)@[j]).visited && !old(
                nodes,
            )@[j].visited ==> reach_from(graph_of(old(nodes)@), current as int, j),
        forall|k: int|
            old(lines)@.len() <= k < final(lines)@.len() ==> line_formed(
                names_of(old(nodes)@),
                #[trigger] final(lines)@[k],
            ),
        !old(nodes)@[current as int].visited ==> final(lines)@.len() > old(lines)@.len()
            && final(lines)@[old(lines)@.len() as int]@ == name_line(
            old(nodes)@[current as int].name,
            current as int,
            depth as nat,
        ),
    decreases unvisited_count(nodes@),
{
    if nodes[current].visited {
        return ;
    }
    let mut line = String::new();
    let mut dd: u64 = 0;
    while dd < depth
        invariant
            dd <= depth,
            line@ == indent(dd as nat),
        decreases depth - dd,
    {
        line.append("    ");
        dd = dd + 1;
    }
    line.append("- ");
    match &nodes[current].name {
        Some(n) => {
            let nm = n.clone();
            line.append(nm.as_str());
        },
        None => {
            let ds = u64_to_string(current as u64);
            line.append(ds.as_str());
        },
    }
    assert(line@ == name_line(nodes@[current as int].name, current as int, depth as nat));
    let ghost first_line = line@;
    lines.push(line);
    let ghost pre = nodes@;
    let ghost g0 = graph_of(old(nodes)@);
    let mut node = nodes.remove(current);
    node.visited = true;
    nodes.insert(current, node);
    proof {
        assert(nodes@ =~= pre.update(current as int, nodes@[current as int]));
        lemma_unvisited_mark(pre, nodes@, current as int);
        assert(greach(g0, current as int, current as int, 0));
        assert(reach_from(g0, current as int, current as int));
        assert(names_of(old(nodes)@)[current as int] == old(nodes)@[current as int].name);
        assert(lines@.last()@ == name_line(
            names_of(old(nodes)@)[current as int],
            current as int,
            depth as nat,
        ));
        assert(line_formed(names_of(old(nodes)@), lines@.last()));
    }
    let nchildren = nodes[current].children.len();
    let mut k: usize = 0;
    while k < nchildren
        invariant
            k <= nchildren,
            nodes@.len() == old(nodes)@.len(),
            current < nodes@.len(),
            nchildren == nodes@[current as int].children@.len(),
            nodes_wf(nodes@),
            shells_eq(old(nodes)@, nodes@),
            visited_monotone(old(nodes)@, nodes@),
            nodes@[current as int].visited,
            unvisited_count(nodes@) < unvisited_count(old(nodes)@),
            lines@.len() + unvisited_count(nodes@) == old(lines)@.len() + unvisited_count(
                old(nodes)@,
            ),
            forall|j: int| 0 <= j < old(lines)@.len() ==> old(lines)@[j] == #[trigger] lines@[j],
            lines@.len() > old(lines)@.len(),
            lines@[old(lines)@.len() as int]@ == name_line(
                old(nodes)@[current as int].name,
                current as int,
                depth as nat,
            ),
            forall|c: int|
                0 <= c < k ==> nodes@[#[trigger] nodes@[current as int].children@[c] as int].visited,
            forall|i: int|
                0 <= i < nodes@.len() && (#[trigger] nodes@[i]).visited && !old(nodes)@[i].visited
                    && i != current ==> (forall|c: int|
                    0 <= c < nodes@[i].children@.len() ==> nodes@[#[trigger] nodes@[
                        i].children@[c] as int].visited),
            g0 == graph_of(old(nodes)@),
            forall|j: int|
                0 <= j < nodes@.len() && (#[trigger] nodes@[j]).visited && !old(
                    nodes,
                )@[j].visited ==> reach_from(g0, current as int, j),
            forall|m: int|
                old(lines)@.len() <= m < lines@.len() ==> line_formed(
                    names_of(old(nodes)@),
                    #[trigger] lines@[m],
                ),
        decreases nchildren - k,
    {
        let child = nodes[current].children[k];
        let ghost before = nodes@;
        let ghost lines_before = lines@;
        visit_tree(nodes, lines, child, depth + 1);
        proof {
            lemma_unvisited_monotone(before, nodes@);
            assert(graph_of(before) =~= g0);
            assert(names_of(before) =~= names_of(old(nodes)@));
            assert(old(nodes)@[current as int].children@[k as int] == child);
            assert(g0[current as int][k as int] == child);
            assert forall|j: int|
                0 <= j < nodes@.len() && (#[trigger] nodes@[j]).visited && !old(
                    nodes,
                )@[j].visited implies reach_from(g0, current as int, j) by {
                if before[j].visited {
                } else {
                    assert(reach_from(g0, child as int, j));
                    let steps = choose|steps: nat| greach(g0, child as int, j, steps);
                    if current as int != j {
                        assert(greach(g0, g0[current as int][k as int] as int, j, steps));
                        assert(greach(g0, current as int, j, (steps + 1) as nat));
                    }
                    assert(reach_from(g0, current as int, j));
                }
            }
        }
        k = k + 1;
    }
}

/// The forest is complete exactly when every parsed entry was reached;
/// a parsed entry the traversal missed is on a cycle.
pub fn check_cycles(nodes: &Vec<TreeNode>) -> (r: Result<(), Error>)
    ensures
        match r {
            Ok(()) => forall|i: int|
                0 <= i < nodes@.len() && (#[trigger] nodes@[i]).parsed ==> nodes@[i].visited,
            Err(e) => e == Error::CycleDetected && exists|i: int|
                0 <= i < nodes@.len() && (#[trigger] nodes@[i]).parsed && !nodes@[i].visited,
        },
{
    let n = nodes.len();
    let mut i: usize = 0;
    while i < n
        invariant
            i <= n == nodes@.len(),
            forall|j: int| 0 <= j < i && (#[trigger] nodes@[j]).parsed ==> nodes@[j].visited,
        decreases n - i,
    {
        if nodes[i].parsed && !nodes[i].visited {
            return Err(Error::CycleDetected);
        }
        i = i + 1;
    }
    Ok(())
}

/// Counts the nodes whose path was recovered; with the total this is
/// the named-file ratio, computed only after the scan has finished.
pub fn count_named(nodes: &Vec<TreeNode>) -> (r: usize)
    ensures
        r == named_count(nodes@),
{
    let n = nodes.len();
    let mut count: usize = 0;
    let mut i: usize = 0;
    while i < n
        invariant
            i <= n == nodes@.len(),
            count == named_count(nodes@.take(i as int)),
            count <= i,
        decreases n - i,
    {
        proof {
            assert(nodes@.take(i + 1).drop_last() =~= nodes@.take(i as int));
            assert(nodes@.take(i + 1).last() == nodes@[i as int]);
        }
        if nodes[i].name.is_some() {
            count = count + 1;
        }
        i = i + 1;
    }
    proof {
        assert(nodes@.take(n as int) =~= nodes@);
    }
    count
}


/// Resolves one referenced name: on a hit the child node learns its
/// path and parent, and the parent records the edge; a miss only logs
/// the name and touches no node.
fn link_child(
    pak: &PakReader,
    nodes: &mut Vec<TreeNode>,
    missing: &mut Vec<String>,
    index: usize,
    child: &String,
)
    requires
        pak.wf(),
        index < old(nodes)@.len(),
        old(nodes)@.len() == file_count_of(pak@),
        nodes_wf(old(nodes)@),
    ensures
        final(nodes)@.len() == old(nodes)@.len(),
        nodes_wf(final(nodes)@),
        match find_hit(pak@, child@) {
            Some(c) => {
                &&& 0 <= c < old(nodes)@.len()
                &&& forall|j: int|
                    0 <= j < old(nodes)@.len() && j != c && j != index ==> final(nodes)@[j] == #[trigger] old(nodes)@[j]
                &&& final(nodes)@[c].name matches Some(nm) && nm@ == child@
                &&& final(nodes)@[c].has_parent
                &&& final(nodes)@[c].parsed == old(nodes)@[c].parsed
                &&& final(nodes)@[c].visited == old(nodes)@[c].visited
                &&& (c != index ==> final(nodes)@[c].children == old(nodes)@[c].children)
                &&& final(nodes)@[index as int].children@ == old(nodes)@[index as int].children@.push(c as usize)
                &&& (index as int != c ==> final(nodes)@[index as int].name == old(nodes)@[index as int].name
                    && final(nodes)@[index as int].has_parent == old(nodes)@[index as int].has_parent)
                &&& final(nodes)@[index as int].parsed == old(nodes)@[index as int].parsed
                &&& final(nodes)@[index as int].visited == old(nodes)@[index as int].visited
                &&& final(missing)@ == old(missing)@
            },
            None => {
                &&& final(nodes)@ == old(nodes)@
                &&& final(missing)@.len() == old(missing)@.len() + 1
                &&& final(missing)@.last()@ == child@
                &&& forall|m: int|
                    0 <= m < old(missing)@.len() ==> final(missing)@[m] == #[trigger] old(missing)@[m]
            },
        },
{
    match pak.find_file(child.as_str()) {
        Ok((cindex, _)) => {
            let cu = cindex as usize;
            let ghost pre1 = nodes@;
            let mut cnode = nodes.remove(cu);
            cnode.name = Some(child.clone());
            cnode.has_parent = true;
            nodes.insert(cu, cnode);
            proof {
                assert(nodes@ =~= pre1.update(cu as int, nodes@[cu as int]));
            }
            let ghost pre2 = nodes@;
            let mut pnode = nodes.remove(index);
            pnode.children.push(cu);
            nodes.insert(index, pnode);
            proof {
                assert(nodes@ =~= pre2.update(index as int, nodes@[index as int]));
            }
        },
        Err(_) => {
            missing.push(child.clone());
            proof {
                assert(final(missing)@.last()@ == child@);
            }
        },
    }
}

/// Everything one scan produces: the node arena, the printed forest,
/// and the named-file tally over the total entry count.
pub struct ScanReport {
    pub nodes: Vec<TreeNode>,
    pub lines: Vec<String>,
    pub named: usize,
    pub total: usize,
    pub skipped: Vec<u32>,
    pub missing: Vec<String>,
}

/// Scans the whole archive: reads every entry, parses the recognized
/// container kinds, resolves each referenced child name back into the
/// archive, prints the resulting forest and tallies recovered names.
/// Per-entry failures are recorded in `skipped` and the sweep goes on;
/// names that resolve nowhere land in `missing`. The one fatal outcome
/// is a cycle.


/// Resolves one run of a parsed entry's referenced names, `list`,
/// sitting at `offset` inside the entry's full name sequence: edges,
/// recovered names and the miss log advance exactly one name at a
/// time.
#[verifier::spinoff_prover]
#[verifier::rlimit(100)]
fn scan_link_run(
    pak: &PakReader,
    nodes: &mut Vec<TreeNode>,
    missing: &mut Vec<String>,
    index: u32,
    list: &Vec<String>,
    names: Ghost<Seq<Seq<char>>>,
    offset: Ghost<int>,
)
    requires
        pak.wf(),
        (index as int) < file_count_of(pak@),
        old(nodes)@.len() == file_count_of(pak@),
        nodes_wf(old(nodes)@),
        names@ == entry_names(pak@, index as int),
        entry_parsed_spec(pak@, index as int),
        0 <= offset@,
        offset@ + list@.len() <= names@.len(),
        forall|k: int| 0 <= k < list@.len() ==> names@[offset@ + k] == (#[trigger] list@[k])@,
        forall|j: int| 0 <= j < old(nodes)@.len() ==> !(#[trigger] old(nodes)@[j]).visited,
        forall|j: int|
            0 <= j < old(nodes)@.len() ==> ((#[trigger] old(nodes)@[j]).parsed <==> (j < index + 1
                && entry_parsed_spec(pak@, j))),
        forall|j: int|
            index < j < old(nodes)@.len() ==> (#[trigger] old(nodes)@[j]).children@.len() == 0,
        forall|j: int|
            0 <= j < index ==> (#[trigger] old(nodes)@[j]).children@ == dep_children(pak@, j),
        old(nodes)@[index as int].children@ == resolved_of(pak@, names@.take(offset@)),
        forall|j: int|
            0 <= j < old(nodes)@.len() ==> ((#[trigger] old(nodes)@[j]).has_parent
                <==> partial_parent_mid(pak@, index as int, index as int, offset@, j)),
        forall|j: int|
            0 <= j < old(nodes)@.len() ==> ((#[trigger] old(nodes)@[j]).name is Some <==> old(
                nodes,
            )@[j].has_parent),
        forall|j: int|
            0 <= j < old(nodes)@.len() ==> match (#[trigger] old(nodes)@[j]).name {
                Some(nm) => is_recovered_name(pak@, j, nm@),
                None => true,
            },
        forall|m: int|
            0 <= m < old(missing)@.len() ==> is_missing_name(pak@, (#[trigger] old(missing)@[m])@),
        forall|j: int, k: int|
            0 <= j < index && entry_parsed_spec(pak@, j) && 0 <= k < entry_names(pak@, j).len()
                && find_hit(pak@, #[trigger] entry_names(pak@, j)[k]) is None ==> exists|m: int|
                0 <= m < old(missing)@.len() && old(missing)@[m]@ == entry_names(pak@, j)[k],
        forall|k: int|
            0 <= k < offset@ && find_hit(pak@, #[trigger] names@[k]) is None ==> exists|m: int|
                0 <= m < old(missing)@.len() && old(missing)@[m]@ == names@[k],
    ensures
        final(nodes)@.len() == old(nodes)@.len(),
        nodes_wf(final(nodes)@),
        forall|j: int| 0 <= j < final(nodes)@.len() ==> !(#[trigger] final(nodes)@[j]).visited,
        forall|j: int|
            0 <= j < final(nodes)@.len() ==> ((#[trigger] final(nodes)@[j]).parsed <==> (j < index
                + 1 && entry_parsed_spec(pak@, j))),
        forall|j: int|
            index < j < final(nodes)@.len() ==> (#[trigger] final(nodes)@[j]).children@.len() == 0,
        forall|j: int|
            0 <= j < index ==> (#[trigger] final(nodes)@[j]).children@ == dep_children(pak@, j),
        final(nodes)@[index as int].children@ == resolved_of(
            pak@,
            names@.take(offset@ + list@.len()),
        ),
        forall|j: int|
            0 <= j < final(nodes)@.len() ==> ((#[trigger] final(nodes)@[j]).has_parent
                <==> partial_parent_mid(
                pak@,
                index as int,
                index as int,
                offset@ + list@.len(),
                j,
            )),
        forall|j: int|
            0 <= j < final(nodes)@.len() ==> ((#[trigger] final(nodes)@[j]).name is Some
                <==> final(nodes)@[j].has_parent),
        forall|j: int|
            0 <= j < final(nodes)@.len() ==> match (#[trigger] final(nodes)@[j]).name {
                Some(nm) => is_recovered_name(pak@, j, nm@),
                None => true,
            },
        forall|m: int|
            0 <= m < final(missing)@.len() ==> is_missing_name(
                pak@,
                (#[trigger] final(missing)@[m])@,
            ),
        forall|j: int, k: int|
            0 <= j < index && entry_parsed_spec(pak@, j) && 0 <= k < entry_names(pak@, j).len()
                && find_hit(pak@, #[trigger] entry_names(pak@, j)[k]) is None ==> exists|m: int|
                0 <= m < final(missing)@.len() && final(missing)@[m]@ == entry_names(pak@, j)[k],
        forall|k: int|
            0 <= k < offset@ + list@.len() && find_hit(pak@, #[trigger] names@[k]) is None
                ==> exists|m: int|
                0 <= m < final(missing)@.len() && final(missing)@[m]@ == names@[k],
{
    let ghost s = pak@;
    let ghost off = offset@;
    let iu = index as usize;
    let n = list.len();
    let mut li: usize = 0;
    while li < n
        invariant
            pak.wf(),
            s == pak@,
            (index as int) < file_count_of(s),
            iu == index as usize,
            n == list@.len(),
            li <= n,
            names@ == entry_names(s, index as int),
            entry_parsed_spec(s, index as int),
            0 <= off,
            off == offset@,
            off + n <= names@.len(),
            forall|k: int| 0 <= k < n ==> names@[off + k] == (#[trigger] list@[k])@,
            nodes@.len() == file_count_of(s),
            nodes_wf(nodes@),
            forall|j: int| 0 <= j < nodes@.len() ==> !(#[trigger] nodes@[j]).visited,
            forall|j: int|
                0 <= j < nodes@.len() ==> ((#[trigger] nodes@[j]).parsed <==> (j < index + 1
                    && entry_parsed_spec(s, j))),
            forall|j: int|
                index < j < nodes@.len() ==> (#[trigger] nodes@[j]).children@.len() == 0,
            forall|j: int|
                0 <= j < index ==> (#[trigger] nodes@[j]).children@ == dep_children(s, j),
            nodes@[index as int].children@ == resolved_of(s, names@.take(off + li)),
            forall|j: int|
                0 <= j < nodes@.len() ==> ((#[trigger] nodes@[j]).has_parent
                    <==> partial_parent_mid(s, index as int, index as int, off + li, j)),
            forall|j: int|
                0 <= j < nodes@.len() ==> ((#[trigger] nodes@[j]).name is Some <==> nodes@[
                    j].has_parent),
            forall|j: int|
                0 <= j < nodes@.len() ==> match (#[trigger] nodes@[j]).name {
                    Some(nm) => is_recovered_name(s, j, nm@),
                    None => true,
                },
            forall|m: int|
                0 <= m < missing@.len() ==> is_missing_name(s, (#[trigger] missing@[m])@),
            forall|j: int, k: int|
                0 <= j < index && entry_parsed_spec(s, j) && 0 <= k < entry_names(s, j).len()
                    && find_hit(s, #[trigger] entry_names(s, j)[k]) is None ==> exists|m: int|
                    0 <= m < missing@.len() && missing@[m]@ == entry_names(s, j)[k],
            forall|k: int|
                0 <= k < off + li && find_hit(s, #[trigger] names@[k]) is None ==> exists|m: int|
                    0 <= m < missing@.len() && missing@[m]@ == names@[k],
        decreases n - li,
    {
        let ghost pre_missing = missing@;
        let ghost pre_nodes = nodes@;
        let ghost kdone = off + li;
        link_child(pak, nodes, missing, iu, &list[li]);
        proof {
            let nm = names@[kdone];
            assert((list@[li as int])@ == nm);
            assert(names@.take(kdone + 1).drop_last() =~= names@.take(kdone));
            assert(names@.take(kdone + 1).last() == nm);
            match find_hit(s, nm) {
                Some(c) => {
                    assert(missing@ == pre_missing);
                    assert forall|j: int|
                        0 <= j < nodes@.len() implies !(#[trigger] nodes@[j]).visited by {
                        if j != c && j != index as int {
                            assert(nodes@[j] == pre_nodes[j]);
                        }
                    }
                    assert forall|j: int|
                        0 <= j < nodes@.len() implies ((#[trigger] nodes@[j]).parsed <==> (j
                        < index + 1 && entry_parsed_spec(s, j))) by {
                        if j != c && j != index as int {
                            assert(nodes@[j] == pre_nodes[j]);
                        }
                    }
                    assert forall|j: int|
                        index < j < nodes@.len() implies (
                    #[trigger] nodes@[j]).children@.len() == 0 by {
                        if j != c {
                            assert(nodes@[j] == pre_nodes[j]);
                        } else {
                            assert(nodes@[c].children == pre_nodes[c].children);
                        }
                    }
                    assert forall|j: int|
                        0 <= j < index implies (#[trigger] nodes@[j]).children@ == dep_children(
                        s,
                        j,
                    ) by {
                        if j != c {
                            assert(nodes@[j] == pre_nodes[j]);
                        } else {
                            assert(nodes@[c].children == pre_nodes[c].children);
                        }
                    }
                    assert(nodes@[index as int].children@ == resolved_of(
                        s,
                        names@.take(kdone + 1),
                    ));
                    assert forall|j: int|
                        0 <= j < nodes@.len() implies ((#[trigger] nodes@[j]).has_parent
                        <==> partial_parent_mid(s, index as int, index as int, kdone + 1, j)) by {
                        if j == c {
                            assert(nodes@[c].has_parent);
                            assert(0 <= kdone < kdone + 1 && kdone < entry_names(
                                s,
                                index as int,
                            ).len() && find_hit(s, entry_names(s, index as int)[kdone]) == Some(
                                c,
                            ));
                        } else {
                            assert(nodes@[j].has_parent == pre_nodes[j].has_parent);
                            if partial_parent_mid(s, index as int, index as int, kdone + 1, j) {
                                if !partial_parent(s, index as int, j) {
                                    let k2 = choose|k2: int|
                                        0 <= k2 < kdone + 1 && k2 < entry_names(
                                            s,
                                            index as int,
                                        ).len() && find_hit(
                                            s,
                                            entry_names(s, index as int)[k2],
                                        ) == Some(j);
                                    assert(k2 != kdone);
                                    assert(partial_parent_mid(
                                        s,
                                        index as int,
                                        index as int,
                                        kdone,
                                        j,
                                    ));
                                }
                            }
                        }
                    }
                    assert forall|j: int|
                        0 <= j < nodes@.len() implies ((#[trigger] nodes@[j]).name is Some
                        <==> nodes@[j].has_parent) by {
                        if j != c && j != index as int {
                            assert(nodes@[j] == pre_nodes[j]);
                        }
                    }
                    assert forall|j: int|
                        0 <= j < nodes@.len() implies match (#[trigger] nodes@[j]).name {
                        Some(nm2) => is_recovered_name(s, j, nm2@),
                        None => true,
                    } by {
                        if j == c {
                            assert(nodes@[c].name matches Some(nn) && nn@ == nm);
                            assert(0 <= index < file_count_of(s) && entry_parsed_spec(
                                s,
                                index as int,
                            ) && 0 <= kdone < entry_names(s, index as int).len() && entry_names(
                                s,
                                index as int,
                            )[kdone] == nm && find_hit(s, nm) == Some(c));
                            assert(is_recovered_name(s, c, nm));
                        } else {
                            assert(nodes@[j].name == pre_nodes[j].name);
                        }
                    }
                },
                None => {
                    assert(nodes@ == pre_nodes);
                    assert(nodes@[index as int].children@ == resolved_of(
                        s,
                        names@.take(kdone + 1),
                    ));
                    assert forall|j: int|
                        0 <= j < nodes@.len() implies ((#[trigger] nodes@[j]).has_parent
                        <==> partial_parent_mid(s, index as int, index as int, kdone + 1, j)) by {
                        if partial_parent_mid(s, index as int, index as int, kdone + 1, j) {
                            if !partial_parent(s, index as int, j) {
                                let k2 = choose|k2: int|
                                    0 <= k2 < kdone + 1 && k2 < entry_names(
                                        s,
                                        index as int,
                                    ).len() && find_hit(s, entry_names(s, index as int)[k2])
                                        == Some(j);
                                assert(k2 != kdone);
                                assert(partial_parent_mid(s, index as int, index as int, kdone, j));
                            }
                        }
                    }
                    assert(forall|m: int|
                        0 <= m < pre_missing.len() ==> missing@[m] == #[trigger] pre_missing[m]);
                    assert(missing@.last()@ == nm);
                    assert(0 <= index < file_count_of(s) && entry_parsed_spec(s, index as int)
                        && 0 <= kdone < entry_names(s, index as int).len() && entry_names(
                        s,
                        index as int,
                    )[kdone] == nm && find_hit(s, nm) is None);
                    assert(is_missing_name(s, nm));
                    assert forall|m: int|
                        0 <= m < missing@.len() implies is_missing_name(
                        s,
                        (#[trigger] missing@[m])@,
                    ) by {
                        if m < pre_missing.len() {
                            assert(missing@[m] == pre_missing[m]);
                        } else {
                            assert(missing@[m]@ == nm);
                        }
                    }
                    assert forall|k: int|
                        0 <= k < kdone + 1 && find_hit(s, #[trigger] names@[k]) is None implies exists|
                        m: int,
                    |
                        0 <= m < missing@.len() && missing@[m]@ == names@[k] by {
                        if k == kdone {
                            assert(missing@[missing@.len() - 1]@ == names@[k]);
                        } else {
                            let m0 = choose|m0: int|
                                0 <= m0 < pre_missing.len() && pre_missing[m0]@ == names@[k];
                            assert(missing@[m0]@ == names@[k]);
                        }
                    }
                },
            }
        }
        li = li + 1;
    }
}

/// Before any of an entry's names are processed, its mid-pass parent
/// relation is just the previous entries' relation.
#[verifier::spinoff_prover]
proof fn lemma_mid_zero(s: Seq<u8>, idx: int)
    ensures
        forall|c: int| #[trigger] partial_parent_mid(s, idx, idx, 0, c) <==> partial_parent(
            s,
            idx,
            c,
        ),
{
    assert forall|c: int|
        #[trigger] partial_parent_mid(s, idx, idx, 0, c) implies partial_parent(s, idx, c) by {
        if !partial_parent(s, idx, c) {
            let k = choose|k: int|
                0 <= k < 0 && k < entry_names(s, idx).len() && find_hit(s, entry_names(s, idx)[k])
                    == Some(c);
            assert(false);
        }
    }
}

/// Closing one entry: with every name processed, the mid-pass parent
/// relation becomes the next prefix relation, and the entry's
/// unresolved names are all logged.
#[verifier::spinoff_prover]
#[verifier::rlimit(100)]
proof fn lemma_entry_close(
    s: Seq<u8>,
    names: Seq<Seq<char>>,
    idx: int,
    nodes: Seq<TreeNode>,
    missing: Seq<String>,
)
    requires
        0 <= idx,
        names == entry_names(s, idx),
        entry_parsed_spec(s, idx),
        forall|j: int|
            0 <= j < nodes.len() ==> ((#[trigger] nodes[j]).has_parent <==> partial_parent_mid(
                s,
                idx,
                idx,
                names.len() as int,
                j,
            )),
        forall|k: int|
            0 <= k < names.len() && find_hit(s, #[trigger] names[k]) is None ==> exists|m: int|
                0 <= m < missing.len() && missing[m]@ == names[k],
        forall|j: int, k: int|
            0 <= j < idx && entry_parsed_spec(s, j) && 0 <= k < entry_names(s, j).len()
                && find_hit(s, #[trigger] entry_names(s, j)[k]) is None ==> exists|m: int|
                0 <= m < missing.len() && missing[m]@ == entry_names(s, j)[k],
    ensures
        forall|j: int|
            0 <= j < nodes.len() ==> ((#[trigger] nodes[j]).has_parent <==> partial_parent(
                s,
                idx + 1,
                j,
            )),
        forall|j: int, k: int|
            0 <= j < idx + 1 && entry_parsed_spec(s, j) && 0 <= k < entry_names(s, j).len()
                && find_hit(s, #[trigger] entry_names(s, j)[k]) is None ==> exists|m: int|
                0 <= m < missing.len() && missing[m]@ == entry_names(s, j)[k],
{
    lemma_partial_parent_close(s, idx);
    assert forall|j: int, k: int|
        0 <= j < idx + 1 && entry_parsed_spec(s, j) && 0 <= k < entry_names(s, j).len()
            && find_hit(s, #[trigger] entry_names(s, j)[k]) is None implies exists|m: int|
        0 <= m < missing.len() && missing[m]@ == entry_names(s, j)[k] by {
        if j == idx {
            assert(entry_names(s, j) == names);
        }
    }
}

/// One parsed entry's full contribution: the parsed flag, its child
/// edges in reference order, the names and parent flags of everything
/// it resolves, and the log entries for everything it cannot.
#[verifier::spinoff_prover]
#[verifier::rlimit(100)]
fn scan_entry_parsed(
    pak: &PakReader,
    nodes: &mut Vec<TreeNode>,
    missing: &mut Vec<String>,
    index: u32,
    user: &User,
    names: Ghost<Seq<Seq<char>>>,
)
    requires
        pak.wf(),
        (index as int) < file_count_of(pak@),
        names@ == entry_names(pak@, index as int),
        names@.len() == user.children@.len() + user.resource_names@.len(),
        forall|k: int|
            0 <= k < user.children@.len() ==> names@[k] == (#[trigger] user.children@[k])@,
        forall|k: int|
            0 <= k < user.resource_names@.len() ==> names@[user.children@.len() + k] == (
            #[trigger] user.resource_names@[k])@,
        entry_parsed_spec(pak@, index as int),
        old(nodes)@.len() == file_count_of(pak@),
        nodes_wf(old(nodes)@),
        forall|j: int| 0 <= j < old(nodes)@.len() ==> !(#[trigger] old(nodes)@[j]).visited,
        forall|j: int|
            0 <= j < old(nodes)@.len() ==> ((#[trigger] old(nodes)@[j]).parsed <==> (j < index
                && entry_parsed_spec(pak@, j))),
        forall|j: int|
            index <= j < old(nodes)@.len() ==> (#[trigger] old(nodes)@[j]).children@.len() == 0,
        forall|j: int|
            0 <= j < index ==> (#[trigger] old(nodes)@[j]).children@ == dep_children(pak@, j),
        forall|j: int|
            0 <= j < old(nodes)@.len() ==> ((#[trigger] old(nodes)@[j]).has_parent
                <==> partial_parent(pak@, index as int, j)),
        forall|j: int|
            0 <= j < old(nodes)@.len() ==> ((#[trigger] old(nodes)@[j]).name is Some <==> old(
                nodes,
            )@[j].has_parent),
        forall|j: int|
            0 <= j < old(nodes)@.len() ==> match (#[trigger] old(nodes)@[j]).name {
                Some(nm) => is_recovered_name(pak@, j, nm@),
                None => true,
            },
        forall|m: int|
            0 <= m < old(missing)@.len() ==> is_missing_name(pak@, (#[trigger] old(missing)@[m])@),
        forall|j: int, k: int|
            0 <= j < index && entry_parsed_spec(pak@, j) && 0 <= k < entry_names(pak@, j).len()
                && find_hit(pak@, #[trigger] entry_names(pak@, j)[k]) is None ==> exists|m: int|
                0 <= m < old(missing)@.len() && old(missing)@[m]@ == entry_names(pak@, j)[k],
    ensures
        final(nodes)@.len() == old(nodes)@.len(),
        nodes_wf(final(nodes)@),
        forall|j: int| 0 <= j < final(nodes)@.len() ==> !(#[trigger] final(nodes)@[j]).visited,
        forall|j: int|
            0 <= j < final(nodes)@.len() ==> ((#[trigger] final(nodes)@[j]).parsed <==> (j < index
                + 1 && entry_parsed_spec(pak@, j))),
        forall|j: int|
            index + 1 <= j < final(nodes)@.len() ==> (#[trigger] final(nodes)@[j]).children@.len()
                == 0,
        forall|j: int|
            0 <= j < index + 1 ==> (#[trigger] final(nodes)@[j]).children@ == dep_children(
                pak@,
                j,
            ),
        forall|j: int|
            0 <= j < final(nodes)@.len() ==> ((#[trigger] final(nodes)@[j]).has_parent
                <==> partial_parent(pak@, index + 1, j)),
        forall|j: int|
            0 <= j < final(nodes)@.len() ==> ((#[trigger] final(nodes)@[j]).name is Some
                <==> final(nodes)@[j].has_parent),
        forall|j: int|
            0 <= j < final(nodes)@.len() ==> match (#[trigger] final(nodes)@[j]).name {
                Some(nm) => is_recovered_name(pak@, j, nm@),
                None => true,
            },
        forall|m: int|
            0 <= m < final(missing)@.len() ==> is_missing_name(
                pak@,
                (#[trigger] final(missing)@[m])@,
            ),
        forall|j: int, k: int|
            0 <= j < index + 1 && entry_parsed_spec(pak@, j) && 0 <= k < entry_names(
                pak@,
                j,
            ).len() && find_hit(pak@, #[trigger] entry_names(pak@, j)[k]) is None ==> exists|
                m: int,
            |
                0 <= m < final(missing)@.len() && final(missing)@[m]@ == entry_names(pak@, j)[k],
{
    let ghost s = pak@;
    let iu = index as usize;
    let ghost pre0 = nodes@;
    let mut node = nodes.remove(iu);
    node.parsed = true;
    nodes.insert(iu, node);
    let ghost names = names@;
    let nchild = user.children.len();
    let nres = user.resource_names.len();
    proof {
        assert(nodes@ =~= pre0.update(index as int, nodes@[index as int]));
        assert(names.take(0) =~= Seq::<Seq<char>>::empty());
        assert(resolved_of(s, names.take(0)) =~= Seq::<usize>::empty());
        assert(nodes@[index as int].children@ =~= resolved_of(s, names.take(0)));
        lemma_mid_zero(s, index as int);
    }
    scan_link_run(pak, nodes, missing, index, &user.children, Ghost(names), Ghost(0));
    proof {
        assert(forall|k: int|
            0 <= k < nres ==> names[nchild + k] == (#[trigger] user.resource_names@[k])@);
    }
    scan_link_run(
        pak,
        nodes,
        missing,
        index,
        &user.resource_names,
        Ghost(names),
        Ghost(nchild as int),
    );
    proof {
        assert(names.take(nchild + nres) =~= names);
        assert(nodes@[index as int].children@ == resolved_of(s, names));
        assert(nodes@[index as int].children@ == dep_children(s, index as int));
        lemma_entry_close(s, names, index as int, nodes@, missing@);
    }
}

/// The entry pass of a scan: reads every entry, parses the recognized
/// containers, resolves their referenced names and records edges,
/// recovered names, skipped entries and unresolved names, exactly as
/// the archive's bytes dictate.
#[verifier::spinoff_prover]
#[verifier::rlimit(100)]
fn scan_build(
    pak: &PakReader,
    nodes: &mut Vec<TreeNode>,
    skipped: &mut Vec<u32>,
    missing: &mut Vec<String>,
)
    requires
        pak.wf(),
        old(nodes)@.len() == file_count_of(pak@),
        old(skipped)@.len() == 0,
        old(missing)@.len() == 0,
        forall|j: int|
            0 <= j < old(nodes)@.len() ==> !(#[trigger] old(nodes)@[j]).visited && !old(
                nodes,
            )@[j].parsed && old(nodes)@[j].children@.len() == 0 && old(nodes)@[j].name is None
                && !old(nodes)@[j].has_parent,
    ensures
        final(nodes)@.len() == file_count_of(pak@),
        nodes_wf(final(nodes)@),
        forall|j: int| 0 <= j < final(nodes)@.len() ==> !(#[trigger] final(nodes)@[j]).visited,
        scan_nodes_ok(pak@, final(nodes)@),
        skipped_ok(pak@, final(skipped)@),
        missing_ok(pak@, final(missing)@),
{
    let ghost s = pak@;
    let count = pak.get_file_count();
    let total = count as usize;
    let mut index: u32 = 0;
    while index < count
        invariant
            index <= count,
            pak.wf(),
            s == pak@,
            count == file_count_of(s),
            total == count as usize,
            nodes@.len() == total,
            nodes_wf(nodes@),
            forall|j: int| 0 <= j < total ==> !(#[trigger] nodes@[j]).visited,
            forall|j: int|
                0 <= j < total ==> ((#[trigger] nodes@[j]).parsed <==> (j < index
                    && entry_parsed_spec(s, j))),
            forall|j: int| index <= j < total ==> (#[trigger] nodes@[j]).children@.len() == 0,
            forall|j: int| 0 <= j < index ==> (#[trigger] nodes@[j]).children@ == dep_children(s, j),
            forall|j: int|
                0 <= j < total ==> ((#[trigger] nodes@[j]).has_parent <==> partial_parent(
                    s,
                    index as int,
                    j,
                )),
            forall|j: int|
                0 <= j < total ==> ((#[trigger] nodes@[j]).name is Some <==> nodes@[j].has_parent),
            forall|j: int|
                0 <= j < total ==> match (#[trigger] nodes@[j]).name {
                    Some(nm) => is_recovered_name(s, j, nm@),
                    None => true,
                },
            forall|k1: int, k2: int| 0 <= k1 < k2 < skipped@.len() ==> skipped@[k1] < skipped@[k2],
            forall|k: int| 0 <= k < skipped@.len() ==> (#[trigger] skipped@[k]) < index,
            forall|k: int|
                0 <= k < skipped@.len() ==> entry_skipped_spec(s, (#[trigger] skipped@[k]) as int),
            forall|j: int|
                0 <= j < index && entry_skipped_spec(s, j) ==> exists|k: int|
                    0 <= k < skipped@.len() && skipped@[k] == j,
            forall|m: int| 0 <= m < missing@.len() ==> is_missing_name(s, (#[trigger] missing@[m])@),
            forall|j: int, k: int|
                0 <= j < index && entry_parsed_spec(s, j) && 0 <= k < entry_names(s, j).len()
                    && find_hit(s, #[trigger] entry_names(s, j)[k]) is None ==> exists|m: int|
                    0 <= m < missing@.len() && missing@[m]@ == entry_names(s, j)[k],
        decreases count - index,
    {
        let ghost pre_skipped = skipped@;
        let content = match pak.read_file_at(index) {
            Ok(c) => c,
            Err(_) => {
                skipped.push(index);
                proof {
                    reveal(entry_skipped_spec);
                    reveal(entry_parsed_spec);
                    assert(entry_skipped_spec(s, index as int));
                    assert(!entry_parsed_spec(s, index as int));
                    assert(forall|k: int|
                        0 <= k < pre_skipped.len() ==> skipped@[k] == #[trigger] pre_skipped[k]);
                    assert(skipped@.last() == index);
                    lemma_partial_parent_skip(s, index as int);
                }
                index = index + 1;
                continue ;
            },
        };
        proof {
            assert(content@ == content_of(s, index as int));
        }
        if sniff(content.as_slice()).is_none() {
            proof {
                reveal(entry_skipped_spec);
                reveal(entry_parsed_spec);
                assert(!entry_parsed_spec(s, index as int));
                assert(!entry_skipped_spec(s, index as int));
                lemma_partial_parent_skip(s, index as int);
            }
            index = index + 1;
            continue ;
        }
        let user = match User::new(content.as_slice()) {
            Ok(u) => u,
            Err(_) => {
                skipped.push(index);
                proof {
                    reveal(entry_skipped_spec);
                    reveal(entry_parsed_spec);
                    assert(!crate::user::user_parseable(content_of(s, index as int)));
                    assert(entry_skipped_spec(s, index as int));
                    assert(!entry_parsed_spec(s, index as int));
                    assert(forall|k: int|
                        0 <= k < pre_skipped.len() ==> skipped@[k] == #[trigger] pre_skipped[k]);
                    assert(skipped@.last() == index);
                    lemma_partial_parent_skip(s, index as int);
                }
                index = index + 1;
                continue ;
            },
        };
        proof {
            reveal(entry_skipped_spec);
            reveal(entry_parsed_spec);
            assert(entry_parsed_spec(s, index as int));
            assert(!entry_skipped_spec(s, index as int));
        }
        let ghost names = entry_names(s, index as int);
        proof {
            assert(names.len() == user.children@.len() + user.resource_names@.len() && (forall|
                k: int,
            |
                0 <= k < user.children@.len() ==> names[k] == (#[trigger] user.children@[k])@)
                && (forall|k: int|
                0 <= k < user.resource_names@.len() ==> names[user.children@.len() + k] == (
                #[trigger] user.resource_names@[k])@)) by {
                reveal(entry_names);
                crate::user::lemma_user_names(content@, &user);
            }
        }
        scan_entry_parsed(pak, nodes, missing, index, &user, Ghost(names));
        index = index + 1;
    }
    proof {
        assert(scan_nodes_ok(s, nodes@)) by {
            assert(nodes@.len() == file_count_of(s));
            assert(forall|j: int|
                0 <= j < nodes@.len() ==> ((#[trigger] nodes@[j]).parsed <==> entry_parsed_spec(
                    s,
                    j,
                )));
            assert(forall|j: int|
                0 <= j < nodes@.len() ==> (#[trigger] nodes@[j]).children@ == dep_children(s, j));
            assert(forall|j: int|
                0 <= j < nodes@.len() ==> ((#[trigger] nodes@[j]).has_parent <==> has_parent_spec(
                    s,
                    j,
                )));
            assert(forall|j: int|
                0 <= j < nodes@.len() ==> ((#[trigger] nodes@[j]).name is Some
                    <==> has_parent_spec(s, j)));
        }
        assert(skipped_ok(s, skipped@)) by {
            assert(forall|k: int|
                0 <= k < skipped@.len() ==> (#[trigger] skipped@[k]) < file_count_of(s));
        }
        assert(missing_ok(s, missing@));
    }
}

#[verifier::rlimit(100)]
#[verifier::spinoff_prover]
pub fn scan(pak: &PakReader) -> (r: Result<ScanReport, Error>)
    requires
        pak.wf(),
    ensures
        match r {
            Ok(report) => {
                &&& report.total == file_count_of(pak@)
                &&& scan_nodes_ok(pak@, report.nodes@)
                &&& skipped_ok(pak@, report.skipped@)
                &&& missing_ok(pak@, report.missing@)
                &&& visited_ok(pak@, report.nodes@)
                &&& report.named == named_count(report.nodes@)
                &&& report.lines@.len() + unvisited_count(report.nodes@) == report.nodes@.len()
                &&& forall|k: int|
                    0 <= k < report.lines@.len() ==> line_formed(
                        names_of(report.nodes@),
                        #[trigger] report.lines@[k],
                    )
                &&& !dep_cycle(pak@)
            },
            Err(e) => e == Error::CycleDetected && dep_cycle(pak@),
        },
{
    let ghost s = pak@;
    let count = pak.get_file_count();
    let total = count as usize;
    let mut nodes: Vec<TreeNode> = Vec::new();
    let mut i: usize = 0;
    while i < total
        invariant
            i <= total,
            nodes@.len() == i,
            forall|j: int|
                0 <= j < i ==> !(#[trigger] nodes@[j]).visited && !nodes@[j].parsed && nodes@[
                    j].children@.len() == 0 && nodes@[j].name is None && !nodes@[j].has_parent,
        decreases total - i,
    {
        nodes.push(
            TreeNode {
                parsed: false,
                children: Vec::new(),
                name: None,
                has_parent: false,
                visited: false,
            },
        );
        i = i + 1;
    }
    let mut skipped: Vec<u32> = Vec::new();
    let mut missing: Vec<String> = Vec::new();
    scan_build(pak, &mut nodes, &mut skipped, &mut missing);
    proof {
        assert(nodes@.len() == total);
        assert(forall|j: int|
            0 <= j < total ==> ((#[trigger] nodes@[j]).parsed <==> entry_parsed_spec(s, j)));
        assert(forall|j: int|
            0 <= j < total ==> (#[trigger] nodes@[j]).children@ == dep_children(s, j));
        assert(forall|j: int|
            0 <= j < total ==> ((#[trigger] nodes@[j]).has_parent <==> has_parent_spec(s, j)));
        assert(forall|j: int|
            0 <= j < total ==> ((#[trigger] nodes@[j]).name is Some <==> has_parent_spec(s, j)));
    }
    let mut lines: Vec<String> = Vec::new();
    let ghost nodes0 = nodes@;
    proof {
        lemma_all_unvisited(nodes@);
        assert(graph_of(nodes@) =~= dep_graph(s));
    }
    let mut ri: usize = 0;
    while ri < total
        invariant
            s == pak@,
            count == file_count_of(s),
            total == count as usize,
            total == nodes@.len(),
            ri <= total,
            nodes_wf(nodes@),
            shells_eq(nodes0, nodes@),
            forall|j: int|
                0 <= j < total ==> ((#[trigger] nodes@[j]).parsed <==> entry_parsed_spec(s, j)),
            forall|j: int|
                0 <= j < total ==> (#[trigger] nodes@[j]).children@ == dep_children(s, j),
            forall|j: int|
                0 <= j < total ==> ((#[trigger] nodes@[j]).has_parent <==> has_parent_spec(s, j)),
            forall|j: int|
                0 <= j < total ==> ((#[trigger] nodes@[j]).name is Some <==> nodes@[j].has_parent),
            forall|j: int|
                0 <= j < total ==> match (#[trigger] nodes@[j]).name {
                    Some(nm) => is_recovered_name(s, j, nm@),
                    None => true,
                },
            forall|j: int| 0 <= j < total ==> !(#[trigger] nodes0[j]).visited,
            lines@.len() + unvisited_count(nodes@) == nodes@.len(),
            newly_closed(nodes0, nodes@),
            forall|j: int|
                0 <= j < ri && (#[trigger] nodes@[j]).parsed && !nodes@[j].has_parent ==> nodes@[
                    j].visited,
            forall|j: int| 0 <= j < total && (#[trigger] nodes@[j]).visited ==> dep_rooted(s, j),
            forall|k: int|
                0 <= k < lines@.len() ==> line_formed(names_of(nodes@), #[trigger] lines@[k]),
        decreases total - ri,
    {
        if nodes[ri].parsed && !nodes[ri].has_parent {
            let ghost before = nodes@;
            let ghost lines_before = lines@;
            proof {
                lemma_unvisited_le_len(nodes@);
            }
            visit_tree(&mut nodes, &mut lines, ri, 0);
            proof {
                lemma_newly_closed_chain(nodes0, before, nodes@);
                assert(names_of(before) =~= names_of(nodes@));
                assert(names_of(nodes0) =~= names_of(nodes@));
                assert(graph_of(before) =~= dep_graph(s));
                assert(entry_parsed_spec(s, ri as int));
                assert(!has_parent_spec(s, ri as int));
                assert forall|j: int|
                    0 <= j < total && (#[trigger] nodes@[j]).visited implies dep_rooted(s, j) by {
                    if !before[j].visited {
                        assert(reach_from(graph_of(before), ri as int, j));
                        assert(reach_from(dep_graph(s), ri as int, j));
                    }
                }
                assert forall|k: int|
                    0 <= k < lines@.len() implies line_formed(
                    names_of(nodes@),
                    #[trigger] lines@[k],
                ) by {
                    if k < lines_before.len() {
                        assert(lines@[k] == lines_before[k]);
                        assert(line_formed(names_of(before), lines@[k]));
                    } else {
                        assert(line_formed(names_of(before), lines@[k]));
                    }
                }
            }
        }
        ri = ri + 1;
    }
    proof {
        assert forall|j: int| 0 <= j < total && dep_rooted(s, j) implies nodes@[j].visited by {
            let rt = choose|rt: int|
                0 <= rt < file_count_of(s) && entry_parsed_spec(s, rt) && !has_parent_spec(s, rt)
                    && reach_from(dep_graph(s), rt, j);
            assert(nodes@[rt].parsed && !nodes@[rt].has_parent);
            assert(nodes@[rt].visited);
            let steps = choose|steps: nat| greach(dep_graph(s), rt, j, steps);
            assert(graph_of(nodes@) =~= dep_graph(s));
            assert(greach(graph_of(nodes@), rt, j, steps));
            assert forall|x: int, k: int|
                0 <= x < nodes@.len() && (#[trigger] nodes@[x]).visited && 0 <= k < nodes@[
                x].children@.len() implies nodes@[#[trigger] nodes@[x].children@[k] as int].visited by {
                assert(!nodes0[x].visited);
            }
            lemma_greach_visited(nodes@, rt, j, steps);
        }
    }
    let named = count_named(&nodes);
    match check_cycles(&nodes) {
        Ok(()) => {},
        Err(e) => {
            proof {
                let bad = choose|bad: int|
                    0 <= bad < nodes@.len() && (#[trigger] nodes@[bad]).parsed && !nodes@[
                    bad].visited;
                assert(entry_parsed_spec(s, bad));
                assert(!dep_rooted(s, bad));
                assert(dep_cycle(s));
            }
            return Err(e);
        },
    }
    proof {
        assert(visited_ok(s, nodes@));
        assert forall|i2: int|
            0 <= i2 < file_count_of(s) && entry_parsed_spec(s, i2) implies dep_rooted(s, i2) by {
            assert(nodes@[i2].parsed);
            assert(nodes@[i2].visited);
        }
        assert(!dep_cycle(s));
        assert(scan_nodes_ok(s, nodes@));
        assert(skipped_ok(s, skipped@));
        assert(missing_ok(s, missing@));
    }
    let ghost final_nodes = nodes@;
    let ghost final_lines = lines@;
    let report = ScanReport { nodes, lines, named, total, skipped, missing };
    proof {
        assert(report.nodes@ == final_nodes);
        assert(report.lines@ == final_lines);
        assert(forall|k: int|
            0 <= k < report.lines@.len() ==> line_formed(
                names_of(report.nodes@),
                #[trigger] report.lines@[k],
            ));
    }
    Ok(report)
}

/// Which archive entry each requested path resolves to, and which
/// entries no requested path claimed. A dump writes the first group
/// under their paths and the rest under their bare indices.
pub struct DumpPlan {
    pub resolved: Vec<Option<u32>>,
    pub leftover: Vec<u32>,
}

impl DumpPlan {
    pub open spec fn claimed(&self, j: int) -> bool {
        exists|k: int| 0 <= k < self.resolved@.len() && self.resolved@[k] == Some(j as u32)
    }

    /// Nothing in the leftover list was claimed by a path.
    pub open spec fn leftover_unclaimed(&self) -> bool {
        forall|k: int|
            0 <= k < self.leftover@.len() ==> !self.claimed((#[trigger] self.leftover@[k]) as int)
    }

    /// Every unclaimed entry below `n` is in the leftover list.
    pub open spec fn leftover_complete(&self, n: int) -> bool {
        forall|j: int|
            0 <= j < n && !self.claimed(j) ==> exists|k: int|
                0 <= k < self.leftover@.len() && self.leftover@[k] == j
    }
}

/// Resolves a list of requested paths against the archive and plans a
/// full dump: per path the entry it names (if any), plus every entry
/// no path claimed, in ascending order.
pub fn plan_dump(pak: &PakReader, paths: &Vec<String>) -> (plan: DumpPlan)
    requires
        pak.wf(),
    ensures
        plan.resolved@.len() == paths@.len(),
        forall|k: int|
            0 <= k < paths@.len() ==> match #[trigger] plan.resolved@[k] {
                Some(j) => j < crate::pak::file_count_of(pak@) && crate::pak::entry_hash(
                    pak@,
                    j as int,
                ) == crate::hash::path_hash(paths@[k]@),
                None => forall|j: int|
                    0 <= j < crate::pak::file_count_of(pak@) ==> crate::pak::entry_hash(pak@, j)
                        != crate::hash::path_hash(paths@[k]@),
            },
        forall|k1: int, k2: int|
            0 <= k1 < k2 < plan.leftover@.len() ==> plan.leftover@[k1] < plan.leftover@[k2],
        forall|k: int|
            0 <= k < plan.leftover@.len() ==> (#[trigger] plan.leftover@[k])
                < crate::pak::file_count_of(pak@),
        plan.leftover_unclaimed(),
        plan.leftover_complete(crate::pak::file_count_of(pak@)),
{
    let count = pak.get_file_count();
    let total = count as usize;
    let mut taken: Vec<bool> = Vec::new();
    let mut t: usize = 0;
    while t < total
        invariant
            t <= total,
            taken@.len() == t,
            forall|j: int| 0 <= j < t ==> !(#[trigger] taken@[j]),
        decreases total - t,
    {
        taken.push(false);
        t = t + 1;
    }
    let mut resolved: Vec<Option<u32>> = Vec::new();
    let npaths = paths.len();
    let mut k: usize = 0;
    while k < npaths
        invariant
            pak.wf(),
            count == crate::pak::file_count_of(pak@),
            total == count as usize,
            k <= npaths == paths@.len(),
            resolved@.len() == k,
            taken@.len() == total,
            forall|k2: int|
                0 <= k2 < k ==> match #[trigger] resolved@[k2] {
                    Some(j) => j < crate::pak::file_count_of(pak@) && crate::pak::entry_hash(
                        pak@,
                        j as int,
                    ) == crate::hash::path_hash(paths@[k2]@),
                    None => forall|j: int|
                        0 <= j < crate::pak::file_count_of(pak@) ==> crate::pak::entry_hash(
                            pak@,
                            j,
                        ) != crate::hash::path_hash(paths@[k2]@),
                },
            forall|j: int|
                0 <= j < total ==> ((#[trigger] taken@[j]) <==> exists|k2: int|
                    0 <= k2 < k && resolved@[k2] == Some(j as u32)),
        decreases npaths - k,
    {
        let ghost pre = resolved@;
        match pak.find_file(paths[k].as_str()) {
            Ok((index, _)) => {
                resolved.push(Some(index));
                let iu = index as usize;
                let ghost pre_taken = taken@;
                taken.set(iu, true);
                proof {
                    assert(taken@ =~= pre_taken.update(iu as int, true));
                    assert(resolved@[k as int] == Some(index));
                    assert(taken@[index as int]);
                }
            },
            Err(_) => {
                resolved.push(None);
                assert(resolved@[k as int] is None);
            },
        }
        proof {
            assert(forall|k2: int| 0 <= k2 < pre.len() ==> resolved@[k2] == #[trigger] pre[k2]);
        }
        k = k + 1;
    }
    let mut leftover: Vec<u32> = Vec::new();
    let mut j: usize = 0;
    while j < total
        invariant
            total == crate::pak::file_count_of(pak@),
            j <= total,
            taken@.len() == total,
            resolved@.len() == npaths,
            forall|i: int|
                0 <= i < total ==> ((#[trigger] taken@[i]) <==> exists|k2: int|
                    0 <= k2 < npaths && resolved@[k2] == Some(i as u32)),
            forall|k1: int, k2: int|
                0 <= k1 < k2 < leftover@.len() ==> leftover@[k1] < leftover@[k2],
            forall|k2: int|
                0 <= k2 < leftover@.len() ==> (#[trigger] leftover@[k2]) < j && !taken@[
                    leftover@[k2] as int],
            forall|i: int|
                0 <= i < j && !taken@[i] ==> exists|k2: int|
                    0 <= k2 < leftover@.len() && leftover@[k2] == i,
        decreases total - j,
    {
        let ghost pre = leftover@;
        if !taken[j] {
            leftover.push(j as u32);
            proof {
                assert(leftover@.last() == j as u32);
                assert(forall|k2: int| 0 <= k2 < pre.len() ==> leftover@[k2] == #[trigger] pre[
                    k2]);
            }
        }
        j = j + 1;
    }
    let ghost leftover_snapshot = leftover@;
    let plan = DumpPlan { resolved, leftover };
    proof {
        assert(plan.leftover@ == leftover_snapshot);
        assert(forall|i: int| 0 <= i < total ==> ((#[trigger] taken@[i]) <==> plan.claimed(i)));
        assert(forall|k2: int|
            0 <= k2 < plan.leftover@.len() ==> (#[trigger] plan.leftover@[k2])
                < crate::pak::file_count_of(pak@) && !taken@[plan.leftover@[k2] as int]);
        assert(plan.leftover_unclaimed());
        assert forall|i: int|
            0 <= i < crate::pak::file_count_of(pak@) && !plan.claimed(i) implies exists|k2: int|
            0 <= k2 < plan.leftover@.len() && plan.leftover@[k2] == i by {
            assert(!taken@[i]);
            let kw = choose|k2: int|
                0 <= k2 < leftover_snapshot.len() && leftover_snapshot[k2] == i;
            assert(0 <= kw < plan.leftover@.len() && plan.leftover@[kw] == i);
        }
        assert(plan.leftover_complete(crate::pak::file_count_of(pak@)));
    }
    plan
}

proof fn lemma_all_unvisited(nodes: Seq<TreeNode>)
    requires
        forall|j: int| 0 <= j < nodes.len() ==> !(#[trigger] nodes[j]).visited,
    ensures
        unvisited_count(nodes) == nodes.len(),
    decreases nodes.len(),
{
    if nodes.len() > 0 {
        lemma_all_unvisited(nodes.drop_last());
    }
}

/// Chains the traversal's closure property across successive calls:
/// against a start state with nothing visited, what one call closes
/// stays closed through the next.
proof fn lemma_newly_closed_chain(o: Seq<TreeNode>, m: Seq<TreeNode>, f: Seq<TreeNode>)
    requires
        o.len() == m.len() == f.len(),
        forall|j: int| 0 <= j < o.len() ==> !(#[trigger] o[j]).visited,
        shells_eq(o, m),
        shells_eq(m, f),
        newly_closed(o, m),
        newly_closed(m, f),
        visited_monotone(m, f),
        nodes_wf(f),
    ensures
        newly_closed(o, f),
{
    assert forall|i: int|
        0 <= i < f.len() && (#[trigger] f[i]).visited && !o[i].visited implies (forall|k: int|
        0 <= k < f[i].children@.len() ==> f[#[trigger] f[i].children@[k] as int].visited) by {
        assert(shell_eq(&m[i], &f[i]));
        if m[i].visited {
            assert forall|k: int|
                0 <= k < f[i].children@.len() implies f[#[trigger] f[
                i].children@[k] as int].visited by {
                assert(m[i].children@[k] == f[i].children@[k]);
                let ch = f[i].children@[k] as int;
                assert(m[ch].visited);
            }
        } else {
            assert forall|k: int|
                0 <= k < f[i].children@.len() implies f[#[trigger] f[
                i].children@[k] as int].visited by {
                assert(f[i].visited && !m[i].visited);
            }
        }
    }
}

} // verus!
