//! Depth-first rendering of a call tree from the catalog's recorded call
//! sites, with one visited set shared by a whole entry point.
use vstd::prelude::*;
use vstd::string::*;
use crate::catalog::{resolve, lemma_resolve_in_range, CallSite, FunctionInfo, FunctionMap};
use crate::text::{decimal, nat_digits, origin_parts, push_char, push_decimal, remove_spaces, split_origin, without_spaces};

verus! {

/// Number of entries not yet visited.
pub open spec fn unvisited(v: Seq<bool>) -> nat
    decreases v.len(),
{
    if v.len() == 0 {
        0
    } else {
        unvisited(v.drop_last()) + if v.last() { 0nat } else { 1nat }
    }
}

/// Two spaces per level.
pub open spec fn indent(levels: nat) -> Seq<char>
    decreases levels,
{
    if levels == 0 {
        Seq::empty()
    } else {
        indent((levels - 1) as nat) + seq![' ', ' ']
    }
}

/// A line number as printed: 0 stands for an unknown line and prints as -1.
pub open spec fn shown_line(line: int) -> int {
    if line == 0 { -1 } else { line }
}

/// One rendered line: `<indent><name> <path> linenumber=<line>\n`, indented
/// one level more than `depth`, the name without its spaces.
pub open spec fn tree_line(depth: nat, name: Seq<char>, path: Seq<char>, line: int) -> Seq<char> {
    indent(depth + 1) + without_spaces(name) + seq![' '] + path + " linenumber="@ + decimal(line) + seq!['\n']
}

/// Text rendered for the call name `name` found at `path`/`line`, and the
/// visited set afterwards. A resolved, unvisited entry prints its own line and
/// then, one level deeper, its call sites in order; a resolved entry already
/// visited prints nothing; an unresolved name prints a leaf line.
pub open spec fn render_node(
    fs: Seq<FunctionInfo>,
    name: Seq<char>,
    path: Seq<char>,
    line: int,
    vis: Seq<bool>,
    depth: nat,
) -> (Seq<char>, Seq<bool>)
    decreases unvisited(vis), 0nat, 0int,
{
    match resolve(fs, name) {
        None => (tree_line(depth, name, path, shown_line(line)), vis),
        Some(i) => {
            if 0 <= i < vis.len() && !vis[i] {
                let v1 = vis.update(i, true);
                proof {
                    lemma_mark(vis, i);
                }
                let (rest, v2) = render_edges(fs, fs[i].callsites@, 0, v1, depth + 1);
                (tree_line(depth, fs[i].name@, path, shown_line(line)) + rest, v2)
            } else {
                (Seq::empty(), vis)
            }
        },
    }
}

/// Text rendered for the call sites `edges[k..]`, in order, and the visited
/// set afterwards; a call site whose origin holds no comma is skipped.
pub open spec fn render_edges(
    fs: Seq<FunctionInfo>,
    edges: Seq<CallSite>,
    k: int,
    vis: Seq<bool>,
    depth: nat,
) -> (Seq<char>, Seq<bool>)
    decreases unvisited(vis), 1nat, edges.len() - k,
{
    if k < 0 || k >= edges.len() {
        (Seq::empty(), vis)
    } else {
        match origin_parts(edges[k].src@) {
            None => render_edges(fs, edges, k + 1, vis, depth),
            Some((p, l)) => {
                let (s1, v1) = render_node(fs, edges[k].dst@, p, l, vis, depth);
                // always holds (lemma_render_monotone); it bounds the recursion
                if unvisited(v1) <= unvisited(vis) {
                    let (s2, v2) = render_edges(fs, edges, k + 1, v1, depth);
                    (s1 + s2, v2)
                } else {
                    (s1, v1)
                }
            },
        }
    }
}

pub proof fn lemma_mark(v: Seq<bool>, i: int)
    requires
        0 <= i < v.len(),
        !v[i],
    ensures
        unvisited(v.update(i, true)) + 1 == unvisited(v),
    decreases v.len(),
{
    let w = v.update(i, true);
    if i == v.len() - 1 {
        assert(w.drop_last() =~= v.drop_last());
    } else {
        assert(w.drop_last() =~= v.drop_last().update(i, true));
        lemma_mark(v.drop_last(), i);
    }
}

pub proof fn lemma_unvisited_monotone(a: Seq<bool>, b: Seq<bool>)
    requires
        a.len() == b.len(),
        forall|i: int| 0 <= i < a.len() && a[i] ==> b[i],
    ensures
        unvisited(b) <= unvisited(a),
    decreases a.len(),
{
    if a.len() > 0 {
        lemma_unvisited_monotone(a.drop_last(), b.drop_last());
    }
}

/// Rendering only ever adds to the visited set.
pub proof fn lemma_render_monotone(
    fs: Seq<FunctionInfo>,
    name: Seq<char>,
    path: Seq<char>,
    line: int,
    vis: Seq<bool>,
    depth: nat,
)
    ensures
        ({
            let v = render_node(fs, name, path, line, vis, depth).1;
            v.len() == vis.len() && (forall|i: int| 0 <= i < vis.len() && vis[i] ==> v[i])
                && unvisited(v) <= unvisited(vis)
        }),
    decreases unvisited(vis), 0nat, 0int,
{
    if let Some(i) = resolve(fs, name) {
        if 0 <= i < vis.len() && !vis[i] {
            let v1 = vis.update(i, true);
            lemma_mark(vis, i);
            lemma_edges_monotone(fs, fs[i].callsites@, 0, v1, depth + 1);
            let v2 = render_edges(fs, fs[i].callsites@, 0, v1, depth + 1).1;
            lemma_unvisited_monotone(vis, v2);
        }
    }
}

pub proof fn lemma_edges_monotone(
    fs: Seq<FunctionInfo>,
    edges: Seq<CallSite>,
    k: int,
    vis: Seq<bool>,
    depth: nat,
)
    ensures
        ({
            let v = render_edges(fs, edges, k, vis, depth).1;
            v.len() == vis.len() && (forall|i: int| 0 <= i < vis.len() && vis[i] ==> v[i])
                && unvisited(v) <= unvisited(vis)
        }),
    decreases unvisited(vis), 1nat, edges.len() - k,
{
    if !(k < 0 || k >= edges.len()) {
        match origin_parts(edges[k].src@) {
            None => {
                lemma_edges_monotone(fs, edges, k + 1, vis, depth);
            },
            Some((p, l)) => {
                lemma_render_monotone(fs, edges[k].dst@, p, l, vis, depth);
                let v1 = render_node(fs, edges[k].dst@, p, l, vis, depth).1;
                lemma_edges_monotone(fs, edges, k + 1, v1, depth);
            },
        }
    }
}


/// Once a call name has been rendered, any name resolving to the same entry
/// renders nothing against that visited set or any set that extends it: a
/// resolved entry appears on at most one line of an entry point's output.
pub proof fn lemma_rendered_once(
    fs: Seq<FunctionInfo>,
    first: Seq<char>,
    path1: Seq<char>,
    line1: int,
    vis: Seq<bool>,
    depth1: nat,
    later: Seq<char>,
    path2: Seq<char>,
    line2: int,
    w: Seq<bool>,
    depth2: nat,
)
    requires
        resolve(fs, first) is Some,
        resolve(fs, later) == resolve(fs, first),
        vis.len() == fs.len(),
        w.len() == vis.len(),
        forall|i: int| 0 <= i < vis.len() && render_node(fs, first, path1, line1, vis, depth1).1[i] ==> w[i],
    ensures
        render_node(fs, later, path2, line2, w, depth2).0.len() == 0,
{
    let i = resolve(fs, first).unwrap();
    lemma_resolve_in_range(fs, first);
    if !vis[i] {
        let v1 = vis.update(i, true);
        lemma_edges_monotone(fs, fs[i].callsites@, 0, v1, depth1 + 1);
    }
}

/// Line 0 prints as `-1`; every other line prints as itself.
pub proof fn lemma_shown_line(line: int)
    ensures
        decimal(shown_line(0)) == seq!['-', '1'],
        line != 0 ==> decimal(shown_line(line)) == decimal(line),
{
    assert(nat_digits(1) == seq!['1']);
    assert(decimal(-1) =~= seq!['-', '1']);
}

/// A call name that resolves to no entry renders as one line of its own,
/// with nothing below it, and leaves the visited set as it was.
pub proof fn lemma_unresolved_is_leaf(
    fs: Seq<FunctionInfo>,
    name: Seq<char>,
    path: Seq<char>,
    line: int,
    vis: Seq<bool>,
    depth: nat,
)
    requires
        resolve(fs, name) is None,
    ensures
        render_node(fs, name, path, line, vis, depth) == (tree_line(depth, name, path, shown_line(line)), vis),
{
}

/// Whatever a call name renders starts with its own line, ending in
/// ` linenumber=` and the shown line: the raw name's line when it resolves to
/// nothing, the resolved entry's line otherwise.
pub proof fn lemma_first_line(
    fs: Seq<FunctionInfo>,
    name: Seq<char>,
    path: Seq<char>,
    line: int,
    vis: Seq<bool>,
    depth: nat,
)
    ensures
        ({
            let s = render_node(fs, name, path, line, vis, depth).0;
            match resolve(fs, name) {
                None => s == tree_line(depth, name, path, shown_line(line)),
                Some(i) => {
                    let t = tree_line(depth, fs[i].name@, path, shown_line(line));
                    s.len() > 0 ==> t.len() <= s.len() && s.subrange(0, t.len() as int) == t
                },
            }
        }),
        tree_line(depth, name, path, shown_line(line)) == indent(depth + 1) + without_spaces(name) + seq![' ']
            + path + " linenumber="@ + decimal(shown_line(line)) + seq!['\n'],
{
    if let Some(i) = resolve(fs, name) {
        if 0 <= i < vis.len() && !vis[i] {
            let v1 = vis.update(i, true);
            let t = tree_line(depth, fs[i].name@, path, shown_line(line));
            let rest = render_edges(fs, fs[i].callsites@, 0, v1, depth + 1).0;
            assert((t + rest).subrange(0, t.len() as int) =~= t);
        }
    }
}

/// Appends one rendered line for `name` at `path`/`line`.
pub fn push_tree_line(out: &mut String, depth: usize, name: &str, path: &str, line: i32)
    requires
        depth < usize::MAX,
    ensures
        final(out)@ == old(out)@ + tree_line(depth as nat, name@, path@, line as int),
{
    let ghost start = out@;
    let mut k: usize = 0;
    while k < depth + 1
        invariant
            depth < usize::MAX,
            0 <= k <= depth + 1,
            out@ == start + indent(k as nat),
        decreases depth + 1 - k,
    {
        out.append("  ");
        proof {
            reveal_strlit("  ");
            assert(out@ =~= start + indent((k + 1) as nat));
        }
        k = k + 1;
    }
    let bare = remove_spaces(name);
    out.append(bare.as_str());
    push_char(out, ' ');
    out.append(path);
    out.append(" linenumber=");
    push_decimal(out, line);
    push_char(out, '\n');
    assert(out@ =~= start + tree_line(depth as nat, name@, path@, line as int));
}

/// Renders the call tree below the call name `function_name`, found at
/// `call_path`/`line_number`, `depth` levels down; `None` when nothing is
/// rendered. `visited` marks, by catalog index, the entries already rendered
/// for this entry point, and is updated.
pub fn build_call_tree(
    function_name: &str,
    function_map: &FunctionMap,
    call_path: &str,
    line_number: i32,
    visited: &mut Vec<bool>,
    depth: usize,
) -> (r: Option<String>)
    requires
        function_map.wf(),
        old(visited)@.len() == function_map.entries@.len(),
        depth + unvisited(old(visited)@) < usize::MAX,
    ensures
        ({
            let (s, v) = render_node(
                function_map.entries@,
                function_name@,
                call_path@,
                line_number as int,
                old(visited)@,
                depth as nat,
            );
            &&& final(visited)@ == v
            &&& match r {
                Some(t) => t@ == s && s.len() > 0,
                None => s.len() == 0,
            }
        }),
{
    render_rec(function_name, function_map, call_path, line_number, visited, depth, Ghost(unvisited(visited@)))
}

fn render_rec(
    function_name: &str,
    function_map: &FunctionMap,
    call_path: &str,
    line_number: i32,
    visited: &mut Vec<bool>,
    depth: usize,
    Ghost(measure): Ghost<nat>,
) -> (r: Option<String>)
    requires
        function_map.wf(),
        old(visited)@.len() == function_map.entries@.len(),
        depth + unvisited(old(visited)@) < usize::MAX,
        measure == unvisited(old(visited)@),
    ensures
        ({
            let (s, v) = render_node(
                function_map.entries@,
                function_name@,
                call_path@,
                line_number as int,
                old(visited)@,
                depth as nat,
            );
            &&& final(visited)@ == v
            &&& match r {
                Some(t) => t@ == s && s.len() > 0,
                None => s.len() == 0,
            }
        }),
    decreases measure,
{
    let ghost fs = function_map.entries@;
    let ghost vis0 = visited@;
    assert(measure == unvisited(vis0));
    let line: i32 = if line_number == 0 { -1 } else { line_number };
    let mut result = String::new();
    match function_map.resolve_index(function_name) {
        None => {
            push_tree_line(&mut result, depth, function_name, call_path, line);
        },
        Some(i) => {
            if visited[i] {
                return None;
            }
            visited.set(i, true);
            proof {
                lemma_mark(vis0, i as int);
            }
            let ghost v1 = visited@;
            let info = &function_map.entries[i];
            push_tree_line(&mut result, depth, info.name.as_str(), call_path, line);
            let ghost head = result@;
            let ghost edges = info.callsites@;
            let ghost total = render_edges(fs, edges, 0, v1, (depth + 1) as nat);
            let mut k: usize = 0;
            while k < info.callsites.len()
                invariant
                    function_map.wf(),
                    fs == function_map.entries@,
                    edges == info.callsites@,
                    0 <= k <= edges.len(),
                    visited@.len() == fs.len(),
                    unvisited(visited@) < unvisited(vis0),
                    measure == unvisited(vis0),
                    depth + unvisited(vis0) < usize::MAX,
                    total == render_edges(fs, edges, 0, v1, (depth + 1) as nat),
                    ({
                        let (sk, vk) = render_edges(fs, edges, k as int, visited@, (depth + 1) as nat);
                        total.0 == result@.subrange(head.len() as int, result@.len() as int) + sk
                            && total.1 == vk && head.len() <= result@.len()
                            && result@.subrange(0, head.len() as int) == head
                    }),
                decreases edges.len() - k,
            {
                let ghost vk = visited@;
                let ghost rk = result@;
                let site = &info.callsites[k];
                match split_origin(site.src.as_str()) {
                    None => {},
                    Some((p, l)) => {
                        proof {
                            lemma_render_monotone(fs, site.dst@, p@, l as int, vk, (depth + 1) as nat);
                        }
                        let sub = render_rec(site.dst.as_str(), function_map, p.as_str(), l, visited, depth + 1, Ghost(unvisited(visited@)));
                        if let Some(t) = sub {
                            result.append(t.as_str());
                        }
                        proof {
                            let (s1, v1x) = render_node(fs, site.dst@, p@, l as int, vk, (depth + 1) as nat);
                            let (s2, v2) = render_edges(fs, edges, k + 1, v1x, (depth + 1) as nat);
                            assert(render_edges(fs, edges, k as int, vk, (depth + 1) as nat) == (s1 + s2, v2));
                            assert(result@ =~= rk + s1);
                            assert(result@.subrange(head.len() as int, result@.len() as int)
                                =~= rk.subrange(head.len() as int, rk.len() as int) + s1);
                            assert(result@.subrange(0, head.len() as int) =~= rk.subrange(0, head.len() as int));
                        }
                    },
                }
                k = k + 1;
            }
            proof {
                assert(result@ =~= head + total.0);
                lemma_resolve_in_range(fs, function_name@);
            }
        },
    }
    if result.as_str().unicode_len() == 0 {
        None
    } else {
        Some(result)
    }
}

} // verus!
