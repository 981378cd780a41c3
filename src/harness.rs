//! Per-entry-point output: recognising entry-point sources, naming the
//! output file, rendering its text, and the catalog record that stands for
//! the entry point.
use vstd::prelude::*;
use vstd::string::*;
use crate::catalog::{lemma_exact_match_wins, names_unique, resolve, CallSite, FunctionInfo, FunctionMap};
use crate::extract::{calls_view, Calls};
use crate::render::{build_call_tree, lemma_render_monotone, lemma_rendered_once, render_edges, render_node, shown_line, tree_line, unvisited};
use crate::text::{contains, push_char, str_contains};

verus! {

/// Whether a source text declares an entry point: it holds `fuzz_target!`.
pub fn contains_trigger(content: &str) -> (r: bool)
    ensures
        r == contains(content@, "fuzz_target!"@),
{
    str_contains(content, "fuzz_target!")
}

/// `s` with each underscore turned into a hyphen.
pub open spec fn hyphenated(s: Seq<char>) -> Seq<char> {
    s.map_values(|c: char| if c == '_' { '-' } else { c })
}

/// The harness name of an entry-point file, from the file's base name
/// without extension.
pub fn harness_name(stem: &str) -> (r: String)
    ensures
        r@ == hyphenated(stem@),
{
    let n = stem.unicode_len();
    let mut r = String::new();
    let mut i: usize = 0;
    while i < n
        invariant
            n == stem@.len(),
            0 <= i <= n,
            r@ == hyphenated(stem@.subrange(0, i as int)),
        decreases n - i,
    {
        let c = stem.get_char(i);
        push_char(&mut r, if c == '_' { '-' } else { c });
        assert(hyphenated(stem@.subrange(0, i + 1)) =~= hyphenated(stem@.subrange(0, i as int)).push(
            if c == '_' { '-' } else { c },
        ));
        i = i + 1;
    }
    assert(stem@.subrange(0, n as int) =~= stem@);
    r
}

/// Name of the output file of the entry point whose base name is `stem`.
pub fn output_file_name(stem: &str) -> (r: String)
    ensures
        r@ == "fuzzerLogFile-"@ + hyphenated(stem@) + ".data"@,
{
    let mut r = String::from_str("fuzzerLogFile-");
    let h = harness_name(stem);
    r.append(h.as_str());
    r.append(".data");
    r
}

/// Text rendered for the top-level observations `calls[k..]` of an entry
/// point at `path`, sharing one visited set, and that set afterwards.
pub open spec fn render_calls(
    fs: Seq<FunctionInfo>,
    calls: Calls,
    k: int,
    path: Seq<char>,
    vis: Seq<bool>,
) -> (Seq<char>, Seq<bool>)
    decreases calls.len() - k,
{
    if k < 0 || k >= calls.len() {
        (Seq::empty(), vis)
    } else {
        let (s1, v1) = render_node(fs, calls[k].0, path, calls[k].1, vis, 0);
        let (s2, v2) = render_calls(fs, calls, k + 1, path, v1);
        (s1 + s2, v2)
    }
}

pub open spec fn header(path: Seq<char>) -> Seq<char> {
    "Call tree\n"@ + "fuzz_target "@ + path + " linenumber=-1\n"@
}

/// The whole output of one entry point: the header, the root line, then the
/// tree below each observation, nothing visited at the start.
pub open spec fn harness_text(fs: Seq<FunctionInfo>, path: Seq<char>, calls: Calls) -> Seq<char> {
    header(path) + render_calls(fs, calls, 0, path, Seq::new(fs.len(), |i: int| false)).0
}

/// An entry point with one observation of a name that an entry bears
/// exactly, an entry with no call sites, outputs the header and then exactly
/// one line for it.
pub proof fn lemma_single_call_output(fs: Seq<FunctionInfo>, path: Seq<char>, name: Seq<char>, line: int, i: int)
    requires
        names_unique(fs),
        0 <= i < fs.len(),
        fs[i].name@ == name,
        fs[i].callsites@.len() == 0,
    ensures
        harness_text(fs, path, seq![(name, line)]) == header(path) + tree_line(0, name, path, shown_line(line)),
{
    lemma_exact_match_wins(fs, name, i);
    let vis = Seq::new(fs.len(), |q: int| false);
    let calls: Calls = seq![(name, line)];
    let v1 = vis.update(i, true);
    assert(render_edges(fs, fs[i].callsites@, 0, v1, 1) == (Seq::<char>::empty(), v1));
    let (s1, w1) = render_node(fs, name, path, line, vis, 0);
    assert(s1 =~= tree_line(0, name, path, shown_line(line)));
    assert(render_calls(fs, calls, 1, path, w1).0 == Seq::<char>::empty());
    assert(render_calls(fs, calls, 0, path, vis).0 =~= s1);
}

/// An entry point with one observation of a name that resolves to no entry
/// outputs the header and then exactly one leaf line for it.
pub proof fn lemma_unresolved_output(fs: Seq<FunctionInfo>, path: Seq<char>, name: Seq<char>, line: int)
    requires
        resolve(fs, name) is None,
    ensures
        harness_text(fs, path, seq![(name, line)]) == header(path) + tree_line(0, name, path, shown_line(line)),
{
    let vis = Seq::new(fs.len(), |q: int| false);
    let calls: Calls = seq![(name, line)];
    let (s1, w1) = render_node(fs, name, path, line, vis, 0);
    assert(render_calls(fs, calls, 1, path, w1).0 == Seq::<char>::empty());
    assert(render_calls(fs, calls, 0, path, vis).0 =~= s1);
}

/// The visited set in force when observation `m` is rendered.
pub open spec fn visited_before(fs: Seq<FunctionInfo>, calls: Calls, m: int, path: Seq<char>, vis: Seq<bool>) -> Seq<bool>
    decreases m,
{
    if m <= 0 {
        vis
    } else {
        render_node(fs, calls[m - 1].0, path, calls[m - 1].1, visited_before(fs, calls, m - 1, path, vis), 0).1
    }
}

/// The text that observation `m` contributes to the output.
pub open spec fn piece(fs: Seq<FunctionInfo>, calls: Calls, m: int, path: Seq<char>, vis: Seq<bool>) -> Seq<char> {
    render_node(fs, calls[m].0, path, calls[m].1, visited_before(fs, calls, m, path, vis), 0).0
}

/// The pieces of observations `k..` in order.
pub open spec fn pieces_from(fs: Seq<FunctionInfo>, calls: Calls, k: int, path: Seq<char>, vis: Seq<bool>) -> Seq<char>
    decreases calls.len() - k,
{
    if k < 0 || k >= calls.len() {
        Seq::empty()
    } else {
        piece(fs, calls, k, path, vis) + pieces_from(fs, calls, k + 1, path, vis)
    }
}

proof fn lemma_render_calls_pieces(fs: Seq<FunctionInfo>, calls: Calls, k: int, path: Seq<char>, vis: Seq<bool>)
    requires
        0 <= k,
    ensures
        render_calls(fs, calls, k, path, visited_before(fs, calls, k, path, vis)).0 == pieces_from(fs, calls, k, path, vis),
    decreases calls.len() - k,
{
    if k < calls.len() {
        lemma_render_calls_pieces(fs, calls, k + 1, path, vis);
    }
}

proof fn lemma_visited_grows(fs: Seq<FunctionInfo>, calls: Calls, k: int, m: int, path: Seq<char>, vis: Seq<bool>)
    requires
        0 <= k <= m <= calls.len(),
    ensures
        visited_before(fs, calls, m, path, vis).len() == visited_before(fs, calls, k, path, vis).len(),
        forall|i: int| 0 <= i < visited_before(fs, calls, k, path, vis).len()
            && visited_before(fs, calls, k, path, vis)[i] ==> visited_before(fs, calls, m, path, vis)[i],
    decreases m - k,
{
    if k < m {
        lemma_visited_grows(fs, calls, k, m - 1, path, vis);
        let v = visited_before(fs, calls, m - 1, path, vis);
        lemma_render_monotone(fs, calls[m - 1].0, path, calls[m - 1].1, v, 0);
    }
}

/// An entry point's output is its header followed by one piece per
/// observation, and an observation that resolves to the same entry as an
/// earlier one contributes nothing. Together with `lemma_rendered_once`, which
/// covers repeats inside one piece, no resolved entry is printed on two lines
/// of one output.
pub proof fn lemma_one_line_per_entry(fs: Seq<FunctionInfo>, path: Seq<char>, calls: Calls, k: int, m: int)
    requires
        0 <= k < m < calls.len(),
        resolve(fs, calls[k].0) is Some,
        resolve(fs, calls[m].0) == resolve(fs, calls[k].0),
    ensures
        harness_text(fs, path, calls) == header(path) + pieces_from(fs, calls, 0, path, Seq::new(fs.len(), |q: int| false)),
        piece(fs, calls, m, path, Seq::new(fs.len(), |q: int| false)).len() == 0,
{
    let vis = Seq::new(fs.len(), |q: int| false);
    lemma_render_calls_pieces(fs, calls, 0, path, vis);
    lemma_visited_grows(fs, calls, 0, k, path, vis);
    lemma_visited_grows(fs, calls, k + 1, m, path, vis);
    let vk = visited_before(fs, calls, k, path, vis);
    let vm = visited_before(fs, calls, m, path, vis);
    lemma_render_monotone(fs, calls[k].0, path, calls[k].1, vk, 0);
    lemma_rendered_once(fs, calls[k].0, path, calls[k].1, vk, 0, calls[m].0, path, calls[m].1, vm, 0);
}

pub proof fn lemma_unvisited_len(v: Seq<bool>)
    ensures
        unvisited(v) <= v.len(),
    decreases v.len(),
{
    if v.len() > 0 {
        lemma_unvisited_len(v.drop_last());
    }
}

/// Renders the output file's text for the entry point at `fuzz_file` whose
/// post-processed observations are `called`.
pub fn render_harness(fuzz_file: &str, called: &Vec<(String, usize)>, function_map: &FunctionMap) -> (r: String)
    requires
        function_map.wf(),
        function_map.entries@.len() < usize::MAX,
        forall|k: int| 0 <= k < called@.len() ==> (#[trigger] called@[k]).1 <= i32::MAX,
    ensures
        r@ == harness_text(function_map.entries@, fuzz_file@, calls_view(called@)),
{
    let ghost fs = function_map.entries@;
    let ghost cv = calls_view(called@);
    let n = function_map.entries.len();
    let mut visited: Vec<bool> = Vec::new();
    let mut j: usize = 0;
    while j < n
        invariant
            n == fs.len(),
            0 <= j <= n,
            visited@ =~= Seq::new(j as nat, |i: int| false),
        decreases n - j,
    {
        visited.push(false);
        j = j + 1;
    }
    let mut out = String::from_str("Call tree\n");
    out.append("fuzz_target ");
    out.append(fuzz_file);
    out.append(" linenumber=-1\n");
    let ghost head = out@;
    let ghost total = render_calls(fs, cv, 0, fuzz_file@, visited@);
    let mut k: usize = 0;
    while k < called.len()
        invariant
            function_map.wf(),
            fs == function_map.entries@,
            fs.len() < usize::MAX,
            cv == calls_view(called@),
            forall|q: int| 0 <= q < called@.len() ==> (#[trigger] called@[q]).1 <= i32::MAX,
            0 <= k <= cv.len(),
            visited@.len() == fs.len(),
            head.len() <= out@.len(),
            out@.subrange(0, head.len() as int) == head,
            ({
                let (sk, vk) = render_calls(fs, cv, k as int, fuzz_file@, visited@);
                total.0 == out@.subrange(head.len() as int, out@.len() as int) + sk
            }),
        decreases cv.len() - k,
    {
        let ghost vk = visited@;
        let ghost ok = out@;
        let name = &called[k].0;
        let line = called[k].1 as i32;
        assert(cv[k as int] == (name@, line as int));
        proof {
            lemma_unvisited_len(vk);
        }
        let sub = build_call_tree(name.as_str(), function_map, fuzz_file, line, &mut visited, 0);
        if let Some(t) = sub {
            out.append(t.as_str());
        }
        proof {
            let (s1, v1) = render_node(fs, name@, fuzz_file@, line as int, vk, 0);
            lemma_render_monotone(fs, name@, fuzz_file@, line as int, vk, 0);
            assert(out@ =~= ok + s1);
            assert(out@.subrange(head.len() as int, out@.len() as int)
                =~= ok.subrange(head.len() as int, ok.len() as int) + s1);
            assert(out@.subrange(0, head.len() as int) =~= ok.subrange(0, head.len() as int));
        }
        k = k + 1;
    }
    proof {
        assert(out@ =~= head + total.0);
        assert(visited@.len() == fs.len());
    }
    out
}

/// The catalog record standing for an entry point: named `fuzz_target`, in
/// `fuzz_file`, with one call site per observation.
pub fn harness_record(fuzz_file: &str, called: &Vec<(String, usize)>) -> (r: FunctionInfo)
    ensures
        r.name@ == "fuzz_target"@,
        r.file@ == fuzz_file@,
        r.return_type@ == Seq::<char>::empty(),
        r.arg_count == 0,
        r.arg_names@.len() == 0,
        r.arg_types@.len() == 0,
        r.called_functions@.len() == called@.len(),
        r.callsites@.len() == called@.len(),
        forall|k: int| 0 <= k < called@.len() ==> (#[trigger] r.called_functions@[k])@ == called@[k].0@,
        forall|k: int| 0 <= k < called@.len() ==> (#[trigger] r.callsites@[k]).src@ == fuzz_file@
            && r.callsites@[k].dst@ == called@[k].0@,
{
    let mut names: Vec<String> = Vec::new();
    let mut sites: Vec<CallSite> = Vec::new();
    let mut k: usize = 0;
    while k < called.len()
        invariant
            0 <= k <= called@.len(),
            names@.len() == k,
            sites@.len() == k,
            forall|q: int| 0 <= q < k ==> (#[trigger] names@[q])@ == called@[q].0@,
            forall|q: int| 0 <= q < k ==> (#[trigger] sites@[q]).src@ == fuzz_file@
                && sites@[q].dst@ == called@[q].0@,
        decreases called@.len() - k,
    {
        names.push(called[k].0.clone());
        sites.push(CallSite { src: String::from_str(fuzz_file), dst: called[k].0.clone() });
        k = k + 1;
    }
    FunctionInfo {
        name: String::from_str("fuzz_target"),
        file: String::from_str(fuzz_file),
        return_type: String::new(),
        arg_count: 0,
        arg_names: Vec::new(),
        arg_types: Vec::new(),
        called_functions: names,
        callsites: sites,
    }
}

} // verus!
