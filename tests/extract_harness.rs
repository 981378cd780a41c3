use call_tree::catalog::{CallSite, FunctionInfo, FunctionMap};
use call_tree::extract::{
    dedup_sort_calls, extract_called_functions, post_process_called_functions, FuzzTargetVisitor, Node,
};
use call_tree::harness::{contains_trigger, harness_name, harness_record, output_file_name, render_harness};

fn record(name: &str, ret: &str, sites: &[(&str, &str)]) -> FunctionInfo {
    FunctionInfo {
        name: name.to_string(),
        file: "src/lib.rs".to_string(),
        return_type: ret.to_string(),
        arg_count: 0,
        arg_names: Vec::new(),
        arg_types: Vec::new(),
        called_functions: sites.iter().map(|(_, d)| d.to_string()).collect(),
        callsites: sites
            .iter()
            .map(|(s, d)| CallSite { src: s.to_string(), dst: d.to_string() })
            .collect(),
    }
}

fn calls(items: &[(&str, usize)]) -> Vec<(String, usize)> {
    items.iter().map(|(n, l)| (n.to_string(), *l)).collect()
}

fn path(name: &str) -> Node {
    Node::Path { last: name.to_string() }
}

fn call(name: &str, line: usize, args: Vec<Node>) -> Node {
    Node::Call { name: Some(name.to_string()), line, args }
}

fn method(m: &str, line: usize, receiver: Node, args: Vec<Node>) -> Node {
    Node::MethodCall { method: m.to_string(), line, receiver: Box::new(receiver), args }
}

fn trigger(body: Node) -> Node {
    Node::Macro { name: "fuzz_target".to_string(), body: Some(Box::new(body)) }
}

fn extract(macros: &Vec<Node>, functions: Vec<FunctionInfo>) -> Vec<(String, usize)> {
    let mut visitor = FuzzTargetVisitor::new(functions);
    extract_called_functions(macros, &mut visitor).unwrap()
}

#[test]
fn trigger_detection() {
    assert!(contains_trigger("use x;\nfuzz_target!(|data: &[u8]| { foo(data); });"));
    assert!(contains_trigger("// fuzz_target!"));
    assert!(!contains_trigger("fn main() { fuzz_target(1); }"));
    assert!(!contains_trigger(""));
}

#[test]
fn harness_file_naming() {
    assert_eq!(harness_name("my_fuzz_target"), "my-fuzz-target");
    assert_eq!(output_file_name("my_fuzz_target"), "fuzzerLogFile-my-fuzz-target.data");
    assert_eq!(output_file_name("plain"), "fuzzerLogFile-plain.data");
}

#[test]
fn observations_dedup_and_sort() {
    let out = dedup_sort_calls(&calls(&[("b", 7), ("a", 3), ("b", 7), ("c", 5), ("a", 3), ("a", 9)]));
    assert_eq!(out, calls(&[("a", 3), ("c", 5), ("b", 7), ("a", 9)]));
    assert!(dedup_sort_calls(&Vec::new()).is_empty());
}

#[test]
fn qualification_backfill() {
    let out = post_process_called_functions(calls(&[("Mod::foo", 3), ("bar", 7)]));
    assert_eq!(out, calls(&[("Mod::foo", 3), ("Mod::bar", 7)]));
}

#[test]
fn backfill_keeps_leading_unqualified_and_follows_latest() {
    let out = post_process_called_functions(calls(&[
        ("first", 1),
        ("A::B::x", 2),
        ("y", 3),
        ("C::z", 4),
        ("w", 5),
    ]));
    assert_eq!(out, calls(&[("first", 1), ("A::B::x", 2), ("A::B::y", 3), ("C::z", 4), ("C::w", 5)]));
}

#[test]
fn extraction_of_simple_body() {
    let body = Node::Group { items: vec![call("foo", 2, vec![path("data")])] };
    let macros = vec![trigger(body)];
    let out = extract(&macros, vec![record("foo", "", &[])]);
    assert_eq!(out, calls(&[("foo", 2)]));
}

#[test]
fn extraction_ignores_other_macros() {
    let macros = vec![
        Node::Macro { name: "println".to_string(), body: Some(Box::new(call("hidden", 1, vec![]))) },
        trigger(call("seen", 4, vec![])),
    ];
    assert_eq!(extract(&macros, Vec::new()), calls(&[("seen", 4)]));
}

#[test]
fn unparsed_entry_point_argument_fails() {
    let macros = vec![
        trigger(call("fine", 1, vec![])),
        Node::Macro { name: "fuzz_target".to_string(), body: None },
    ];
    let mut visitor = FuzzTargetVisitor::new(Vec::new());
    assert!(extract_called_functions(&macros, &mut visitor).is_none());
    assert!(visitor.called_functions.is_empty());
}

#[test]
fn unparsed_nested_macro_is_skipped() {
    let body = Node::Group {
        items: vec![
            Node::Macro { name: "println".to_string(), body: None },
            call("after", 3, vec![]),
        ],
    };
    let macros = vec![Node::Macro { name: "other".to_string(), body: None }, trigger(body)];
    assert_eq!(extract(&macros, Vec::new()), calls(&[("after", 3)]));
}

#[test]
fn call_through_non_path_callee_records_arguments_only() {
    let body = Node::Call { name: None, line: 2, args: vec![call("inner", 2, vec![])] };
    assert_eq!(extract(&vec![trigger(body)], Vec::new()), calls(&[("inner", 2)]));
}

#[test]
fn receiver_types_from_bindings_and_chains() {
    let body = Node::Group {
        items: vec![
            Node::Let { var: Some("p".to_string()), init: Some(Box::new(call("Parser::new", 2, vec![]))) },
            Node::Let {
                var: Some("t".to_string()),
                init: Some(Box::new(method("tokens", 3, path("x"), vec![]))),
            },
            Node::Let {
                var: Some("r".to_string()),
                init: Some(Box::new(method("build", 4, path("b"), vec![]))),
            },
            method("check", 6, method("first", 5, path("r"), vec![]), vec![]),
            method("other", 7, path("q"), vec![call("nested", 8, vec![])]),
        ],
    };
    let functions = vec![
        record("Builder::build", "Tree", &[]),
        record("Tree::first", "Node", &[]),
        record("Node::check", "", &[]),
    ];
    let mut visitor = FuzzTargetVisitor::new(functions);
    visitor.variable_types.push(("b".to_string(), "Builder".to_string()));
    let out = extract_called_functions(&vec![trigger(body)], &mut visitor).unwrap();
    assert_eq!(
        out,
        calls(&[
            ("Parser::new", 2),
            ("Parser::tokens", 3),
            ("Builder::build", 4),
            ("Tree::first", 5),
            ("Node::check", 6),
            ("Node::other", 7),
            ("Node::nested", 8),
        ])
    );
}

#[test]
fn lookup_of_return_types() {
    let visitor = FuzzTargetVisitor::new(vec![record("Tree::first", "Node", &[])]);
    assert_eq!(visitor.lookup_function_return_type("first"), Some("Node".to_string()));
    assert_eq!(visitor.lookup_function_return_type("zz"), None);
}

#[test]
fn harness_output_single_call() {
    let map = FunctionMap::from_records(vec![record("foo", "", &[])]);
    let text = render_harness("fuzz/targets/t.rs", &calls(&[("foo", 3)]), &map);
    assert_eq!(text, "Call tree\nfuzz_target fuzz/targets/t.rs linenumber=-1\n  foo fuzz/targets/t.rs linenumber=3\n");
}

#[test]
fn harness_output_unknown_callee() {
    let map = FunctionMap::from_records(Vec::new());
    let text = render_harness("h.rs", &calls(&[("unknown_fn", 2)]), &map);
    assert_eq!(text, "Call tree\nfuzz_target h.rs linenumber=-1\n  unknown_fn h.rs linenumber=2\n");
}

#[test]
fn harness_output_shared_visited_set() {
    let map = FunctionMap::from_records(vec![
        record("a", "", &[("s.rs,10", "shared")]),
        record("b", "", &[("s.rs,20", "shared")]),
        record("shared", "", &[]),
    ]);
    let text = render_harness("h.rs", &calls(&[("a", 1), ("b", 2), ("a", 3)]), &map);
    assert_eq!(
        text,
        "Call tree\nfuzz_target h.rs linenumber=-1\n  a h.rs linenumber=1\n    shared s.rs linenumber=10\n  b h.rs linenumber=2\n"
    );
    assert_eq!(text.matches("shared").count(), 1);
}

#[test]
fn harness_record_fields() {
    let r = harness_record("h.rs", &calls(&[("foo", 1), ("Mod::bar", 4)]));
    assert_eq!(r.name, "fuzz_target");
    assert_eq!(r.file, "h.rs");
    assert_eq!(r.called_functions, vec!["foo".to_string(), "Mod::bar".to_string()]);
    assert_eq!(r.callsites.len(), 2);
    assert_eq!(r.callsites[1].src, "h.rs");
    assert_eq!(r.callsites[1].dst, "Mod::bar");
}
