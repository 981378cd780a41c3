use call_tree::catalog::{find_function, CallSite, FunctionInfo, FunctionMap};
use call_tree::render::build_call_tree;
use call_tree::text::{parse_i32, push_decimal, remove_spaces, split_origin, str_contains, str_ends_with};

fn record(name: &str, ret: &str, sites: &[(&str, &str)]) -> FunctionInfo {
    FunctionInfo {
        name: name.to_string(),
        file: "src/lib.rs".to_string(),
        return_type: ret.to_string(),
        arg_count: 0,
        arg_names: Vec::new(),
        arg_types: Vec::new(),
        called_functions: sites.iter().map(|(_, d)| d.to_string()).collect(),
        callsites: sites
            .iter()
            .map(|(s, d)| CallSite { src: s.to_string(), dst: d.to_string() })
            .collect(),
    }
}

fn render(name: &str, map: &FunctionMap, path: &str, line: i32) -> Option<String> {
    let mut visited = vec![false; map.entries.len()];
    build_call_tree(name, map, path, line, &mut visited, 0)
}

#[test]
fn parse_i32_accepts_signs_and_digits() {
    assert_eq!(parse_i32("42"), Some(42));
    assert_eq!(parse_i32("+7"), Some(7));
    assert_eq!(parse_i32("-15"), Some(-15));
    assert_eq!(parse_i32("2147483647"), Some(i32::MAX));
    assert_eq!(parse_i32("-2147483648"), Some(i32::MIN));
}

#[test]
fn parse_i32_rejects_malformed() {
    assert_eq!(parse_i32(""), None);
    assert_eq!(parse_i32("-"), None);
    assert_eq!(parse_i32("12a"), None);
    assert_eq!(parse_i32(" 1"), None);
    assert_eq!(parse_i32("2147483648"), None);
    assert_eq!(parse_i32("99999999999999999999"), None);
}

#[test]
fn decimal_rendering() {
    let mut s = String::from("n=");
    push_decimal(&mut s, -1);
    push_decimal(&mut s, 0);
    push_decimal(&mut s, 1234);
    push_decimal(&mut s, i32::MIN);
    assert_eq!(s, "n=-101234-2147483648");
}

#[test]
fn origin_splitting() {
    let (p, l) = split_origin("src/a.rs,17").unwrap();
    assert_eq!(p, "src/a.rs");
    assert_eq!(l, 17);
    let (p, l) = split_origin("src/a.rs,x,3").unwrap();
    assert_eq!(p, "src/a.rs");
    assert_eq!(l, -1);
    let (p, l) = split_origin("b.rs,9,3").unwrap();
    assert_eq!(p, "b.rs");
    assert_eq!(l, 9);
    assert!(split_origin("no-comma").is_none());
}

#[test]
fn text_helpers() {
    assert_eq!(remove_spaces(" a b  c "), "abc");
    assert!(str_contains("xx fuzz_target! {", "fuzz_target!"));
    assert!(!str_contains("fuzz_target", "fuzz_target!"));
    assert!(str_ends_with("crate::m::foo", "m::foo"));
    assert!(!str_ends_with("foo", "m::foo"));
}

#[test]
fn catalog_keeps_last_record_of_a_name() {
    let map = FunctionMap::from_records(vec![
        record("foo", "A", &[]),
        record("bar", "", &[]),
        record("foo", "B", &[]),
    ]);
    assert_eq!(map.entries.len(), 2);
    let f = find_function("foo", &map).unwrap();
    assert_eq!(f.return_type, "B");
}

#[test]
fn resolver_exact_suffix_and_stripped() {
    let map = FunctionMap::from_records(vec![
        record("crate::Parser::parse", "", &[]),
        record("helper", "", &[]),
    ]);
    assert_eq!(find_function("helper", &map).unwrap().name, "helper");
    assert_eq!(find_function("Parser::parse", &map).unwrap().name, "crate::Parser::parse");
    assert_eq!(find_function("other::mod::helper", &map).unwrap().name, "helper");
    assert!(find_function("missing", &map).is_none());
}

#[test]
fn resolver_is_deterministic() {
    let map = FunctionMap::from_records(vec![record("a::run", "", &[]), record("b::run", "", &[])]);
    let first = find_function("x::a::run", &map).unwrap().name.clone();
    for _ in 0..3 {
        assert_eq!(find_function("x::a::run", &map).unwrap().name, first);
    }
    assert_eq!(first, "a::run");
    assert!(find_function("run", &map).is_some());
}

#[test]
fn single_call_renders_one_line() {
    let map = FunctionMap::from_records(vec![record("foo", "", &[])]);
    let out = render("foo", &map, "fuzz/f.rs", 4).unwrap();
    assert_eq!(out, "  foo fuzz/f.rs linenumber=4\n");
}

#[test]
fn line_zero_renders_as_minus_one() {
    let map = FunctionMap::from_records(vec![record("foo", "", &[])]);
    assert_eq!(render("foo", &map, "p.rs", 0).unwrap(), "  foo p.rs linenumber=-1\n");
    assert_eq!(render("foo", &map, "p.rs", 5).unwrap(), "  foo p.rs linenumber=5\n");
    assert_eq!(render("zzz", &map, "p.rs", -7).unwrap(), "  zzz p.rs linenumber=-7\n");
}

#[test]
fn unresolved_name_is_a_leaf() {
    let map = FunctionMap::from_records(vec![record("foo", "", &[("a.rs,1", "bar")])]);
    let out = render("unknown_fn", &map, "fuzz/t.rs", 3).unwrap();
    assert_eq!(out, "  unknown_fn fuzz/t.rs linenumber=3\n");
}

#[test]
fn nested_edges_and_spaces() {
    let map = FunctionMap::from_records(vec![
        record("top", "", &[("src/a.rs,10", "mid"), ("bad-origin", "skipped"), ("src/a.rs,0", "ext fn")]),
        record("mid", "", &[("src/b.rs,x", "leaf")]),
        record("leaf", "", &[]),
    ]);
    let out = render("top", &map, "h.rs", 2).unwrap();
    assert_eq!(
        out,
        "  top h.rs linenumber=2\n    mid src/a.rs linenumber=10\n      leaf src/b.rs linenumber=-1\n    extfn src/a.rs linenumber=-1\n"
    );
}

#[test]
fn cycles_and_diamonds_are_pruned() {
    let map = FunctionMap::from_records(vec![
        record("a", "", &[("x.rs,1", "b"), ("x.rs,2", "c")]),
        record("b", "", &[("x.rs,3", "d"), ("x.rs,4", "a")]),
        record("c", "", &[("x.rs,5", "d")]),
        record("d", "", &[]),
    ]);
    let mut visited = vec![false; map.entries.len()];
    let out = build_call_tree("a", &map, "h.rs", 1, &mut visited, 0).unwrap();
    assert_eq!(
        out,
        "  a h.rs linenumber=1\n    b x.rs linenumber=1\n      d x.rs linenumber=3\n    c x.rs linenumber=2\n"
    );
    assert!(visited.iter().all(|v| *v));
    assert!(build_call_tree("d", &map, "h.rs", 9, &mut visited, 0).is_none());
}
