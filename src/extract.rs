//! Collecting the calls made inside an entry point's macro argument, with a
//! single-hop inference of method receivers' types.
use vstd::prelude::*;
use vstd::string::*;
use crate::catalog::{resolve, FunctionInfo, FunctionMap};
use crate::text::{last_sep, rfind_sep, sub_string};

verus! {

/// The expression forms that the call walk tells apart.
pub enum Node {
    /// A call: when the callee is a simple path, its segments joined by
    /// `::` (`None` for any other callee), the callee's line, and the
    /// arguments.
    Call { name: Option<String>, line: usize, args: Vec<Node> },
    /// A method call: the method's name and line, the receiver, the
    /// arguments.
    MethodCall { method: String, line: usize, receiver: Box<Node>, args: Vec<Node> },
    /// A path used as a value; `last` is its final segment.
    Path { last: String },
    /// A local declaration: the bound name when the pattern is a plain
    /// identifier, and the initializer.
    Let { var: Option<String>, init: Option<Box<Node>> },
    /// A macro invocation: its path's final segment, and its body when that
    /// parses as one expression.
    Macro { name: String, body: Option<Box<Node>> },
    /// Any other construct, with its sub-expressions in source order.
    Group { items: Vec<Node> },
}

pub type Calls = Seq<(Seq<char>, int)>;

pub type Bindings = Seq<(Seq<char>, Seq<char>)>;

pub open spec fn calls_view(v: Seq<(String, usize)>) -> Calls {
    v.map_values(|p: (String, usize)| (p.0@, p.1 as int))
}

pub open spec fn bindings_view(v: Seq<(String, String)>) -> Bindings {
    v.map_values(|p: (String, String)| (p.0@, p.1@))
}

pub open spec fn opt_view(o: Option<String>) -> Option<Seq<char>> {
    match o {
        Some(s) => Some(s@),
        None => None,
    }
}

/// The type most recently bound to `name`.
pub open spec fn binding_of(b: Bindings, name: Seq<char>) -> Option<Seq<char>>
    decreases b.len(),
{
    if b.len() == 0 {
        None
    } else if b.last().0 == name {
        Some(b.last().1)
    } else {
        binding_of(b.drop_last(), name)
    }
}

/// `method` qualified by the receiver's type, when it is known.
pub open spec fn qualify(t: Option<Seq<char>>, method: Seq<char>) -> Seq<char> {
    match t {
        Some(t) => t + seq![':', ':'] + method,
        None => method,
    }
}

/// Declared return type of the entry that `name` resolves to.
pub open spec fn return_type_of(fs: Seq<FunctionInfo>, name: Seq<char>) -> Option<Seq<char>> {
    match resolve(fs, name) {
        Some(i) => Some(fs[i].return_type@),
        None => None,
    }
}

/// Type of a method call's receiver: a variable's binding, or the return
/// type of a chained method call resolved in the catalog.
pub open spec fn receiver_type(fs: Seq<FunctionInfo>, b: Bindings, node: Node) -> Option<Seq<char>>
    decreases node,
{
    match node {
        Node::Path { last } => binding_of(b, last@),
        Node::MethodCall { method, receiver, .. } => return_type_of(
            fs,
            qualify(receiver_type(fs, b, *receiver), method@),
        ),
        _ => None,
    }
}

/// The calls recorded and the bindings made while walking `node`, in order.
pub open spec fn walk(fs: Seq<FunctionInfo>, node: Node, calls: Calls, b: Bindings) -> (Calls, Bindings)
    decreases node,
{
    match node {
        Node::Call { name, line, args } => match name {
            Some(n) => walk_list(fs, args@, calls.push((n@, line as int)), b),
            None => walk_list(fs, args@, calls, b),
        },
        Node::MethodCall { method, line, receiver, args } => {
            let q = qualify(receiver_type(fs, b, *receiver), method@);
            let (c1, b1) = walk(fs, *receiver, calls.push((q, line as int)), b);
            walk_list(fs, args@, c1, b1)
        },
        Node::Path { .. } => (calls, b),
        Node::Let { var, init } => match init {
            None => (calls, b),
            Some(e) => {
                let t = receiver_type(fs, b, *e);
                let (c1, b1) = walk(fs, *e, calls, b);
                match (var, t) {
                    (Some(n), Some(t)) => (c1, b1.push((n@, t))),
                    _ => (c1, b1),
                }
            },
        },
        Node::Macro { body, .. } => match body {
            Some(e) => walk(fs, *e, calls, b),
            None => (calls, b),
        },
        Node::Group { items } => walk_list(fs, items@, calls, b),
    }
}

pub open spec fn walk_list(fs: Seq<FunctionInfo>, items: Seq<Node>, calls: Calls, b: Bindings) -> (Calls, Bindings)
    decreases items,
{
    if items.len() == 0 {
        (calls, b)
    } else {
        let (c1, b1) = walk(fs, items[0], calls, b);
        walk_list(fs, items.drop_first(), c1, b1)
    }
}


/// State of one walk over an entry point: the calls recorded so far, the
/// catalog, and the inferred types of local variables.
pub struct FuzzTargetVisitor {
    pub called_functions: Vec<(String, usize)>,
    pub function_info: FunctionMap,
    pub variable_types: Vec<(String, String)>,
}

impl FuzzTargetVisitor {
    pub open spec fn wf(&self) -> bool {
        self.function_info.wf()
    }

    pub open spec fn calls(&self) -> Calls {
        calls_view(self.called_functions@)
    }

    pub open spec fn bindings(&self) -> Bindings {
        bindings_view(self.variable_types@)
    }

    pub open spec fn catalog(&self) -> Seq<FunctionInfo> {
        self.function_info.entries@
    }

    /// A fresh walk over the catalog built from `function_info`.
    pub fn new(function_info: Vec<FunctionInfo>) -> (v: Self)
        ensures
            v.wf(),
            v.calls() == Seq::<(Seq<char>, int)>::empty(),
            v.bindings() == Seq::<(Seq<char>, Seq<char>)>::empty(),
            forall|i: int| 0 <= i < v.catalog().len() ==> crate::catalog::kept_from(function_info@, #[trigger] v.catalog()[i]),
            forall|j: int| 0 <= j < function_info@.len() ==> crate::catalog::has_name(v.catalog(), (#[trigger] function_info@[j]).name@),
    {
        let v = FuzzTargetVisitor {
            called_functions: Vec::new(),
            function_info: FunctionMap::from_records(function_info),
            variable_types: Vec::new(),
        };
        assert(v.calls() =~= Seq::<(Seq<char>, int)>::empty());
        assert(v.bindings() =~= Seq::<(Seq<char>, Seq<char>)>::empty());
        v
    }

    /// The type most recently bound to the variable `name`.
    pub fn variable_type(&self, name: &String) -> (r: Option<String>)
        ensures
            opt_view(r) == binding_of(self.bindings(), name@),
    {
        let ghost b = self.bindings();
        let mut k: usize = self.variable_types.len();
        assert(b.subrange(0, k as int) =~= b);
        while k > 0
            invariant
                0 <= k <= self.variable_types@.len(),
                b == self.bindings(),
                b.len() == self.variable_types@.len(),
                binding_of(b, name@) == binding_of(b.subrange(0, k as int), name@),
            decreases k,
        {
            let ghost bk = b.subrange(0, k as int);
            assert(bk.drop_last() =~= b.subrange(0, k - 1));
            assert(bk.last() == b[k - 1]);
            if self.variable_types[k - 1].0 == *name {
                return Some(self.variable_types[k - 1].1.clone());
            }
            k = k - 1;
        }
        None
    }

    /// Declared return type of the catalog entry that `method_name` resolves to.
    pub fn lookup_function_return_type(&self, method_name: &str) -> (r: Option<String>)
        requires
            self.wf(),
        ensures
            opt_view(r) == return_type_of(self.catalog(), method_name@),
    {
        match self.function_info.resolve_index(method_name) {
            Some(i) => Some(self.function_info.entries[i].return_type.clone()),
            None => None,
        }
    }

    /// Inferred type of a method call's receiver.
    pub fn extract_receiver_type(&self, receiver: &Node) -> (r: Option<String>)
        requires
            self.wf(),
        ensures
            opt_view(r) == receiver_type(self.catalog(), self.bindings(), *receiver),
        decreases receiver,
    {
        match receiver {
            Node::Path { last } => self.variable_type(last),
            Node::MethodCall { method, receiver: inner, .. } => {
                let t = self.extract_receiver_type(inner);
                let name = qualified_name(t, method);
                self.lookup_function_return_type(name.as_str())
            },
            _ => None,
        }
    }

    /// Walks `node`, recording its calls and local bindings.
    pub fn visit_expr(&mut self, node: &Node)
        requires
            old(self).wf(),
        ensures
            final(self).function_info == old(self).function_info,
            (final(self).calls(), final(self).bindings()) == walk(
                old(self).catalog(),
                *node,
                old(self).calls(),
                old(self).bindings(),
            ),
        decreases node, 1nat,
    {
        match node {
            Node::Call { .. } => self.visit_expr_call(node),
            Node::MethodCall { .. } => self.visit_expr_method_call(node),
            Node::Path { .. } => {},
            Node::Let { .. } => self.visit_local(node),
            Node::Macro { body, .. } => {
                if let Some(e) = body {
                    self.visit_expr(e);
                }
            },
            Node::Group { items } => {
                self.visit_list(items);
            },
        }
    }

    /// Records a call whose callee is a simple path, then walks its arguments.
    pub fn visit_expr_call(&mut self, node: &Node)
        requires
            old(self).wf(),
            node is Call,
        ensures
            final(self).function_info == old(self).function_info,
            (final(self).calls(), final(self).bindings()) == walk(
                old(self).catalog(),
                *node,
                old(self).calls(),
                old(self).bindings(),
            ),
        decreases node, 0nat,
    {
        if let Node::Call { name, line, args } = node {
            if let Some(n) = name {
                let ghost c0 = self.calls();
                self.called_functions.push((n.clone(), *line));
                assert(self.calls() =~= c0.push((n@, *line as int)));
            }
            self.visit_list(args);
        }
    }

    /// Records a method call, qualified by its receiver's inferred type when
    /// known, then walks the receiver and the arguments.
    pub fn visit_expr_method_call(&mut self, node: &Node)
        requires
            old(self).wf(),
            node is MethodCall,
        ensures
            final(self).function_info == old(self).function_info,
            (final(self).calls(), final(self).bindings()) == walk(
                old(self).catalog(),
                *node,
                old(self).calls(),
                old(self).bindings(),
            ),
        decreases node, 0nat,
    {
        if let Node::MethodCall { method, line, receiver, args } = node {
            let ghost c0 = self.calls();
            let t = self.extract_receiver_type(receiver);
            let q = qualified_name(t, method);
            let ghost qv = q@;
            self.called_functions.push((q, *line));
            assert(self.calls() =~= c0.push((qv, *line as int)));
            self.visit_expr(receiver);
            self.visit_list(args);
        }
    }

    /// Walks a local declaration's initializer, and binds the variable to
    /// the initializer's inferred type when there is one.
    pub fn visit_local(&mut self, node: &Node)
        requires
            old(self).wf(),
            node is Let,
        ensures
            final(self).function_info == old(self).function_info,
            (final(self).calls(), final(self).bindings()) == walk(
                old(self).catalog(),
                *node,
                old(self).calls(),
                old(self).bindings(),
            ),
        decreases node, 0nat,
    {
        if let Node::Let { var, init } = node {
            if let Some(e) = init {
                let t = self.extract_receiver_type(e);
                self.visit_expr(e);
                if let Some(n) = var {
                    if let Some(ty) = t {
                        let ghost b0 = self.bindings();
                        let ghost tv = ty@;
                        self.variable_types.push((n.clone(), ty));
                        assert(self.bindings() =~= b0.push((n@, tv)));
                    }
                }
            }
        }
    }

    /// Walks each of `items` in order.
    pub fn visit_list(&mut self, items: &Vec<Node>)
        requires
            old(self).wf(),
        ensures
            final(self).function_info == old(self).function_info,
            (final(self).calls(), final(self).bindings()) == walk_list(
                old(self).catalog(),
                items@,
                old(self).calls(),
                old(self).bindings(),
            ),
        decreases items, 0nat,
    {
        let ghost fs = self.catalog();
        let ghost total = walk_list(fs, items@, self.calls(), self.bindings());
        let mut k: usize = 0;
        assert(items@.subrange(0, items@.len() as int) =~= items@);
        while k < items.len()
            invariant
                self.wf(),
                self.function_info == old(self).function_info,
                fs == self.catalog(),
                0 <= k <= items@.len(),
                total == walk_list(fs, items@.subrange(k as int, items@.len() as int), self.calls(), self.bindings()),
            decreases items@.len() - k,
        {
            let ghost rest = items@.subrange(k as int, items@.len() as int);
            assert(rest.drop_first() =~= items@.subrange(k + 1, items@.len() as int));
            assert(rest[0] == items@[k as int]);
            self.visit_expr(&items[k]);
            k = k + 1;
        }
        assert(items@.subrange(k as int, items@.len() as int) =~= Seq::<Node>::empty());
    }
}

/// `method` qualified by the receiver type `t`, when there is one.
pub fn qualified_name(t: Option<String>, method: &String) -> (r: String)
    ensures
        r@ == qualify(opt_view(t), method@),
{
    match t {
        Some(ty) => {
            let mut r = ty;
            r.append("::");
            r.append(method.as_str());
            proof {
                reveal_strlit("::");
            }
            assert(r@ =~= qualify(opt_view(Some(ty)), method@));
            r
        },
        None => method.clone(),
    }
}


/// The walk over an entry point's macro argument: the body of a macro named
/// `fuzz_target`; any other node adds nothing.
pub open spec fn macro_walk(fs: Seq<FunctionInfo>, node: Node, calls: Calls, b: Bindings) -> (Calls, Bindings) {
    match node {
        Node::Macro { name, body: Some(e) } => if name@ == "fuzz_target"@ {
            walk(fs, *e, calls, b)
        } else {
            (calls, b)
        },
        _ => (calls, b),
    }
}

/// The walk over each macro invocation of a file, in order.
pub open spec fn file_walk(fs: Seq<FunctionInfo>, macros: Seq<Node>, calls: Calls, b: Bindings) -> (Calls, Bindings)
    decreases macros.len(),
{
    if macros.len() == 0 {
        (calls, b)
    } else {
        let (c1, b1) = macro_walk(fs, macros[0], calls, b);
        file_walk(fs, macros.drop_first(), c1, b1)
    }
}

pub open spec fn sorted_by_line(s: Calls) -> bool {
    forall|i: int, j: int| 0 <= i < j < s.len() ==> s[i].1 <= s[j].1
}

pub open spec fn no_dups(s: Calls) -> bool {
    forall|i: int, j: int| 0 <= i < j < s.len() ==> s[i] != s[j]
}

/// `d` holds the observations of `s` once each, ascending by line.
pub open spec fn is_dedup_sorted(d: Calls, s: Calls) -> bool {
    sorted_by_line(d) && no_dups(d) && forall|x: (Seq<char>, int)| d.contains(x) <==> s.contains(x)
}

/// The qualifier in force at position `k`: what precedes the last `::` of
/// the latest name before `k` that has one.
pub open spec fn qualifier_before(s: Calls, k: int) -> Option<Seq<char>>
    decreases k,
{
    if k <= 0 {
        None
    } else {
        match last_sep(s[k - 1].0) {
            Some(p) => Some(s[k - 1].0.subrange(0, p)),
            None => qualifier_before(s, k - 1),
        }
    }
}

/// Observation `k` after back-fill: a name without `::` gets the qualifier in
/// force prefixed, when there is one.
pub open spec fn backfilled(s: Calls, k: int) -> (Seq<char>, int) {
    match last_sep(s[k].0) {
        Some(_) => s[k],
        None => match qualifier_before(s, k) {
            Some(q) => (q + seq![':', ':'] + s[k].0, s[k].1),
            None => s[k],
        },
    }
}

/// Identical observations collapse: a duplicate-free, sorted rearrangement
/// of `s` holds exactly as many observations as `s` has distinct ones.
pub proof fn lemma_dedup_count(d: Calls, s: Calls)
    requires
        is_dedup_sorted(d, s),
    ensures
        d.len() == s.to_set().len(),
{
    assert(d.no_duplicates()) by {
        assert forall|i: int, j: int| 0 <= i < d.len() && 0 <= j < d.len() && i != j implies d[i] != d[j] by {
            if i > j {
                assert(d[j] != d[i]);
            }
        }
    }
    d.unique_seq_to_set();
    assert(d.to_set() =~= s.to_set());
}

impl FuzzTargetVisitor {
    /// Walks the argument of `mac` when it is the entry-point macro.
    pub fn visit_macro(&mut self, mac: &Node)
        requires
            old(self).wf(),
        ensures
            final(self).function_info == old(self).function_info,
            (final(self).calls(), final(self).bindings()) == macro_walk(
                old(self).catalog(),
                *mac,
                old(self).calls(),
                old(self).bindings(),
            ),
    {
        if let Node::Macro { name, body: Some(e) } = mac {
            let trigger = String::from_str("fuzz_target");
            if *name == trigger {
                self.visit_expr(e);
            }
        }
    }

    /// Walks every macro invocation of a file, in order.
    pub fn visit_file(&mut self, macros: &Vec<Node>)
        requires
            old(self).wf(),
        ensures
            final(self).function_info == old(self).function_info,
            (final(self).calls(), final(self).bindings()) == file_walk(
                old(self).catalog(),
                macros@,
                old(self).calls(),
                old(self).bindings(),
            ),
    {
        let ghost fs = self.catalog();
        let ghost total = file_walk(fs, macros@, self.calls(), self.bindings());
        let mut k: usize = 0;
        assert(macros@.subrange(0, macros@.len() as int) =~= macros@);
        while k < macros.len()
            invariant
                self.wf(),
                self.function_info == old(self).function_info,
                fs == self.catalog(),
                0 <= k <= macros@.len(),
                total == file_walk(fs, macros@.subrange(k as int, macros@.len() as int), self.calls(), self.bindings()),
            decreases macros@.len() - k,
        {
            let ghost rest = macros@.subrange(k as int, macros@.len() as int);
            assert(rest.drop_first() =~= macros@.subrange(k + 1, macros@.len() as int));
            assert(rest[0] == macros@[k as int]);
            self.visit_macro(&macros[k]);
            k = k + 1;
        }
        assert(macros@.subrange(k as int, macros@.len() as int) =~= Seq::<Node>::empty());
    }
}

/// Drops repeated observations and orders the rest ascending by line.
pub fn dedup_sort_calls(items: &Vec<(String, usize)>) -> (r: Vec<(String, usize)>)
    ensures
        is_dedup_sorted(calls_view(r@), calls_view(items@)),
{
    let ghost iv = calls_view(items@);
    let mut r: Vec<(String, usize)> = Vec::new();
    let mut k: usize = 0;
    while k < items.len()
        invariant
            iv == calls_view(items@),
            0 <= k <= items@.len(),
            sorted_by_line(calls_view(r@)),
            no_dups(calls_view(r@)),
            forall|x: (Seq<char>, int)| calls_view(r@).contains(x) <==> (exists|j: int| 0 <= j < k && iv[j] == x),
        decreases items@.len() - k,
    {
        let ghost rv = calls_view(r@);
        let x = (items[k].0.clone(), items[k].1);
        let ghost xv = (x.0@, x.1 as int);
        assert(xv == iv[k as int]);
        let mut found = false;
        let mut q: usize = 0;
        while q < r.len()
            invariant
                rv == calls_view(r@),
                xv == (x.0@, x.1 as int),
                0 <= q <= r@.len(),
                found == (exists|j: int| 0 <= j < q && rv[j] == xv),
            decreases r@.len() - q,
        {
            if r[q].0 == x.0 && r[q].1 == x.1 {
                assert(rv[q as int] == xv);
                found = true;
            }
            q = q + 1;
        }
        if !found {
            let mut pos: usize = 0;
            while pos < r.len() && r[pos].1 <= x.1
                invariant
                    rv == calls_view(r@),
                    xv == (x.0@, x.1 as int),
                    0 <= pos <= r@.len(),
                    forall|j: int| 0 <= j < pos ==> rv[j].1 <= xv.1,
                decreases r@.len() - pos,
            {
                pos = pos + 1;
            }
            r.insert(pos, x);
            let ghost nv = calls_view(r@);
            assert(nv =~= rv.insert(pos as int, xv));
            assert forall|i: int, j: int| 0 <= i < j < nv.len() implies nv[i].1 <= nv[j].1 by {
                if j < pos {
                } else if i < pos && j == pos {
                } else if i < pos {
                    assert(nv[j] == rv[j - 1]);
                } else if i == pos {
                    assert(nv[j] == rv[j - 1]);
                    assert(pos < rv.len() && !(rv[pos as int].1 <= xv.1));
                } else {
                    assert(nv[i] == rv[i - 1] && nv[j] == rv[j - 1]);
                }
            }
            assert forall|i: int, j: int| 0 <= i < j < nv.len() implies nv[i] != nv[j] by {
                if i == pos {
                    assert(nv[j] == rv[j - 1]);
                } else if j == pos {
                    assert(nv[i] == rv[i]);
                } else if i < pos && j < pos {
                } else if i < pos {
                    assert(nv[i] == rv[i] && nv[j] == rv[j - 1]);
                } else {
                    assert(nv[i] == rv[i - 1] && nv[j] == rv[j - 1]);
                }
            }
            assert forall|y: (Seq<char>, int)| nv.contains(y) <==> (exists|j: int| 0 <= j < k + 1 && iv[j] == y) by {
                if nv.contains(y) {
                    let t = choose|t: int| 0 <= t < nv.len() && nv[t] == y;
                    if t < pos {
                        assert(rv[t] == y);
                        assert(rv.contains(y));
                    } else if t > pos {
                        assert(rv[t - 1] == y);
                        assert(rv.contains(y));
                    }
                }
                if exists|j: int| 0 <= j < k + 1 && iv[j] == y {
                    let j = choose|j: int| 0 <= j < k + 1 && iv[j] == y;
                    if j == k {
                        assert(nv[pos as int] == y);
                    } else {
                        assert(rv.contains(y));
                        let t = choose|t: int| 0 <= t < rv.len() && rv[t] == y;
                        if t < pos {
                            assert(nv[t] == y);
                        } else {
                            assert(nv[t + 1] == y);
                        }
                    }
                }
            }
        } else {
            assert forall|y: (Seq<char>, int)| rv.contains(y) <==> (exists|j: int| 0 <= j < k + 1 && iv[j] == y) by {
                if exists|j: int| 0 <= j < k + 1 && iv[j] == y {
                    let j = choose|j: int| 0 <= j < k + 1 && iv[j] == y;
                    if j == k {
                        let t = choose|t: int| 0 <= t < rv.len() && rv[t] == xv;
                        assert(rv[t] == y);
                    }
                }
            }
        }
        k = k + 1;
    }
    assert forall|y: (Seq<char>, int)| calls_view(r@).contains(y) <==> iv.contains(y) by {
        if iv.contains(y) {
            let j = choose|j: int| 0 <= j < iv.len() && iv[j] == y;
            assert(exists|j: int| 0 <= j < k && iv[j] == y);
        }
    }
    r
}

/// Back-fills qualifiers: scanning in order, a name without `::` is prefixed
/// with what precedes the last `::` of the latest name that had one.
pub fn post_process_called_functions(items: Vec<(String, usize)>) -> (r: Vec<(String, usize)>)
    ensures
        calls_view(r@).len() == items@.len(),
        forall|k: int| 0 <= k < items@.len() ==> #[trigger] calls_view(r@)[k] == backfilled(calls_view(items@), k),
{
    let ghost iv = calls_view(items@);
    let mut stored: Option<String> = None;
    let mut result: Vec<(String, usize)> = Vec::new();
    let mut k: usize = 0;
    while k < items.len()
        invariant
            iv == calls_view(items@),
            0 <= k <= items@.len(),
            result@.len() == k,
            opt_view(stored) == qualifier_before(iv, k as int),
            forall|q: int| 0 <= q < k ==> #[trigger] calls_view(result@)[q] == backfilled(iv, q),
        decreases items@.len() - k,
    {
        let name = &items[k].0;
        let line = items[k].1;
        assert(iv[k as int] == (name@, line as int));
        let ghost old_result = calls_view(result@);
        match rfind_sep(name.as_str()) {
            Some(pos) => {
                stored = Some(sub_string(name.as_str(), 0, pos));
                result.push((name.clone(), line));
            },
            None => {
                match &stored {
                    Some(q) => {
                        let mut full = q.clone();
                        full.append("::");
                        full.append(name.as_str());
                        proof {
                            reveal_strlit("::");
                        }
                        assert(full@ =~= q@ + seq![':', ':'] + name@);
                        result.push((full, line));
                    },
                    None => {
                        result.push((name.clone(), line));
                    },
                }
            },
        }
        assert(calls_view(result@) =~= old_result.push(backfilled(iv, k as int)));
        k = k + 1;
    }
    result
}

/// An entry-point macro whose argument did not parse as one expression.
pub open spec fn is_unparsed_trigger(node: Node) -> bool {
    match node {
        Node::Macro { name, body: None } => name@ == "fuzz_target"@,
        _ => false,
    }
}

/// Some entry-point macro among `macros` has an argument that did not parse.
pub open spec fn has_unparsed_trigger(macros: Seq<Node>) -> bool {
    exists|i: int| 0 <= i < macros.len() && is_unparsed_trigger(#[trigger] macros[i])
}

/// Whether some entry-point macro among `macros` failed to parse.
pub fn find_unparsed_trigger(macros: &Vec<Node>) -> (r: bool)
    ensures
        r == has_unparsed_trigger(macros@),
{
    let trigger = String::from_str("fuzz_target");
    let mut k: usize = 0;
    while k < macros.len()
        invariant
            0 <= k <= macros@.len(),
            trigger@ == "fuzz_target"@,
            forall|q: int| 0 <= q < k ==> !is_unparsed_trigger(#[trigger] macros@[q]),
        decreases macros@.len() - k,
    {
        if let Node::Macro { name, body: None } = &macros[k] {
            if *name == trigger {
                assert(is_unparsed_trigger(macros@[k as int]));
                return true;
            }
        }
        k = k + 1;
    }
    false
}

/// The calls made inside the entry-point macros among `macros`, once each,
/// ascending by line, with qualifiers back-filled. `None`, with the visitor
/// untouched, when the argument of some entry-point macro did not parse.
pub fn extract_called_functions(macros: &Vec<Node>, visitor: &mut FuzzTargetVisitor) -> (r: Option<Vec<(String, usize)>>)
    requires
        old(visitor).wf(),
    ensures
        final(visitor).function_info == old(visitor).function_info,
        r is None <==> has_unparsed_trigger(macros@),
        r is None ==> final(visitor).calls() == old(visitor).calls() && final(visitor).bindings() == old(visitor).bindings(),
        r matches Some(v) ==> exists|d: Calls|
            is_dedup_sorted(d, file_walk(old(visitor).catalog(), macros@, old(visitor).calls(), old(visitor).bindings()).0)
            && calls_view(v@).len() == d.len()
            && forall|k: int| 0 <= k < d.len() ==> #[trigger] calls_view(v@)[k] == backfilled(d, k),
{
    if find_unparsed_trigger(macros) {
        return None;
    }
    visitor.visit_file(macros);
    let sorted = dedup_sort_calls(&visitor.called_functions);
    let ghost d = calls_view(sorted@);
    let r = post_process_called_functions(sorted);
    assert(is_dedup_sorted(d, file_walk(old(visitor).catalog(), macros@, old(visitor).calls(), old(visitor).bindings()).0));
    assert(forall|k: int| 0 <= k < d.len() ==> #[trigger] calls_view(r@)[k] == backfilled(d, k));
    Some(r)
}

} // verus!
