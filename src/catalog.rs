//! The function catalog built upstream, and resolution of call names
//! against it.
use vstd::prelude::*;
use vstd::string::*;
use crate::text::{
    ends_with, find_sep, first_sep, str_ends_with, sub_string,
};

verus! {

/// One recorded call of a catalogued function: `src` is the origin
/// `"<path>,<line>"`, `dst` the callee's name as written at the call.
#[derive(Clone, Debug)]
pub struct CallSite {
    pub src: String,
    pub dst: String,
}

/// A catalog entry for one known function.
#[derive(Clone, Debug)]
pub struct FunctionInfo {
    pub name: String,
    pub file: String,
    pub return_type: String,
    pub arg_count: usize,
    pub arg_names: Vec<String>,
    pub arg_types: Vec<String>,
    pub called_functions: Vec<String>,
    pub callsites: Vec<CallSite>,
}

/// No two entries share a name.
pub open spec fn names_unique(fs: Seq<FunctionInfo>) -> bool {
    forall|i: int, j: int|
        0 <= i < fs.len() && 0 <= j < fs.len() && i != j ==> fs[i].name@ != fs[j].name@
}

/// `fs[j]` is the last record in `fs` that bears its name.
pub open spec fn is_last_write(fs: Seq<FunctionInfo>, j: int) -> bool {
    0 <= j < fs.len() && forall|k: int| j < k < fs.len() ==> fs[k].name@ != fs[j].name@
}

/// Some record of `fs` equal to `e` is the last one bearing its name.
pub open spec fn kept_from(fs: Seq<FunctionInfo>, e: FunctionInfo) -> bool {
    exists|j: int| is_last_write(fs, j) && fs[j] == e
}

/// Some entry of `fs` is named `name`.
pub open spec fn has_name(fs: Seq<FunctionInfo>, name: Seq<char>) -> bool {
    exists|i: int| 0 <= i < fs.len() && fs[i].name@ == name
}

/// Index of the entry named `key`.
pub open spec fn key_index(fs: Seq<FunctionInfo>, key: Seq<char>) -> Option<int> {
    if exists|i: int| 0 <= i < fs.len() && fs[i].name@ == key {
        Some(choose|i: int| 0 <= i < fs.len() && fs[i].name@ == key)
    } else {
        None
    }
}

pub open spec fn is_first_suffix(fs: Seq<FunctionInfo>, name: Seq<char>, i: int) -> bool {
    0 <= i < fs.len() && ends_with(fs[i].name@, name) && forall|j: int|
        0 <= j < i ==> !ends_with(#[trigger] fs[j].name@, name)
}

/// Index of the first entry whose name ends with `name`.
pub open spec fn first_suffix(fs: Seq<FunctionInfo>, name: Seq<char>) -> Option<int> {
    if exists|i: int| is_first_suffix(fs, name, i) {
        Some(choose|i: int| is_first_suffix(fs, name, i))
    } else {
        None
    }
}

/// Drops the leading path segment of `s`, one at a time, until what is left
/// names an entry exactly.
pub open spec fn stripped_lookup(fs: Seq<FunctionInfo>, s: Seq<char>) -> Option<int>
    decreases s.len(),
{
    match first_sep(s) {
        None => None,
        Some(p) => {
            if 0 <= p && p + 2 <= s.len() {
                let t = s.subrange(p + 2, s.len() as int);
                match key_index(fs, t) {
                    Some(i) => Some(i),
                    None => stripped_lookup(fs, t),
                }
            } else {
                None
            }
        },
    }
}

/// The entry that a call name resolves to: an exact match, else the first
/// entry whose name ends with it, else an exact match of the name with its
/// leading segments stripped, fewest first.
pub open spec fn resolve(fs: Seq<FunctionInfo>, name: Seq<char>) -> Option<int> {
    match key_index(fs, name) {
        Some(i) => Some(i),
        None => match first_suffix(fs, name) {
            Some(i) => Some(i),
            None => stripped_lookup(fs, name),
        },
    }
}

pub proof fn lemma_stripped_in_range(fs: Seq<FunctionInfo>, s: Seq<char>)
    ensures
        stripped_lookup(fs, s) matches Some(i) ==> 0 <= i < fs.len(),
    decreases s.len(),
{
    if let Some(p) = first_sep(s) {
        if 0 <= p && p + 2 <= s.len() {
            lemma_stripped_in_range(fs, s.subrange(p + 2, s.len() as int));
        }
    }
}

/// A resolved name always denotes an entry of the catalog.
pub proof fn lemma_resolve_in_range(fs: Seq<FunctionInfo>, name: Seq<char>)
    ensures
        resolve(fs, name) matches Some(i) ==> 0 <= i < fs.len(),
{
    lemma_stripped_in_range(fs, name);
}

/// In a catalog with unique names, a name that some entry bears exactly
/// always resolves to that entry, whatever else the catalog holds.
pub proof fn lemma_exact_match_wins(fs: Seq<FunctionInfo>, name: Seq<char>, i: int)
    requires
        names_unique(fs),
        0 <= i < fs.len(),
        fs[i].name@ == name,
    ensures
        resolve(fs, name) == Some(i),
{
    assert(key_index(fs, name) == Some(i));
}

/// `fs1` and `fs2` hold the same records, in any order.
pub open spec fn same_records(fs1: Seq<FunctionInfo>, fs2: Seq<FunctionInfo>) -> bool {
    forall|f: FunctionInfo| fs1.contains(f) <==> fs2.contains(f)
}

/// Two lookups give the same record, or both give none.
pub open spec fn same_outcome(fs1: Seq<FunctionInfo>, r1: Option<int>, fs2: Seq<FunctionInfo>, r2: Option<int>) -> bool {
    match (r1, r2) {
        (Some(i), Some(j)) => fs1[i] == fs2[j],
        (None, None) => true,
        _ => false,
    }
}

proof fn lemma_key_index_same(fs1: Seq<FunctionInfo>, fs2: Seq<FunctionInfo>, key: Seq<char>)
    requires
        names_unique(fs1),
        names_unique(fs2),
        same_records(fs1, fs2),
    ensures
        same_outcome(fs1, key_index(fs1, key), fs2, key_index(fs2, key)),
{
    if let Some(i) = key_index(fs1, key) {
        assert(fs1.contains(fs1[i]));
        assert(fs2.contains(fs1[i]));
        let j = choose|j: int| 0 <= j < fs2.len() && fs2[j] == fs1[i];
        assert(key_index(fs2, key) == Some(j));
    } else if let Some(j) = key_index(fs2, key) {
        assert(fs2.contains(fs2[j]));
        assert(fs1.contains(fs2[j]));
        let i = choose|i: int| 0 <= i < fs1.len() && fs1[i] == fs2[j];
        assert(fs1[i].name@ == key);
    }
}

proof fn lemma_stripped_same(fs1: Seq<FunctionInfo>, fs2: Seq<FunctionInfo>, s: Seq<char>)
    requires
        names_unique(fs1),
        names_unique(fs2),
        same_records(fs1, fs2),
    ensures
        same_outcome(fs1, stripped_lookup(fs1, s), fs2, stripped_lookup(fs2, s)),
    decreases s.len(),
{
    if let Some(p) = first_sep(s) {
        if 0 <= p && p + 2 <= s.len() {
            let t = s.subrange(p + 2, s.len() as int);
            lemma_key_index_same(fs1, fs2, t);
            lemma_stripped_same(fs1, fs2, t);
        }
    }
}

/// Resolution does not depend on the catalog's order when the name is
/// present exactly or no name ends with it: two catalogs holding the same
/// records resolve it to the same record, or both to none.
pub proof fn lemma_resolve_order_independent(fs1: Seq<FunctionInfo>, fs2: Seq<FunctionInfo>, name: Seq<char>)
    requires
        names_unique(fs1),
        names_unique(fs2),
        same_records(fs1, fs2),
        has_name(fs1, name) || forall|i: int| 0 <= i < fs1.len() ==> !ends_with(#[trigger] fs1[i].name@, name),
    ensures
        same_outcome(fs1, resolve(fs1, name), fs2, resolve(fs2, name)),
{
    lemma_key_index_same(fs1, fs2, name);
    if !has_name(fs1, name) {
        assert(key_index(fs1, name) is None) by {
            if key_index(fs1, name) is Some {
                let i = key_index(fs1, name).unwrap();
                assert(fs1[i].name@.subrange(0, name.len() as int) =~= name);
                assert(ends_with(fs1[i].name@, name));
            }
        }
        assert(first_suffix(fs1, name) is None);
        assert(first_suffix(fs2, name) is None) by {
            if exists|i: int| is_first_suffix(fs2, name, i) {
                let j = choose|i: int| is_first_suffix(fs2, name, i);
                assert(fs2.contains(fs2[j]));
                assert(fs1.contains(fs2[j]));
                let i = choose|i: int| 0 <= i < fs1.len() && fs1[i] == fs2[j];
                assert(!ends_with(fs1[i].name@, name));
            }
        }
        lemma_stripped_same(fs1, fs2, name);
    }
}

/// The catalog, keyed by qualified name.
#[derive(Clone, Debug)]
pub struct FunctionMap {
    pub entries: Vec<FunctionInfo>,
}

impl FunctionMap {
    pub open spec fn wf(&self) -> bool {
        names_unique(self.entries@)
    }

    pub open spec fn spec_entries(&self) -> Seq<FunctionInfo> {
        self.entries@
    }

    /// Builds the catalog from a sequence of records; where several records
    /// bear one name, the last of them is kept.
    pub fn from_records(functions: Vec<FunctionInfo>) -> (m: FunctionMap)
        ensures
            m.wf(),
            forall|i: int| 0 <= i < m.entries@.len() ==> kept_from(functions@, #[trigger] m.entries@[i]),
            forall|j: int| 0 <= j < functions@.len() ==> has_name(m.entries@, (#[trigger] functions@[j]).name@),
    {
        let ghost all = functions@;
        let mut rest = functions;
        let mut entries: Vec<FunctionInfo> = Vec::new();
        while rest.len() > 0
            invariant
                all == functions@,
                rest@.len() <= all.len(),
                rest@ == all.subrange(0, rest@.len() as int),
                names_unique(entries@),
                forall|i: int| 0 <= i < entries@.len() ==> kept_from(all, #[trigger] entries@[i]),
                forall|j: int| rest@.len() <= j < all.len() ==> has_name(entries@, (#[trigger] all[j]).name@),
            decreases rest@.len(),
        {
            let ghost before = rest@;
            let f = rest.pop().unwrap();
            let ghost jf = rest@.len() as int;
            assert(before[jf] == all[jf]);
            assert(rest@ =~= all.subrange(0, jf));
            let mut seen = false;
            let mut k: usize = 0;
            while k < entries.len()
                invariant
                    0 <= k <= entries@.len(),
                    seen == (exists|q: int| 0 <= q < k && entries@[q].name@ == f.name@),
                decreases entries@.len() - k,
            {
                if entries[k].name == f.name {
                    seen = true;
                }
                k = k + 1;
            }
            if !seen {
                proof {
                    assert forall|k: int| jf < k < all.len() implies all[k].name@ != all[jf].name@ by {
                        assert(has_name(entries@, all[k].name@));
                    }
                    assert(is_last_write(all, jf));
                }
                let ghost old_entries = entries@;
                entries.push(f);
                assert forall|i: int| 0 <= i < entries@.len() implies kept_from(all, #[trigger] entries@[i]) by {
                    if i < old_entries.len() {
                        assert(entries@[i] == old_entries[i]);
                    } else {
                        assert(all[jf] == entries@[i]);
                    }
                }
                assert forall|j: int| rest@.len() <= j < all.len() implies has_name(entries@, (#[trigger] all[j]).name@) by {
                    if j == jf {
                        assert(entries@[old_entries.len() as int] == f);
                    } else {
                        assert(has_name(old_entries, all[j].name@));
                        let i = choose|i: int| 0 <= i < old_entries.len() && old_entries[i].name@ == all[j].name@;
                        assert(entries@[i] == old_entries[i]);
                    }
                }
            }
        }
        FunctionMap { entries }
    }

    /// Index of the entry named exactly `key`.
    pub fn find_key(&self, key: &String) -> (r: Option<usize>)
        requires
            self.wf(),
        ensures
            match r {
                Some(i) => key_index(self.entries@, key@) == Some(i as int),
                None => key_index(self.entries@, key@) is None,
            },
    {
        let mut k: usize = 0;
        while k < self.entries.len()
            invariant
                self.wf(),
                0 <= k <= self.entries@.len(),
                forall|q: int| 0 <= q < k ==> self.entries@[q].name@ != key@,
            decreases self.entries@.len() - k,
        {
            if self.entries[k].name == *key {
                assert(key_index(self.entries@, key@) == Some(k as int));
                return Some(k);
            }
            k = k + 1;
        }
        None
    }

    /// Index of the entry that `name` resolves to.
    pub fn resolve_index(&self, name: &str) -> (r: Option<usize>)
        requires
            self.wf(),
        ensures
            match r {
                Some(i) => resolve(self.entries@, name@) == Some(i as int) && i < self.entries@.len(),
                None => resolve(self.entries@, name@) is None,
            },
    {
        proof {
            lemma_resolve_in_range(self.entries@, name@);
        }
        let full = String::from_str(name);
        if let Some(i) = self.find_key(&full) {
            return Some(i);
        }
        let mut k: usize = 0;
        while k < self.entries.len()
            invariant
                self.wf(),
                key_index(self.entries@, name@) is None,
                0 <= k <= self.entries@.len(),
                forall|q: int| 0 <= q < k ==> !ends_with(#[trigger] self.entries@[q].name@, name@),
            decreases self.entries@.len() - k,
        {
            if str_ends_with(self.entries[k].name.as_str(), name) {
                assert(is_first_suffix(self.entries@, name@, k as int));
                assert(first_suffix(self.entries@, name@) == Some(k as int));
                return Some(k);
            }
            k = k + 1;
        }
        assert(first_suffix(self.entries@, name@) is None);
        let mut rest = full;
        loop
            invariant
                self.wf(),
                key_index(self.entries@, name@) is None,
                first_suffix(self.entries@, name@) is None,
                stripped_lookup(self.entries@, name@) == stripped_lookup(self.entries@, rest@),
            decreases rest@.len(),
        {
            let n = rest.as_str().unicode_len();
            match find_sep(rest.as_str()) {
                None => {
                    return None;
                },
                Some(p) => {
                    let t = sub_string(rest.as_str(), p + 2, n);
                    match self.find_key(&t) {
                        Some(i) => {
                            return Some(i);
                        },
                        None => {
                            rest = t;
                        },
                    }
                },
            }
        }
    }
}

/// Looks `function_name` up in the catalog: exact match first, then the
/// first entry whose name ends with it, then the name with its leading path
/// segments stripped one at a time.
pub fn find_function<'a>(function_name: &str, function_map: &'a FunctionMap) -> (r: Option<&'a FunctionInfo>)
    requires
        function_map.wf(),
    ensures
        match resolve(function_map.entries@, function_name@) {
            Some(i) => r == Some(&function_map.entries@[i]),
            None => r is None,
        },
{
    match function_map.resolve_index(function_name) {
        Some(i) => Some(&function_map.entries[i]),
        None => None,
    }
}

} // verus!
