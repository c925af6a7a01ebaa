//! Partitioning the library into documents: which container lands in
//! which document under each policy, and the fixed global ordering and
//! case-insensitive deduplication of the final document list.

use vstd::prelude::*;

use vstd::relations::sorted_by;
use crate::library::{Library, builtin_type_names};
use crate::namemap::{map_has_key, map_key_index, map_keys, map_lookup, NameMap};
use crate::options::{Options, OptionsV, OutputOrder};
use crate::order::{
    chars_le, dedup_by, dedup_by_spec, lemma_chars_le_total, lemma_chars_le_trans, sort_by_le,
    lemma_sorted_map, lemma_multiset_map, lemma_dedup_pairwise, lemma_pairwise_permuted,
};
use crate::strutil::{lower_seq, str_eq, strs_view, to_lower};
use crate::types::{Alias, Class, ClassV, Enum, Scope, classes_view, file_stem_of, ostr_view};

verus! {

// ------------------------------------------------------------------
// Scope filtering.

/// The container values of the table, in table order.
pub open spec fn table_classes(s: Seq<(Seq<char>, ClassV)>) -> Seq<ClassV> {
    s.map_values(|e: (Seq<char>, ClassV)| e.1)
}

/// The containers whose scope is among the given ones, in table order.
pub open spec fn scope_filter(cs: Seq<ClassV>, scopes: Seq<Scope>) -> Seq<ClassV> {
    cs.filter(|c: ClassV| scopes.contains(c.scope))
}

/// Whether the scope is among the given ones.
fn scope_in(scopes: &Vec<Scope>, s: Scope) -> (r: bool)
    ensures
        r == scopes@.contains(s),
{
    let mut i: usize = 0;
    while i < scopes.len()
        invariant
            i <= scopes@.len(),
            forall|j: int| 0 <= j < i ==> scopes@[j] != s,
        decreases scopes@.len() - i,
    {
        if scopes[i] == s {
            return true;
        }
        i = i + 1;
    }
    false
}

impl Library {
    /// The containers whose scope is among the given ones, in table
    /// order.
    pub fn classes_in_scopes(&self, scopes: &Vec<Scope>) -> (r: Vec<Class>)
        ensures
            classes_view(r@) == scope_filter(table_classes(self@.classes), scopes@),
    {
        let ghost target = scope_filter(table_classes(self@.classes), scopes@);
        let mut r: Vec<Class> = Vec::new();
        let n = self.classes.len();
        let mut i: usize = 0;
        proof {
            reveal(Seq::filter);
            assert(classes_view(r@) =~= scope_filter(
                table_classes(self@.classes).subrange(0, 0),
                scopes@,
            ));
        }
        while i < n
            invariant
                i <= n == self@.classes.len(),
                classes_view(r@) == scope_filter(
                    table_classes(self@.classes).subrange(0, i as int),
                    scopes@,
                ),
            decreases n - i,
        {
            let ghost tc = table_classes(self@.classes);
            let ghost pfx = tc.subrange(0, i as int);
            let ghost pfx1 = tc.subrange(0, i + 1 as int);
            proof {
                assert(pfx1.drop_last() =~= pfx);
                assert(pfx1.last() == tc[i as int]);
                assert(tc[i as int] == self@.classes[i as int].1);
            }
            let c = self.classes.value_at(i);
            if scope_in(scopes, c.scope) {
                let copied = c.clone();
                r.push(copied);
            }
            proof {
                reveal(Seq::filter);
                assert(classes_view(r@) =~= scope_filter(pfx1, scopes@));
            }
            i = i + 1;
        }
        proof {
            assert(table_classes(self@.classes).subrange(0, n as int) =~= table_classes(
                self@.classes,
            ));
        }
        r
    }
}

// ------------------------------------------------------------------
// Grouping by declaring file.

/// The grouping key of a container: its declaring file, or nothing.
pub open spec fn group_key(c: ClassV) -> Seq<char> {
    match c.file {
        Option::Some(f) => f,
        Option::None => Seq::empty(),
    }
}

/// The groups with `c` added under key `k`: appended to its group, or
/// opening a new one.
pub open spec fn group_put(
    gs: Seq<(Seq<char>, Seq<ClassV>)>,
    k: Seq<char>,
    c: ClassV,
) -> Seq<(Seq<char>, Seq<ClassV>)> {
    if map_has_key(gs, k) {
        gs.update(map_key_index(gs, k), (k, gs[map_key_index(gs, k)].1.push(c)))
    } else {
        gs.push((k, seq![c]))
    }
}

/// The containers grouped by declaring file, groups in first-seen
/// order, members in input order.
pub open spec fn group_by_file(cs: Seq<ClassV>) -> Seq<(Seq<char>, Seq<ClassV>)>
    decreases cs,
{
    if cs.len() == 0 {
        Seq::empty()
    } else {
        group_put(group_by_file(cs.drop_last()), group_key(cs.last()), cs.last())
    }
}

/// The model of a built group list.
pub open spec fn groups_view(gs: Seq<(String, Vec<Class>)>) -> Seq<(Seq<char>, Seq<ClassV>)> {
    gs.map_values(|e: (String, Vec<Class>)| (e.0@, classes_view(e.1@)))
}

/// Groups a list of containers by their declaring file.
fn group_classes(cs: Vec<Class>) -> (r: Vec<(String, Vec<Class>)>)
    ensures
        groups_view(r@) == group_by_file(classes_view(cs@)),
{
    let ghost c0 = classes_view(cs@);
    let mut src = cs;
    let mut r: Vec<(String, Vec<Class>)> = Vec::new();
    proof {
        assert(groups_view(r@) =~= group_by_file(c0.subrange(0, 0)));
    }
    while src.len() > 0
        invariant
            src@.len() <= c0.len(),
            classes_view(src@) =~= c0.subrange(c0.len() - src@.len(), c0.len() as int),
            groups_view(r@) == group_by_file(c0.subrange(0, c0.len() - src@.len())),
        decreases src@.len(),
    {
        let ghost i = c0.len() - src@.len();
        proof {
            assert(0 <= i < c0.len());
        }
        let ghost src_before = src@;
        let x = src.remove(0);
        proof {
            assert(x == src_before[0]);
            assert(classes_view(src_before)[0] == src_before[0]@);
            assert(x@ == c0[i]);
            assert forall|p: int| 0 <= p < src@.len() implies classes_view(src@)[p] == c0[i + 1
                + p] by {
                assert(src@[p] == src_before[p + 1]);
                assert(classes_view(src_before)[p + 1] == src_before[p + 1]@);
            }
            assert(classes_view(src@) =~= c0.subrange(i + 1, c0.len() as int));
        }
        let key: String = match &x.file {
            Option::Some(f) => f.clone(),
            Option::None => String::new(),
        };
        proof {
            assert(key@ == group_key(c0[i]));
        }
        // find the group with this key
        let mut found: Option<usize> = Option::None;
        let mut j: usize = 0;
        while j < r.len()
            invariant
                j <= r@.len(),
                found is None ==> forall|p: int| 0 <= p < j
                    ==> (#[trigger] groups_view(r@)[p]).0 != key@,
                match found {
                    Option::Some(g) => g < r@.len() && groups_view(r@)[g as int].0 == key@
                        && (forall|p: int| 0 <= p < g
                        ==> (#[trigger] groups_view(r@)[p]).0 != key@),
                    Option::None => true,
                },
            decreases r@.len() - j + (if found is Some { 0int } else { 1int }),
        {
            if found.is_none() && str_eq(r[j].0.as_str(), key.as_str()) {
                proof {
                    assert(groups_view(r@)[j as int].0 == key@);
                }
                found = Option::Some(j);
            } else {
                j = j + 1;
            }
        }
        let ghost gs0 = groups_view(r@);
        match found {
            Option::Some(g) => {
                proof {
                    assert(map_has_key(gs0, key@)) by {
                        assert(gs0[g as int].0 == key@);
                    }
                }
                let entry = &mut r[g];
                entry.1.push(x);
                proof {
                    assert(classes_view(r@[g as int].1@) =~= gs0[g as int].1.push(c0[i]));
                    assert(groups_view(r@) =~~= gs0.update(
                        g as int,
                        (key@, gs0[g as int].1.push(c0[i])),
                    ));
                    // the found index is the one the lookup picks: it is
                    // the first, and any earlier match would contradict
                    // the scan
                    let w = map_key_index(gs0, key@);
                    assert(0 <= w < gs0.len() && gs0[w].0 == key@);
                    if w < g {
                        assert(gs0[w].0 != key@);
                    }
                    if w != g {
                        // the groups built so far keep unique keys, so
                        // the chosen witness is the scanned one
                        lemma_groups_unique(c0.subrange(0, i));
                        assert(crate::namemap::unique_keys(gs0));
                        assert(false);
                    }
                    assert(w == g);
                    assert(groups_view(r@) =~= group_put(gs0, key@, c0[i]));
                    assert(group_by_file(c0.subrange(0, i + 1)) == group_put(
                        group_by_file(c0.subrange(0, i)),
                        group_key(c0[i]),
                        c0[i],
                    )) by {
                        assert(c0.subrange(0, i + 1).drop_last() =~= c0.subrange(0, i));
                        assert(c0.subrange(0, i + 1).last() == c0[i]);
                    }
                }
            },
            Option::None => {
                proof {
                    assert(!map_has_key(gs0, key@)) by {
                        if map_has_key(gs0, key@) {
                            let w = map_key_index(gs0, key@);
                            assert(gs0[w].0 != key@);
                        }
                    }
                }
                let mut members: Vec<Class> = Vec::new();
                members.push(x);
                r.push((key, members));
                proof {
                    assert(classes_view(r@[r@.len() - 1].1@) =~= seq![c0[i]]);
                    assert(groups_view(r@) =~~= group_put(gs0, key@, c0[i]));
                    assert(c0.subrange(0, i + 1).drop_last() =~= c0.subrange(0, i));
                    assert(c0.subrange(0, i + 1).last() == c0[i]);
                }
            },
        }
    }
    proof {
        assert(c0.subrange(0, c0.len() as int) =~= c0);
    }
    r
}

/// Grouping never makes two groups with one key.
pub proof fn lemma_groups_unique(cs: Seq<ClassV>)
    ensures
        crate::namemap::unique_keys(group_by_file(cs)),
    decreases cs,
{
    if cs.len() > 0 {
        lemma_groups_unique(cs.drop_last());
        let gs = group_by_file(cs.drop_last());
        let k = group_key(cs.last());
        if map_has_key(gs, k) {
            assert forall|a: int, b: int| 0 <= a < b < group_by_file(cs).len()
                implies (#[trigger] group_by_file(cs)[a]).0 != (#[trigger] group_by_file(
                cs,
            )[b]).0 by {
                assert(gs[a].0 != gs[b].0);
            }
        } else {
            assert forall|a: int, b: int| 0 <= a < b < group_by_file(cs).len()
                implies (#[trigger] group_by_file(cs)[a]).0 != (#[trigger] group_by_file(
                cs,
            )[b]).0 by {
                if b < group_by_file(cs).len() - 1 {
                    assert(gs[a].0 != gs[b].0);
                } else {
                    assert(gs[a].0 != k);
                }
            }
        }
    }
}

impl Library {
    /// The in-scope containers grouped by their declaring file (an
    /// absent file groups under the empty name).
    pub fn classes_by_file_in_scopes(&self, scopes: &Vec<Scope>) -> (r: Vec<
        (String, Vec<Class>),
    >)
        ensures
            groups_view(r@) == group_by_file(
                scope_filter(table_classes(self@.classes), scopes@),
            ),
    {
        let picked = self.classes_in_scopes(scopes);
        group_classes(picked)
    }
}


// ------------------------------------------------------------------
// Document ordering and deduplication.

/// The fixed weight of a container in its per-file document: the
/// `global` container first, everything else after.
pub open spec fn class_weight(n: Seq<char>) -> int {
    if n == "global"@ {
        0
    } else {
        1
    }
}

/// The order containers take inside a per-file document: the `global`
/// container first, the rest by lowercased then raw name.
pub open spec fn classv_doc_le(a: ClassV, b: ClassV) -> bool {
    crate::order::weighted_name_le(class_weight(a.name), class_weight(b.name), a.name, b.name)
}

/// The same order on bare container names.
pub open spec fn class_name_le(a: Seq<char>, b: Seq<char>) -> bool {
    crate::order::weighted_name_le(class_weight(a), class_weight(b), a, b)
}

pub open spec fn class_name_le_rel() -> spec_fn(Seq<char>, Seq<char>) -> bool {
    |a: Seq<char>, b: Seq<char>| class_name_le(a, b)
}

/// The container-name order is a total ordering, so a sorted name list
/// is unique.
pub proof fn lemma_class_name_le_total_ordering()
    ensures
        vstd::relations::total_ordering(class_name_le_rel()),
{
    assert forall|a: Seq<char>, b: Seq<char>|
        #[trigger] class_name_le_rel()(a, b) || class_name_le_rel()(b, a) by {
        crate::order::lemma_weighted_name_le_total(class_weight(a), class_weight(b), a, b);
    }
    assert forall|a: Seq<char>, b: Seq<char>|
        #[trigger] class_name_le_rel()(a, b) && #[trigger] class_name_le_rel()(b, a)
        implies a == b by {
        crate::order::lemma_weighted_name_le_total(class_weight(a), class_weight(b), a, b);
    }
    assert forall|a: Seq<char>, b: Seq<char>, c: Seq<char>|
        #[trigger] class_name_le_rel()(a, b) && #[trigger] class_name_le_rel()(b, c)
        implies class_name_le_rel()(a, c) by {
        crate::order::lemma_weighted_name_le_trans(
            class_weight(a),
            class_weight(b),
            class_weight(c),
            a,
            b,
            c,
        );
    }
    assert(vstd::relations::reflexive(class_name_le_rel())) by {
        assert forall|a: Seq<char>| #[trigger] class_name_le_rel()(a, a) by {
            crate::order::lemma_weighted_name_le_total(class_weight(a), class_weight(a), a, a);
        }
    }
}

pub open spec fn classv_doc_le_rel() -> spec_fn(ClassV, ClassV) -> bool {
    |a: ClassV, b: ClassV| classv_doc_le(a, b)
}

pub open spec fn class_doc_le_rel() -> spec_fn(Class, Class) -> bool {
    |a: Class, b: Class| classv_doc_le(a@, b@)
}

pub open spec fn class_view_map() -> spec_fn(Class) -> ClassV {
    |c: Class| c@
}

/// Whether the name starts with the prefix.
pub open spec fn has_prefix(s: Seq<char>, p: Seq<char>) -> bool {
    p.len() <= s.len() && s.subrange(0, p.len() as int) == p
}

/// Whether the string starts with the prefix.
pub fn str_has_prefix(s: &str, p: &str) -> (r: bool)
    ensures
        r == has_prefix(s@, p@),
{
    let sv = crate::strutil::chars_of(s);
    let pv = crate::strutil::chars_of(p);
    if pv.len() > sv.len() {
        return false;
    }
    let mut i: usize = 0;
    while i < pv.len()
        invariant
            pv@.len() <= sv@.len(),
            sv@ == s@,
            pv@ == p@,
            i <= pv@.len(),
            forall|j: int| 0 <= j < i ==> sv@[j] == pv@[j],
        decreases pv@.len() - i,
    {
        if sv[i] != pv[i] {
            assert(s@.subrange(0, p@.len() as int)[i as int] != p@[i as int]);
            return false;
        }
        i = i + 1;
    }
    assert(s@.subrange(0, p@.len() as int) =~= p@);
    true
}

/// The fixed weight of a document name: the globals document first,
/// named documents next, the modules section second to last, the
/// builtins section last.
pub open spec fn doc_weight(n: Seq<char>) -> int {
    if n == "global"@ {
        0
    } else if has_prefix(n, "modules"@) {
        99
    } else if has_prefix(n, "builtins"@) {
        100
    } else {
        10
    }
}

/// The global order of documents: by weight, then by lowercased name,
/// then by raw name; documents sharing their whole name can tie, but
/// the deduplication before the final sort leaves no two documents
/// sharing even a case-normalized name.
pub open spec fn docv_le(a: (Seq<char>, Seq<char>), b: (Seq<char>, Seq<char>)) -> bool {
    crate::order::weighted_name_le(doc_weight(a.0), doc_weight(b.0), a.0, b.0)
}

pub open spec fn docv_le_rel() -> spec_fn((Seq<char>, Seq<char>), (Seq<char>, Seq<char>)) -> bool {
    |a: (Seq<char>, Seq<char>), b: (Seq<char>, Seq<char>)| docv_le(a, b)
}

pub open spec fn doc_le_rel() -> spec_fn((String, String), (String, String)) -> bool {
    |a: (String, String), b: (String, String)| docv_le((a.0@, a.1@), (b.0@, b.1@))
}

pub open spec fn doc_view_map() -> spec_fn((String, String)) -> (Seq<char>, Seq<char>) {
    |d: (String, String)| (d.0@, d.1@)
}

/// The models of a document list.
pub open spec fn docs_view(ds: Seq<(String, String)>) -> Seq<(Seq<char>, Seq<char>)> {
    ds.map_values(|d: (String, String)| (d.0@, d.1@))
}

/// Two documents count as the same when their names agree up to case.
pub open spec fn docv_same_name(a: (Seq<char>, Seq<char>), b: (Seq<char>, Seq<char>)) -> bool {
    lower_seq(a.0) == lower_seq(b.0)
}

pub open spec fn docv_same_name_rel() -> spec_fn(
    (Seq<char>, Seq<char>),
    (Seq<char>, Seq<char>),
) -> bool {
    |a: (Seq<char>, Seq<char>), b: (Seq<char>, Seq<char>)| docv_same_name(a, b)
}

pub open spec fn doc_same_name_rel() -> spec_fn((String, String), (String, String)) -> bool {
    |a: (String, String), b: (String, String)| docv_same_name((a.0@, a.1@), (b.0@, b.1@))
}

/// Decides the weight of a document name.
fn doc_weight_exec(n: &str) -> (r: u32)
    ensures
        r as int == doc_weight(n@),
{
    if str_eq(n, "global") {
        0
    } else if str_has_prefix(n, "modules") {
        99
    } else if str_has_prefix(n, "builtins") {
        100
    } else {
        10
    }
}

/// Decides the order containers take inside a per-file document.
fn cmp_class_doc_le(a: &Class, b: &Class) -> (res: bool)
    ensures
        res == classv_doc_le(a@, b@),
{
    cmp_class_name_le(a.name.as_str(), b.name.as_str())
}

/// Decides the container-name order.
fn cmp_class_name_le(a: &str, b: &str) -> (res: bool)
    ensures
        res == class_name_le(a@, b@),
{
    let wa: u32 = if str_eq(a, "global") {
        0
    } else {
        1
    };
    let wb: u32 = if str_eq(b, "global") {
        0
    } else {
        1
    };
    if wa != wb {
        wa < wb
    } else {
        crate::order::cmp_name_tail_le(a, b)
    }
}

/// Decides the global order of documents.
fn cmp_doc_le(a: &(String, String), b: &(String, String)) -> (res: bool)
    ensures
        res == docv_le((a.0@, a.1@), (b.0@, b.1@)),
{
    let wa = doc_weight_exec(a.0.as_str());
    let wb = doc_weight_exec(b.0.as_str());
    if wa != wb {
        wa < wb
    } else {
        crate::order::cmp_name_tail_le(a.0.as_str(), b.0.as_str())
    }
}

/// Decides whether two documents share a case-normalized name.
fn same_doc_name(a: &(String, String), b: &(String, String)) -> (res: bool)
    ensures
        res == docv_same_name((a.0@, a.1@), (b.0@, b.1@)),
{
    let la = to_lower(a.0.as_str());
    let lb = to_lower(b.0.as_str());
    str_eq(la.as_str(), lb.as_str())
}

impl Library {
    /// Orders containers for a per-file document: the `global`
    /// container first, the rest alphabetically.
    pub fn sort_classes(classes: Vec<Class>) -> (r: Vec<Class>)
        ensures
            r@.to_multiset() == classes@.to_multiset(),
            sorted_by(classes_view(r@), classv_doc_le_rel()),
    {
        proof {
            assert(vstd::relations::strongly_connected(class_doc_le_rel())) by {
                assert forall|a: Class, b: Class|
                    #[trigger] class_doc_le_rel()(a, b) || class_doc_le_rel()(b, a) by {
                    crate::order::lemma_weighted_name_le_total(
                        class_weight(a@.name),
                        class_weight(b@.name),
                        a@.name,
                        b@.name,
                    );
                }
            }
            assert(vstd::relations::transitive(class_doc_le_rel())) by {
                assert forall|a: Class, b: Class, c: Class|
                    #[trigger] class_doc_le_rel()(a, b) && #[trigger] class_doc_le_rel()(
                    b,
                    c,
                ) implies class_doc_le_rel()(a, c) by {
                    crate::order::lemma_weighted_name_le_trans(
                        class_weight(a@.name),
                        class_weight(b@.name),
                        class_weight(c@.name),
                        a@.name,
                        b@.name,
                        c@.name,
                    );
                }
            }
        }
        let r = sort_by_le(classes, cmp_class_doc_le, Ghost(class_doc_le_rel()));
        proof {
            lemma_sorted_map(r@, class_view_map(), class_doc_le_rel(), classv_doc_le_rel());
            assert(r@.map_values(class_view_map()) =~= classes_view(r@));
        }
        r
    }

    /// Orders the final document list: the globals document, named
    /// documents alphabetically, the modules section, the builtins
    /// section.
    pub fn sort_docs(docs: Vec<(String, String)>) -> (r: Vec<(String, String)>)
        ensures
            r@.to_multiset() == docs@.to_multiset(),
            sorted_by(docs_view(r@), docv_le_rel()),
    {
        proof {
            assert(vstd::relations::strongly_connected(doc_le_rel())) by {
                assert forall|a: (String, String), b: (String, String)|
                    #[trigger] doc_le_rel()(a, b) || doc_le_rel()(b, a) by {
                    crate::order::lemma_weighted_name_le_total(
                        doc_weight(a.0@),
                        doc_weight(b.0@),
                        a.0@,
                        b.0@,
                    );
                }
            }
            assert(vstd::relations::transitive(doc_le_rel())) by {
                assert forall|a: (String, String), b: (String, String), c: (String, String)|
                    #[trigger] doc_le_rel()(a, b) && #[trigger] doc_le_rel()(b, c) implies doc_le_rel()(
                    a,
                    c,
                ) by {
                    crate::order::lemma_weighted_name_le_trans(
                        doc_weight(a.0@),
                        doc_weight(b.0@),
                        doc_weight(c.0@),
                        a.0@,
                        b.0@,
                        c.0@,
                    );
                }
            }
        }
        let r = sort_by_le(docs, cmp_doc_le, Ghost(doc_le_rel()));
        proof {
            lemma_sorted_map(r@, doc_view_map(), doc_le_rel(), docv_le_rel());
            assert(r@.map_values(doc_view_map()) =~= docs_view(r@));
        }
        r
    }
}


// ------------------------------------------------------------------
// The assembled document list, policy by policy.

/// The document root prefix a by-class document links upward through.
pub open spec fn byclass_root(ns: Seq<char>, key: Seq<char>) -> Seq<char> {
    if key == ns {
        "../"@
    } else {
        "../../"@
    }
}

/// The scopes whose containers land in per-file documents.
pub open spec fn global_scopes() -> Seq<Scope> {
    seq![Scope::Global, Scope::Local]
}

/// The by-class documents of the `Global`-scope containers, over the
/// first `n` table entries, in table order.
pub open spec fn byclass_globalsv(lib: crate::library::LibraryV, opts: OptionsV, n: int) -> Seq<
    (Seq<char>, Seq<char>),
>
    decreases n,
{
    if n <= 0 {
        Seq::empty()
    } else {
        let prev = byclass_globalsv(lib, opts, n - 1);
        let e = lib.classes[n - 1];
        if e.1.scope == Scope::Global {
            prev.push(
                (
                    e.0,
                    crate::render::classv_render(
                        lib.classes,
                        lib.enums,
                        lib.aliases,
                        opts.order,
                        opts.namespace,
                        byclass_root(opts.namespace, e.0),
                        true,
                        true,
                        e.1,
                    ),
                ),
            )
        } else {
            prev
        }
    }
}

/// The by-class documents of the `Modules`-scope containers, over the
/// first `n` table entries, in table order.
pub open spec fn byclass_modulesv(lib: crate::library::LibraryV, opts: OptionsV, n: int) -> Seq<
    (Seq<char>, Seq<char>),
>
    decreases n,
{
    if n <= 0 {
        Seq::empty()
    } else {
        let prev = byclass_modulesv(lib, opts, n - 1);
        let e = lib.classes[n - 1];
        if e.1.scope == Scope::Modules {
            prev.push(
                (
                    "modules/"@ + e.0,
                    crate::render::classv_render(
                        lib.classes,
                        lib.enums,
                        lib.aliases,
                        opts.order,
                        opts.namespace,
                        byclass_root(opts.namespace, e.0),
                        true,
                        true,
                        e.1,
                    ),
                ),
            )
        } else {
            prev
        }
    }
}

/// The by-file documents of the `Modules`-scope containers, over the
/// first `n` table entries, in table order.
pub open spec fn byfile_modulesv(lib: crate::library::LibraryV, opts: OptionsV, n: int) -> Seq<
    (Seq<char>, Seq<char>),
>
    decreases n,
{
    if n <= 0 {
        Seq::empty()
    } else {
        let prev = byfile_modulesv(lib, opts, n - 1);
        let e = lib.classes[n - 1];
        if e.1.scope == Scope::Modules {
            prev.push(
                (
                    "modules/"@ + e.0,
                    crate::render::classv_render(
                        lib.classes,
                        lib.enums,
                        lib.aliases,
                        opts.order,
                        opts.namespace,
                        "../../"@,
                        false,
                        true,
                        e.1,
                    ),
                ),
            )
        } else {
            prev
        }
    }
}

/// Whether a container belongs in the per-file document of `gkey`.
pub open spec fn group_memberv(c: ClassV, gkey: Seq<char>) -> bool {
    (c.scope == Scope::Global || c.scope == Scope::Local) && group_key(c) == gkey
}

/// The body of a per-file document: every member container of the
/// group, walked over the container-name-ordered key list, each
/// rendered in full.
pub open spec fn group_bodyv(
    lib: crate::library::LibraryV,
    opts: OptionsV,
    keys: Seq<Seq<char>>,
    gkey: Seq<char>,
) -> Seq<char>
    decreases keys.len(),
{
    if keys.len() == 0 {
        Seq::empty()
    } else {
        group_bodyv(lib, opts, keys.drop_last(), gkey) + (if map_has_key(
            lib.classes,
            keys.last(),
        ) && group_memberv(map_lookup(lib.classes, keys.last()), gkey) {
            crate::render::classv_render(
                lib.classes,
                lib.enums,
                lib.aliases,
                opts.order,
                opts.namespace,
                "../"@,
                false,
                true,
                map_lookup(lib.classes, keys.last()),
            ) + "\n\n"@
        } else {
            Seq::<char>::empty()
        })
    }
}

/// One per-file document: the file stem's heading, a contents marker,
/// and the group body.
pub open spec fn group_contentv(
    lib: crate::library::LibraryV,
    opts: OptionsV,
    gkey: Seq<char>,
) -> Seq<char> {
    crate::render::heading_spec(file_stem_of(gkey), 1) + "\n<!-- toc -->\n"@ + group_bodyv(
        lib,
        opts,
        map_keys(lib.classes).sort_by(class_name_le_rel()),
        gkey,
    )
}

/// The per-file documents, over the first `n` file groups, skipping
/// containers without a file.
pub open spec fn byfile_globalsv(
    lib: crate::library::LibraryV,
    opts: OptionsV,
    groups: Seq<(Seq<char>, Seq<ClassV>)>,
    n: int,
) -> Seq<(Seq<char>, Seq<char>)>
    decreases n,
{
    if n <= 0 {
        Seq::empty()
    } else {
        let prev = byfile_globalsv(lib, opts, groups, n - 1);
        let gkey = groups[n - 1].0;
        if gkey.len() == 0 {
            prev
        } else {
            prev.push((file_stem_of(gkey), group_contentv(lib, opts, gkey)))
        }
    }
}

/// The fixed built-in type documents, over the first `n` built-ins.
pub open spec fn builtins_docsv(lib: crate::library::LibraryV, opts: OptionsV, n: int) -> Seq<
    (Seq<char>, Seq<char>),
>
    decreases n,
{
    if n <= 0 {
        Seq::empty()
    } else {
        builtins_docsv(lib, opts, n - 1).push(
            (
                "builtins/"@ + crate::library::builtin_classesv()[n - 1].name,
                crate::render::classv_render(
                    lib.classes,
                    lib.enums,
                    lib.aliases,
                    opts.order,
                    opts.namespace,
                    "../../"@,
                    false,
                    true,
                    crate::library::builtin_classesv()[n - 1],
                ),
            ),
        )
    }
}

/// Every document the library produces under the active policy, in
/// assembly order: the globals documents, the modules section (when any
/// module container exists), and the built-in types section.
pub open spec fn assembled_docsv(lib: crate::library::LibraryV, opts: OptionsV) -> Seq<
    (Seq<char>, Seq<char>),
> {
    let globals = if opts.order == OutputOrder::ByFile {
        byfile_globalsv(
            lib,
            opts,
            group_by_file(scope_filter(table_classes(lib.classes), global_scopes())),
            group_by_file(scope_filter(table_classes(lib.classes), global_scopes())).len() as int,
        )
    } else {
        byclass_globalsv(lib, opts, lib.classes.len() as int)
    };
    let mods = if opts.order == OutputOrder::ByFile {
        byfile_modulesv(lib, opts, lib.classes.len() as int)
    } else {
        byclass_modulesv(lib, opts, lib.classes.len() as int)
    };
    globals + (if mods.len() > 0 {
        seq![("modules"@, "# Lua Module Extensions"@)] + mods
    } else {
        Seq::empty()
    }) + seq![("builtins"@, "# Lua Builtin Types"@)] + builtins_docsv(
        lib,
        opts,
        crate::library::builtin_classesv().len() as int,
    )
}

/// The name order on strings, weighted for containers.
pub open spec fn class_name_str_rel() -> spec_fn(String, String) -> bool {
    |a: String, b: String| class_name_le(a@, b@)
}

/// Decides the container-name order on strings.
fn cmp_class_name_str(a: &String, b: &String) -> (res: bool)
    ensures
        res == class_name_le(a@, b@),
{
    cmp_class_name_le(a.as_str(), b.as_str())
}

/// The class-table keys in container-name order: the unique ordering of
/// the names.
fn sorted_class_keys(m: &NameMap<Class>) -> (r: Vec<String>)
    ensures
        strs_view(r@) == map_keys(m@).sort_by(class_name_le_rel()),
{
    proof {
        lemma_class_name_le_total_ordering();
        assert(vstd::relations::strongly_connected(class_name_str_rel())) by {
            assert forall|a: String, b: String|
                #[trigger] class_name_str_rel()(a, b) || class_name_str_rel()(b, a) by {
                crate::order::lemma_weighted_name_le_total(
                    class_weight(a@),
                    class_weight(b@),
                    a@,
                    b@,
                );
            }
        }
        assert(vstd::relations::transitive(class_name_str_rel())) by {
            assert forall|a: String, b: String, c: String|
                #[trigger] class_name_str_rel()(a, b) && #[trigger] class_name_str_rel()(
                b,
                c,
            ) implies class_name_str_rel()(a, c) by {
                crate::order::lemma_weighted_name_le_trans(
                    class_weight(a@),
                    class_weight(b@),
                    class_weight(c@),
                    a@,
                    b@,
                    c@,
                );
            }
        }
    }
    let keys = m.keys();
    let ghost k0 = keys@;
    let r = crate::order::sort_by_le(keys, cmp_class_name_str, Ghost(class_name_str_rel()));
    proof {
        let target = map_keys(m@).sort_by(class_name_le_rel());
        map_keys(m@).lemma_sort_by_ensures(class_name_le_rel());
        crate::order::lemma_sorted_map(
            r@,
            crate::order::str_view_map(),
            class_name_str_rel(),
            class_name_le_rel(),
        );
        assert(r@.map_values(crate::order::str_view_map()) =~= strs_view(r@));
        crate::order::lemma_multiset_map(r@, k0, crate::order::str_view_map());
        assert(k0.map_values(crate::order::str_view_map()) =~= strs_view(k0));
        vstd::seq_lib::lemma_sorted_unique(strs_view(r@), target, class_name_le_rel());
    }
    r
}

/// Appends all the documents to the end of the first list.
fn append_docs(dst: &mut Vec<(String, String)>, items: &Vec<(String, String)>)
    ensures
        docs_view(final(dst)@) == docs_view(old(dst)@) + docs_view(items@),
{
    let ghost d0 = dst@;
    let mut i: usize = 0;
    while i < items.len()
        invariant
            i <= items@.len(),
            dst@.len() == d0.len() + i,
            forall|j: int| 0 <= j < d0.len() ==> dst@[j] == d0[j],
            forall|j: int| 0 <= j < i ==> dst@[d0.len() + j] == items@[j],
        decreases items@.len() - i,
    {
        let name = items[i].0.clone();
        let body = items[i].1.clone();
        dst.push((name, body));
        i = i + 1;
    }
    proof {
        assert forall|p: int| 0 <= p < docs_view(dst@).len() implies docs_view(dst@)[p] == (
        docs_view(d0) + docs_view(items@))[p] by {
            assert(docs_view(dst@)[p] == (dst@[p].0@, dst@[p].1@));
            if p < d0.len() {
                assert(docs_view(d0)[p] == (d0[p].0@, d0[p].1@));
            } else {
                assert(docs_view(items@)[p - d0.len()] == (
                    items@[p - d0.len()].0@,
                    items@[p - d0.len()].1@,
                ));
                assert(dst@[p].0@ == items@[p - d0.len()].0@);
                assert(dst@[p].1@ == items@[p - d0.len()].1@);
            }
        }
        assert(docs_view(dst@) =~= docs_view(d0) + docs_view(items@));
    }
}

/// The documents in reverse order.
fn reverse_docs(v: Vec<(String, String)>) -> (r: Vec<(String, String)>)
    ensures
        r@ == v@.reverse(),
{
    let ghost v0 = v@;
    let mut src = v;
    let mut r: Vec<(String, String)> = Vec::new();
    while src.len() > 0
        invariant
            src@ == v0.subrange(0, src@.len() as int),
            r@.len() == v0.len() - src@.len(),
            forall|j: int| 0 <= j < r@.len() ==> r@[j] == v0[v0.len() - 1 - j],
        decreases src@.len(),
    {
        let x = src.pop().unwrap();
        proof {
            assert(x == v0.subrange(0, src@.len() as int + 1)[src@.len() as int]);
            assert(src@ =~= v0.subrange(0, src@.len() as int));
        }
        r.push(x);
    }
    proof {
        assert(r@ =~= v0.reverse());
    }
    r
}

impl Library {
    /// Renders every document of the library under the active policy —
    /// the per-file or per-class documents, the module containers and
    /// the fixed built-in types — deduplicated by case-normalized name
    /// (the last writer, in assembly order, wins) and in the fixed
    /// global order.
    #[verifier::rlimit(100)]
    #[verifier::spinoff_prover]
    pub fn export_docs(&self, options: &Options) -> (r: Vec<(String, String)>)
        requires
            self.wf(),
        ensures
            sorted_by(docs_view(r@), docv_le_rel()),
            forall|i: int, j: int| 0 <= i < j < r@.len() ==> lower_seq(
                (#[trigger] r@[i]).0@,
            ) != lower_seq((#[trigger] r@[j]).0@),
            docs_view(r@).to_multiset() == crate::order::dedup_last_by_spec(
                assembled_docsv(self@, options@),
                docv_same_name_rel(),
            ).to_multiset(),
    {
        let ghost libv = self@;
        let ghost optsv = options@;
        let mut globals: Vec<(String, String)> = Vec::new();
        let mut modules: Vec<(String, String)> = Vec::new();
        match options.order {
            OutputOrder::ByFile => {
                let mut scopes: Vec<Scope> = Vec::new();
                scopes.push(Scope::Global);
                scopes.push(Scope::Local);
                proof {
                    assert(scopes@ =~= global_scopes());
                }
                let groups = self.classes_by_file_in_scopes(&scopes);
                let ghost gsv = group_by_file(
                    scope_filter(table_classes(libv.classes), global_scopes()),
                );
                proof {
                    assert(groups_view(groups@) == gsv);
                }
                let skeys = sorted_class_keys(&self.classes);
                let ghost skv = map_keys(libv.classes).sort_by(class_name_le_rel());
                let mut gi: usize = 0;
                while gi < groups.len()
                    invariant
                        self.wf(),
                        libv == self@,
                        optsv == options@,
                        gi <= groups@.len(),
                        groups_view(groups@) == gsv,
                        strs_view(skeys@) == skv,
                        skv == map_keys(libv.classes).sort_by(class_name_le_rel()),
                        docs_view(globals@) == byfile_globalsv(libv, optsv, gsv, gi as int),
                    decreases groups@.len() - gi,
                {
                    let gkey = &groups[gi].0;
                    proof {
                        assert(gkey@ == gsv[gi as int].0) by {
                            assert(groups_view(groups@)[gi as int].0 == groups@[gi as int].0@);
                        }
                    }
                    if gkey.unicode_len() > 0 {
                        let stem = crate::types::file_stem(gkey.as_str());
                        let mut content = crate::render::h1(stem.as_str());
                        content.append("\n<!-- toc -->\n");
                        let ghost head = crate::render::heading_spec(file_stem_of(gkey@), 1)
                            + "\n<!-- toc -->\n"@;
                        proof {
                            assert(content@ =~= head + group_bodyv(
                                libv,
                                optsv,
                                skv.subrange(0, 0),
                                gkey@,
                            ));
                        }
                        let mut ki: usize = 0;
                        while ki < skeys.len()
                            invariant
                                self.wf(),
                                libv == self@,
                                optsv == options@,
                                ki <= skeys@.len(),
                                strs_view(skeys@) == skv,
                                content@ == head + group_bodyv(
                                    libv,
                                    optsv,
                                    skv.subrange(0, ki as int),
                                    gkey@,
                                ),
                            decreases skeys@.len() - ki,
                        {
                            let ghost pfx = skv.subrange(0, ki as int);
                            let ghost pfx1 = skv.subrange(0, ki + 1 as int);
                            proof {
                                assert(pfx1.drop_last() =~= pfx);
                                assert(pfx1.last() == skv[ki as int]);
                                assert(skv[ki as int] == strs_view(skeys@)[ki as int]);
                            }
                            let k = &skeys[ki];
                            match self.classes.get(k.as_str()) {
                                Option::Some(c) => {
                                    let scope_ok = matches!(c.scope, Scope::Global)
                                        || matches!(c.scope, Scope::Local);
                                    let file_ok: bool = match &c.file {
                                        Option::Some(f) => crate::strutil::str_eq(
                                            f.as_str(),
                                            gkey.as_str(),
                                        ),
                                        Option::None => gkey.unicode_len() == 0,
                                    };
                                    proof {
                                        assert(c@ == map_lookup(libv.classes, k@));
                                        assert(scope_ok == (c@.scope == Scope::Global
                                            || c@.scope == Scope::Local));
                                        match &c.file {
                                            Option::Some(f) => {
                                                assert(group_key(c@) == f@);
                                            },
                                            Option::None => {
                                                assert(group_key(c@) =~= Seq::<char>::empty());
                                                if gkey@.len() == 0 {
                                                    assert(gkey@ =~= Seq::<char>::empty());
                                                }
                                                if group_key(c@) == gkey@ {
                                                    assert(gkey@.len() == 0);
                                                }
                                            },
                                        }
                                        assert((scope_ok && file_ok) == group_memberv(
                                            c@,
                                            gkey@,
                                        ));
                                    }
                                    if scope_ok && file_ok {
                                        let piece = c.render(
                                            &self.classes,
                                            &self.aliases,
                                            &self.enums,
                                            options,
                                            "../",
                                            false,
                                        );
                                        content.append(piece.as_str());
                                        content.append("\n\n");
                                    }
                                    proof {
                                        assert(content@ =~= head + group_bodyv(
                                            libv,
                                            optsv,
                                            pfx1,
                                            gkey@,
                                        ));
                                    }
                                },
                                Option::None => {
                                    proof {
                                        assert(content@ =~= head + group_bodyv(
                                            libv,
                                            optsv,
                                            pfx1,
                                            gkey@,
                                        ));
                                    }
                                },
                            }
                            ki = ki + 1;
                        }
                        proof {
                            assert(skv.subrange(0, skeys@.len() as int) =~= skv);
                            assert(content@ == group_contentv(libv, optsv, gkey@));
                        }
                        globals.push((stem, content));
                        proof {
                            assert(docs_view(globals@) =~= byfile_globalsv(
                                libv,
                                optsv,
                                gsv,
                                gi + 1 as int,
                            ));
                        }
                    } else {
                        proof {
                            assert(docs_view(globals@) =~= byfile_globalsv(
                                libv,
                                optsv,
                                gsv,
                                gi + 1 as int,
                            ));
                        }
                    }
                    gi = gi + 1;
                }
                proof {
                    assert(gsv.len() == groups@.len()) by {
                        assert(groups_view(groups@).len() == groups@.len());
                    }
                }

                // module containers, one document each
                let n = self.classes.len();
                let mut i: usize = 0;
                while i < n
                    invariant
                        self.wf(),
                        libv == self@,
                        optsv == options@,
                        i <= n == libv.classes.len(),
                        docs_view(modules@) == byfile_modulesv(libv, optsv, i as int),
                    decreases n - i,
                {
                    let c = self.classes.value_at(i);
                    if matches!(c.scope, Scope::Modules) {
                        let content = c.render(
                            &self.classes,
                            &self.aliases,
                            &self.enums,
                            options,
                            "../../",
                            false,
                        );
                        let key = self.classes.key_at(i).clone();
                        let mut name = String::from_str("modules/");
                        name.append(key.as_str());
                        modules.push((name, content));
                    }
                    proof {
                        assert(docs_view(modules@) =~= byfile_modulesv(libv, optsv, i + 1 as int));
                    }
                    i = i + 1;
                }
            },
            OutputOrder::ByClass => {
                let n = self.classes.len();
                let mut i: usize = 0;
                while i < n
                    invariant
                        self.wf(),
                        libv == self@,
                        optsv == options@,
                        i <= n == libv.classes.len(),
                        docs_view(globals@) == byclass_globalsv(libv, optsv, i as int),
                        docs_view(modules@) == byclass_modulesv(libv, optsv, i as int),
                    decreases n - i,
                {
                    let key = self.classes.key_at(i).clone();
                    let url_root: &str = if crate::strutil::str_eq(
                        key.as_str(),
                        options.namespace.as_str(),
                    ) {
                        "../"
                    } else {
                        "../../"
                    };
                    proof {
                        assert(url_root@ == byclass_root(optsv.namespace, key@));
                    }
                    let c = self.classes.value_at(i);
                    if matches!(c.scope, Scope::Global) {
                        let content = c.render(
                            &self.classes,
                            &self.aliases,
                            &self.enums,
                            options,
                            url_root,
                            true,
                        );
                        globals.push((key, content));
                    } else if matches!(c.scope, Scope::Modules) {
                        let content = c.render(
                            &self.classes,
                            &self.aliases,
                            &self.enums,
                            options,
                            url_root,
                            true,
                        );
                        let mut name = String::from_str("modules/");
                        name.append(key.as_str());
                        modules.push((name, content));
                    }
                    proof {
                        assert(docs_view(globals@) =~= byclass_globalsv(libv, optsv, i + 1 as int));
                        assert(docs_view(modules@) =~= byclass_modulesv(libv, optsv, i + 1 as int));
                    }
                    i = i + 1;
                }
            },
        }

        // the fixed built-in types
        let mut builtins: Vec<(String, String)> = Vec::new();
        let builtin_list = Self::builtin_classes();
        let mut bi: usize = 0;
        while bi < builtin_list.len()
            invariant
                self.wf(),
                libv == self@,
                optsv == options@,
                bi <= builtin_list@.len(),
                crate::types::classes_view(builtin_list@) == crate::library::builtin_classesv(),
                docs_view(builtins@) == builtins_docsv(libv, optsv, bi as int),
            decreases builtin_list@.len() - bi,
        {
            proof {
                assert(builtin_list@[bi as int]@ == crate::library::builtin_classesv()[bi as int])
                    by {
                    assert(crate::types::classes_view(builtin_list@)[bi as int]
                        == builtin_list@[bi as int]@);
                }
            }
            let content = builtin_list[bi].render(
                &self.classes,
                &self.aliases,
                &self.enums,
                options,
                "../../",
                false,
            );
            let mut name = String::from_str("builtins/");
            name.append(builtin_list[bi].name.as_str());
            builtins.push((name, content));
            proof {
                assert(docs_view(builtins@) =~= builtins_docsv(libv, optsv, bi + 1 as int));
            }
            bi = bi + 1;
        }
        proof {
            assert(crate::library::builtin_classesv().len() == builtin_list@.len());
        }

        // assemble: globals, then the modules section when any module
        // document exists, then the builtins section
        let ghost assembled = assembled_docsv(libv, optsv);
        let mut docs: Vec<(String, String)> = globals;
        let ghost gdocs = docs_view(docs@);
        if modules.len() > 0 {
            docs.push(
                (String::from_str("modules"), String::from_str("# Lua Module Extensions")),
            );
            proof {
                assert(docs_view(docs@) =~= gdocs + seq![
                    ("modules"@, "# Lua Module Extensions"@),
                ]);
            }
            append_docs(&mut docs, &modules);
            proof {
                assert(docs_view(docs@) =~= gdocs + seq![
                    ("modules"@, "# Lua Module Extensions"@),
                ] + docs_view(modules@));
            }
        }
        let ghost mid = docs_view(docs@);
        proof {
            assert(mid =~= gdocs + (if docs_view(modules@).len() > 0 {
                seq![("modules"@, "# Lua Module Extensions"@)] + docs_view(modules@)
            } else {
                Seq::<(Seq<char>, Seq<char>)>::empty()
            }));
        }
        docs.push((String::from_str("builtins"), String::from_str("# Lua Builtin Types")));
        proof {
            assert(docs_view(docs@) =~= mid + seq![("builtins"@, "# Lua Builtin Types"@)]);
        }
        append_docs(&mut docs, &builtins);
        proof {
            assert(docs_view(docs@) =~= mid + seq![("builtins"@, "# Lua Builtin Types"@)]
                + docs_view(builtins@));
        }
        proof {
            let spec_globals = if optsv.order == OutputOrder::ByFile {
                byfile_globalsv(
                    libv,
                    optsv,
                    group_by_file(scope_filter(table_classes(libv.classes), global_scopes())),
                    group_by_file(
                        scope_filter(table_classes(libv.classes), global_scopes()),
                    ).len() as int,
                )
            } else {
                byclass_globalsv(libv, optsv, libv.classes.len() as int)
            };
            let spec_mods = if optsv.order == OutputOrder::ByFile {
                byfile_modulesv(libv, optsv, libv.classes.len() as int)
            } else {
                byclass_modulesv(libv, optsv, libv.classes.len() as int)
            };
            assert(gdocs == spec_globals);
            assert(docs_view(modules@) == spec_mods);
            assert(docs_view(builtins@) == builtins_docsv(
                libv,
                optsv,
                crate::library::builtin_classesv().len() as int,
            ));
            assert(docs_view(modules@).len() == modules@.len());
            assert(assembled == spec_globals + (if spec_mods.len() > 0 {
                seq![("modules"@, "# Lua Module Extensions"@)] + spec_mods
            } else {
                Seq::<(Seq<char>, Seq<char>)>::empty()
            }) + seq![("builtins"@, "# Lua Builtin Types"@)] + builtins_docsv(
                libv,
                optsv,
                crate::library::builtin_classesv().len() as int,
            ));
            assert(docs_view(docs@) =~= assembled);
        }

        // dedup by case-normalized name — the last writer wins — then
        // order
        let ghost docs0 = docs@;
        let rev = reverse_docs(docs);
        let ghost rv = rev@;
        let dd_rev = dedup_by(rev, same_doc_name, Ghost(doc_same_name_rel()));
        let deduped = reverse_docs(dd_rev);
        let ghost dd = deduped@;
        let sorted = Self::sort_docs(deduped);
        proof {
            broadcast use vstd::seq_lib::group_to_multiset_ensures;

            assert(dd == dedup_by_spec(docs0.reverse(), doc_same_name_rel()).reverse());
            // the kept documents are pairwise distinct by name
            lemma_dedup_pairwise(docs0.reverse(), doc_same_name_rel());
            assert(forall|x: (String, String)| #[trigger] doc_same_name_rel()(x, x));
            assert(forall|x: (String, String), y: (String, String)|
                #[trigger] doc_same_name_rel()(x, y) == doc_same_name_rel()(y, x));
            let kept = dedup_by_spec(docs0.reverse(), doc_same_name_rel());
            assert forall|i: int, j: int| 0 <= i < j < dd.len() implies !doc_same_name_rel()(
                #[trigger] dd[i],
                #[trigger] dd[j],
            ) by {
                assert(dd[i] == kept[kept.len() - 1 - i]);
                assert(dd[j] == kept[kept.len() - 1 - j]);
                assert(!doc_same_name_rel()(kept[kept.len() - 1 - j], kept[kept.len() - 1 - i]));
            }
            lemma_pairwise_permuted(dd, sorted@, doc_same_name_rel());
            // the deduplicated assembly carries over to the models
            crate::order::lemma_dedup_map(
                docs0.reverse(),
                doc_view_map(),
                doc_same_name_rel(),
                docv_same_name_rel(),
            );
            assert(docs0.reverse().map_values(doc_view_map()) =~= docs_view(docs0).reverse());
            kept.lemma_reverse_to_multiset();
            crate::order::lemma_multiset_map(sorted@, dd, doc_view_map());
            crate::order::lemma_multiset_map(dd, kept, doc_view_map());
            assert(sorted@.map_values(doc_view_map()) =~= docs_view(sorted@));
            assert(dd.map_values(doc_view_map()) =~= docs_view(dd));
            assert(kept.map_values(doc_view_map()) == dedup_by_spec(
                docs_view(docs0).reverse(),
                docv_same_name_rel(),
            ));
            assert(crate::order::dedup_last_by_spec(docs_view(docs0), docv_same_name_rel())
                == dedup_by_spec(docs_view(docs0).reverse(), docv_same_name_rel()).reverse());
            dedup_by_spec(docs_view(docs0).reverse(), docv_same_name_rel()).lemma_reverse_to_multiset();
            assert(docs_view(sorted@).to_multiset() == crate::order::dedup_last_by_spec(
                docs_view(docs0),
                docv_same_name_rel(),
            ).to_multiset());
        }
        sorted
    }

}

} // verus!
