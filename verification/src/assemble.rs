//! Building the library from the definition records: sorting records into
//! the three tables, resolving names, attaching orphaned enums and
//! functions to their containers, applying the exclusion list, and
//! putting every container's member lists into their final, deduplicated
//! and sorted form.

use vstd::prelude::*;

use crate::library::{Library, LibraryV, resolve_kindv, resolve_functionv};
use crate::namemap::{map_has_key, map_key_index, map_lookup, map_put, unique_keys, NameMap};
use crate::options::{Options, OutputOrder};
use crate::order::{
    chars_le, dedup_by, dedup_by_spec, contains_same, file_line_le, lemma_file_line_le_total,
    lemma_file_line_le_trans, sort_by_le,
};
use vstd::relations::sorted_by;
use crate::show::fn_sig;
use crate::strutil::{ostr_eq, str_eq, strs_view};
use crate::types::{
    leaf_of, name_base, file_stem_of, Alias, AliasV, Class, ClassV, Def, Enum, EnumV, Function, FunctionV,
    Kind, KindV, LuaKind, Scope, Var, VarV, clone_ostr, enums_view, functions_view, function_view,
    kind_view, ostr_view, spec_strip_enum_base, spec_strip_function_base, spec_is_constant,
    var_view, vars_view, lemma_vars_view_index, lemma_vars_view_len,
};

verus! {

// ------------------------------------------------------------------
// Sorting the records into tables.

/// The tables and leftover functions that a record list populates:
/// classes, enums and aliases keyed by name (later records win), and the
/// free functions in order.
pub open spec fn tables_of(defs: Seq<DefsV>) -> TablesV
    decreases defs,
{
    if defs.len() == 0 {
        TablesV {
            classes: Seq::empty(),
            enums: Seq::empty(),
            aliases: Seq::empty(),
            functions: Seq::empty(),
        }
    } else {
        let t = tables_of(defs.drop_last());
        match defs.last() {
            DefsV::Class(c) => TablesV { classes: map_put(t.classes, c.name, c), ..t },
            DefsV::Enum(e) => TablesV { enums: map_put(t.enums, e.name, e), ..t },
            DefsV::Alias(a) => TablesV { aliases: map_put(t.aliases, a.name, a), ..t },
            DefsV::Function(f) => TablesV { functions: t.functions.push(f), ..t },
        }
    }
}

/// Ghost model of a record (same shape as `DefV`, named for the tables).
pub type DefsV = crate::types::DefV;

/// The intermediate tables while the library is being built.
pub struct TablesV {
    pub classes: Seq<(Seq<char>, ClassV)>,
    pub enums: Seq<(Seq<char>, EnumV)>,
    pub aliases: Seq<(Seq<char>, AliasV)>,
    pub functions: Seq<FunctionV>,
}

// ------------------------------------------------------------------
// Orphan attachment.

/// The candidate owning container of a dotted name: what stands before
/// its last dot, or `global` for a bare name.
pub open spec fn base_or_global(n: Seq<char>) -> Seq<char> {
    match name_base(n) {
        Option::Some(b) => b,
        Option::None => "global"@,
    }
}

/// Whether some enum of the list already has the name.
pub open spec fn enum_named(es: Seq<EnumV>, n: Seq<char>) -> bool {
    exists|i: int| 0 <= i < es.len() && (#[trigger] es[i]).name == n
}

/// Whether some function of the list already has the name.
pub open spec fn fn_named(fs: Seq<FunctionV>, n: Option<Seq<char>>) -> bool {
    exists|i: int| 0 <= i < fs.len() && (#[trigger] fs[i]).name == n
}

/// The name of the container an orphan is grouped under when its own
/// base has no container: per file under the by-file policy, the base
/// itself under the by-class policy.
pub open spec fn orphan_target(
    order: OutputOrder,
    file: Option<Seq<char>>,
    base: Seq<char>,
) -> Seq<char> {
    if order == OutputOrder::ByFile && file is Some {
        file_stem_of(file.unwrap()) + " globals"@
    } else {
        base
    }
}

/// A fresh container for an orphan, scoped by the orphan's base name.
pub open spec fn fresh_container(
    name: Seq<char>,
    base: Seq<char>,
    ns: Seq<char>,
    file: Option<Seq<char>>,
    line: Option<u32>,
) -> ClassV {
    ClassV {
        file: file,
        line_number: line,
        scope: Scope::spec_from_name(base, ns),
        name: name,
        fields: Seq::empty(),
        functions: Seq::empty(),
        enums: Seq::empty(),
        constants: Seq::empty(),
        desc: Seq::empty(),
    }
}

/// Where an orphan enum goes: appended (deduplicated by name, stripped
/// to its member leaf) to the container named by its base, else merged
/// into or created as its policy target container.
pub open spec fn attach_enumv(
    classes: Seq<(Seq<char>, ClassV)>,
    order: OutputOrder,
    ns: Seq<char>,
    e: EnumV,
) -> Seq<(Seq<char>, ClassV)> {
    let base = base_or_global(e.name);
    let stripped = spec_strip_enum_base(e);
    if map_has_key(classes, base) {
        let c = map_lookup(classes, base);
        if enum_named(c.enums, stripped.name) {
            classes
        } else {
            map_put(classes, base, ClassV { enums: c.enums.push(stripped), ..c })
        }
    } else {
        let t = orphan_target(order, e.file, base);
        if map_has_key(classes, t) && (order == OutputOrder::ByClass || map_lookup(
            classes,
            t,
        ).file == e.file) {
            let c = map_lookup(classes, t);
            if enum_named(c.enums, stripped.name) {
                classes
            } else {
                map_put(classes, t, ClassV { enums: c.enums.push(stripped), ..c })
            }
        } else {
            map_put(
                classes,
                t,
                ClassV {
                    enums: seq![stripped],
                    ..fresh_container(t, base, ns, e.file, e.line_number)
                },
            )
        }
    }
}

/// Where an orphan function goes; the same rule as for enums.
pub open spec fn attach_functionv(
    classes: Seq<(Seq<char>, ClassV)>,
    order: OutputOrder,
    ns: Seq<char>,
    f: FunctionV,
) -> Seq<(Seq<char>, ClassV)> {
    let fname = match f.name {
        Option::Some(n) => n,
        Option::None => Seq::empty(),
    };
    let base = base_or_global(fname);
    let stripped = spec_strip_function_base(f);
    if map_has_key(classes, base) {
        let c = map_lookup(classes, base);
        if fn_named(c.functions, stripped.name) {
            classes
        } else {
            map_put(classes, base, ClassV { functions: c.functions.push(stripped), ..c })
        }
    } else {
        let t = orphan_target(order, f.file, base);
        if map_has_key(classes, t) && (order == OutputOrder::ByClass || map_lookup(
            classes,
            t,
        ).file == f.file) {
            let c = map_lookup(classes, t);
            if fn_named(c.functions, stripped.name) {
                classes
            } else {
                map_put(classes, t, ClassV { functions: c.functions.push(stripped), ..c })
            }
        } else {
            map_put(
                classes,
                t,
                ClassV {
                    functions: seq![stripped],
                    ..fresh_container(t, base, ns, f.file, f.line_number)
                },
            )
        }
    }
}

/// Whether some enum of the list already has the name.
fn has_enum_named(es: &Vec<Enum>, n: &str) -> (r: bool)
    ensures
        r == enum_named(enums_view(es@), n@),
{
    let mut i: usize = 0;
    while i < es.len()
        invariant
            i <= es@.len(),
            forall|j: int| 0 <= j < i ==> (#[trigger] enums_view(es@)[j]).name != n@,
        decreases es@.len() - i,
    {
        if str_eq(es[i].name.as_str(), n) {
            assert(enums_view(es@)[i as int].name == n@);
            return true;
        }
        i = i + 1;
    }
    false
}

/// Whether some function of the list already has the name.
fn has_function_named(fs: &Vec<Function>, n: &Option<String>) -> (r: bool)
    ensures
        r == fn_named(functions_view(fs@), ostr_view(*n)),
{
    let mut i: usize = 0;
    while i < fs.len()
        invariant
            i <= fs@.len(),
            forall|j: int| 0 <= j < i ==> (#[trigger] functions_view(fs@)[j]).name != ostr_view(
                *n,
            ),
        decreases fs@.len() - i,
    {
        if ostr_eq(&fs[i].name, n) {
            assert(functions_view(fs@)[i as int].name == ostr_view(*n));
            return true;
        }
        i = i + 1;
    }
    false
}

/// Attaches one orphan enum to the class table.
pub fn attach_enum(classes: &mut NameMap<Class>, order: OutputOrder, namespace: &str, e: &Enum)
    requires
        old(classes).wf(),
    ensures
        final(classes).wf(),
        final(classes)@ == attach_enumv(old(classes)@, order, namespace@, e@),
{
    let base: String = match Class::get_base(e.name.as_str()) {
        Option::Some(b) => b,
        Option::None => String::from_str("global"),
    };
    assert(base@ == base_or_global(e@.name));
    let stripped = e.strip_base();
    let found: Option<Class> = match classes.get(base.as_str()) {
        Option::Some(c) => Option::Some(c.clone()),
        Option::None => Option::None,
    };
    match found {
        Option::Some(mut c) => {
            assert(c@ == map_lookup(classes@, base@));
            if has_enum_named(&c.enums, stripped.name.as_str()) {
            } else {
                c.enums.push(stripped);
                proof {
                    assert(enums_view(c.enums@) =~= map_lookup(classes@, base@).enums.push(
                        spec_strip_enum_base(e@),
                    ));
                    assert(c@ == ClassV {
                        enums: map_lookup(classes@, base@).enums.push(spec_strip_enum_base(e@)),
                        ..map_lookup(classes@, base@)
                    });
                }
                classes.insert(base, c);
            }
        },
        Option::None => {
            let target: String = match (&e.file, order) {
                (Option::Some(f), OutputOrder::ByFile) => {
                    let mut t = crate::types::file_stem(f.as_str());
                    t.append(" globals");
                    t
                },
                _ => base.clone(),
            };
            assert(target@ == orphan_target(order, e@.file, base@));
            let found2: Option<Class> = match classes.get(target.as_str()) {
                Option::Some(c) => Option::Some(c.clone()),
                Option::None => Option::None,
            };
            let merge: bool = match &found2 {
                Option::Some(c) => matches!(order, OutputOrder::ByClass) || ostr_eq(
                    &c.file,
                    &e.file,
                ),
                Option::None => false,
            };
            if merge {
                let mut c = match found2 {
                    Option::Some(c) => c,
                    Option::None => Class {
                        file: Option::None,
                        line_number: Option::None,
                        scope: Scope::Local,
                        name: String::new(),
                        fields: Vec::new(),
                        functions: Vec::new(),
                        enums: Vec::new(),
                        constants: Vec::new(),
                        desc: String::new(),
                    },
                };
                assert(c@ == map_lookup(classes@, target@));
                if has_enum_named(&c.enums, stripped.name.as_str()) {
                } else {
                    c.enums.push(stripped);
                    proof {
                        assert(enums_view(c.enums@) =~= map_lookup(classes@, target@).enums.push(
                            spec_strip_enum_base(e@),
                        ));
                        assert(c@ == ClassV {
                            enums: map_lookup(classes@, target@).enums.push(
                                spec_strip_enum_base(e@),
                            ),
                            ..map_lookup(classes@, target@)
                        });
                    }
                    classes.insert(target, c);
                }
            } else {
                let mut enums: Vec<Enum> = Vec::new();
                enums.push(stripped);
                let fresh = Class {
                    file: clone_ostr(&e.file),
                    line_number: e.line_number,
                    scope: Scope::from_name(base.as_str(), namespace),
                    name: target.clone(),
                    fields: Vec::new(),
                    functions: Vec::new(),
                    enums,
                    constants: Vec::new(),
                    desc: String::new(),
                };
                proof {
                    assert(enums_view(fresh.enums@) =~= seq![spec_strip_enum_base(e@)]);
                    assert(vars_view(fresh.fields@) =~= Seq::<VarV>::empty());
                    assert(functions_view(fresh.functions@) =~= Seq::<FunctionV>::empty());
                    assert(vars_view(fresh.constants@) =~= Seq::<VarV>::empty());
                    assert(fresh@ == ClassV {
                        enums: seq![spec_strip_enum_base(e@)],
                        ..fresh_container(target@, base@, namespace@, e@.file, e@.line_number)
                    });
                }
                classes.insert(target, fresh);
            }
        },
    }
}

/// Attaches one orphan function to the class table.
pub fn attach_function(
    classes: &mut NameMap<Class>,
    order: OutputOrder,
    namespace: &str,
    f: &Function,
)
    requires
        old(classes).wf(),
    ensures
        final(classes).wf(),
        final(classes)@ == attach_functionv(old(classes)@, order, namespace@, f@),
{
    let fname: String = match &f.name {
        Option::Some(n) => n.clone(),
        Option::None => String::new(),
    };
    proof {
        assert(fname@ == match f@.name {
            Option::Some(n) => n,
            Option::None => Seq::<char>::empty(),
        });
    }
    let base: String = match Class::get_base(fname.as_str()) {
        Option::Some(b) => b,
        Option::None => String::from_str("global"),
    };
    let stripped = f.strip_base();
    let found: Option<Class> = match classes.get(base.as_str()) {
        Option::Some(c) => Option::Some(c.clone()),
        Option::None => Option::None,
    };
    match found {
        Option::Some(mut c) => {
            assert(c@ == map_lookup(classes@, base@));
            if has_function_named(&c.functions, &stripped.name) {
            } else {
                c.functions.push(stripped);
                proof {
                    assert(functions_view(c.functions@) =~= map_lookup(
                        classes@,
                        base@,
                    ).functions.push(spec_strip_function_base(f@)));
                    assert(c@ == ClassV {
                        functions: map_lookup(classes@, base@).functions.push(
                            spec_strip_function_base(f@),
                        ),
                        ..map_lookup(classes@, base@)
                    });
                }
                classes.insert(base, c);
            }
        },
        Option::None => {
            let target: String = match (&f.file, order) {
                (Option::Some(p), OutputOrder::ByFile) => {
                    let mut t = crate::types::file_stem(p.as_str());
                    t.append(" globals");
                    t
                },
                _ => base.clone(),
            };
            assert(target@ == orphan_target(order, f@.file, base@));
            let found2: Option<Class> = match classes.get(target.as_str()) {
                Option::Some(c) => Option::Some(c.clone()),
                Option::None => Option::None,
            };
            let merge: bool = match &found2 {
                Option::Some(c) => matches!(order, OutputOrder::ByClass) || ostr_eq(
                    &c.file,
                    &f.file,
                ),
                Option::None => false,
            };
            if merge {
                let mut c = match found2 {
                    Option::Some(c) => c,
                    Option::None => Class {
                        file: Option::None,
                        line_number: Option::None,
                        scope: Scope::Local,
                        name: String::new(),
                        fields: Vec::new(),
                        functions: Vec::new(),
                        enums: Vec::new(),
                        constants: Vec::new(),
                        desc: String::new(),
                    },
                };
                assert(c@ == map_lookup(classes@, target@));
                if has_function_named(&c.functions, &stripped.name) {
                } else {
                    c.functions.push(stripped);
                    proof {
                        assert(functions_view(c.functions@) =~= map_lookup(
                            classes@,
                            target@,
                        ).functions.push(spec_strip_function_base(f@)));
                        assert(c@ == ClassV {
                            functions: map_lookup(classes@, target@).functions.push(
                                spec_strip_function_base(f@),
                            ),
                            ..map_lookup(classes@, target@)
                        });
                    }
                    classes.insert(target, c);
                }
            } else {
                let mut functions: Vec<Function> = Vec::new();
                functions.push(stripped);
                let fresh = Class {
                    file: clone_ostr(&f.file),
                    line_number: f.line_number,
                    scope: Scope::from_name(base.as_str(), namespace),
                    name: target.clone(),
                    fields: Vec::new(),
                    functions,
                    enums: Vec::new(),
                    constants: Vec::new(),
                    desc: String::new(),
                };
                proof {
                    assert(functions_view(fresh.functions@) =~= seq![
                        spec_strip_function_base(f@),
                    ]);
                    assert(vars_view(fresh.fields@) =~= Seq::<VarV>::empty());
                    assert(enums_view(fresh.enums@) =~= Seq::<EnumV>::empty());
                    assert(vars_view(fresh.constants@) =~= Seq::<VarV>::empty());
                    assert(fresh@ == ClassV {
                        functions: seq![spec_strip_function_base(f@)],
                        ..fresh_container(target@, base@, namespace@, f@.file, f@.line_number)
                    });
                }
                classes.insert(target, fresh);
            }
        },
    }
}


// ------------------------------------------------------------------
// Building the tables from the records.

/// The model of a record list.
pub open spec fn defs_view(ds: Seq<Def>) -> Seq<DefsV> {
    ds.map_values(|d: Def| d@)
}

/// Sorts the records into the three tables and the leftover functions.
pub fn build_tables(defs: Vec<Def>) -> (r: (Library, Vec<Function>))
    ensures
        r.0.wf(),
        r.0@.classes == tables_of(defs_view(defs@)).classes,
        r.0@.enums == tables_of(defs_view(defs@)).enums,
        r.0@.aliases == tables_of(defs_view(defs@)).aliases,
        functions_view(r.1@) == tables_of(defs_view(defs@)).functions,
{
    let ghost d0 = defs@;
    let mut src = defs;
    let mut lib = Library {
        classes: NameMap::new(),
        enums: NameMap::new(),
        aliases: NameMap::new(),
    };
    let mut dangling: Vec<Function> = Vec::new();
    proof {
        assert(defs_view(d0).subrange(0, 0) =~= Seq::<DefsV>::empty());
        assert(functions_view(dangling@) =~= Seq::<FunctionV>::empty());
    }
    while src.len() > 0
        invariant
            lib.wf(),
            src@.len() <= d0.len(),
            src@ =~= d0.subrange(d0.len() - src@.len(), d0.len() as int),
            lib@.classes == tables_of(defs_view(d0).subrange(0, d0.len() - src@.len())).classes,
            lib@.enums == tables_of(defs_view(d0).subrange(0, d0.len() - src@.len())).enums,
            lib@.aliases == tables_of(defs_view(d0).subrange(0, d0.len() - src@.len())).aliases,
            functions_view(dangling@) == tables_of(
                defs_view(d0).subrange(0, d0.len() - src@.len()),
            ).functions,
        decreases src@.len(),
    {
        let ghost i = d0.len() - src@.len();
        proof {
            assert(0 <= i < d0.len());
        }
        let d = src.remove(0);
        proof {
            assert(d == d0[i]);
            assert(src@ =~= d0.subrange(i + 1, d0.len() as int));
            let pfx = defs_view(d0).subrange(0, i);
            let pfx1 = defs_view(d0).subrange(0, i + 1);
            assert(pfx1.drop_last() =~= pfx);
            assert(pfx1.last() == defs_view(d0)[i]);
            assert(defs_view(d0)[i] == d0[i]@);
        }
        match d {
            Def::Class(c) => {
                let key = c.name.clone();
                lib.classes.insert(key, c);
            },
            Def::Enum(e) => {
                let key = e.name.clone();
                lib.enums.insert(key, e);
            },
            Def::Alias(a) => {
                let key = a.name.clone();
                lib.aliases.insert(key, a);
            },
            Def::Function(f) => {
                dangling.push(f);
                proof {
                    assert(functions_view(dangling@) =~= tables_of(
                        defs_view(d0).subrange(0, i + 1),
                    ).functions);
                }
            },
        }
    }
    proof {
        assert(defs_view(d0).subrange(0, d0.len() as int) =~= defs_view(d0));
    }
    (lib, dangling)
}

// ------------------------------------------------------------------
// Attaching every orphan, in table order.

/// The class table after the first `n` enums of the table have been
/// attached, in order.
pub open spec fn attach_enumsv(
    classes: Seq<(Seq<char>, ClassV)>,
    order: OutputOrder,
    ns: Seq<char>,
    es: Seq<(Seq<char>, EnumV)>,
    n: int,
) -> Seq<(Seq<char>, ClassV)>
    decreases n,
{
    if n <= 0 {
        classes
    } else {
        attach_enumv(attach_enumsv(classes, order, ns, es, n - 1), order, ns, es[n - 1].1)
    }
}

/// The class table after the first `n` functions of the list have been
/// attached, in order.
pub open spec fn attach_functionsv(
    classes: Seq<(Seq<char>, ClassV)>,
    order: OutputOrder,
    ns: Seq<char>,
    fs: Seq<FunctionV>,
    n: int,
) -> Seq<(Seq<char>, ClassV)>
    decreases n,
{
    if n <= 0 {
        classes
    } else {
        attach_functionv(attach_functionsv(classes, order, ns, fs, n - 1), order, ns, fs[n - 1])
    }
}

/// Attaches every enum of the enum table to a container.
pub fn assign_enums(lib: &mut Library, order: OutputOrder, namespace: &str)
    requires
        old(lib).wf(),
    ensures
        final(lib).wf(),
        final(lib)@.classes == attach_enumsv(
            old(lib)@.classes,
            order,
            namespace@,
            old(lib)@.enums,
            old(lib)@.enums.len() as int,
        ),
        final(lib)@.enums == old(lib)@.enums,
        final(lib)@.aliases == old(lib)@.aliases,
{
    let ghost c0 = lib@.classes;
    let ghost e0 = lib@.enums;
    let n = lib.enums.len();
    let mut i: usize = 0;
    while i < n
        invariant
            lib.wf(),
            i <= n == lib@.enums.len(),
            lib@.enums == e0,
            lib@.aliases == old(lib)@.aliases,
            lib@.classes == attach_enumsv(c0, order, namespace@, e0, i as int),
        decreases n - i,
    {
        let e = lib.enums.value_at(i).clone();
        proof {
            assert(e@ == e0[i as int].1);
        }
        attach_enum(&mut lib.classes, order, namespace, &e);
        i = i + 1;
    }
}

/// Attaches every leftover function to a container.
pub fn assign_functions(lib: &mut Library, fns: &Vec<Function>, order: OutputOrder, namespace: &str)
    requires
        old(lib).wf(),
    ensures
        final(lib).wf(),
        final(lib)@.classes == attach_functionsv(
            old(lib)@.classes,
            order,
            namespace@,
            functions_view(fns@),
            fns@.len() as int,
        ),
        final(lib)@.enums == old(lib)@.enums,
        final(lib)@.aliases == old(lib)@.aliases,
{
    let ghost c0 = lib@.classes;
    let mut i: usize = 0;
    while i < fns.len()
        invariant
            lib.wf(),
            i <= fns@.len(),
            lib@.enums == old(lib)@.enums,
            lib@.aliases == old(lib)@.aliases,
            lib@.classes == attach_functionsv(
                c0,
                order,
                namespace@,
                functions_view(fns@),
                i as int,
            ),
        decreases fns@.len() - i,
    {
        proof {
            assert(functions_view(fns@)[i as int] == fns@[i as int]@);
        }
        attach_function(&mut lib.classes, order, namespace, &fns[i]);
        i = i + 1;
    }
}

// ------------------------------------------------------------------
// The exclusion list.

/// Whether the name is on the exclusion list.
pub open spec fn is_excluded(excluded: Seq<Seq<char>>, n: Seq<char>) -> bool {
    excluded.contains(n)
}

/// The class table without the excluded containers, order kept.
pub open spec fn without_excluded(
    classes: Seq<(Seq<char>, ClassV)>,
    excluded: Seq<Seq<char>>,
) -> Seq<(Seq<char>, ClassV)> {
    classes.filter(|e: (Seq<char>, ClassV)| !is_excluded(excluded, e.0))
}

/// Drops the excluded containers from the class table, order kept.
pub fn apply_excludes(classes: &NameMap<Class>, excluded: &Vec<String>) -> (r: NameMap<Class>)
    requires
        classes.wf(),
    ensures
        r.wf(),
        r@ == without_excluded(classes@, strs_view(excluded@)),
{
    let mut r: NameMap<Class> = NameMap::new();
    let n = classes.len();
    let mut i: usize = 0;
    proof {
        reveal(Seq::filter);
        assert(r@ =~= without_excluded(classes@.subrange(0, 0), strs_view(excluded@)));
    }
    while i < n
        invariant
            classes.wf(),
            r.wf(),
            i <= n == classes@.len(),
            r@ == without_excluded(classes@.subrange(0, i as int), strs_view(excluded@)),
            forall|w: int| 0 <= w < r@.len() ==> exists|j: int|
                0 <= j < i && classes@[j] == #[trigger] r@[w],
        decreases n - i,
    {
        let ghost pfx = classes@.subrange(0, i as int);
        let ghost pfx1 = classes@.subrange(0, i + 1 as int);
        proof {
            reveal(Seq::filter);
            assert(pfx1.drop_last() =~= pfx);
            assert(pfx1.last() == classes@[i as int]);
        }
        let key = classes.key_at(i).clone();
        proof {
            assert(key@ == classes@[i as int].0);
        }
        let ghost rold = r@;
        if !crate::closure::contains_str(excluded, key.as_str()) {
            proof {
                assert(!map_has_key(r@, key@)) by {
                    if map_has_key(r@, key@) {
                        let w = map_key_index(r@, key@);
                        assert(0 <= w < r@.len() && r@[w].0 == key@);
                        let j = choose|j: int| 0 <= j < i && classes@[j] == r@[w];
                        assert(classes@[j].0 == classes@[i as int].0);
                    }
                }
            }
            let value = classes.value_at(i).clone();
            r.insert(key, value);
            proof {
                reveal(Seq::filter);
                assert(r@ =~= without_excluded(pfx1, strs_view(excluded@)));
                assert forall|w: int| 0 <= w < r@.len() implies exists|j: int|
                    0 <= j < i + 1 && classes@[j] == #[trigger] r@[w] by {
                    if w < rold.len() {
                        assert(r@[w] == rold[w]);
                        let j = choose|j: int| 0 <= j < i && classes@[j] == rold[w];
                        assert(classes@[j] == r@[w]);
                    } else {
                        assert(r@[w] == classes@[i as int]);
                    }
                }
            }
        } else {
            proof {
                reveal(Seq::filter);
                assert(r@ =~= without_excluded(pfx1, strs_view(excluded@)));
            }
        }
        i = i + 1;
    }
    proof {
        assert(classes@.subrange(0, n as int) =~= classes@);
    }
    r
}


// ------------------------------------------------------------------
// Final member lists: deduplicated, constants extracted, sorted.

/// The member order on functions.
pub open spec fn fnv_le(a: FunctionV, b: FunctionV) -> bool {
    file_line_le(a.file, a.line_number, b.file, b.line_number)
}

/// The member order on enums.
pub open spec fn enumv_le(a: EnumV, b: EnumV) -> bool {
    file_line_le(a.file, a.line_number, b.file, b.line_number)
}

/// The member order on vars.
pub open spec fn varv_le(a: VarV, b: VarV) -> bool {
    file_line_le(a.file, a.line_number, b.file, b.line_number)
}

/// Two functions are the same member when their signature text agrees.
pub open spec fn fnv_same_sig(a: FunctionV, b: FunctionV) -> bool {
    fn_sig(a) == fn_sig(b)
}

/// Whether a field stays in the field list: not a constant and not a
/// bare table shape (those stand for nested containers).
pub open spec fn keep_fieldv(v: VarV) -> bool {
    !spec_is_constant(v) && v.kind != KindV::Lua(LuaKind::Table)
}

// The relations and view maps, each defined once so every use names the
// same function value.

pub open spec fn fnv_same_sig_rel() -> spec_fn(FunctionV, FunctionV) -> bool {
    |a: FunctionV, b: FunctionV| fnv_same_sig(a, b)
}

pub open spec fn fnv_le_rel() -> spec_fn(FunctionV, FunctionV) -> bool {
    |a: FunctionV, b: FunctionV| fnv_le(a, b)
}

pub open spec fn enumv_same_name_rel() -> spec_fn(EnumV, EnumV) -> bool {
    |a: EnumV, b: EnumV| a.name == b.name
}

pub open spec fn enumv_le_rel() -> spec_fn(EnumV, EnumV) -> bool {
    |a: EnumV, b: EnumV| enumv_le(a, b)
}

pub open spec fn varv_same_name_rel() -> spec_fn(VarV, VarV) -> bool {
    |a: VarV, b: VarV| a.name == b.name
}

pub open spec fn varv_le_rel() -> spec_fn(VarV, VarV) -> bool {
    |a: VarV, b: VarV| varv_le(a, b)
}

pub open spec fn keep_fieldv_pred() -> spec_fn(VarV) -> bool {
    |v: VarV| keep_fieldv(v)
}

pub open spec fn is_constantv_pred() -> spec_fn(VarV) -> bool {
    |v: VarV| spec_is_constant(v)
}

pub open spec fn fn_sig_eq_rel() -> spec_fn(Function, Function) -> bool {
    |a: Function, b: Function| fnv_same_sig(a@, b@)
}

pub open spec fn fn_le_rel() -> spec_fn(Function, Function) -> bool {
    |a: Function, b: Function| fnv_le(a@, b@)
}

pub open spec fn enum_name_eq_rel() -> spec_fn(Enum, Enum) -> bool {
    |a: Enum, b: Enum| a@.name == b@.name
}

pub open spec fn enum_le_rel() -> spec_fn(Enum, Enum) -> bool {
    |a: Enum, b: Enum| enumv_le(a@, b@)
}

pub open spec fn var_name_eq_rel() -> spec_fn(Var, Var) -> bool {
    |a: Var, b: Var| a@.name == b@.name
}

pub open spec fn var_le_rel() -> spec_fn(Var, Var) -> bool {
    |a: Var, b: Var| varv_le(a@, b@)
}

pub open spec fn keep_field_pred() -> spec_fn(Var) -> bool {
    |v: Var| keep_fieldv(v@)
}

pub open spec fn is_constant_pred() -> spec_fn(Var) -> bool {
    |v: Var| spec_is_constant(v@)
}

pub open spec fn fn_view_map() -> spec_fn(Function) -> FunctionV {
    |f: Function| f@
}

pub open spec fn enum_view_map() -> spec_fn(Enum) -> EnumV {
    |e: Enum| e@
}

pub open spec fn var_view_map() -> spec_fn(Var) -> VarV {
    |v: Var| v@
}

/// The function list a finished container holds, before ordering:
/// first occurrence of each signature.
pub open spec fn final_functionsv(fs: Seq<FunctionV>) -> Seq<FunctionV> {
    dedup_by_spec(fs, fnv_same_sig_rel())
}

/// The enum list a finished container holds, before ordering.
pub open spec fn final_enumsv(es: Seq<EnumV>) -> Seq<EnumV> {
    dedup_by_spec(es, enumv_same_name_rel())
}

/// The field list a finished container holds, before ordering: the
/// non-constant, non-table fields, first occurrence of each name.
pub open spec fn final_fieldsv(vs: Seq<VarV>) -> Seq<VarV> {
    dedup_by_spec(vs.filter(keep_fieldv_pred()), varv_same_name_rel())
}

/// The constant list a finished container holds, before ordering: the
/// constant-style fields, first occurrence of each name.
pub open spec fn final_constantsv(vs: Seq<VarV>) -> Seq<VarV> {
    dedup_by_spec(vs.filter(is_constantv_pred()), varv_same_name_rel())
}

/// How a finished container relates to its raw form: everything but the
/// member lists unchanged; each member list deduplicated, with the
/// constants extracted from the fields, and sorted by the member order.
pub open spec fn finalize_relv(c: ClassV, d: ClassV) -> bool {
    &&& d.name == c.name
    &&& d.file == c.file
    &&& d.line_number == c.line_number
    &&& d.scope == c.scope
    &&& d.desc == c.desc
    &&& sorted_by(d.functions, fnv_le_rel())
    &&& d.functions.to_multiset() == final_functionsv(c.functions).to_multiset()
    &&& sorted_by(d.enums, enumv_le_rel())
    &&& d.enums.to_multiset() == final_enumsv(c.enums).to_multiset()
    &&& sorted_by(d.fields, varv_le_rel())
    &&& d.fields.to_multiset() == final_fieldsv(c.fields).to_multiset()
    &&& sorted_by(d.constants, varv_le_rel())
    &&& d.constants.to_multiset() == final_constantsv(c.fields).to_multiset()
}

/// Splits a field list into the kept fields and the constants.
fn split_fields(vs: Vec<Var>) -> (r: (Vec<Var>, Vec<Var>))
    ensures
        r.0@ == vs@.filter(keep_field_pred()),
        r.1@ == vs@.filter(is_constant_pred()),
{
    let ghost v0 = vs@;
    let mut src = vs;
    let mut fields: Vec<Var> = Vec::new();
    let mut constants: Vec<Var> = Vec::new();
    proof {
        reveal(Seq::filter);
        assert(fields@ =~= v0.subrange(0, 0).filter(keep_field_pred()));
        assert(constants@ =~= v0.subrange(0, 0).filter(is_constant_pred()));
    }
    while src.len() > 0
        invariant
            src@.len() <= v0.len(),
            src@ =~= v0.subrange(v0.len() - src@.len(), v0.len() as int),
            fields@ == v0.subrange(0, v0.len() - src@.len()).filter(keep_field_pred()),
            constants@ == v0.subrange(0, v0.len() - src@.len()).filter(is_constant_pred()),
        decreases src@.len(),
    {
        let ghost i = v0.len() - src@.len();
        proof {
            assert(0 <= i < v0.len());
        }
        let x = src.remove(0);
        proof {
            assert(x == v0[i]);
            assert(src@ =~= v0.subrange(i + 1, v0.len() as int));
        }
        let is_const = x.is_constant();
        let is_table = matches!(x.kind, Kind::Lua(LuaKind::Table));
        proof {
            if is_table {
                assert(x@.kind == KindV::Lua(LuaKind::Table));
            } else {
                assert(x@.kind != KindV::Lua(LuaKind::Table)) by {
                    if x@.kind == KindV::Lua(LuaKind::Table) {
                        match x.kind {
                            Kind::Lua(l) => {
                                assert(l == LuaKind::Table);
                            },
                            _ => {
                                assert(false);
                            },
                        }
                    }
                }
            }
            assert(keep_fieldv(x@) == (!is_const && !is_table));
            assert(spec_is_constant(x@) == is_const);
        }
        if is_const {
            constants.push(x);
        } else if !is_table {
            fields.push(x);
        }
        proof {
            reveal(Seq::filter);
            let pfx = v0.subrange(0, i);
            let pfx1 = v0.subrange(0, i + 1);
            assert(pfx1.drop_last() =~= pfx);
            assert(pfx1.last() == v0[i]);
            assert(fields@ == pfx1.filter(keep_field_pred()));
            assert(constants@ == pfx1.filter(is_constant_pred()));
        }
    }
    proof {
        assert(v0.subrange(0, v0.len() as int) =~= v0);
    }
    (fields, constants)
}


/// Decides the member order on functions.
fn cmp_fn_le(a: &Function, b: &Function) -> (res: bool)
    ensures
        res == fnv_le(a@, b@),
{
    crate::order::file_line_le_exec(&a.file, a.line_number, &b.file, b.line_number)
}

/// Decides the member order on enums.
fn cmp_enum_le(a: &Enum, b: &Enum) -> (res: bool)
    ensures
        res == enumv_le(a@, b@),
{
    crate::order::file_line_le_exec(&a.file, a.line_number, &b.file, b.line_number)
}

/// Decides the member order on vars.
fn cmp_var_le(a: &Var, b: &Var) -> (res: bool)
    ensures
        res == varv_le(a@, b@),
{
    crate::order::file_line_le_exec(&a.file, a.line_number, &b.file, b.line_number)
}

/// Decides whether two functions render the same signature.
fn same_fn_sig(a: &Function, b: &Function) -> (res: bool)
    ensures
        res == fnv_same_sig(a@, b@),
{
    let sa = a.show();
    let sb = b.show();
    str_eq(sa.as_str(), sb.as_str())
}

/// Decides whether two enums share a name.
fn same_enum_name(a: &Enum, b: &Enum) -> (res: bool)
    ensures
        res == (a@.name == b@.name),
{
    str_eq(a.name.as_str(), b.name.as_str())
}

/// Decides whether two vars share a name.
fn same_var_name(a: &Var, b: &Var) -> (res: bool)
    ensures
        res == (a@.name == b@.name),
{
    ostr_eq(&a.name, &b.name)
}

/// Orders a list of functions by the member order.
fn sort_functions(fs: Vec<Function>) -> (r: Vec<Function>)
    ensures
        r@.to_multiset() == fs@.to_multiset(),
        sorted_by(functions_view(r@), fnv_le_rel()),
{
    proof {
        assert(vstd::relations::strongly_connected(fn_le_rel())) by {
            assert forall|a: Function, b: Function| #[trigger] fn_le_rel()(a, b) || fn_le_rel()(
                b,
                a,
            ) by {
                lemma_file_line_le_total(a@.file, a@.line_number, b@.file, b@.line_number);
            }
        }
        assert(vstd::relations::transitive(fn_le_rel())) by {
            assert forall|a: Function, b: Function, c: Function|
                #[trigger] fn_le_rel()(a, b) && #[trigger] fn_le_rel()(b, c) implies fn_le_rel()(
                a,
                c,
            ) by {
                lemma_file_line_le_trans(
                    a@.file,
                    a@.line_number,
                    b@.file,
                    b@.line_number,
                    c@.file,
                    c@.line_number,
                );
            }
        }
    }
    let r = sort_by_le(fs, cmp_fn_le, Ghost(fn_le_rel()));
    proof {
        assert(forall|x: &Function, y: &Function, b: bool|
            call_ensures(cmp_fn_le, (x, y), b) ==> b == fn_le_rel()(*x, *y));
    }
    proof {
        crate::order::lemma_sorted_map(r@, fn_view_map(), fn_le_rel(), fnv_le_rel());
        assert(r@.map_values(fn_view_map()) =~= functions_view(r@));
    }
    r
}

/// Orders a list of enums by the member order.
fn sort_enums(es: Vec<Enum>) -> (r: Vec<Enum>)
    ensures
        r@.to_multiset() == es@.to_multiset(),
        sorted_by(enums_view(r@), enumv_le_rel()),
{
    proof {
        assert(vstd::relations::strongly_connected(enum_le_rel())) by {
            assert forall|a: Enum, b: Enum| #[trigger] enum_le_rel()(a, b) || enum_le_rel()(
                b,
                a,
            ) by {
                lemma_file_line_le_total(a@.file, a@.line_number, b@.file, b@.line_number);
            }
        }
        assert(vstd::relations::transitive(enum_le_rel())) by {
            assert forall|a: Enum, b: Enum, c: Enum|
                #[trigger] enum_le_rel()(a, b) && #[trigger] enum_le_rel()(b, c) implies enum_le_rel()(
                a,
                c,
            ) by {
                lemma_file_line_le_trans(
                    a@.file,
                    a@.line_number,
                    b@.file,
                    b@.line_number,
                    c@.file,
                    c@.line_number,
                );
            }
        }
    }
    let r = sort_by_le(es, cmp_enum_le, Ghost(enum_le_rel()));
    proof {
        crate::order::lemma_sorted_map(r@, enum_view_map(), enum_le_rel(), enumv_le_rel());
        assert(r@.map_values(enum_view_map()) =~= enums_view(r@));
    }
    r
}

/// Orders a list of vars by the member order.
fn sort_vars(vs: Vec<Var>) -> (r: Vec<Var>)
    ensures
        r@.to_multiset() == vs@.to_multiset(),
        sorted_by(vars_view(r@), varv_le_rel()),
{
    proof {
        assert(vstd::relations::strongly_connected(var_le_rel())) by {
            assert forall|a: Var, b: Var| #[trigger] var_le_rel()(a, b) || var_le_rel()(b, a) by {
                lemma_file_line_le_total(a@.file, a@.line_number, b@.file, b@.line_number);
            }
        }
        assert(vstd::relations::transitive(var_le_rel())) by {
            assert forall|a: Var, b: Var, c: Var|
                #[trigger] var_le_rel()(a, b) && #[trigger] var_le_rel()(b, c) implies var_le_rel()(
                a,
                c,
            ) by {
                lemma_file_line_le_trans(
                    a@.file,
                    a@.line_number,
                    b@.file,
                    b@.line_number,
                    c@.file,
                    c@.line_number,
                );
            }
        }
    }
    let r = sort_by_le(vs, cmp_var_le, Ghost(var_le_rel()));
    proof {
        broadcast use lemma_vars_view_len, lemma_vars_view_index;

        crate::order::lemma_sorted_map(r@, var_view_map(), var_le_rel(), varv_le_rel());
        assert(r@.map_values(var_view_map()) =~= vars_view(r@));
    }
    r
}

/// Puts one container's member lists into their final form.
#[verifier::rlimit(60)]
pub fn finalize_class(c: Class) -> (r: Class)
    ensures
        finalize_relv(c@, r@),
{
    let Class { file, line_number, scope, name, fields, functions, enums, constants: _, desc } = c;
    let ghost c0fns = functions@;
    let ghost c0enums = enums@;
    let ghost c0fields = fields@;

    // functions: first of each signature, then ordered
    let dd_fns = dedup_by(functions, same_fn_sig, Ghost(fn_sig_eq_rel()));
    let sorted_fns = sort_functions(dd_fns);
    proof {
        crate::order::lemma_dedup_map(c0fns, fn_view_map(), fn_sig_eq_rel(), fnv_same_sig_rel());
        assert(c0fns.map_values(fn_view_map()) =~= functions_view(c0fns));
        crate::order::lemma_multiset_map(
            sorted_fns@,
            dedup_by_spec(c0fns, fn_sig_eq_rel()),
            fn_view_map(),
        );
        assert(sorted_fns@.map_values(fn_view_map()) =~= functions_view(sorted_fns@));
        assert(dedup_by_spec(c0fns, fn_sig_eq_rel()).map_values(fn_view_map())
            == final_functionsv(functions_view(c0fns)));
    }

    // enums: first of each name, then ordered
    let dd_enums = dedup_by(enums, same_enum_name, Ghost(enum_name_eq_rel()));
    let sorted_enums = sort_enums(dd_enums);
    proof {
        crate::order::lemma_dedup_map(
            c0enums,
            enum_view_map(),
            enum_name_eq_rel(),
            enumv_same_name_rel(),
        );
        assert(c0enums.map_values(enum_view_map()) =~= enums_view(c0enums));
        crate::order::lemma_multiset_map(
            sorted_enums@,
            dedup_by_spec(c0enums, enum_name_eq_rel()),
            enum_view_map(),
        );
        assert(sorted_enums@.map_values(enum_view_map()) =~= enums_view(sorted_enums@));
        assert(dedup_by_spec(c0enums, enum_name_eq_rel()).map_values(enum_view_map())
            == final_enumsv(enums_view(c0enums)));
    }

    // fields: constants extracted, first of each name, then ordered
    let (kept, consts) = split_fields(fields);
    let dd_fields = dedup_by(kept, same_var_name, Ghost(var_name_eq_rel()));
    let sorted_fields = sort_vars(dd_fields);
    let dd_consts = dedup_by(consts, same_var_name, Ghost(var_name_eq_rel()));
    let sorted_consts = sort_vars(dd_consts);
    proof {
        crate::order::lemma_filter_map(
            c0fields,
            var_view_map(),
            keep_field_pred(),
            keep_fieldv_pred(),
        );
        crate::order::lemma_filter_map(
            c0fields,
            var_view_map(),
            is_constant_pred(),
            is_constantv_pred(),
        );
        broadcast use lemma_vars_view_len, lemma_vars_view_index;

        assert(c0fields.map_values(var_view_map()) =~= vars_view(c0fields));
        crate::order::lemma_dedup_map(
            c0fields.filter(keep_field_pred()),
            var_view_map(),
            var_name_eq_rel(),
            varv_same_name_rel(),
        );
        crate::order::lemma_dedup_map(
            c0fields.filter(is_constant_pred()),
            var_view_map(),
            var_name_eq_rel(),
            varv_same_name_rel(),
        );
        crate::order::lemma_multiset_map(
            sorted_fields@,
            dedup_by_spec(c0fields.filter(keep_field_pred()), var_name_eq_rel()),
            var_view_map(),
        );
        crate::order::lemma_multiset_map(
            sorted_consts@,
            dedup_by_spec(c0fields.filter(is_constant_pred()), var_name_eq_rel()),
            var_view_map(),
        );
        assert(sorted_fields@.map_values(var_view_map()) =~= vars_view(sorted_fields@));
        assert(sorted_consts@.map_values(var_view_map()) =~= vars_view(sorted_consts@));
        assert(vars_view(sorted_fields@).to_multiset() == final_fieldsv(
            vars_view(c0fields),
        ).to_multiset());
        assert(vars_view(sorted_consts@).to_multiset() == final_constantsv(
            vars_view(c0fields),
        ).to_multiset());
    }

    let r = Class {
        file,
        line_number,
        scope,
        name,
        fields: sorted_fields,
        functions: sorted_fns,
        enums: sorted_enums,
        constants: sorted_consts,
        desc,
    };
    r
}


// ------------------------------------------------------------------
// The whole pipeline.

/// The library as first built from the records, before resolution.
pub open spec fn built_lib(dv: Seq<DefsV>) -> LibraryV {
    let t = tables_of(dv);
    LibraryV { classes: t.classes, enums: t.enums, aliases: t.aliases }
}

/// Every class of the table resolved against the built library.
pub open spec fn resolved_classesv(lib0: LibraryV) -> Seq<(Seq<char>, ClassV)> {
    Seq::new(
        lib0.classes.len(),
        |i: int| (lib0.classes[i].0, crate::library::resolve_classv(lib0, lib0.classes[i].1)),
    )
}

/// Every alias of the table with its target shape resolved.
pub open spec fn resolved_aliasesv(lib0: LibraryV) -> Seq<(Seq<char>, AliasV)> {
    Seq::new(
        lib0.aliases.len(),
        |i: int| (
            lib0.aliases[i].0,
            AliasV { kind: resolve_kindv(lib0, lib0.aliases[i].1.kind), ..lib0.aliases[i].1 },
        ),
    )
}

/// The class table after the full pipeline, short of ordering: records
/// sorted into tables, names resolved, orphans attached, exclusions
/// applied.
pub open spec fn staged_classesv(
    dv: Seq<DefsV>,
    order: OutputOrder,
    ns: Seq<char>,
    excluded: Seq<Seq<char>>,
) -> Seq<(Seq<char>, ClassV)> {
    let lib0 = built_lib(dv);
    let t = tables_of(dv);
    without_excluded(
        attach_functionsv(
            attach_enumsv(resolved_classesv(lib0), order, ns, t.enums, t.enums.len() as int),
            order,
            ns,
            crate::library::resolve_functionsv(lib0, t.functions),
            t.functions.len() as int,
        ),
        excluded,
    )
}

impl Library {
    /// Builds the full documentation graph from the records: populates
    /// the tables, resolves every name, attaches every orphaned enum and
    /// function to its container, drops the excluded containers, and puts
    /// every member list into its final deduplicated, sorted form.
    pub fn from_defs(defs: Vec<Def>, options: &Options) -> (r: Library)
        ensures
            r.wf(),
            r@.enums == tables_of(defs_view(defs@)).enums,
            r@.aliases == resolved_aliasesv(built_lib(defs_view(defs@))),
            r@.classes.len() == staged_classesv(
                defs_view(defs@),
                options@.order,
                options@.namespace,
                options@.excluded_classes,
            ).len(),
            forall|i: int| 0 <= i < r@.classes.len() ==> (#[trigger] r@.classes[i]).0
                == staged_classesv(
                defs_view(defs@),
                options@.order,
                options@.namespace,
                options@.excluded_classes,
            )[i].0 && finalize_relv(
                staged_classesv(
                    defs_view(defs@),
                    options@.order,
                    options@.namespace,
                    options@.excluded_classes,
                )[i].1,
                r@.classes[i].1,
            ),
    {
        let ghost dv = defs_view(defs@);
        let (mut lib, mut dangling) = build_tables(defs);
        let ghost lib0v = lib@;
        proof {
            assert(lib0v == built_lib(dv));
        }

        // resolve classes against the snapshot of the tables
        lib.resolve_classes();
        proof {
            assert(lib@.classes =~= resolved_classesv(lib0v));
        }

        // resolve every alias target
        let ghost aliases0 = lib@.aliases;
        let na = lib.aliases.len();
        let mut i: usize = 0;
        while i < na
            invariant
                lib.wf(),
                i <= na == lib@.aliases.len(),
                lib@.classes == resolved_classesv(lib0v),
                lib@.enums == lib0v.enums,
                aliases0 == lib0v.aliases,
                lib@.aliases.len() == aliases0.len(),
                forall|j: int| 0 <= j < aliases0.len()
                    ==> (#[trigger] lib@.aliases[j]).0 == aliases0[j].0,
                forall|j: int| 0 <= j < i ==> (#[trigger] lib@.aliases[j]).1 == (AliasV {
                    kind: resolve_kindv(lib0v, aliases0[j].1.kind),
                    ..aliases0[j].1
                }),
                forall|j: int| i <= j < aliases0.len()
                    ==> (#[trigger] lib@.aliases[j]).1 == aliases0[j].1,
            decreases na - i,
        {
            let ghost before = lib@;
            let name = lib.aliases.key_at(i).clone();
            let a = lib.aliases.value_at(i).clone();
            let k = lib.resolve_kind(&a.kind);
            proof {
                // resolution reads only which names exist, and those are
                // unchanged since the tables were built
                assert forall|s: Seq<char>| map_has_key(lib@.classes, s) == map_has_key(
                    lib0v.classes,
                    s,
                ) by {
                    if map_has_key(lib@.classes, s) {
                        let w = map_key_index(lib@.classes, s);
                        assert(lib0v.classes[w].0 == s);
                    }
                    if map_has_key(lib0v.classes, s) {
                        let w = map_key_index(lib0v.classes, s);
                        assert(lib@.classes[w].0 == s);
                    }
                }
                assert forall|s: Seq<char>| map_has_key(lib@.aliases, s) == map_has_key(
                    lib0v.aliases,
                    s,
                ) by {
                    if map_has_key(lib@.aliases, s) {
                        let w = map_key_index(lib@.aliases, s);
                        assert(lib0v.aliases[w].0 == s);
                    }
                    if map_has_key(lib0v.aliases, s) {
                        let w = map_key_index(lib0v.aliases, s);
                        assert(lib@.aliases[w].0 == s);
                    }
                }
                crate::library::lemma_resolve_kindv_same_names(lib@, lib0v, a@.kind);
                assert(k@ == resolve_kindv(lib0v, aliases0[i as int].1.kind));
                assert(map_has_key(lib@.aliases, name@)) by {
                    assert(lib@.aliases[i as int].0 == name@);
                }
                assert(map_key_index(lib@.aliases, name@) == i) by {
                    let w = map_key_index(lib@.aliases, name@);
                    assert(0 <= w < lib@.aliases.len() && lib@.aliases[w].0 == name@);
                    if w != i {
                        assert(false);
                    }
                }
            }
            let resolved = Alias {
                file: a.file,
                line_number: a.line_number,
                name: a.name,
                kind: k,
                desc: a.desc,
            };
            lib.aliases.insert(name, resolved);
            proof {
                assert(lib@.aliases =~= before.aliases.update(
                    i as int,
                    (before.aliases[i as int].0, AliasV {
                        kind: resolve_kindv(lib0v, aliases0[i as int].1.kind),
                        ..aliases0[i as int].1
                    }),
                ));
            }
            i = i + 1;
        }
        proof {
            assert(lib@.aliases =~= resolved_aliasesv(lib0v));
        }

        // resolve every leftover function
        let ghost dang0 = functions_view(dangling@);
        let mut j: usize = 0;
        while j < dangling.len()
            invariant
                lib.wf(),
                j <= dangling@.len(),
                dang0.len() == dangling@.len(),
                lib@.classes == resolved_classesv(lib0v),
                lib@.enums == lib0v.enums,
                lib@.aliases == resolved_aliasesv(lib0v),
                forall|p: int| 0 <= p < j ==> function_view(#[trigger] dangling@[p])
                    == crate::library::resolve_functionv(lib0v, dang0[p]),
                forall|p: int| j <= p < dangling@.len()
                    ==> function_view(#[trigger] dangling@[p]) == dang0[p],
            decreases dangling@.len() - j,
        {
            proof {
                assert forall|s: Seq<char>| map_has_key(lib@.classes, s) == map_has_key(
                    lib0v.classes,
                    s,
                ) by {
                    if map_has_key(lib@.classes, s) {
                        let w = map_key_index(lib@.classes, s);
                        assert(lib0v.classes[w].0 == s);
                    }
                    if map_has_key(lib0v.classes, s) {
                        let w = map_key_index(lib0v.classes, s);
                        assert(lib@.classes[w].0 == s);
                    }
                }
                assert forall|s: Seq<char>| map_has_key(lib@.aliases, s) == map_has_key(
                    lib0v.aliases,
                    s,
                ) by {
                    if map_has_key(lib@.aliases, s) {
                        let w = map_key_index(lib@.aliases, s);
                        assert(lib0v.aliases[w].0 == s);
                    }
                    if map_has_key(lib0v.aliases, s) {
                        let w = map_key_index(lib0v.aliases, s);
                        assert(lib@.aliases[w].0 == s);
                    }
                }
            }
            let ghost fbefore = function_view(dangling@[j as int]);
            lib.resolve_function(&mut dangling[j]);
            proof {
                crate::library::lemma_resolve_functionv_same_names(lib@, lib0v, fbefore);
            }
            j = j + 1;
        }
        proof {
            assert(functions_view(dangling@) =~= crate::library::resolve_functionsv(
                lib0v,
                dang0,
            ));
        }

        // attach the orphans
        assign_enums(&mut lib, options.order, options.namespace.as_str());
        assign_functions(&mut lib, &dangling, options.order, options.namespace.as_str());

        // apply the exclusion list
        let kept = apply_excludes(&lib.classes, &options.excluded_classes);
        lib.classes = kept;
        let ghost staged = staged_classesv(
            dv,
            options@.order,
            options@.namespace,
            options@.excluded_classes,
        );
        proof {
            assert(lib@.classes == staged);
        }

        // put every member list in final form
        let nc = lib.classes.len();
        let mut p: usize = 0;
        while p < nc
            invariant
                lib.wf(),
                p <= nc == lib@.classes.len(),
                lib@.enums == lib0v.enums,
                lib@.aliases == resolved_aliasesv(lib0v),
                lib@.classes.len() == staged.len(),
                forall|q: int| 0 <= q < staged.len()
                    ==> (#[trigger] lib@.classes[q]).0 == staged[q].0,
                forall|q: int| 0 <= q < p ==> finalize_relv(
                    staged[q].1,
                    (#[trigger] lib@.classes[q]).1,
                ),
                forall|q: int| p <= q < staged.len()
                    ==> (#[trigger] lib@.classes[q]).1 == staged[q].1,
            decreases nc - p,
        {
            let ghost before = lib@;
            let name = lib.classes.key_at(p).clone();
            let c = lib.classes.value_at(p).clone();
            let done = finalize_class(c);
            proof {
                assert(map_has_key(lib@.classes, name@)) by {
                    assert(lib@.classes[p as int].0 == name@);
                }
                assert(map_key_index(lib@.classes, name@) == p) by {
                    let w = map_key_index(lib@.classes, name@);
                    assert(0 <= w < lib@.classes.len() && lib@.classes[w].0 == name@);
                    if w != p {
                        assert(false);
                    }
                }
            }
            lib.classes.insert(name, done);
            proof {
                assert(lib@.classes =~= before.classes.update(
                    p as int,
                    (before.classes[p as int].0, lib@.classes[p as int].1),
                ));
                assert(finalize_relv(staged[p as int].1, lib@.classes[p as int].1));
            }
            p = p + 1;
        }
        proof {
            assert(lib@.enums =~= tables_of(dv).enums);
        }
        lib
    }
}


// ------------------------------------------------------------------
// No dangling orphans: attaching an orphan touches exactly one
// container — the one its name selects — and afterwards a member under
// the orphan's leaf name stands in it.

/// The key of the container an orphan enum lands under.
pub open spec fn enum_home(
    classes: Seq<(Seq<char>, ClassV)>,
    order: OutputOrder,
    e: EnumV,
) -> Seq<char> {
    let base = base_or_global(e.name);
    if map_has_key(classes, base) {
        base
    } else {
        orphan_target(order, e.file, base)
    }
}

/// The key of the container an orphan function lands under.
pub open spec fn function_home(
    classes: Seq<(Seq<char>, ClassV)>,
    order: OutputOrder,
    f: FunctionV,
) -> Seq<char> {
    let base = base_or_global(match f.name {
        Option::Some(n) => n,
        Option::None => Seq::empty(),
    });
    if map_has_key(classes, base) {
        base
    } else {
        orphan_target(order, f.file, base)
    }
}

/// Law: after attachment an orphan enum is reachable from its home
/// container under its leaf name, and no other container has changed.
pub proof fn lemma_attach_enum_orphan(
    classes: Seq<(Seq<char>, ClassV)>,
    order: OutputOrder,
    ns: Seq<char>,
    e: EnumV,
)
    requires
        unique_keys(classes),
    ensures
        map_has_key(attach_enumv(classes, order, ns, e), enum_home(classes, order, e)),
        enum_named(
            map_lookup(attach_enumv(classes, order, ns, e), enum_home(classes, order, e)).enums,
            leaf_of(e.name),
        ),
        forall|k: Seq<char>| k != enum_home(classes, order, e) ==> map_has_key(
            attach_enumv(classes, order, ns, e),
            k,
        ) == map_has_key(classes, k),
        forall|k: Seq<char>| k != enum_home(classes, order, e) && map_has_key(classes, k)
            ==> map_lookup(attach_enumv(classes, order, ns, e), k) == map_lookup(classes, k),
{
    let base = base_or_global(e.name);
    let stripped = spec_strip_enum_base(e);
    let home = enum_home(classes, order, e);
    let r = attach_enumv(classes, order, ns, e);
    assert(stripped.name == leaf_of(e.name));
    if map_has_key(classes, base) {
        let c = map_lookup(classes, base);
        if enum_named(c.enums, stripped.name) {
            assert(r == classes);
        } else {
            let c2 = ClassV { enums: c.enums.push(stripped), ..c };
            crate::namemap::lemma_map_put(classes, base, c2);
            assert(c2.enums[c2.enums.len() - 1].name == leaf_of(e.name));
        }
    } else {
        let t = orphan_target(order, e.file, base);
        if map_has_key(classes, t) && (order == OutputOrder::ByClass || map_lookup(
            classes,
            t,
        ).file == e.file) {
            let c = map_lookup(classes, t);
            if enum_named(c.enums, stripped.name) {
                assert(r == classes);
            } else {
                let c2 = ClassV { enums: c.enums.push(stripped), ..c };
                crate::namemap::lemma_map_put(classes, t, c2);
                assert(c2.enums[c2.enums.len() - 1].name == leaf_of(e.name));
            }
        } else {
            let fresh = ClassV {
                enums: seq![stripped],
                ..fresh_container(t, base, ns, e.file, e.line_number)
            };
            crate::namemap::lemma_map_put(classes, t, fresh);
            assert(fresh.enums[0].name == leaf_of(e.name));
        }
    }
}

/// Law: after attachment an orphan function is reachable from its home
/// container under its leaf name, and no other container has changed.
pub proof fn lemma_attach_function_orphan(
    classes: Seq<(Seq<char>, ClassV)>,
    order: OutputOrder,
    ns: Seq<char>,
    f: FunctionV,
)
    requires
        unique_keys(classes),
    ensures
        map_has_key(attach_functionv(classes, order, ns, f), function_home(classes, order, f)),
        fn_named(
            map_lookup(
                attach_functionv(classes, order, ns, f),
                function_home(classes, order, f),
            ).functions,
            spec_strip_function_base(f).name,
        ),
        forall|k: Seq<char>| k != function_home(classes, order, f) ==> map_has_key(
            attach_functionv(classes, order, ns, f),
            k,
        ) == map_has_key(classes, k),
        forall|k: Seq<char>| k != function_home(classes, order, f) && map_has_key(classes, k)
            ==> map_lookup(attach_functionv(classes, order, ns, f), k) == map_lookup(classes, k),
{
    let fname = match f.name {
        Option::Some(n) => n,
        Option::None => Seq::<char>::empty(),
    };
    let base = base_or_global(fname);
    let stripped = spec_strip_function_base(f);
    let home = function_home(classes, order, f);
    let r = attach_functionv(classes, order, ns, f);
    if map_has_key(classes, base) {
        let c = map_lookup(classes, base);
        if fn_named(c.functions, stripped.name) {
            assert(r == classes);
        } else {
            let c2 = ClassV { functions: c.functions.push(stripped), ..c };
            crate::namemap::lemma_map_put(classes, base, c2);
            assert(c2.functions[c2.functions.len() - 1].name == stripped.name);
        }
    } else {
        let t = orphan_target(order, f.file, base);
        if map_has_key(classes, t) && (order == OutputOrder::ByClass || map_lookup(
            classes,
            t,
        ).file == f.file) {
            let c = map_lookup(classes, t);
            if fn_named(c.functions, stripped.name) {
                assert(r == classes);
            } else {
                let c2 = ClassV { functions: c.functions.push(stripped), ..c };
                crate::namemap::lemma_map_put(classes, t, c2);
                assert(c2.functions[c2.functions.len() - 1].name == stripped.name);
            }
        } else {
            let fresh = ClassV {
                functions: seq![stripped],
                ..fresh_container(t, base, ns, f.file, f.line_number)
            };
            crate::namemap::lemma_map_put(classes, t, fresh);
            assert(fresh.functions[0].name == stripped.name);
        }
    }
}


// ------------------------------------------------------------------
// Deterministic ordering: a finished member list is a function of the
// members alone.  Feeding the pipeline reordered records gives each
// container the same multiset of members, so — as long as no two
// distinct members share a declaring file and line — the sorted lists
// agree.

/// Law: two finished function lists holding the same members in any
/// order are equal, when no two distinct members share a sort key.
pub proof fn lemma_function_order_deterministic(a: Seq<FunctionV>, b: Seq<FunctionV>)
    requires
        sorted_by(a, fnv_le_rel()),
        sorted_by(b, fnv_le_rel()),
        a.to_multiset() == b.to_multiset(),
        forall|x: FunctionV, y: FunctionV|
            a.to_multiset().contains(x) && a.to_multiset().contains(y) && #[trigger] fnv_le(x, y)
                && #[trigger] fnv_le(y, x) ==> x == y,
    ensures
        a == b,
{
    assert(vstd::relations::strongly_connected(fnv_le_rel())) by {
        assert forall|x: FunctionV, y: FunctionV|
            #[trigger] fnv_le_rel()(x, y) || fnv_le_rel()(y, x) by {
            lemma_file_line_le_total(x.file, x.line_number, y.file, y.line_number);
        }
    }
    crate::order::lemma_sorted_unique(a, b, fnv_le_rel());
}

/// Law: two finished var lists holding the same members in any order
/// are equal, when no two distinct members share a sort key.
pub proof fn lemma_var_order_deterministic(a: Seq<VarV>, b: Seq<VarV>)
    requires
        sorted_by(a, varv_le_rel()),
        sorted_by(b, varv_le_rel()),
        a.to_multiset() == b.to_multiset(),
        forall|x: VarV, y: VarV|
            a.to_multiset().contains(x) && a.to_multiset().contains(y) && #[trigger] varv_le(x, y)
                && #[trigger] varv_le(y, x) ==> x == y,
    ensures
        a == b,
{
    assert(vstd::relations::strongly_connected(varv_le_rel())) by {
        assert forall|x: VarV, y: VarV| #[trigger] varv_le_rel()(x, y) || varv_le_rel()(y, x) by {
            lemma_file_line_le_total(x.file, x.line_number, y.file, y.line_number);
        }
    }
    crate::order::lemma_sorted_unique(a, b, varv_le_rel());
}


// ------------------------------------------------------------------
// No dangling orphans, end to end: after the whole assignment stage,
// under the by-class policy and with no exclusions, every enum of the
// enum table and every free function is reachable from some staged
// container under its member leaf name.  (Under the by-file policy a
// later orphan can overwrite a synthesized per-file container that
// collides with an unrelated class of the same key, so the statement
// is made for the policy without that corner.)

/// With an empty exclusion list, exclusion changes nothing.
proof fn lemma_without_excluded_empty(s: Seq<(Seq<char>, ClassV)>, excluded: Seq<Seq<char>>)
    requires
        excluded.len() == 0,
    ensures
        without_excluded(s, excluded) == s,
    decreases s,
{
    reveal(Seq::filter);
    if s.len() > 0 {
        lemma_without_excluded_empty(s.drop_last(), excluded);
        assert(!is_excluded(excluded, s.last().0));
        assert(without_excluded(s, excluded) =~= s);
    } else {
        assert(without_excluded(s, excluded) =~= s);
    }
}

/// Attaching keeps the table's keys unique.
proof fn lemma_attach_enumv_wf(
    classes: Seq<(Seq<char>, ClassV)>,
    order: OutputOrder,
    ns: Seq<char>,
    e: EnumV,
)
    requires
        unique_keys(classes),
    ensures
        unique_keys(attach_enumv(classes, order, ns, e)),
{
    let base = base_or_global(e.name);
    let stripped = spec_strip_enum_base(e);
    if map_has_key(classes, base) {
        if !enum_named(map_lookup(classes, base).enums, stripped.name) {
            crate::namemap::lemma_map_put(
                classes,
                base,
                ClassV {
                    enums: map_lookup(classes, base).enums.push(stripped),
                    ..map_lookup(classes, base)
                },
            );
        }
    } else {
        let t = orphan_target(order, e.file, base);
        if map_has_key(classes, t) && (order == OutputOrder::ByClass || map_lookup(
            classes,
            t,
        ).file == e.file) {
            if !enum_named(map_lookup(classes, t).enums, stripped.name) {
                crate::namemap::lemma_map_put(
                    classes,
                    t,
                    ClassV {
                        enums: map_lookup(classes, t).enums.push(stripped),
                        ..map_lookup(classes, t)
                    },
                );
            }
        } else {
            crate::namemap::lemma_map_put(
                classes,
                t,
                ClassV { enums: seq![stripped], ..fresh_container(t, base, ns, e.file, e.line_number) },
            );
        }
    }
}

/// Attaching keeps the table's keys unique.
proof fn lemma_attach_functionv_wf(
    classes: Seq<(Seq<char>, ClassV)>,
    order: OutputOrder,
    ns: Seq<char>,
    f: FunctionV,
)
    requires
        unique_keys(classes),
    ensures
        unique_keys(attach_functionv(classes, order, ns, f)),
{
    let fname = match f.name {
        Option::Some(n) => n,
        Option::None => Seq::<char>::empty(),
    };
    let base = base_or_global(fname);
    let stripped = spec_strip_function_base(f);
    if map_has_key(classes, base) {
        if !fn_named(map_lookup(classes, base).functions, stripped.name) {
            crate::namemap::lemma_map_put(
                classes,
                base,
                ClassV {
                    functions: map_lookup(classes, base).functions.push(stripped),
                    ..map_lookup(classes, base)
                },
            );
        }
    } else {
        let t = orphan_target(order, f.file, base);
        if map_has_key(classes, t) && (order == OutputOrder::ByClass || map_lookup(
            classes,
            t,
        ).file == f.file) {
            if !fn_named(map_lookup(classes, t).functions, stripped.name) {
                crate::namemap::lemma_map_put(
                    classes,
                    t,
                    ClassV {
                        functions: map_lookup(classes, t).functions.push(stripped),
                        ..map_lookup(classes, t)
                    },
                );
            }
        } else {
            crate::namemap::lemma_map_put(
                classes,
                t,
                ClassV {
                    functions: seq![stripped],
                    ..fresh_container(t, base, ns, f.file, f.line_number)
                },
            );
        }
    }
}

/// Whether some container of the table holds an enum under the name.
pub open spec fn some_class_has_enum(s: Seq<(Seq<char>, ClassV)>, n: Seq<char>) -> bool {
    exists|j: int| 0 <= j < s.len() && enum_named((#[trigger] s[j]).1.enums, n)
}

/// Whether some container of the table holds a function under the name.
pub open spec fn some_class_has_fn(s: Seq<(Seq<char>, ClassV)>, n: Option<Seq<char>>) -> bool {
    exists|j: int| 0 <= j < s.len() && fn_named((#[trigger] s[j]).1.functions, n)
}

/// Under the by-class policy, an enum attachment keeps every member of
/// every container: it only pushes onto one container or creates a new
/// one at an absent key.
proof fn lemma_attach_enumv_monotone(
    classes: Seq<(Seq<char>, ClassV)>,
    ns: Seq<char>,
    e: EnumV,
    j: int,
)
    requires
        unique_keys(classes),
        0 <= j < classes.len(),
    ensures
        exists|j2: int| 0 <= j2 < attach_enumv(classes, OutputOrder::ByClass, ns, e).len()
            && is_grown_classv(
            classes[j].1,
            (#[trigger] attach_enumv(classes, OutputOrder::ByClass, ns, e)[j2]).1,
        ),
{
    let r = attach_enumv(classes, OutputOrder::ByClass, ns, e);
    let base = base_or_global(e.name);
    let stripped = spec_strip_enum_base(e);
    if map_has_key(classes, base) {
        let w = map_key_index(classes, base);
        if enum_named(map_lookup(classes, base).enums, stripped.name) {
            assert(r[j] == classes[j]);
            assert(is_grown_classv(classes[j].1, r[j].1));
        } else {
            if j == w {
                assert(r[j].1 == (ClassV {
                    enums: classes[j].1.enums.push(stripped),
                    ..classes[j].1
                }));
                assert(is_grown_classv(classes[j].1, r[j].1));
            } else {
                assert(r[j] == classes[j]);
                assert(is_grown_classv(classes[j].1, r[j].1));
            }
        }
    } else {
        // the by-class target is the base itself, which is absent, so a
        // fresh container is appended and every entry stays in place
        assert(orphan_target(OutputOrder::ByClass, e.file, base) == base);
        assert(r[j] == classes[j]);
        assert(is_grown_classv(classes[j].1, r[j].1));
    }
}

/// Whether `d` holds at least everything `c` holds, member-wise, in
/// place.
pub open spec fn is_grown_classv(c: ClassV, d: ClassV) -> bool {
    &&& c.enums.len() <= d.enums.len()
    &&& forall|p: int| 0 <= p < c.enums.len() ==> d.enums[p] == c.enums[p]
    &&& c.functions.len() <= d.functions.len()
    &&& forall|p: int| 0 <= p < c.functions.len() ==> d.functions[p] == c.functions[p]
}


/// Under the by-class policy, a function attachment keeps every member
/// of every container.
proof fn lemma_attach_functionv_monotone(
    classes: Seq<(Seq<char>, ClassV)>,
    ns: Seq<char>,
    f: FunctionV,
    j: int,
)
    requires
        unique_keys(classes),
        0 <= j < classes.len(),
    ensures
        exists|j2: int| 0 <= j2 < attach_functionv(classes, OutputOrder::ByClass, ns, f).len()
            && is_grown_classv(
            classes[j].1,
            (#[trigger] attach_functionv(classes, OutputOrder::ByClass, ns, f)[j2]).1,
        ),
{
    let r = attach_functionv(classes, OutputOrder::ByClass, ns, f);
    let fname = match f.name {
        Option::Some(n) => n,
        Option::None => Seq::<char>::empty(),
    };
    let base = base_or_global(fname);
    let stripped = spec_strip_function_base(f);
    if map_has_key(classes, base) {
        let w = map_key_index(classes, base);
        if fn_named(map_lookup(classes, base).functions, stripped.name) {
            assert(r[j] == classes[j]);
            assert(is_grown_classv(classes[j].1, r[j].1));
        } else {
            if j == w {
                assert(r[j].1 == (ClassV {
                    functions: classes[j].1.functions.push(stripped),
                    ..classes[j].1
                }));
                assert(is_grown_classv(classes[j].1, r[j].1));
            } else {
                assert(r[j] == classes[j]);
                assert(is_grown_classv(classes[j].1, r[j].1));
            }
        }
    } else {
        assert(orphan_target(OutputOrder::ByClass, f.file, base) == base);
        assert(r[j] == classes[j]);
        assert(is_grown_classv(classes[j].1, r[j].1));
    }
}

/// After attaching the first `n` enums under the by-class policy, each
/// of them is reachable from some container under its leaf name.
proof fn lemma_attach_enumsv_all_present(
    classes0: Seq<(Seq<char>, ClassV)>,
    ns: Seq<char>,
    es: Seq<(Seq<char>, EnumV)>,
    n: int,
)
    requires
        unique_keys(classes0),
        0 <= n <= es.len(),
    ensures
        unique_keys(attach_enumsv(classes0, OutputOrder::ByClass, ns, es, n)),
        forall|i: int| 0 <= i < n ==> some_class_has_enum(
            attach_enumsv(classes0, OutputOrder::ByClass, ns, es, n),
            leaf_of((#[trigger] es[i]).1.name),
        ),
    decreases n,
{
    if n > 0 {
        lemma_attach_enumsv_all_present(classes0, ns, es, n - 1);
        let prev = attach_enumsv(classes0, OutputOrder::ByClass, ns, es, n - 1);
        let e = es[n - 1].1;
        let cur = attach_enumv(prev, OutputOrder::ByClass, ns, e);
        lemma_attach_enumv_wf(prev, OutputOrder::ByClass, ns, e);
        assert forall|i: int| 0 <= i < n implies some_class_has_enum(
            cur,
            leaf_of((#[trigger] es[i]).1.name),
        ) by {
            if i < n - 1 {
                let j = choose|j: int|
                    0 <= j < prev.len() && enum_named(
                        (#[trigger] prev[j]).1.enums,
                        leaf_of(es[i].1.name),
                    );
                lemma_attach_enumv_monotone(prev, ns, e, j);
                let j2 = choose|j2: int|
                    0 <= j2 < cur.len() && is_grown_classv(prev[j].1, (#[trigger] cur[j2]).1);
                let p = choose|p: int|
                    0 <= p < prev[j].1.enums.len() && (#[trigger] prev[j].1.enums[p]).name
                        == leaf_of(es[i].1.name);
                assert(cur[j2].1.enums[p].name == leaf_of(es[i].1.name));
                assert(enum_named(cur[j2].1.enums, leaf_of(es[i].1.name)));
            } else {
                lemma_attach_enum_orphan(prev, OutputOrder::ByClass, ns, e);
                let home = enum_home(prev, OutputOrder::ByClass, e);
                let w = map_key_index(cur, home);
                assert(cur[w].1 == map_lookup(cur, home));
                assert(enum_named(cur[w].1.enums, leaf_of(e.name)));
            }
        }
    }
}

/// After attaching the first `n` functions under the by-class policy,
/// each of them is reachable from some container under its leaf name,
/// and every enum already reachable stays reachable.
proof fn lemma_attach_functionsv_all_present(
    classes0: Seq<(Seq<char>, ClassV)>,
    ns: Seq<char>,
    fs: Seq<FunctionV>,
    n: int,
)
    requires
        unique_keys(classes0),
        0 <= n <= fs.len(),
    ensures
        unique_keys(attach_functionsv(classes0, OutputOrder::ByClass, ns, fs, n)),
        forall|i: int| 0 <= i < n ==> some_class_has_fn(
            attach_functionsv(classes0, OutputOrder::ByClass, ns, fs, n),
            spec_strip_function_base(#[trigger] fs[i]).name,
        ),
        forall|x: Seq<char>| some_class_has_enum(classes0, x) ==> some_class_has_enum(
            attach_functionsv(classes0, OutputOrder::ByClass, ns, fs, n),
            x,
        ),
    decreases n,
{
    if n > 0 {
        lemma_attach_functionsv_all_present(classes0, ns, fs, n - 1);
        let prev = attach_functionsv(classes0, OutputOrder::ByClass, ns, fs, n - 1);
        let f = fs[n - 1];
        let cur = attach_functionv(prev, OutputOrder::ByClass, ns, f);
        lemma_attach_functionv_wf(prev, OutputOrder::ByClass, ns, f);
        assert forall|i: int| 0 <= i < n implies some_class_has_fn(
            cur,
            spec_strip_function_base(#[trigger] fs[i]).name,
        ) by {
            if i < n - 1 {
                let nm = spec_strip_function_base(fs[i]).name;
                let j = choose|j: int|
                    0 <= j < prev.len() && fn_named((#[trigger] prev[j]).1.functions, nm);
                lemma_attach_functionv_monotone(prev, ns, f, j);
                let j2 = choose|j2: int|
                    0 <= j2 < cur.len() && is_grown_classv(prev[j].1, (#[trigger] cur[j2]).1);
                let p = choose|p: int|
                    0 <= p < prev[j].1.functions.len() && (#[trigger] prev[j].1.functions[p]).name
                        == nm;
                assert(cur[j2].1.functions[p].name == nm);
                assert(fn_named(cur[j2].1.functions, nm));
            } else {
                lemma_attach_function_orphan(prev, OutputOrder::ByClass, ns, f);
                let home = function_home(prev, OutputOrder::ByClass, f);
                let w = map_key_index(cur, home);
                assert(cur[w].1 == map_lookup(cur, home));
                assert(fn_named(cur[w].1.functions, spec_strip_function_base(f).name));
            }
        }
        assert forall|x: Seq<char>| some_class_has_enum(classes0, x) implies some_class_has_enum(
            cur,
            x,
        ) by {
            let j = choose|j: int|
                0 <= j < prev.len() && enum_named((#[trigger] prev[j]).1.enums, x);
            lemma_attach_functionv_monotone(prev, ns, f, j);
            let j2 = choose|j2: int|
                0 <= j2 < cur.len() && is_grown_classv(prev[j].1, (#[trigger] cur[j2]).1);
            let p = choose|p: int|
                0 <= p < prev[j].1.enums.len() && (#[trigger] prev[j].1.enums[p]).name == x;
            assert(cur[j2].1.enums[p].name == x);
            assert(enum_named(cur[j2].1.enums, x));
        }
    }
}

/// The class table built from the records has unique keys.
proof fn lemma_tables_classes_unique(dv: Seq<DefsV>)
    ensures
        unique_keys(tables_of(dv).classes),
    decreases dv,
{
    if dv.len() > 0 {
        lemma_tables_classes_unique(dv.drop_last());
        match dv.last() {
            DefsV::Class(c) => {
                crate::namemap::lemma_map_put(tables_of(dv.drop_last()).classes, c.name, c);
            },
            _ => {},
        }
    }
}

/// Law: after the whole assignment stage — records sorted into tables,
/// names resolved, every orphan attached — under the by-class policy
/// and with no exclusions, every enum of the enum table and every free
/// function is reachable from some staged container under its member
/// leaf name.
pub proof fn lemma_no_dangling_orphans(dv: Seq<DefsV>, ns: Seq<char>, excluded: Seq<Seq<char>>)
    requires
        excluded.len() == 0,
    ensures
        forall|i: int| 0 <= i < tables_of(dv).enums.len() ==> some_class_has_enum(
            staged_classesv(dv, OutputOrder::ByClass, ns, excluded),
            leaf_of((#[trigger] tables_of(dv).enums[i]).1.name),
        ),
        forall|i: int| 0 <= i < tables_of(dv).functions.len() ==> some_class_has_fn(
            staged_classesv(dv, OutputOrder::ByClass, ns, excluded),
            spec_strip_function_base(#[trigger] tables_of(dv).functions[i]).name,
        ),
{
    let t = tables_of(dv);
    let lib0 = built_lib(dv);
    lemma_tables_classes_unique(dv);
    let resolved = resolved_classesv(lib0);
    assert(unique_keys(resolved)) by {
        assert(forall|i: int| 0 <= i < resolved.len()
            ==> (#[trigger] resolved[i]).0 == t.classes[i].0);
    }
    let after1 = attach_enumsv(resolved, OutputOrder::ByClass, ns, t.enums, t.enums.len() as int);
    lemma_attach_enumsv_all_present(resolved, ns, t.enums, t.enums.len() as int);
    let rfs = crate::library::resolve_functionsv(lib0, t.functions);
    let after2 = attach_functionsv(after1, OutputOrder::ByClass, ns, rfs, rfs.len() as int);
    lemma_attach_functionsv_all_present(after1, ns, rfs, rfs.len() as int);
    lemma_without_excluded_empty(after2, excluded);
    assert(staged_classesv(dv, OutputOrder::ByClass, ns, excluded) == after2);
    assert forall|i: int| 0 <= i < t.functions.len() implies some_class_has_fn(
        after2,
        spec_strip_function_base(#[trigger] t.functions[i]).name,
    ) by {
        assert(rfs[i] == crate::library::resolve_functionv(lib0, t.functions[i]));
        assert(spec_strip_function_base(rfs[i]).name == spec_strip_function_base(
            t.functions[i],
        ).name);
    }
}


/// Law: finishing a container is deterministic — two finished forms of
/// the same raw container agree on every member list, as long as no
/// two distinct members of a list share a declaring file and line.
pub proof fn lemma_finalize_deterministic(c: ClassV, d1: ClassV, d2: ClassV)
    requires
        finalize_relv(c, d1),
        finalize_relv(c, d2),
        forall|x: FunctionV, y: FunctionV|
            d1.functions.to_multiset().contains(x) && d1.functions.to_multiset().contains(y)
                && #[trigger] fnv_le(x, y) && #[trigger] fnv_le(y, x) ==> x == y,
        forall|x: EnumV, y: EnumV|
            d1.enums.to_multiset().contains(x) && d1.enums.to_multiset().contains(y)
                && #[trigger] enumv_le(x, y) && #[trigger] enumv_le(y, x) ==> x == y,
        forall|x: VarV, y: VarV|
            d1.fields.to_multiset().contains(x) && d1.fields.to_multiset().contains(y)
                && #[trigger] varv_le(x, y) && #[trigger] varv_le(y, x) ==> x == y,
        forall|x: VarV, y: VarV|
            d1.constants.to_multiset().contains(x) && d1.constants.to_multiset().contains(y)
                && #[trigger] varv_le(x, y) && #[trigger] varv_le(y, x) ==> x == y,
    ensures
        d1 == d2,
{
    lemma_function_order_deterministic(d1.functions, d2.functions);
    assert(vstd::relations::strongly_connected(enumv_le_rel())) by {
        assert forall|x: EnumV, y: EnumV|
            #[trigger] enumv_le_rel()(x, y) || enumv_le_rel()(y, x) by {
            lemma_file_line_le_total(x.file, x.line_number, y.file, y.line_number);
        }
    }
    crate::order::lemma_sorted_unique(d1.enums, d2.enums, enumv_le_rel());
    lemma_var_order_deterministic(d1.fields, d2.fields);
    lemma_var_order_deterministic(d1.constants, d2.constants);
}

} // verus!
