//! The local-closure engine: which `Local`-scope classes and which aliases
//! a container's document must inline, computed as the least fixed point
//! of the direct-reference relation over the class and alias tables.

use vstd::prelude::*;

use crate::namemap::{map_has_key, map_key_index, map_lookup, NameMap};
use crate::strutil::strs_view;
use crate::types::{
    Class, ClassV, FunctionV, Kind, KindV, Scope, VarV, kind_view, lemma_kinds_view_index,
    lemma_kinds_view_len, lemma_obj_fields_view_index, lemma_obj_fields_view_len,
    lemma_vars_view_index, lemma_vars_view_len, obj_fields_view, kinds_view, vars_view,
    functions_view,
};

verus! {

/// Whether `n` names a `Local`-scope class of the table.
pub open spec fn is_local_class(cs: Seq<(Seq<char>, ClassV)>, n: Seq<char>) -> bool {
    map_has_key(cs, n) && map_lookup(cs, n).scope == Scope::Local
}

// ------------------------------------------------------------------
// Direct references: the names a shape mentions, without any expansion.

/// The `Local`-scope class names the shape references directly, in
/// traversal order (duplicates possible).
pub open spec fn kindv_local_classes(cs: Seq<(Seq<char>, ClassV)>, k: KindV) -> Seq<Seq<char>>
    decreases k,
{
    match k {
        KindV::Unresolved(_) => Seq::empty(),
        KindV::Lua(_) => Seq::empty(),
        KindV::Literal(_, _) => Seq::empty(),
        KindV::Array(b) => kindv_local_classes(cs, *b),
        KindV::Nullable(b) => kindv_local_classes(cs, *b),
        KindV::Table(bk, bv) => kindv_local_classes(cs, *bk) + kindv_local_classes(cs, *bv),
        KindV::Object(fields) => objv_local_classes(cs, fields),
        KindV::Alias(_) => Seq::empty(),
        KindV::Class(n) => if is_local_class(cs, n) {
            seq![n]
        } else {
            Seq::empty()
        },
        KindV::Function(bf) => varsv_local_classes(cs, bf.params) + varsv_local_classes(
            cs,
            bf.returns,
        ),
        KindV::Union(ks) => kindsv_local_classes(cs, ks),
        KindV::EnumRef(_) => Seq::empty(),
        KindV::SelfArg => Seq::empty(),
        KindV::Variadic(b) => kindv_local_classes(cs, *b),
    }
}

pub open spec fn objv_local_classes(
    cs: Seq<(Seq<char>, ClassV)>,
    fields: Seq<(Seq<char>, KindV)>,
) -> Seq<Seq<char>>
    decreases fields,
{
    if fields.len() == 0 {
        Seq::empty()
    } else {
        objv_local_classes(cs, fields.drop_last()) + kindv_local_classes(cs, fields.last().1)
    }
}

pub open spec fn kindsv_local_classes(cs: Seq<(Seq<char>, ClassV)>, ks: Seq<KindV>) -> Seq<
    Seq<char>,
>
    decreases ks,
{
    if ks.len() == 0 {
        Seq::empty()
    } else {
        kindsv_local_classes(cs, ks.drop_last()) + kindv_local_classes(cs, ks.last())
    }
}

pub open spec fn varsv_local_classes(cs: Seq<(Seq<char>, ClassV)>, vs: Seq<VarV>) -> Seq<
    Seq<char>,
>
    decreases vs,
{
    if vs.len() == 0 {
        Seq::empty()
    } else {
        varsv_local_classes(cs, vs.drop_last()) + kindv_local_classes(cs, vs.last().kind)
    }
}

pub open spec fn functionsv_local_classes(
    cs: Seq<(Seq<char>, ClassV)>,
    fs: Seq<FunctionV>,
) -> Seq<Seq<char>>
    decreases fs,
{
    if fs.len() == 0 {
        Seq::empty()
    } else {
        functionsv_local_classes(cs, fs.drop_last()) + varsv_local_classes(
            cs,
            fs.last().params,
        ) + varsv_local_classes(cs, fs.last().returns)
    }
}

/// The `Local`-scope class names a container references directly from its
/// fields, functions and constants.
pub open spec fn classv_local_classes(cs: Seq<(Seq<char>, ClassV)>, c: ClassV) -> Seq<Seq<char>> {
    varsv_local_classes(cs, c.fields) + functionsv_local_classes(cs, c.functions)
        + varsv_local_classes(cs, c.constants)
}

/// The alias names the shape references directly, in traversal order.
pub open spec fn kindv_aliases(k: KindV) -> Seq<Seq<char>>
    decreases k,
{
    match k {
        KindV::Unresolved(_) => Seq::empty(),
        KindV::Lua(_) => Seq::empty(),
        KindV::Literal(_, _) => Seq::empty(),
        KindV::Array(b) => kindv_aliases(*b),
        KindV::Nullable(b) => kindv_aliases(*b),
        KindV::Table(bk, bv) => kindv_aliases(*bk) + kindv_aliases(*bv),
        KindV::Object(fields) => objv_aliases(fields),
        KindV::Alias(n) => seq![n],
        KindV::Class(_) => Seq::empty(),
        KindV::Function(bf) => varsv_aliases(bf.params) + varsv_aliases(bf.returns),
        KindV::Union(ks) => kindsv_aliases(ks),
        KindV::EnumRef(_) => Seq::empty(),
        KindV::SelfArg => Seq::empty(),
        KindV::Variadic(b) => kindv_aliases(*b),
    }
}

pub open spec fn objv_aliases(fields: Seq<(Seq<char>, KindV)>) -> Seq<Seq<char>>
    decreases fields,
{
    if fields.len() == 0 {
        Seq::empty()
    } else {
        objv_aliases(fields.drop_last()) + kindv_aliases(fields.last().1)
    }
}

pub open spec fn kindsv_aliases(ks: Seq<KindV>) -> Seq<Seq<char>>
    decreases ks,
{
    if ks.len() == 0 {
        Seq::empty()
    } else {
        kindsv_aliases(ks.drop_last()) + kindv_aliases(ks.last())
    }
}

pub open spec fn varsv_aliases(vs: Seq<VarV>) -> Seq<Seq<char>>
    decreases vs,
{
    if vs.len() == 0 {
        Seq::empty()
    } else {
        varsv_aliases(vs.drop_last()) + kindv_aliases(vs.last().kind)
    }
}

pub open spec fn functionsv_aliases(fs: Seq<FunctionV>) -> Seq<Seq<char>>
    decreases fs,
{
    if fs.len() == 0 {
        Seq::empty()
    } else {
        functionsv_aliases(fs.drop_last()) + varsv_aliases(fs.last().params) + varsv_aliases(
            fs.last().returns,
        )
    }
}

/// The alias names a container references directly from its fields,
/// functions and constants.
pub open spec fn classv_aliases(c: ClassV) -> Seq<Seq<char>> {
    varsv_aliases(c.fields) + functionsv_aliases(c.functions) + varsv_aliases(c.constants)
}

// ------------------------------------------------------------------
// Executable direct collectors.

/// Appends the `Local`-scope class names the shape references directly.
fn collect_kind_classes(k: &Kind, cs: &NameMap<Class>, acc: &mut Vec<String>)
    requires
        cs.wf(),
    ensures
        strs_view(final(acc)@) == strs_view(old(acc)@) + kindv_local_classes(cs@, k@),
    decreases *k,
{
    match k {
        Kind::Unresolved(_) => {
            assert(strs_view(acc@) =~= strs_view(acc@) + kindv_local_classes(cs@, k@));
        },
        Kind::Lua(_) => {
            assert(strs_view(acc@) =~= strs_view(acc@) + kindv_local_classes(cs@, k@));
        },
        Kind::Literal(_, _) => {
            assert(strs_view(acc@) =~= strs_view(acc@) + kindv_local_classes(cs@, k@));
        },
        Kind::Array(b) => collect_kind_classes(&**b, cs, acc),
        Kind::Nullable(b) => collect_kind_classes(&**b, cs, acc),
        Kind::Table(bk, bv) => {
            let ghost a0 = strs_view(acc@);
            collect_kind_classes(&**bk, cs, acc);
            collect_kind_classes(&**bv, cs, acc);
            assert(strs_view(acc@) =~= a0 + kindv_local_classes(cs@, k@));
        },
        Kind::Object(fields) => {
            let ghost a0 = strs_view(acc@);
            let mut i: usize = 0;
            while i < fields.len()
                invariant
                    cs.wf(),
                    i <= fields@.len(),
                    *k == Kind::Object(*fields),
                    strs_view(acc@) == a0 + objv_local_classes(
                        cs@,
                        obj_fields_view(fields@).subrange(0, i as int),
                    ),
                decreases fields@.len() - i,
            {
                assert(*fields == k->Object_0);
                assert(decreases_to!(*k => k->Object_0));
                assert(decreases_to!(*fields => fields@[i as int]));
                assert(decreases_to!(fields@[i as int] => fields@[i as int].1));
                proof {
                    broadcast use lemma_obj_fields_view_len, lemma_obj_fields_view_index;
                }
                collect_kind_classes(&fields[i].1, cs, acc);
                proof {
                    broadcast use lemma_obj_fields_view_len, lemma_obj_fields_view_index;
                    let pfx = obj_fields_view(fields@).subrange(0, i as int);
                    let pfx1 = obj_fields_view(fields@).subrange(0, i + 1 as int);
                    assert(pfx1.drop_last() =~= pfx);
                    assert(pfx1.last() == obj_fields_view(fields@)[i as int]);
                    assert(strs_view(acc@) =~= a0 + objv_local_classes(cs@, pfx1));
                }
                i = i + 1;
            }
            proof {
                broadcast use lemma_obj_fields_view_len;
                assert(obj_fields_view(fields@).subrange(0, fields@.len() as int) =~= obj_fields_view(fields@));
            }
        },
        Kind::Alias(_) => {
            assert(strs_view(acc@) =~= strs_view(acc@) + kindv_local_classes(cs@, k@));
        },
        Kind::Class(n) => {
            let hit = match cs.get(n.as_str()) {
                Option::Some(c) => c.scope == Scope::Local,
                Option::None => false,
            };
            if hit {
                let ghost a0 = strs_view(acc@);
                acc.push(n.clone());
                assert(strs_view(acc@) =~= a0 + seq![n@]);
            } else {
                assert(strs_view(acc@) =~= strs_view(acc@) + kindv_local_classes(cs@, k@));
            }
        },
        Kind::Function(bf) => {
            let ghost a0 = strs_view(acc@);
            collect_vars_classes(&bf.params, cs, acc);
            collect_vars_classes(&bf.returns, cs, acc);
            proof {
                let fv = crate::types::function_view(**bf);
                assert(k@ == KindV::Function(Box::new(fv)));
                assert(kindv_local_classes(cs@, k@) == varsv_local_classes(cs@, fv.params)
                    + varsv_local_classes(cs@, fv.returns));
                assert(fv.params == vars_view(bf.params@));
                assert(fv.returns == vars_view(bf.returns@));
                assert(strs_view(acc@) =~= a0 + kindv_local_classes(cs@, k@));
            }
        },
        Kind::Union(ks) => {
            let ghost a0 = strs_view(acc@);
            let mut i: usize = 0;
            while i < ks.len()
                invariant
                    cs.wf(),
                    i <= ks@.len(),
                    *k == Kind::Union(*ks),
                    strs_view(acc@) == a0 + kindsv_local_classes(
                        cs@,
                        kinds_view(ks@).subrange(0, i as int),
                    ),
                decreases ks@.len() - i,
            {
                assert(*ks == k->Union_0);
                assert(decreases_to!(*k => k->Union_0));
                assert(decreases_to!(*ks => ks@[i as int]));
                proof {
                    broadcast use lemma_kinds_view_len, lemma_kinds_view_index;
                }
                collect_kind_classes(&ks[i], cs, acc);
                proof {
                    broadcast use lemma_kinds_view_len, lemma_kinds_view_index;
                    let pfx = kinds_view(ks@).subrange(0, i as int);
                    let pfx1 = kinds_view(ks@).subrange(0, i + 1 as int);
                    assert(pfx1.drop_last() =~= pfx);
                    assert(pfx1.last() == kinds_view(ks@)[i as int]);
                    assert(strs_view(acc@) =~= a0 + kindsv_local_classes(cs@, pfx1));
                }
                i = i + 1;
            }
            proof {
                broadcast use lemma_kinds_view_len;
                assert(kinds_view(ks@).subrange(0, ks@.len() as int) =~= kinds_view(ks@));
            }
        },
        Kind::EnumRef(_) => {
            assert(strs_view(acc@) =~= strs_view(acc@) + kindv_local_classes(cs@, k@));
        },
        Kind::SelfArg => {
            assert(strs_view(acc@) =~= strs_view(acc@) + kindv_local_classes(cs@, k@));
        },
        Kind::Variadic(b) => collect_kind_classes(&**b, cs, acc),
    }
}

/// Appends the `Local`-scope class names the vars reference directly.
fn collect_vars_classes(vs: &Vec<Var>, cs: &NameMap<Class>, acc: &mut Vec<String>)
    requires
        cs.wf(),
    ensures
        strs_view(final(acc)@) == strs_view(old(acc)@) + varsv_local_classes(
            cs@,
            vars_view(vs@),
        ),
    decreases *vs,
{
    let ghost a0 = strs_view(acc@);
    let mut i: usize = 0;
    while i < vs.len()
        invariant
            cs.wf(),
            i <= vs@.len(),
            strs_view(acc@) == a0 + varsv_local_classes(cs@, vars_view(vs@).subrange(0, i as int)),
        decreases vs@.len() - i,
    {
        assert(decreases_to!(*vs => vs@[i as int]));
        proof {
            broadcast use lemma_vars_view_len, lemma_vars_view_index;
        }
        collect_kind_classes(&vs[i].kind, cs, acc);
        proof {
            broadcast use lemma_vars_view_len, lemma_vars_view_index;
            let pfx = vars_view(vs@).subrange(0, i as int);
            let pfx1 = vars_view(vs@).subrange(0, i + 1 as int);
            assert(pfx1.drop_last() =~= pfx);
            assert(pfx1.last() == vars_view(vs@)[i as int]);
            assert(strs_view(acc@) =~= a0 + varsv_local_classes(cs@, pfx1));
        }
        i = i + 1;
    }
    proof {
        broadcast use lemma_vars_view_len;
        assert(vars_view(vs@).subrange(0, vs@.len() as int) =~= vars_view(vs@));
    }
}

use crate::types::Var;
use crate::types::Function;

/// Appends the alias names the shape references directly.
fn collect_kind_aliases(k: &Kind, acc: &mut Vec<String>)
    ensures
        strs_view(final(acc)@) == strs_view(old(acc)@) + kindv_aliases(k@),
    decreases *k,
{
    match k {
        Kind::Unresolved(_) => {
            assert(strs_view(acc@) =~= strs_view(acc@) + kindv_aliases(k@));
        },
        Kind::Lua(_) => {
            assert(strs_view(acc@) =~= strs_view(acc@) + kindv_aliases(k@));
        },
        Kind::Literal(_, _) => {
            assert(strs_view(acc@) =~= strs_view(acc@) + kindv_aliases(k@));
        },
        Kind::Array(b) => collect_kind_aliases(&**b, acc),
        Kind::Nullable(b) => collect_kind_aliases(&**b, acc),
        Kind::Table(bk, bv) => {
            let ghost a0 = strs_view(acc@);
            collect_kind_aliases(&**bk, acc);
            collect_kind_aliases(&**bv, acc);
            assert(strs_view(acc@) =~= a0 + kindv_aliases(k@));
        },
        Kind::Object(fields) => {
            let ghost a0 = strs_view(acc@);
            let mut i: usize = 0;
            while i < fields.len()
                invariant
                    i <= fields@.len(),
                    *k == Kind::Object(*fields),
                    strs_view(acc@) == a0 + objv_aliases(
                        obj_fields_view(fields@).subrange(0, i as int),
                    ),
                decreases fields@.len() - i,
            {
                assert(*fields == k->Object_0);
                assert(decreases_to!(*k => k->Object_0));
                assert(decreases_to!(*fields => fields@[i as int]));
                assert(decreases_to!(fields@[i as int] => fields@[i as int].1));
                proof {
                    broadcast use lemma_obj_fields_view_len, lemma_obj_fields_view_index;
                }
                collect_kind_aliases(&fields[i].1, acc);
                proof {
                    broadcast use lemma_obj_fields_view_len, lemma_obj_fields_view_index;
                    let pfx = obj_fields_view(fields@).subrange(0, i as int);
                    let pfx1 = obj_fields_view(fields@).subrange(0, i + 1 as int);
                    assert(pfx1.drop_last() =~= pfx);
                    assert(pfx1.last() == obj_fields_view(fields@)[i as int]);
                    assert(strs_view(acc@) =~= a0 + objv_aliases(pfx1));
                }
                i = i + 1;
            }
            proof {
                broadcast use lemma_obj_fields_view_len;
                assert(obj_fields_view(fields@).subrange(0, fields@.len() as int) =~= obj_fields_view(fields@));
            }
        },
        Kind::Alias(n) => {
            let ghost a0 = strs_view(acc@);
            acc.push(n.clone());
            assert(strs_view(acc@) =~= a0 + seq![n@]);
        },
        Kind::Class(_) => {
            assert(strs_view(acc@) =~= strs_view(acc@) + kindv_aliases(k@));
        },
        Kind::Function(bf) => {
            let ghost a0 = strs_view(acc@);
            collect_vars_aliases(&bf.params, acc);
            collect_vars_aliases(&bf.returns, acc);
            proof {
                let fv = crate::types::function_view(**bf);
                assert(k@ == KindV::Function(Box::new(fv)));
                assert(kindv_aliases(k@) == varsv_aliases(fv.params) + varsv_aliases(fv.returns));
                assert(fv.params == vars_view(bf.params@));
                assert(fv.returns == vars_view(bf.returns@));
                assert(strs_view(acc@) =~= a0 + kindv_aliases(k@));
            }
        },
        Kind::Union(ks) => {
            let ghost a0 = strs_view(acc@);
            let mut i: usize = 0;
            while i < ks.len()
                invariant
                    i <= ks@.len(),
                    *k == Kind::Union(*ks),
                    strs_view(acc@) == a0 + kindsv_aliases(kinds_view(ks@).subrange(0, i as int)),
                decreases ks@.len() - i,
            {
                assert(*ks == k->Union_0);
                assert(decreases_to!(*k => k->Union_0));
                assert(decreases_to!(*ks => ks@[i as int]));
                proof {
                    broadcast use lemma_kinds_view_len, lemma_kinds_view_index;
                }
                collect_kind_aliases(&ks[i], acc);
                proof {
                    broadcast use lemma_kinds_view_len, lemma_kinds_view_index;
                    let pfx = kinds_view(ks@).subrange(0, i as int);
                    let pfx1 = kinds_view(ks@).subrange(0, i + 1 as int);
                    assert(pfx1.drop_last() =~= pfx);
                    assert(pfx1.last() == kinds_view(ks@)[i as int]);
                    assert(strs_view(acc@) =~= a0 + kindsv_aliases(pfx1));
                }
                i = i + 1;
            }
            proof {
                broadcast use lemma_kinds_view_len;
                assert(kinds_view(ks@).subrange(0, ks@.len() as int) =~= kinds_view(ks@));
            }
        },
        Kind::EnumRef(_) => {
            assert(strs_view(acc@) =~= strs_view(acc@) + kindv_aliases(k@));
        },
        Kind::SelfArg => {
            assert(strs_view(acc@) =~= strs_view(acc@) + kindv_aliases(k@));
        },
        Kind::Variadic(b) => collect_kind_aliases(&**b, acc),
    }
}

/// Appends the alias names the vars reference directly.
fn collect_vars_aliases(vs: &Vec<Var>, acc: &mut Vec<String>)
    ensures
        strs_view(final(acc)@) == strs_view(old(acc)@) + varsv_aliases(vars_view(vs@)),
    decreases *vs,
{
    let ghost a0 = strs_view(acc@);
    let mut i: usize = 0;
    while i < vs.len()
        invariant
            i <= vs@.len(),
            strs_view(acc@) == a0 + varsv_aliases(vars_view(vs@).subrange(0, i as int)),
        decreases vs@.len() - i,
    {
        assert(decreases_to!(*vs => vs@[i as int]));
        proof {
            broadcast use lemma_vars_view_len, lemma_vars_view_index;
        }
        collect_kind_aliases(&vs[i].kind, acc);
        proof {
            broadcast use lemma_vars_view_len, lemma_vars_view_index;
            let pfx = vars_view(vs@).subrange(0, i as int);
            let pfx1 = vars_view(vs@).subrange(0, i + 1 as int);
            assert(pfx1.drop_last() =~= pfx);
            assert(pfx1.last() == vars_view(vs@)[i as int]);
            assert(strs_view(acc@) =~= a0 + varsv_aliases(pfx1));
        }
        i = i + 1;
    }
    proof {
        broadcast use lemma_vars_view_len;
        assert(vars_view(vs@).subrange(0, vs@.len() as int) =~= vars_view(vs@));
    }
}

/// Appends the class or alias names referenced by each function's
/// parameters and returns.
fn collect_functions_classes(fs: &Vec<Function>, cs: &NameMap<Class>, acc: &mut Vec<String>)
    requires
        cs.wf(),
    ensures
        strs_view(final(acc)@) == strs_view(old(acc)@) + functionsv_local_classes(
            cs@,
            functions_view(fs@),
        ),
{
    let ghost a0 = strs_view(acc@);
    let mut i: usize = 0;
    while i < fs.len()
        invariant
            cs.wf(),
            i <= fs@.len(),
            strs_view(acc@) == a0 + functionsv_local_classes(
                cs@,
                functions_view(fs@).subrange(0, i as int),
            ),
        decreases fs@.len() - i,
    {
        let ghost before = strs_view(acc@);
        collect_vars_classes(&fs[i].params, cs, acc);
        collect_vars_classes(&fs[i].returns, cs, acc);
        proof {
            let pfx = functions_view(fs@).subrange(0, i as int);
            let pfx1 = functions_view(fs@).subrange(0, i + 1 as int);
            assert(pfx1.drop_last() =~= pfx);
            assert(pfx1.last() == functions_view(fs@)[i as int]);
            assert(functions_view(fs@)[i as int] == fs@[i as int]@);
            assert(strs_view(acc@) =~= a0 + functionsv_local_classes(cs@, pfx1));
        }
        i = i + 1;
    }
    proof {
        assert(functions_view(fs@).subrange(0, fs@.len() as int) =~= functions_view(fs@));
    }
}

fn collect_functions_aliases(fs: &Vec<Function>, acc: &mut Vec<String>)
    ensures
        strs_view(final(acc)@) == strs_view(old(acc)@) + functionsv_aliases(functions_view(fs@)),
{
    let ghost a0 = strs_view(acc@);
    let mut i: usize = 0;
    while i < fs.len()
        invariant
            i <= fs@.len(),
            strs_view(acc@) == a0 + functionsv_aliases(functions_view(fs@).subrange(0, i as int)),
        decreases fs@.len() - i,
    {
        collect_vars_aliases(&fs[i].params, acc);
        collect_vars_aliases(&fs[i].returns, acc);
        proof {
            let pfx = functions_view(fs@).subrange(0, i as int);
            let pfx1 = functions_view(fs@).subrange(0, i + 1 as int);
            assert(pfx1.drop_last() =~= pfx);
            assert(pfx1.last() == functions_view(fs@)[i as int]);
            assert(functions_view(fs@)[i as int] == fs@[i as int]@);
            assert(strs_view(acc@) =~= a0 + functionsv_aliases(pfx1));
        }
        i = i + 1;
    }
    proof {
        assert(functions_view(fs@).subrange(0, fs@.len() as int) =~= functions_view(fs@));
    }
}

impl Kind {
    /// The `Local`-scope class names this shape references directly.
    pub fn collect_local_class_types(&self, classes: &NameMap<Class>) -> (r: Vec<String>)
        requires
            classes.wf(),
        ensures
            strs_view(r@) == kindv_local_classes(classes@, self@),
    {
        let mut acc: Vec<String> = Vec::new();
        assert(strs_view(acc@) =~= Seq::<Seq<char>>::empty());
        collect_kind_classes(self, classes, &mut acc);
        assert(strs_view(acc@) =~= kindv_local_classes(classes@, self@));
        acc
    }

    /// The alias names this shape references directly.
    pub fn collect_alias_types(&self) -> (r: Vec<String>)
        ensures
            strs_view(r@) == kindv_aliases(self@),
    {
        let mut acc: Vec<String> = Vec::new();
        assert(strs_view(acc@) =~= Seq::<Seq<char>>::empty());
        collect_kind_aliases(self, &mut acc);
        assert(strs_view(acc@) =~= kindv_aliases(self@));
        acc
    }
}

impl Class {
    /// The `Local`-scope class names this container references directly
    /// from its fields, functions and constants.
    pub fn collect_local_class_types(&self, classes: &NameMap<Class>) -> (r: Vec<String>)
        requires
            classes.wf(),
        ensures
            strs_view(r@) == classv_local_classes(classes@, self@),
    {
        let mut acc: Vec<String> = Vec::new();
        assert(strs_view(acc@) =~= Seq::<Seq<char>>::empty());
        collect_vars_classes(&self.fields, classes, &mut acc);
        collect_functions_classes(&self.functions, classes, &mut acc);
        collect_vars_classes(&self.constants, classes, &mut acc);
        assert(strs_view(acc@) =~= classv_local_classes(classes@, self@));
        acc
    }

    /// The alias names this container references directly from its
    /// fields, functions and constants.
    pub fn collect_alias_types(&self) -> (r: Vec<String>)
        ensures
            strs_view(r@) == classv_aliases(self@),
    {
        let mut acc: Vec<String> = Vec::new();
        assert(strs_view(acc@) =~= Seq::<Seq<char>>::empty());
        collect_vars_aliases(&self.fields, &mut acc);
        collect_functions_aliases(&self.functions, &mut acc);
        collect_vars_aliases(&self.constants, &mut acc);
        assert(strs_view(acc@) =~= classv_aliases(self@));
        acc
    }
}


// ------------------------------------------------------------------
// The fixed point.  One expansion step unions in what a table entry's
// shape references; the closure is the least pair of sets that contains
// the container's direct references and is closed under those steps.

/// The classes an alias's target shape references, when the alias exists.
pub open spec fn alias_step_classes(
    cs: Seq<(Seq<char>, ClassV)>,
    als: Seq<(Seq<char>, AliasV)>,
    a: Seq<char>,
) -> Set<Seq<char>> {
    if map_has_key(als, a) {
        kindv_local_classes(cs, map_lookup(als, a).kind).to_set()
    } else {
        Set::empty()
    }
}

/// The aliases an alias's target shape references, when the alias exists.
pub open spec fn alias_step_aliases(als: Seq<(Seq<char>, AliasV)>, a: Seq<char>) -> Set<
    Seq<char>,
> {
    if map_has_key(als, a) {
        kindv_aliases(map_lookup(als, a).kind).to_set()
    } else {
        Set::empty()
    }
}

/// The classes a class's members reference, when the class exists.
pub open spec fn class_step_classes(cs: Seq<(Seq<char>, ClassV)>, c: Seq<char>) -> Set<
    Seq<char>,
> {
    if map_has_key(cs, c) {
        classv_local_classes(cs, map_lookup(cs, c)).to_set()
    } else {
        Set::empty()
    }
}

/// The aliases a class's members reference, when the class exists.
pub open spec fn class_step_aliases(cs: Seq<(Seq<char>, ClassV)>, c: Seq<char>) -> Set<
    Seq<char>,
> {
    if map_has_key(cs, c) {
        classv_aliases(map_lookup(cs, c)).to_set()
    } else {
        Set::empty()
    }
}

/// Whether the pair of name sets is closed under expansion through the
/// alias and class tables.
pub open spec fn closure_closed(
    cs: Seq<(Seq<char>, ClassV)>,
    als: Seq<(Seq<char>, AliasV)>,
    cl: Set<Seq<char>>,
    al: Set<Seq<char>>,
) -> bool {
    &&& forall|a: Seq<char>| al.contains(a) ==> (#[trigger] alias_step_classes(
        cs,
        als,
        a,
    )).subset_of(cl) && alias_step_aliases(als, a).subset_of(al)
    &&& forall|c: Seq<char>| cl.contains(c) ==> (#[trigger] class_step_classes(
        cs,
        c,
    )).subset_of(cl) && class_step_aliases(cs, c).subset_of(al)
}

/// Whether an alias name set is closed under expansion through the alias
/// table alone.
pub open spec fn aliases_closed(als: Seq<(Seq<char>, AliasV)>, al: Set<Seq<char>>) -> bool {
    forall|a: Seq<char>| al.contains(a) ==> (#[trigger] alias_step_aliases(als, a)).subset_of(al)
}

// The universes that bound the fixed point: everything any table entry
// can ever contribute, plus the seed.

spec fn alias_entries_classes(
    cs: Seq<(Seq<char>, ClassV)>,
    als: Seq<(Seq<char>, AliasV)>,
    n: int,
) -> Set<Seq<char>>
    decreases n,
{
    if n <= 0 {
        Set::empty()
    } else {
        alias_entries_classes(cs, als, n - 1).union(
            kindv_local_classes(cs, als[n - 1].1.kind).to_set(),
        )
    }
}

spec fn alias_entries_aliases(als: Seq<(Seq<char>, AliasV)>, n: int) -> Set<Seq<char>>
    decreases n,
{
    if n <= 0 {
        Set::empty()
    } else {
        alias_entries_aliases(als, n - 1).union(kindv_aliases(als[n - 1].1.kind).to_set())
    }
}

spec fn class_entries_classes(cs: Seq<(Seq<char>, ClassV)>, n: int) -> Set<Seq<char>>
    decreases n,
{
    if n <= 0 {
        Set::empty()
    } else {
        class_entries_classes(cs, n - 1).union(classv_local_classes(cs, cs[n - 1].1).to_set())
    }
}

spec fn class_entries_aliases(cs: Seq<(Seq<char>, ClassV)>, n: int) -> Set<Seq<char>>
    decreases n,
{
    if n <= 0 {
        Set::empty()
    } else {
        class_entries_aliases(cs, n - 1).union(classv_aliases(cs[n - 1].1).to_set())
    }
}

spec fn class_universe(
    cs: Seq<(Seq<char>, ClassV)>,
    als: Seq<(Seq<char>, AliasV)>,
    seed: Set<Seq<char>>,
) -> Set<Seq<char>> {
    seed.union(alias_entries_classes(cs, als, als.len() as int)).union(
        class_entries_classes(cs, cs.len() as int),
    )
}

spec fn alias_universe(
    cs: Seq<(Seq<char>, ClassV)>,
    als: Seq<(Seq<char>, AliasV)>,
    seed: Set<Seq<char>>,
) -> Set<Seq<char>> {
    seed.union(alias_entries_aliases(als, als.len() as int)).union(
        class_entries_aliases(cs, cs.len() as int),
    )
}

proof fn lemma_alias_entries_classes(
    cs: Seq<(Seq<char>, ClassV)>,
    als: Seq<(Seq<char>, AliasV)>,
    n: int,
)
    ensures
        alias_entries_classes(cs, als, n).finite(),
        forall|i: int| 0 <= i < n ==> kindv_local_classes(
            cs,
            (#[trigger] als[i]).1.kind,
        ).to_set().subset_of(alias_entries_classes(cs, als, n)),
    decreases n,
{
    broadcast use vstd::seq_lib::seq_to_set_is_finite;

    if n > 0 {
        lemma_alias_entries_classes(cs, als, n - 1);
    }
}

proof fn lemma_alias_entries_aliases(als: Seq<(Seq<char>, AliasV)>, n: int)
    ensures
        alias_entries_aliases(als, n).finite(),
        forall|i: int| 0 <= i < n ==> kindv_aliases(
            (#[trigger] als[i]).1.kind,
        ).to_set().subset_of(alias_entries_aliases(als, n)),
    decreases n,
{
    broadcast use vstd::seq_lib::seq_to_set_is_finite;

    if n > 0 {
        lemma_alias_entries_aliases(als, n - 1);
    }
}

proof fn lemma_class_entries_classes(cs: Seq<(Seq<char>, ClassV)>, n: int)
    ensures
        class_entries_classes(cs, n).finite(),
        forall|i: int| 0 <= i < n ==> classv_local_classes(
            cs,
            (#[trigger] cs[i]).1,
        ).to_set().subset_of(class_entries_classes(cs, n)),
    decreases n,
{
    broadcast use vstd::seq_lib::seq_to_set_is_finite;

    if n > 0 {
        lemma_class_entries_classes(cs, n - 1);
    }
}

proof fn lemma_class_entries_aliases(cs: Seq<(Seq<char>, ClassV)>, n: int)
    ensures
        class_entries_aliases(cs, n).finite(),
        forall|i: int| 0 <= i < n ==> classv_aliases(
            (#[trigger] cs[i]).1,
        ).to_set().subset_of(class_entries_aliases(cs, n)),
    decreases n,
{
    broadcast use vstd::seq_lib::seq_to_set_is_finite;

    if n > 0 {
        lemma_class_entries_aliases(cs, n - 1);
    }
}

/// The universes are finite, contain their seeds, and absorb every step.
proof fn lemma_universes(
    cs: Seq<(Seq<char>, ClassV)>,
    als: Seq<(Seq<char>, AliasV)>,
    seedc: Set<Seq<char>>,
    seeda: Set<Seq<char>>,
)
    requires
        seedc.finite(),
        seeda.finite(),
    ensures
        class_universe(cs, als, seedc).finite(),
        alias_universe(cs, als, seeda).finite(),
        seedc.subset_of(class_universe(cs, als, seedc)),
        seeda.subset_of(alias_universe(cs, als, seeda)),
        forall|a: Seq<char>| (#[trigger] alias_step_classes(cs, als, a)).subset_of(
            class_universe(cs, als, seedc),
        ),
        forall|a: Seq<char>| (#[trigger] alias_step_aliases(als, a)).subset_of(
            alias_universe(cs, als, seeda),
        ),
        forall|c: Seq<char>| (#[trigger] class_step_classes(cs, c)).subset_of(
            class_universe(cs, als, seedc),
        ),
        forall|c: Seq<char>| (#[trigger] class_step_aliases(cs, c)).subset_of(
            alias_universe(cs, als, seeda),
        ),
{
    lemma_alias_entries_classes(cs, als, als.len() as int);
    lemma_alias_entries_aliases(als, als.len() as int);
    lemma_class_entries_classes(cs, cs.len() as int);
    lemma_class_entries_aliases(cs, cs.len() as int);
    assert forall|a: Seq<char>| (#[trigger] alias_step_classes(cs, als, a)).subset_of(
        class_universe(cs, als, seedc),
    ) by {
        if map_has_key(als, a) {
            let i = map_key_index(als, a);
            assert(0 <= i < als.len() && als[i].0 == a);
            assert(kindv_local_classes(cs, als[i].1.kind).to_set().subset_of(
                alias_entries_classes(cs, als, als.len() as int),
            ));
        }
    }
    assert forall|a: Seq<char>| (#[trigger] alias_step_aliases(als, a)).subset_of(
        alias_universe(cs, als, seeda),
    ) by {
        if map_has_key(als, a) {
            let i = map_key_index(als, a);
            assert(kindv_aliases(als[i].1.kind).to_set().subset_of(
                alias_entries_aliases(als, als.len() as int),
            ));
        }
    }
    assert forall|c: Seq<char>| (#[trigger] class_step_classes(cs, c)).subset_of(
        class_universe(cs, als, seedc),
    ) by {
        if map_has_key(cs, c) {
            let i = map_key_index(cs, c);
            assert(classv_local_classes(cs, cs[i].1).to_set().subset_of(
                class_entries_classes(cs, cs.len() as int),
            ));
        }
    }
    assert forall|c: Seq<char>| (#[trigger] class_step_aliases(cs, c)).subset_of(
        alias_universe(cs, als, seeda),
    ) by {
        if map_has_key(cs, c) {
            let i = map_key_index(cs, c);
            assert(classv_aliases(cs[i].1).to_set().subset_of(
                class_entries_aliases(cs, cs.len() as int),
            ));
        }
    }
}

// ------------------------------------------------------------------
// Executable set-vectors: vectors of names without duplicates.

/// Whether the vector holds the string.
pub fn contains_str(v: &Vec<String>, s: &str) -> (r: bool)
    ensures
        r == strs_view(v@).contains(s@),
{
    let mut i: usize = 0;
    while i < v.len()
        invariant
            i <= v@.len(),
            forall|j: int| 0 <= j < i ==> strs_view(v@)[j] != s@,
        decreases v@.len() - i,
    {
        if crate::strutil::str_eq(v[i].as_str(), s) {
            assert(strs_view(v@)[i as int] == s@);
            return true;
        }
        i = i + 1;
    }
    false
}

proof fn lemma_push_no_dup(s: Seq<Seq<char>>, x: Seq<char>)
    requires
        s.no_duplicates(),
        !s.contains(x),
    ensures
        s.push(x).no_duplicates(),
{
    let t = s.push(x);
    assert forall|i: int, j: int| 0 <= i < j < t.len() implies t[i] != t[j] by {
        if j < t.len() - 1 {
            assert(s[i] != s[j]);
        } else {
            assert(t[j] == x);
            assert(t[i] == s[i]);
            assert(s.contains(s[i]));
        }
    }
}

/// Appends the string unless it is already present.
fn push_unique(v: &mut Vec<String>, s: &String)
    requires
        strs_view(old(v)@).no_duplicates(),
    ensures
        strs_view(final(v)@).no_duplicates(),
        strs_view(final(v)@).to_set() =~= strs_view(old(v)@).to_set().insert(s@),
        old(v)@.len() <= final(v)@.len(),
        forall|j: int| 0 <= j < old(v)@.len() ==> final(v)@[j] == old(v)@[j],
        strs_view(old(v)@).contains(s@) ==> final(v)@ == old(v)@,
        !strs_view(old(v)@).contains(s@) ==> final(v)@.len() == old(v)@.len() + 1,
{
    broadcast use vstd::prelude::Seq::lemma_push_to_set_commute;

    if !contains_str(v, s.as_str()) {
        proof {
            lemma_push_no_dup(strs_view(v@), s@);
        }
        let ghost before = strs_view(v@);
        v.push(s.clone());
        proof {
            assert(strs_view(v@) =~= before.push(s@));
        }
    } else {
        proof {
            assert(strs_view(v@).to_set() =~= strs_view(v@).to_set().insert(s@));
        }
    }
}

/// Appends every string of `items` that is not already present.
fn extend_unique(v: &mut Vec<String>, items: &Vec<String>)
    requires
        strs_view(old(v)@).no_duplicates(),
    ensures
        strs_view(final(v)@).no_duplicates(),
        strs_view(final(v)@).to_set() =~= strs_view(old(v)@).to_set().union(
            strs_view(items@).to_set(),
        ),
        old(v)@.len() <= final(v)@.len(),
        forall|j: int| 0 <= j < old(v)@.len() ==> final(v)@[j] == old(v)@[j],
        final(v)@.len() == old(v)@.len() ==> final(v)@ == old(v)@,
{
    let ghost v0 = v@;
    let mut i: usize = 0;
    while i < items.len()
        invariant
            i <= items@.len(),
            strs_view(v@).no_duplicates(),
            strs_view(v@).to_set() =~= strs_view(v0).to_set().union(
                strs_view(items@).subrange(0, i as int).to_set(),
            ),
            v0.len() <= v@.len(),
            forall|j: int| 0 <= j < v0.len() ==> v@[j] == v0[j],
            v@.len() == v0.len() ==> v@ == v0,
        decreases items@.len() - i,
    {
        let ghost before = v@;
        push_unique(v, &items[i]);
        proof {
            let pfx = strs_view(items@).subrange(0, i as int);
            let pfx1 = strs_view(items@).subrange(0, i + 1 as int);
            assert(strs_view(items@)[i as int] == items@[i as int]@);
            assert(pfx1 =~= pfx.push(items@[i as int]@));
            broadcast use vstd::prelude::Seq::lemma_push_to_set_commute;
            assert(pfx1.to_set() =~= pfx.to_set().insert(items@[i as int]@));
            assert(strs_view(v@).to_set() =~= strs_view(v0).to_set().union(pfx1.to_set()));
            if v@.len() == v0.len() {
                assert(before.len() == v0.len());
                assert(before == v0);
                assert(v@ =~= v0);
            }
        }
        i = i + 1;
    }
    proof {
        assert(strs_view(items@).subrange(0, items@.len() as int) =~= strs_view(items@));
    }
}

use crate::types::{Alias, AliasV};

impl Class {
    /// The least pair of sets — `Local`-scope class names and alias
    /// names — that contains this container's direct references and is
    /// closed under expansion through the class and alias tables: what a
    /// class-partitioned document must inline to be self-contained.
    pub fn collect_local_types(&self, structs: &NameMap<Class>, aliases: &NameMap<Alias>) -> (r: (Vec<String>, Vec<String>))
        requires
            structs.wf(),
            aliases.wf(),
        ensures
            strs_view(r.0@).no_duplicates(),
            strs_view(r.1@).no_duplicates(),
            classv_local_classes(structs@, self@).to_set().subset_of(strs_view(r.0@).to_set()),
            classv_aliases(self@).to_set().subset_of(strs_view(r.1@).to_set()),
            closure_closed(
                structs@,
                aliases@,
                strs_view(r.0@).to_set(),
                strs_view(r.1@).to_set(),
            ),
            forall|s: Set<Seq<char>>, t: Set<Seq<char>>|
                closure_closed(structs@, aliases@, s, t) && classv_local_classes(
                    structs@,
                    self@,
                ).to_set().subset_of(s) && classv_aliases(self@).to_set().subset_of(t)
                    ==> strs_view(r.0@).to_set().subset_of(s) && strs_view(
                    r.1@,
                ).to_set().subset_of(t),
    {
        let seed_c = self.collect_local_class_types(structs);
        let seed_a = self.collect_alias_types();
        let ghost seedc = strs_view(seed_c@).to_set();
        let ghost seeda = strs_view(seed_a@).to_set();
        let ghost uc = class_universe(structs@, aliases@, seedc);
        let ghost ua = alias_universe(structs@, aliases@, seeda);
        proof {
            broadcast use vstd::seq_lib::seq_to_set_is_finite;

            lemma_universes(structs@, aliases@, seedc, seeda);
        }
        let mut cl: Vec<String> = Vec::new();
        let mut al: Vec<String> = Vec::new();
        assert(strs_view(cl@) =~= Seq::<Seq<char>>::empty());
        assert(strs_view(al@) =~= Seq::<Seq<char>>::empty());
        extend_unique(&mut cl, &seed_c);
        extend_unique(&mut al, &seed_a);
        proof {
            assert(strs_view(cl@).to_set() =~= seedc);
            assert(strs_view(al@).to_set() =~= seeda);
        }
        let mut pc: usize = 0;
        let mut pa: usize = 0;
        while pc < cl.len() || pa < al.len()
            invariant
                structs.wf(),
                aliases.wf(),
                pc <= cl@.len(),
                pa <= al@.len(),
                strs_view(cl@).no_duplicates(),
                strs_view(al@).no_duplicates(),
                uc == class_universe(structs@, aliases@, seedc),
                ua == alias_universe(structs@, aliases@, seeda),
                uc.finite(),
                ua.finite(),
                seedc.finite(),
                seeda.finite(),
                strs_view(cl@).to_set().subset_of(uc),
                strs_view(al@).to_set().subset_of(ua),
                seedc.subset_of(strs_view(cl@).to_set()),
                seeda.subset_of(strs_view(al@).to_set()),
                forall|s: Set<Seq<char>>, t: Set<Seq<char>>|
                    closure_closed(structs@, aliases@, s, t) && seedc.subset_of(s)
                        && seeda.subset_of(t) ==> strs_view(cl@).to_set().subset_of(s)
                        && strs_view(al@).to_set().subset_of(t),
                forall|j: int| 0 <= j < pc ==> (#[trigger] class_step_classes(
                    structs@,
                    strs_view(cl@)[j],
                )).subset_of(strs_view(cl@).to_set()) && class_step_aliases(
                    structs@,
                    strs_view(cl@)[j],
                ).subset_of(strs_view(al@).to_set()),
                forall|j: int| 0 <= j < pa ==> (#[trigger] alias_step_classes(
                    structs@,
                    aliases@,
                    strs_view(al@)[j],
                )).subset_of(strs_view(cl@).to_set()) && alias_step_aliases(
                    aliases@,
                    strs_view(al@)[j],
                ).subset_of(strs_view(al@).to_set()),
            decreases
                    uc.len() + ua.len() - (strs_view(cl@).to_set().len() + strs_view(
                        al@,
                    ).to_set().len()),
                    cl@.len() - pc + al@.len() - pa,
        {
            proof {
                strs_view(cl@).unique_seq_to_set();
                strs_view(al@).unique_seq_to_set();
            }
            let ghost cl0 = cl@;
            let ghost al0 = al@;
            if pc < cl.len() {
                let name = cl[pc].clone();
                proof {
                    assert(strs_view(cl@)[pc as int] == name@);
                }
                let mut sc: Vec<String> = Vec::new();
                let mut sa: Vec<String> = Vec::new();
                match structs.get(name.as_str()) {
                    Option::Some(c) => {
                        sc = c.collect_local_class_types(structs);
                        sa = c.collect_alias_types();
                        proof {
                            assert(strs_view(sc@).to_set() =~= class_step_classes(
                                structs@,
                                name@,
                            ));
                            assert(strs_view(sa@).to_set() =~= class_step_aliases(
                                structs@,
                                name@,
                            ));
                        }
                    },
                    Option::None => {
                        proof {
                            assert(strs_view(sc@) =~= Seq::<Seq<char>>::empty());
                            assert(strs_view(sa@) =~= Seq::<Seq<char>>::empty());
                            assert(strs_view(sc@).to_set() =~= class_step_classes(
                                structs@,
                                name@,
                            ));
                            assert(strs_view(sa@).to_set() =~= class_step_aliases(
                                structs@,
                                name@,
                            ));
                        }
                    },
                }
                extend_unique(&mut cl, &sc);
                extend_unique(&mut al, &sa);
                proof {
                    lemma_closure_step(
                        structs@,
                        aliases@,
                        seedc,
                        seeda,
                        strs_view(cl0).to_set(),
                        strs_view(al0).to_set(),
                        name@,
                        true,
                    );
                    // the processed prefix keeps its entries
                    assert(forall|j: int| 0 <= j < cl0.len() ==> strs_view(cl@)[j] == strs_view(
                        cl0,
                    )[j]);
                    assert(forall|j: int| 0 <= j < al0.len() ==> strs_view(al@)[j] == strs_view(
                        al0,
                    )[j]);
                    strs_view(cl@).unique_seq_to_set();
                    strs_view(al@).unique_seq_to_set();
                    if cl@.len() == cl0.len() && al@.len() == al0.len() {
                        assert(cl@ == cl0 && al@ == al0);
                    } else {
                        lemma_universes(structs@, aliases@, seedc, seeda);
                        assert(strs_view(cl@).to_set().subset_of(uc));
                        assert(strs_view(al@).to_set().subset_of(ua));
                        vstd::set_lib::lemma_len_subset(strs_view(cl@).to_set(), uc);
                        vstd::set_lib::lemma_len_subset(strs_view(al@).to_set(), ua);
                        vstd::set_lib::lemma_len_subset(
                            strs_view(cl0).to_set(),
                            strs_view(cl@).to_set(),
                        );
                        vstd::set_lib::lemma_len_subset(
                            strs_view(al0).to_set(),
                            strs_view(al@).to_set(),
                        );
                    }
                }
                pc = pc + 1;
                proof {
                    assert(strs_view(cl0).to_set().subset_of(strs_view(cl@).to_set()));
                    assert(strs_view(al0).to_set().subset_of(strs_view(al@).to_set()));
                    assert forall|j: int| 0 <= j < pc implies (#[trigger] class_step_classes(
                        structs@,
                        strs_view(cl@)[j],
                    )).subset_of(strs_view(cl@).to_set()) && class_step_aliases(
                        structs@,
                        strs_view(cl@)[j],
                    ).subset_of(strs_view(al@).to_set()) by {
                        if j < pc - 1 {
                            assert(strs_view(cl@)[j] == strs_view(cl0)[j]);
                            assert(class_step_classes(structs@, strs_view(cl0)[j]).subset_of(
                                strs_view(cl0).to_set(),
                            ));
                            assert(class_step_aliases(structs@, strs_view(cl0)[j]).subset_of(
                                strs_view(al0).to_set(),
                            ));
                        } else {
                            assert(strs_view(cl@)[j] == strs_view(cl0)[j]);
                            assert(strs_view(cl0)[j] == name@);
                            assert(class_step_classes(structs@, name@).subset_of(
                                strs_view(cl@).to_set(),
                            ));
                            assert(class_step_aliases(structs@, name@).subset_of(
                                strs_view(al@).to_set(),
                            ));
                        }
                    }
                    assert forall|j: int| 0 <= j < pa implies (#[trigger] alias_step_classes(
                        structs@,
                        aliases@,
                        strs_view(al@)[j],
                    )).subset_of(strs_view(cl@).to_set()) && alias_step_aliases(
                        aliases@,
                        strs_view(al@)[j],
                    ).subset_of(strs_view(al@).to_set()) by {
                        assert(strs_view(al@)[j] == strs_view(al0)[j]);
                        assert(alias_step_classes(structs@, aliases@, strs_view(al0)[j]).subset_of(
                            strs_view(cl0).to_set(),
                        ));
                        assert(alias_step_aliases(aliases@, strs_view(al0)[j]).subset_of(
                            strs_view(al0).to_set(),
                        ));
                    }
                }
            } else {
                let name = al[pa].clone();
                proof {
                    assert(strs_view(al@)[pa as int] == name@);
                }
                let mut sc: Vec<String> = Vec::new();
                let mut sa: Vec<String> = Vec::new();
                match aliases.get(name.as_str()) {
                    Option::Some(a) => {
                        sc = a.kind.collect_local_class_types(structs);
                        sa = a.kind.collect_alias_types();
                        proof {
                            assert(strs_view(sc@).to_set() =~= alias_step_classes(
                                structs@,
                                aliases@,
                                name@,
                            ));
                            assert(strs_view(sa@).to_set() =~= alias_step_aliases(
                                aliases@,
                                name@,
                            ));
                        }
                    },
                    Option::None => {
                        proof {
                            assert(strs_view(sc@) =~= Seq::<Seq<char>>::empty());
                            assert(strs_view(sa@) =~= Seq::<Seq<char>>::empty());
                            assert(strs_view(sc@).to_set() =~= alias_step_classes(
                                structs@,
                                aliases@,
                                name@,
                            ));
                            assert(strs_view(sa@).to_set() =~= alias_step_aliases(
                                aliases@,
                                name@,
                            ));
                        }
                    },
                }
                extend_unique(&mut cl, &sc);
                extend_unique(&mut al, &sa);
                proof {
                    lemma_closure_step(
                        structs@,
                        aliases@,
                        seedc,
                        seeda,
                        strs_view(cl0).to_set(),
                        strs_view(al0).to_set(),
                        name@,
                        false,
                    );
                    assert(forall|j: int| 0 <= j < cl0.len() ==> strs_view(cl@)[j] == strs_view(
                        cl0,
                    )[j]);
                    assert(forall|j: int| 0 <= j < al0.len() ==> strs_view(al@)[j] == strs_view(
                        al0,
                    )[j]);
                    strs_view(cl@).unique_seq_to_set();
                    strs_view(al@).unique_seq_to_set();
                    if cl@.len() == cl0.len() && al@.len() == al0.len() {
                        assert(cl@ == cl0 && al@ == al0);
                    } else {
                        lemma_universes(structs@, aliases@, seedc, seeda);
                        assert(strs_view(cl@).to_set().subset_of(uc));
                        assert(strs_view(al@).to_set().subset_of(ua));
                        vstd::set_lib::lemma_len_subset(strs_view(cl@).to_set(), uc);
                        vstd::set_lib::lemma_len_subset(strs_view(al@).to_set(), ua);
                        vstd::set_lib::lemma_len_subset(
                            strs_view(cl0).to_set(),
                            strs_view(cl@).to_set(),
                        );
                        vstd::set_lib::lemma_len_subset(
                            strs_view(al0).to_set(),
                            strs_view(al@).to_set(),
                        );
                    }
                }
                pa = pa + 1;
                proof {
                    assert(strs_view(cl0).to_set().subset_of(strs_view(cl@).to_set()));
                    assert(strs_view(al0).to_set().subset_of(strs_view(al@).to_set()));
                    assert forall|j: int| 0 <= j < pa implies (#[trigger] alias_step_classes(
                        structs@,
                        aliases@,
                        strs_view(al@)[j],
                    )).subset_of(strs_view(cl@).to_set()) && alias_step_aliases(
                        aliases@,
                        strs_view(al@)[j],
                    ).subset_of(strs_view(al@).to_set()) by {
                        if j < pa - 1 {
                            assert(strs_view(al@)[j] == strs_view(al0)[j]);
                            assert(alias_step_classes(structs@, aliases@, strs_view(al0)[j]).subset_of(
                                strs_view(cl0).to_set(),
                            ));
                            assert(alias_step_aliases(aliases@, strs_view(al0)[j]).subset_of(
                                strs_view(al0).to_set(),
                            ));
                        } else {
                            assert(strs_view(al@)[j] == strs_view(al0)[j]);
                            assert(strs_view(al0)[j] == name@);
                            assert(alias_step_classes(structs@, aliases@, name@).subset_of(
                                strs_view(cl@).to_set(),
                            ));
                            assert(alias_step_aliases(aliases@, name@).subset_of(
                                strs_view(al@).to_set(),
                            ));
                        }
                    }
                    assert forall|j: int| 0 <= j < pc implies (#[trigger] class_step_classes(
                        structs@,
                        strs_view(cl@)[j],
                    )).subset_of(strs_view(cl@).to_set()) && class_step_aliases(
                        structs@,
                        strs_view(cl@)[j],
                    ).subset_of(strs_view(al@).to_set()) by {
                        assert(strs_view(cl@)[j] == strs_view(cl0)[j]);
                        assert(class_step_classes(structs@, strs_view(cl0)[j]).subset_of(
                            strs_view(cl0).to_set(),
                        ));
                        assert(class_step_aliases(structs@, strs_view(cl0)[j]).subset_of(
                            strs_view(al0).to_set(),
                        ));
                    }
                }
            }
        }
        proof {
            assert forall|c: Seq<char>| strs_view(cl@).to_set().contains(c) implies (
            #[trigger] class_step_classes(structs@, c)).subset_of(strs_view(cl@).to_set())
                && class_step_aliases(structs@, c).subset_of(strs_view(al@).to_set()) by {
                let j = choose|j: int| 0 <= j < strs_view(cl@).len() && strs_view(cl@)[j] == c;
                assert(0 <= j < pc);
            }
            assert forall|a: Seq<char>| strs_view(al@).to_set().contains(a) implies (
            #[trigger] alias_step_classes(structs@, aliases@, a)).subset_of(
                strs_view(cl@).to_set(),
            ) && alias_step_aliases(aliases@, a).subset_of(strs_view(al@).to_set()) by {
                let j = choose|j: int| 0 <= j < strs_view(al@).len() && strs_view(al@)[j] == a;
                assert(0 <= j < pa);
            }
        }
        (cl, al)
    }
}

/// Any closed pair of sets over the seed absorbs one expansion step.
proof fn lemma_closure_step(
    cs: Seq<(Seq<char>, ClassV)>,
    als: Seq<(Seq<char>, AliasV)>,
    seedc: Set<Seq<char>>,
    seeda: Set<Seq<char>>,
    cl: Set<Seq<char>>,
    al: Set<Seq<char>>,
    name: Seq<char>,
    from_class: bool,
)
    requires
        from_class ==> cl.contains(name),
        !from_class ==> al.contains(name),
    ensures
        forall|s: Set<Seq<char>>, t: Set<Seq<char>>|
            closure_closed(cs, als, s, t) && cl.subset_of(s) && al.subset_of(t) ==> (if from_class {
                class_step_classes(cs, name)
            } else {
                alias_step_classes(cs, als, name)
            }).subset_of(s) && (if from_class {
                class_step_aliases(cs, name)
            } else {
                alias_step_aliases(als, name)
            }).subset_of(t),
{
}


spec fn alias_only_universe(als: Seq<(Seq<char>, AliasV)>, seed: Set<Seq<char>>) -> Set<
    Seq<char>,
> {
    seed.union(alias_entries_aliases(als, als.len() as int))
}

impl Class {
    /// The least set of alias names that contains this container's direct
    /// alias references and is closed under expansion through the alias
    /// table: what a file-partitioned document must inline.
    pub fn collect_local_aliases(&self, aliases: &NameMap<Alias>) -> (r: Vec<String>)
        requires
            aliases.wf(),
        ensures
            strs_view(r@).no_duplicates(),
            classv_aliases(self@).to_set().subset_of(strs_view(r@).to_set()),
            aliases_closed(aliases@, strs_view(r@).to_set()),
            forall|t: Set<Seq<char>>|
                aliases_closed(aliases@, t) && classv_aliases(self@).to_set().subset_of(t)
                    ==> strs_view(r@).to_set().subset_of(t),
    {
        let seed_a = self.collect_alias_types();
        let ghost seeda = strs_view(seed_a@).to_set();
        let ghost ua = alias_only_universe(aliases@, seeda);
        proof {
            broadcast use vstd::seq_lib::seq_to_set_is_finite;

            lemma_alias_entries_aliases(aliases@, aliases@.len() as int);
        }
        let mut al: Vec<String> = Vec::new();
        assert(strs_view(al@) =~= Seq::<Seq<char>>::empty());
        extend_unique(&mut al, &seed_a);
        proof {
            assert(strs_view(al@).to_set() =~= seeda);
        }
        let mut pa: usize = 0;
        while pa < al.len()
            invariant
                aliases.wf(),
                pa <= al@.len(),
                strs_view(al@).no_duplicates(),
                ua == alias_only_universe(aliases@, seeda),
                ua.finite(),
                seeda.finite(),
                strs_view(al@).to_set().subset_of(ua),
                seeda.subset_of(strs_view(al@).to_set()),
                forall|t: Set<Seq<char>>|
                    aliases_closed(aliases@, t) && seeda.subset_of(t) ==> strs_view(
                        al@,
                    ).to_set().subset_of(t),
                forall|j: int| 0 <= j < pa ==> (#[trigger] alias_step_aliases(
                    aliases@,
                    strs_view(al@)[j],
                )).subset_of(strs_view(al@).to_set()),
            decreases ua.len() - strs_view(al@).to_set().len(), al@.len() - pa,
        {
            proof {
                strs_view(al@).unique_seq_to_set();
            }
            let ghost al0 = al@;
            let name = al[pa].clone();
            proof {
                assert(strs_view(al@)[pa as int] == name@);
            }
            let mut sa: Vec<String> = Vec::new();
            match aliases.get(name.as_str()) {
                Option::Some(a) => {
                    sa = a.kind.collect_alias_types();
                    proof {
                        assert(strs_view(sa@).to_set() =~= alias_step_aliases(aliases@, name@));
                    }
                },
                Option::None => {
                    proof {
                        assert(strs_view(sa@) =~= Seq::<Seq<char>>::empty());
                        assert(strs_view(sa@).to_set() =~= alias_step_aliases(aliases@, name@));
                    }
                },
            }
            extend_unique(&mut al, &sa);
            pa = pa + 1;
            proof {
                // the step's names are bounded by the universe
                lemma_alias_entries_aliases(aliases@, aliases@.len() as int);
                assert(alias_step_aliases(aliases@, name@).subset_of(ua)) by {
                    if map_has_key(aliases@, name@) {
                        let i = map_key_index(aliases@, name@);
                        assert(kindv_aliases(aliases@[i].1.kind).to_set().subset_of(
                            alias_entries_aliases(aliases@, aliases@.len() as int),
                        ));
                    }
                }
                assert(strs_view(al0).to_set().subset_of(strs_view(al@).to_set()));
                assert forall|j: int| 0 <= j < pa implies (#[trigger] alias_step_aliases(
                    aliases@,
                    strs_view(al@)[j],
                )).subset_of(strs_view(al@).to_set()) by {
                    if j < pa - 1 {
                        assert(strs_view(al@)[j] == strs_view(al0)[j]);
                        assert(alias_step_aliases(aliases@, strs_view(al0)[j]).subset_of(
                            strs_view(al0).to_set(),
                        ));
                    } else {
                        assert(strs_view(al@)[j] == strs_view(al0)[j]);
                        assert(strs_view(al0)[j] == name@);
                        assert(alias_step_aliases(aliases@, name@).subset_of(
                            strs_view(al@).to_set(),
                        ));
                    }
                }
                // any closed superset of the seed absorbs the step
                assert forall|t: Set<Seq<char>>|
                    aliases_closed(aliases@, t) && seeda.subset_of(t) implies strs_view(
                    al@,
                ).to_set().subset_of(t) by {
                    assert(strs_view(al0).to_set().subset_of(t));
                    assert(t.contains(name@));
                    assert(alias_step_aliases(aliases@, name@).subset_of(t));
                }
                strs_view(al@).unique_seq_to_set();
                strs_view(al0).unique_seq_to_set();
                if al@.len() == al0.len() {
                    assert(al@ == al0);
                } else {
                    vstd::set_lib::lemma_len_subset(strs_view(al@).to_set(), ua);
                    vstd::set_lib::lemma_len_subset(
                        strs_view(al0).to_set(),
                        strs_view(al@).to_set(),
                    );
                }
            }
        }
        proof {
            assert forall|a: Seq<char>| strs_view(al@).to_set().contains(a) implies (
            #[trigger] alias_step_aliases(aliases@, a)).subset_of(strs_view(al@).to_set()) by {
                let j = choose|j: int| 0 <= j < strs_view(al@).len() && strs_view(al@)[j] == a;
                assert(0 <= j < pa);
            }
        }
        al
    }
}

} // verus!
