//! The resolved documentation graph: tables of classes, enums and aliases
//! keyed by name, together with the symbol resolver that rewrites
//! `Unresolved` name leaves into references against those tables.

use vstd::prelude::*;

use crate::namemap::{map_has_key, map_put, map_lookup, map_key_index, NameMap, unique_keys};
use crate::types::{
    Alias, AliasV, Class, ClassV, Def, DefV, Enum, EnumV, Function, FunctionV, Kind, KindV,
    LuaKind, Scope, Var, VarV, clone_enums, clone_ostr, clone_vars, enums_view, functions_view,
    function_view, kind_view, kinds_view, lemma_kinds_view_index, lemma_kinds_view_len,
    lemma_obj_fields_view_index, lemma_obj_fields_view_len, lemma_vars_view_index,
    lemma_vars_view_len, obj_fields_view, ostr_view, var_view, vars_view,
};

verus! {

/// The documentation graph: every entity owned by one of three tables.
pub struct Library {
    pub classes: NameMap<Class>,
    pub enums: NameMap<Enum>,
    pub aliases: NameMap<Alias>,
}

/// Ghost model of [`Library`].
pub struct LibraryV {
    pub classes: Seq<(Seq<char>, ClassV)>,
    pub enums: Seq<(Seq<char>, EnumV)>,
    pub aliases: Seq<(Seq<char>, AliasV)>,
}

impl View for Library {
    type V = LibraryV;

    open spec fn view(&self) -> LibraryV {
        LibraryV { classes: self.classes@, enums: self.enums@, aliases: self.aliases@ }
    }
}

impl Library {
    /// Every table well-formed: keys unique.
    pub open spec fn wf(&self) -> bool {
        self.classes.wf() && self.enums.wf() && self.aliases.wf()
    }
}

// ------------------------------------------------------------------
// The symbol resolver, on the models.

/// What a bare name resolves to: the class, alias or enum of that exact
/// name, in that priority order; a name matching none stays unresolved.
pub open spec fn resolve_name(lib: LibraryV, s: Seq<char>) -> KindV {
    if map_has_key(lib.classes, s) {
        KindV::Class(s)
    } else if map_has_key(lib.aliases, s) {
        KindV::Alias(s)
    } else if map_has_key(lib.enums, s) {
        KindV::EnumRef(s)
    } else {
        KindV::Unresolved(s)
    }
}

/// The shape with every `Unresolved` leaf replaced by what its name
/// resolves to; resolved references are left untouched.
pub open spec fn resolve_kindv(lib: LibraryV, k: KindV) -> KindV
    decreases k,
{
    match k {
        KindV::Unresolved(s) => resolve_name(lib, s),
        KindV::Lua(l) => KindV::Lua(l),
        KindV::Literal(l, s) => KindV::Literal(l, s),
        KindV::Array(b) => KindV::Array(Box::new(resolve_kindv(lib, *b))),
        KindV::Nullable(b) => KindV::Nullable(Box::new(resolve_kindv(lib, *b))),
        KindV::Table(bk, bv) => KindV::Table(
            Box::new(resolve_kindv(lib, *bk)),
            Box::new(resolve_kindv(lib, *bv)),
        ),
        KindV::Object(fields) => KindV::Object(resolve_objv(lib, fields)),
        KindV::Alias(n) => KindV::Alias(n),
        KindV::Class(n) => KindV::Class(n),
        KindV::Function(bf) => KindV::Function(Box::new(resolve_functionv(lib, *bf))),
        KindV::Union(ks) => KindV::Union(resolve_kindsv(lib, ks)),
        KindV::EnumRef(n) => KindV::EnumRef(n),
        KindV::SelfArg => KindV::SelfArg,
        KindV::Variadic(b) => KindV::Variadic(Box::new(resolve_kindv(lib, *b))),
    }
}

pub open spec fn resolve_objv(lib: LibraryV, fields: Seq<(Seq<char>, KindV)>) -> Seq<
    (Seq<char>, KindV),
>
    decreases fields,
{
    if fields.len() == 0 {
        Seq::empty()
    } else {
        resolve_objv(lib, fields.drop_last()).push(
            (fields.last().0, resolve_kindv(lib, fields.last().1)),
        )
    }
}

pub open spec fn resolve_kindsv(lib: LibraryV, ks: Seq<KindV>) -> Seq<KindV>
    decreases ks,
{
    if ks.len() == 0 {
        Seq::empty()
    } else {
        resolve_kindsv(lib, ks.drop_last()).push(resolve_kindv(lib, ks.last()))
    }
}

/// The var with its type resolved.
pub open spec fn resolve_varv(lib: LibraryV, v: VarV) -> VarV
    decreases v,
{
    VarV { kind: resolve_kindv(lib, v.kind), ..v }
}

pub open spec fn resolve_varsv(lib: LibraryV, vs: Seq<VarV>) -> Seq<VarV>
    decreases vs,
{
    if vs.len() == 0 {
        Seq::empty()
    } else {
        resolve_varsv(lib, vs.drop_last()).push(resolve_varv(lib, vs.last()))
    }
}

/// The function with every parameter and return type resolved.
pub open spec fn resolve_functionv(lib: LibraryV, f: FunctionV) -> FunctionV
    decreases f,
{
    FunctionV {
        params: resolve_varsv(lib, f.params),
        returns: resolve_varsv(lib, f.returns),
        ..f
    }
}

pub open spec fn resolve_functionsv(lib: LibraryV, fs: Seq<FunctionV>) -> Seq<FunctionV> {
    fs.map_values(|f: FunctionV| resolve_functionv(lib, f))
}

/// The class with every field and function type resolved.
pub open spec fn resolve_classv(lib: LibraryV, c: ClassV) -> ClassV {
    ClassV {
        fields: resolve_varsv(lib, c.fields),
        functions: resolve_functionsv(lib, c.functions),
        ..c
    }
}

// Index characterizations of the sequence forms.

pub broadcast proof fn lemma_resolve_objv_len(lib: LibraryV, fields: Seq<(Seq<char>, KindV)>)
    ensures
        (#[trigger] resolve_objv(lib, fields)).len() == fields.len(),
    decreases fields,
{
    if fields.len() > 0 {
        lemma_resolve_objv_len(lib, fields.drop_last());
    }
}

pub broadcast proof fn lemma_resolve_objv_index(
    lib: LibraryV,
    fields: Seq<(Seq<char>, KindV)>,
    i: int,
)
    requires
        0 <= i < fields.len(),
    ensures
        #[trigger] resolve_objv(lib, fields)[i] == (
            fields[i].0,
            resolve_kindv(lib, fields[i].1),
        ),
    decreases fields,
{
    lemma_resolve_objv_len(lib, fields);
    if i < fields.len() - 1 {
        lemma_resolve_objv_index(lib, fields.drop_last(), i);
        lemma_resolve_objv_len(lib, fields.drop_last());
    }
}

pub broadcast proof fn lemma_resolve_kindsv_len(lib: LibraryV, ks: Seq<KindV>)
    ensures
        (#[trigger] resolve_kindsv(lib, ks)).len() == ks.len(),
    decreases ks,
{
    if ks.len() > 0 {
        lemma_resolve_kindsv_len(lib, ks.drop_last());
    }
}

pub broadcast proof fn lemma_resolve_kindsv_index(lib: LibraryV, ks: Seq<KindV>, i: int)
    requires
        0 <= i < ks.len(),
    ensures
        #[trigger] resolve_kindsv(lib, ks)[i] == resolve_kindv(lib, ks[i]),
    decreases ks,
{
    lemma_resolve_kindsv_len(lib, ks);
    if i < ks.len() - 1 {
        lemma_resolve_kindsv_index(lib, ks.drop_last(), i);
        lemma_resolve_kindsv_len(lib, ks.drop_last());
    }
}

pub broadcast proof fn lemma_resolve_varsv_len(lib: LibraryV, vs: Seq<VarV>)
    ensures
        (#[trigger] resolve_varsv(lib, vs)).len() == vs.len(),
    decreases vs,
{
    if vs.len() > 0 {
        lemma_resolve_varsv_len(lib, vs.drop_last());
    }
}

pub broadcast proof fn lemma_resolve_varsv_index(lib: LibraryV, vs: Seq<VarV>, i: int)
    requires
        0 <= i < vs.len(),
    ensures
        #[trigger] resolve_varsv(lib, vs)[i] == resolve_varv(lib, vs[i]),
    decreases vs,
{
    lemma_resolve_varsv_len(lib, vs);
    if i < vs.len() - 1 {
        lemma_resolve_varsv_index(lib, vs.drop_last(), i);
        lemma_resolve_varsv_len(lib, vs.drop_last());
    }
}

// ------------------------------------------------------------------
// The symbol resolver, executable.

impl Library {
    /// What a bare name resolves to, if anything: a reference to the
    /// class, alias or enum of that exact name, in that priority order.
    pub fn resolve_string(&self, s: &str) -> (r: Option<Kind>)
        ensures
            r is Some <==> resolve_name(self@, s@) != KindV::Unresolved(s@),
            r is Some ==> r.unwrap()@ == resolve_name(self@, s@),
    {
        if self.classes.contains_key(s) {
            Option::Some(Kind::Class(s.to_owned()))
        } else if self.aliases.contains_key(s) {
            Option::Some(Kind::Alias(s.to_owned()))
        } else if self.enums.contains_key(s) {
            Option::Some(Kind::EnumRef(s.to_owned()))
        } else {
            Option::None
        }
    }

    /// The shape with every `Unresolved` leaf replaced by what its name
    /// resolves to.
    pub fn resolve_kind(&self, kind: &Kind) -> (r: Kind)
        ensures
            r@ == resolve_kindv(self@, kind@),
        decreases *kind,
    {
        match kind {
            Kind::Unresolved(s) => {
                match self.resolve_string(s.as_str()) {
                    Option::Some(k) => k,
                    Option::None => Kind::Unresolved(s.clone()),
                }
            },
            Kind::Lua(l) => Kind::Lua(*l),
            Kind::Literal(l, s) => Kind::Literal(*l, s.clone()),
            Kind::Array(b) => Kind::Array(Box::new(self.resolve_kind(&**b))),
            Kind::Nullable(b) => Kind::Nullable(Box::new(self.resolve_kind(&**b))),
            Kind::Table(bk, bv) => Kind::Table(
                Box::new(self.resolve_kind(&**bk)),
                Box::new(self.resolve_kind(&**bv)),
            ),
            Kind::Object(fields) => {
                proof {
                    broadcast use lemma_resolve_objv_len, lemma_resolve_objv_index;
                    broadcast use lemma_obj_fields_view_len, lemma_obj_fields_view_index;
                }
                let mut v: Vec<(String, Kind)> = Vec::new();
                let mut i: usize = 0;
                while i < fields.len()
                    invariant
                        i <= fields@.len(),
                        v@.len() == i,
                        *kind == Kind::Object(*fields),
                        forall|j: int| 0 <= j < i ==> (#[trigger] v@[j]).0
                            == fields@[j].0 && kind_view(v@[j].1)
                            == resolve_kindv(self@, kind_view(fields@[j].1)),
                    decreases fields@.len() - i,
                {
                    assert(*fields == kind->Object_0);
                    assert(decreases_to!(*kind => kind->Object_0));
                    assert(decreases_to!(*fields => fields@[i as int]));
                    assert(decreases_to!(fields@[i as int] => fields@[i as int].1));
                    let name = fields[i].0.clone();
                    let k = self.resolve_kind(&fields[i].1);
                    v.push((name, k));
                    i = i + 1;
                }
                proof {
                    broadcast use lemma_obj_fields_view_len, lemma_obj_fields_view_index;
                    broadcast use lemma_resolve_objv_len, lemma_resolve_objv_index;
                    assert(obj_fields_view(v@) =~= resolve_objv(self@, obj_fields_view(fields@)));
                }
                Kind::Object(v)
            },
            Kind::Alias(n) => Kind::Alias(n.clone()),
            Kind::Class(n) => Kind::Class(n.clone()),
            Kind::Function(bf) => Kind::Function(Box::new(self.resolve_function_owned(&**bf))),
            Kind::Union(ks) => {
                proof {
                    broadcast use lemma_resolve_kindsv_len, lemma_resolve_kindsv_index;
                    broadcast use lemma_kinds_view_len, lemma_kinds_view_index;
                }
                let mut v: Vec<Kind> = Vec::new();
                let mut i: usize = 0;
                while i < ks.len()
                    invariant
                        i <= ks@.len(),
                        v@.len() == i,
                        *kind == Kind::Union(*ks),
                        forall|j: int| 0 <= j < i ==> kind_view(#[trigger] v@[j])
                            == resolve_kindv(self@, kind_view(ks@[j])),
                    decreases ks@.len() - i,
                {
                    assert(*ks == kind->Union_0);
                    assert(decreases_to!(*kind => kind->Union_0));
                    assert(decreases_to!(*ks => ks@[i as int]));
                    let k = self.resolve_kind(&ks[i]);
                    v.push(k);
                    i = i + 1;
                }
                proof {
                    broadcast use lemma_kinds_view_len, lemma_kinds_view_index;
                    broadcast use lemma_resolve_kindsv_len, lemma_resolve_kindsv_index;
                    assert(kinds_view(v@) =~= resolve_kindsv(self@, kinds_view(ks@)));
                }
                Kind::Union(v)
            },
            Kind::EnumRef(n) => Kind::EnumRef(n.clone()),
            Kind::SelfArg => Kind::SelfArg,
            Kind::Variadic(b) => Kind::Variadic(Box::new(self.resolve_kind(&**b))),
        }
    }

    /// Every var of the list with its type resolved.
    fn resolve_vars(&self, vs: &Vec<Var>) -> (r: Vec<Var>)
        ensures
            vars_view(r@) == resolve_varsv(self@, vars_view(vs@)),
        decreases *vs,
    {
        proof {
            broadcast use lemma_vars_view_len, lemma_vars_view_index;
            broadcast use lemma_resolve_varsv_len, lemma_resolve_varsv_index;
        }
        let mut v: Vec<Var> = Vec::new();
        let mut i: usize = 0;
        while i < vs.len()
            invariant
                i <= vs@.len(),
                v@.len() == i,
                forall|j: int| 0 <= j < i ==> var_view(#[trigger] v@[j])
                    == resolve_varv(self@, var_view(vs@[j])),
            decreases vs@.len() - i,
        {
            assert(decreases_to!(*vs => vs@[i as int]));
            let old_var = &vs[i];
            let k = self.resolve_kind(&old_var.kind);
            let nv = Var {
                file: clone_ostr(&old_var.file),
                line_number: old_var.line_number,
                name: clone_ostr(&old_var.name),
                kind: k,
                desc: clone_ostr(&old_var.desc),
            };
            v.push(nv);
            i = i + 1;
        }
        proof {
            broadcast use lemma_vars_view_len, lemma_vars_view_index;
            broadcast use lemma_resolve_varsv_len, lemma_resolve_varsv_index;
            assert(vars_view(v@) =~= resolve_varsv(self@, vars_view(vs@)));
        }
        v
    }

    /// The function with every parameter and return type resolved,
    /// built fresh.
    fn resolve_function_owned(&self, f: &Function) -> (r: Function)
        ensures
            r@ == resolve_functionv(self@, f@),
        decreases *f,
    {
        Function {
            file: clone_ostr(&f.file),
            line_number: f.line_number,
            name: clone_ostr(&f.name),
            params: self.resolve_vars(&f.params),
            returns: self.resolve_vars(&f.returns),
            desc: clone_ostr(&f.desc),
        }
    }

    /// Resolves every parameter and return type of the function in place.
    pub fn resolve_function(&self, f: &mut Function)
        ensures
            final(f)@ == resolve_functionv(self@, old(f)@),
    {
        let params = self.resolve_vars(&f.params);
        let rets = self.resolve_vars(&f.returns);
        f.params = params;
        f.returns = rets;
    }

    /// The class with every field and function type resolved.
    fn resolve_class(&self, c: &Class) -> (r: Class)
        ensures
            r@ == resolve_classv(self@, c@),
    {
        let fields = self.resolve_vars(&c.fields);
        let mut functions: Vec<Function> = Vec::new();
        let mut i: usize = 0;
        while i < c.functions.len()
            invariant
                i <= c.functions@.len(),
                functions@.len() == i,
                forall|j: int| 0 <= j < i ==> function_view(#[trigger] functions@[j])
                    == resolve_functionv(self@, function_view(c.functions@[j])),
            decreases c.functions@.len() - i,
        {
            let f = self.resolve_function_owned(&c.functions[i]);
            functions.push(f);
            i = i + 1;
        }
        proof {
            assert(functions_view(functions@) =~= resolve_functionsv(
                self@,
                functions_view(c.functions@),
            ));
        }
        Class {
            file: clone_ostr(&c.file),
            line_number: c.line_number,
            scope: c.scope,
            name: c.name.clone(),
            fields,
            functions,
            enums: clone_enums(&c.enums),
            constants: clone_vars(&c.constants),
            desc: c.desc.clone(),
        }
    }

    /// Rewrites every class of the library against a snapshot of its
    /// tables.  Only class fields and functions change; keys, enums and
    /// aliases stay as they were.
    pub fn resolve_classes(&mut self)
        requires
            old(self).wf(),
        ensures
            final(self).wf(),
            final(self)@.enums == old(self)@.enums,
            final(self)@.aliases == old(self)@.aliases,
            final(self)@.classes.len() == old(self)@.classes.len(),
            forall|i: int| 0 <= i < old(self)@.classes.len()
                ==> (#[trigger] final(self)@.classes[i]).0 == old(self)@.classes[i].0
                    && final(self)@.classes[i].1 == resolve_classv(
                    old(self)@,
                    old(self)@.classes[i].1,
                ),
    {
        let ghost oldlib = self@;
        let mut i: usize = 0;
        while i < self.classes.len()
            invariant
                self.wf(),
                i <= self@.classes.len(),
                self@.classes.len() == oldlib.classes.len(),
                self@.enums == oldlib.enums,
                self@.aliases == oldlib.aliases,
                forall|j: int| 0 <= j < self@.classes.len()
                    ==> (#[trigger] self@.classes[j]).0 == oldlib.classes[j].0,
                forall|j: int| 0 <= j < i ==> (#[trigger] self@.classes[j]).1 == resolve_classv(
                    oldlib,
                    oldlib.classes[j].1,
                ),
                forall|j: int| i <= j < self@.classes.len()
                    ==> (#[trigger] self@.classes[j]).1 == oldlib.classes[j].1,
            decreases self@.classes.len() - i,
        {
            let ghost before = self@;
            let name = self.classes.key_at(i).clone();
            let resolved = {
                let c = self.classes.value_at(i);
                self.resolve_class(c)
            };
            proof {
                // the resolver read only table keys, which are unchanged
                assert forall|s: Seq<char>| map_has_key(self@.classes, s) == map_has_key(
                    oldlib.classes,
                    s,
                ) by {
                    if map_has_key(self@.classes, s) {
                        let w = map_key_index(self@.classes, s);
                        assert(oldlib.classes[w].0 == s);
                    }
                    if map_has_key(oldlib.classes, s) {
                        let w = map_key_index(oldlib.classes, s);
                        assert(self@.classes[w].0 == s);
                    }
                }
                assert(resolve_classv(self@, before.classes[i as int].1) == resolve_classv(
                    oldlib,
                    oldlib.classes[i as int].1,
                )) by {
                    lemma_resolve_classv_same_names(self@, oldlib, oldlib.classes[i as int].1);
                }
                assert(map_has_key(self@.classes, name@)) by {
                    assert(self@.classes[i as int].0 == name@);
                }
                assert(map_key_index(self@.classes, name@) == i) by {
                    let w = map_key_index(self@.classes, name@);
                    assert(0 <= w < self@.classes.len() && self@.classes[w].0 == name@);
                    if w != i {
                        assert(false);
                    }
                }
            }
            self.classes.insert(name, resolved);
            proof {
                assert(self@.classes =~= before.classes.update(
                    i as int,
                    (before.classes[i as int].0, resolve_classv(oldlib, oldlib.classes[i as int].1)),
                ));
            }
            i = i + 1;
        }
    }
}

/// Two libraries with the same key sets resolve every shape identically:
/// resolution reads only which names exist.
pub proof fn lemma_resolve_kindv_same_names(a: LibraryV, b: LibraryV, k: KindV)
    requires
        forall|s: Seq<char>| map_has_key(a.classes, s) == map_has_key(b.classes, s),
        forall|s: Seq<char>| map_has_key(a.aliases, s) == map_has_key(b.aliases, s),
        forall|s: Seq<char>| map_has_key(a.enums, s) == map_has_key(b.enums, s),
    ensures
        resolve_kindv(a, k) == resolve_kindv(b, k),
    decreases k,
{
    match k {
        KindV::Object(fields) => {
            lemma_resolve_objv_same_names(a, b, fields);
        },
        KindV::Function(bf) => {
            lemma_resolve_varsv_same_names(a, b, bf.params);
            lemma_resolve_varsv_same_names(a, b, bf.returns);
            assert(resolve_functionv(a, *bf) == resolve_functionv(b, *bf));
        },
        KindV::Union(ks) => {
            lemma_resolve_kindsv_same_names(a, b, ks);
        },
        KindV::Array(bk) => lemma_resolve_kindv_same_names(a, b, *bk),
        KindV::Nullable(bk) => lemma_resolve_kindv_same_names(a, b, *bk),
        KindV::Variadic(bk) => lemma_resolve_kindv_same_names(a, b, *bk),
        KindV::Table(bk, bv) => {
            lemma_resolve_kindv_same_names(a, b, *bk);
            lemma_resolve_kindv_same_names(a, b, *bv);
        },
        _ => {},
    }
}

proof fn lemma_resolve_objv_same_names(a: LibraryV, b: LibraryV, fields: Seq<(Seq<char>, KindV)>)
    requires
        forall|s: Seq<char>| map_has_key(a.classes, s) == map_has_key(b.classes, s),
        forall|s: Seq<char>| map_has_key(a.aliases, s) == map_has_key(b.aliases, s),
        forall|s: Seq<char>| map_has_key(a.enums, s) == map_has_key(b.enums, s),
    ensures
        resolve_objv(a, fields) == resolve_objv(b, fields),
    decreases fields,
{
    if fields.len() > 0 {
        lemma_resolve_objv_same_names(a, b, fields.drop_last());
        lemma_resolve_kindv_same_names(a, b, fields.last().1);
    }
}

proof fn lemma_resolve_kindsv_same_names(a: LibraryV, b: LibraryV, ks: Seq<KindV>)
    requires
        forall|s: Seq<char>| map_has_key(a.classes, s) == map_has_key(b.classes, s),
        forall|s: Seq<char>| map_has_key(a.aliases, s) == map_has_key(b.aliases, s),
        forall|s: Seq<char>| map_has_key(a.enums, s) == map_has_key(b.enums, s),
    ensures
        resolve_kindsv(a, ks) == resolve_kindsv(b, ks),
    decreases ks,
{
    if ks.len() > 0 {
        lemma_resolve_kindsv_same_names(a, b, ks.drop_last());
        lemma_resolve_kindv_same_names(a, b, ks.last());
    }
}

proof fn lemma_resolve_varsv_same_names(a: LibraryV, b: LibraryV, vs: Seq<VarV>)
    requires
        forall|s: Seq<char>| map_has_key(a.classes, s) == map_has_key(b.classes, s),
        forall|s: Seq<char>| map_has_key(a.aliases, s) == map_has_key(b.aliases, s),
        forall|s: Seq<char>| map_has_key(a.enums, s) == map_has_key(b.enums, s),
    ensures
        resolve_varsv(a, vs) == resolve_varsv(b, vs),
    decreases vs,
{
    if vs.len() > 0 {
        lemma_resolve_varsv_same_names(a, b, vs.drop_last());
        lemma_resolve_kindv_same_names(a, b, vs.last().kind);
        assert(resolve_varv(a, vs.last()) == resolve_varv(b, vs.last()));
    }
}

/// Functions resolve identically under libraries with the same key sets.
pub proof fn lemma_resolve_functionv_same_names(a: LibraryV, b: LibraryV, f: FunctionV)
    requires
        forall|s: Seq<char>| map_has_key(a.classes, s) == map_has_key(b.classes, s),
        forall|s: Seq<char>| map_has_key(a.aliases, s) == map_has_key(b.aliases, s),
        forall|s: Seq<char>| map_has_key(a.enums, s) == map_has_key(b.enums, s),
    ensures
        resolve_functionv(a, f) == resolve_functionv(b, f),
{
    lemma_resolve_varsv_same_names(a, b, f.params);
    lemma_resolve_varsv_same_names(a, b, f.returns);
}

/// Classes resolve identically under libraries with the same key sets.
pub proof fn lemma_resolve_classv_same_names(a: LibraryV, b: LibraryV, c: ClassV)
    requires
        forall|s: Seq<char>| map_has_key(a.classes, s) == map_has_key(b.classes, s),
        forall|s: Seq<char>| map_has_key(a.aliases, s) == map_has_key(b.aliases, s),
        forall|s: Seq<char>| map_has_key(a.enums, s) == map_has_key(b.enums, s),
    ensures
        resolve_classv(a, c) == resolve_classv(b, c),
{
    lemma_resolve_varsv_same_names(a, b, c.fields);
    assert(resolve_functionsv(a, c.functions) =~= resolve_functionsv(b, c.functions)) by {
        assert forall|i: int| 0 <= i < c.functions.len()
            implies resolve_functionv(a, #[trigger] c.functions[i]) == resolve_functionv(
            b,
            c.functions[i],
        ) by {
            lemma_resolve_varsv_same_names(a, b, c.functions[i].params);
            lemma_resolve_varsv_same_names(a, b, c.functions[i].returns);
        }
    }
}

// ------------------------------------------------------------------
// Resolution is idempotent: resolving an already-resolved shape changes
// nothing, because resolution rewrites only `Unresolved` leaves and
// leaves behind none whose name is known.

/// Law: running the resolver twice equals running it once.
pub proof fn lemma_resolve_idempotent(lib: LibraryV, k: KindV)
    ensures
        resolve_kindv(lib, resolve_kindv(lib, k)) == resolve_kindv(lib, k),
    decreases k,
{
    match k {
        KindV::Unresolved(s) => {
            let r = resolve_name(lib, s);
            if map_has_key(lib.classes, s) {
                assert(r == KindV::Class(s));
            } else if map_has_key(lib.aliases, s) {
                assert(r == KindV::Alias(s));
            } else if map_has_key(lib.enums, s) {
                assert(r == KindV::EnumRef(s));
            } else {
                assert(r == KindV::Unresolved(s));
            }
            assert(resolve_kindv(lib, r) == r);
        },
        KindV::Object(fields) => {
            lemma_resolve_objv_idempotent(lib, fields);
        },
        KindV::Function(bf) => {
            lemma_resolve_varsv_idempotent(lib, bf.params);
            lemma_resolve_varsv_idempotent(lib, bf.returns);
            assert(resolve_functionv(lib, resolve_functionv(lib, *bf)) == resolve_functionv(
                lib,
                *bf,
            ));
        },
        KindV::Union(ks) => {
            lemma_resolve_kindsv_idempotent(lib, ks);
        },
        KindV::Array(bk) => lemma_resolve_idempotent(lib, *bk),
        KindV::Nullable(bk) => lemma_resolve_idempotent(lib, *bk),
        KindV::Variadic(bk) => lemma_resolve_idempotent(lib, *bk),
        KindV::Table(bk, bv) => {
            lemma_resolve_idempotent(lib, *bk);
            lemma_resolve_idempotent(lib, *bv);
        },
        _ => {},
    }
}

proof fn lemma_resolve_objv_idempotent(lib: LibraryV, fields: Seq<(Seq<char>, KindV)>)
    ensures
        resolve_objv(lib, resolve_objv(lib, fields)) == resolve_objv(lib, fields),
    decreases fields,
{
    if fields.len() > 0 {
        lemma_resolve_objv_idempotent(lib, fields.drop_last());
        lemma_resolve_idempotent(lib, fields.last().1);
        let once = resolve_objv(lib, fields);
        assert(once.drop_last() =~= resolve_objv(lib, fields.drop_last()));
    }
}

proof fn lemma_resolve_kindsv_idempotent(lib: LibraryV, ks: Seq<KindV>)
    ensures
        resolve_kindsv(lib, resolve_kindsv(lib, ks)) == resolve_kindsv(lib, ks),
    decreases ks,
{
    if ks.len() > 0 {
        lemma_resolve_kindsv_idempotent(lib, ks.drop_last());
        lemma_resolve_idempotent(lib, ks.last());
        let once = resolve_kindsv(lib, ks);
        assert(once.drop_last() =~= resolve_kindsv(lib, ks.drop_last()));
    }
}

proof fn lemma_resolve_varsv_idempotent(lib: LibraryV, vs: Seq<VarV>)
    ensures
        resolve_varsv(lib, resolve_varsv(lib, vs)) == resolve_varsv(lib, vs),
    decreases vs,
{
    if vs.len() > 0 {
        lemma_resolve_varsv_idempotent(lib, vs.drop_last());
        lemma_resolve_idempotent(lib, vs.last().kind);
        let once = resolve_varsv(lib, vs);
        assert(once.drop_last() =~= resolve_varsv(lib, vs.drop_last()));
        assert(resolve_varv(lib, resolve_varv(lib, vs.last())) == resolve_varv(lib, vs.last()));
    }
}

/// Law: resolving a class a second time changes nothing.
pub proof fn lemma_resolve_classv_idempotent(lib: LibraryV, c: ClassV)
    ensures
        resolve_classv(lib, resolve_classv(lib, c)) == resolve_classv(lib, c),
{
    lemma_resolve_varsv_idempotent(lib, c.fields);
    assert(resolve_functionsv(lib, resolve_functionsv(lib, c.functions)) =~= resolve_functionsv(
        lib,
        c.functions,
    )) by {
        assert forall|i: int| 0 <= i < c.functions.len()
            implies resolve_functionv(
            lib,
            resolve_functionsv(lib, c.functions)[i],
        ) == resolve_functionv(lib, #[trigger] c.functions[i]) by {
            lemma_resolve_varsv_idempotent(lib, c.functions[i].params);
            lemma_resolve_varsv_idempotent(lib, c.functions[i].returns);
        }
    }
}


// ------------------------------------------------------------------
// The built-in types, rendered as a fixed set of mini-containers.

/// The names of the built-in types, in presentation order.
pub open spec fn builtin_type_names() -> Seq<Seq<char>> {
    seq![
        "self"@,
        "nil"@,
        "boolean"@,
        "number"@,
        "string"@,
        "function"@,
        "table"@,
        "userdata"@,
        "lightuserdata"@,
        "integer"@,
        "any"@,
        "unknown"@,
    ]
}

/// Whether a container is one of the built-in mini-containers: scoped
/// `Builtins`, empty of members, holding only a name and a description.
pub open spec fn is_builtin_classv(c: ClassV) -> bool {
    &&& c.file is None
    &&& c.line_number is None
    &&& c.scope == Scope::Builtins
    &&& c.fields.len() == 0
    &&& c.functions.len() == 0
    &&& c.enums.len() == 0
    &&& c.constants.len() == 0
}

/// A built-in mini-container: only a name, a description and the
/// `Builtins` scope.
pub open spec fn builtin_classv(name: Seq<char>, desc: Seq<char>) -> ClassV {
    ClassV {
        file: Option::None,
        line_number: Option::None,
        scope: Scope::Builtins,
        name: name,
        fields: Seq::empty(),
        functions: Seq::empty(),
        enums: Seq::empty(),
        constants: Seq::empty(),
        desc: desc,
    }
}

/// The fixed built-in containers, names and description texts included.
pub open spec fn builtin_classesv() -> Seq<ClassV> {
    seq![
        builtin_classv(
            "self"@,
            "A type that represents an instance that you call a function on. When you see a function signature starting with this type, you should use `:` to call the function on the instance, this way you can omit this first argument.\n```lua\nlocal object = SomeClass()\nobject:do_something(123)\n```"@,
        ),
        builtin_classv(
            "nil"@,
            "A built-in type representing a non-existant value, [see details](https://www.lua.org/pil/2.1.html). When you see `?` at the end of types, it means they can be nil."@,
        ),
        builtin_classv(
            "boolean"@,
            "A built-in type representing a boolean (true or false) value, [see details](https://www.lua.org/pil/2.2.html)"@,
        ),
        builtin_classv(
            "number"@,
            "A built-in type representing floating point numbers, [see details](https://www.lua.org/pil/2.3.html)"@,
        ),
        builtin_classv(
            "string"@,
            "A built-in type representing a string of characters, [see details](https://www.lua.org/pil/2.4.html)"@,
        ),
        builtin_classv(
            "function"@,
            "A built-in type representing functions, [see details](https://www.lua.org/pil/2.6.html)"@,
        ),
        builtin_classv(
            "table"@,
            "A built-in type representing associative arrays, [see details](https://www.lua.org/pil/2.5.html)"@,
        ),
        builtin_classv(
            "userdata"@,
            "A built-in type representing array values, [see details](https://www.lua.org/pil/28.1.html)."@,
        ),
        builtin_classv(
            "lightuserdata"@,
            "A built-in type representing a pointer, [see details](https://www.lua.org/pil/28.5.html)"@,
        ),
        builtin_classv(
            "integer"@,
            "A helper type that represents whole numbers, a subset of [number](number.md)"@,
        ),
        builtin_classv(
            "any"@,
            "A type for a dynamic argument, it can be anything at run-time."@,
        ),
        builtin_classv(
            "unknown"@,
            "A dummy type for something that cannot be inferred before run-time."@,
        ),
    ]
}

impl Library {
    /// A built-in mini-container with the given name and description.
    pub fn builtin_class_desc(name: &str, desc: &str) -> (r: Class)
        ensures
            r@ == builtin_classv(name@, desc@),
    {
        let r = Class {
            file: Option::None,
            line_number: Option::None,
            scope: Scope::Builtins,
            name: name.to_owned(),
            fields: Vec::new(),
            functions: Vec::new(),
            enums: Vec::new(),
            constants: Vec::new(),
            desc: desc.to_owned(),
        };
        proof {
            assert(vars_view(r.fields@) =~= Seq::<VarV>::empty());
            assert(functions_view(r.functions@) =~= Seq::<FunctionV>::empty());
            assert(enums_view(r.enums@) =~= Seq::<EnumV>::empty());
            assert(vars_view(r.constants@) =~= Seq::<VarV>::empty());
        }
        r
    }

    /// One mini-container per built-in type, in presentation order,
    /// description texts included.
    pub fn builtin_classes() -> (r: Vec<Class>)
        ensures
            crate::types::classes_view(r@) == builtin_classesv(),
            r@.len() == builtin_type_names().len(),
            forall|i: int| 0 <= i < r@.len() ==> is_builtin_classv((#[trigger] r@[i])@)
                && r@[i]@.name == builtin_type_names()[i],
    {
        let self_desc = "A type that represents an instance that you call a function on. When you see a function signature starting with this type, you should use `:` to call the function on the instance, this way you can omit this first argument.\n```lua\nlocal object = SomeClass()\nobject:do_something(123)\n```";
        let mut r: Vec<Class> = Vec::new();
        r.push(Self::builtin_class_desc("self", self_desc));
        r.push(Self::builtin_class_desc(
            "nil",
            "A built-in type representing a non-existant value, [see details](https://www.lua.org/pil/2.1.html). When you see `?` at the end of types, it means they can be nil.",
        ));
        r.push(Self::builtin_class_desc(
            "boolean",
            "A built-in type representing a boolean (true or false) value, [see details](https://www.lua.org/pil/2.2.html)",
        ));
        r.push(Self::builtin_class_desc(
            "number",
            "A built-in type representing floating point numbers, [see details](https://www.lua.org/pil/2.3.html)",
        ));
        r.push(Self::builtin_class_desc(
            "string",
            "A built-in type representing a string of characters, [see details](https://www.lua.org/pil/2.4.html)",
        ));
        r.push(Self::builtin_class_desc(
            "function",
            "A built-in type representing functions, [see details](https://www.lua.org/pil/2.6.html)",
        ));
        r.push(Self::builtin_class_desc(
            "table",
            "A built-in type representing associative arrays, [see details](https://www.lua.org/pil/2.5.html)",
        ));
        r.push(Self::builtin_class_desc(
            "userdata",
            "A built-in type representing array values, [see details](https://www.lua.org/pil/28.1.html).",
        ));
        r.push(Self::builtin_class_desc(
            "lightuserdata",
            "A built-in type representing a pointer, [see details](https://www.lua.org/pil/28.5.html)",
        ));
        r.push(Self::builtin_class_desc(
            "integer",
            "A helper type that represents whole numbers, a subset of [number](number.md)",
        ));
        r.push(Self::builtin_class_desc(
            "any",
            "A type for a dynamic argument, it can be anything at run-time.",
        ));
        r.push(Self::builtin_class_desc(
            "unknown",
            "A dummy type for something that cannot be inferred before run-time.",
        ));
        proof {
            assert(crate::types::classes_view(r@) =~= builtin_classesv());
        }
        r
    }
}

} // verus!
