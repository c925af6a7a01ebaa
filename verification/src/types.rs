//! The type-graph model: every shape a referenced type can take, and the
//! named entities (classes, enums, aliases, functions, value slots) that the
//! documentation graph is built from.
//!
//! Each executable type has a ghost model (`KindV`, `VarV`, ...) over
//! `Seq<char>` in place of `String`; contracts throughout the crate are
//! stated over these models.

use vstd::prelude::*;

verus! {

/// The built-in Lua types.
#[derive(Debug, Clone, Copy, PartialEq, Eq, Structural)]
pub enum LuaKind {
    Nil,
    Unknown,
    Any,
    Boolean,
    String,
    Number,
    Integer,
    Function,
    Table,
    Thread,
    UserData,
    Binary,
    LightUserData,
}

/// The shape of a referenced type.
///
/// Named entities (classes, aliases, enums) are referenced by name: the
/// owning tables live in the library, so the graph may be cyclic without
/// containing cyclic structures.
#[derive(Debug)]
pub enum Kind {
    /// A name that has not been linked to an entity (or matches none).
    Unresolved(String),
    Lua(LuaKind),
    /// A literal value of a built-in type, kept as its source text.
    Literal(LuaKind, String),
    Array(Box<Kind>),
    Nullable(Box<Kind>),
    Table(Box<Kind>, Box<Kind>),
    /// An anonymous structural record: named fields with their shapes.
    Object(Vec<(String, Kind)>),
    /// A resolved reference to the alias with this name.
    Alias(String),
    /// A resolved reference to the class with this name.
    Class(String),
    Function(Box<Function>),
    /// An ordered union of shapes.
    Union(Vec<Kind>),
    /// A resolved reference to the enum with this name.
    EnumRef(String),
    /// The receiver placeholder in a method signature.
    SelfArg,
    Variadic(Box<Kind>),
}

/// A named or anonymous value slot: a field, parameter, return or constant.
#[derive(Debug)]
pub struct Var {
    pub file: Option<String>,
    pub line_number: Option<u32>,
    pub name: Option<String>,
    pub kind: Kind,
    pub desc: Option<String>,
}

/// A function definition: a method, free function or lambda.
#[derive(Debug)]
pub struct Function {
    pub file: Option<String>,
    pub line_number: Option<u32>,
    pub name: Option<String>,
    pub params: Vec<Var>,
    pub returns: Vec<Var>,
    pub desc: Option<String>,
}

/// An enumeration attached to a class; the description holds the
/// enumerated values as an opaque pre-formatted block.
#[derive(Debug)]
pub struct Enum {
    pub file: Option<String>,
    pub line_number: Option<u32>,
    pub name: String,
    pub desc: String,
}

/// A type alias, owned by the library and referenced by name.
#[derive(Debug)]
pub struct Alias {
    pub file: Option<String>,
    pub line_number: Option<u32>,
    pub name: String,
    pub kind: Kind,
    pub desc: Option<String>,
}

/// Where a container lands in the rendered output.
#[derive(Debug, Clone, Copy, PartialEq, Eq, Structural)]
pub enum Scope {
    Global,
    Local,
    Builtins,
    Modules,
}

/// A container entity: owns fields, functions, enums and constants, and
/// is rendered as one document (or inlined, depending on its scope).
#[derive(Debug)]
pub struct Class {
    pub file: Option<String>,
    pub line_number: Option<u32>,
    pub scope: Scope,
    pub name: String,
    pub fields: Vec<Var>,
    pub functions: Vec<Function>,
    pub enums: Vec<Enum>,
    pub constants: Vec<Var>,
    pub desc: String,
}

/// A top-level definition record handed to the library builder.
#[derive(Debug)]
pub enum Def {
    Class(Class),
    Enum(Enum),
    Alias(Alias),
    Function(Function),
}

// ------------------------------------------------------------------
// Ghost models.

/// Ghost model of [`Kind`].
pub enum KindV {
    Unresolved(Seq<char>),
    Lua(LuaKind),
    Literal(LuaKind, Seq<char>),
    Array(Box<KindV>),
    Nullable(Box<KindV>),
    Table(Box<KindV>, Box<KindV>),
    Object(Seq<(Seq<char>, KindV)>),
    Alias(Seq<char>),
    Class(Seq<char>),
    Function(Box<FunctionV>),
    Union(Seq<KindV>),
    EnumRef(Seq<char>),
    SelfArg,
    Variadic(Box<KindV>),
}

/// Ghost model of [`Var`].
pub struct VarV {
    pub file: Option<Seq<char>>,
    pub line_number: Option<u32>,
    pub name: Option<Seq<char>>,
    pub kind: KindV,
    pub desc: Option<Seq<char>>,
}

/// Ghost model of [`Function`].
pub struct FunctionV {
    pub file: Option<Seq<char>>,
    pub line_number: Option<u32>,
    pub name: Option<Seq<char>>,
    pub params: Seq<VarV>,
    pub returns: Seq<VarV>,
    pub desc: Option<Seq<char>>,
}

/// Ghost model of [`Enum`].
pub struct EnumV {
    pub file: Option<Seq<char>>,
    pub line_number: Option<u32>,
    pub name: Seq<char>,
    pub desc: Seq<char>,
}

/// Ghost model of [`Alias`].
pub struct AliasV {
    pub file: Option<Seq<char>>,
    pub line_number: Option<u32>,
    pub name: Seq<char>,
    pub kind: KindV,
    pub desc: Option<Seq<char>>,
}

/// Ghost model of [`Class`].
pub struct ClassV {
    pub file: Option<Seq<char>>,
    pub line_number: Option<u32>,
    pub scope: Scope,
    pub name: Seq<char>,
    pub fields: Seq<VarV>,
    pub functions: Seq<FunctionV>,
    pub enums: Seq<EnumV>,
    pub constants: Seq<VarV>,
    pub desc: Seq<char>,
}

/// Ghost model of [`Def`].
pub enum DefV {
    Class(ClassV),
    Enum(EnumV),
    Alias(AliasV),
    Function(FunctionV),
}

/// The model of an optional string.
pub open spec fn ostr_view(o: Option<String>) -> Option<Seq<char>> {
    match o {
        Option::Some(s) => Option::Some(s@),
        Option::None => Option::None,
    }
}

pub open spec fn kind_view(k: Kind) -> KindV
    decreases k,
{
    match k {
        Kind::Unresolved(s) => KindV::Unresolved(s@),
        Kind::Lua(l) => KindV::Lua(l),
        Kind::Literal(l, s) => KindV::Literal(l, s@),
        Kind::Array(b) => KindV::Array(Box::new(kind_view(*b))),
        Kind::Nullable(b) => KindV::Nullable(Box::new(kind_view(*b))),
        Kind::Table(bk, bv) => KindV::Table(Box::new(kind_view(*bk)), Box::new(kind_view(*bv))),
        Kind::Object(fields) => KindV::Object(obj_fields_view(fields@)),
        Kind::Alias(n) => KindV::Alias(n@),
        Kind::Class(n) => KindV::Class(n@),
        Kind::Function(bf) => KindV::Function(Box::new(function_view(*bf))),
        Kind::Union(ks) => KindV::Union(kinds_view(ks@)),
        Kind::EnumRef(n) => KindV::EnumRef(n@),
        Kind::SelfArg => KindV::SelfArg,
        Kind::Variadic(b) => KindV::Variadic(Box::new(kind_view(*b))),
    }
}

pub open spec fn obj_fields_view(fields: Seq<(String, Kind)>) -> Seq<(Seq<char>, KindV)>
    decreases fields,
{
    if fields.len() == 0 {
        Seq::empty()
    } else {
        obj_fields_view(fields.drop_last()).push(
            (fields.last().0@, kind_view(fields.last().1)),
        )
    }
}

pub open spec fn kinds_view(ks: Seq<Kind>) -> Seq<KindV>
    decreases ks,
{
    if ks.len() == 0 {
        Seq::empty()
    } else {
        kinds_view(ks.drop_last()).push(kind_view(ks.last()))
    }
}

pub open spec fn var_view(v: Var) -> VarV
    decreases v,
{
    VarV {
        file: ostr_view(v.file),
        line_number: v.line_number,
        name: ostr_view(v.name),
        kind: kind_view(v.kind),
        desc: ostr_view(v.desc),
    }
}

pub open spec fn vars_view(vs: Seq<Var>) -> Seq<VarV>
    decreases vs,
{
    if vs.len() == 0 {
        Seq::empty()
    } else {
        vars_view(vs.drop_last()).push(var_view(vs.last()))
    }
}

pub open spec fn function_view(f: Function) -> FunctionV
    decreases f,
{
    FunctionV {
        file: ostr_view(f.file),
        line_number: f.line_number,
        name: ostr_view(f.name),
        params: vars_view(f.params@),
        returns: vars_view(f.returns@),
        desc: ostr_view(f.desc),
    }
}

impl View for Kind {
    type V = KindV;

    open spec fn view(&self) -> KindV {
        kind_view(*self)
    }
}

impl View for Var {
    type V = VarV;

    open spec fn view(&self) -> VarV {
        var_view(*self)
    }
}

impl View for Function {
    type V = FunctionV;

    open spec fn view(&self) -> FunctionV {
        function_view(*self)
    }
}

impl View for Enum {
    type V = EnumV;

    open spec fn view(&self) -> EnumV {
        EnumV {
            file: ostr_view(self.file),
            line_number: self.line_number,
            name: self.name@,
            desc: self.desc@,
        }
    }
}

impl View for Alias {
    type V = AliasV;

    open spec fn view(&self) -> AliasV {
        AliasV {
            file: ostr_view(self.file),
            line_number: self.line_number,
            name: self.name@,
            kind: self.kind@,
            desc: ostr_view(self.desc),
        }
    }
}

impl View for Class {
    type V = ClassV;

    open spec fn view(&self) -> ClassV {
        ClassV {
            file: ostr_view(self.file),
            line_number: self.line_number,
            scope: self.scope,
            name: self.name@,
            fields: vars_view(self.fields@),
            functions: functions_view(self.functions@),
            enums: enums_view(self.enums@),
            constants: vars_view(self.constants@),
            desc: self.desc@,
        }
    }
}

pub open spec fn classes_view(cs: Seq<Class>) -> Seq<ClassV> {
    cs.map_values(|c: Class| c@)
}

pub open spec fn functions_view(fs: Seq<Function>) -> Seq<FunctionV> {
    fs.map_values(|f: Function| f@)
}

pub open spec fn enums_view(es: Seq<Enum>) -> Seq<EnumV> {
    es.map_values(|e: Enum| e@)
}

impl View for Def {
    type V = DefV;

    open spec fn view(&self) -> DefV {
        match *self {
            Def::Class(c) => DefV::Class(c@),
            Def::Enum(e) => DefV::Enum(e@),
            Def::Alias(a) => DefV::Alias(a@),
            Def::Function(f) => DefV::Function(f@),
        }
    }
}

// ------------------------------------------------------------------
// Cloning.  The implementations promise model equality, so cloned graphs
// carry every fact proved about the original.

/// A clone of an optional string, spec-equal to its source.
pub fn clone_ostr(o: &Option<String>) -> (r: Option<String>)
    ensures
        r == *o,
{
    match o {
        Option::Some(s) => Option::Some(s.clone()),
        Option::None => Option::None,
    }
}

impl Clone for Kind {
    fn clone(&self) -> (r: Self)
        ensures
            r@ == self@,
        decreases *self,
    {
        match self {
            Kind::Unresolved(s) => Kind::Unresolved(s.clone()),
            Kind::Lua(l) => Kind::Lua(*l),
            Kind::Literal(l, s) => Kind::Literal(*l, s.clone()),
            Kind::Array(b) => Kind::Array(Box::new((&**b).clone())),
            Kind::Nullable(b) => Kind::Nullable(Box::new((&**b).clone())),
            Kind::Table(bk, bv) => Kind::Table(
                Box::new((&**bk).clone()),
                Box::new((&**bv).clone()),
            ),
            Kind::Object(fields) => {
                let mut v: Vec<(String, Kind)> = Vec::new();
                let mut i: usize = 0;
                while i < fields.len()
                    invariant
                        i <= fields@.len(),
                        v@.len() == i,
                        forall|j: int| 0 <= j < i ==> v@[j].0 == fields@[j].0
                            && kind_view(#[trigger] v@[j].1) == kind_view(fields@[j].1),
                        *self == Kind::Object(*fields),
                    decreases fields@.len() - i,
                {
                    assert(*fields == self->Object_0);
                    assert(decreases_to!(*self => self->Object_0));
                    assert(decreases_to!(*fields => fields@[i as int]));
                    assert(decreases_to!(fields@[i as int] => fields@[i as int].1));
                    let name = fields[i].0.clone();
                    let kind = fields[i].1.clone();
                    v.push((name, kind));
                    i = i + 1;
                }
                assert(obj_fields_view(v@) =~= obj_fields_view(fields@)) by {
                    broadcast use lemma_obj_fields_view_len, lemma_obj_fields_view_index;
                }
                Kind::Object(v)
            },
            Kind::Alias(n) => Kind::Alias(n.clone()),
            Kind::Class(n) => Kind::Class(n.clone()),
            Kind::Function(bf) => Kind::Function(Box::new((&**bf).clone())),
            Kind::Union(ks) => {
                let mut v: Vec<Kind> = Vec::new();
                let mut i: usize = 0;
                while i < ks.len()
                    invariant
                        i <= ks@.len(),
                        v@.len() == i,
                        forall|j: int| 0 <= j < i
                            ==> kind_view(#[trigger] v@[j]) == kind_view(ks@[j]),
                        *self == Kind::Union(*ks),
                    decreases ks@.len() - i,
                {
                    assert(*ks == self->Union_0);
                    assert(decreases_to!(*self => self->Union_0));
                    assert(decreases_to!(*ks => ks@[i as int]));
                    let kind = ks[i].clone();
                    v.push(kind);
                    i = i + 1;
                }
                assert(kinds_view(v@) =~= kinds_view(ks@)) by {
                    broadcast use lemma_kinds_view_len, lemma_kinds_view_index;
                }
                Kind::Union(v)
            },
            Kind::EnumRef(n) => Kind::EnumRef(n.clone()),
            Kind::SelfArg => Kind::SelfArg,
            Kind::Variadic(b) => Kind::Variadic(Box::new((&**b).clone())),
        }
    }
}

impl Clone for Var {
    fn clone(&self) -> (r: Self)
        ensures
            r@ == self@,
        decreases *self,
    {
        Var {
            file: clone_ostr(&self.file),
            line_number: self.line_number,
            name: clone_ostr(&self.name),
            kind: self.kind.clone(),
            desc: clone_ostr(&self.desc),
        }
    }
}

/// A clone of a vector of vars, model-equal to its source.
pub fn clone_vars(vs: &Vec<Var>) -> (r: Vec<Var>)
    ensures
        vars_view(r@) == vars_view(vs@),
    decreases *vs,
{
    let mut v: Vec<Var> = Vec::new();
    let mut i: usize = 0;
    while i < vs.len()
        invariant
            i <= vs@.len(),
            v@.len() == i,
            forall|j: int| 0 <= j < i ==> var_view(#[trigger] v@[j]) == var_view(vs@[j]),
        decreases vs@.len() - i,
    {
        assert(decreases_to!(*vs => vs@[i as int]));
        let e = vs[i].clone();
        v.push(e);
        i = i + 1;
    }
    assert(vars_view(v@) =~= vars_view(vs@)) by {
        broadcast use lemma_vars_view_len, lemma_vars_view_index;
    }
    v
}

impl Clone for Function {
    fn clone(&self) -> (r: Self)
        ensures
            r@ == self@,
        decreases *self,
    {
        Function {
            file: clone_ostr(&self.file),
            line_number: self.line_number,
            name: clone_ostr(&self.name),
            params: clone_vars(&self.params),
            returns: clone_vars(&self.returns),
            desc: clone_ostr(&self.desc),
        }
    }
}

impl Clone for Enum {
    fn clone(&self) -> (r: Self)
        ensures
            r == *self,
    {
        Enum {
            file: clone_ostr(&self.file),
            line_number: self.line_number,
            name: self.name.clone(),
            desc: self.desc.clone(),
        }
    }
}

impl Clone for Alias {
    fn clone(&self) -> (r: Self)
        ensures
            r@ == self@,
    {
        Alias {
            file: clone_ostr(&self.file),
            line_number: self.line_number,
            name: self.name.clone(),
            kind: self.kind.clone(),
            desc: clone_ostr(&self.desc),
        }
    }
}

/// A clone of a vector of functions, model-equal to its source.
pub fn clone_functions(fs: &Vec<Function>) -> (r: Vec<Function>)
    ensures
        functions_view(r@) == functions_view(fs@),
{
    let mut v: Vec<Function> = Vec::new();
    let mut i: usize = 0;
    while i < fs.len()
        invariant
            i <= fs@.len(),
            v@.len() == i,
            forall|j: int| 0 <= j < i
                ==> function_view(#[trigger] v@[j]) == function_view(fs@[j]),
        decreases fs@.len() - i,
    {
        let e = fs[i].clone();
        v.push(e);
        i = i + 1;
    }
    assert(functions_view(v@) =~= functions_view(fs@));
    v
}

/// A clone of a vector of enums, spec-equal to its source.
pub fn clone_enums(es: &Vec<Enum>) -> (r: Vec<Enum>)
    ensures
        r@ == es@,
{
    let mut v: Vec<Enum> = Vec::new();
    let mut i: usize = 0;
    while i < es.len()
        invariant
            i <= es@.len(),
            v@.len() == i,
            forall|j: int| 0 <= j < i ==> v@[j] == es@[j],
        decreases es@.len() - i,
    {
        let e = es[i].clone();
        v.push(e);
        i = i + 1;
    }
    assert(v@ =~= es@);
    v
}

impl Clone for Class {
    fn clone(&self) -> (r: Self)
        ensures
            r@ == self@,
    {
        Class {
            file: clone_ostr(&self.file),
            line_number: self.line_number,
            scope: self.scope,
            name: self.name.clone(),
            fields: clone_vars(&self.fields),
            functions: clone_functions(&self.functions),
            enums: clone_enums(&self.enums),
            constants: clone_vars(&self.constants),
            desc: self.desc.clone(),
        }
    }
}

impl Clone for Def {
    fn clone(&self) -> (r: Self)
        ensures
            r@ == self@,
    {
        match self {
            Def::Class(c) => Def::Class(c.clone()),
            Def::Enum(e) => Def::Enum(e.clone()),
            Def::Alias(a) => Def::Alias(a.clone()),
            Def::Function(f) => Def::Function(f.clone()),
        }
    }
}

// ------------------------------------------------------------------
// Facts about the sequence views.

pub broadcast proof fn lemma_vars_view_len(vs: Seq<Var>)
    ensures
        #[trigger] vars_view(vs).len() == vs.len(),
    decreases vs,
{
    if vs.len() > 0 {
        lemma_vars_view_len(vs.drop_last());
    }
}

pub broadcast proof fn lemma_vars_view_index(vs: Seq<Var>, i: int)
    requires
        0 <= i < vs.len(),
    ensures
        #[trigger] vars_view(vs)[i] == var_view(vs[i]),
    decreases vs,
{
    lemma_vars_view_len(vs);
    if i < vs.len() - 1 {
        lemma_vars_view_index(vs.drop_last(), i);
        lemma_vars_view_len(vs.drop_last());
    }
}

pub broadcast proof fn lemma_kinds_view_len(ks: Seq<Kind>)
    ensures
        #[trigger] kinds_view(ks).len() == ks.len(),
    decreases ks,
{
    if ks.len() > 0 {
        lemma_kinds_view_len(ks.drop_last());
    }
}

pub broadcast proof fn lemma_kinds_view_index(ks: Seq<Kind>, i: int)
    requires
        0 <= i < ks.len(),
    ensures
        #[trigger] kinds_view(ks)[i] == kind_view(ks[i]),
    decreases ks,
{
    lemma_kinds_view_len(ks);
    if i < ks.len() - 1 {
        lemma_kinds_view_index(ks.drop_last(), i);
        lemma_kinds_view_len(ks.drop_last());
    }
}

pub broadcast proof fn lemma_obj_fields_view_len(fields: Seq<(String, Kind)>)
    ensures
        #[trigger] obj_fields_view(fields).len() == fields.len(),
    decreases fields,
{
    if fields.len() > 0 {
        lemma_obj_fields_view_len(fields.drop_last());
    }
}

pub broadcast proof fn lemma_obj_fields_view_index(fields: Seq<(String, Kind)>, i: int)
    requires
        0 <= i < fields.len(),
    ensures
        #[trigger] obj_fields_view(fields)[i] == (fields[i].0@, kind_view(fields[i].1)),
    decreases fields,
{
    lemma_obj_fields_view_len(fields);
    if i < fields.len() - 1 {
        lemma_obj_fields_view_index(fields.drop_last(), i);
        lemma_obj_fields_view_len(fields.drop_last());
    }
}



// ------------------------------------------------------------------
// Dotted names.

/// The index of the last occurrence of `c` in `s`, or `-1` when absent.
pub open spec fn rfind_char(s: Seq<char>, c: char) -> int
    decreases s.len(),
{
    if s.len() == 0 {
        -1
    } else if s.last() == c {
        s.len() - 1
    } else {
        rfind_char(s.drop_last(), c)
    }
}

pub proof fn lemma_rfind_char(s: Seq<char>, c: char)
    ensures
        -1 <= rfind_char(s, c) < s.len(),
        rfind_char(s, c) >= 0 ==> s[rfind_char(s, c)] == c,
        forall|j: int| rfind_char(s, c) < j < s.len() ==> s[j] != c,
    decreases s.len(),
{
    if s.len() > 0 && s.last() != c {
        lemma_rfind_char(s.drop_last(), c);
        assert(forall|j: int| 0 <= j < s.len() - 1 ==> s[j] == s.drop_last()[j]);
    }
}

/// The part of a dotted name before its last dot, if any.
pub open spec fn name_base(s: Seq<char>) -> Option<Seq<char>> {
    if rfind_char(s, '.') >= 0 {
        Option::Some(s.subrange(0, rfind_char(s, '.')))
    } else {
        Option::None
    }
}

/// The part of a dotted name after its last dot, if any.
pub open spec fn name_end(s: Seq<char>) -> Option<Seq<char>> {
    if rfind_char(s, '.') >= 0 {
        Option::Some(s.subrange(rfind_char(s, '.') + 1, s.len() as int))
    } else {
        Option::None
    }
}

/// The member leaf of a dotted name: what follows the last dot, or the
/// whole name when it has no dot.
pub open spec fn leaf_of(s: Seq<char>) -> Seq<char> {
    match name_end(s) {
        Option::Some(e) => e,
        Option::None => s,
    }
}

impl Class {
    /// Whether `name` lies inside the configured root namespace: it equals
    /// the namespace or extends it by a dotted segment.  An empty namespace
    /// contains nothing.
    pub open spec fn spec_belongs_to_namespace(name: Seq<char>, namespace: Seq<char>) -> bool {
        namespace.len() > 0 && (name == namespace || (name.len() > namespace.len()
            && name.subrange(0, namespace.len() as int) == namespace
            && name[namespace.len() as int] == '.'))
    }

    pub fn belongs_to_namespace(name: &str, namespace: &str) -> (r: bool)
        ensures
            r == Self::spec_belongs_to_namespace(name@, namespace@),
    {
        let nv = crate::strutil::chars_of(name);
        let sv = crate::strutil::chars_of(namespace);
        if sv.len() == 0 {
            return false;
        }
        if crate::strutil::str_eq(name, namespace) {
            return true;
        }
        if nv.len() <= sv.len() {
            assert(name@.len() <= namespace@.len());
            assert(name@ != namespace@);
            assert(!(name@.len() > namespace@.len()));
            return false;
        }
        if nv[sv.len()] != '.' {
            return false;
        }
        let mut i: usize = 0;
        while i < sv.len()
            invariant
                i <= sv@.len() < nv@.len(),
                nv@ == name@,
                sv@ == namespace@,
                forall|j: int| 0 <= j < i ==> nv@[j] == sv@[j],
            decreases sv@.len() - i,
        {
            if nv[i] != sv[i] {
                assert(name@.subrange(0, namespace@.len() as int)[i as int]
                    != namespace@[i as int]);
                return false;
            }
            i = i + 1;
        }
        assert(name@.subrange(0, namespace@.len() as int) =~= namespace@);
        true
    }

    /// The part of a dotted name before its last dot, if any.
    pub fn get_base(name: &str) -> (r: Option<String>)
        ensures
            r is Some <==> name_base(name@) is Some,
            r is Some ==> r.unwrap()@ == name_base(name@).unwrap(),
    {
        let v = crate::strutil::chars_of(name);
        match find_last(&v, '.') {
            Option::Some(i) => Option::Some(crate::strutil::seg(&v, 0, i)),
            Option::None => Option::None,
        }
    }

    /// The part of a dotted name after its last dot, if any.
    pub fn get_end(name: &str) -> (r: Option<String>)
        ensures
            r is Some <==> name_end(name@) is Some,
            r is Some ==> r.unwrap()@ == name_end(name@).unwrap(),
    {
        let v = crate::strutil::chars_of(name);
        let n = v.len();
        match find_last(&v, '.') {
            Option::Some(i) => Option::Some(crate::strutil::seg(&v, i + 1, n)),
            Option::None => Option::None,
        }
    }
}

// ------------------------------------------------------------------
// Scopes.

/// Whether the name is one of the standard library module names.
pub open spec fn spec_is_std_module(s: Seq<char>) -> bool {
    ||| s == "bit"@
    ||| s == "debug"@
    ||| s == "io"@
    ||| s == "math"@
    ||| s == "os"@
    ||| s == "table"@
    ||| s == "jit"@
    ||| s == "ffi"@
}

/// Whether the name is one of the standard library module names.
pub fn is_std_module(name: &str) -> (r: bool)
    ensures
        r == spec_is_std_module(name@),
{
    crate::strutil::str_eq(name, "bit") || crate::strutil::str_eq(name, "debug")
        || crate::strutil::str_eq(name, "io") || crate::strutil::str_eq(name, "math")
        || crate::strutil::str_eq(name, "os") || crate::strutil::str_eq(name, "table")
        || crate::strutil::str_eq(name, "jit") || crate::strutil::str_eq(name, "ffi")
}

impl Scope {
    /// The scope a container of this name gets.  With no namespace
    /// configured, only the literal name `global` is global; with one, the
    /// names inside the namespace are global and `global` itself counts as
    /// a module.
    pub open spec fn spec_from_name(name: Seq<char>, namespace: Seq<char>) -> Scope {
        if namespace.len() == 0 {
            if name == "global"@ {
                Scope::Global
            } else if spec_is_std_module(name) {
                Scope::Modules
            } else {
                Scope::Local
            }
        } else {
            if Class::spec_belongs_to_namespace(name, namespace) {
                Scope::Global
            } else if spec_is_std_module(name) || name == "global"@ {
                Scope::Modules
            } else {
                Scope::Local
            }
        }
    }

    pub fn from_name(name: &str, namespace: &str) -> (r: Scope)
        ensures
            r == Scope::spec_from_name(name@, namespace@),
    {
        if namespace.unicode_len() == 0 {
            if crate::strutil::str_eq(name, "global") {
                Scope::Global
            } else if is_std_module(name) {
                Scope::Modules
            } else {
                Scope::Local
            }
        } else {
            if Class::belongs_to_namespace(name, namespace) {
                Scope::Global
            } else if is_std_module(name) || crate::strutil::str_eq(name, "global") {
                Scope::Modules
            } else {
                Scope::Local
            }
        }
    }

    /// The output folder prefix for entities of this scope.
    pub open spec fn spec_path_prefix(self, namespace: Seq<char>) -> Seq<char> {
        match self {
            Scope::Global | Scope::Local => {
                if namespace.len() == 0 {
                    "API/"@
                } else {
                    "API/"@ + namespace + "/"@
                }
            },
            Scope::Builtins => "API/builtins/"@,
            Scope::Modules => "API/modules/"@,
        }
    }

    pub fn path_prefix(&self, namespace: &str) -> (r: String)
        ensures
            r@ == self.spec_path_prefix(namespace@),
    {
        match self {
            Scope::Global | Scope::Local => {
                if namespace.unicode_len() == 0 {
                    String::from_str("API/")
                } else {
                    let mut s = String::from_str("API/");
                    s.append(namespace);
                    s.append("/");
                    s
                }
            },
            Scope::Builtins => String::from_str("API/builtins/"),
            Scope::Modules => String::from_str("API/modules/"),
        }
    }
}

// ------------------------------------------------------------------
// Constants.

/// Whether a name is written in constant style: every character uppercase
/// or an underscore.
pub open spec fn spec_constant_name(s: Seq<char>) -> bool {
    forall|i: int| 0 <= i < s.len()
        ==> crate::strutil::uppercase_char(#[trigger] s[i]) || s[i] == '_'
}

/// Whether the var is a constant: it has a name written in constant style.
pub open spec fn spec_is_constant(v: VarV) -> bool {
    v.name is Some && spec_constant_name(v.name.unwrap())
}

impl Var {
    pub fn is_constant(&self) -> (r: bool)
        ensures
            r == spec_is_constant(self@),
    {
        match &self.name {
            Option::None => false,
            Option::Some(name) => {
                let v = crate::strutil::chars_of(name.as_str());
                let mut i: usize = 0;
                while i < v.len()
                    invariant
                        i <= v@.len(),
                        v@ == name@,
                        self@.name == Option::Some(name@),
                        forall|j: int| 0 <= j < i
                            ==> crate::strutil::uppercase_char(#[trigger] v@[j]) || v@[j] == '_',
                    decreases v@.len() - i,
                {
                    let c = v[i];
                    if !crate::strutil::char_is_uppercase(c) && c != '_' {
                        assert(!(crate::strutil::uppercase_char(name@[i as int])
                            || name@[i as int] == '_'));
                        return false;
                    }
                    i = i + 1;
                }
                true
            },
        }
    }

    pub fn is_not_constant(&self) -> (r: bool)
        ensures
            r == !spec_is_constant(self@),
    {
        !self.is_constant()
    }
}

// ------------------------------------------------------------------
// Stripping bases off member names.

/// The model of a function whose dotted name has been cut down to its leaf.
pub open spec fn spec_strip_function_base(f: FunctionV) -> FunctionV {
    match f.name {
        Option::Some(n) => FunctionV { name: Option::Some(leaf_of(n)), ..f },
        Option::None => f,
    }
}

impl Function {
    /// The same function under the member leaf of its dotted name.
    pub fn strip_base(&self) -> (r: Self)
        ensures
            r@ == spec_strip_function_base(self@),
    {
        match &self.name {
            Option::Some(n) => {
                let stripped = match Class::get_end(n.as_str()) {
                    Option::Some(e) => e,
                    Option::None => n.clone(),
                };
                Function {
                    file: clone_ostr(&self.file),
                    line_number: self.line_number,
                    name: Option::Some(stripped),
                    params: clone_vars(&self.params),
                    returns: clone_vars(&self.returns),
                    desc: clone_ostr(&self.desc),
                }
            },
            Option::None => self.clone(),
        }
    }
}

/// The model of an enum whose dotted name has been cut down to its leaf.
pub open spec fn spec_strip_enum_base(e: EnumV) -> EnumV {
    EnumV { name: leaf_of(e.name), ..e }
}

impl Enum {
    /// The same enum under the member leaf of its dotted name.
    pub fn strip_base(&self) -> (r: Self)
        ensures
            r@ == spec_strip_enum_base(self@),
    {
        let stripped = match Class::get_end(self.name.as_str()) {
            Option::Some(e) => e,
            Option::None => self.name.clone(),
        };
        Enum {
            file: clone_ostr(&self.file),
            line_number: self.line_number,
            name: stripped,
            desc: self.desc.clone(),
        }
    }
}

// ------------------------------------------------------------------
// Unresolved leaves.

pub open spec fn kindv_has_unresolved(k: KindV) -> bool
    decreases k,
{
    match k {
        KindV::Unresolved(_) => true,
        KindV::Lua(_) => false,
        KindV::Literal(_, _) => false,
        KindV::Array(b) => kindv_has_unresolved(*b),
        KindV::Nullable(b) => kindv_has_unresolved(*b),
        KindV::Table(bk, bv) => kindv_has_unresolved(*bk) || kindv_has_unresolved(*bv),
        KindV::Object(fields) => objv_has_unresolved(fields),
        KindV::Alias(_) => false,
        KindV::Class(_) => false,
        KindV::Function(bf) => functionv_has_unresolved(*bf),
        KindV::Union(ks) => kindsv_has_unresolved(ks),
        KindV::EnumRef(_) => false,
        KindV::SelfArg => false,
        KindV::Variadic(b) => kindv_has_unresolved(*b),
    }
}

pub open spec fn objv_has_unresolved(fields: Seq<(Seq<char>, KindV)>) -> bool
    decreases fields,
{
    if fields.len() == 0 {
        false
    } else {
        kindv_has_unresolved(fields.last().1) || objv_has_unresolved(fields.drop_last())
    }
}

pub open spec fn kindsv_has_unresolved(ks: Seq<KindV>) -> bool
    decreases ks,
{
    if ks.len() == 0 {
        false
    } else {
        kindv_has_unresolved(ks.last()) || kindsv_has_unresolved(ks.drop_last())
    }
}

pub open spec fn varv_has_unresolved(v: VarV) -> bool
    decreases v,
{
    kindv_has_unresolved(v.kind)
}

pub open spec fn varsv_has_unresolved(vs: Seq<VarV>) -> bool
    decreases vs,
{
    if vs.len() == 0 {
        false
    } else {
        varv_has_unresolved(vs.last()) || varsv_has_unresolved(vs.drop_last())
    }
}

pub open spec fn functionv_has_unresolved(f: FunctionV) -> bool
    decreases f,
{
    varsv_has_unresolved(f.params) || varsv_has_unresolved(f.returns)
}

pub proof fn lemma_kindsv_has_unresolved(ks: Seq<KindV>)
    ensures
        kindsv_has_unresolved(ks) <==> exists|i: int|
            0 <= i < ks.len() && kindv_has_unresolved(#[trigger] ks[i]),
    decreases ks,
{
    if ks.len() > 0 {
        lemma_kindsv_has_unresolved(ks.drop_last());
        assert(forall|i: int| 0 <= i < ks.len() - 1 ==> ks.drop_last()[i] == ks[i]);
        if kindv_has_unresolved(ks.last()) {
            assert(kindv_has_unresolved(ks[ks.len() - 1]));
        }
    }
}

pub proof fn lemma_objv_has_unresolved(fields: Seq<(Seq<char>, KindV)>)
    ensures
        objv_has_unresolved(fields) <==> exists|i: int|
            0 <= i < fields.len() && kindv_has_unresolved((#[trigger] fields[i]).1),
    decreases fields,
{
    if fields.len() > 0 {
        lemma_objv_has_unresolved(fields.drop_last());
        assert(forall|i: int| 0 <= i < fields.len() - 1
            ==> fields.drop_last()[i] == fields[i]);
        if kindv_has_unresolved(fields.last().1) {
            assert(kindv_has_unresolved(fields[fields.len() - 1].1));
        }
    }
}

pub proof fn lemma_varsv_has_unresolved(vs: Seq<VarV>)
    ensures
        varsv_has_unresolved(vs) <==> exists|i: int|
            0 <= i < vs.len() && varv_has_unresolved(#[trigger] vs[i]),
    decreases vs,
{
    if vs.len() > 0 {
        lemma_varsv_has_unresolved(vs.drop_last());
        assert(forall|i: int| 0 <= i < vs.len() - 1 ==> vs.drop_last()[i] == vs[i]);
        if varv_has_unresolved(vs.last()) {
            assert(varv_has_unresolved(vs[vs.len() - 1]));
        }
    }
}

impl Kind {
    /// Whether an `Unresolved` leaf is reachable anywhere inside this shape.
    pub fn has_unresolved(&self) -> (r: bool)
        ensures
            r == kindv_has_unresolved(self@),
        decreases *self,
    {
        match self {
            Kind::Unresolved(_) => true,
            Kind::Lua(_) => false,
            Kind::Literal(_, _) => false,
            Kind::Array(b) => (&**b).has_unresolved(),
            Kind::Nullable(b) => (&**b).has_unresolved(),
            Kind::Table(bk, bv) => {
                let k = (&**bk).has_unresolved();
                let v = (&**bv).has_unresolved();
                k || v
            },
            Kind::Object(fields) => {
                proof {
                    lemma_objv_has_unresolved(obj_fields_view(fields@));
                    broadcast use lemma_obj_fields_view_len, lemma_obj_fields_view_index;
                }
                let mut i: usize = 0;
                while i < fields.len()
                    invariant
                        i <= fields@.len(),
                        *self == Kind::Object(*fields),
                        forall|j: int| 0 <= j < i
                            ==> !kindv_has_unresolved(obj_fields_view(fields@)[j].1),
                        objv_has_unresolved(obj_fields_view(fields@)) <==> exists|j: int|
                            0 <= j < fields@.len()
                            && kindv_has_unresolved((#[trigger] obj_fields_view(fields@)[j]).1),
                        forall|j: int| 0 <= j < fields@.len()
                            ==> (#[trigger] obj_fields_view(fields@)[j])
                                == (fields@[j].0@, kind_view(fields@[j].1)),
                        obj_fields_view(fields@).len() == fields@.len(),
                    decreases fields@.len() - i,
                {
                    assert(*fields == self->Object_0);
                    assert(decreases_to!(*self => self->Object_0));
                    assert(decreases_to!(*fields => fields@[i as int]));
                    assert(decreases_to!(fields@[i as int] => fields@[i as int].1));
                    if fields[i].1.has_unresolved() {
                        assert(kindv_has_unresolved(obj_fields_view(fields@)[i as int].1));
                        return true;
                    }
                    i = i + 1;
                }
                false
            },
            Kind::Alias(_) => false,
            Kind::Class(_) => false,
            Kind::Function(bf) => (&**bf).has_unresolved(),
            Kind::Union(ks) => {
                proof {
                    lemma_kindsv_has_unresolved(kinds_view(ks@));
                    broadcast use lemma_kinds_view_len, lemma_kinds_view_index;
                }
                let mut i: usize = 0;
                while i < ks.len()
                    invariant
                        i <= ks@.len(),
                        *self == Kind::Union(*ks),
                        forall|j: int| 0 <= j < i
                            ==> !kindv_has_unresolved(kinds_view(ks@)[j]),
                        kindsv_has_unresolved(kinds_view(ks@)) <==> exists|j: int|
                            0 <= j < ks@.len()
                            && kindv_has_unresolved(#[trigger] kinds_view(ks@)[j]),
                        forall|j: int| 0 <= j < ks@.len()
                            ==> #[trigger] kinds_view(ks@)[j] == kind_view(ks@[j]),
                        kinds_view(ks@).len() == ks@.len(),
                    decreases ks@.len() - i,
                {
                    assert(*ks == self->Union_0);
                    assert(decreases_to!(*self => self->Union_0));
                    assert(decreases_to!(*ks => ks@[i as int]));
                    if ks[i].has_unresolved() {
                        assert(kindv_has_unresolved(kinds_view(ks@)[i as int]));
                        return true;
                    }
                    i = i + 1;
                }
                false
            },
            Kind::EnumRef(_) => false,
            Kind::SelfArg => false,
            Kind::Variadic(b) => (&**b).has_unresolved(),
        }
    }
}

impl Var {
    /// Whether an `Unresolved` leaf is reachable from this var's type.
    pub fn has_unresolved(&self) -> (r: bool)
        ensures
            r == varv_has_unresolved(self@),
        decreases *self,
    {
        self.kind.has_unresolved()
    }
}

/// Whether any var of the list reaches an `Unresolved` leaf.
fn vars_have_unresolved(vs: &Vec<Var>) -> (r: bool)
    ensures
        r == varsv_has_unresolved(vars_view(vs@)),
    decreases *vs,
{
    proof {
        lemma_varsv_has_unresolved(vars_view(vs@));
        broadcast use lemma_vars_view_len, lemma_vars_view_index;
    }
    let mut i: usize = 0;
    while i < vs.len()
        invariant
            i <= vs@.len(),
            forall|j: int| 0 <= j < i ==> !varv_has_unresolved(vars_view(vs@)[j]),
            varsv_has_unresolved(vars_view(vs@)) <==> exists|j: int|
                0 <= j < vs@.len() && varv_has_unresolved(#[trigger] vars_view(vs@)[j]),
            forall|j: int| 0 <= j < vs@.len()
                ==> #[trigger] vars_view(vs@)[j] == var_view(vs@[j]),
            vars_view(vs@).len() == vs@.len(),
        decreases vs@.len() - i,
    {
        assert(decreases_to!(*vs => vs@[i as int]));
        if vs[i].has_unresolved() {
            assert(varv_has_unresolved(vars_view(vs@)[i as int]));
            return true;
        }
        i = i + 1;
    }
    false
}

impl Function {
    /// Whether an `Unresolved` leaf is reachable from a parameter or return.
    pub fn has_unresolved(&self) -> (r: bool)
        ensures
            r == functionv_has_unresolved(self@),
        decreases *self,
    {
        let p = vars_have_unresolved(&self.params);
        let q = vars_have_unresolved(&self.returns);
        p || q
    }
}

/// Whether any class function reaches an `Unresolved` leaf.
fn functions_have_unresolved(fs: &Vec<Function>) -> (r: bool)
    ensures
        r == (exists|j: int| 0 <= j < fs@.len()
            && functionv_has_unresolved(#[trigger] functions_view(fs@)[j])),
{
    assert(forall|j: int| 0 <= j < fs@.len()
        ==> #[trigger] functions_view(fs@)[j] == function_view(fs@[j]));
    let mut i: usize = 0;
    while i < fs.len()
        invariant
            i <= fs@.len(),
            forall|j: int| 0 <= j < i
                ==> !functionv_has_unresolved(#[trigger] functions_view(fs@)[j]),
            forall|j: int| 0 <= j < fs@.len()
                ==> #[trigger] functions_view(fs@)[j] == function_view(fs@[j]),
        decreases fs@.len() - i,
    {
        if fs[i].has_unresolved() {
            assert(functionv_has_unresolved(functions_view(fs@)[i as int]));
            return true;
        }
        i = i + 1;
    }
    false
}

impl Class {
    /// Whether an `Unresolved` leaf is reachable from a field or function.
    pub fn has_unresolved(&self) -> (r: bool)
        ensures
            r == (varsv_has_unresolved(self@.fields) || exists|j: int|
                0 <= j < self@.functions.len()
                && functionv_has_unresolved(#[trigger] self@.functions[j])),
    {
        let f = vars_have_unresolved(&self.fields);
        if f {
            return true;
        }
        let g = functions_have_unresolved(&self.functions);
        proof {
            assert(self@.functions == functions_view(self.functions@));
            if g {
                let j = choose|j: int| 0 <= j < self.functions@.len()
                    && functionv_has_unresolved(#[trigger] functions_view(self.functions@)[j]);
                assert(functionv_has_unresolved(self@.functions[j]));
            }
        }
        g
    }

    /// Whether the container has no fields, enums or functions.
    pub fn is_empty(&self) -> (r: bool)
        ensures
            r == (self@.fields.len() == 0 && self@.enums.len() == 0
                && self@.functions.len() == 0),
    {
        proof {
            broadcast use lemma_vars_view_len;
        }
        self.fields.is_empty() && self.enums.is_empty() && self.functions.is_empty()
    }
}


// ------------------------------------------------------------------
// File stems.

/// The stem of a path: the part after the last `/`, cut before its last
/// `.` when that dot is not its first character.
pub open spec fn file_stem_of(s: Seq<char>) -> Seq<char> {
    let base = if rfind_char(s, '/') >= 0 {
        s.subrange(rfind_char(s, '/') + 1, s.len() as int)
    } else {
        s
    };
    if rfind_char(base, '.') > 0 {
        base.subrange(0, rfind_char(base, '.'))
    } else {
        base
    }
}

/// The index of the last occurrence of `c`, if any.
fn find_last(v: &Vec<char>, c: char) -> (r: Option<usize>)
    ensures
        match r {
            Option::Some(i) => i < v@.len() && rfind_char(v@, c) == i,
            Option::None => rfind_char(v@, c) == -1,
        },
{
    proof {
        lemma_rfind_char(v@, c);
    }
    let mut i: usize = v.len();
    while i > 0
        invariant
            i <= v@.len(),
            forall|j: int| i <= j < v@.len() ==> v@[j] != c,
            -1 <= rfind_char(v@, c) < v@.len(),
            rfind_char(v@, c) >= 0 ==> v@[rfind_char(v@, c)] == c,
            forall|j: int| rfind_char(v@, c) < j < v@.len() ==> v@[j] != c,
        decreases i,
    {
        i = i - 1;
        if v[i] == c {
            return Option::Some(i);
        }
    }
    Option::None
}

/// The stem of a path string.
pub fn file_stem(s: &str) -> (r: String)
    ensures
        r@ == file_stem_of(s@),
{
    let v = crate::strutil::chars_of(s);
    let n = v.len();
    let base: Vec<char> = match find_last(&v, '/') {
        Option::Some(i) => {
            let seg = crate::strutil::seg(&v, i + 1, n);
            crate::strutil::chars_of(seg.as_str())
        },
        Option::None => v,
    };
    let m = base.len();
    match find_last(&base, '.') {
        Option::Some(i) => {
            if i > 0 {
                crate::strutil::seg(&base, 0, i)
            } else {
                crate::strutil::seg(&base, 0, m)
            }
        },
        Option::None => crate::strutil::seg(&base, 0, m),
    }
}

} // verus!
