//! The definition records handed over by the extraction step: a typed
//! mirror of its report, plus the classification of a record field as a
//! data field or a method.

use vstd::prelude::*;

use crate::types::{
    Alias, AliasV, Class, ClassV, Def, DefV, Enum, EnumV, Function, FunctionV, Kind, KindV,
    LuaKind, Scope, Var, VarV, clone_ostr, ostr_view,
};

verus! {

/// The visibility written on a record field.
#[derive(Debug, Clone, Copy, PartialEq, Eq, Structural)]
pub enum VisibleType {
    Public,
    Private,
    Package,
    Protected,
}

/// The documentation tags a record or field can carry.
#[derive(Debug, Clone, Copy, PartialEq, Eq, Structural)]
pub enum Doc {
    Field,
    Enum,
    Alias,
    Class,
    ExtendsName,
    Type,
    TypeName,
    TypeInteger,
    TypeNumber,
    TypeArray,
    TypeBoolean,
    TypeString,
    TypeTable,
    TypeSign,
    TypeFunction,
}

/// The tag of a record, define, field or extend.
#[derive(Debug, Clone, Copy, PartialEq, Eq, Structural)]
pub enum Type {
    Doc(Doc),
    GetField,
    SetField,
    SetMethod,
    Def,
    Variable,
    LuaLsConfig,
    TableField,
    SetGlobal,
    FunctionReturn,
    Lua(LuaKind),
}

/// How a function argument is declared.
#[derive(Debug, Clone, Copy, PartialEq, Eq, Structural)]
pub enum ArgType {
    SelfArg,
    Local,
    Variadic,
}

/// A declared function argument.
#[derive(Debug, Clone)]
pub struct ArgDef {
    pub lua_type: ArgType,
    pub name: Option<String>,
    pub view_text: String,
}

/// A declared function return.
#[derive(Debug, Clone)]
pub struct ReturnDef {
    pub lua_type: Type,
    pub name: Option<String>,
    pub view_text: String,
}

/// One shape inside an extends descriptor.
#[derive(Debug, Clone)]
pub struct ExtendType {
    pub lua_type: Type,
    pub start: u32,
    pub finish: u32,
    pub view_text: String,
}

/// The shape descriptor attached to a define or field: how the entity
/// is typed, and for functions its arguments and returns.
#[derive(Debug, Clone)]
pub struct Extend {
    pub lua_type: Type,
    pub types: Option<Vec<ExtendType>>,
    pub start: u32,
    pub finish: u32,
    pub view_text: String,
    pub desc: Option<String>,
    pub rawdesc: Option<String>,
    pub args: Vec<ArgDef>,
    pub returns: Vec<ReturnDef>,
}

/// One field of a record.
#[derive(Debug, Clone)]
pub struct Field {
    pub desc: Option<String>,
    pub rawdesc: Option<String>,
    pub name: String,
    pub lua_type: Type,
    pub file: String,
    pub start: u32,
    pub finish: u32,
    pub visible: VisibleType,
    pub extends: Option<Extend>,
}

/// One declaration site of a record.
#[derive(Debug, Clone)]
pub struct Define {
    pub lua_type: Type,
    pub file: String,
    pub start: u32,
    pub finish: u32,
    pub extends: Option<Extend>,
}

/// One definition record of the extraction report.
#[derive(Debug, Clone)]
pub struct Definition {
    pub lua_type: Type,
    pub name: String,
    pub desc: Option<String>,
    pub rawdesc: Option<String>,
    pub defines: Vec<Define>,
    pub fields: Vec<Field>,
}

/// Whether the extends descriptor carries the given tag.
pub open spec fn spec_extend_has_type(e: Option<Extend>, t: Type) -> bool {
    match e {
        Option::Some(x) => x.lua_type == t,
        Option::None => false,
    }
}

/// Whether a field stands for a data field: tagged as one outright, or
/// a plain set-field whose shape is not a function.
pub open spec fn spec_is_field(f: Field) -> bool {
    f.lua_type == Type::Doc(Doc::Field) || (f.lua_type == Type::SetField
        && !spec_extend_has_type(f.extends, Type::Lua(LuaKind::Function)))
}

/// Whether a field stands for a method: declared as one, or a plain
/// set-field whose shape is a function.
pub open spec fn spec_is_function(f: Field) -> bool {
    f.lua_type == Type::SetMethod || (f.lua_type == Type::SetField && spec_extend_has_type(
        f.extends,
        Type::Lua(LuaKind::Function),
    ))
}

impl Field {
    /// Whether the extends descriptor carries the given tag.
    pub fn extend_has_type(e: &Option<Extend>, t: Type) -> (r: bool)
        ensures
            r == spec_extend_has_type(*e, t),
    {
        match e {
            Option::Some(x) => x.lua_type == t,
            Option::None => false,
        }
    }

    /// Whether this field stands for a data field.
    pub fn is_field(&self) -> (r: bool)
        ensures
            r == spec_is_field(*self),
    {
        self.lua_type == Type::Doc(Doc::Field) || (self.lua_type == Type::SetField
            && !Self::extend_has_type(&self.extends, Type::Lua(LuaKind::Function)))
    }

    /// Whether this field stands for a method.
    pub fn is_function(&self) -> (r: bool)
        ensures
            r == spec_is_function(*self),
    {
        self.lua_type == Type::SetMethod || (self.lua_type == Type::SetField
            && Self::extend_has_type(&self.extends, Type::Lua(LuaKind::Function)))
    }
}


// ------------------------------------------------------------------
// Ghost models of the records.

/// Ghost model of [`ArgDef`].
pub struct ArgDefV {
    pub lua_type: ArgType,
    pub name: Option<Seq<char>>,
    pub view_text: Seq<char>,
}

/// Ghost model of [`ReturnDef`].
pub struct ReturnDefV {
    pub lua_type: Type,
    pub name: Option<Seq<char>>,
    pub view_text: Seq<char>,
}

/// Ghost model of [`ExtendType`].
pub struct ExtendTypeV {
    pub lua_type: Type,
    pub start: u32,
    pub finish: u32,
    pub view_text: Seq<char>,
}

/// Ghost model of [`Extend`].
pub struct ExtendV {
    pub lua_type: Type,
    pub types: Option<Seq<ExtendTypeV>>,
    pub start: u32,
    pub finish: u32,
    pub view_text: Seq<char>,
    pub desc: Option<Seq<char>>,
    pub rawdesc: Option<Seq<char>>,
    pub args: Seq<ArgDefV>,
    pub returns: Seq<ReturnDefV>,
}

/// Ghost model of [`Field`].
pub struct FieldV {
    pub desc: Option<Seq<char>>,
    pub rawdesc: Option<Seq<char>>,
    pub name: Seq<char>,
    pub lua_type: Type,
    pub file: Seq<char>,
    pub start: u32,
    pub finish: u32,
    pub visible: VisibleType,
    pub extends: Option<ExtendV>,
}

/// Ghost model of [`Define`].
pub struct DefineV {
    pub lua_type: Type,
    pub file: Seq<char>,
    pub start: u32,
    pub finish: u32,
    pub extends: Option<ExtendV>,
}

/// Ghost model of [`Definition`].
pub struct DefinitionV {
    pub lua_type: Type,
    pub name: Seq<char>,
    pub desc: Option<Seq<char>>,
    pub rawdesc: Option<Seq<char>>,
    pub defines: Seq<DefineV>,
    pub fields: Seq<FieldV>,
}

impl View for ArgDef {
    type V = ArgDefV;

    open spec fn view(&self) -> ArgDefV {
        ArgDefV {
            lua_type: self.lua_type,
            name: ostr_view(self.name),
            view_text: self.view_text@,
        }
    }
}

impl View for ReturnDef {
    type V = ReturnDefV;

    open spec fn view(&self) -> ReturnDefV {
        ReturnDefV {
            lua_type: self.lua_type,
            name: ostr_view(self.name),
            view_text: self.view_text@,
        }
    }
}

impl View for ExtendType {
    type V = ExtendTypeV;

    open spec fn view(&self) -> ExtendTypeV {
        ExtendTypeV {
            lua_type: self.lua_type,
            start: self.start,
            finish: self.finish,
            view_text: self.view_text@,
        }
    }
}

pub open spec fn arg_defs_view(xs: Seq<ArgDef>) -> Seq<ArgDefV> {
    xs.map_values(|x: ArgDef| x@)
}

pub open spec fn return_defs_view(xs: Seq<ReturnDef>) -> Seq<ReturnDefV> {
    xs.map_values(|x: ReturnDef| x@)
}

pub open spec fn extend_types_view(xs: Seq<ExtendType>) -> Seq<ExtendTypeV> {
    xs.map_values(|x: ExtendType| x@)
}

impl View for Extend {
    type V = ExtendV;

    open spec fn view(&self) -> ExtendV {
        ExtendV {
            lua_type: self.lua_type,
            types: match self.types {
                Option::Some(ts) => Option::Some(extend_types_view(ts@)),
                Option::None => Option::None,
            },
            start: self.start,
            finish: self.finish,
            view_text: self.view_text@,
            desc: ostr_view(self.desc),
            rawdesc: ostr_view(self.rawdesc),
            args: arg_defs_view(self.args@),
            returns: return_defs_view(self.returns@),
        }
    }
}

pub open spec fn oextend_view(e: Option<Extend>) -> Option<ExtendV> {
    match e {
        Option::Some(x) => Option::Some(x@),
        Option::None => Option::None,
    }
}

impl View for Field {
    type V = FieldV;

    open spec fn view(&self) -> FieldV {
        FieldV {
            desc: ostr_view(self.desc),
            rawdesc: ostr_view(self.rawdesc),
            name: self.name@,
            lua_type: self.lua_type,
            file: self.file@,
            start: self.start,
            finish: self.finish,
            visible: self.visible,
            extends: oextend_view(self.extends),
        }
    }
}

impl View for Define {
    type V = DefineV;

    open spec fn view(&self) -> DefineV {
        DefineV {
            lua_type: self.lua_type,
            file: self.file@,
            start: self.start,
            finish: self.finish,
            extends: oextend_view(self.extends),
        }
    }
}

pub open spec fn record_fields_view(fs: Seq<Field>) -> Seq<FieldV> {
    fs.map_values(|f: Field| f@)
}

pub open spec fn defines_view(ds: Seq<Define>) -> Seq<DefineV> {
    ds.map_values(|d: Define| d@)
}

impl View for Definition {
    type V = DefinitionV;

    open spec fn view(&self) -> DefinitionV {
        DefinitionV {
            lua_type: self.lua_type,
            name: self.name@,
            desc: ostr_view(self.desc),
            rawdesc: ostr_view(self.rawdesc),
            defines: defines_view(self.defines@),
            fields: record_fields_view(self.fields@),
        }
    }
}

// The classifications restated on the models.

pub open spec fn extendv_has_type(e: Option<ExtendV>, t: Type) -> bool {
    match e {
        Option::Some(x) => x.lua_type == t,
        Option::None => false,
    }
}

pub open spec fn fieldv_is_field(f: FieldV) -> bool {
    f.lua_type == Type::Doc(Doc::Field) || (f.lua_type == Type::SetField && !extendv_has_type(
        f.extends,
        Type::Lua(LuaKind::Function),
    ))
}

pub open spec fn fieldv_is_function(f: FieldV) -> bool {
    f.lua_type == Type::SetMethod || (f.lua_type == Type::SetField && extendv_has_type(
        f.extends,
        Type::Lua(LuaKind::Function),
    ))
}

// ------------------------------------------------------------------
// Turning records into definitions.  The shape texts the extractor
// reports pass through as unresolved names; the resolver links them.

/// The declaring file of a record site: the path with any `file://`
/// scheme prefixes removed, or nothing for an empty path.
pub open spec fn strip_scheme(s: Seq<char>) -> Seq<char>
    decreases s.len(),
{
    if s.len() >= 7 && s.subrange(0, 7) == "file://"@ {
        strip_scheme(s.skip(7))
    } else {
        s
    }
}

pub open spec fn file_ofv(s: Seq<char>) -> Option<Seq<char>> {
    if s.len() == 0 {
        Option::None
    } else {
        Option::Some(strip_scheme(s))
    }
}

/// The value slot a record field stands for.
pub open spec fn member_varv(f: FieldV) -> VarV {
    VarV {
        file: file_ofv(f.file),
        line_number: Option::Some(f.start),
        name: Option::Some(f.name),
        kind: match f.extends {
            Option::Some(e) => KindV::Unresolved(e.view_text),
            Option::None => KindV::Unresolved(Seq::empty()),
        },
        desc: f.desc,
    }
}

/// The parameter or return slot an argument descriptor stands for.
pub open spec fn arg_varv(file: Option<Seq<char>>, line: u32, name: Option<Seq<char>>, text: Seq<char>) -> VarV {
    VarV {
        file: file,
        line_number: Option::Some(line),
        name: name,
        kind: KindV::Unresolved(text),
        desc: Option::None,
    }
}

pub open spec fn params_of_extendv(file: Option<Seq<char>>, line: u32, args: Seq<ArgDefV>) -> Seq<VarV>
    decreases args,
{
    if args.len() == 0 {
        Seq::empty()
    } else {
        params_of_extendv(file, line, args.drop_last()).push(
            arg_varv(file, line, args.last().name, args.last().view_text),
        )
    }
}

pub open spec fn returns_of_extendv(file: Option<Seq<char>>, line: u32, rets: Seq<ReturnDefV>) -> Seq<VarV>
    decreases rets,
{
    if rets.len() == 0 {
        Seq::empty()
    } else {
        returns_of_extendv(file, line, rets.drop_last()).push(
            arg_varv(file, line, rets.last().name, rets.last().view_text),
        )
    }
}

/// The function a shape descriptor stands for.
pub open spec fn function_of_extendv(
    name: Seq<char>,
    file: Seq<char>,
    line: u32,
    desc: Option<Seq<char>>,
    e: ExtendV,
) -> FunctionV {
    FunctionV {
        file: file_ofv(file),
        line_number: Option::Some(line),
        name: Option::Some(name),
        params: params_of_extendv(file_ofv(file), line, e.args),
        returns: returns_of_extendv(file_ofv(file), line, e.returns),
        desc: desc,
    }
}

/// The data fields of a record, as value slots.
pub open spec fn record_class_fieldsv(fs: Seq<FieldV>) -> Seq<VarV>
    decreases fs,
{
    if fs.len() == 0 {
        Seq::empty()
    } else {
        let prev = record_class_fieldsv(fs.drop_last());
        let f = fs.last();
        if fieldv_is_function(f) {
            prev
        } else if fieldv_is_field(f) {
            prev.push(member_varv(f))
        } else {
            prev
        }
    }
}

/// The methods of a record, as functions; a method without a shape
/// descriptor carries no signature and is dropped.
pub open spec fn record_class_functionsv(fs: Seq<FieldV>) -> Seq<FunctionV>
    decreases fs,
{
    if fs.len() == 0 {
        Seq::empty()
    } else {
        let prev = record_class_functionsv(fs.drop_last());
        let f = fs.last();
        if fieldv_is_function(f) {
            match f.extends {
                Option::Some(e) => prev.push(function_of_extendv(f.name, f.file, f.start, f.desc, e)),
                Option::None => prev,
            }
        } else {
            prev
        }
    }
}

pub open spec fn odesc_or_empty(d: Option<Seq<char>>) -> Seq<char> {
    match d {
        Option::Some(s) => s,
        Option::None => Seq::empty(),
    }
}

/// The typed definition a record stands for, when its first definition
/// site gives it one: a class with its fields and methods, an enum, an
/// alias, or a free function.
pub open spec fn def_of_recordv(d: DefinitionV, ns: Seq<char>) -> Option<DefV> {
    if d.defines.len() == 0 {
        Option::None
    } else {
        let site = d.defines[0];
        if site.lua_type == Type::Doc(Doc::Class) {
            Option::Some(
                DefV::Class(
                    ClassV {
                        file: file_ofv(site.file),
                        line_number: Option::Some(site.start),
                        scope: Scope::spec_from_name(d.name, ns),
                        name: d.name,
                        fields: record_class_fieldsv(d.fields),
                        functions: record_class_functionsv(d.fields),
                        enums: Seq::empty(),
                        constants: Seq::empty(),
                        desc: odesc_or_empty(d.desc),
                    },
                ),
            )
        } else if site.lua_type == Type::Doc(Doc::Enum) {
            Option::Some(
                DefV::Enum(
                    EnumV {
                        file: file_ofv(site.file),
                        line_number: Option::Some(site.start),
                        name: d.name,
                        desc: odesc_or_empty(d.desc),
                    },
                ),
            )
        } else if site.lua_type == Type::Doc(Doc::Alias) {
            Option::Some(
                DefV::Alias(
                    AliasV {
                        file: file_ofv(site.file),
                        line_number: Option::Some(site.start),
                        name: d.name,
                        kind: match site.extends {
                            Option::Some(e) => KindV::Unresolved(e.view_text),
                            Option::None => KindV::Unresolved(Seq::empty()),
                        },
                        desc: d.desc,
                    },
                ),
            )
        } else if site.lua_type == Type::Variable || site.lua_type == Type::SetGlobal {
            match site.extends {
                Option::Some(e) => if e.lua_type == Type::Lua(LuaKind::Function) {
                    Option::Some(
                        DefV::Function(
                            function_of_extendv(d.name, site.file, site.start, d.desc, e),
                        ),
                    )
                } else {
                    Option::None
                },
                Option::None => Option::None,
            }
        } else {
            Option::None
        }
    }
}

/// The definitions of a whole record list, in order.
pub open spec fn defs_of_recordsv(ds: Seq<DefinitionV>, ns: Seq<char>) -> Seq<DefV>
    decreases ds,
{
    if ds.len() == 0 {
        Seq::empty()
    } else {
        let prev = defs_of_recordsv(ds.drop_last(), ns);
        match def_of_recordv(ds.last(), ns) {
            Option::Some(def) => prev.push(def),
            Option::None => prev,
        }
    }
}


/// The models of a record list.
pub open spec fn records_view(ds: Seq<Definition>) -> Seq<DefinitionV> {
    ds.map_values(|d: Definition| d@)
}

/// The declaring file of a record site, schemes stripped; nothing for
/// an empty path.
pub fn file_of(s: &str) -> (r: Option<String>)
    ensures
        ostr_view(r) == file_ofv(s@),
{
    proof {
        reveal_strlit("file://");
    }
    if s.unicode_len() == 0 {
        return Option::None;
    }
    let mut cur: String = s.to_owned();
    while crate::export::str_has_prefix(cur.as_str(), "file://")
        invariant
            strip_scheme(s@) == strip_scheme(cur@),
        decreases cur@.len(),
    {
        proof {
            reveal_strlit("file://");
            assert(cur@.len() >= 7);
            assert(cur@.subrange(0, 7) == "file://"@);
        }
        let cv = crate::strutil::chars_of(cur.as_str());
        let n = cv.len();
        cur = crate::strutil::seg(&cv, 7, n);
    }
    proof {
        reveal_strlit("file://");
        if cur@.len() >= 7 {
            assert(cur@.subrange(0, 7) != "file://"@);
        }
        assert(strip_scheme(cur@) == cur@);
    }
    Option::Some(cur)
}

/// The value slot a record field stands for.
pub fn member_var(f: &Field) -> (r: Var)
    ensures
        r@ == member_varv(f@),
{
    Var {
        file: file_of(f.file.as_str()),
        line_number: Option::Some(f.start),
        name: Option::Some(f.name.clone()),
        kind: match &f.extends {
            Option::Some(e) => Kind::Unresolved(e.view_text.clone()),
            Option::None => Kind::Unresolved(String::new()),
        },
        desc: clone_ostr(&f.desc),
    }
}

/// The parameter slots of a shape descriptor.
fn args_to_vars(file: &Option<String>, line: u32, args: &Vec<ArgDef>) -> (r: Vec<Var>)
    ensures
        crate::types::vars_view(r@) == params_of_extendv(
            ostr_view(*file),
            line,
            arg_defs_view(args@),
        ),
{
    let ghost av = arg_defs_view(args@);
    let mut r: Vec<Var> = Vec::new();
    let mut i: usize = 0;
    proof {
        assert(crate::types::vars_view(r@) =~= params_of_extendv(
            ostr_view(*file),
            line,
            av.subrange(0, 0),
        ));
    }
    while i < args.len()
        invariant
            i <= args@.len(),
            av == arg_defs_view(args@),
            crate::types::vars_view(r@) == params_of_extendv(
                ostr_view(*file),
                line,
                av.subrange(0, i as int),
            ),
        decreases args@.len() - i,
    {
        let a = &args[i];
        let v = Var {
            file: clone_ostr(file),
            line_number: Option::Some(line),
            name: clone_ostr(&a.name),
            kind: Kind::Unresolved(a.view_text.clone()),
            desc: Option::None,
        };
        r.push(v);
        proof {
            let pfx1 = av.subrange(0, i + 1 as int);
            assert(pfx1.drop_last() =~= av.subrange(0, i as int));
            assert(pfx1.last() == av[i as int]);
            assert(av[i as int] == args@[i as int]@);
            crate::types::lemma_vars_view_len(r@);
            assert(crate::types::vars_view(r@) =~= params_of_extendv(
                ostr_view(*file),
                line,
                pfx1,
            )) by {
                broadcast use crate::types::lemma_vars_view_len, crate::types::lemma_vars_view_index;
            }
        }
        i = i + 1;
    }
    proof {
        assert(av.subrange(0, args@.len() as int) =~= av);
    }
    r
}

/// The return slots of a shape descriptor.
fn rets_to_vars(file: &Option<String>, line: u32, rets: &Vec<ReturnDef>) -> (r: Vec<Var>)
    ensures
        crate::types::vars_view(r@) == returns_of_extendv(
            ostr_view(*file),
            line,
            return_defs_view(rets@),
        ),
{
    let ghost rv = return_defs_view(rets@);
    let mut r: Vec<Var> = Vec::new();
    let mut i: usize = 0;
    proof {
        assert(crate::types::vars_view(r@) =~= returns_of_extendv(
            ostr_view(*file),
            line,
            rv.subrange(0, 0),
        ));
    }
    while i < rets.len()
        invariant
            i <= rets@.len(),
            rv == return_defs_view(rets@),
            crate::types::vars_view(r@) == returns_of_extendv(
                ostr_view(*file),
                line,
                rv.subrange(0, i as int),
            ),
        decreases rets@.len() - i,
    {
        let a = &rets[i];
        let v = Var {
            file: clone_ostr(file),
            line_number: Option::Some(line),
            name: clone_ostr(&a.name),
            kind: Kind::Unresolved(a.view_text.clone()),
            desc: Option::None,
        };
        r.push(v);
        proof {
            let pfx1 = rv.subrange(0, i + 1 as int);
            assert(pfx1.drop_last() =~= rv.subrange(0, i as int));
            assert(pfx1.last() == rv[i as int]);
            assert(rv[i as int] == rets@[i as int]@);
            assert(crate::types::vars_view(r@) =~= returns_of_extendv(
                ostr_view(*file),
                line,
                pfx1,
            )) by {
                broadcast use crate::types::lemma_vars_view_len, crate::types::lemma_vars_view_index;
            }
        }
        i = i + 1;
    }
    proof {
        assert(rv.subrange(0, rets@.len() as int) =~= rv);
    }
    r
}

/// The function a shape descriptor stands for.
fn function_of_extend(
    name: &String,
    file: &String,
    line: u32,
    desc: &Option<String>,
    e: &Extend,
) -> (r: Function)
    ensures
        r@ == function_of_extendv(name@, file@, line, ostr_view(*desc), e@),
{
    let fo = file_of(file.as_str());
    let params = args_to_vars(&fo, line, &e.args);
    let rets = rets_to_vars(&fo, line, &e.returns);
    Function {
        file: fo,
        line_number: Option::Some(line),
        name: Option::Some(name.clone()),
        params,
        returns: rets,
        desc: clone_ostr(desc),
    }
}

/// The data fields of a record, as value slots.
fn record_class_fields(fs: &Vec<Field>) -> (r: Vec<Var>)
    ensures
        crate::types::vars_view(r@) == record_class_fieldsv(record_fields_view(fs@)),
{
    let ghost fv = record_fields_view(fs@);
    let mut r: Vec<Var> = Vec::new();
    let mut i: usize = 0;
    proof {
        assert(crate::types::vars_view(r@) =~= record_class_fieldsv(fv.subrange(0, 0)));
    }
    while i < fs.len()
        invariant
            i <= fs@.len(),
            fv == record_fields_view(fs@),
            crate::types::vars_view(r@) == record_class_fieldsv(fv.subrange(0, i as int)),
        decreases fs@.len() - i,
    {
        let f = &fs[i];
        proof {
            assert(fv[i as int] == fs@[i as int]@);
            assert(spec_is_function(*f) == fieldv_is_function(f@));
            assert(spec_is_field(*f) == fieldv_is_field(f@));
        }
        if f.is_function() {
        } else if f.is_field() {
            let v = member_var(f);
            r.push(v);
        }
        proof {
            let pfx1 = fv.subrange(0, i + 1 as int);
            assert(pfx1.drop_last() =~= fv.subrange(0, i as int));
            assert(pfx1.last() == fv[i as int]);
            assert(crate::types::vars_view(r@) =~= record_class_fieldsv(pfx1)) by {
                broadcast use crate::types::lemma_vars_view_len, crate::types::lemma_vars_view_index;
            }
        }
        i = i + 1;
    }
    proof {
        assert(fv.subrange(0, fs@.len() as int) =~= fv);
    }
    r
}

/// The methods of a record, as functions.
fn record_class_functions(fs: &Vec<Field>) -> (r: Vec<Function>)
    ensures
        crate::types::functions_view(r@) == record_class_functionsv(record_fields_view(fs@)),
{
    let ghost fv = record_fields_view(fs@);
    let mut r: Vec<Function> = Vec::new();
    let mut i: usize = 0;
    proof {
        assert(crate::types::functions_view(r@) =~= record_class_functionsv(fv.subrange(0, 0)));
    }
    while i < fs.len()
        invariant
            i <= fs@.len(),
            fv == record_fields_view(fs@),
            crate::types::functions_view(r@) == record_class_functionsv(fv.subrange(0, i as int)),
        decreases fs@.len() - i,
    {
        let f = &fs[i];
        proof {
            assert(fv[i as int] == fs@[i as int]@);
            assert(spec_is_function(*f) == fieldv_is_function(f@));
        }
        if f.is_function() {
            match &f.extends {
                Option::Some(e) => {
                    let g = function_of_extend(&f.name, &f.file, f.start, &f.desc, e);
                    r.push(g);
                },
                Option::None => (),
            }
        }
        proof {
            let pfx1 = fv.subrange(0, i + 1 as int);
            assert(pfx1.drop_last() =~= fv.subrange(0, i as int));
            assert(pfx1.last() == fv[i as int]);
            assert(crate::types::functions_view(r@) =~= record_class_functionsv(pfx1));
        }
        i = i + 1;
    }
    proof {
        assert(fv.subrange(0, fs@.len() as int) =~= fv);
    }
    r
}

/// The typed definition a record stands for, if any: a class with its
/// fields and methods, an enum, an alias, or a free function.
pub fn def_of_record(d: &Definition, namespace: &str) -> (r: Option<Def>)
    ensures
        match r {
            Option::Some(def) => def_of_recordv(d@, namespace@) == Option::Some(def@),
            Option::None => def_of_recordv(d@, namespace@) is None,
        },
{
    if d.defines.len() == 0 {
        return Option::None;
    }
    let site = &d.defines[0];
    proof {
        assert(d@.defines[0] == site@);
    }
    if site.lua_type == Type::Doc(Doc::Class) {
        let fields = record_class_fields(&d.fields);
        let functions = record_class_functions(&d.fields);
        let c = Class {
            file: file_of(site.file.as_str()),
            line_number: Option::Some(site.start),
            scope: Scope::from_name(d.name.as_str(), namespace),
            name: d.name.clone(),
            fields,
            functions,
            enums: Vec::new(),
            constants: Vec::new(),
            desc: match &d.desc {
                Option::Some(x) => x.clone(),
                Option::None => String::new(),
            },
        };
        proof {
            assert(crate::types::enums_view(c.enums@) =~= Seq::<EnumV>::empty());
            assert(crate::types::vars_view(c.constants@) =~= Seq::<VarV>::empty());
        }
        Option::Some(Def::Class(c))
    } else if site.lua_type == Type::Doc(Doc::Enum) {
        Option::Some(
            Def::Enum(
                Enum {
                    file: file_of(site.file.as_str()),
                    line_number: Option::Some(site.start),
                    name: d.name.clone(),
                    desc: match &d.desc {
                        Option::Some(x) => x.clone(),
                        Option::None => String::new(),
                    },
                },
            ),
        )
    } else if site.lua_type == Type::Doc(Doc::Alias) {
        Option::Some(
            Def::Alias(
                Alias {
                    file: file_of(site.file.as_str()),
                    line_number: Option::Some(site.start),
                    name: d.name.clone(),
                    kind: match &site.extends {
                        Option::Some(e) => Kind::Unresolved(e.view_text.clone()),
                        Option::None => Kind::Unresolved(String::new()),
                    },
                    desc: clone_ostr(&d.desc),
                },
            ),
        )
    } else if site.lua_type == Type::Variable || site.lua_type == Type::SetGlobal {
        match &site.extends {
            Option::Some(e) => {
                if e.lua_type == Type::Lua(LuaKind::Function) {
                    let g = function_of_extend(&d.name, &site.file, site.start, &d.desc, e);
                    Option::Some(Def::Function(g))
                } else {
                    Option::None
                }
            },
            Option::None => Option::None,
        }
    } else {
        Option::None
    }
}

/// The typed definitions of a whole record list, in order.
pub fn defs_of_records(ds: &Vec<Definition>, namespace: &str) -> (r: Vec<Def>)
    ensures
        crate::assemble::defs_view(r@) == defs_of_recordsv(records_view(ds@), namespace@),
{
    let ghost dv = records_view(ds@);
    let mut r: Vec<Def> = Vec::new();
    let mut i: usize = 0;
    proof {
        assert(crate::assemble::defs_view(r@) =~= defs_of_recordsv(
            dv.subrange(0, 0),
            namespace@,
        ));
    }
    while i < ds.len()
        invariant
            i <= ds@.len(),
            dv == records_view(ds@),
            crate::assemble::defs_view(r@) == defs_of_recordsv(
                dv.subrange(0, i as int),
                namespace@,
            ),
        decreases ds@.len() - i,
    {
        proof {
            assert(dv[i as int] == ds@[i as int]@);
        }
        match def_of_record(&ds[i], namespace) {
            Option::Some(def) => {
                r.push(def);
            },
            Option::None => (),
        }
        proof {
            let pfx1 = dv.subrange(0, i + 1 as int);
            assert(pfx1.drop_last() =~= dv.subrange(0, i as int));
            assert(pfx1.last() == dv[i as int]);
            assert(crate::assemble::defs_view(r@) =~= defs_of_recordsv(pfx1, namespace@));
        }
        i = i + 1;
    }
    proof {
        assert(dv.subrange(0, ds@.len() as int) =~= dv);
    }
    r
}

} // verus!
