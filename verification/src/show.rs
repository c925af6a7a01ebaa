//! Plain-text renderings of the graph types: the signature text that
//! identifies a function for deduplication, and the listing forms used by
//! the diagnostic reports.

use vstd::prelude::*;

use crate::strutil::{push_char, strs_view};
use crate::types::{
    Alias, Class, Enum, Function, FunctionV, Kind, KindV, LuaKind, Var, VarV, kind_view,
    kinds_view, lemma_kinds_view_index, lemma_kinds_view_len, lemma_obj_fields_view_index,
    lemma_obj_fields_view_len, lemma_vars_view_index, lemma_vars_view_len, obj_fields_view,
    ostr_view, vars_view,
};

verus! {

/// The lowercase name of a built-in type.
pub open spec fn lua_kind_name(l: LuaKind) -> Seq<char> {
    match l {
        LuaKind::Nil => "nil"@,
        LuaKind::Unknown => "unknown"@,
        LuaKind::Any => "any"@,
        LuaKind::Boolean => "boolean"@,
        LuaKind::String => "string"@,
        LuaKind::Number => "number"@,
        LuaKind::Integer => "integer"@,
        LuaKind::Function => "function"@,
        LuaKind::Table => "table"@,
        LuaKind::Thread => "thread"@,
        LuaKind::UserData => "userdata"@,
        LuaKind::Binary => "binary"@,
        LuaKind::LightUserData => "lightuserdata"@,
    }
}

impl LuaKind {
    /// The lowercase name of the built-in type.
    pub fn show(&self) -> (r: String)
        ensures
            r@ == lua_kind_name(*self),
    {
        match self {
            LuaKind::Nil => String::from_str("nil"),
            LuaKind::Unknown => String::from_str("unknown"),
            LuaKind::Any => String::from_str("any"),
            LuaKind::Boolean => String::from_str("boolean"),
            LuaKind::String => String::from_str("string"),
            LuaKind::Number => String::from_str("number"),
            LuaKind::Integer => String::from_str("integer"),
            LuaKind::Function => String::from_str("function"),
            LuaKind::Table => String::from_str("table"),
            LuaKind::Thread => String::from_str("thread"),
            LuaKind::UserData => String::from_str("userdata"),
            LuaKind::Binary => String::from_str("binary"),
            LuaKind::LightUserData => String::from_str("lightuserdata"),
        }
    }
}

/// The pieces joined with the separator between consecutive pieces.
pub open spec fn join_sv(xs: Seq<Seq<char>>, sep: Seq<char>) -> Seq<char>
    decreases xs.len(),
{
    if xs.len() == 0 {
        Seq::empty()
    } else if xs.len() == 1 {
        xs[0]
    } else {
        join_sv(xs.drop_last(), sep) + sep + xs.last()
    }
}

/// Joins the strings with the separator.
pub fn join_strings(v: &Vec<String>, sep: &str) -> (r: String)
    ensures
        r@ == join_sv(strs_view(v@), sep@),
{
    let mut r = String::new();
    let mut i: usize = 0;
    while i < v.len()
        invariant
            i <= v@.len(),
            r@ == join_sv(strs_view(v@).subrange(0, i as int), sep@),
        decreases v@.len() - i,
    {
        if i > 0 {
            r.append(sep);
        }
        r.append(v[i].as_str());
        proof {
            let pfx = strs_view(v@).subrange(0, i as int);
            let pfx1 = strs_view(v@).subrange(0, i + 1 as int);
            assert(pfx1.drop_last() =~= pfx);
            assert(pfx1.last() == strs_view(v@)[i as int]);
            assert(strs_view(v@)[i as int] == v@[i as int]@);
            if i == 0 {
                assert(r@ =~= join_sv(pfx1, sep@));
            } else {
                assert(r@ =~= join_sv(pfx1, sep@));
            }
        }
        i = i + 1;
    }
    proof {
        assert(strs_view(v@).subrange(0, v@.len() as int) =~= strs_view(v@));
    }
    r
}

// ------------------------------------------------------------------
// Listing text, on the models.

/// The listing text of a shape.
pub open spec fn kind_sig(k: KindV) -> Seq<char>
    decreases k,
{
    match k {
        KindV::Unresolved(s) => "Unresolved("@ + s + ")"@,
        KindV::Lua(l) => lua_kind_name(l),
        KindV::Literal(l, s) => "Literal("@ + lua_kind_name(l) + ", "@ + s + ")"@,
        KindV::Array(b) => "Array("@ + kind_sig(*b) + ")"@,
        KindV::Nullable(b) => "Nullable("@ + kind_sig(*b) + ")"@,
        KindV::Table(bk, bv) => "Table("@ + kind_sig(*bk) + ", "@ + kind_sig(*bv) + ")"@,
        KindV::Object(fields) => "Object("@ + join_sv(obj_sigs(fields), ", "@) + ")"@,
        KindV::Alias(n) => "Alias("@ + n + ")"@,
        KindV::Class(n) => "Class("@ + n + ")"@,
        KindV::Function(bf) => fn_sig(*bf),
        KindV::Union(ks) => "Union("@ + join_sv(kind_sigs(ks), ", "@) + ")"@,
        KindV::EnumRef(n) => "EnumRef("@ + n + ")"@,
        KindV::SelfArg => "SelfArg"@,
        KindV::Variadic(b) => "Variadic("@ + kind_sig(*b) + ")"@,
    }
}

pub open spec fn obj_sigs(fields: Seq<(Seq<char>, KindV)>) -> Seq<Seq<char>>
    decreases fields,
{
    if fields.len() == 0 {
        Seq::empty()
    } else {
        obj_sigs(fields.drop_last()).push(
            fields.last().0 + " : "@ + kind_sig(fields.last().1),
        )
    }
}

pub open spec fn kind_sigs(ks: Seq<KindV>) -> Seq<Seq<char>>
    decreases ks,
{
    if ks.len() == 0 {
        Seq::empty()
    } else {
        kind_sigs(ks.drop_last()).push(kind_sig(ks.last()))
    }
}

/// The listing text of a value slot: its name and its type.
pub open spec fn var_sig(v: VarV) -> Seq<char>
    decreases v,
{
    match v.name {
        Option::Some(n) => n + " : "@ + kind_sig(v.kind),
        Option::None => kind_sig(v.kind),
    }
}

pub open spec fn var_sigs(vs: Seq<VarV>) -> Seq<Seq<char>>
    decreases vs,
{
    if vs.len() == 0 {
        Seq::empty()
    } else {
        var_sigs(vs.drop_last()).push(var_sig(vs.last()))
    }
}

/// The signature text that identifies a function as a member: its name,
/// parameters and returns.  Two functions are the same member exactly
/// when this text agrees.
pub open spec fn fn_sig(f: FunctionV) -> Seq<char>
    decreases f,
{
    "Function "@ + (match f.name {
        Option::Some(n) => n,
        Option::None => Seq::empty(),
    }) + "("@ + join_sv(var_sigs(f.params), ", "@) + ")"@ + (if f.returns.len() == 0 {
        Seq::<char>::empty()
    } else {
        " -> "@ + join_sv(var_sigs(f.returns), ", "@)
    })
}

// ------------------------------------------------------------------
// Executable renderings.

impl Kind {
    /// The listing text of this shape.
    pub fn show(&self) -> (r: String)
        ensures
            r@ == kind_sig(self@),
        decreases *self,
    {
        match self {
            Kind::Unresolved(s) => {
                let mut r = String::from_str("Unresolved(");
                r.append(s.as_str());
                r.append(")");
                assert(r@ =~= kind_sig(self@));
                r
            },
            Kind::Lua(l) => l.show(),
            Kind::Literal(l, s) => {
                let mut r = String::from_str("Literal(");
                let ln = l.show();
                r.append(ln.as_str());
                r.append(", ");
                r.append(s.as_str());
                r.append(")");
                assert(r@ =~= kind_sig(self@));
                r
            },
            Kind::Array(b) => {
                let mut r = String::from_str("Array(");
                let inner = (&**b).show();
                r.append(inner.as_str());
                r.append(")");
                assert(r@ =~= kind_sig(self@));
                r
            },
            Kind::Nullable(b) => {
                let mut r = String::from_str("Nullable(");
                let inner = (&**b).show();
                r.append(inner.as_str());
                r.append(")");
                assert(r@ =~= kind_sig(self@));
                r
            },
            Kind::Table(bk, bv) => {
                let mut r = String::from_str("Table(");
                let ik = (&**bk).show();
                let iv = (&**bv).show();
                r.append(ik.as_str());
                r.append(", ");
                r.append(iv.as_str());
                r.append(")");
                assert(r@ =~= kind_sig(self@));
                r
            },
            Kind::Object(fields) => {
                proof {
                    broadcast use lemma_obj_fields_view_len, lemma_obj_fields_view_index;
                }
                let mut parts: Vec<String> = Vec::new();
                let mut i: usize = 0;
                while i < fields.len()
                    invariant
                        i <= fields@.len(),
                        *self == Kind::Object(*fields),
                        strs_view(parts@) == obj_sigs(
                            obj_fields_view(fields@).subrange(0, i as int),
                        ),
                    decreases fields@.len() - i,
                {
                    assert(*fields == self->Object_0);
                    assert(decreases_to!(*self => self->Object_0));
                    assert(decreases_to!(*fields => fields@[i as int]));
                    assert(decreases_to!(fields@[i as int] => fields@[i as int].1));
                    proof {
                        broadcast use lemma_obj_fields_view_len, lemma_obj_fields_view_index;
                    }
                    let mut part = fields[i].0.clone();
                    part.append(" : ");
                    let inner = fields[i].1.show();
                    part.append(inner.as_str());
                    parts.push(part);
                    proof {
                        broadcast use lemma_obj_fields_view_len, lemma_obj_fields_view_index;
                        let pfx = obj_fields_view(fields@).subrange(0, i as int);
                        let pfx1 = obj_fields_view(fields@).subrange(0, i + 1 as int);
                        assert(pfx1.drop_last() =~= pfx);
                        assert(pfx1.last() == obj_fields_view(fields@)[i as int]);
                        assert(strs_view(parts@) =~= obj_sigs(pfx1));
                    }
                    i = i + 1;
                }
                proof {
                    broadcast use lemma_obj_fields_view_len;
                    assert(obj_fields_view(fields@).subrange(0, fields@.len() as int)
                        =~= obj_fields_view(fields@));
                }
                let mut r = String::from_str("Object(");
                let joined = join_strings(&parts, ", ");
                r.append(joined.as_str());
                r.append(")");
                assert(r@ =~= kind_sig(self@));
                r
            },
            Kind::Alias(n) => {
                let mut r = String::from_str("Alias(");
                r.append(n.as_str());
                r.append(")");
                assert(r@ =~= kind_sig(self@));
                r
            },
            Kind::Class(n) => {
                let mut r = String::from_str("Class(");
                r.append(n.as_str());
                r.append(")");
                assert(r@ =~= kind_sig(self@));
                r
            },
            Kind::Function(bf) => (&**bf).show(),
            Kind::Union(ks) => {
                proof {
                    broadcast use lemma_kinds_view_len, lemma_kinds_view_index;
                }
                let mut parts: Vec<String> = Vec::new();
                let mut i: usize = 0;
                while i < ks.len()
                    invariant
                        i <= ks@.len(),
                        *self == Kind::Union(*ks),
                        strs_view(parts@) == kind_sigs(kinds_view(ks@).subrange(0, i as int)),
                    decreases ks@.len() - i,
                {
                    assert(*ks == self->Union_0);
                    assert(decreases_to!(*self => self->Union_0));
                    assert(decreases_to!(*ks => ks@[i as int]));
                    proof {
                        broadcast use lemma_kinds_view_len, lemma_kinds_view_index;
                    }
                    let part = ks[i].show();
                    parts.push(part);
                    proof {
                        broadcast use lemma_kinds_view_len, lemma_kinds_view_index;
                        let pfx = kinds_view(ks@).subrange(0, i as int);
                        let pfx1 = kinds_view(ks@).subrange(0, i + 1 as int);
                        assert(pfx1.drop_last() =~= pfx);
                        assert(pfx1.last() == kinds_view(ks@)[i as int]);
                        assert(strs_view(parts@) =~= kind_sigs(pfx1));
                    }
                    i = i + 1;
                }
                proof {
                    broadcast use lemma_kinds_view_len;
                    assert(kinds_view(ks@).subrange(0, ks@.len() as int) =~= kinds_view(ks@));
                }
                let mut r = String::from_str("Union(");
                let joined = join_strings(&parts, ", ");
                r.append(joined.as_str());
                r.append(")");
                assert(r@ =~= kind_sig(self@));
                r
            },
            Kind::EnumRef(n) => {
                let mut r = String::from_str("EnumRef(");
                r.append(n.as_str());
                r.append(")");
                assert(r@ =~= kind_sig(self@));
                r
            },
            Kind::SelfArg => String::from_str("SelfArg"),
            Kind::Variadic(b) => {
                let mut r = String::from_str("Variadic(");
                let inner = (&**b).show();
                r.append(inner.as_str());
                r.append(")");
                assert(r@ =~= kind_sig(self@));
                r
            },
        }
    }
}

/// The listing texts of the vars, in order.
fn var_sig_parts(vs: &Vec<Var>) -> (r: Vec<String>)
    ensures
        strs_view(r@) == var_sigs(vars_view(vs@)),
    decreases *vs,
{
    proof {
        broadcast use lemma_vars_view_len, lemma_vars_view_index;
    }
    let mut parts: Vec<String> = Vec::new();
    let mut i: usize = 0;
    while i < vs.len()
        invariant
            i <= vs@.len(),
            strs_view(parts@) == var_sigs(vars_view(vs@).subrange(0, i as int)),
        decreases vs@.len() - i,
    {
        assert(decreases_to!(*vs => vs@[i as int]));
        proof {
            broadcast use lemma_vars_view_len, lemma_vars_view_index;
        }
        let part = vs[i].sig();
        parts.push(part);
        proof {
            broadcast use lemma_vars_view_len, lemma_vars_view_index;
            let pfx = vars_view(vs@).subrange(0, i as int);
            let pfx1 = vars_view(vs@).subrange(0, i + 1 as int);
            assert(pfx1.drop_last() =~= pfx);
            assert(pfx1.last() == vars_view(vs@)[i as int]);
            assert(strs_view(parts@) =~= var_sigs(pfx1));
        }
        i = i + 1;
    }
    proof {
        broadcast use lemma_vars_view_len;
        assert(vars_view(vs@).subrange(0, vs@.len() as int) =~= vars_view(vs@));
    }
    parts
}

impl Var {
    /// The listing text of this slot: its name and its type.
    pub fn sig(&self) -> (r: String)
        ensures
            r@ == var_sig(self@),
        decreases *self,
    {
        match &self.name {
            Option::Some(n) => {
                let mut r = n.clone();
                r.append(" : ");
                let inner = self.kind.show();
                r.append(inner.as_str());
                assert(r@ =~= var_sig(self@));
                r
            },
            Option::None => self.kind.show(),
        }
    }

    /// The diagnostic line for this slot.
    pub fn show(&self) -> (r: String)
        ensures
            r@ == "Var "@ + (match self@.name {
                Option::Some(n) => n,
                Option::None => Seq::<char>::empty(),
            }) + " : "@ + kind_sig(self@.kind),
    {
        let mut r = String::from_str("Var ");
        match &self.name {
            Option::Some(n) => r.append(n.as_str()),
            Option::None => (),
        }
        r.append(" : ");
        let inner = self.kind.show();
        r.append(inner.as_str());
        r
    }
}

impl Function {
    /// The signature text that identifies this function as a member.
    pub fn show(&self) -> (r: String)
        ensures
            r@ == fn_sig(self@),
        decreases *self,
    {
        let mut r = String::from_str("Function ");
        match &self.name {
            Option::Some(n) => r.append(n.as_str()),
            Option::None => (),
        }
        r.append("(");
        let params = var_sig_parts(&self.params);
        let joined = join_strings(&params, ", ");
        r.append(joined.as_str());
        r.append(")");
        if self.returns.len() > 0 {
            r.append(" -> ");
            let rets = var_sig_parts(&self.returns);
            let jr = join_strings(&rets, ", ");
            r.append(jr.as_str());
        }
        proof {
            broadcast use lemma_vars_view_len;
            assert(r@ =~= fn_sig(self@));
        }
        r
    }
}

impl Enum {
    /// The diagnostic line for this enum.
    pub fn show(&self) -> (r: String)
        ensures
            r@ == "Enum "@ + self@.name,
    {
        let mut r = String::from_str("Enum ");
        r.append(self.name.as_str());
        r
    }
}

impl Alias {
    /// The diagnostic line for this alias.
    pub fn show(&self) -> (r: String)
        ensures
            r@ == "Alias "@ + self@.name + " "@ + kind_sig(self@.kind),
    {
        let mut r = String::from_str("Alias ");
        r.append(self.name.as_str());
        r.append(" ");
        let inner = self.kind.show();
        r.append(inner.as_str());
        r
    }
}

/// The text, given a leading newline when it is not empty.
pub open spec fn with_new_line_spec(s: Seq<char>) -> Seq<char> {
    if s.len() == 0 {
        s
    } else {
        seq!['\n'] + s
    }
}

/// The diagnostic lines of the enums, one per enum.
pub open spec fn enum_show_lines(es: Seq<crate::types::EnumV>) -> Seq<Seq<char>>
    decreases es,
{
    if es.len() == 0 {
        Seq::empty()
    } else {
        enum_show_lines(es.drop_last()).push("    Enum "@ + es.last().name)
    }
}

/// The diagnostic lines of the fields, one per field.
pub open spec fn var_show_lines(vs: Seq<VarV>) -> Seq<Seq<char>>
    decreases vs,
{
    if vs.len() == 0 {
        Seq::empty()
    } else {
        var_show_lines(vs.drop_last()).push(
            "    "@ + ("Var "@ + (match vs.last().name {
                Option::Some(n) => n,
                Option::None => Seq::empty(),
            }) + " : "@ + kind_sig(vs.last().kind)),
        )
    }
}

/// The diagnostic lines of the functions, one per function.
pub open spec fn fn_show_lines(fs: Seq<FunctionV>) -> Seq<Seq<char>>
    decreases fs,
{
    if fs.len() == 0 {
        Seq::empty()
    } else {
        fn_show_lines(fs.drop_last()).push("    "@ + fn_sig(fs.last()))
    }
}

/// The diagnostic listing of a container: its name and each enum, field
/// and function, one per indented line.
pub open spec fn class_show(c: crate::types::ClassV) -> Seq<char> {
    "  Class "@ + c.name + with_new_line_spec(join_sv(enum_show_lines(c.enums), "\n"@))
        + with_new_line_spec(join_sv(var_show_lines(c.fields), "\n"@)) + with_new_line_spec(
        join_sv(fn_show_lines(c.functions), "\n"@),
    )
}

impl Class {
    /// The text, given a leading newline when it is not empty.
    pub fn with_new_line(s: &str) -> (r: String)
        ensures
            r@ == with_new_line_spec(s@),
    {
        if s.unicode_len() == 0 {
            String::from_str(s)
        } else {
            let mut r = String::new();
            push_char(&mut r, '\n');
            r.append(s);
            assert(r@ =~= with_new_line_spec(s@));
            r
        }
    }

    /// The diagnostic listing for this container.
    pub fn show(&self) -> (r: String)
        ensures
            r@ == class_show(self@),
    {
        let ghost esv = crate::types::enums_view(self.enums@);
        let ghost vsv = vars_view(self.fields@);
        let ghost fsv = crate::types::functions_view(self.functions@);
        let mut r = String::from_str("  Class ");
        r.append(self.name.as_str());

        let mut enum_lines: Vec<String> = Vec::new();
        let mut i: usize = 0;
        while i < self.enums.len()
            invariant
                i <= self.enums@.len(),
                esv == crate::types::enums_view(self.enums@),
                strs_view(enum_lines@) == enum_show_lines(esv.subrange(0, i as int)),
            decreases self.enums@.len() - i,
        {
            let mut line = String::from_str("    Enum ");
            line.append(self.enums[i].name.as_str());
            enum_lines.push(line);
            proof {
                let pfx1 = esv.subrange(0, i + 1 as int);
                assert(pfx1.drop_last() =~= esv.subrange(0, i as int));
                assert(pfx1.last() == esv[i as int]);
                assert(esv[i as int] == self.enums@[i as int]@);
                assert(strs_view(enum_lines@) =~= enum_show_lines(pfx1));
            }
            i = i + 1;
        }
        proof {
            assert(esv.subrange(0, self.enums@.len() as int) =~= esv);
        }
        let joined_enums = join_strings(&enum_lines, "\n");
        let e = Self::with_new_line(joined_enums.as_str());
        r.append(e.as_str());

        let mut field_lines: Vec<String> = Vec::new();
        let mut j: usize = 0;
        proof {
            broadcast use lemma_vars_view_len, lemma_vars_view_index;
        }
        while j < self.fields.len()
            invariant
                j <= self.fields@.len(),
                vsv == vars_view(self.fields@),
                strs_view(field_lines@) == var_show_lines(vsv.subrange(0, j as int)),
            decreases self.fields@.len() - j,
        {
            proof {
                broadcast use lemma_vars_view_len, lemma_vars_view_index;
            }
            let line = self.fields[j].show();
            let mut indented = String::from_str("    ");
            indented.append(line.as_str());
            field_lines.push(indented);
            proof {
                broadcast use lemma_vars_view_len, lemma_vars_view_index;
                let pfx1 = vsv.subrange(0, j + 1 as int);
                assert(pfx1.drop_last() =~= vsv.subrange(0, j as int));
                assert(pfx1.last() == vsv[j as int]);
                assert(strs_view(field_lines@) =~= var_show_lines(pfx1));
            }
            j = j + 1;
        }
        proof {
            broadcast use lemma_vars_view_len;
            assert(vsv.subrange(0, self.fields@.len() as int) =~= vsv);
        }
        let joined_fields = join_strings(&field_lines, "\n");
        let f = Self::with_new_line(joined_fields.as_str());
        r.append(f.as_str());

        let mut fn_lines: Vec<String> = Vec::new();
        let mut k: usize = 0;
        while k < self.functions.len()
            invariant
                k <= self.functions@.len(),
                fsv == crate::types::functions_view(self.functions@),
                strs_view(fn_lines@) == fn_show_lines(fsv.subrange(0, k as int)),
            decreases self.functions@.len() - k,
        {
            let line = self.functions[k].show();
            let mut indented = String::from_str("    ");
            indented.append(line.as_str());
            fn_lines.push(indented);
            proof {
                let pfx1 = fsv.subrange(0, k + 1 as int);
                assert(pfx1.drop_last() =~= fsv.subrange(0, k as int));
                assert(pfx1.last() == fsv[k as int]);
                assert(fsv[k as int] == self.functions@[k as int]@);
                assert(strs_view(fn_lines@) =~= fn_show_lines(pfx1));
            }
            k = k + 1;
        }
        proof {
            assert(fsv.subrange(0, self.functions@.len() as int) =~= fsv);
        }
        let joined_fns = join_strings(&fn_lines, "\n");
        let g = Self::with_new_line(joined_fns.as_str());
        r.append(g.as_str());
        proof {
            assert(r@ =~= class_show(self@));
        }
        r
    }
}

} // verus!
