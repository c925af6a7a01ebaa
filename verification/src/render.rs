//! Rendering the graph as markdown: cross-reference links whose path
//! depends on the referenced entity's scope and the active partitioning
//! policy, and the building blocks of a container document.

use vstd::prelude::*;

use crate::namemap::{map_has_key, map_lookup, NameMap};
use crate::options::{Options, OutputOrder};
use crate::show::{join_sv, join_strings, lua_kind_name};
use crate::strutil::{
    lower_seq, replace_all, replace_all_spec, strs_view, to_lower, trim_newlines,
    trim_newlines_spec,
};
use crate::types::{
    Alias, AliasV, Class, ClassV, Enum, EnumV, Function, FunctionV, Kind, KindV, LuaKind, Scope,
    Var, VarV, file_stem_of, kind_view, kinds_view, lemma_kinds_view_index, lemma_kinds_view_len,
    lemma_obj_fields_view_index, lemma_obj_fields_view_len, lemma_vars_view_index,
    lemma_vars_view_len, name_base, name_end, obj_fields_view, ostr_view, vars_view,
};

verus! {

// ------------------------------------------------------------------
// Markdown pieces.

/// `level` hash marks.
pub open spec fn hashes(level: nat) -> Seq<char>
    decreases level,
{
    if level == 0 {
        Seq::empty()
    } else {
        hashes((level - 1) as nat).push('#')
    }
}

/// A heading of the given level.
pub open spec fn heading_spec(text: Seq<char>, level: nat) -> Seq<char> {
    hashes(level) + " "@ + text
}

/// A heading of the given level.
pub fn heading(text: &str, level: usize) -> (r: String)
    ensures
        r@ == heading_spec(text@, level as nat),
{
    let mut marks = String::new();
    let mut i: usize = 0;
    while i < level
        invariant
            i <= level,
            marks@ == hashes(i as nat),
        decreases level - i,
    {
        crate::strutil::push_char(&mut marks, '#');
        i = i + 1;
    }
    marks.append(" ");
    marks.append(text);
    marks
}

pub fn h1(text: &str) -> (r: String)
    ensures
        r@ == heading_spec(text@, 1),
{
    heading(text, 1)
}

pub fn h2(text: &str) -> (r: String)
    ensures
        r@ == heading_spec(text@, 2),
{
    heading(text, 2)
}

pub fn h3(text: &str) -> (r: String)
    ensures
        r@ == heading_spec(text@, 3),
{
    heading(text, 3)
}

/// A link to another document.
pub open spec fn file_link_spec(text: Seq<char>, url: Seq<char>) -> Seq<char> {
    "[`"@ + text + "`]("@ + url + ".md)"@
}

pub fn file_link(text: &str, url: &str) -> (r: String)
    ensures
        r@ == file_link_spec(text@, url@),
{
    let mut r = String::from_str("[`");
    r.append(text);
    r.append("`](");
    r.append(url);
    r.append(".md)");
    r
}

/// A link to an anchor inside another document.
pub open spec fn class_link_spec(text: Seq<char>, url: Seq<char>, anchor: Seq<char>) -> Seq<
    char,
> {
    "[`"@ + text + "`]("@ + url + ".md#"@ + anchor + ")"@
}

pub fn class_link(text: &str, url: &str, anchor: &str) -> (r: String)
    ensures
        r@ == class_link_spec(text@, url@, anchor@),
{
    let mut r = String::from_str("[`");
    r.append(text);
    r.append("`](");
    r.append(url);
    r.append(".md#");
    r.append(anchor);
    r.append(")");
    r
}

/// A link to an anchor in the same document, lowercased.
pub open spec fn local_class_link_spec(text: Seq<char>, anchor: Seq<char>) -> Seq<char> {
    "[`"@ + text + "`](#"@ + lower_seq(anchor) + ")"@
}

pub fn local_class_link(text: &str, anchor: &str) -> (r: String)
    ensures
        r@ == local_class_link_spec(text@, anchor@),
{
    let mut r = String::from_str("[`");
    r.append(text);
    r.append("`](#");
    let low = to_lower(anchor);
    r.append(low.as_str());
    r.append(")");
    r
}

/// A link to an enum's anchor in another document.
pub fn enum_link(text: &str, url: &str, anchor: &str) -> (r: String)
    ensures
        r@ == class_link_spec(text@, url@, anchor@),
{
    class_link(text, url, anchor)
}

/// A link to an alias's anchor in the same document.
pub open spec fn alias_link_spec(text: Seq<char>, anchor: Seq<char>) -> Seq<char> {
    "[`"@ + text + "`](#"@ + anchor + ")"@
}

pub fn alias_link(text: &str, anchor: &str) -> (r: String)
    ensures
        r@ == alias_link_spec(text@, anchor@),
{
    let mut r = String::from_str("[`");
    r.append(text);
    r.append("`](#");
    r.append(anchor);
    r.append(")");
    r
}

/// The text as a blockquote.
pub open spec fn quote_spec(text: Seq<char>) -> Seq<char> {
    "> "@ + replace_all_spec(text, "\n"@, "\n> "@)
}

pub fn quote(text: &str) -> (r: String)
    ensures
        r@ == quote_spec(text@),
{
    proof {
        reveal_strlit("\n");
    }
    let mut r = String::from_str("> ");
    let body = replace_all(text, "\n", "\n> ");
    r.append(body.as_str());
    r
}

/// A description block: examples headings demoted, outer newlines
/// dropped, quoted.
pub open spec fn description_spec(desc: Seq<char>) -> Seq<char> {
    quote_spec(trim_newlines_spec(replace_all_spec(desc, "### examples"@, "#### examples"@)))
}

pub fn description(desc: &str) -> (r: String)
    ensures
        r@ == description_spec(desc@),
{
    proof {
        reveal_strlit("### examples");
    }
    let demoted = replace_all(desc, "### examples", "#### examples");
    let trimmed = trim_newlines(demoted.as_str());
    quote(trimmed.as_str())
}

/// The text followed by a named anchor.
pub open spec fn anchored_spec(text: Seq<char>, anchor: Seq<char>) -> Seq<char> {
    text + "<a name=\""@ + anchor + "\"></a>"@
}

pub fn anchored(text: &str, anchor: &str) -> (r: String)
    ensures
        r@ == anchored_spec(text@, anchor@),
{
    let mut r = String::from_str(text);
    r.append("<a name=\"");
    r.append(anchor);
    r.append("\"></a>");
    r
}

// ------------------------------------------------------------------
// Type links.

impl LuaKind {
    /// A link to the built-in type's own mini-document.
    pub open spec fn spec_link(self, url_root: Seq<char>) -> Seq<char> {
        file_link_spec(lua_kind_name(self), url_root + "API/builtins/"@ + lua_kind_name(self))
    }

    pub fn link(&self, url_root: &str) -> (r: String)
        ensures
            r@ == self.spec_link(url_root@),
    {
        let text = self.show();
        let mut url = String::from_str(url_root);
        url.append("API/builtins/");
        url.append(text.as_str());
        file_link(text.as_str(), url.as_str())
    }
}

/// How a resolved class reference renders: a same-document anchor for a
/// local class under the by-class policy, a link into the owning
/// document otherwise; a reference to no known class renders as its
/// plain name.
pub open spec fn class_ref_link(
    cs: Seq<(Seq<char>, ClassV)>,
    order: OutputOrder,
    ns: Seq<char>,
    url_root: Seq<char>,
    n: Seq<char>,
) -> Seq<char> {
    if !map_has_key(cs, n) {
        n
    } else {
        let c = map_lookup(cs, n);
        match c.scope {
            Scope::Local | Scope::Global => {
                if order == OutputOrder::ByFile {
                    let stem = match c.file {
                        Option::Some(f) => file_stem_of(f),
                        Option::None => "[unknown file]"@,
                    };
                    class_link_spec(n, url_root + c.scope.spec_path_prefix(ns) + stem, n)
                } else {
                    if c.scope == Scope::Local {
                        local_class_link_spec(n, n)
                    } else {
                        file_link_spec(n, url_root + c.scope.spec_path_prefix(ns) + n)
                    }
                }
            },
            _ => file_link_spec(n, url_root + c.scope.spec_path_prefix(ns) + n),
        }
    }
}

/// How a resolved enum reference renders; a reference to no known enum
/// renders as its plain name.
pub open spec fn enum_ref_link(
    es: Seq<(Seq<char>, EnumV)>,
    order: OutputOrder,
    ns: Seq<char>,
    url_root: Seq<char>,
    n: Seq<char>,
) -> Seq<char> {
    if !map_has_key(es, n) {
        n
    } else {
        let e = map_lookup(es, n);
        if order == OutputOrder::ByFile {
            let stem = match e.file {
                Option::Some(f) => file_stem_of(f),
                Option::None => "[unknown file]"@,
            };
            class_link_spec(n, url_root + Scope::Global.spec_path_prefix(ns) + stem, n)
        } else {
            class_link_spec(
                n,
                match name_base(n) {
                    Option::Some(b) => b,
                    Option::None => n,
                },
                match name_end(n) {
                    Option::Some(x) => x,
                    Option::None => Seq::empty(),
                },
            )
        }
    }
}

/// The rendered form of a type reference: a link for every named or
/// built-in type, literal text for literals and unknown names.
pub open spec fn kindv_link(
    cs: Seq<(Seq<char>, ClassV)>,
    es: Seq<(Seq<char>, EnumV)>,
    order: OutputOrder,
    ns: Seq<char>,
    url_root: Seq<char>,
    k: KindV,
) -> Seq<char>
    decreases k,
{
    match k {
        KindV::Unresolved(s) => s,
        KindV::Lua(l) => l.spec_link(url_root),
        KindV::Literal(l, s) => match l {
            LuaKind::String => "`\""@ + s + "\"`"@,
            LuaKind::Integer => "`"@ + s + "`"@,
            LuaKind::Number => "`"@ + s + "`"@,
            _ => s,
        },
        KindV::Array(b) => kindv_link(cs, es, order, ns, url_root, *b) + "[]"@,
        KindV::Nullable(b) => kindv_link(cs, es, order, ns, url_root, *b) + file_link_spec(
            "?"@,
            url_root + "API/builtins/nil"@,
        ),
        KindV::Table(bk, bv) => "table<"@ + kindv_link(cs, es, order, ns, url_root, *bk) + ", "@
            + kindv_link(cs, es, order, ns, url_root, *bv) + ">"@,
        KindV::Object(fields) => "{ "@ + join_sv(
            objv_links(cs, es, order, ns, url_root, fields),
            ", "@,
        ) + " }"@,
        KindV::Alias(n) => alias_link_spec(n, n),
        KindV::Class(n) => class_ref_link(cs, order, ns, url_root, n),
        KindV::Function(bf) => fnv_short(cs, es, order, ns, url_root, *bf),
        KindV::Union(ks) => join_sv(kindsv_links(cs, es, order, ns, url_root, ks), " | "@),
        KindV::EnumRef(n) => enum_ref_link(es, order, ns, url_root, n),
        KindV::SelfArg => "[*self*]("@ + url_root + "API/builtins/self.md)"@,
        KindV::Variadic(b) => "..."@ + kindv_link(cs, es, order, ns, url_root, *b),
    }
}

pub open spec fn objv_links(
    cs: Seq<(Seq<char>, ClassV)>,
    es: Seq<(Seq<char>, EnumV)>,
    order: OutputOrder,
    ns: Seq<char>,
    url_root: Seq<char>,
    fields: Seq<(Seq<char>, KindV)>,
) -> Seq<Seq<char>>
    decreases fields,
{
    if fields.len() == 0 {
        Seq::empty()
    } else {
        objv_links(cs, es, order, ns, url_root, fields.drop_last()).push(
            fields.last().0 + " : "@ + kindv_link(cs, es, order, ns, url_root, fields.last().1),
        )
    }
}

pub open spec fn kindsv_links(
    cs: Seq<(Seq<char>, ClassV)>,
    es: Seq<(Seq<char>, EnumV)>,
    order: OutputOrder,
    ns: Seq<char>,
    url_root: Seq<char>,
    ks: Seq<KindV>,
) -> Seq<Seq<char>>
    decreases ks,
{
    if ks.len() == 0 {
        Seq::empty()
    } else {
        kindsv_links(cs, es, order, ns, url_root, ks.drop_last()).push(
            kindv_link(cs, es, order, ns, url_root, ks.last()),
        )
    }
}

/// The one-line rendering of a value slot: the receiver placeholder
/// renders bare, a named slot as `name : type`.
pub open spec fn varv_short(
    cs: Seq<(Seq<char>, ClassV)>,
    es: Seq<(Seq<char>, EnumV)>,
    order: OutputOrder,
    ns: Seq<char>,
    url_root: Seq<char>,
    v: VarV,
) -> Seq<char>
    decreases v,
{
    if v.kind is SelfArg {
        kindv_link(cs, es, order, ns, url_root, v.kind)
    } else {
        match v.name {
            Option::Some(n) => n + " : "@ + kindv_link(cs, es, order, ns, url_root, v.kind),
            Option::None => kindv_link(cs, es, order, ns, url_root, v.kind),
        }
    }
}

pub open spec fn varsv_shorts(
    cs: Seq<(Seq<char>, ClassV)>,
    es: Seq<(Seq<char>, EnumV)>,
    order: OutputOrder,
    ns: Seq<char>,
    url_root: Seq<char>,
    vs: Seq<VarV>,
) -> Seq<Seq<char>>
    decreases vs,
{
    if vs.len() == 0 {
        Seq::empty()
    } else {
        varsv_shorts(cs, es, order, ns, url_root, vs.drop_last()).push(
            varv_short(cs, es, order, ns, url_root, vs.last()),
        )
    }
}

/// The one-line rendering of a function shape: its name, parameters and
/// returns, or the empty-call form when it has neither.
pub open spec fn fnv_short(
    cs: Seq<(Seq<char>, ClassV)>,
    es: Seq<(Seq<char>, EnumV)>,
    order: OutputOrder,
    ns: Seq<char>,
    url_root: Seq<char>,
    f: FunctionV,
) -> Seq<char>
    decreases f,
{
    if f.params.len() == 0 && f.returns.len() == 0 {
        fnv_empty(f)
    } else {
        let rendered_returns = join_sv(varsv_shorts(cs, es, order, ns, url_root, f.returns), ", "@);
        (match f.name {
            Option::Some(n) => n,
            Option::None => Seq::empty(),
        }) + "("@ + join_sv(varsv_shorts(cs, es, order, ns, url_root, f.params), ", "@) + ")"@
            + (if rendered_returns.len() == 0 {
            rendered_returns
        } else {
            " `->` "@ + rendered_returns
        })
    }
}

/// The rendering of a function with no parameters and no returns.
pub open spec fn fnv_empty(f: FunctionV) -> Seq<char> {
    (match f.name {
        Option::Some(n) => n,
        Option::None => "fun"@,
    }) + "()"@
}

// ------------------------------------------------------------------
// Executable links.

impl Kind {
    /// The rendered form of this type reference.
    pub fn link(
        &self,
        classes: &NameMap<Class>,
        enums: &NameMap<Enum>,
        options: &Options,
        url_root: &str,
    ) -> (r: String)
        requires
            classes.wf(),
            enums.wf(),
        ensures
            r@ == kindv_link(classes@, enums@, options@.order, options@.namespace, url_root@, self@),
        decreases *self,
    {
        match self {
            Kind::Unresolved(s) => s.clone(),
            Kind::Lua(l) => l.link(url_root),
            Kind::Literal(l, s) => {
                match l {
                    LuaKind::String => {
                        let mut r = String::from_str("`\"");
                        r.append(s.as_str());
                        r.append("\"`");
                        assert(r@ =~= kindv_link(
                            classes@,
                            enums@,
                            options@.order,
                            options@.namespace,
                            url_root@,
                            self@,
                        ));
                        r
                    },
                    LuaKind::Integer => {
                        let mut r = String::from_str("`");
                        r.append(s.as_str());
                        r.append("`");
                        assert(r@ =~= kindv_link(
                            classes@,
                            enums@,
                            options@.order,
                            options@.namespace,
                            url_root@,
                            self@,
                        ));
                        r
                    },
                    LuaKind::Number => {
                        let mut r = String::from_str("`");
                        r.append(s.as_str());
                        r.append("`");
                        assert(r@ =~= kindv_link(
                            classes@,
                            enums@,
                            options@.order,
                            options@.namespace,
                            url_root@,
                            self@,
                        ));
                        r
                    },
                    _ => s.clone(),
                }
            },
            Kind::Array(b) => {
                let mut r = (&**b).link(classes, enums, options, url_root);
                r.append("[]");
                assert(r@ =~= kindv_link(
                    classes@,
                    enums@,
                    options@.order,
                    options@.namespace,
                    url_root@,
                    self@,
                ));
                r
            },
            Kind::Nullable(b) => {
                let mut r = (&**b).link(classes, enums, options, url_root);
                let mut url = String::from_str(url_root);
                url.append("API/builtins/nil");
                let q = file_link("?", url.as_str());
                r.append(q.as_str());
                assert(r@ =~= kindv_link(
                    classes@,
                    enums@,
                    options@.order,
                    options@.namespace,
                    url_root@,
                    self@,
                ));
                r
            },
            Kind::Table(bk, bv) => {
                let mut r = String::from_str("table<");
                let lk = (&**bk).link(classes, enums, options, url_root);
                let lv = (&**bv).link(classes, enums, options, url_root);
                r.append(lk.as_str());
                r.append(", ");
                r.append(lv.as_str());
                r.append(">");
                assert(r@ =~= kindv_link(
                    classes@,
                    enums@,
                    options@.order,
                    options@.namespace,
                    url_root@,
                    self@,
                ));
                r
            },
            Kind::Object(fields) => {
                proof {
                    broadcast use lemma_obj_fields_view_len, lemma_obj_fields_view_index;
                }
                let mut parts: Vec<String> = Vec::new();
                let mut i: usize = 0;
                while i < fields.len()
                    invariant
                        classes.wf(),
                        enums.wf(),
                        i <= fields@.len(),
                        *self == Kind::Object(*fields),
                        strs_view(parts@) == objv_links(
                            classes@,
                            enums@,
                            options@.order,
                            options@.namespace,
                            url_root@,
                            obj_fields_view(fields@).subrange(0, i as int),
                        ),
                    decreases fields@.len() - i,
                {
                    assert(*fields == self->Object_0);
                    assert(decreases_to!(*self => self->Object_0));
                    assert(decreases_to!(*fields => fields@[i as int]));
                    assert(decreases_to!(fields@[i as int] => fields@[i as int].1));
                    proof {
                        broadcast use lemma_obj_fields_view_len, lemma_obj_fields_view_index;
                    }
                    let mut part = fields[i].0.clone();
                    part.append(" : ");
                    let inner = fields[i].1.link(classes, enums, options, url_root);
                    part.append(inner.as_str());
                    parts.push(part);
                    proof {
                        broadcast use lemma_obj_fields_view_len, lemma_obj_fields_view_index;
                        let pfx = obj_fields_view(fields@).subrange(0, i as int);
                        let pfx1 = obj_fields_view(fields@).subrange(0, i + 1 as int);
                        assert(pfx1.drop_last() =~= pfx);
                        assert(pfx1.last() == obj_fields_view(fields@)[i as int]);
                        assert(strs_view(parts@) =~= objv_links(
                            classes@,
                            enums@,
                            options@.order,
                            options@.namespace,
                            url_root@,
                            pfx1,
                        ));
                    }
                    i = i + 1;
                }
                proof {
                    broadcast use lemma_obj_fields_view_len;
                    assert(obj_fields_view(fields@).subrange(0, fields@.len() as int)
                        =~= obj_fields_view(fields@));
                }
                let mut r = String::from_str("{ ");
                let joined = join_strings(&parts, ", ");
                r.append(joined.as_str());
                r.append(" }");
                assert(r@ =~= kindv_link(
                    classes@,
                    enums@,
                    options@.order,
                    options@.namespace,
                    url_root@,
                    self@,
                ));
                r
            },
            Kind::Alias(n) => alias_link(n.as_str(), n.as_str()),
            Kind::Class(n) => {
                match classes.get(n.as_str()) {
                    Option::None => n.clone(),
                    Option::Some(c) => {
                        match c.scope {
                            Scope::Local | Scope::Global => {
                                if matches!(options.order, OutputOrder::ByFile) {
                                    let stem: String = match &c.file {
                                        Option::Some(f) => crate::types::file_stem(f.as_str()),
                                        Option::None => String::from_str("[unknown file]"),
                                    };
                                    let prefix = c.scope.path_prefix(options.namespace.as_str());
                                    let mut url = String::from_str(url_root);
                                    url.append(prefix.as_str());
                                    url.append(stem.as_str());
                                    let r = class_link(n.as_str(), url.as_str(), n.as_str());
                                    assert(r@ =~= kindv_link(
                                        classes@,
                                        enums@,
                                        options@.order,
                                        options@.namespace,
                                        url_root@,
                                        self@,
                                    ));
                                    r
                                } else {
                                    if matches!(c.scope, Scope::Local) {
                                        let r = local_class_link(n.as_str(), n.as_str());
                                        assert(r@ =~= kindv_link(
                                            classes@,
                                            enums@,
                                            options@.order,
                                            options@.namespace,
                                            url_root@,
                                            self@,
                                        ));
                                        r
                                    } else {
                                        let prefix = c.scope.path_prefix(
                                            options.namespace.as_str(),
                                        );
                                        let mut url = String::from_str(url_root);
                                        url.append(prefix.as_str());
                                        url.append(n.as_str());
                                        let r = file_link(n.as_str(), url.as_str());
                                        assert(r@ =~= kindv_link(
                                            classes@,
                                            enums@,
                                            options@.order,
                                            options@.namespace,
                                            url_root@,
                                            self@,
                                        ));
                                        r
                                    }
                                }
                            },
                            _ => {
                                let prefix = c.scope.path_prefix(options.namespace.as_str());
                                let mut url = String::from_str(url_root);
                                url.append(prefix.as_str());
                                url.append(n.as_str());
                                let r = file_link(n.as_str(), url.as_str());
                                assert(r@ =~= kindv_link(
                                    classes@,
                                    enums@,
                                    options@.order,
                                    options@.namespace,
                                    url_root@,
                                    self@,
                                ));
                                r
                            },
                        }
                    },
                }
            },
            Kind::Function(bf) => (&**bf).short(classes, enums, options, url_root),
            Kind::Union(ks) => {
                proof {
                    broadcast use lemma_kinds_view_len, lemma_kinds_view_index;
                }
                let mut parts: Vec<String> = Vec::new();
                let mut i: usize = 0;
                while i < ks.len()
                    invariant
                        classes.wf(),
                        enums.wf(),
                        i <= ks@.len(),
                        *self == Kind::Union(*ks),
                        strs_view(parts@) == kindsv_links(
                            classes@,
                            enums@,
                            options@.order,
                            options@.namespace,
                            url_root@,
                            kinds_view(ks@).subrange(0, i as int),
                        ),
                    decreases ks@.len() - i,
                {
                    assert(*ks == self->Union_0);
                    assert(decreases_to!(*self => self->Union_0));
                    assert(decreases_to!(*ks => ks@[i as int]));
                    proof {
                        broadcast use lemma_kinds_view_len, lemma_kinds_view_index;
                    }
                    let part = ks[i].link(classes, enums, options, url_root);
                    parts.push(part);
                    proof {
                        broadcast use lemma_kinds_view_len, lemma_kinds_view_index;
                        let pfx = kinds_view(ks@).subrange(0, i as int);
                        let pfx1 = kinds_view(ks@).subrange(0, i + 1 as int);
                        assert(pfx1.drop_last() =~= pfx);
                        assert(pfx1.last() == kinds_view(ks@)[i as int]);
                        assert(strs_view(parts@) =~= kindsv_links(
                            classes@,
                            enums@,
                            options@.order,
                            options@.namespace,
                            url_root@,
                            pfx1,
                        ));
                    }
                    i = i + 1;
                }
                proof {
                    broadcast use lemma_kinds_view_len;
                    assert(kinds_view(ks@).subrange(0, ks@.len() as int) =~= kinds_view(ks@));
                }
                let r = join_strings(&parts, " | ");
                assert(r@ =~= kindv_link(
                    classes@,
                    enums@,
                    options@.order,
                    options@.namespace,
                    url_root@,
                    self@,
                ));
                r
            },
            Kind::EnumRef(n) => {
                match enums.get(n.as_str()) {
                    Option::None => n.clone(),
                    Option::Some(e) => {
                        if matches!(options.order, OutputOrder::ByFile) {
                            let stem: String = match &e.file {
                                Option::Some(f) => crate::types::file_stem(f.as_str()),
                                Option::None => String::from_str("[unknown file]"),
                            };
                            let prefix = Scope::Global.path_prefix(options.namespace.as_str());
                            let mut url = String::from_str(url_root);
                            url.append(prefix.as_str());
                            url.append(stem.as_str());
                            let r = enum_link(n.as_str(), url.as_str(), n.as_str());
                            assert(r@ =~= kindv_link(
                                classes@,
                                enums@,
                                options@.order,
                                options@.namespace,
                                url_root@,
                                self@,
                            ));
                            r
                        } else {
                            let base: String = match Class::get_base(n.as_str()) {
                                Option::Some(b) => b,
                                Option::None => n.clone(),
                            };
                            let end: String = match Class::get_end(n.as_str()) {
                                Option::Some(x) => x,
                                Option::None => String::new(),
                            };
                            let r = enum_link(n.as_str(), base.as_str(), end.as_str());
                            assert(r@ =~= kindv_link(
                                classes@,
                                enums@,
                                options@.order,
                                options@.namespace,
                                url_root@,
                                self@,
                            ));
                            r
                        }
                    },
                }
            },
            Kind::SelfArg => {
                let mut r = String::from_str("[*self*](");
                r.append(url_root);
                r.append("API/builtins/self.md)");
                assert(r@ =~= kindv_link(
                    classes@,
                    enums@,
                    options@.order,
                    options@.namespace,
                    url_root@,
                    self@,
                ));
                r
            },
            Kind::Variadic(b) => {
                let mut r = String::from_str("...");
                let inner = (&**b).link(classes, enums, options, url_root);
                r.append(inner.as_str());
                assert(r@ =~= kindv_link(
                    classes@,
                    enums@,
                    options@.order,
                    options@.namespace,
                    url_root@,
                    self@,
                ));
                r
            },
        }
    }
}

impl Var {
    /// The one-line rendering of this slot.
    pub fn short(
        &self,
        classes: &NameMap<Class>,
        enums: &NameMap<Enum>,
        options: &Options,
        url_root: &str,
    ) -> (r: String)
        requires
            classes.wf(),
            enums.wf(),
        ensures
            r@ == varv_short(classes@, enums@, options@.order, options@.namespace, url_root@, self@),
        decreases *self,
    {
        if matches!(self.kind, Kind::SelfArg) {
            self.kind.link(classes, enums, options, url_root)
        } else {
            proof {
                assert(!(self@.kind is SelfArg)) by {
                    match self.kind {
                        Kind::SelfArg => {
                            assert(false);
                        },
                        _ => {},
                    }
                }
            }
            match &self.name {
                Option::Some(n) => {
                    let mut r = n.clone();
                    r.append(" : ");
                    let inner = self.kind.link(classes, enums, options, url_root);
                    r.append(inner.as_str());
                    assert(r@ =~= varv_short(
                        classes@,
                        enums@,
                        options@.order,
                        options@.namespace,
                        url_root@,
                        self@,
                    ));
                    r
                },
                Option::None => self.kind.link(classes, enums, options, url_root),
            }
        }
    }
}

/// The one-line renderings of the slots, in order.
fn vars_short_parts(
    vs: &Vec<Var>,
    classes: &NameMap<Class>,
    enums: &NameMap<Enum>,
    options: &Options,
    url_root: &str,
) -> (r: Vec<String>)
    requires
        classes.wf(),
        enums.wf(),
    ensures
        strs_view(r@) == varsv_shorts(
            classes@,
            enums@,
            options@.order,
            options@.namespace,
            url_root@,
            vars_view(vs@),
        ),
    decreases *vs,
{
    proof {
        broadcast use lemma_vars_view_len, lemma_vars_view_index;
    }
    let mut parts: Vec<String> = Vec::new();
    let mut i: usize = 0;
    while i < vs.len()
        invariant
            classes.wf(),
            enums.wf(),
            i <= vs@.len(),
            strs_view(parts@) == varsv_shorts(
                classes@,
                enums@,
                options@.order,
                options@.namespace,
                url_root@,
                vars_view(vs@).subrange(0, i as int),
            ),
        decreases vs@.len() - i,
    {
        assert(decreases_to!(*vs => vs@[i as int]));
        proof {
            broadcast use lemma_vars_view_len, lemma_vars_view_index;
        }
        let part = vs[i].short(classes, enums, options, url_root);
        parts.push(part);
        proof {
            broadcast use lemma_vars_view_len, lemma_vars_view_index;
            let pfx = vars_view(vs@).subrange(0, i as int);
            let pfx1 = vars_view(vs@).subrange(0, i + 1 as int);
            assert(pfx1.drop_last() =~= pfx);
            assert(pfx1.last() == vars_view(vs@)[i as int]);
            assert(strs_view(parts@) =~= varsv_shorts(
                classes@,
                enums@,
                options@.order,
                options@.namespace,
                url_root@,
                pfx1,
            ));
        }
        i = i + 1;
    }
    proof {
        broadcast use lemma_vars_view_len;
        assert(vars_view(vs@).subrange(0, vs@.len() as int) =~= vars_view(vs@));
    }
    parts
}

impl Function {
    /// The one-line rendering of this function.
    pub fn short(
        &self,
        classes: &NameMap<Class>,
        enums: &NameMap<Enum>,
        options: &Options,
        url_root: &str,
    ) -> (r: String)
        requires
            classes.wf(),
            enums.wf(),
        ensures
            r@ == fnv_short(classes@, enums@, options@.order, options@.namespace, url_root@, self@),
        decreases *self,
    {
        proof {
            broadcast use lemma_vars_view_len;
        }
        if self.params.len() == 0 && self.returns.len() == 0 {
            return self.empty();
        }
        let mut r: String = match &self.name {
            Option::Some(n) => n.clone(),
            Option::None => String::new(),
        };
        r.append("(");
        let params = vars_short_parts(&self.params, classes, enums, options, url_root);
        let jp = join_strings(&params, ", ");
        r.append(jp.as_str());
        r.append(")");
        let rets = vars_short_parts(&self.returns, classes, enums, options, url_root);
        let jr = join_strings(&rets, ", ");
        if jr.unicode_len() > 0 {
            r.append(" `->` ");
            r.append(jr.as_str());
        }
        proof {
            assert(r@ =~= fnv_short(
                classes@,
                enums@,
                options@.order,
                options@.namespace,
                url_root@,
                self@,
            ));
        }
        r
    }

    /// The empty-call rendering of this function.
    pub fn empty(&self) -> (r: String)
        ensures
            r@ == fnv_empty(self@),
    {
        let mut r: String = match &self.name {
            Option::Some(n) => n.clone(),
            Option::None => String::from_str("fun"),
        };
        r.append("()");
        r
    }
}


// ------------------------------------------------------------------
// Long forms: anchored headings with descriptions.

/// The optional description rendered under a heading: nothing when
/// absent or empty.
pub open spec fn desc_block(desc: Option<Seq<char>>) -> Seq<char> {
    match desc {
        Option::Some(d) => if d.len() == 0 {
            d
        } else {
            "\n"@ + description_spec(d) + "\n"@
        },
        Option::None => Seq::empty(),
    }
}

/// The anchored long rendering of a value slot.
pub open spec fn varv_long(
    cs: Seq<(Seq<char>, ClassV)>,
    es: Seq<(Seq<char>, EnumV)>,
    order: OutputOrder,
    ns: Seq<char>,
    url_root: Seq<char>,
    v: VarV,
) -> Seq<char> {
    anchored_spec(
        heading_spec(varv_short(cs, es, order, ns, url_root, v), 3),
        match v.name {
            Option::Some(n) => n,
            Option::None => Seq::empty(),
        },
    ) + desc_block(v.desc)
}

impl Var {
    /// The anchored long rendering of this slot.
    pub fn long(
        &self,
        classes: &NameMap<Class>,
        enums: &NameMap<Enum>,
        options: &Options,
        url_root: &str,
    ) -> (r: String)
        requires
            classes.wf(),
            enums.wf(),
        ensures
            r@ == varv_long(classes@, enums@, options@.order, options@.namespace, url_root@, self@),
    {
        proof {
            reveal_strlit("");
        }
        let short = self.short(classes, enums, options, url_root);
        let head = h3(short.as_str());
        let mut r = match &self.name {
            Option::Some(n) => anchored(head.as_str(), n.as_str()),
            Option::None => anchored(head.as_str(), ""),
        };
        match &self.desc {
            Option::Some(d) => {
                if d.unicode_len() > 0 {
                    r.append("\n");
                    let block = description(d.as_str());
                    r.append(block.as_str());
                    r.append("\n");
                }
            },
            Option::None => (),
        }
        proof {
            assert(r@ =~= varv_long(
                classes@,
                enums@,
                options@.order,
                options@.namespace,
                url_root@,
                self@,
            ));
        }
        r
    }
}

/// The anchored rendering of an alias: its name, its target shape, its
/// description.
pub open spec fn aliasv_render(
    cs: Seq<(Seq<char>, ClassV)>,
    es: Seq<(Seq<char>, EnumV)>,
    order: OutputOrder,
    ns: Seq<char>,
    url_root: Seq<char>,
    a: AliasV,
) -> Seq<char> {
    anchored_spec(heading_spec(a.name, 3), a.name) + "\n"@ + kindv_link(
        cs,
        es,
        order,
        ns,
        url_root,
        a.kind,
    ) + "  \n"@ + (match a.desc {
        Option::Some(d) => description_spec(d),
        Option::None => Seq::empty(),
    })
}

impl Alias {
    /// The anchored rendering of this alias.
    pub fn render(
        &self,
        classes: &NameMap<Class>,
        enums: &NameMap<Enum>,
        options: &Options,
        url_root: &str,
    ) -> (r: String)
        requires
            classes.wf(),
            enums.wf(),
        ensures
            r@ == aliasv_render(
                classes@,
                enums@,
                options@.order,
                options@.namespace,
                url_root@,
                self@,
            ),
    {
        let head = h3(self.name.as_str());
        let mut r = anchored(head.as_str(), self.name.as_str());
        r.append("\n");
        let link = self.kind.link(classes, enums, options, url_root);
        r.append(link.as_str());
        r.append("  \n");
        match &self.desc {
            Option::Some(d) => {
                let block = description(d.as_str());
                r.append(block.as_str());
            },
            Option::None => (),
        }
        proof {
            assert(r@ =~= aliasv_render(
                classes@,
                enums@,
                options@.order,
                options@.namespace,
                url_root@,
                self@,
            ));
        }
        r
    }
}

/// The heading followed by the rendered returns, when there are any.
pub open spec fn fnv_with_returns(
    cs: Seq<(Seq<char>, ClassV)>,
    es: Seq<(Seq<char>, EnumV)>,
    order: OutputOrder,
    ns: Seq<char>,
    url_root: Seq<char>,
    head: Seq<char>,
    f: FunctionV,
) -> Seq<char> {
    let rendered = join_sv(varsv_shorts(cs, es, order, ns, url_root, f.returns), ", "@);
    if rendered.len() == 0 {
        head
    } else {
        head + "\n`->`"@ + rendered + "  \n"@
    }
}

/// The heading followed by the function's description, when it has one.
pub open spec fn fnv_with_desc(head: Seq<char>, f: FunctionV) -> Seq<char> {
    match f.desc {
        Option::Some(d) => if d.len() == 0 {
            head
        } else {
            head + "\n"@ + description_spec(d)
        },
        Option::None => head,
    }
}

/// The anchored long rendering of a function: its signature heading,
/// returns and description.
pub open spec fn fnv_long(
    cs: Seq<(Seq<char>, ClassV)>,
    es: Seq<(Seq<char>, EnumV)>,
    order: OutputOrder,
    ns: Seq<char>,
    url_root: Seq<char>,
    f: FunctionV,
) -> Seq<char> {
    let fname = match f.name {
        Option::Some(n) => n,
        Option::None => "fun"@,
    };
    if f.params.len() == 0 {
        fnv_with_desc(
            fnv_with_returns(
                cs,
                es,
                order,
                ns,
                url_root,
                anchored_spec(heading_spec("`"@ + fname + "()`"@, 3), fname),
                f,
            ),
            f,
        )
    } else {
        fnv_with_desc(
            fnv_with_returns(
                cs,
                es,
                order,
                ns,
                url_root,
                anchored_spec(
                    "### "@ + fname + "("@ + join_sv(
                        varsv_shorts(cs, es, order, ns, url_root, f.params),
                        ", "@,
                    ) + ")"@,
                    fname,
                ),
                f,
            ),
            f,
        )
    }
}

impl Function {
    /// The rendered comma list of the given slots.
    pub fn render_vars(
        vars: &Vec<Var>,
        classes: &NameMap<Class>,
        enums: &NameMap<Enum>,
        options: &Options,
        url_root: &str,
    ) -> (r: String)
        requires
            classes.wf(),
            enums.wf(),
        ensures
            r@ == join_sv(
                varsv_shorts(
                    classes@,
                    enums@,
                    options@.order,
                    options@.namespace,
                    url_root@,
                    vars_view(vars@),
                ),
                ", "@,
            ),
    {
        let parts = vars_short_parts(vars, classes, enums, options, url_root);
        join_strings(&parts, ", ")
    }

    /// The heading followed by this function's rendered returns.
    pub fn with_returns(
        &self,
        head: &str,
        classes: &NameMap<Class>,
        enums: &NameMap<Enum>,
        options: &Options,
        url_root: &str,
    ) -> (r: String)
        requires
            classes.wf(),
            enums.wf(),
        ensures
            r@ == fnv_with_returns(
                classes@,
                enums@,
                options@.order,
                options@.namespace,
                url_root@,
                head@,
                self@,
            ),
    {
        let rendered = Self::render_vars(&self.returns, classes, enums, options, url_root);
        if rendered.unicode_len() == 0 {
            String::from_str(head)
        } else {
            let mut r = String::from_str(head);
            r.append("\n`->`");
            r.append(rendered.as_str());
            r.append("  \n");
            r
        }
    }

    /// The heading followed by this function's description.
    pub fn with_desc(&self, head: &str) -> (r: String)
        ensures
            r@ == fnv_with_desc(head@, self@),
    {
        match &self.desc {
            Option::Some(d) => {
                if d.unicode_len() == 0 {
                    String::from_str(head)
                } else {
                    let mut r = String::from_str(head);
                    r.append("\n");
                    let block = description(d.as_str());
                    r.append(block.as_str());
                    r
                }
            },
            Option::None => String::from_str(head),
        }
    }

    /// The anchored long rendering of this function.
    pub fn long(
        &self,
        classes: &NameMap<Class>,
        enums: &NameMap<Enum>,
        options: &Options,
        url_root: &str,
    ) -> (r: String)
        requires
            classes.wf(),
            enums.wf(),
        ensures
            r@ == fnv_long(classes@, enums@, options@.order, options@.namespace, url_root@, self@),
    {
        let fname: String = match &self.name {
            Option::Some(n) => n.clone(),
            Option::None => String::from_str("fun"),
        };
        if self.params.len() == 0 {
            proof {
                broadcast use lemma_vars_view_len;
            }
            let mut t = String::from_str("`");
            t.append(fname.as_str());
            t.append("()`");
            let head0 = h3(t.as_str());
            let head = anchored(head0.as_str(), fname.as_str());
            let with_rets = self.with_returns(head.as_str(), classes, enums, options, url_root);
            self.with_desc(with_rets.as_str())
        } else {
            proof {
                broadcast use lemma_vars_view_len;
            }
            let mut t = String::from_str("### ");
            t.append(fname.as_str());
            t.append("(");
            let params = Self::render_vars(&self.params, classes, enums, options, url_root);
            t.append(params.as_str());
            t.append(")");
            let head = anchored(t.as_str(), fname.as_str());
            let with_rets = self.with_returns(head.as_str(), classes, enums, options, url_root);
            let r = self.with_desc(with_rets.as_str());
            proof {
                assert(r@ =~= fnv_long(
                    classes@,
                    enums@,
                    options@.order,
                    options@.namespace,
                    url_root@,
                    self@,
                ));
            }
            r
        }
    }
}


// ------------------------------------------------------------------
// Container documents.

use crate::closure::{
    aliases_closed, classv_aliases, classv_local_classes, closure_closed,
};
use crate::types::leaf_of;
use crate::namemap::map_keys;
use crate::order::{chars_le_rel, sort_strings, lemma_chars_le_total_ordering};

/// The `Local`-scope class names a class-partitioned document must
/// inline: the least pair of closed sets over the container's direct
/// references, projected to classes.
pub open spec fn closure_class_set(
    cs: Seq<(Seq<char>, ClassV)>,
    als: Seq<(Seq<char>, AliasV)>,
    c: ClassV,
) -> Set<Seq<char>> {
    Set::new(
        |n: Seq<char>|
            forall|s: Set<Seq<char>>, t: Set<Seq<char>>|
                closure_closed(cs, als, s, t) && classv_local_classes(cs, c).to_set().subset_of(s)
                    && classv_aliases(c).to_set().subset_of(t) ==> s.contains(n),
    )
}

/// The alias names a class-partitioned document must inline.
pub open spec fn closure_alias_set(
    cs: Seq<(Seq<char>, ClassV)>,
    als: Seq<(Seq<char>, AliasV)>,
    c: ClassV,
) -> Set<Seq<char>> {
    Set::new(
        |n: Seq<char>|
            forall|s: Set<Seq<char>>, t: Set<Seq<char>>|
                closure_closed(cs, als, s, t) && classv_local_classes(cs, c).to_set().subset_of(s)
                    && classv_aliases(c).to_set().subset_of(t) ==> t.contains(n),
    )
}

/// The alias names a file-partitioned document must inline.
pub open spec fn alias_only_set(als: Seq<(Seq<char>, AliasV)>, c: ClassV) -> Set<Seq<char>> {
    Set::new(
        |n: Seq<char>|
            forall|t: Set<Seq<char>>|
                aliases_closed(als, t) && classv_aliases(c).to_set().subset_of(t) ==> t.contains(
                    n,
                ),
    )
}

/// The anchored heading-plus-description blocks of the enums.
pub open spec fn enum_header_parts(es: Seq<EnumV>) -> Seq<Seq<char>>
    decreases es,
{
    if es.len() == 0 {
        Seq::empty()
    } else {
        enum_header_parts(es.drop_last()).push(
            anchored_spec(heading_spec(leaf_of(es.last().name), 3), leaf_of(es.last().name))
                + "\n"@ + description_spec(es.last().desc),
        )
    }
}

pub open spec fn varsv_longs(
    cs: Seq<(Seq<char>, ClassV)>,
    es: Seq<(Seq<char>, EnumV)>,
    order: OutputOrder,
    ns: Seq<char>,
    url_root: Seq<char>,
    vs: Seq<VarV>,
) -> Seq<Seq<char>>
    decreases vs,
{
    if vs.len() == 0 {
        Seq::empty()
    } else {
        varsv_longs(cs, es, order, ns, url_root, vs.drop_last()).push(
            varv_long(cs, es, order, ns, url_root, vs.last()),
        )
    }
}

pub open spec fn fnsv_longs(
    cs: Seq<(Seq<char>, ClassV)>,
    es: Seq<(Seq<char>, EnumV)>,
    order: OutputOrder,
    ns: Seq<char>,
    url_root: Seq<char>,
    fs: Seq<FunctionV>,
) -> Seq<Seq<char>>
    decreases fs,
{
    if fs.len() == 0 {
        Seq::empty()
    } else {
        fnsv_longs(cs, es, order, ns, url_root, fs.drop_last()).push(
            fnv_long(cs, es, order, ns, url_root, fs.last()),
        )
    }
}

/// The fully rendered local classes of the closure, walked over the
/// class table's sorted key list.
pub open spec fn structs_parts(
    cs: Seq<(Seq<char>, ClassV)>,
    es: Seq<(Seq<char>, EnumV)>,
    als: Seq<(Seq<char>, AliasV)>,
    order: OutputOrder,
    ns: Seq<char>,
    url_root: Seq<char>,
    keys: Seq<Seq<char>>,
    cl: Set<Seq<char>>,
) -> Seq<Seq<char>>
    decreases 2int, keys.len(),
{
    if keys.len() == 0 {
        Seq::empty()
    } else {
        structs_parts(cs, es, als, order, ns, url_root, keys.drop_last(), cl) + (if cl.contains(
            keys.last(),
        ) && map_has_key(cs, keys.last()) {
            seq![
                classv_render(
                    cs,
                    es,
                    als,
                    order,
                    ns,
                    url_root,
                    false,
                    false,
                    map_lookup(cs, keys.last()),
                ),
            ]
        } else {
            Seq::empty()
        })
    }
}

/// The rendered aliases of the closure, walked over the alias table's
/// sorted key list; each alias block is followed by an empty part.
pub open spec fn aliases_parts(
    cs: Seq<(Seq<char>, ClassV)>,
    es: Seq<(Seq<char>, EnumV)>,
    als: Seq<(Seq<char>, AliasV)>,
    order: OutputOrder,
    ns: Seq<char>,
    url_root: Seq<char>,
    keys: Seq<Seq<char>>,
    al: Set<Seq<char>>,
) -> Seq<Seq<char>>
    decreases keys,
{
    if keys.len() == 0 {
        Seq::empty()
    } else {
        aliases_parts(cs, es, als, order, ns, url_root, keys.drop_last(), al) + (if al.contains(
            keys.last(),
        ) && map_has_key(als, keys.last()) {
            seq![
                aliasv_render(cs, es, order, ns, url_root, map_lookup(als, keys.last())),
                Seq::<char>::empty(),
            ]
        } else {
            Seq::empty()
        })
    }
}

/// The opening part: the anchored display-name heading.
pub open spec fn part_heading(c: ClassV) -> Seq<Seq<char>> {
    let disp = if c.name == "global"@ {
        "Global"@
    } else {
        c.name
    };
    seq![heading_spec(anchored_spec(disp, disp), 1)]
}

/// The description part, when the container has one.
pub open spec fn part_desc(c: ClassV) -> Seq<Seq<char>> {
    if c.desc.len() > 0 {
        seq![description_spec(c.desc)]
    } else {
        Seq::empty()
    }
}

/// The contents-marker part, when asked for.
pub open spec fn part_toc(render_toc: bool) -> Seq<Seq<char>> {
    if render_toc {
        seq!["\n<!-- toc -->\n"@]
    } else {
        Seq::empty()
    }
}

/// The constants section: the enums and the constant-style fields.
pub open spec fn part_constants(
    cs: Seq<(Seq<char>, ClassV)>,
    es: Seq<(Seq<char>, EnumV)>,
    order: OutputOrder,
    ns: Seq<char>,
    url_root: Seq<char>,
    c: ClassV,
) -> Seq<Seq<char>> {
    if c.enums.len() > 0 || c.constants.len() > 0 {
        seq![
            heading_spec("Constants"@, 2) + "\n"@ + join_sv(enum_header_parts(c.enums), "\n"@)
                + "\n"@ + join_sv(varsv_longs(cs, es, order, ns, url_root, c.constants), "\n"@),
        ]
    } else {
        Seq::empty()
    }
}

/// The properties section.
pub open spec fn part_fields(
    cs: Seq<(Seq<char>, ClassV)>,
    es: Seq<(Seq<char>, EnumV)>,
    order: OutputOrder,
    ns: Seq<char>,
    url_root: Seq<char>,
    c: ClassV,
) -> Seq<Seq<char>> {
    if c.fields.len() > 0 {
        seq![
            "\n---"@,
            heading_spec("Properties"@, 2) + "\n"@ + join_sv(
                varsv_longs(cs, es, order, ns, url_root, c.fields),
                "\n"@,
            ) + "\n"@,
        ]
    } else {
        Seq::empty()
    }
}

/// The functions section.
pub open spec fn part_functions(
    cs: Seq<(Seq<char>, ClassV)>,
    es: Seq<(Seq<char>, EnumV)>,
    order: OutputOrder,
    ns: Seq<char>,
    url_root: Seq<char>,
    c: ClassV,
) -> Seq<Seq<char>> {
    if c.functions.len() > 0 {
        seq![
            "\n---"@,
            heading_spec("Functions"@, 2) + "\n"@ + join_sv(
                fnsv_longs(cs, es, order, ns, url_root, c.functions),
                "\n"@,
            ),
        ]
    } else {
        Seq::empty()
    }
}

/// The class names a document of this policy inlines.
pub open spec fn policy_class_set(
    cs: Seq<(Seq<char>, ClassV)>,
    als: Seq<(Seq<char>, AliasV)>,
    order: OutputOrder,
    c: ClassV,
) -> Set<Seq<char>> {
    if order == OutputOrder::ByFile {
        Set::empty()
    } else {
        closure_class_set(cs, als, c)
    }
}

/// The alias names a document of this policy inlines.
pub open spec fn policy_alias_set(
    cs: Seq<(Seq<char>, ClassV)>,
    als: Seq<(Seq<char>, AliasV)>,
    order: OutputOrder,
    c: ClassV,
) -> Set<Seq<char>> {
    if order == OutputOrder::ByFile {
        alias_only_set(als, c)
    } else {
        closure_alias_set(cs, als, c)
    }
}

/// The inlined-structs section.
pub open spec fn part_structs(
    cs: Seq<(Seq<char>, ClassV)>,
    es: Seq<(Seq<char>, EnumV)>,
    als: Seq<(Seq<char>, AliasV)>,
    order: OutputOrder,
    ns: Seq<char>,
    url_root: Seq<char>,
    inline: bool,
    c: ClassV,
) -> Seq<Seq<char>>
    decreases (if inline { 3int } else { 0int }), 0int,
{
    let cl_set = policy_class_set(cs, als, order, c);
    if inline && c.scope != Scope::Local && (exists|n: Seq<char>| cl_set.contains(n)) {
        seq!["\n\n\n---"@, heading_spec("Structs"@, 2)] + structs_parts(
            cs,
            es,
            als,
            order,
            ns,
            url_root,
            map_keys(cs).sort_by(chars_le_rel()),
            cl_set,
        )
    } else {
        Seq::empty()
    }
}

/// The inlined-aliases section.
pub open spec fn part_aliases(
    cs: Seq<(Seq<char>, ClassV)>,
    es: Seq<(Seq<char>, EnumV)>,
    als: Seq<(Seq<char>, AliasV)>,
    order: OutputOrder,
    ns: Seq<char>,
    url_root: Seq<char>,
    c: ClassV,
) -> Seq<Seq<char>> {
    let al_set = policy_alias_set(cs, als, order, c);
    if exists|n: Seq<char>| al_set.contains(n) {
        seq!["\n\n\n---"@, heading_spec("Aliases"@, 2)] + aliases_parts(
            cs,
            es,
            als,
            order,
            ns,
            url_root,
            map_keys(als).sort_by(chars_le_rel()),
            al_set,
        )
    } else {
        Seq::empty()
    }
}

/// The parts of a container document, in order: anchored heading,
/// description, optional contents marker, constants, properties,
/// functions, then the inlined local classes and aliases the policy
/// calls for.
pub open spec fn classv_render_parts(
    cs: Seq<(Seq<char>, ClassV)>,
    es: Seq<(Seq<char>, EnumV)>,
    als: Seq<(Seq<char>, AliasV)>,
    order: OutputOrder,
    ns: Seq<char>,
    url_root: Seq<char>,
    render_toc: bool,
    inline: bool,
    c: ClassV,
) -> Seq<Seq<char>>
    decreases (if inline { 4int } else { 1int }), 0int,
{
    part_heading(c) + part_desc(c) + part_toc(render_toc) + part_constants(
        cs,
        es,
        order,
        ns,
        url_root,
        c,
    ) + part_fields(cs, es, order, ns, url_root, c) + part_functions(
        cs,
        es,
        order,
        ns,
        url_root,
        c,
    ) + part_structs(cs, es, als, order, ns, url_root, inline, c) + part_aliases(
        cs,
        es,
        als,
        order,
        ns,
        url_root,
        c,
    ) + seq!["\n"@]
}

/// A container document: its parts joined as markdown lines.
pub open spec fn classv_render(
    cs: Seq<(Seq<char>, ClassV)>,
    es: Seq<(Seq<char>, EnumV)>,
    als: Seq<(Seq<char>, AliasV)>,
    order: OutputOrder,
    ns: Seq<char>,
    url_root: Seq<char>,
    render_toc: bool,
    inline: bool,
    c: ClassV,
) -> Seq<char>
    decreases (if inline { 5int } else { 2int }), 0int,
{
    join_sv(
        classv_render_parts(cs, es, als, order, ns, url_root, render_toc, inline, c),
        "  \n"@,
    )
}


/// The anchored heading-plus-description blocks of the enums.
fn enum_header_parts_exec(es: &Vec<Enum>) -> (r: Vec<String>)
    ensures
        strs_view(r@) == enum_header_parts(crate::types::enums_view(es@)),
{
    let ghost esv = crate::types::enums_view(es@);
    let mut parts: Vec<String> = Vec::new();
    let mut i: usize = 0;
    while i < es.len()
        invariant
            i <= es@.len(),
            esv == crate::types::enums_view(es@),
            strs_view(parts@) == enum_header_parts(esv.subrange(0, i as int)),
        decreases es@.len() - i,
    {
        let e = &es[i];
        let end: String = match Class::get_end(e.name.as_str()) {
            Option::Some(x) => x,
            Option::None => e.name.clone(),
        };
        let head = h3(end.as_str());
        let mut part = anchored(head.as_str(), end.as_str());
        part.append("\n");
        let block = description(e.desc.as_str());
        part.append(block.as_str());
        parts.push(part);
        proof {
            let pfx = esv.subrange(0, i as int);
            let pfx1 = esv.subrange(0, i + 1 as int);
            assert(pfx1.drop_last() =~= pfx);
            assert(pfx1.last() == esv[i as int]);
            assert(esv[i as int] == es@[i as int]@);
            assert(end@ == leaf_of(esv[i as int].name));
            assert(strs_view(parts@) =~= enum_header_parts(pfx1));
        }
        i = i + 1;
    }
    proof {
        assert(esv.subrange(0, es@.len() as int) =~= esv);
    }
    parts
}

/// The anchored long renderings of the slots.
fn vars_long_parts(
    vs: &Vec<Var>,
    classes: &NameMap<Class>,
    enums: &NameMap<Enum>,
    options: &Options,
    url_root: &str,
) -> (r: Vec<String>)
    requires
        classes.wf(),
        enums.wf(),
    ensures
        strs_view(r@) == varsv_longs(
            classes@,
            enums@,
            options@.order,
            options@.namespace,
            url_root@,
            vars_view(vs@),
        ),
{
    proof {
        broadcast use lemma_vars_view_len, lemma_vars_view_index;
    }
    let mut parts: Vec<String> = Vec::new();
    let mut i: usize = 0;
    while i < vs.len()
        invariant
            classes.wf(),
            enums.wf(),
            i <= vs@.len(),
            strs_view(parts@) == varsv_longs(
                classes@,
                enums@,
                options@.order,
                options@.namespace,
                url_root@,
                vars_view(vs@).subrange(0, i as int),
            ),
        decreases vs@.len() - i,
    {
        proof {
            broadcast use lemma_vars_view_len, lemma_vars_view_index;
        }
        let part = vs[i].long(classes, enums, options, url_root);
        parts.push(part);
        proof {
            broadcast use lemma_vars_view_len, lemma_vars_view_index;
            let pfx = vars_view(vs@).subrange(0, i as int);
            let pfx1 = vars_view(vs@).subrange(0, i + 1 as int);
            assert(pfx1.drop_last() =~= pfx);
            assert(pfx1.last() == vars_view(vs@)[i as int]);
            assert(strs_view(parts@) =~= varsv_longs(
                classes@,
                enums@,
                options@.order,
                options@.namespace,
                url_root@,
                pfx1,
            ));
        }
        i = i + 1;
    }
    proof {
        broadcast use lemma_vars_view_len;
        assert(vars_view(vs@).subrange(0, vs@.len() as int) =~= vars_view(vs@));
    }
    parts
}

/// The anchored long renderings of the functions.
fn fns_long_parts(
    fs: &Vec<Function>,
    classes: &NameMap<Class>,
    enums: &NameMap<Enum>,
    options: &Options,
    url_root: &str,
) -> (r: Vec<String>)
    requires
        classes.wf(),
        enums.wf(),
    ensures
        strs_view(r@) == fnsv_longs(
            classes@,
            enums@,
            options@.order,
            options@.namespace,
            url_root@,
            crate::types::functions_view(fs@),
        ),
{
    let ghost fsv = crate::types::functions_view(fs@);
    let mut parts: Vec<String> = Vec::new();
    let mut i: usize = 0;
    while i < fs.len()
        invariant
            classes.wf(),
            enums.wf(),
            i <= fs@.len(),
            fsv == crate::types::functions_view(fs@),
            strs_view(parts@) == fnsv_longs(
                classes@,
                enums@,
                options@.order,
                options@.namespace,
                url_root@,
                fsv.subrange(0, i as int),
            ),
        decreases fs@.len() - i,
    {
        let part = fs[i].long(classes, enums, options, url_root);
        parts.push(part);
        proof {
            let pfx = fsv.subrange(0, i as int);
            let pfx1 = fsv.subrange(0, i + 1 as int);
            assert(pfx1.drop_last() =~= pfx);
            assert(pfx1.last() == fsv[i as int]);
            assert(fsv[i as int] == fs@[i as int]@);
            assert(strs_view(parts@) =~= fnsv_longs(
                classes@,
                enums@,
                options@.order,
                options@.namespace,
                url_root@,
                pfx1,
            ));
        }
        i = i + 1;
    }
    proof {
        assert(fsv.subrange(0, fs@.len() as int) =~= fsv);
    }
    parts
}

/// The rendered parts of the inlined local classes, over the sorted
/// class-table keys.
fn structs_section(
    local_classes: &Vec<String>,
    structs: &NameMap<Class>,
    aliases: &NameMap<Alias>,
    enums: &NameMap<Enum>,
    options: &Options,
    url_root: &str,
) -> (r: Vec<String>)
    requires
        structs.wf(),
        aliases.wf(),
        enums.wf(),
    ensures
        strs_view(r@) == structs_parts(
            structs@,
            enums@,
            aliases@,
            options@.order,
            options@.namespace,
            url_root@,
            map_keys(structs@).sort_by(chars_le_rel()),
            strs_view(local_classes@).to_set(),
        ),
    decreases 1int,
{
    let ghost cs = structs@;
    let ghost esv = enums@;
    let ghost als = aliases@;
    let ghost order = options@.order;
    let ghost ns = options@.namespace;
    let ghost ur = url_root@;
    let ghost cl_set = strs_view(local_classes@).to_set();
    let keys = sort_strings(structs.keys());
    let ghost skeys = map_keys(cs).sort_by(chars_le_rel());
    proof {
        lemma_chars_le_total_ordering();
        map_keys(cs).lemma_sort_by_ensures(chars_le_rel());
        assert(strs_view(keys@) == skeys);
    }
    let mut out: Vec<String> = Vec::new();
    let mut ki: usize = 0;
    proof {
        assert(strs_view(out@) =~= structs_parts(
            cs,
            esv,
            als,
            order,
            ns,
            ur,
            skeys.subrange(0, 0),
            cl_set,
        ));
    }
    while ki < keys.len()
        invariant
            structs.wf(),
            aliases.wf(),
            enums.wf(),
            cs == structs@,
            esv == enums@,
            als == aliases@,
            order == options@.order,
            ns == options@.namespace,
            ur == url_root@,
            ki <= keys@.len(),
            strs_view(keys@) == skeys,
            cl_set == strs_view(local_classes@).to_set(),
            strs_view(out@) == structs_parts(
                cs,
                esv,
                als,
                order,
                ns,
                ur,
                skeys.subrange(0, ki as int),
                cl_set,
            ),
        decreases keys@.len() - ki,
    {
        let ghost pfx = skeys.subrange(0, ki as int);
        let ghost pfx1 = skeys.subrange(0, ki + 1 as int);
        proof {
            assert(pfx1.drop_last() =~= pfx);
            assert(pfx1.last() == skeys[ki as int]);
            assert(skeys[ki as int] == strs_view(keys@)[ki as int]);
        }
        let key = &keys[ki];
        let hit = crate::closure::contains_str(local_classes, key.as_str());
        if hit {
            proof {
                assert(cl_set.contains(key@));
            }
            match structs.get(key.as_str()) {
                Option::Some(c2) => {
                    let part = c2.render_at(
                        structs,
                        aliases,
                        enums,
                        options,
                        url_root,
                        false,
                        false,
                    );
                    out.push(part);
                    proof {
                        assert(strs_view(out@) =~= structs_parts(
                            cs,
                            esv,
                            als,
                            order,
                            ns,
                            ur,
                            pfx1,
                            cl_set,
                        ));
                    }
                },
                Option::None => {
                    proof {
                        assert(strs_view(out@) =~= structs_parts(
                            cs,
                            esv,
                            als,
                            order,
                            ns,
                            ur,
                            pfx1,
                            cl_set,
                        ));
                    }
                },
            }
        } else {
            proof {
                assert(!cl_set.contains(key@)) by {
                    if cl_set.contains(key@) {
                        assert(strs_view(local_classes@).contains(key@));
                    }
                }
                assert(strs_view(out@) =~= structs_parts(
                    cs,
                    esv,
                    als,
                    order,
                    ns,
                    ur,
                    pfx1,
                    cl_set,
                ));
            }
        }
        ki = ki + 1;
    }
    proof {
        assert(skeys.subrange(0, keys@.len() as int) =~= skeys);
    }
    out
}

/// The rendered parts of the inlined aliases, over the sorted
/// alias-table keys.
fn aliases_section(
    local_aliases: &Vec<String>,
    structs: &NameMap<Class>,
    aliases: &NameMap<Alias>,
    enums: &NameMap<Enum>,
    options: &Options,
    url_root: &str,
) -> (r: Vec<String>)
    requires
        structs.wf(),
        aliases.wf(),
        enums.wf(),
    ensures
        strs_view(r@) == aliases_parts(
            structs@,
            enums@,
            aliases@,
            options@.order,
            options@.namespace,
            url_root@,
            map_keys(aliases@).sort_by(chars_le_rel()),
            strs_view(local_aliases@).to_set(),
        ),
{
    let ghost cs = structs@;
    let ghost esv = enums@;
    let ghost als = aliases@;
    let ghost order = options@.order;
    let ghost ns = options@.namespace;
    let ghost ur = url_root@;
    let ghost al_set = strs_view(local_aliases@).to_set();
    let keys = sort_strings(aliases.keys());
    let ghost akeys = map_keys(als).sort_by(chars_le_rel());
    proof {
        lemma_chars_le_total_ordering();
        map_keys(als).lemma_sort_by_ensures(chars_le_rel());
        assert(strs_view(keys@) == akeys);
    }
    let mut out: Vec<String> = Vec::new();
    let mut ki: usize = 0;
    proof {
        assert(strs_view(out@) =~= aliases_parts(
            cs,
            esv,
            als,
            order,
            ns,
            ur,
            akeys.subrange(0, 0),
            al_set,
        ));
    }
    while ki < keys.len()
        invariant
            structs.wf(),
            aliases.wf(),
            enums.wf(),
            cs == structs@,
            esv == enums@,
            als == aliases@,
            order == options@.order,
            ns == options@.namespace,
            ur == url_root@,
            ki <= keys@.len(),
            strs_view(keys@) == akeys,
            al_set == strs_view(local_aliases@).to_set(),
            strs_view(out@) == aliases_parts(
                cs,
                esv,
                als,
                order,
                ns,
                ur,
                akeys.subrange(0, ki as int),
                al_set,
            ),
        decreases keys@.len() - ki,
    {
        let ghost pfx = akeys.subrange(0, ki as int);
        let ghost pfx1 = akeys.subrange(0, ki + 1 as int);
        proof {
            assert(pfx1.drop_last() =~= pfx);
            assert(pfx1.last() == akeys[ki as int]);
            assert(akeys[ki as int] == strs_view(keys@)[ki as int]);
        }
        let key = &keys[ki];
        let hit = crate::closure::contains_str(local_aliases, key.as_str());
        if hit {
            proof {
                assert(al_set.contains(key@));
            }
            match aliases.get(key.as_str()) {
                Option::Some(a2) => {
                    let part = a2.render(structs, enums, options, url_root);
                    out.push(part);
                    out.push(String::new());
                    proof {
                        assert(strs_view(out@) =~= aliases_parts(
                            cs,
                            esv,
                            als,
                            order,
                            ns,
                            ur,
                            pfx1,
                            al_set,
                        ));
                    }
                },
                Option::None => {
                    proof {
                        assert(strs_view(out@) =~= aliases_parts(
                            cs,
                            esv,
                            als,
                            order,
                            ns,
                            ur,
                            pfx1,
                            al_set,
                        ));
                    }
                },
            }
        } else {
            proof {
                assert(!al_set.contains(key@)) by {
                    if al_set.contains(key@) {
                        assert(strs_view(local_aliases@).contains(key@));
                    }
                }
                assert(strs_view(out@) =~= aliases_parts(
                    cs,
                    esv,
                    als,
                    order,
                    ns,
                    ur,
                    pfx1,
                    al_set,
                ));
            }
        }
        ki = ki + 1;
    }
    proof {
        assert(akeys.subrange(0, keys@.len() as int) =~= akeys);
    }
    out
}


/// A least closed alias set is the canonical one.
proof fn lemma_alias_set_least(
    als: Seq<(Seq<char>, AliasV)>,
    c: ClassV,
    alv: Seq<Seq<char>>,
)
    requires
        aliases_closed(als, alv.to_set()),
        classv_aliases(c).to_set().subset_of(alv.to_set()),
        forall|t: Set<Seq<char>>|
            aliases_closed(als, t) && classv_aliases(c).to_set().subset_of(t)
                ==> alv.to_set().subset_of(t),
    ensures
        alv.to_set() == alias_only_set(als, c),
{
    assert forall|n: Seq<char>| alv.to_set().contains(n) == alias_only_set(als, c).contains(
        n,
    ) by {
        if alv.to_set().contains(n) {
            assert forall|t: Set<Seq<char>>|
                aliases_closed(als, t) && classv_aliases(c).to_set().subset_of(t) implies t.contains(
                n,
            ) by {
                assert(alv.to_set().subset_of(t));
            }
            assert(alias_only_set(als, c).contains(n));
        }
        if alias_only_set(als, c).contains(n) {
            assert(alv.to_set().contains(n));
        }
    }
    assert(alv.to_set() =~= alias_only_set(als, c));
}

/// A least closed pair of sets is the canonical pair.
proof fn lemma_closure_sets_least(
    cs: Seq<(Seq<char>, ClassV)>,
    als: Seq<(Seq<char>, AliasV)>,
    c: ClassV,
    clv: Seq<Seq<char>>,
    alv: Seq<Seq<char>>,
)
    requires
        closure_closed(cs, als, clv.to_set(), alv.to_set()),
        classv_local_classes(cs, c).to_set().subset_of(clv.to_set()),
        classv_aliases(c).to_set().subset_of(alv.to_set()),
        forall|s: Set<Seq<char>>, t: Set<Seq<char>>|
            closure_closed(cs, als, s, t) && classv_local_classes(cs, c).to_set().subset_of(s)
                && classv_aliases(c).to_set().subset_of(t) ==> clv.to_set().subset_of(s)
                && alv.to_set().subset_of(t),
    ensures
        clv.to_set() == closure_class_set(cs, als, c),
        alv.to_set() == closure_alias_set(cs, als, c),
{
    assert forall|n: Seq<char>| clv.to_set().contains(n) == closure_class_set(
        cs,
        als,
        c,
    ).contains(n) by {
        if clv.to_set().contains(n) {
            assert forall|s: Set<Seq<char>>, t: Set<Seq<char>>|
                closure_closed(cs, als, s, t) && classv_local_classes(cs, c).to_set().subset_of(
                    s,
                ) && classv_aliases(c).to_set().subset_of(t) implies s.contains(n) by {
                assert(clv.to_set().subset_of(s));
            }
            assert(closure_class_set(cs, als, c).contains(n));
        }
        if closure_class_set(cs, als, c).contains(n) {
            assert(clv.to_set().contains(n));
        }
    }
    assert(clv.to_set() =~= closure_class_set(cs, als, c));
    assert forall|n: Seq<char>| alv.to_set().contains(n) == closure_alias_set(
        cs,
        als,
        c,
    ).contains(n) by {
        if alv.to_set().contains(n) {
            assert forall|s: Set<Seq<char>>, t: Set<Seq<char>>|
                closure_closed(cs, als, s, t) && classv_local_classes(cs, c).to_set().subset_of(
                    s,
                ) && classv_aliases(c).to_set().subset_of(t) implies t.contains(n) by {
                assert(alv.to_set().subset_of(t));
            }
            assert(closure_alias_set(cs, als, c).contains(n));
        }
        if closure_alias_set(cs, als, c).contains(n) {
            assert(alv.to_set().contains(n));
        }
    }
    assert(alv.to_set() =~= closure_alias_set(cs, als, c));
}

/// Appends all the strings to the end of the first vector.
fn append_all(dst: &mut Vec<String>, items: &Vec<String>)
    ensures
        strs_view(final(dst)@) == strs_view(old(dst)@) + strs_view(items@),
{
    let ghost d0 = dst@;
    let mut i: usize = 0;
    while i < items.len()
        invariant
            i <= items@.len(),
            dst@.len() == d0.len() + i,
            forall|j: int| 0 <= j < d0.len() ==> dst@[j] == d0[j],
            forall|j: int| 0 <= j < i ==> dst@[d0.len() + j] == items@[j],
        decreases items@.len() - i,
    {
        let x = items[i].clone();
        dst.push(x);
        i = i + 1;
    }
    proof {
        assert forall|j: int| 0 <= j < strs_view(dst@).len() implies strs_view(dst@)[j] == (
        strs_view(d0) + strs_view(items@))[j] by {
            assert(strs_view(dst@)[j] == dst@[j]@);
            if j < d0.len() {
                assert(strs_view(d0)[j] == d0[j]@);
            } else {
                assert(strs_view(items@)[j - d0.len()] == items@[j - d0.len()]@);
            }
        }
        assert(strs_view(dst@) =~= strs_view(d0) + strs_view(items@));
    }
}


impl Class {
    /// The heading, description, marker and member sections of this
    /// container's document.
    fn head_sections(
        &self,
        structs: &NameMap<Class>,
        enums: &NameMap<Enum>,
        options: &Options,
        url_root: &str,
        render_toc: bool,
    ) -> (r: Vec<String>)
        requires
            structs.wf(),
            enums.wf(),
        ensures
            strs_view(r@) == part_heading(self@) + part_desc(self@) + part_toc(render_toc)
                + part_constants(
                structs@,
                enums@,
                options@.order,
                options@.namespace,
                url_root@,
                self@,
            ) + part_fields(structs@, enums@, options@.order, options@.namespace, url_root@, self@)
                + part_functions(
                structs@,
                enums@,
                options@.order,
                options@.namespace,
                url_root@,
                self@,
            ),
    {
        let ghost cs = structs@;
        let ghost esv = enums@;
        let ghost order = options@.order;
        let ghost ns = options@.namespace;
        let ghost ur = url_root@;
        let mut content: Vec<String> = Vec::new();
        // heading
        let disp: String = if crate::strutil::str_eq(self.name.as_str(), "global") {
            String::from_str("Global")
        } else {
            self.name.clone()
        };
        let anch = anchored(disp.as_str(), disp.as_str());
        let head = h1(anch.as_str());
        content.push(head);

        // description
        if self.desc.unicode_len() > 0 {
            let block = description(self.desc.as_str());
            content.push(block);
        }

        // contents marker
        if render_toc {
            content.push(String::from_str("\n<!-- toc -->\n"));
        }

        let ghost p0 = part_heading(self@);
        let ghost p1 = part_desc(self@);
        let ghost p2 = part_toc(render_toc);
        proof {
            assert(strs_view(content@) =~= p0 + p1 + p2);
        }

        // constants: the enums and the constant-style fields
        if self.enums.len() > 0 || self.constants.len() > 0 {
            let mut sect = h2("Constants");
            sect.append("\n");
            let eparts = enum_header_parts_exec(&self.enums);
            let ejoined = join_strings(&eparts, "\n");
            sect.append(ejoined.as_str());
            sect.append("\n");
            let cparts = vars_long_parts(&self.constants, structs, enums, options, url_root);
            let cjoined = join_strings(&cparts, "\n");
            sect.append(cjoined.as_str());
            content.push(sect);
        }
        let ghost p3 = part_constants(cs, esv, order, ns, ur, self@);
        proof {
            broadcast use lemma_vars_view_len;

            assert(strs_view(content@) =~= p0 + p1 + p2 + p3);
        }

        // properties
        if self.fields.len() > 0 {
            content.push(String::from_str("\n---"));
            let mut sect = h2("Properties");
            sect.append("\n");
            let fparts = vars_long_parts(&self.fields, structs, enums, options, url_root);
            let fjoined = join_strings(&fparts, "\n");
            sect.append(fjoined.as_str());
            sect.append("\n");
            content.push(sect);
        }
        let ghost p4 = part_fields(cs, esv, order, ns, ur, self@);
        proof {
            broadcast use lemma_vars_view_len;

            assert(strs_view(content@) =~= p0 + p1 + p2 + p3 + p4);
        }

        // functions
        if self.functions.len() > 0 {
            content.push(String::from_str("\n---"));
            let mut sect = h2("Functions");
            sect.append("\n");
            let fparts = fns_long_parts(&self.functions, structs, enums, options, url_root);
            let fjoined = join_strings(&fparts, "\n");
            sect.append(fjoined.as_str());
            content.push(sect);
        }
        let ghost p5 = part_functions(cs, esv, order, ns, ur, self@);
        proof {
            assert(strs_view(content@) =~= p0 + p1 + p2 + p3 + p4 + p5);
        }

        content
    }
}

impl Class {
    /// Renders this container as one markdown document, inlining what
    /// the policy calls for.
    pub fn render(
        &self,
        structs: &NameMap<Class>,
        aliases: &NameMap<Alias>,
        enums: &NameMap<Enum>,
        options: &Options,
        url_root: &str,
        render_toc: bool,
    ) -> (r: String)
        requires
            structs.wf(),
            aliases.wf(),
            enums.wf(),
        ensures
            r@ == classv_render(
                structs@,
                enums@,
                aliases@,
                options@.order,
                options@.namespace,
                url_root@,
                render_toc,
                true,
                self@,
            ),
    {
        self.render_at(structs, aliases, enums, options, url_root, render_toc, true)
    }

    /// Renders this container; the flag says whether local classes may
    /// be inlined (they are not, inside an already-inlined document).
    #[verifier::rlimit(100)]
    #[verifier::spinoff_prover]
    fn render_at(
        &self,
        structs: &NameMap<Class>,
        aliases: &NameMap<Alias>,
        enums: &NameMap<Enum>,
        options: &Options,
        url_root: &str,
        render_toc: bool,
        inline: bool,
    ) -> (r: String)
        requires
            structs.wf(),
            aliases.wf(),
            enums.wf(),
        ensures
            r@ == classv_render(
                structs@,
                enums@,
                aliases@,
                options@.order,
                options@.namespace,
                url_root@,
                render_toc,
                inline,
                self@,
            ),
        decreases (if inline { 2int } else { 0int }),
    {
        let ghost cs = structs@;
        let ghost esv = enums@;
        let ghost als = aliases@;
        let ghost order = options@.order;
        let ghost ns = options@.namespace;
        let ghost ur = url_root@;
        let mut content: Vec<String> = self.head_sections(
            structs,
            enums,
            options,
            url_root,
            render_toc,
        );
        let ghost p0 = part_heading(self@);
        let ghost p1 = part_desc(self@);
        let ghost p2 = part_toc(render_toc);
        let ghost p3 = part_constants(cs, esv, order, ns, ur, self@);
        let ghost p4 = part_fields(cs, esv, order, ns, ur, self@);
        let ghost p5 = part_functions(cs, esv, order, ns, ur, self@);
        proof {
            assert(strs_view(content@) == p0 + p1 + p2 + p3 + p4 + p5);
        }

        // the closure the policy calls for
        let mut local_classes: Vec<String> = Vec::new();
        let mut local_aliases: Vec<String> = Vec::new();
        if matches!(options.order, OutputOrder::ByFile) {
            local_aliases = self.collect_local_aliases(aliases);
        } else {
            let pair = self.collect_local_types(structs, aliases);
            local_classes = pair.0;
            local_aliases = pair.1;
        }
        let ghost cl_set = policy_class_set(cs, als, order, self@);
        let ghost al_set = policy_alias_set(cs, als, order, self@);
        proof {
            if order == OutputOrder::ByFile {
                assert(strs_view(local_classes@) =~= Seq::<Seq<char>>::empty());
                assert(strs_view(local_classes@).to_set() =~= cl_set);
                lemma_alias_set_least(als, self@, strs_view(local_aliases@));
                assert(strs_view(local_aliases@).to_set() == al_set);
            } else {
                lemma_closure_sets_least(
                    cs,
                    als,
                    self@,
                    strs_view(local_classes@),
                    strs_view(local_aliases@),
                );
                assert(strs_view(local_classes@).to_set() == cl_set);
                assert(strs_view(local_aliases@).to_set() == al_set);
            }
        }

        // inlined local classes
        let has_locals = local_classes.len() > 0;
        proof {
            if has_locals {
                assert(strs_view(local_classes@).contains(strs_view(local_classes@)[0]));
                assert(cl_set.contains(strs_view(local_classes@)[0]));
            } else {
                assert(strs_view(local_classes@) =~= Seq::<Seq<char>>::empty());
                assert forall|n: Seq<char>| !cl_set.contains(n) by {
                    if cl_set.contains(n) {
                        assert(strs_view(local_classes@).to_set().contains(n));
                    }
                }
            }
        }
        if inline && !matches!(self.scope, Scope::Local) && has_locals {
            content.push(String::from_str("\n\n\n---"));
            content.push(h2("Structs"));
            let parts = structs_section(
                &local_classes,
                structs,
                aliases,
                enums,
                options,
                url_root,
            );
            proof {
                assert(strs_view(local_classes@).to_set() == cl_set);
                assert(strs_view(parts@) == structs_parts(
                    cs,
                    esv,
                    als,
                    order,
                    ns,
                    ur,
                    map_keys(cs).sort_by(chars_le_rel()),
                    cl_set,
                ));
            }
            append_all(&mut content, &parts);
        }
        let ghost p6 = part_structs(cs, esv, als, order, ns, ur, inline, self@);
        proof {
            assert(strs_view(content@) =~= p0 + p1 + p2 + p3 + p4 + p5 + p6);
        }
        let ghost upto6 = strs_view(content@);

        // inlined aliases
        let has_aliases = local_aliases.len() > 0;
        proof {
            if has_aliases {
                assert(strs_view(local_aliases@).contains(strs_view(local_aliases@)[0]));
                assert(al_set.contains(strs_view(local_aliases@)[0]));
            } else {
                assert(strs_view(local_aliases@) =~= Seq::<Seq<char>>::empty());
                assert forall|n: Seq<char>| !al_set.contains(n) by {
                    if al_set.contains(n) {
                        assert(strs_view(local_aliases@).to_set().contains(n));
                    }
                }
            }
        }
        if has_aliases {
            content.push(String::from_str("\n\n\n---"));
            content.push(h2("Aliases"));
            let parts = aliases_section(
                &local_aliases,
                structs,
                aliases,
                enums,
                options,
                url_root,
            );
            proof {
                assert(strs_view(local_aliases@).to_set() == al_set);
                assert(strs_view(parts@) == aliases_parts(
                    cs,
                    esv,
                    als,
                    order,
                    ns,
                    ur,
                    map_keys(als).sort_by(chars_le_rel()),
                    al_set,
                ));
            }
            append_all(&mut content, &parts);
        }
        let ghost p7 = part_aliases(cs, esv, als, order, ns, ur, self@);
        proof {
            assert(strs_view(content@) =~= upto6 + p7);
            assert(upto6 + p7 =~= p0 + p1 + p2 + p3 + p4 + p5 + p6 + p7);
            assert(strs_view(content@) == p0 + p1 + p2 + p3 + p4 + p5 + p6 + p7);
        }

        content.push(String::from_str("\n"));
        proof {
            assert(classv_render_parts(
                cs,
                esv,
                als,
                order,
                ns,
                ur,
                render_toc,
                inline,
                self@,
            ) == p0 + p1 + p2 + p3 + p4 + p5 + p6 + p7 + seq!["\n"@]);
            assert(strs_view(content@) =~= classv_render_parts(
                cs,
                esv,
                als,
                order,
                ns,
                ur,
                render_toc,
                inline,
                self@,
            ));
        }
        join_strings(&content, "  \n")
    }
}


// ------------------------------------------------------------------
// Closure soundness at the document level: whatever the closure holds,
// the rendered document inlines.

/// Whether `needle` occurs contiguously inside `hay`.
pub open spec fn contains_seq(hay: Seq<char>, needle: Seq<char>) -> bool {
    exists|i: int|
        0 <= i && i + needle.len() <= hay.len() && #[trigger] hay.subrange(i, i + needle.len())
            == needle
}

proof fn lemma_contains_self(x: Seq<char>)
    ensures
        contains_seq(x, x),
{
    assert(x.subrange(0int, 0int + x.len()) =~= x);
}

proof fn lemma_contains_concat_left(a: Seq<char>, b: Seq<char>, x: Seq<char>)
    requires
        contains_seq(a, x),
    ensures
        contains_seq(a + b, x),
{
    let i = choose|i: int|
        0 <= i && i + x.len() <= a.len() && #[trigger] a.subrange(i, i + x.len()) == x;
    assert((a + b).subrange(i, i + x.len()) =~= a.subrange(i, i + x.len()));
}

proof fn lemma_contains_concat_right(a: Seq<char>, b: Seq<char>, x: Seq<char>)
    requires
        contains_seq(b, x),
    ensures
        contains_seq(a + b, x),
{
    let i = choose|i: int|
        0 <= i && i + x.len() <= b.len() && #[trigger] b.subrange(i, i + x.len()) == x;
    assert((a + b).subrange(a.len() + i, a.len() + i + x.len()) =~= b.subrange(i, i + x.len()));
}

/// Every joined part occurs contiguously inside the join.
proof fn lemma_join_contains(parts: Seq<Seq<char>>, sep: Seq<char>, k: int)
    requires
        0 <= k < parts.len(),
    ensures
        contains_seq(join_sv(parts, sep), parts[k]),
    decreases parts.len(),
{
    if parts.len() == 1 {
        lemma_contains_self(parts[0]);
    } else {
        if k == parts.len() - 1 {
            lemma_contains_self(parts.last());
            lemma_contains_concat_right(
                join_sv(parts.drop_last(), sep) + sep,
                parts.last(),
                parts[k],
            );
        } else {
            lemma_join_contains(parts.drop_last(), sep, k);
            assert(parts.drop_last()[k] == parts[k]);
            lemma_contains_concat_left(join_sv(parts.drop_last(), sep), sep, parts[k]);
            lemma_contains_concat_left(
                join_sv(parts.drop_last(), sep) + sep,
                parts.last(),
                parts[k],
            );
        }
    }
}

/// A closure member the table holds yields its full rendering among the
/// structs parts.
proof fn lemma_structs_parts_has(
    cs: Seq<(Seq<char>, ClassV)>,
    es: Seq<(Seq<char>, EnumV)>,
    als: Seq<(Seq<char>, AliasV)>,
    order: OutputOrder,
    ns: Seq<char>,
    url_root: Seq<char>,
    keys: Seq<Seq<char>>,
    cl: Set<Seq<char>>,
    k: int,
)
    requires
        0 <= k < keys.len(),
        cl.contains(keys[k]),
        map_has_key(cs, keys[k]),
    ensures
        structs_parts(cs, es, als, order, ns, url_root, keys, cl).contains(
            classv_render(cs, es, als, order, ns, url_root, false, false, map_lookup(
                cs,
                keys[k],
            )),
        ),
    decreases keys.len(),
{
    let whole = structs_parts(cs, es, als, order, ns, url_root, keys, cl);
    if k == keys.len() - 1 {
        let piece = classv_render(cs, es, als, order, ns, url_root, false, false, map_lookup(
            cs,
            keys[k],
        ));
        assert(whole[whole.len() - 1] == piece);
    } else {
        lemma_structs_parts_has(cs, es, als, order, ns, url_root, keys.drop_last(), cl, k);
        assert(keys.drop_last()[k] == keys[k]);
        let prev = structs_parts(cs, es, als, order, ns, url_root, keys.drop_last(), cl);
        let piece = classv_render(cs, es, als, order, ns, url_root, false, false, map_lookup(
            cs,
            keys[k],
        ));
        let j = choose|j: int| 0 <= j < prev.len() && prev[j] == piece;
        assert(whole[j] == piece);
    }
}

/// A closure alias the table holds yields its rendering among the
/// aliases parts.
proof fn lemma_aliases_parts_has(
    cs: Seq<(Seq<char>, ClassV)>,
    es: Seq<(Seq<char>, EnumV)>,
    als: Seq<(Seq<char>, AliasV)>,
    order: OutputOrder,
    ns: Seq<char>,
    url_root: Seq<char>,
    keys: Seq<Seq<char>>,
    al: Set<Seq<char>>,
    k: int,
)
    requires
        0 <= k < keys.len(),
        al.contains(keys[k]),
        map_has_key(als, keys[k]),
    ensures
        aliases_parts(cs, es, als, order, ns, url_root, keys, al).contains(
            aliasv_render(cs, es, order, ns, url_root, map_lookup(als, keys[k])),
        ),
    decreases keys.len(),
{
    let whole = aliases_parts(cs, es, als, order, ns, url_root, keys, al);
    if k == keys.len() - 1 {
        let piece = aliasv_render(cs, es, order, ns, url_root, map_lookup(als, keys[k]));
        assert(whole[whole.len() - 2] == piece);
    } else {
        lemma_aliases_parts_has(cs, es, als, order, ns, url_root, keys.drop_last(), al, k);
        assert(keys.drop_last()[k] == keys[k]);
        let prev = aliases_parts(cs, es, als, order, ns, url_root, keys.drop_last(), al);
        let piece = aliasv_render(cs, es, order, ns, url_root, map_lookup(als, keys[k]));
        let j = choose|j: int| 0 <= j < prev.len() && prev[j] == piece;
        assert(whole[j] == piece);
    }
}

/// A table key appears among the canonically sorted keys.
proof fn lemma_sorted_keys_have<T>(s: Seq<(Seq<char>, T)>, n: Seq<char>)
    requires
        map_has_key(s, n),
    ensures
        map_keys(s).sort_by(crate::order::chars_le_rel()).contains(n),
        exists|k: int| 0 <= k < map_keys(s).sort_by(crate::order::chars_le_rel()).len()
            && map_keys(s).sort_by(crate::order::chars_le_rel())[k] == n,
{
    broadcast use vstd::seq_lib::group_to_multiset_ensures;

    lemma_chars_le_total_ordering();
    map_keys(s).lemma_sort_by_ensures(crate::order::chars_le_rel());
    let i = crate::namemap::map_key_index(s, n);
    assert(map_keys(s)[i] == n);
    assert(map_keys(s).contains(n));
    assert(map_keys(s).to_multiset().contains(n));
    assert(map_keys(s).sort_by(crate::order::chars_le_rel()).to_multiset().contains(n));
    assert(map_keys(s).sort_by(crate::order::chars_le_rel()).contains(n));
}

/// Law: a non-`Local` container's document inlines, in full, every
/// class of its inline closure that the class table holds, whenever the
/// policy inlines classes at all.
#[verifier::rlimit(100)]
pub proof fn lemma_closure_class_inlined(
    cs: Seq<(Seq<char>, ClassV)>,
    es: Seq<(Seq<char>, EnumV)>,
    als: Seq<(Seq<char>, AliasV)>,
    order: OutputOrder,
    ns: Seq<char>,
    url_root: Seq<char>,
    render_toc: bool,
    c: ClassV,
    b: Seq<char>,
)
    requires
        c.scope != Scope::Local,
        policy_class_set(cs, als, order, c).contains(b),
        map_has_key(cs, b),
    ensures
        contains_seq(
            classv_render(cs, es, als, order, ns, url_root, render_toc, true, c),
            classv_render(cs, es, als, order, ns, url_root, false, false, map_lookup(cs, b)),
        ),
{
    let cl_set = policy_class_set(cs, als, order, c);
    let keys = map_keys(cs).sort_by(crate::order::chars_le_rel());
    lemma_sorted_keys_have(cs, b);
    let k = choose|k: int| 0 <= k < keys.len() && keys[k] == b;
    lemma_structs_parts_has(cs, es, als, order, ns, url_root, keys, cl_set, k);
    let piece = classv_render(cs, es, als, order, ns, url_root, false, false, map_lookup(cs, b));
    let sp = structs_parts(cs, es, als, order, ns, url_root, keys, cl_set);
    let j = choose|j: int| 0 <= j < sp.len() && sp[j] == piece;
    let parts = classv_render_parts(cs, es, als, order, ns, url_root, render_toc, true, c);
    let p6 = part_structs(cs, es, als, order, ns, url_root, true, c);
    assert(p6 == seq!["\n\n\n---"@, heading_spec("Structs"@, 2)] + sp);
    assert(p6[2 + j] == piece);
    let before = part_heading(c) + part_desc(c) + part_toc(render_toc) + part_constants(
        cs,
        es,
        order,
        ns,
        url_root,
        c,
    ) + part_fields(cs, es, order, ns, url_root, c) + part_functions(cs, es, order, ns, url_root, c);
    assert(parts[before.len() + 2 + j] == piece);
    lemma_join_contains(parts, "  \n"@, before.len() + 2 + j);
}

/// Law: a container's document inlines every alias of its inline
/// closure that the alias table holds, under either policy.
#[verifier::rlimit(100)]
pub proof fn lemma_closure_alias_inlined(
    cs: Seq<(Seq<char>, ClassV)>,
    es: Seq<(Seq<char>, EnumV)>,
    als: Seq<(Seq<char>, AliasV)>,
    order: OutputOrder,
    ns: Seq<char>,
    url_root: Seq<char>,
    render_toc: bool,
    inline: bool,
    c: ClassV,
    a: Seq<char>,
)
    requires
        policy_alias_set(cs, als, order, c).contains(a),
        map_has_key(als, a),
    ensures
        contains_seq(
            classv_render(cs, es, als, order, ns, url_root, render_toc, inline, c),
            aliasv_render(cs, es, order, ns, url_root, map_lookup(als, a)),
        ),
{
    let al_set = policy_alias_set(cs, als, order, c);
    let keys = map_keys(als).sort_by(crate::order::chars_le_rel());
    lemma_sorted_keys_have(als, a);
    let k = choose|k: int| 0 <= k < keys.len() && keys[k] == a;
    lemma_aliases_parts_has(cs, es, als, order, ns, url_root, keys, al_set, k);
    let piece = aliasv_render(cs, es, order, ns, url_root, map_lookup(als, a));
    let ap = aliases_parts(cs, es, als, order, ns, url_root, keys, al_set);
    let j = choose|j: int| 0 <= j < ap.len() && ap[j] == piece;
    let parts = classv_render_parts(cs, es, als, order, ns, url_root, render_toc, inline, c);
    let p7 = part_aliases(cs, es, als, order, ns, url_root, c);
    assert(p7 == seq!["\n\n\n---"@, heading_spec("Aliases"@, 2)] + ap);
    assert(p7[2 + j] == piece);
    let before = part_heading(c) + part_desc(c) + part_toc(render_toc) + part_constants(
        cs,
        es,
        order,
        ns,
        url_root,
        c,
    ) + part_fields(cs, es, order, ns, url_root, c) + part_functions(
        cs,
        es,
        order,
        ns,
        url_root,
        c,
    ) + part_structs(cs, es, als, order, ns, url_root, inline, c);
    assert(parts[before.len() + 2 + j] == piece);
    lemma_join_contains(parts, "  \n"@, before.len() + 2 + j);
}

} // verus!
