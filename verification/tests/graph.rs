use luadocs::library::Library;
use luadocs::options::{Options, OutputOrder, Error};
use luadocs::types::{Alias, Class, Def, Enum, Function, Kind, LuaKind, Scope, Var};

fn options(order: OutputOrder, namespace: &str) -> Options {
    Options {
        library: String::from("lib"),
        output: String::from("out"),
        excluded_classes: Vec::new(),
        order,
        namespace: String::from(namespace),
    }
}

fn var(name: &str, kind: Kind) -> Var {
    Var {
        file: Some(String::from("a.lua")),
        line_number: Some(1),
        name: Some(String::from(name)),
        kind,
        desc: None,
    }
}

fn class(name: &str, scope: Scope, file: &str, fields: Vec<Var>) -> Class {
    Class {
        file: Some(String::from(file)),
        line_number: Some(1),
        scope,
        name: String::from(name),
        fields,
        functions: Vec::new(),
        enums: Vec::new(),
        constants: Vec::new(),
        desc: String::new(),
    }
}

fn alias(name: &str, kind: Kind) -> Alias {
    Alias {
        file: Some(String::from("a.lua")),
        line_number: Some(2),
        name: String::from(name),
        kind,
        desc: None,
    }
}

fn function(name: &str, file: &str, line: u32) -> Function {
    Function {
        file: Some(String::from(file)),
        line_number: Some(line),
        name: Some(String::from(name)),
        params: Vec::new(),
        returns: Vec::new(),
        desc: None,
    }
}

#[test]
fn resolves_names_against_the_tables() {
    let defs = vec![
        Def::Class(class("A", Scope::Global, "a.lua", Vec::new())),
        Def::Alias(alias("T", Kind::Lua(LuaKind::Number))),
    ];
    let lib = Library::from_defs(defs, &options(OutputOrder::ByFile, ""));
    let resolved = lib.resolve_kind(&Kind::Unresolved(String::from("A")));
    assert_eq!(resolved.show(), "Class(A)");
    let resolved_alias = lib.resolve_kind(&Kind::Unresolved(String::from("T")));
    assert_eq!(resolved_alias.show(), "Alias(T)");
    let unknown = lib.resolve_kind(&Kind::Unresolved(String::from("Nope")));
    assert_eq!(unknown.show(), "Unresolved(Nope)");
}

#[test]
fn resolving_twice_changes_nothing() {
    let defs = vec![
        Def::Class(class("A", Scope::Global, "a.lua", Vec::new())),
        Def::Enum(Enum {
            file: Some(String::from("a.lua")),
            line_number: Some(3),
            name: String::from("A.Mode"),
            desc: String::from("`1`, `2`"),
        }),
    ];
    let lib = Library::from_defs(defs, &options(OutputOrder::ByFile, ""));
    let once = lib.resolve_kind(&Kind::Array(Box::new(Kind::Unresolved(String::from("A")))));
    let twice = lib.resolve_kind(&once);
    assert_eq!(once.show(), twice.show());
}

#[test]
fn synthesized_global_container_for_orphan_function() {
    let defs = vec![Def::Function(function("Foo.bar", "a.lua", 7))];
    let lib = Library::from_defs(defs, &options(OutputOrder::ByFile, ""));
    let container = lib.classes.get("a globals").expect("container for a.lua");
    assert_eq!(container.name, "a globals");
    assert!(matches!(container.scope, Scope::Local));
    assert_eq!(container.functions.len(), 1);
    assert_eq!(container.functions[0].name.as_deref(), Some("bar"));
}

#[test]
fn orphan_enum_joins_its_existing_container() {
    let defs = vec![
        Def::Class(class("Foo", Scope::Global, "a.lua", Vec::new())),
        Def::Enum(Enum {
            file: Some(String::from("a.lua")),
            line_number: Some(4),
            name: String::from("Foo.Mode"),
            desc: String::from("`a`, `b`"),
        }),
    ];
    let lib = Library::from_defs(defs, &options(OutputOrder::ByFile, ""));
    let container = lib.classes.get("Foo").expect("Foo container");
    assert_eq!(container.enums.len(), 1);
    assert_eq!(container.enums[0].name, "Mode");
}

#[test]
fn constants_are_extracted_from_fields() {
    let fields = vec![
        var("MAX_SIZE", Kind::Lua(LuaKind::Number)),
        var("size", Kind::Lua(LuaKind::Number)),
    ];
    let defs = vec![Def::Class(class("X", Scope::Global, "x.lua", fields))];
    let lib = Library::from_defs(defs, &options(OutputOrder::ByFile, ""));
    let x = lib.classes.get("X").expect("X container");
    assert_eq!(x.constants.len(), 1);
    assert_eq!(x.constants[0].name.as_deref(), Some("MAX_SIZE"));
    assert_eq!(x.fields.len(), 1);
    assert_eq!(x.fields[0].name.as_deref(), Some("size"));
}

#[test]
fn duplicate_members_are_dropped() {
    let mut c = class("X", Scope::Global, "x.lua", Vec::new());
    c.functions.push(function("X.go", "x.lua", 3));
    c.functions.push(function("X.go", "x.lua", 3));
    let lib = Library::from_defs(vec![Def::Class(c)], &options(OutputOrder::ByFile, ""));
    let x = lib.classes.get("X").expect("X container");
    assert_eq!(x.functions.len(), 1);
}

#[test]
fn members_sort_by_file_then_line() {
    let mut c = class("X", Scope::Global, "x.lua", Vec::new());
    c.functions.push(function("b", "x.lua", 9));
    c.functions.push(function("a", "x.lua", 2));
    c.functions.push(function("c", "w.lua", 5));
    let lib = Library::from_defs(vec![Def::Class(c)], &options(OutputOrder::ByFile, ""));
    let x = lib.classes.get("X").expect("X container");
    let names: Vec<&str> = x.functions.iter().map(|f| f.name.as_deref().unwrap()).collect();
    assert_eq!(names, vec!["c", "a", "b"]);
}

#[test]
fn excluded_containers_are_dropped() {
    let defs = vec![
        Def::Class(class("Keep", Scope::Global, "a.lua", Vec::new())),
        Def::Class(class("Drop", Scope::Global, "a.lua", Vec::new())),
    ];
    let mut opts = options(OutputOrder::ByFile, "");
    opts.excluded_classes.push(String::from("Drop"));
    let lib = Library::from_defs(defs, &opts);
    assert!(lib.classes.get("Keep").is_some());
    assert!(lib.classes.get("Drop").is_none());
}

#[test]
fn local_closure_follows_alias_chains() {
    let defs = vec![
        Def::Class(class(
            "A",
            Scope::Global,
            "a.lua",
            vec![var("x", Kind::Unresolved(String::from("T1")))],
        )),
        Def::Class(class("B", Scope::Local, "a.lua", Vec::new())),
        Def::Alias(alias("T1", Kind::Unresolved(String::from("T2")))),
        Def::Alias(alias("T2", Kind::Unresolved(String::from("B")))),
    ];
    let lib = Library::from_defs(defs, &options(OutputOrder::ByClass, "A"));
    let a = lib.classes.get("A").expect("A container").clone();
    let (local_classes, local_aliases) = a.collect_local_types(&lib.classes, &lib.aliases);
    assert!(local_classes.iter().any(|n| n == "B"));
    assert!(local_aliases.iter().any(|n| n == "T1"));
    assert!(local_aliases.iter().any(|n| n == "T2"));
    assert_eq!(local_classes.len(), 1);
    assert_eq!(local_aliases.len(), 2);
}

#[test]
fn pipeline_output_ignores_input_order() {
    let a = Def::Class(class("A", Scope::Global, "a.lua", Vec::new()));
    let b = Def::Class(class("B", Scope::Global, "b.lua", Vec::new()));
    let mut c1 = class("X", Scope::Global, "x.lua", Vec::new());
    c1.functions.push(function("f", "x.lua", 4));
    c1.functions.push(function("g", "x.lua", 1));
    let mut c2 = class("X", Scope::Global, "x.lua", Vec::new());
    c2.functions.push(function("g", "x.lua", 1));
    c2.functions.push(function("f", "x.lua", 4));
    let opts = options(OutputOrder::ByFile, "");
    let lib1 = Library::from_defs(vec![a.clone(), b.clone(), Def::Class(c1)], &opts);
    let lib2 = Library::from_defs(vec![b, a, Def::Class(c2)], &opts);
    let docs1 = lib1.export_docs(&opts);
    let docs2 = lib2.export_docs(&opts);
    assert_eq!(docs1.len(), docs2.len());
    for (d1, d2) in docs1.iter().zip(docs2.iter()) {
        assert_eq!(d1.0, d2.0);
        assert_eq!(d1.1, d2.1);
    }
}

#[test]
fn validation_rejects_by_class_without_namespace() {
    let bad = options(OutputOrder::ByClass, "");
    match bad.validate() {
        Err(Error::Options(msg)) => {
            assert!(msg.contains("namespace"));
        },
        Ok(()) => panic!("expected the namespace rule to fire"),
    }
    let good = options(OutputOrder::ByClass, "A");
    assert!(good.validate().is_ok());
    let default_ok = options(OutputOrder::ByFile, "");
    assert!(default_ok.validate().is_ok());
}

#[test]
fn constant_style_names() {
    let c = var("MAX_SIZE", Kind::Lua(LuaKind::Number));
    assert!(c.is_constant());
    let f = var("size", Kind::Lua(LuaKind::Number));
    assert!(!f.is_constant());
    let underscore = var("_", Kind::Lua(LuaKind::Number));
    assert!(underscore.is_constant());
    assert!(f.is_not_constant());
}

#[test]
fn dotted_name_parts() {
    assert_eq!(Class::get_base("Foo.bar.baz").as_deref(), Some("Foo.bar"));
    assert_eq!(Class::get_end("Foo.bar.baz").as_deref(), Some("baz"));
    assert!(Class::get_base("bare").is_none());
    assert!(Class::get_end("bare").is_none());
}

#[test]
fn scopes_from_names() {
    assert!(matches!(Scope::from_name("global", ""), Scope::Global));
    assert!(matches!(Scope::from_name("math", ""), Scope::Modules));
    assert!(matches!(Scope::from_name("Thing", ""), Scope::Local));
    assert!(matches!(Scope::from_name("app.ui", "app"), Scope::Global));
    assert!(matches!(Scope::from_name("global", "app"), Scope::Modules));
    assert!(matches!(Scope::from_name("Thing", "app"), Scope::Local));
}

#[test]
fn namespace_membership() {
    assert!(Class::belongs_to_namespace("app", "app"));
    assert!(Class::belongs_to_namespace("app.ui", "app"));
    assert!(!Class::belongs_to_namespace("apps", "app"));
    assert!(!Class::belongs_to_namespace("app", ""));
}

#[test]
fn function_signatures_identify_members() {
    let f = function("Foo.bar", "x.lua", 1);
    assert_eq!(f.show(), "Function Foo.bar()");
    let stripped = f.strip_base();
    assert_eq!(stripped.show(), "Function bar()");
    let mut g = function("go", "x.lua", 1);
    g.params.push(var("n", Kind::Lua(LuaKind::Integer)));
    g.returns.push(Var {
        file: None,
        line_number: None,
        name: None,
        kind: Kind::Lua(LuaKind::Boolean),
        desc: None,
    });
    assert_eq!(g.show(), "Function go(n : integer) -> boolean");
}

#[test]
fn unresolved_leaves_are_reported() {
    let k = Kind::Array(Box::new(Kind::Unresolved(String::from("Mystery"))));
    assert!(k.has_unresolved());
    let l = Kind::Array(Box::new(Kind::Lua(LuaKind::Nil)));
    assert!(!l.has_unresolved());
    let c = class("X", Scope::Global, "x.lua", vec![var("x", k)]);
    assert!(c.has_unresolved());
    assert!(!c.is_empty());
    let empty = class("Y", Scope::Global, "y.lua", Vec::new());
    assert!(empty.is_empty());
}
