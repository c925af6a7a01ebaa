use luadocs::library::Library;
use luadocs::options::{Options, OutputOrder};
use luadocs::render;
use luadocs::strutil;
use luadocs::toc::TocEntry;
use luadocs::records::{Doc, Field, Type, VisibleType};
use luadocs::types::{Alias, Class, Def, Kind, LuaKind, Scope, Var, file_stem};

fn options(order: OutputOrder, namespace: &str) -> Options {
    Options {
        library: String::from("lib"),
        output: String::from("out"),
        excluded_classes: Vec::new(),
        order,
        namespace: String::from(namespace),
    }
}

fn class(name: &str, scope: Scope, file: &str) -> Class {
    Class {
        file: Some(String::from(file)),
        line_number: Some(1),
        scope,
        name: String::from(name),
        fields: Vec::new(),
        functions: Vec::new(),
        enums: Vec::new(),
        constants: Vec::new(),
        desc: String::new(),
    }
}

#[test]
fn markdown_pieces() {
    assert_eq!(render::heading("Title", 1), "# Title");
    assert_eq!(render::h2("Sub"), "## Sub");
    assert_eq!(render::file_link("x", "API/builtins/x"), "[`x`](API/builtins/x.md)");
    assert_eq!(render::class_link("C", "API/C", "C"), "[`C`](API/C.md#C)");
    assert_eq!(render::local_class_link("Inner", "Inner"), "[`Inner`](#inner)");
    assert_eq!(render::alias_link("T", "T"), "[`T`](#T)");
    assert_eq!(render::quote("a\nb"), "> a\n> b");
    assert_eq!(render::anchored("# T", "T"), "# T<a name=\"T\"></a>");
    assert_eq!(render::description("\nhello\n"), "> hello");
}

#[test]
fn string_rewriting() {
    assert_eq!(strutil::replace_all("a-b-c", "-", "+"), "a+b+c");
    assert_eq!(strutil::replace_all("aaa", "aa", "b"), "ba");
    assert_eq!(strutil::trim_newlines("\n\ntext\n"), "text");
    assert_eq!(strutil::to_lower("MiXeD"), "mixed");
    assert_eq!(file_stem("dir/archive.tar.gz"), "archive.tar");
    assert_eq!(file_stem("plain.lua"), "plain");
    assert_eq!(file_stem(".hidden"), ".hidden");
}

#[test]
fn type_links_depend_on_scope_and_policy() {
    let defs = vec![
        Def::Class(class("Gadget", Scope::Local, "g.lua")),
        Def::Class(class("app", Scope::Global, "app.lua")),
    ];
    let by_class = options(OutputOrder::ByClass, "app");
    let lib = Library::from_defs(defs, &by_class);
    let local_ref = Kind::Unresolved(String::from("Gadget"));
    let resolved = lib.resolve_kind(&local_ref);
    let link = resolved.link(&lib.classes, &lib.enums, &by_class, "../");
    assert_eq!(link, "[`Gadget`](#gadget)");
    let global_ref = lib.resolve_kind(&Kind::Unresolved(String::from("app")));
    let global_link = global_ref.link(&lib.classes, &lib.enums, &by_class, "../");
    assert_eq!(global_link, "[`app`](../API/app/app.md)");
    let nil_link = Kind::Lua(LuaKind::Nil).link(&lib.classes, &lib.enums, &by_class, "../");
    assert_eq!(nil_link, "[`nil`](../API/builtins/nil.md)");
}

#[test]
fn alias_chain_is_inlined_by_class_documents() {
    let mut a = class("A", Scope::Global, "a.lua");
    a.fields.push(Var {
        file: Some(String::from("a.lua")),
        line_number: Some(2),
        name: Some(String::from("x")),
        kind: Kind::Unresolved(String::from("T1")),
        desc: None,
    });
    let defs = vec![
        Def::Class(a),
        Def::Class(class("B", Scope::Local, "a.lua")),
        Def::Alias(Alias {
            file: Some(String::from("a.lua")),
            line_number: Some(3),
            name: String::from("T1"),
            kind: Kind::Unresolved(String::from("T2")),
            desc: None,
        }),
        Def::Alias(Alias {
            file: Some(String::from("a.lua")),
            line_number: Some(4),
            name: String::from("T2"),
            kind: Kind::Unresolved(String::from("B")),
            desc: None,
        }),
    ];
    let opts = options(OutputOrder::ByClass, "A");
    let lib = Library::from_defs(defs, &opts);
    let a = lib.classes.get("A").expect("A container");
    let doc = a.render(&lib.classes, &lib.aliases, &lib.enums, &opts, "../", true);
    assert!(doc.contains("## Structs"));
    assert!(doc.contains("# B<a name=\"B\"></a>"));
    assert!(doc.contains("## Aliases"));
    assert!(doc.contains("### T1<a name=\"T1\"></a>"));
    assert!(doc.contains("### T2<a name=\"T2\"></a>"));
}

#[test]
fn documents_deduplicate_names_case_insensitively() {
    let defs = vec![
        Def::Class(class("Foo", Scope::Global, "Foo.lua")),
        Def::Class(class("foo", Scope::Global, "foo.lua")),
    ];
    let opts = options(OutputOrder::ByFile, "");
    let lib = Library::from_defs(defs, &opts);
    let docs = lib.export_docs(&opts);
    let foos: Vec<&(String, String)> =
        docs.iter().filter(|d| d.0.to_lowercase() == "foo").collect();
    assert_eq!(foos.len(), 1);
    // of the two colliding documents, the later-assembled one survives
    assert_eq!(foos[0].0, "foo");
}

#[test]
fn documents_come_out_in_the_fixed_order() {
    let defs = vec![
        Def::Class(class("global", Scope::Global, "zzz.lua")),
        Def::Class(class("alpha", Scope::Global, "alpha.lua")),
        Def::Class(class("os", Scope::Modules, "os.lua")),
    ];
    let opts = options(OutputOrder::ByFile, "");
    let lib = Library::from_defs(defs, &opts);
    let docs = lib.export_docs(&opts);
    assert!(docs.len() > 3);
    assert_eq!(docs[0].0, "alpha");
    assert_eq!(docs[1].0, "zzz");
    let modules_at = docs.iter().position(|d| d.0 == "modules").expect("modules section");
    let builtins_at = docs.iter().position(|d| d.0 == "builtins").expect("builtins section");
    assert!(modules_at < builtins_at);
    assert_eq!(docs[docs.len() - 1].0, "builtins/userdata");
}

#[test]
fn builtin_types_render_as_their_own_documents() {
    let builtins = Library::builtin_classes();
    assert_eq!(builtins.len(), 12);
    assert_eq!(builtins[0].name, "self");
    assert_eq!(builtins[11].name, "unknown");
    assert!(builtins.iter().all(|c| matches!(c.scope, Scope::Builtins)));
}

#[test]
fn toc_entries() {
    let opts = options(OutputOrder::ByFile, "");
    let builtins = TocEntry::from("builtins", &opts);
    assert_eq!(builtins.link, "  - [Builtin Types](API/builtins.md)");
    assert_eq!(builtins.file_name, "builtins");
    assert_eq!(builtins.file_path, "");
    let nested = TocEntry::from("modules/os", &opts);
    assert_eq!(nested.link, "    - [os](API/modules/os.md)");
    assert_eq!(nested.file_path, "modules/");
    assert_eq!(nested.file_name, "os");
    let ns = options(OutputOrder::ByClass, "app");
    let root = TocEntry::from("app", &ns);
    assert_eq!(root.link, "  - [app](API/app.md)");
    let child = TocEntry::from("app.ui", &ns);
    assert_eq!(child.link, "    - [ui](API/app/app.ui.md)");
    let globals = TocEntry::from("global", &opts);
    assert_eq!(globals.link, "  - [Globals](API/global.md)");
}

#[test]
fn toc_splicing_replaces_the_marked_lines() {
    let lines = vec![
        String::from("intro"),
        String::from("<!-- API TOC START -->"),
        String::from("old"),
        String::from("<!-- API TOC END -->"),
        String::from("outro"),
    ];
    let links = vec![String::from("- [a](API/a.md)")];
    let spliced = luadocs::toc::splice_lines(&lines, 1, 3, &links);
    assert_eq!(spliced.len(), 5);
    assert_eq!(spliced[0], "intro");
    assert_eq!(spliced[1], "<!-- API TOC START -->");
    assert_eq!(spliced[2], "- [a](API/a.md)");
    assert_eq!(spliced[3], "<!-- API TOC END -->");
    assert_eq!(spliced[4], "outro");
}

#[test]
fn record_fields_classify_as_fields_or_methods() {
    let field = Field {
        desc: None,
        rawdesc: None,
        name: String::from("x"),
        lua_type: Type::Doc(Doc::Field),
        file: String::from("a.lua"),
        start: 1,
        finish: 2,
        visible: VisibleType::Public,
        extends: None,
    };
    assert!(field.is_field());
    assert!(!field.is_function());
    let method = Field { lua_type: Type::SetMethod, ..field.clone() };
    assert!(method.is_function());
    assert!(!method.is_field());
    let plain_set = Field { lua_type: Type::SetField, ..field };
    assert!(plain_set.is_field());
}

#[test]
fn records_become_definitions() {
    let class_record = luadocs::records::Definition {
        lua_type: Type::Doc(Doc::Class),
        name: String::from("Gadget"),
        desc: Some(String::from("a gadget")),
        rawdesc: None,
        defines: vec![luadocs::records::Define {
            lua_type: Type::Doc(Doc::Class),
            file: String::from("file://g.lua"),
            start: 3,
            finish: 9,
            extends: None,
        }],
        fields: vec![Field {
            desc: None,
            rawdesc: None,
            name: String::from("size"),
            lua_type: Type::Doc(Doc::Field),
            file: String::from("file://g.lua"),
            start: 4,
            finish: 4,
            visible: VisibleType::Public,
            extends: Some(luadocs::records::Extend {
                lua_type: Type::Lua(LuaKind::Integer),
                types: None,
                start: 4,
                finish: 4,
                view_text: String::from("integer"),
                desc: None,
                rawdesc: None,
                args: Vec::new(),
                returns: Vec::new(),
            }),
        }],
    };
    let defs = luadocs::records::defs_of_records(&vec![class_record], "");
    assert_eq!(defs.len(), 1);
    match &defs[0] {
        Def::Class(c) => {
            assert_eq!(c.name, "Gadget");
            assert_eq!(c.file.as_deref(), Some("g.lua"));
            assert_eq!(c.fields.len(), 1);
            assert_eq!(c.fields[0].name.as_deref(), Some("size"));
            assert!(matches!(c.scope, Scope::Local));
        },
        other => panic!("expected a class definition, got {:?}", other),
    }
}
