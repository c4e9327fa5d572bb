use pack_template::document::parse_document;
use pack_template::loader::{
    entry_node, loader_from_name, module_node, provider_from_name, read_entries, read_entry, read_module,
};
use pack_template::{
    EnableModules, Invocation, Key, LoadError, ModEntry, ModEntryType, ModLoader, ModProvider,
    ModloaderConfig, Module, ModuleImport, Node, PackConfig, PackwizWrapper, ParseError, Template,
    TemplateInfo,
};

fn st(text: &str) -> String {
    text.to_string()
}

fn text(value: &str) -> Node {
    Node::Str(st(value))
}

fn table(entries: Vec<(&str, Node)>) -> Node {
    Node::Table(entries.into_iter().map(|(k, v)| (text(k), v)).collect())
}

fn list(items: Vec<Node>) -> Node {
    Node::List(items)
}

fn minimal_root(extra: Vec<(&'static str, Node)>) -> Node {
    let mut entries = vec![
        ("name", text("My Pack")),
        ("provider", text("modrinth")),
        ("loader", text("fabric")),
        ("mc_version", text("1.20.1")),
        ("modules", table(vec![])),
    ];
    entries.extend(extra);
    table(entries)
}

fn without(root: Node, key: &str) -> Node {
    match root {
        Node::Table(entries) => {
            Node::Table(entries.into_iter().filter(|(k, _)| *k != text(key)).collect())
        }
        other => other,
    }
}

fn with(root: Node, key: &str, value: Node) -> Node {
    match without(root, key) {
        Node::Table(mut entries) => {
            entries.push((text(key), value));
            Node::Table(entries)
        }
        other => other,
    }
}

const FULL: &str = "
name: My Pack
desc: A pack for testing
author: me
version: 1.0.0
provider: modrinth
loader: fabric
mc_version: 1.20.1
imports:
  shared: ../shared.packtemplate
enable_modules:
  - core
  - extras
modules:
  core:
    name: Core
    desc: what every pack needs
    mods:
      - sodium
      - type: single
        id: lithium
        provider: curseforge
        desc: faster
      - type: list
        id: libs
        mods: [fabric-api, cloth-config]
      - type: pick
        id: maps
        mods:
          - xaero
          - journeymap
  extras:
    from: core
    picks:
      core: [sodium, libs]
    append_mods: true
    name: Extras
    mods: []
";

#[test]
fn a_full_document_loads_into_the_model() {
    let template = Template::load_from_str(FULL).unwrap();
    let core = Module {
        import: None,
        display_name: st("Core"),
        desc: Some(st("what every pack needs")),
        mods: vec![
            ModEntry::Simple(st("sodium")),
            ModEntry::Advance {
                ty: ModEntryType::Single,
                id: st("lithium"),
                provider: Some(ModProvider::Curseforge),
                desc: Some(st("faster")),
            },
            ModEntry::Advance {
                ty: ModEntryType::List { mods: vec![st("fabric-api"), st("cloth-config")] },
                id: st("libs"),
                provider: None,
                desc: None,
            },
            ModEntry::Advance {
                ty: ModEntryType::Pick { mods: vec![st("xaero"), st("journeymap")] },
                id: st("maps"),
                provider: None,
                desc: None,
            },
        ],
    };
    let extras = Module {
        import: Some(ModuleImport {
            import: st("core"),
            picks: Some(vec![(st("core"), vec![st("sodium"), st("libs")])]),
            append_mods: Some(true),
        }),
        display_name: st("Extras"),
        desc: None,
        mods: vec![],
    };
    assert_eq!(
        template,
        Template {
            info: TemplateInfo {
                name: st("My Pack"),
                desc: Some(st("A pack for testing")),
                author: Some(st("me")),
                version: Some(st("1.0.0")),
                provider: ModProvider::Modrinth,
                modloader: ModLoader::Fabric,
                mc_version: st("1.20.1"),
            },
            imports: Some(vec![(st("shared"), st("../shared.packtemplate"))]),
            enable_modules: Some(EnableModules::List(vec![st("core"), st("extras")])),
            modules: vec![(st("core"), core), (st("extras"), extras)],
        }
    );
}

#[test]
fn modules_keep_their_declared_order() {
    let text = "
name: P
provider: curseforge
loader: quilt
mc_version: '1.20'
enable_modules: all
modules:
  zeta: {name: Z, mods: []}
  alpha: {name: A, mods: []}
  mid: {name: M, mods: []}
";
    let template = Template::load_from_str(text).unwrap();
    let ids: Vec<&str> = template.modules.iter().map(|(id, _)| id.as_str()).collect();
    assert_eq!(ids, vec!["zeta", "alpha", "mid"]);
    assert_eq!(template.enable_modules, Some(EnableModules::All));
    assert_eq!(template.info.provider, ModProvider::Curseforge);
    assert_eq!(template.info.modloader, ModLoader::Quilt);
    assert_eq!(template.info.mc_version, "1.20");
    assert_eq!(template.imports, None);
}

#[test]
fn loaded_template_yields_the_requests_of_its_module_in_order() {
    let text = "
name: Fast
provider: modrinth
loader: fabric
mc_version: 1.20.1
enable_modules: all
modules:
  core:
    name: Core
    mods: [sodium, lithium]
";
    let template = Template::load_from_str(text).unwrap();
    let config = PackConfig {
        path: st("out"),
        template: None,
        name: None,
        author: None,
        mc_version: None,
        version: None,
        modloader: ModloaderConfig { ty: None, version: None },
        yes: false,
    };
    let plan = PackwizWrapper::new(st("out")).plan(&template, &config, &vec![], &vec![], false);
    let run = |args: &[&str]| Invocation { dir: st("out"), args: args.iter().map(|a| st(a)).collect() };
    assert_eq!(
        plan,
        Ok(vec![
            run(&["init", "--name", "Fast", "--mc-version", "1.20.1"]),
            run(&["add", "modrinth", "sodium"]),
            run(&["add", "modrinth", "lithium"]),
        ])
    );
}

#[test]
fn loaded_entry_override_changes_the_provider_of_that_entry_only() {
    let text = "
name: Fast
provider: modrinth
loader: fabric
mc_version: 1.20.1
enable_modules: all
modules:
  core:
    name: Core
    mods:
      - {type: single, id: sodium, provider: curseforge}
      - lithium
";
    let template = Template::load_from_str(text).unwrap();
    let config = PackConfig {
        path: st("out"),
        template: None,
        name: None,
        author: None,
        mc_version: None,
        version: None,
        modloader: ModloaderConfig { ty: None, version: None },
        yes: false,
    };
    let plan = PackwizWrapper::new(st("out"))
        .plan(&template, &config, &vec![], &vec![], true)
        .unwrap();
    let args: Vec<Vec<String>> = plan.into_iter().map(|run| run.args).collect();
    assert_eq!(
        args,
        vec![
            vec![st("add"), st("curseforge"), st("sodium")],
            vec![st("add"), st("modrinth"), st("lithium")],
        ]
    );
}

#[test]
fn text_that_is_no_document_is_a_syntax_error() {
    match Template::load_from_str("name: [unclosed") {
        Err(ParseError::Syntax(message)) => assert!(!message.is_empty()),
        other => panic!("unexpected: {:?}", other),
    }
}

#[test]
fn document_that_is_no_mapping_is_malformed_at_the_root() {
    assert_eq!(Template::load_from_str("- a\n- b\n"), Err(ParseError::Malformed(Key::Root)));
    assert_eq!(Template::load_from_str("just text"), Err(ParseError::Malformed(Key::Root)));
    assert_eq!(Template::from_node(&Node::Null), Err(ParseError::Malformed(Key::Root)));
}

#[test]
fn parser_keeps_kinds_and_order() {
    let node = parse_document("a: 1\nb: true\nc: ~\nd: [x, 2.5]\ne: {k: v}\n").unwrap();
    assert_eq!(
        node,
        Node::Table(vec![
            (text("a"), Node::Number(st("1"))),
            (text("b"), Node::Bool(true)),
            (text("c"), Node::Null),
            (text("d"), Node::List(vec![text("x"), Node::Number(st("2.5"))])),
            (text("e"), Node::Table(vec![(text("k"), text("v"))])),
        ])
    );
    assert_eq!(parse_document("plain"), Ok(text("plain")));
    assert_eq!(
        parse_document("!thing x"),
        Ok(Node::Tagged(st("!thing"), Box::new(text("x"))))
    );
    assert!(parse_document("a: b: c: [").is_err());
}

#[test]
fn minimal_document_loads() {
    let template = Template::from_node(&minimal_root(vec![])).unwrap();
    assert_eq!(template.info.name, "My Pack");
    assert_eq!(template.info.desc, None);
    assert_eq!(template.enable_modules, None);
    assert_eq!(template.modules, vec![]);
}

#[test]
fn each_required_field_is_missed() {
    let cases = [
        ("name", Key::Name),
        ("provider", Key::Provider),
        ("loader", Key::Loader),
        ("mc_version", Key::McVersion),
        ("modules", Key::Modules),
    ];
    for (key, which) in cases {
        let root = without(minimal_root(vec![]), key);
        assert_eq!(Template::from_node(&root), Err(ParseError::Missing(which)));
        let root = with(minimal_root(vec![]), key, Node::Null);
        assert_eq!(Template::from_node(&root), Err(ParseError::Missing(which)));
    }
}

#[test]
fn fields_of_the_wrong_kind_are_malformed() {
    let cases = [
        ("name", Node::Number(st("1")), Key::Name),
        ("desc", Node::Bool(true), Key::Desc),
        ("author", list(vec![]), Key::Author),
        ("version", Node::Number(st("1.0")), Key::Version),
        ("provider", text("github"), Key::Provider),
        ("provider", Node::Bool(false), Key::Provider),
        ("loader", text("Fabric"), Key::Loader),
        ("mc_version", Node::Number(st("1.2")), Key::McVersion),
        ("imports", list(vec![]), Key::Imports),
        ("imports", table(vec![("a", Node::Number(st("1")))]), Key::Imports),
        ("enable_modules", text("some"), Key::EnableModules),
        ("enable_modules", Node::Bool(true), Key::EnableModules),
        ("enable_modules", list(vec![text("a"), Node::Null]), Key::EnableModules),
        ("modules", list(vec![]), Key::Modules),
        ("modules", Node::Table(vec![(Node::Number(st("1")), table(vec![]))]), Key::Modules),
        ("modules", table(vec![("m", text("x"))]), Key::Module),
    ];
    for (key, value, which) in cases {
        let root = with(minimal_root(vec![]), key, value);
        assert_eq!(Template::from_node(&root), Err(ParseError::Malformed(which)), "{}", key);
    }
}

#[test]
fn the_first_fault_in_schema_order_is_reported() {
    let root = with(without(minimal_root(vec![]), "name"), "provider", text("nope"));
    assert_eq!(Template::from_node(&root), Err(ParseError::Missing(Key::Name)));
}

#[test]
fn unknown_keys_are_passed_over_and_first_key_wins() {
    let root = minimal_root(vec![("comment", text("hello")), ("name", text("Second"))]);
    let template = Template::from_node(&root).unwrap();
    assert_eq!(template.info.name, "My Pack");
}

#[test]
fn module_faults_are_reported() {
    let module = |entries: Vec<(&'static str, Node)>| read_module(&table(entries));
    assert_eq!(module(vec![("mods", list(vec![]))]), Err(ParseError::Missing(Key::ModuleName)));
    assert_eq!(module(vec![("name", text("M"))]), Err(ParseError::Missing(Key::Mods)));
    assert_eq!(
        module(vec![("name", text("M")), ("mods", text("x"))]),
        Err(ParseError::Malformed(Key::Mods))
    );
    assert_eq!(
        module(vec![("name", Node::Bool(true)), ("mods", list(vec![]))]),
        Err(ParseError::Malformed(Key::ModuleName))
    );
    assert_eq!(
        module(vec![("name", text("M")), ("desc", list(vec![])), ("mods", list(vec![]))]),
        Err(ParseError::Malformed(Key::ModuleDesc))
    );
    assert_eq!(
        module(vec![("from", Node::Number(st("3"))), ("name", text("M")), ("mods", list(vec![]))]),
        Err(ParseError::Malformed(Key::From))
    );
    assert_eq!(
        module(vec![("from", text("a")), ("picks", text("b")), ("name", text("M")), ("mods", list(vec![]))]),
        Err(ParseError::Malformed(Key::Picks))
    );
    assert_eq!(
        module(vec![
            ("from", text("a")),
            ("picks", table(vec![("a", text("not a list"))])),
            ("name", text("M")),
            ("mods", list(vec![])),
        ]),
        Err(ParseError::Malformed(Key::Picks))
    );
    assert_eq!(
        module(vec![
            ("from", text("a")),
            ("append_mods", text("true")),
            ("name", text("M")),
            ("mods", list(vec![])),
        ]),
        Err(ParseError::Malformed(Key::AppendMods))
    );
    assert_eq!(read_module(&text("m")), Err(ParseError::Malformed(Key::Module)));
}

#[test]
fn picks_and_append_count_only_with_a_source() {
    let module = read_module(&table(vec![
        ("picks", table(vec![("a", list(vec![text("x")]))])),
        ("append_mods", Node::Bool(true)),
        ("name", text("M")),
        ("mods", list(vec![text("sodium")])),
    ]))
    .unwrap();
    assert_eq!(module.import, None);
    let module = read_module(&table(vec![
        ("from", text("a")),
        ("append_mods", Node::Bool(false)),
        ("name", text("M")),
        ("mods", list(vec![])),
    ]))
    .unwrap();
    assert_eq!(
        module.import,
        Some(ModuleImport { import: st("a"), picks: None, append_mods: Some(false) })
    );
}

#[test]
fn entry_faults_are_reported() {
    assert_eq!(read_entry(&Node::Number(st("5"))), Err(ParseError::Malformed(Key::Entry)));
    assert_eq!(read_entry(&table(vec![("id", text("a"))])), Err(ParseError::Missing(Key::EntryType)));
    assert_eq!(
        read_entry(&table(vec![("type", text("bundle")), ("id", text("a"))])),
        Err(ParseError::Malformed(Key::EntryType))
    );
    assert_eq!(
        read_entry(&table(vec![("type", Node::Bool(true)), ("id", text("a"))])),
        Err(ParseError::Malformed(Key::EntryType))
    );
    assert_eq!(read_entry(&table(vec![("type", text("single"))])), Err(ParseError::Missing(Key::EntryId)));
    assert_eq!(
        read_entry(&table(vec![("type", text("single")), ("id", list(vec![]))])),
        Err(ParseError::Malformed(Key::EntryId))
    );
    assert_eq!(
        read_entry(&table(vec![("type", text("list")), ("id", text("a"))])),
        Err(ParseError::Missing(Key::EntryMods))
    );
    assert_eq!(
        read_entry(&table(vec![("type", text("pick")), ("id", text("a")), ("mods", text("x"))])),
        Err(ParseError::Malformed(Key::EntryMods))
    );
    assert_eq!(
        read_entry(&table(vec![
            ("type", text("pick")),
            ("id", text("a")),
            ("mods", list(vec![text("x"), Node::Number(st("1"))])),
        ])),
        Err(ParseError::Malformed(Key::EntryMods))
    );
    assert_eq!(
        read_entry(&table(vec![("type", text("single")), ("id", text("a")), ("provider", text("x"))])),
        Err(ParseError::Malformed(Key::EntryProvider))
    );
    assert_eq!(
        read_entry(&table(vec![("type", text("single")), ("id", text("a")), ("desc", Node::Bool(true))])),
        Err(ParseError::Malformed(Key::EntryDesc))
    );
}

#[test]
fn single_entry_ignores_a_mods_list() {
    assert_eq!(
        read_entry(&table(vec![
            ("type", text("single")),
            ("id", text("a")),
            ("mods", list(vec![text("x")])),
        ])),
        Ok(ModEntry::Advance { ty: ModEntryType::Single, id: st("a"), provider: None, desc: None })
    );
}

#[test]
fn entries_are_read_in_order_and_the_first_fault_wins() {
    assert_eq!(
        read_entries(&vec![text("a"), text("b")]),
        Ok(vec![ModEntry::Simple(st("a")), ModEntry::Simple(st("b"))])
    );
    assert_eq!(
        read_entries(&vec![text("a"), Node::Null, table(vec![])]),
        Err(ParseError::Malformed(Key::Entry))
    );
    assert_eq!(read_entries(&vec![]), Ok(vec![]));
}

#[test]
fn names_are_read_back_into_providers_and_loaders() {
    for provider in [ModProvider::Curseforge, ModProvider::Modrinth] {
        assert_eq!(provider_from_name(&st(provider.as_str())), Some(provider));
    }
    for loader in ModLoader::iter() {
        assert_eq!(loader_from_name(&st(loader.as_str())), Some(loader));
    }
    assert_eq!(provider_from_name(&st("Modrinth")), None);
    assert_eq!(loader_from_name(&st("")), None);
}

#[test]
fn written_and_read_again_a_template_is_what_it_was() {
    let template = Template::load_from_str(FULL).unwrap();
    let node = template.to_node();
    assert_eq!(Template::from_node(&node), Ok(template));
}

#[test]
fn a_document_in_schema_order_is_written_as_it_was_read() {
    let text = "
name: My Pack
desc: A pack
provider: modrinth
loader: fabric
mc_version: 1.20.1
enable_modules: all
modules:
  core:
    name: Core
    mods:
      - sodium
      - {type: list, mods: [a, b], id: libs, provider: curseforge}
  extras:
    from: core
    picks: {core: [sodium]}
    append_mods: false
    name: Extras
    desc: more
    mods: []
";
    let node = parse_document(text).unwrap();
    let template = Template::from_node(&node).unwrap();
    assert_eq!(template.to_node(), node);
}

#[test]
fn absent_fields_are_not_written() {
    let template = Template::from_node(&minimal_root(vec![])).unwrap();
    assert_eq!(template.to_node(), minimal_root(vec![]));
    let module = Module { import: None, display_name: st("M"), desc: None, mods: vec![] };
    assert_eq!(
        module_node(&module),
        table(vec![("name", text("M")), ("mods", list(vec![]))])
    );
}

#[test]
fn entries_are_written_with_what_they_hold() {
    assert_eq!(entry_node(&ModEntry::Simple(st("sodium"))), text("sodium"));
    let entry = ModEntry::Advance {
        ty: ModEntryType::Pick { mods: vec![st("x"), st("y")] },
        id: st("maps"),
        provider: Some(ModProvider::Modrinth),
        desc: Some(st("pick one")),
    };
    let node = entry_node(&entry);
    assert_eq!(
        node,
        table(vec![
            ("type", text("pick")),
            ("mods", list(vec![text("x"), text("y")])),
            ("id", text("maps")),
            ("provider", text("modrinth")),
            ("desc", text("pick one")),
        ])
    );
    assert_eq!(read_entry(&node), Ok(entry));
    let single = ModEntry::Advance { ty: ModEntryType::Single, id: st("a"), provider: None, desc: None };
    assert_eq!(entry_node(&single), table(vec![("type", text("single")), ("id", text("a"))]));
    assert_eq!(read_entry(&entry_node(&single)), Ok(single));
}

#[test]
fn every_directive_survives_the_round_trip() {
    for directive in [
        None,
        Some(EnableModules::All),
        Some(EnableModules::List(vec![])),
        Some(EnableModules::List(vec![st("all"), st("core")])),
    ] {
        let mut template = Template::from_node(&minimal_root(vec![])).unwrap();
        template.enable_modules = directive;
        template.imports = Some(vec![(st("a"), st("b")), (st("a"), st("c"))]);
        template.info.author = Some(st(""));
        assert_eq!(Template::from_node(&template.to_node()), Ok(template));
    }
}

#[test]
fn unreadable_file_is_not_found() {
    assert_eq!(Template::load_from_file(None), Err(LoadError::NotFound));
}

#[test]
fn readable_file_is_parsed() {
    assert_eq!(Template::load_from_file(Some(FULL)), Ok(Template::load_from_str(FULL).unwrap()));
    assert_eq!(
        Template::load_from_file(Some("[]")),
        Err(LoadError::ParseError(ParseError::Malformed(Key::Root)))
    );
    assert!(matches!(
        Template::load_from_file(Some("a: [")),
        Err(LoadError::ParseError(ParseError::Syntax(_)))
    ));
}
