use pack_template::link::{link, qualify, qualify_module};
use pack_template::merge::{merge_first, merge_table, pick_entries};
use pack_template::{
    ModEntry, ModEntryType, ModLoader, ModProvider, Module, ModuleImport, Template, TemplateInfo,
    ValidationError,
};

fn s(text: &str) -> String {
    text.to_string()
}

fn simple(ids: &[&str]) -> Vec<ModEntry> {
    ids.iter().map(|id| ModEntry::Simple(s(id))).collect()
}

fn plain(name: &str, mods: &[&str]) -> Module {
    Module { import: None, display_name: s(name), desc: None, mods: simple(mods) }
}

fn importing(name: &str, from: &str, append: Option<bool>, mods: &[&str]) -> Module {
    Module {
        import: Some(ModuleImport { import: s(from), picks: None, append_mods: append }),
        display_name: s(name),
        desc: None,
        mods: simple(mods),
    }
}

fn picking(name: &str, from: &str, picks: Vec<(&str, Vec<&str>)>, append: Option<bool>, mods: &[&str]) -> Module {
    Module {
        import: Some(ModuleImport {
            import: s(from),
            picks: Some(
                picks
                    .into_iter()
                    .map(|(module, ids)| (s(module), ids.into_iter().map(s).collect()))
                    .collect(),
            ),
            append_mods: append,
        }),
        display_name: s(name),
        desc: None,
        mods: simple(mods),
    }
}

fn template_of(modules: Vec<(String, Module)>) -> Template {
    Template {
        info: TemplateInfo {
            name: s("pack"),
            desc: None,
            author: None,
            version: None,
            provider: ModProvider::Modrinth,
            modloader: ModLoader::Fabric,
            mc_version: s("1.20.1"),
        },
        imports: None,
        enable_modules: None,
        modules,
    }
}

#[test]
fn module_without_import_passes_unchanged() {
    let modules = vec![(s("core"), plain("Core", &["sodium", "lithium"]))];
    let merged = merge_table(&modules).unwrap();
    assert_eq!(merged, modules);
}

#[test]
fn import_with_append_yields_source_then_local() {
    let modules = vec![
        (s("base"), plain("Base", &["sodium", "lithium"])),
        (s("extra"), importing("Extra", "base", Some(true), &["iris"])),
    ];
    let merged = merge_table(&modules).unwrap();
    assert_eq!(merged[1].0, "extra");
    assert_eq!(merged[1].1.mods, simple(&["sodium", "lithium", "iris"]));
    assert_eq!(merged[1].1.import, None);
    assert_eq!(merged[1].1.display_name, "Extra");
    assert_eq!(merged[0], modules[0]);
}

#[test]
fn import_without_append_ignores_local_mods() {
    for append in [None, Some(false)] {
        let modules = vec![
            (s("base"), plain("Base", &["sodium", "lithium"])),
            (s("extra"), importing("Extra", "base", append, &["iris"])),
        ];
        let merged = merge_table(&modules).unwrap();
        assert_eq!(merged[1].1.mods, simple(&["sodium", "lithium"]));
    }
}

#[test]
fn importer_declared_before_its_source_resolves() {
    let modules = vec![
        (s("extra"), importing("Extra", "base", Some(true), &["iris"])),
        (s("base"), plain("Base", &["sodium"])),
    ];
    let merged = merge_table(&modules).unwrap();
    assert_eq!(merged[0].1.mods, simple(&["sodium", "iris"]));
    assert_eq!(merged[1].1.mods, simple(&["sodium"]));
}

#[test]
fn chained_imports_compose() {
    let modules = vec![
        (s("a"), importing("A", "b", Some(true), &["one"])),
        (s("b"), importing("B", "c", Some(true), &["two"])),
        (s("c"), plain("C", &["three"])),
    ];
    let merged = merge_table(&modules).unwrap();
    assert_eq!(merged[0].1.mods, simple(&["three", "two", "one"]));
    assert_eq!(merged[1].1.mods, simple(&["three", "two"]));
    assert_eq!(merged[2].1.mods, simple(&["three"]));
}

#[test]
fn duplicates_across_source_and_local_stay() {
    let modules = vec![
        (s("base"), plain("Base", &["sodium"])),
        (s("extra"), importing("Extra", "base", Some(true), &["sodium"])),
    ];
    let merged = merge_table(&modules).unwrap();
    assert_eq!(merged[1].1.mods, simple(&["sodium", "sodium"]));
}

#[test]
fn picks_yield_the_named_entries_in_pick_order() {
    let modules = vec![
        (s("base"), plain("Base", &["sodium", "lithium", "iris"])),
        (s("chosen"), picking("Chosen", "base", vec![("base", vec!["iris", "sodium"])], None, &["local"])),
    ];
    let merged = merge_table(&modules).unwrap();
    assert_eq!(merged[1].1.mods, simple(&["iris", "sodium"]));
}

#[test]
fn picks_with_append_are_followed_by_local_mods() {
    let modules = vec![
        (s("base"), plain("Base", &["sodium", "lithium", "iris"])),
        (s("chosen"), picking("Chosen", "base", vec![("base", vec!["lithium"])], Some(true), &["local"])),
    ];
    let merged = merge_table(&modules).unwrap();
    assert_eq!(merged[1].1.mods, simple(&["lithium", "local"]));
}

#[test]
fn picks_from_several_sources_are_concatenated_in_declared_order() {
    let modules = vec![
        (s("one"), plain("One", &["a", "b"])),
        (s("two"), plain("Two", &["c", "d"])),
        (
            s("mix"),
            picking("Mix", "one", vec![("two", vec!["d"]), ("one", vec!["b", "a"])], None, &[]),
        ),
    ];
    let merged = merge_table(&modules).unwrap();
    assert_eq!(merged[2].1.mods, simple(&["d", "b", "a"]));
}

#[test]
fn picks_keep_the_whole_entry() {
    let advanced = ModEntry::Advance {
        ty: ModEntryType::List { mods: vec![s("x"), s("y")] },
        id: s("bundle"),
        provider: Some(ModProvider::Curseforge),
        desc: Some(s("a bundle")),
    };
    let base = Module {
        import: None,
        display_name: s("Base"),
        desc: None,
        mods: vec![ModEntry::Simple(s("sodium")), advanced.clone()],
    };
    let modules = vec![
        (s("base"), base),
        (s("chosen"), picking("Chosen", "base", vec![("base", vec!["bundle"])], None, &[])),
    ];
    let merged = merge_table(&modules).unwrap();
    assert_eq!(merged[1].1.mods, vec![advanced]);
}

#[test]
fn pick_of_an_absent_id_is_pick_not_found() {
    let modules = vec![
        (s("base"), plain("Base", &["sodium"])),
        (s("chosen"), picking("Chosen", "base", vec![("base", vec!["sodium", "ghost"])], None, &[])),
    ];
    assert_eq!(
        merge_table(&modules),
        Err(ValidationError::PickNotFound { module: s("base"), mod_id: s("ghost") })
    );
}

#[test]
fn picks_draw_from_the_resolved_list_of_the_source() {
    let modules = vec![
        (s("root"), plain("Root", &["deep"])),
        (s("mid"), importing("Mid", "root", Some(true), &["shallow"])),
        (s("top"), picking("Top", "mid", vec![("mid", vec!["deep"])], None, &[])),
    ];
    let merged = merge_table(&modules).unwrap();
    assert_eq!(merged[2].1.mods, simple(&["deep"]));
}

#[test]
fn two_modules_importing_each_other_are_rejected() {
    let modules = vec![
        (s("a"), importing("A", "b", None, &["one"])),
        (s("b"), importing("B", "a", None, &["two"])),
    ];
    assert_eq!(merge_table(&modules), Err(ValidationError::ImportCycle));
}

#[test]
fn a_module_importing_itself_is_rejected() {
    let modules = vec![(s("a"), importing("A", "a", Some(true), &["one"]))];
    assert_eq!(merge_table(&modules), Err(ValidationError::ImportCycle));
}

#[test]
fn a_longer_cycle_is_rejected() {
    let modules = vec![
        (s("free"), plain("Free", &["x"])),
        (s("a"), importing("A", "b", None, &[])),
        (s("b"), importing("B", "c", None, &[])),
        (s("c"), importing("C", "a", None, &[])),
    ];
    assert_eq!(merge_table(&modules), Err(ValidationError::ImportCycle));
}

#[test]
fn a_cycle_through_picks_is_rejected() {
    let modules = vec![
        (s("free"), plain("Free", &["x"])),
        (s("a"), picking("A", "free", vec![("b", vec!["x"])], None, &[])),
        (s("b"), importing("B", "a", None, &[])),
    ];
    assert_eq!(merge_table(&modules), Err(ValidationError::ImportCycle));
}

#[test]
fn import_of_an_undeclared_module_is_unknown_module() {
    let modules = vec![(s("a"), importing("A", "nowhere", None, &["one"]))];
    assert_eq!(merge_table(&modules), Err(ValidationError::UnknownModule(s("nowhere"))));
}

#[test]
fn picks_from_an_undeclared_module_are_unknown_module() {
    let modules = vec![
        (s("base"), plain("Base", &["x"])),
        (s("a"), picking("A", "base", vec![("nowhere", vec!["x"])], None, &[])),
    ];
    assert_eq!(merge_table(&modules), Err(ValidationError::UnknownModule(s("nowhere"))));
}

#[test]
fn the_first_faulty_module_in_declared_order_decides() {
    let modules = vec![
        (s("base"), plain("Base", &["x"])),
        (s("bad_pick"), picking("P", "base", vec![("base", vec!["y"])], None, &[])),
        (s("loop"), importing("L", "loop", None, &[])),
    ];
    assert_eq!(
        merge_table(&modules),
        Err(ValidationError::PickNotFound { module: s("base"), mod_id: s("y") })
    );
    let modules = vec![
        (s("loop"), importing("L", "loop", None, &[])),
        (s("base"), plain("Base", &["x"])),
        (s("bad_pick"), picking("P", "base", vec![("base", vec!["y"])], None, &[])),
    ];
    assert_eq!(merge_table(&modules), Err(ValidationError::ImportCycle));
}

#[test]
fn merge_on_a_template_replaces_modules_and_keeps_the_rest() {
    let mut template = template_of(vec![
        (s("base"), plain("Base", &["sodium"])),
        (s("extra"), importing("Extra", "base", Some(true), &["iris"])),
    ]);
    let info = template.info.clone();
    assert_eq!(template.merge_modules_with_imports(), Ok(()));
    assert_eq!(template.info, info);
    assert_eq!(template.modules[1].1.mods, simple(&["sodium", "iris"]));
    assert_eq!(template.modules[1].1.import, None);
}

#[test]
fn failed_merge_leaves_the_template_as_it_was() {
    let mut template = template_of(vec![
        (s("a"), importing("A", "b", None, &["one"])),
        (s("b"), importing("B", "a", None, &["two"])),
    ]);
    let before = template.clone();
    assert_eq!(template.merge_modules_with_imports(), Err(ValidationError::ImportCycle));
    assert_eq!(template, before);
}

#[test]
fn merging_twice_changes_nothing_more() {
    let modules = vec![
        (s("base"), plain("Base", &["sodium"])),
        (s("extra"), importing("Extra", "base", Some(true), &["iris"])),
    ];
    let once = merge_table(&modules).unwrap();
    let twice = merge_table(&once).unwrap();
    assert_eq!(once, twice);
}

#[test]
fn pick_entries_takes_the_first_entry_under_each_id() {
    let first = ModEntry::Advance {
        ty: ModEntryType::Single,
        id: s("dup"),
        provider: Some(ModProvider::Curseforge),
        desc: None,
    };
    let source = vec![ModEntry::Simple(s("a")), first.clone(), ModEntry::Simple(s("dup"))];
    let chosen = pick_entries(&source, &s("base"), &vec![s("dup"), s("a"), s("dup")]).unwrap();
    assert_eq!(chosen, vec![first.clone(), ModEntry::Simple(s("a")), first]);
    assert_eq!(
        pick_entries(&source, &s("base"), &vec![s("a"), s("zz"), s("yy")]),
        Err(ValidationError::PickNotFound { module: s("base"), mod_id: s("zz") })
    );
}

#[test]
fn many_modules_in_reverse_order_resolve() {
    let n = 60;
    let mut modules: Vec<(String, Module)> = Vec::new();
    for i in 0..n {
        let id = format!("m{}", i);
        if i + 1 < n {
            let next = format!("m{}", i + 1);
            modules.push((id.clone(), importing(&id, &next, Some(true), &[&id])));
        } else {
            modules.push((id.clone(), plain(&id, &[&id])));
        }
    }
    let merged = merge_table(&modules).unwrap();
    assert_eq!(merged[0].1.mods.len(), n);
    assert_eq!(merged[0].1.mods[0], ModEntry::Simple(format!("m{}", n - 1)));
    assert_eq!(merged[0].1.mods[n - 1], ModEntry::Simple(s("m0")));
}

#[test]
fn module_of_another_template_is_known_under_its_alias() {
    assert_eq!(qualify(&s("shared"), &s("base")), "shared.base");
    assert_eq!(qualify(&s(""), &s("")), ".");
    let module = picking("M", "base", vec![("base", vec!["x"]), ("other", vec![])], Some(true), &["own"]);
    assert_eq!(
        qualify_module(&s("lib"), &module),
        picking("M", "lib.base", vec![("lib.base", vec!["x"]), ("lib.other", vec![])], Some(true), &["own"])
    );
    assert_eq!(qualify_module(&s("lib"), &plain("P", &["a"])), plain("P", &["a"]));
}

#[test]
fn linking_puts_other_templates_behind_the_own_modules() {
    let own = vec![(s("core"), plain("Core", &["sodium"]))];
    let shared = template_of(vec![
        (s("base"), plain("Base", &["lithium"])),
        (s("more"), importing("More", "base", Some(true), &["iris"])),
    ]);
    let tools = template_of(vec![(s("base"), plain("Tools", &["wrench"]))]);
    let all = link(&own, &vec![(s("shared"), shared), (s("tools"), tools)]);
    assert_eq!(
        all,
        vec![
            (s("core"), plain("Core", &["sodium"])),
            (s("shared.base"), plain("Base", &["lithium"])),
            (s("shared.more"), importing("More", "shared.base", Some(true), &["iris"])),
            (s("tools.base"), plain("Tools", &["wrench"])),
        ]
    );
    assert_eq!(link(&own, &vec![]), own);
}

#[test]
fn import_from_another_template_resolves_against_its_resolved_list() {
    let shared = template_of(vec![
        (s("base"), plain("Base", &["lithium"])),
        (s("more"), importing("More", "base", Some(true), &["iris"])),
    ]);
    let mut template = template_of(vec![
        (s("core"), importing("Core", "shared.more", Some(true), &["sodium"])),
        (s("picked"), picking("Picked", "shared.more", vec![("shared.more", vec!["iris"])], None, &[])),
    ]);
    assert_eq!(template.merge_modules_with(&vec![(s("shared"), shared)]), Ok(()));
    assert_eq!(template.modules.len(), 2);
    assert_eq!(template.modules[0].0, "core");
    assert_eq!(template.modules[0].1.mods, simple(&["lithium", "iris", "sodium"]));
    assert_eq!(template.modules[1].1.mods, simple(&["iris"]));
}

#[test]
fn import_under_an_alias_that_is_not_given_is_unknown() {
    let mut template = template_of(vec![(s("core"), importing("Core", "shared.base", None, &[]))]);
    let before = template.clone();
    assert_eq!(
        template.merge_modules_with(&vec![]),
        Err(ValidationError::UnknownModule(s("shared.base")))
    );
    assert_eq!(template, before);
}

#[test]
fn faults_of_other_templates_count_only_where_they_are_imported() {
    let broken = template_of(vec![
        (s("good"), plain("Good", &["a"])),
        (s("loop"), importing("Loop", "loop", None, &[])),
    ]);
    let mut template = template_of(vec![(s("core"), importing("Core", "lib.good", None, &[]))]);
    assert_eq!(template.merge_modules_with(&vec![(s("lib"), broken.clone())]), Ok(()));
    assert_eq!(template.modules[0].1.mods, simple(&["a"]));
    let mut template = template_of(vec![(s("core"), importing("Core", "lib.loop", None, &[]))]);
    assert_eq!(
        template.merge_modules_with(&vec![(s("lib"), broken)]),
        Err(ValidationError::ImportCycle)
    );
}

#[test]
fn merge_first_returns_only_the_modules_asked_for() {
    let modules = vec![
        (s("a"), importing("A", "b", None, &[])),
        (s("b"), plain("B", &["x"])),
        (s("c"), importing("C", "nowhere", None, &[])),
    ];
    let merged = merge_first(&modules, 2).unwrap();
    assert_eq!(merged.len(), 2);
    assert_eq!(merged[0].1.mods, simple(&["x"]));
    assert_eq!(merge_first(&modules, 0), Ok(vec![]));
    assert_eq!(merge_first(&modules, 3), Err(ValidationError::UnknownModule(s("nowhere"))));
    assert_eq!(merge_first(&modules, 9), Err(ValidationError::UnknownModule(s("nowhere"))));
    assert_eq!(merge_first(&modules[..2].to_vec(), 9).map(|merged| merged.len()), Ok(2));
}
