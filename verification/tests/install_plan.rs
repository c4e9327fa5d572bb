use pack_template::packwiz_wrapper::{
    build_add_args, build_init_args, expand_enabled, expand_entry, expand_module, needs_init,
    resolve_metadata, resolve_optional, resolve_required, PACKWIZ, PROJECT_MARKER,
};
use pack_template::{
    AddRequest, EnableModules, InstallRun, Invocation, ModEntry, ModEntryType, ModLoader,
    ModProvider, ModloaderConfig, Module, ModuleImport, PackConfig, PackwizWrapper, ProcessError,
    ProjectMetadata, RequiredField, RunOutcome, Template, TemplateInfo, ValidationError,
};

fn w(text: &str) -> String {
    text.to_string()
}

fn words(items: &[&str]) -> Vec<String> {
    items.iter().map(|i| w(i)).collect()
}

fn request(id: &str, provider: ModProvider) -> AddRequest {
    AddRequest { id: w(id), provider }
}

fn no_overrides() -> PackConfig {
    PackConfig {
        path: w("pack"),
        template: None,
        name: None,
        author: None,
        mc_version: None,
        version: None,
        modloader: ModloaderConfig { ty: None, version: None },
        yes: false,
    }
}

fn core_template(mods: Vec<ModEntry>) -> Template {
    Template {
        info: TemplateInfo {
            name: w("My Pack"),
            desc: Some(w("a pack")),
            author: None,
            version: None,
            provider: ModProvider::Modrinth,
            modloader: ModLoader::Fabric,
            mc_version: w("1.20.1"),
        },
        imports: None,
        enable_modules: Some(EnableModules::All),
        modules: vec![(
            w("core"),
            Module { import: None, display_name: w("Core"), desc: None, mods },
        )],
    }
}

fn run(dir: &str, args: &[&str]) -> Invocation {
    Invocation { dir: w(dir), args: words(args) }
}

#[test]
fn fresh_project_is_initialized_and_then_gets_its_mods_in_order() {
    let template = core_template(vec![ModEntry::Simple(w("sodium")), ModEntry::Simple(w("lithium"))]);
    let wrapper = PackwizWrapper::new(w("pack"));
    let plan = wrapper.plan(&template, &no_overrides(), &vec![], &vec![], false).unwrap();
    assert_eq!(
        plan,
        vec![
            run("pack", &["init", "--name", "My Pack", "--mc-version", "1.20.1"]),
            run("pack", &["add", "modrinth", "sodium"]),
            run("pack", &["add", "modrinth", "lithium"]),
        ]
    );
    let requests = expand_enabled(&template.modules, &words(&["core"]), template.info.provider);
    assert_eq!(
        requests,
        Ok(vec![request("sodium", ModProvider::Modrinth), request("lithium", ModProvider::Modrinth)])
    );
}

#[test]
fn entry_level_provider_beats_the_template_for_that_entry_only() {
    let template = core_template(vec![
        ModEntry::Advance {
            ty: ModEntryType::Single,
            id: w("sodium"),
            provider: Some(ModProvider::Curseforge),
            desc: None,
        },
        ModEntry::Simple(w("lithium")),
    ]);
    let requests = expand_enabled(&template.modules, &words(&["core"]), template.info.provider);
    assert_eq!(
        requests,
        Ok(vec![request("sodium", ModProvider::Curseforge), request("lithium", ModProvider::Modrinth)])
    );
    let wrapper = PackwizWrapper::new(w("pack"));
    let plan = wrapper.plan(&template, &no_overrides(), &vec![], &vec![], false).unwrap();
    assert_eq!(plan[1], run("pack", &["add", "curseforge", "sodium"]));
    assert_eq!(plan[2], run("pack", &["add", "modrinth", "lithium"]));
}

#[test]
fn completed_project_is_never_initialized_again() {
    let template = core_template(vec![ModEntry::Simple(w("sodium")), ModEntry::Simple(w("lithium"))]);
    let wrapper = PackwizWrapper::new(w("pack"));
    let fresh = wrapper.plan(&template, &no_overrides(), &vec![], &vec![], false).unwrap();
    let again = wrapper.plan(&template, &no_overrides(), &vec![], &vec![], true).unwrap();
    assert_eq!(again, fresh[1..].to_vec());
    assert!(again.iter().all(|run| run.args[0] != "init"));
    assert_eq!(fresh[0].args[0], "init");
}

#[test]
fn init_is_needed_unless_directory_and_marker_exist() {
    assert!(needs_init(false, false));
    assert!(needs_init(true, false));
    assert!(needs_init(false, true));
    assert!(!needs_init(true, true));
    assert_eq!(PROJECT_MARKER, "pack.toml");
    assert_eq!(PACKWIZ, "packwiz");
}

#[test]
fn faulty_imports_fail_the_plan_before_any_request() {
    let mut template = core_template(vec![ModEntry::Simple(w("sodium"))]);
    template.modules.push((
        w("a"),
        Module {
            import: Some(ModuleImport { import: w("b"), picks: None, append_mods: None }),
            display_name: w("A"),
            desc: None,
            mods: vec![],
        },
    ));
    template.modules.push((
        w("b"),
        Module {
            import: Some(ModuleImport { import: w("a"), picks: None, append_mods: None }),
            display_name: w("B"),
            desc: None,
            mods: vec![],
        },
    ));
    let wrapper = PackwizWrapper::new(w("pack"));
    assert_eq!(
        wrapper.plan(&template, &no_overrides(), &vec![], &vec![], false),
        Err(ValidationError::ImportCycle)
    );
}

#[test]
fn plan_expands_the_merged_lists_of_the_enabled_modules() {
    let mut template = core_template(vec![ModEntry::Simple(w("sodium"))]);
    template.enable_modules = Some(EnableModules::List(words(&["extra"])));
    template.modules.push((
        w("extra"),
        Module {
            import: Some(ModuleImport { import: w("core"), picks: None, append_mods: Some(true) }),
            display_name: w("Extra"),
            desc: None,
            mods: vec![ModEntry::Simple(w("iris"))],
        },
    ));
    let wrapper = PackwizWrapper::new(w("dir"));
    let plan = wrapper.plan(&template, &no_overrides(), &vec![], &vec![], true).unwrap();
    assert_eq!(
        plan,
        vec![run("dir", &["add", "modrinth", "sodium"]), run("dir", &["add", "modrinth", "iris"])]
    );
}

#[test]
fn plan_without_directive_uses_preselection_and_picks() {
    let mut template = core_template(vec![ModEntry::Simple(w("sodium"))]);
    template.enable_modules = None;
    template.modules.push((
        w("maps"),
        Module {
            import: None,
            display_name: w("Maps"),
            desc: None,
            mods: vec![ModEntry::Simple(w("xaero"))],
        },
    ));
    let wrapper = PackwizWrapper::new(w("dir"));
    let plan = wrapper
        .plan(&template, &no_overrides(), &words(&["maps"]), &vec![0], true)
        .unwrap();
    assert_eq!(
        plan,
        vec![run("dir", &["add", "modrinth", "xaero"]), run("dir", &["add", "modrinth", "sodium"])]
    );
    assert_eq!(
        wrapper.plan(&template, &no_overrides(), &words(&["ghost"]), &vec![], true),
        Err(ValidationError::UnknownModule(w("ghost")))
    );
}

#[test]
fn plan_with_unknown_listed_module_is_rejected() {
    let mut template = core_template(vec![ModEntry::Simple(w("sodium"))]);
    template.enable_modules = Some(EnableModules::List(words(&["core", "ghost"])));
    let wrapper = PackwizWrapper::new(w("dir"));
    assert_eq!(
        wrapper.plan(&template, &no_overrides(), &vec![], &vec![], false),
        Err(ValidationError::UnknownModule(w("ghost")))
    );
}

#[test]
fn simple_and_single_entries_expand_to_one_request() {
    assert_eq!(
        expand_entry(&ModEntry::Simple(w("sodium")), ModProvider::Curseforge),
        vec![request("sodium", ModProvider::Curseforge)]
    );
    let single = ModEntry::Advance {
        ty: ModEntryType::Single,
        id: w("sodium"),
        provider: None,
        desc: Some(w("fast")),
    };
    assert_eq!(expand_entry(&single, ModProvider::Modrinth), vec![request("sodium", ModProvider::Modrinth)]);
}

#[test]
fn list_and_pick_entries_expand_to_one_request_per_listed_id() {
    let list = ModEntry::Advance {
        ty: ModEntryType::List { mods: words(&["a", "b", "c"]) },
        id: w("bundle"),
        provider: Some(ModProvider::Curseforge),
        desc: None,
    };
    assert_eq!(
        expand_entry(&list, ModProvider::Modrinth),
        vec![
            request("a", ModProvider::Curseforge),
            request("b", ModProvider::Curseforge),
            request("c", ModProvider::Curseforge),
        ]
    );
    let pick = ModEntry::Advance {
        ty: ModEntryType::Pick { mods: words(&["x", "y"]) },
        id: w("choice"),
        provider: None,
        desc: None,
    };
    assert_eq!(
        expand_entry(&pick, ModProvider::Modrinth),
        vec![request("x", ModProvider::Modrinth), request("y", ModProvider::Modrinth)]
    );
    let empty = ModEntry::Advance {
        ty: ModEntryType::List { mods: vec![] },
        id: w("nothing"),
        provider: None,
        desc: None,
    };
    assert_eq!(expand_entry(&empty, ModProvider::Modrinth), vec![]);
}

#[test]
fn module_expands_entry_after_entry() {
    let module = Module {
        import: None,
        display_name: w("M"),
        desc: None,
        mods: vec![
            ModEntry::Simple(w("first")),
            ModEntry::Advance {
                ty: ModEntryType::List { mods: words(&["a", "b"]) },
                id: w("bundle"),
                provider: Some(ModProvider::Curseforge),
                desc: None,
            },
            ModEntry::Simple(w("last")),
        ],
    };
    assert_eq!(
        expand_module(&module, ModProvider::Modrinth),
        vec![
            request("first", ModProvider::Modrinth),
            request("a", ModProvider::Curseforge),
            request("b", ModProvider::Curseforge),
            request("last", ModProvider::Modrinth),
        ]
    );
}

#[test]
fn enabled_modules_expand_in_enabled_order() {
    let mut template = core_template(vec![ModEntry::Simple(w("sodium"))]);
    template.modules.push((
        w("maps"),
        Module {
            import: None,
            display_name: w("Maps"),
            desc: None,
            mods: vec![ModEntry::Simple(w("xaero"))],
        },
    ));
    assert_eq!(
        expand_enabled(&template.modules, &words(&["maps", "core"]), ModProvider::Modrinth),
        Ok(vec![request("xaero", ModProvider::Modrinth), request("sodium", ModProvider::Modrinth)])
    );
    assert_eq!(
        expand_enabled(&template.modules, &words(&["maps", "ghost"]), ModProvider::Modrinth),
        Err(ValidationError::UnknownModule(w("ghost")))
    );
    assert_eq!(expand_enabled(&template.modules, &vec![], ModProvider::Modrinth), Ok(vec![]));
}

#[test]
fn add_mod_gives_one_run_per_request() {
    let template = core_template(vec![]);
    let wrapper = PackwizWrapper::new(w("here"));
    let entry = ModEntry::Advance {
        ty: ModEntryType::Pick { mods: words(&["x", "y"]) },
        id: w("choice"),
        provider: Some(ModProvider::Curseforge),
        desc: None,
    };
    assert_eq!(
        wrapper.add_mod(&template, &entry),
        vec![run("here", &["add", "curseforge", "x"]), run("here", &["add", "curseforge", "y"])]
    );
    assert_eq!(
        wrapper.add_mod(&template, &ModEntry::Simple(w("sodium"))),
        vec![run("here", &["add", "modrinth", "sodium"])]
    );
}

#[test]
fn add_args_name_provider_and_mod() {
    assert_eq!(build_add_args(&request("sodium", ModProvider::Modrinth)), words(&["add", "modrinth", "sodium"]));
    assert_eq!(
        build_add_args(&request("jei", ModProvider::Curseforge)),
        words(&["add", "curseforge", "jei"])
    );
}

#[test]
fn overrides_win_over_the_template() {
    let mut template = core_template(vec![]);
    template.info.author = Some(w("template author"));
    template.info.version = Some(w("1.0.0"));
    let config = PackConfig {
        path: w("pack"),
        template: None,
        name: Some(w("Other Name")),
        author: Some(w("cli author")),
        mc_version: Some(w("1.21")),
        version: Some(w("2.0.0")),
        modloader: ModloaderConfig { ty: Some(ModLoader::Forge), version: Some(w("47.2")) },
        yes: true,
    };
    assert_eq!(
        resolve_metadata(&template, &config),
        ProjectMetadata {
            name: w("Other Name"),
            mc_version: w("1.21"),
            author: Some(w("cli author")),
            version: Some(w("2.0.0")),
            modloader: ModLoader::Forge,
            loader_version: Some(w("47.2")),
            provider: ModProvider::Modrinth,
            yes: true,
        }
    );
}

#[test]
fn template_values_stand_where_nothing_overrides_them() {
    let mut template = core_template(vec![]);
    template.info.author = Some(w("template author"));
    let mut config = no_overrides();
    config.modloader = ModloaderConfig { ty: None, version: Some(w("stray")) };
    assert_eq!(
        resolve_metadata(&template, &config),
        ProjectMetadata {
            name: w("My Pack"),
            mc_version: w("1.20.1"),
            author: Some(w("template author")),
            version: None,
            modloader: ModLoader::Fabric,
            loader_version: None,
            provider: ModProvider::Modrinth,
            yes: false,
        }
    );
}

#[test]
fn each_field_is_overridden_on_its_own() {
    let template = core_template(vec![]);
    let mut config = no_overrides();
    config.mc_version = Some(w("1.19.2"));
    let meta = resolve_metadata(&template, &config);
    assert_eq!(meta.name, "My Pack");
    assert_eq!(meta.mc_version, "1.19.2");
    assert_eq!(meta.modloader, ModLoader::Fabric);
}

#[test]
fn required_field_absent_from_both_sources_is_missing() {
    assert_eq!(
        resolve_required(RequiredField::Name, &None, &None),
        Err(ValidationError::MissingRequiredField(RequiredField::Name))
    );
    assert_eq!(
        resolve_required(RequiredField::McVersion, &None, &None),
        Err(ValidationError::MissingRequiredField(RequiredField::McVersion))
    );
    assert_eq!(resolve_required(RequiredField::Name, &Some(w("a")), &None), Ok(w("a")));
    assert_eq!(resolve_required(RequiredField::Name, &None, &Some(w("b"))), Ok(w("b")));
    assert_eq!(resolve_required(RequiredField::Name, &Some(w("a")), &Some(w("b"))), Ok(w("a")));
}

#[test]
fn optional_field_takes_the_override_first() {
    assert_eq!(resolve_optional(&Some(w("a")), &Some(w("b"))), Some(w("a")));
    assert_eq!(resolve_optional(&None, &Some(w("b"))), Some(w("b")));
    assert_eq!(resolve_optional(&Some(w("a")), &None), Some(w("a")));
    assert_eq!(resolve_optional(&None, &None), None);
}

#[test]
fn init_args_carry_optional_fields_only_where_present() {
    let mut meta = ProjectMetadata {
        name: w("P"),
        mc_version: w("1.20.1"),
        author: None,
        version: None,
        modloader: ModLoader::Quilt,
        loader_version: None,
        provider: ModProvider::Modrinth,
        yes: false,
    };
    assert_eq!(build_init_args(&meta), words(&["init", "--name", "P", "--mc-version", "1.20.1"]));
    meta.author = Some(w("me"));
    meta.version = Some(w("0.1"));
    meta.yes = true;
    assert_eq!(
        build_init_args(&meta),
        words(&[
            "init",
            "--name",
            "P",
            "--mc-version",
            "1.20.1",
            "--author",
            "me",
            "--version",
            "0.1",
            "--yes",
        ])
    );
    meta.author = None;
    assert_eq!(
        build_init_args(&meta),
        words(&["init", "--name", "P", "--mc-version", "1.20.1", "--version", "0.1", "--yes"])
    );
}

#[test]
fn init_project_runs_in_the_project_directory_with_resolved_metadata() {
    let template = core_template(vec![]);
    let mut config = no_overrides();
    config.name = Some(w("Renamed"));
    config.yes = true;
    let wrapper = PackwizWrapper::new(w("some/dir"));
    assert_eq!(
        wrapper.init_project(&template, &config),
        run("some/dir", &["init", "--name", "Renamed", "--mc-version", "1.20.1", "--yes"])
    );
}

#[test]
fn runs_are_handed_out_one_after_the_other() {
    let plan = vec![run("d", &["init"]), run("d", &["add", "modrinth", "a"])];
    let mut install = InstallRun::new(plan.clone());
    assert_eq!(install.completed(), 0);
    assert_eq!(install.next(), Some(&plan[0]));
    assert_eq!(install.next(), Some(&plan[0]));
    assert_eq!(install.record(RunOutcome::Succeeded), Ok(()));
    assert_eq!(install.next(), Some(&plan[1]));
    assert_eq!(install.record(RunOutcome::Succeeded), Ok(()));
    assert_eq!(install.next(), None);
    assert_eq!(install.completed(), 2);
    assert_eq!(install.record(RunOutcome::Succeeded), Ok(()));
    assert_eq!(install.completed(), 2);
}

#[test]
fn failed_run_is_reported_and_stays_due() {
    let plan = vec![run("d", &["init"]), run("d", &["add", "modrinth", "a"])];
    let mut install = InstallRun::new(plan.clone());
    assert_eq!(
        install.record(RunOutcome::NotSpawned),
        Err(ProcessError::ProcessSpawnError { step: 0 })
    );
    assert_eq!(install.next(), Some(&plan[0]));
    assert_eq!(install.record(RunOutcome::Succeeded), Ok(()));
    assert_eq!(install.record(RunOutcome::Failed), Err(ProcessError::ProcessExitError { step: 1 }));
    assert_eq!(install.next(), Some(&plan[1]));
    assert_eq!(install.completed(), 1);
}

#[test]
fn empty_plan_is_finished_at_once() {
    let install = InstallRun::new(vec![]);
    assert_eq!(install.next(), None);
}
