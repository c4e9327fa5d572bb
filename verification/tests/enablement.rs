use pack_template::enable::{check_known, contains_id, dedup_ids, enabled_ids};
use pack_template::{
    EnableModules, ModEntry, ModLoader, ModProvider, Module, ModuleImport, Template, TemplateInfo,
    ValidationError,
};

fn t(text: &str) -> String {
    text.to_string()
}

fn strings(items: &[&str]) -> Vec<String> {
    items.iter().map(|i| t(i)).collect()
}

fn module(name: &str, mods: &[&str]) -> Module {
    Module {
        import: None,
        display_name: t(name),
        desc: None,
        mods: mods.iter().map(|m| ModEntry::Simple(t(m))).collect(),
    }
}

fn template(directive: Option<EnableModules>) -> Template {
    Template {
        info: TemplateInfo {
            name: t("pack"),
            desc: None,
            author: None,
            version: None,
            provider: ModProvider::Modrinth,
            modloader: ModLoader::Fabric,
            mc_version: t("1.20.1"),
        },
        imports: None,
        enable_modules: directive,
        modules: vec![
            (t("core"), module("Core mods", &["sodium"])),
            (t("shaders"), module("Shader support", &["iris"])),
            (t("maps"), module("Maps", &["xaero"])),
            (t("audio"), module("Sound", &["ambient"])),
        ],
    }
}

#[test]
fn all_enables_every_module_in_declared_order() {
    let template = template(Some(EnableModules::All));
    assert_eq!(
        template.enabled_modules(&vec![], &vec![]),
        Ok(strings(&["core", "shaders", "maps", "audio"]))
    );
}

#[test]
fn all_ignores_preselection_and_picks() {
    let template = template(Some(EnableModules::All));
    assert_eq!(
        template.enabled_modules(&strings(&["maps"]), &vec![7, 9]),
        Ok(strings(&["core", "shaders", "maps", "audio"]))
    );
}

#[test]
fn all_on_an_empty_template_enables_nothing() {
    let mut template = template(Some(EnableModules::All));
    template.modules.clear();
    assert_eq!(template.enabled_modules(&vec![], &vec![]), Ok(vec![]));
}

#[test]
fn list_enables_exactly_the_listed_ids_in_their_order() {
    let template = template(Some(EnableModules::List(strings(&["maps", "core"]))));
    assert_eq!(template.enabled_modules(&vec![], &vec![]), Ok(strings(&["maps", "core"])));
}

#[test]
fn list_keeps_a_repeated_id() {
    let template = template(Some(EnableModules::List(strings(&["maps", "maps"]))));
    assert_eq!(template.enabled_modules(&vec![], &vec![]), Ok(strings(&["maps", "maps"])));
}

#[test]
fn empty_list_enables_nothing() {
    let template = template(Some(EnableModules::List(vec![])));
    assert_eq!(template.enabled_modules(&strings(&["core"]), &vec![]), Ok(vec![]));
}

#[test]
fn list_with_an_unknown_id_is_rejected() {
    let template = template(Some(EnableModules::List(strings(&["maps", "ghost", "phantom"]))));
    assert_eq!(
        template.enabled_modules(&vec![], &vec![]),
        Err(ValidationError::UnknownModule(t("ghost")))
    );
}

#[test]
fn without_directive_all_modules_are_offered_in_declared_order() {
    let template = template(None);
    assert_eq!(template.offered_modules(&vec![]), vec![0, 1, 2, 3]);
    assert_eq!(
        template.offered_names(&vec![]),
        strings(&["Core mods", "Shader support", "Maps", "Sound"])
    );
}

#[test]
fn preselected_modules_are_not_offered() {
    let template = template(None);
    let preselected = strings(&["shaders", "core"]);
    assert_eq!(template.offered_modules(&preselected), vec![2, 3]);
    assert_eq!(template.offered_names(&preselected), strings(&["Maps", "Sound"]));
}

#[test]
fn picked_positions_map_back_to_module_ids() {
    let template = template(None);
    let preselected = strings(&["shaders"]);
    assert_eq!(
        template.enabled_modules(&preselected, &vec![2, 0]),
        Ok(strings(&["shaders", "audio", "core"]))
    );
}

#[test]
fn mandatory_modules_come_first() {
    let template = template(None);
    let preselected = strings(&["audio", "maps"]);
    assert_eq!(
        template.enabled_modules(&preselected, &vec![1, 0]),
        Ok(strings(&["audio", "maps", "shaders", "core"]))
    );
}

#[test]
fn nothing_preselected_and_nothing_picked_enables_nothing() {
    let template = template(None);
    assert_eq!(template.enabled_modules(&vec![], &vec![]), Ok(vec![]));
}

#[test]
fn duplicates_collapse_to_one_installation() {
    let template = template(None);
    let preselected = strings(&["core", "core"]);
    assert_eq!(
        template.enabled_modules(&preselected, &vec![1, 1, 0]),
        Ok(strings(&["core", "maps", "shaders"]))
    );
}

#[test]
fn unknown_preselected_id_is_rejected() {
    let template = template(None);
    let preselected = strings(&["core", "ghost"]);
    assert_eq!(
        template.enabled_modules(&preselected, &vec![0]),
        Err(ValidationError::UnknownModule(t("ghost")))
    );
}

#[test]
fn enabled_ids_works_on_a_bare_module_list() {
    let template = template(None);
    assert_eq!(
        enabled_ids(&Some(EnableModules::All), &template.modules, &vec![], &vec![]),
        Ok(strings(&["core", "shaders", "maps", "audio"]))
    );
    assert_eq!(
        enabled_ids(&None, &template.modules, &strings(&["maps"]), &vec![0]),
        Ok(strings(&["maps", "core"]))
    );
}

#[test]
fn dedup_keeps_first_occurrences() {
    assert_eq!(dedup_ids(&strings(&["a", "b", "a", "c", "b", "a"])), strings(&["a", "b", "c"]));
    assert_eq!(dedup_ids(&vec![]), Vec::<String>::new());
}

#[test]
fn contains_id_finds_what_is_there() {
    let list = strings(&["a", "b"]);
    assert!(contains_id(&list, &t("b")));
    assert!(!contains_id(&list, &t("c")));
    assert!(!contains_id(&vec![], &t("a")));
}

#[test]
fn check_known_names_the_first_dangling_id() {
    let template = template(None);
    assert_eq!(check_known(&template.modules, &strings(&["core", "audio"])), Ok(()));
    assert_eq!(
        check_known(&template.modules, &strings(&["core", "x", "y"])),
        Err(ValidationError::UnknownModule(t("x")))
    );
}

#[test]
fn well_formed_templates_declare_each_id_once() {
    let mut template = template(None);
    assert!(template.is_well_formed());
    template.modules.push((t("core"), module("Again", &[])));
    assert!(!template.is_well_formed());
}

#[test]
fn list_refers_to_the_template_after_merging() {
    let mut template = template(Some(EnableModules::List(strings(&["bundle"]))));
    template.modules.push((
        t("bundle"),
        Module {
            import: Some(ModuleImport { import: t("core"), picks: None, append_mods: Some(true) }),
            display_name: t("Bundle"),
            desc: None,
            mods: vec![ModEntry::Simple(t("extra"))],
        },
    ));
    assert_eq!(template.merge_modules_with_imports(), Ok(()));
    assert_eq!(template.enabled_modules(&vec![], &vec![]), Ok(strings(&["bundle"])));
}
