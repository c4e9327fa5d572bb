use pack_template::{
    ArgSpec, ArgValue, LoaderMatches, ModEntry, ModLoader, ModProvider, ModloaderConfig, Module,
    PathCompletion, ValidationError, TEMPLATE_EXTENSION,
};
use pack_template::path_completion::starts_with;
use pack_template::template::check_template_file;
use pack_template::FileFault;

fn o(text: &str) -> Option<String> {
    Some(text.to_string())
}

fn matches(modloader: Option<ModLoader>) -> LoaderMatches {
    LoaderMatches {
        modloader,
        forge: o("47.2.0"),
        fabric: o("0.15.7"),
        neoforge: None,
        quilt: o("0.24"),
    }
}

fn text_arg(id: &str, value_name: &str, long: &str) -> ArgSpec {
    ArgSpec {
        id: id.to_string(),
        value_name: value_name.to_string(),
        long: long.to_string(),
        value: ArgValue::Text,
        required: false,
    }
}

#[test]
fn provider_names_are_lowercase() {
    assert_eq!(ModProvider::Curseforge.as_str(), "curseforge");
    assert_eq!(ModProvider::Modrinth.as_str(), "modrinth");
}

#[test]
fn loader_names_and_options() {
    assert_eq!(ModLoader::Forge.as_str(), "forge");
    assert_eq!(ModLoader::Fabric.as_str(), "fabric");
    assert_eq!(ModLoader::Neoforge.as_str(), "neoforge");
    assert_eq!(ModLoader::Quilt.as_str(), "quilt");
    assert_eq!(ModLoader::Forge.as_long_arg(), "forge-version");
    assert_eq!(ModLoader::Fabric.as_long_arg(), "fabric-version");
    assert_eq!(ModLoader::Neoforge.as_long_arg(), "neoforge-version");
    assert_eq!(ModLoader::Quilt.as_long_arg(), "quilt-version");
    assert_eq!(ModLoader::Forge.as_value_name(), "FORGE_VERSION");
    assert_eq!(ModLoader::Fabric.as_value_name(), "FABRIC_VERSION");
    assert_eq!(ModLoader::Neoforge.as_value_name(), "NEOFORGE_VERSION");
    assert_eq!(ModLoader::Quilt.as_value_name(), "QUILT_VERSION");
}

#[test]
fn loaders_are_listed_in_declaration_order() {
    assert_eq!(
        ModLoader::iter(),
        vec![ModLoader::Forge, ModLoader::Fabric, ModLoader::Neoforge, ModLoader::Quilt]
    );
}

#[test]
fn template_extension_is_fixed() {
    assert_eq!(TEMPLATE_EXTENSION, "packtemplate");
}

#[test]
fn no_loader_selected_gives_an_empty_selection() {
    assert_eq!(
        ModloaderConfig::from_arg_matches(&matches(None)),
        ModloaderConfig { ty: None, version: None }
    );
}

#[test]
fn selected_loader_takes_only_its_own_version() {
    assert_eq!(
        ModloaderConfig::from_arg_matches(&matches(Some(ModLoader::Fabric))),
        ModloaderConfig { ty: Some(ModLoader::Fabric), version: o("0.15.7") }
    );
    assert_eq!(
        ModloaderConfig::from_arg_matches(&matches(Some(ModLoader::Neoforge))),
        ModloaderConfig { ty: Some(ModLoader::Neoforge), version: None }
    );
    assert_eq!(
        ModloaderConfig::from_arg_matches(&matches(Some(ModLoader::Forge))),
        ModloaderConfig { ty: Some(ModLoader::Forge), version: o("47.2.0") }
    );
    assert_eq!(
        ModloaderConfig::from_arg_matches(&matches(Some(ModLoader::Quilt))),
        ModloaderConfig { ty: Some(ModLoader::Quilt), version: o("0.24") }
    );
}

#[test]
fn version_of_picks_the_option_of_the_loader() {
    let m = matches(None);
    assert_eq!(m.version_of(ModLoader::Forge), &o("47.2.0"));
    assert_eq!(m.version_of(ModLoader::Neoforge), &None);
}

#[test]
fn update_without_loader_changes_nothing() {
    let mut config = ModloaderConfig { ty: Some(ModLoader::Forge), version: o("1") };
    assert_eq!(config.update_from_arg_matches(&matches(None)), Ok(()));
    assert_eq!(config, ModloaderConfig { ty: Some(ModLoader::Forge), version: o("1") });
}

#[test]
fn update_with_a_disagreeing_loader_is_a_mismatch() {
    let mut config = ModloaderConfig { ty: Some(ModLoader::Forge), version: o("1") };
    assert_eq!(
        config.update_from_arg_matches(&matches(Some(ModLoader::Fabric))),
        Err(ValidationError::ModloaderMismatch { fixed: ModLoader::Forge, given: ModLoader::Fabric })
    );
    assert_eq!(config, ModloaderConfig { ty: Some(ModLoader::Forge), version: o("1") });
}

#[test]
fn update_with_the_same_loader_takes_the_new_version() {
    let mut config = ModloaderConfig { ty: Some(ModLoader::Forge), version: o("1") };
    assert_eq!(config.update_from_arg_matches(&matches(Some(ModLoader::Forge))), Ok(()));
    assert_eq!(config, ModloaderConfig { ty: Some(ModLoader::Forge), version: o("47.2.0") });
    let mut config = ModloaderConfig { ty: Some(ModLoader::Neoforge), version: o("1") };
    assert_eq!(config.update_from_arg_matches(&matches(Some(ModLoader::Neoforge))), Ok(()));
    assert_eq!(config, ModloaderConfig { ty: Some(ModLoader::Neoforge), version: None });
}

#[test]
fn update_of_an_open_selection_fixes_the_loader() {
    let mut config = ModloaderConfig { ty: None, version: None };
    assert_eq!(config.update_from_arg_matches(&matches(Some(ModLoader::Quilt))), Ok(()));
    assert_eq!(config, ModloaderConfig { ty: Some(ModLoader::Quilt), version: o("0.24") });
}

#[test]
fn loader_options_are_added_after_what_is_there() {
    let existing = text_arg("pack_name", "PACK_NAME", "name");
    let expected = vec![
        existing.clone(),
        ArgSpec {
            id: "modloader".to_string(),
            value_name: "MODLOADER".to_string(),
            long: "modloader".to_string(),
            value: ArgValue::Loader,
            required: false,
        },
        text_arg("forge", "FORGE_VERSION", "forge-version"),
        text_arg("fabric", "FABRIC_VERSION", "fabric-version"),
        text_arg("neoforge", "NEOFORGE_VERSION", "neoforge-version"),
        text_arg("quilt", "QUILT_VERSION", "quilt-version"),
    ];
    assert_eq!(ModloaderConfig::augment_args(vec![existing.clone()]), expected);
    assert_eq!(ModloaderConfig::augment_args_for_update(vec![existing]), expected);
    assert_eq!(ModloaderConfig::augment_args(vec![]).len(), 5);
}

#[test]
fn module_is_shown_by_its_display_name() {
    let module = Module {
        import: None,
        display_name: "Core mods".to_string(),
        desc: Some("what every pack needs".to_string()),
        mods: vec![ModEntry::Simple("sodium".to_string())],
    };
    assert_eq!(module.to_string(), "Core mods");
}

#[test]
fn entry_id_is_the_id_it_is_known_under() {
    assert_eq!(ModEntry::Simple("sodium".to_string()).id(), "sodium");
}

#[test]
fn starts_with_compares_characters() {
    assert!(starts_with("template.packtemplate", "temp"));
    assert!(starts_with("abc", ""));
    assert!(starts_with("abc", "abc"));
    assert!(!starts_with("abc", "abcd"));
    assert!(!starts_with("abc", "b"));
    assert!(starts_with("größe.txt", "grö"));
    assert!(!starts_with("grosse.txt", "grö"));
}

#[test]
fn completion_is_the_first_entry_with_the_prefix() {
    let entries = vec![
        "notes.txt".to_string(),
        "pack.packtemplate".to_string(),
        "packs".to_string(),
    ];
    let completion = PathCompletion;
    assert_eq!(completion.get("pa", &entries), Some("pack.packtemplate".to_string()));
    assert_eq!(completion.get("packs", &entries), Some("packs".to_string()));
    assert_eq!(completion.get("", &entries), Some("notes.txt".to_string()));
    assert_eq!(completion.get("x", &entries), None);
    assert_eq!(completion.get("pa", &vec![]), None);
}

#[test]
fn template_path_must_lead_to_a_template_file() {
    assert_eq!(check_template_file(Some(true), true, Some("packtemplate")), Ok(()));
    assert_eq!(check_template_file(Some(true), true, Some("yaml")), Err(FileFault::WrongExtension));
    assert_eq!(check_template_file(Some(true), true, Some("Packtemplate")), Err(FileFault::WrongExtension));
    assert_eq!(check_template_file(Some(true), true, None), Err(FileFault::WrongExtension));
    assert_eq!(check_template_file(Some(true), false, Some("packtemplate")), Err(FileFault::NotAFile));
    assert_eq!(check_template_file(Some(false), false, Some("packtemplate")), Err(FileFault::Missing));
    assert_eq!(check_template_file(Some(false), true, Some("packtemplate")), Err(FileFault::Missing));
    assert_eq!(check_template_file(None, true, Some("packtemplate")), Err(FileFault::Inaccessible));
}

#[test]
fn file_faults_have_their_messages() {
    assert_eq!(FileFault::WrongExtension.message(), "File must have extension: packtemplate");
    assert_eq!(FileFault::NotAFile.message(), "Path is not a file");
    assert_eq!(FileFault::Missing.message(), "File does not exist");
    assert_eq!(FileFault::Inaccessible.message(), "File cannot be accessed or doesn't exist");
}
