//! The template data model and its mathematical views.

use vstd::prelude::*;
use crate::seqs::first_index;
use crate::seqs::lemma_first_index_is;
use crate::seqs::lemma_first_index_none;

verus! {

/// File extension that marks a template document.
pub const TEMPLATE_EXTENSION: &'static str = "packtemplate";

/// Why a path does not lead to a template file.
#[derive(Clone, Copy, Debug, PartialEq, Eq, Structural)]
pub enum FileFault {
    WrongExtension,
    NotAFile,
    Missing,
    Inaccessible,
}

impl FileFault {
    /// The fault in words.
    pub open spec fn words(self) -> Seq<char> {
        match self {
            FileFault::WrongExtension => "File must have extension: packtemplate"@,
            FileFault::NotAFile => "Path is not a file"@,
            FileFault::Missing => "File does not exist"@,
            FileFault::Inaccessible => "File cannot be accessed or doesn't exist"@,
        }
    }

    pub fn message(&self) -> (s: &'static str)
        ensures
            s@ == self.words(),
    {
        match self {
            FileFault::WrongExtension => "File must have extension: packtemplate",
            FileFault::NotAFile => "Path is not a file",
            FileFault::Missing => "File does not exist",
            FileFault::Inaccessible => "File cannot be accessed or doesn't exist",
        }
    }
}

/// What is wrong with a path as the path of a template, given what the file
/// system says of it: whether something exists there (nothing where that
/// cannot be told), whether it is a file, and its extension.
pub open spec fn file_fault(exists: Option<bool>, is_file: bool, extension: Option<Seq<char>>) -> Option<
    FileFault,
> {
    match exists {
        Some(true) => if is_file {
            if extension == Some(TEMPLATE_EXTENSION@) {
                None
            } else {
                Some(FileFault::WrongExtension)
            }
        } else {
            Some(FileFault::NotAFile)
        },
        Some(false) => Some(FileFault::Missing),
        None => Some(FileFault::Inaccessible),
    }
}

/// Checks a path as the path of a template.
pub fn check_template_file(exists: Option<bool>, is_file: bool, extension: Option<&str>) -> (r: Result<
    (),
    FileFault,
>)
    ensures
        match file_fault(
            exists,
            is_file,
            match extension {
                Some(e) => Some(e@),
                None => None,
            },
        ) {
            None => r is Ok,
            Some(fault) => r == Err::<(), FileFault>(fault),
        },
{
    match exists {
        Some(true) => {
            if !is_file {
                return Err(FileFault::NotAFile);
            }
            match extension {
                Some(e) => {
                    if e.to_owned() == TEMPLATE_EXTENSION.to_owned() {
                        Ok(())
                    } else {
                        Err(FileFault::WrongExtension)
                    }
                },
                None => Err(FileFault::WrongExtension),
            }
        },
        Some(false) => Err(FileFault::Missing),
        None => Err(FileFault::Inaccessible),
    }
}

/// The marketplace a mod is fetched from.
#[derive(Clone, Copy, Debug, PartialEq, Eq, Structural)]
pub enum ModProvider {
    Curseforge,
    Modrinth,
}

/// The mod-loading runtime a pack targets.
#[derive(Clone, Copy, Debug, PartialEq, Eq, Structural)]
pub enum ModLoader {
    Forge,
    Fabric,
    Neoforge,
    Quilt,
}

impl ModProvider {
    /// The provider's name as the package manager and template documents spell it.
    pub open spec fn name(self) -> Seq<char> {
        match self {
            ModProvider::Curseforge => "curseforge"@,
            ModProvider::Modrinth => "modrinth"@,
        }
    }

    pub fn as_str(&self) -> (s: &'static str)
        ensures
            s@ == self.name(),
    {
        match self {
            ModProvider::Curseforge => "curseforge",
            ModProvider::Modrinth => "modrinth",
        }
    }
}

impl ModLoader {
    /// The loader's lowercase name; also the id of its version option.
    pub open spec fn name(self) -> Seq<char> {
        match self {
            ModLoader::Forge => "forge"@,
            ModLoader::Fabric => "fabric"@,
            ModLoader::Neoforge => "neoforge"@,
            ModLoader::Quilt => "quilt"@,
        }
    }

    /// The long option that carries this loader's version.
    pub open spec fn long_arg(self) -> Seq<char> {
        match self {
            ModLoader::Forge => "forge-version"@,
            ModLoader::Fabric => "fabric-version"@,
            ModLoader::Neoforge => "neoforge-version"@,
            ModLoader::Quilt => "quilt-version"@,
        }
    }

    /// The placeholder shown for this loader's version option.
    pub open spec fn value_name(self) -> Seq<char> {
        match self {
            ModLoader::Forge => "FORGE_VERSION"@,
            ModLoader::Fabric => "FABRIC_VERSION"@,
            ModLoader::Neoforge => "NEOFORGE_VERSION"@,
            ModLoader::Quilt => "QUILT_VERSION"@,
        }
    }

    /// Every loader, in declaration order.
    pub open spec fn all() -> Seq<ModLoader> {
        seq![ModLoader::Forge, ModLoader::Fabric, ModLoader::Neoforge, ModLoader::Quilt]
    }

    pub fn as_str(&self) -> (s: &'static str)
        ensures
            s@ == self.name(),
    {
        match self {
            ModLoader::Forge => "forge",
            ModLoader::Fabric => "fabric",
            ModLoader::Neoforge => "neoforge",
            ModLoader::Quilt => "quilt",
        }
    }

    pub fn as_long_arg(&self) -> (s: &'static str)
        ensures
            s@ == self.long_arg(),
    {
        match self {
            ModLoader::Forge => "forge-version",
            ModLoader::Fabric => "fabric-version",
            ModLoader::Neoforge => "neoforge-version",
            ModLoader::Quilt => "quilt-version",
        }
    }

    pub fn as_value_name(&self) -> (s: &'static str)
        ensures
            s@ == self.value_name(),
    {
        match self {
            ModLoader::Forge => "FORGE_VERSION",
            ModLoader::Fabric => "FABRIC_VERSION",
            ModLoader::Neoforge => "NEOFORGE_VERSION",
            ModLoader::Quilt => "QUILT_VERSION",
        }
    }

    /// Every loader, in declaration order.
    pub fn iter() -> (v: Vec<ModLoader>)
        ensures
            v@ == ModLoader::all(),
    {
        let mut v: Vec<ModLoader> = Vec::new();
        v.push(ModLoader::Forge);
        v.push(ModLoader::Fabric);
        v.push(ModLoader::Neoforge);
        v.push(ModLoader::Quilt);
        v
    }
}

/// A text as its characters.
pub type Text = Seq<char>;

/// The views of a list of strings.
pub open spec fn texts(v: Seq<String>) -> Seq<Text> {
    Seq::new(v.len(), |i: int| v[i]@)
}

/// The view of an optional string.
pub open spec fn opt_text(s: Option<String>) -> Option<Text> {
    match s {
        Some(t) => Some(t@),
        None => None,
    }
}

/// Copies an optional string.
pub fn copy_opt_string(s: &Option<String>) -> (r: Option<String>)
    ensures
        opt_text(r) == opt_text(*s),
{
    match s {
        Some(t) => Some(t.clone()),
        None => None,
    }
}

/// Copies a list of strings.
pub fn copy_strings(v: &Vec<String>) -> (r: Vec<String>)
    ensures
        texts(r@) == texts(v@),
{
    let mut r: Vec<String> = Vec::new();
    let mut i: usize = 0;
    while i < v.len()
        invariant
            i <= v.len(),
            r.len() == i,
            forall|j: int| 0 <= j < i ==> r[j]@ == v[j]@,
        decreases v.len() - i,
    {
        r.push(v[i].clone());
        i += 1;
    }
    assert(texts(r@) =~= texts(v@));
    r
}

/// Which modules a template switches on by itself.
#[derive(Debug, PartialEq, Eq)]
pub enum EnableModules {
    /// Every declared module.
    All,
    /// Exactly the listed module ids, in this order.
    List(Vec<String>),
}

pub enum EnableModulesView {
    All,
    List(Seq<Text>),
}

impl View for EnableModules {
    type V = EnableModulesView;

    open spec fn view(&self) -> EnableModulesView {
        match self {
            EnableModules::All => EnableModulesView::All,
            EnableModules::List(ids) => EnableModulesView::List(texts(ids@)),
        }
    }
}

impl Clone for EnableModules {
    fn clone(&self) -> (r: Self)
        ensures
            r@ == self@,
    {
        match self {
            EnableModules::All => EnableModules::All,
            EnableModules::List(ids) => EnableModules::List(copy_strings(ids)),
        }
    }
}

/// How many mods an advanced entry stands for.
#[derive(Debug, PartialEq, Eq)]
pub enum ModEntryType {
    /// The entry's own id.
    Single,
    /// Every listed id.
    List { mods: Vec<String> },
    /// Candidates to choose from; installed like a list.
    Pick { mods: Vec<String> },
}

pub enum ModEntryTypeView {
    Single,
    List { mods: Seq<Text> },
    Pick { mods: Seq<Text> },
}

impl View for ModEntryType {
    type V = ModEntryTypeView;

    open spec fn view(&self) -> ModEntryTypeView {
        match self {
            ModEntryType::Single => ModEntryTypeView::Single,
            ModEntryType::List { mods } => ModEntryTypeView::List { mods: texts(mods@) },
            ModEntryType::Pick { mods } => ModEntryTypeView::Pick { mods: texts(mods@) },
        }
    }
}

impl Clone for ModEntryType {
    fn clone(&self) -> (r: Self)
        ensures
            r@ == self@,
    {
        match self {
            ModEntryType::Single => ModEntryType::Single,
            ModEntryType::List { mods } => ModEntryType::List { mods: copy_strings(mods) },
            ModEntryType::Pick { mods } => ModEntryType::Pick { mods: copy_strings(mods) },
        }
    }
}

/// One line of a module's mod list.
#[derive(Debug, PartialEq, Eq)]
pub enum ModEntry {
    /// A bare mod id, fetched from the template's provider.
    Simple(String),
    /// An entry with a type, an id and optional provider and description.
    Advance { ty: ModEntryType, id: String, provider: Option<ModProvider>, desc: Option<String> },
}

pub enum ModEntryView {
    Simple(Text),
    Advance { ty: ModEntryTypeView, id: Text, provider: Option<ModProvider>, desc: Option<Text> },
}

impl ModEntryView {
    /// The id under which an entry is known, and by which a pick names it.
    pub open spec fn id(self) -> Text {
        match self {
            ModEntryView::Simple(id) => id,
            ModEntryView::Advance { id, .. } => id,
        }
    }
}

impl View for ModEntry {
    type V = ModEntryView;

    open spec fn view(&self) -> ModEntryView {
        match self {
            ModEntry::Simple(id) => ModEntryView::Simple(id@),
            ModEntry::Advance { ty, id, provider, desc } => ModEntryView::Advance {
                ty: ty@,
                id: id@,
                provider: *provider,
                desc: opt_text(*desc),
            },
        }
    }
}

impl DeepView for ModEntry {
    type V = ModEntryView;

    open spec fn deep_view(&self) -> ModEntryView {
        self@
    }
}

impl Clone for ModEntry {
    fn clone(&self) -> (r: Self)
        ensures
            r@ == self@,
    {
        match self {
            ModEntry::Simple(id) => ModEntry::Simple(id.clone()),
            ModEntry::Advance { ty, id, provider, desc } => ModEntry::Advance {
                ty: ty.clone(),
                id: id.clone(),
                provider: *provider,
                desc: copy_opt_string(desc),
            },
        }
    }
}

impl ModEntry {
    /// The id under which the entry is known.
    pub fn id(&self) -> (id: &String)
        ensures
            id@ == self@.id(),
    {
        match self {
            ModEntry::Simple(id) => id,
            ModEntry::Advance { id, .. } => id,
        }
    }
}

/// Copies a list of mod entries.
pub fn copy_entries(v: &Vec<ModEntry>) -> (r: Vec<ModEntry>)
    ensures
        r.deep_view() == v.deep_view(),
{
    let mut r: Vec<ModEntry> = Vec::new();
    let mut i: usize = 0;
    while i < v.len()
        invariant
            i <= v.len(),
            r.len() == i,
            forall|j: int| 0 <= j < i ==> r[j]@ == v[j]@,
        decreases v.len() - i,
    {
        r.push(v[i].clone());
        i += 1;
    }
    assert(r.deep_view() =~= v.deep_view());
    r
}

/// The picks of an import: source module ids, each with the mod ids drawn from it.
pub open spec fn picks_view(picks: Seq<(String, Vec<String>)>) -> Seq<(Text, Seq<Text>)> {
    Seq::new(picks.len(), |i: int| (picks[i].0@, texts(picks[i].1@)))
}

/// A module's relation to the module it draws its mods from.
#[derive(Debug, PartialEq, Eq)]
pub struct ModuleImport {
    /// The id of the source module.
    pub import: String,
    /// Per source module, the mod ids to draw instead of its whole list,
    /// in declared order.
    pub picks: Option<Vec<(String, Vec<String>)>>,
    /// Whether the module's own mods follow the imported ones.
    pub append_mods: Option<bool>,
}

pub struct ModuleImportView {
    pub import: Text,
    pub picks: Option<Seq<(Text, Seq<Text>)>>,
    pub append_mods: Option<bool>,
}

impl View for ModuleImport {
    type V = ModuleImportView;

    open spec fn view(&self) -> ModuleImportView {
        ModuleImportView {
            import: self.import@,
            picks: match self.picks {
                Some(p) => Some(picks_view(p@)),
                None => None,
            },
            append_mods: self.append_mods,
        }
    }
}

/// Copies a picks list.
pub fn copy_picks(v: &Vec<(String, Vec<String>)>) -> (r: Vec<(String, Vec<String>)>)
    ensures
        picks_view(r@) == picks_view(v@),
{
    let mut r: Vec<(String, Vec<String>)> = Vec::new();
    let mut i: usize = 0;
    while i < v.len()
        invariant
            i <= v.len(),
            r.len() == i,
            forall|j: int| 0 <= j < i ==> r[j].0@ == v[j].0@ && texts(r[j].1@) == texts(v[j].1@),
        decreases v.len() - i,
    {
        r.push((v[i].0.clone(), copy_strings(&v[i].1)));
        i += 1;
    }
    assert(picks_view(r@) =~= picks_view(v@));
    r
}

impl Clone for ModuleImport {
    fn clone(&self) -> (r: Self)
        ensures
            r@ == self@,
    {
        ModuleImport {
            import: self.import.clone(),
            picks: match &self.picks {
                Some(p) => Some(copy_picks(p)),
                None => None,
            },
            append_mods: self.append_mods,
        }
    }
}

/// A named, toggleable group of mod entries.
#[derive(Debug, PartialEq, Eq)]
pub struct Module {
    pub import: Option<ModuleImport>,
    pub display_name: String,
    pub desc: Option<String>,
    pub mods: Vec<ModEntry>,
}

pub struct ModuleView {
    pub import: Option<ModuleImportView>,
    pub display_name: Text,
    pub desc: Option<Text>,
    pub mods: Seq<ModEntryView>,
}

impl View for Module {
    type V = ModuleView;

    open spec fn view(&self) -> ModuleView {
        ModuleView {
            import: match self.import {
                Some(i) => Some(i@),
                None => None,
            },
            display_name: self.display_name@,
            desc: opt_text(self.desc),
            mods: self.mods.deep_view(),
        }
    }
}

impl DeepView for Module {
    type V = ModuleView;

    open spec fn deep_view(&self) -> ModuleView {
        self@
    }
}

impl Clone for Module {
    fn clone(&self) -> (r: Self)
        ensures
            r@ == self@,
    {
        Module {
            import: match &self.import {
                Some(i) => Some(i.clone()),
                None => None,
            },
            display_name: self.display_name.clone(),
            desc: copy_opt_string(&self.desc),
            mods: copy_entries(&self.mods),
        }
    }
}

impl Module {
    /// The name shown for the module when it is offered for selection.
    pub fn to_string(&self) -> (s: String)
        ensures
            s@ == self@.display_name,
    {
        self.display_name.clone()
    }
}

/// Project metadata a template declares.
#[derive(Debug, PartialEq, Eq)]
pub struct TemplateInfo {
    pub name: String,
    pub desc: Option<String>,
    pub author: Option<String>,
    pub version: Option<String>,
    pub provider: ModProvider,
    pub modloader: ModLoader,
    pub mc_version: String,
}

pub struct TemplateInfoView {
    pub name: Text,
    pub desc: Option<Text>,
    pub author: Option<Text>,
    pub version: Option<Text>,
    pub provider: ModProvider,
    pub modloader: ModLoader,
    pub mc_version: Text,
}

impl View for TemplateInfo {
    type V = TemplateInfoView;

    open spec fn view(&self) -> TemplateInfoView {
        TemplateInfoView {
            name: self.name@,
            desc: opt_text(self.desc),
            author: opt_text(self.author),
            version: opt_text(self.version),
            provider: self.provider,
            modloader: self.modloader,
            mc_version: self.mc_version@,
        }
    }
}

impl Clone for TemplateInfo {
    fn clone(&self) -> (r: Self)
        ensures
            r@ == self@,
    {
        TemplateInfo {
            name: self.name.clone(),
            desc: copy_opt_string(&self.desc),
            author: copy_opt_string(&self.author),
            version: copy_opt_string(&self.version),
            provider: self.provider,
            modloader: self.modloader,
            mc_version: self.mc_version.clone(),
        }
    }
}

/// The declared modules of a template: ids with their modules, in declared order.
pub type ModuleTable = Seq<(Text, ModuleView)>;

/// The view of a module list.
pub open spec fn table_view(modules: Seq<(String, Module)>) -> ModuleTable {
    Seq::new(modules.len(), |i: int| (modules[i].0@, modules[i].1@))
}

/// The ids of a module table, in declared order.
pub open spec fn table_ids(table: ModuleTable) -> Seq<Text> {
    Seq::new(table.len(), |i: int| table[i].0)
}

/// The position of the module that `id` names: the first one declared under it.
pub open spec fn module_index(table: ModuleTable, id: Text) -> Option<int> {
    first_index(table_ids(table), id)
}

/// The views of an alias list.
pub open spec fn aliases_view(imports: Seq<(String, String)>) -> Seq<(Text, Text)> {
    Seq::new(imports.len(), |i: int| (imports[i].0@, imports[i].1@))
}

/// The root of a template document.
#[derive(Debug, PartialEq, Eq)]
pub struct Template {
    pub info: TemplateInfo,
    /// Import aliases with the locations of the templates they stand for.
    pub imports: Option<Vec<(String, String)>>,
    pub enable_modules: Option<EnableModules>,
    /// Module ids with their modules, in declared order.
    pub modules: Vec<(String, Module)>,
}

pub struct TemplateView {
    pub info: TemplateInfoView,
    pub imports: Option<Seq<(Text, Text)>>,
    pub enable_modules: Option<EnableModulesView>,
    pub modules: ModuleTable,
}

impl View for Template {
    type V = TemplateView;

    open spec fn view(&self) -> TemplateView {
        TemplateView {
            info: self.info@,
            imports: match self.imports {
                Some(a) => Some(aliases_view(a@)),
                None => None,
            },
            enable_modules: match self.enable_modules {
                Some(e) => Some(e@),
                None => None,
            },
            modules: table_view(self.modules@),
        }
    }
}

/// Copies an alias list.
pub fn copy_aliases(v: &Vec<(String, String)>) -> (r: Vec<(String, String)>)
    ensures
        aliases_view(r@) == aliases_view(v@),
{
    let mut r: Vec<(String, String)> = Vec::new();
    let mut i: usize = 0;
    while i < v.len()
        invariant
            i <= v.len(),
            r.len() == i,
            forall|j: int| 0 <= j < i ==> r[j].0@ == v[j].0@ && r[j].1@ == v[j].1@,
        decreases v.len() - i,
    {
        r.push((v[i].0.clone(), v[i].1.clone()));
        i += 1;
    }
    assert(aliases_view(r@) =~= aliases_view(v@));
    r
}

/// Copies a module list.
pub fn copy_modules(v: &Vec<(String, Module)>) -> (r: Vec<(String, Module)>)
    ensures
        table_view(r@) == table_view(v@),
{
    let mut r: Vec<(String, Module)> = Vec::new();
    let mut i: usize = 0;
    while i < v.len()
        invariant
            i <= v.len(),
            r.len() == i,
            forall|j: int| 0 <= j < i ==> r[j].0@ == v[j].0@ && r[j].1@ == v[j].1@,
        decreases v.len() - i,
    {
        r.push((v[i].0.clone(), v[i].1.clone()));
        i += 1;
    }
    assert(table_view(r@) =~= table_view(v@));
    r
}

impl Clone for Template {
    fn clone(&self) -> (r: Self)
        ensures
            r@ == self@,
    {
        Template {
            info: self.info.clone(),
            imports: match &self.imports {
                Some(a) => Some(copy_aliases(a)),
                None => None,
            },
            enable_modules: match &self.enable_modules {
                Some(e) => Some(e.clone()),
                None => None,
            },
            modules: copy_modules(&self.modules),
        }
    }
}

impl TemplateView {
    /// No module id is declared twice.
    pub open spec fn well_formed(self) -> bool {
        table_ids(self.modules).no_duplicates()
    }
}

/// Finds the module declared under `id`.
pub fn find_module(modules: &Vec<(String, Module)>, id: &String) -> (r: Option<usize>)
    ensures
        match r {
            Some(i) => module_index(table_view(modules@), id@) == Some(i as int) && i < modules.len(),
            None => module_index(table_view(modules@), id@) == None::<int>,
        },
{
    let ghost ids = table_ids(table_view(modules@));
    let mut i: usize = 0;
    while i < modules.len()
        invariant
            i <= modules.len(),
            ids == table_ids(table_view(modules@)),
            forall|j: int| 0 <= j < i ==> ids[j] != id@,
        decreases modules.len() - i,
    {
        if modules[i].0 == *id {
            proof {
                lemma_first_index_is(ids, id@, i as int);
            }
            return Some(i);
        }
        i += 1;
    }
    proof {
        lemma_first_index_none(ids, id@);
    }
    None
}

impl Template {
    /// Whether no module id is declared twice.
    pub fn is_well_formed(&self) -> (b: bool)
        ensures
            b == self@.well_formed(),
    {
        let ghost ids = table_ids(self@.modules);
        let mut i: usize = 0;
        while i < self.modules.len()
            invariant
                i <= self.modules.len(),
                ids == table_ids(self@.modules),
                forall|a: int, b: int| 0 <= a < b < i ==> ids[a] != ids[b],
            decreases self.modules.len() - i,
        {
            let mut j: usize = 0;
            while j < i
                invariant
                    j <= i,
                    i < self.modules.len(),
                    ids == table_ids(self@.modules),
                    forall|a: int| 0 <= a < j ==> ids[a] != ids[i as int],
                decreases i - j,
            {
                if self.modules[j].0 == self.modules[i].0 {
                    assert(ids[j as int] == ids[i as int]);
                    return false;
                }
                j += 1;
            }
            i += 1;
        }
        true
    }
}

} // verus!
