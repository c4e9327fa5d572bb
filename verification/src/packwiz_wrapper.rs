//! What is handed to the package manager: the project's resolved metadata, the
//! installation requests of the enabled modules, and the command lines that
//! carry both.

use vstd::prelude::*;
use crate::config::PackConfig;
use crate::config::PackConfigView;
use crate::enable::enabled_ids;
use crate::enable::directive_view;
use crate::enable::enabled_in;
use crate::enable::offered_among;
use crate::enable::picks_in_range;
use crate::error::RequiredField;
use crate::error::ValidationError;
use crate::error::ValidationErrorView;
use crate::merge::import_cycle;
use crate::merge::law_cycle_rejected;
use crate::merge::merge_table;
use crate::merge::merged_table;
use crate::template::copy_opt_string;
use crate::template::copy_strings;
use crate::template::find_module;
use crate::template::module_index;
use crate::template::opt_text;
use crate::template::table_ids;
use crate::template::table_view;
use crate::template::texts;
use crate::template::ModEntry;
use crate::template::ModEntryType;
use crate::template::ModEntryTypeView;
use crate::template::ModEntryView;
use crate::template::ModLoader;
use crate::template::ModProvider;
use crate::template::Module;
use crate::template::ModuleTable;
use crate::template::Template;
use crate::template::TemplateInfoView;
use crate::template::TemplateView;
use crate::template::Text;

verus! {

/// The package manager's program name.
pub const PACKWIZ: &'static str = "packwiz";

/// The file whose presence marks a project as initialized.
pub const PROJECT_MARKER: &'static str = "pack.toml";

/// The request to install one mod from one provider.
#[derive(Debug, PartialEq, Eq)]
pub struct AddRequest {
    pub id: String,
    pub provider: ModProvider,
}

pub struct AddRequestView {
    pub id: Text,
    pub provider: ModProvider,
}

impl View for AddRequest {
    type V = AddRequestView;

    open spec fn view(&self) -> AddRequestView {
        AddRequestView { id: self.id@, provider: self.provider }
    }
}

impl Clone for AddRequest {
    fn clone(&self) -> (r: Self)
        ensures
            r@ == self@,
    {
        AddRequest { id: self.id.clone(), provider: self.provider }
    }
}

impl DeepView for AddRequest {
    type V = AddRequestView;

    open spec fn deep_view(&self) -> AddRequestView {
        self@
    }
}

/// The provider an entry is fetched from: its own where it names one, the
/// template's otherwise.
pub open spec fn entry_provider(entry: ModEntryView, default: ModProvider) -> ModProvider {
    match entry {
        ModEntryView::Advance { provider: Some(p), .. } => p,
        _ => default,
    }
}

/// The mod ids an entry stands for: its own id, or the listed ones.
pub open spec fn entry_mods(entry: ModEntryView) -> Seq<Text> {
    match entry {
        ModEntryView::Simple(id) => seq![id],
        ModEntryView::Advance { ty: ModEntryTypeView::Single, id, .. } => seq![id],
        ModEntryView::Advance { ty: ModEntryTypeView::List { mods }, .. } => mods,
        ModEntryView::Advance { ty: ModEntryTypeView::Pick { mods }, .. } => mods,
    }
}

/// The requests an entry expands to: one per mod id it stands for, in order,
/// all from the entry's provider.
pub open spec fn entry_requests(entry: ModEntryView, default: ModProvider) -> Seq<AddRequestView> {
    let mods = entry_mods(entry);
    Seq::new(mods.len(), |k: int| AddRequestView { id: mods[k], provider: entry_provider(entry, default) })
}

/// The requests of a mod list: those of its entries, in declared order.
pub open spec fn module_requests(mods: Seq<ModEntryView>, default: ModProvider) -> Seq<AddRequestView>
    decreases mods.len(),
{
    if mods.len() == 0 {
        Seq::empty()
    } else {
        module_requests(mods.drop_last(), default) + entry_requests(mods.last(), default)
    }
}

/// The requests of the enabled modules, module after module in the order of
/// `ids`; an id that names no module is a fault.
pub open spec fn enabled_requests(table: ModuleTable, ids: Seq<Text>, default: ModProvider) -> Result<
    Seq<AddRequestView>,
    ValidationErrorView,
>
    decreases ids.len(),
{
    if ids.len() == 0 {
        Ok(Seq::empty())
    } else {
        match enabled_requests(table, ids.drop_last(), default) {
            Err(e) => Err(e),
            Ok(before) => match module_index(table, ids.last()) {
                None => Err(ValidationErrorView::UnknownModule(ids.last())),
                Some(j) => Ok(before + module_requests(table[j].1.mods, default)),
            },
        }
    }
}

/// Appends the requests of `entry` to `out`.
fn push_entry_requests(out: &mut Vec<AddRequest>, entry: &ModEntry, default: ModProvider)
    ensures
        final(out).deep_view() == old(out).deep_view() + entry_requests(entry@, default),
{
    let ghost before = out.deep_view();
    let ghost wanted = entry_requests(entry@, default);
    match entry {
        ModEntry::Simple(id) => {
            out.push(AddRequest { id: id.clone(), provider: default });
            assert(out.deep_view() =~= before + wanted);
        },
        ModEntry::Advance { ty, id, provider, desc } => {
            let from = match provider {
                Some(p) => *p,
                None => default,
            };
            match ty {
                ModEntryType::Single => {
                    out.push(AddRequest { id: id.clone(), provider: from });
                    assert(out.deep_view() =~= before + wanted);
                },
                ModEntryType::List { mods } | ModEntryType::Pick { mods } => {
                    let mut k: usize = 0;
                    assert(out.deep_view() =~= before + wanted.take(0));
                    while k < mods.len()
                        invariant
                            k <= mods.len(),
                            wanted.len() == mods.len(),
                            forall|j: int|
                                0 <= j < mods.len() ==> wanted[j] == (AddRequestView {
                                    id: mods[j]@,
                                    provider: from,
                                }),
                            out.deep_view() == before + wanted.take(k as int),
                        decreases mods.len() - k,
                    {
                        let ghost prev = out.deep_view();
                        out.push(AddRequest { id: mods[k].clone(), provider: from });
                        assert(out.deep_view() =~= prev.push(wanted[k as int]));
                        assert(out.deep_view() =~= before + wanted.take(k as int + 1));
                        k += 1;
                    }
                    assert(wanted.take(mods.len() as int) =~= wanted);
                },
            }
        },
    }
}

/// Expands one entry into its installation requests.
pub fn expand_entry(entry: &ModEntry, default: ModProvider) -> (r: Vec<AddRequest>)
    ensures
        r.deep_view() == entry_requests(entry@, default),
{
    let mut out: Vec<AddRequest> = Vec::new();
    assert(out.deep_view() =~= Seq::<AddRequestView>::empty());
    push_entry_requests(&mut out, entry, default);
    assert(Seq::<AddRequestView>::empty() + entry_requests(entry@, default) =~= entry_requests(
        entry@,
        default,
    ));
    out
}

/// Appends the requests of the entries of `mods` to `out`.
fn push_module_requests(out: &mut Vec<AddRequest>, mods: &Vec<ModEntry>, default: ModProvider)
    ensures
        final(out).deep_view() == old(out).deep_view() + module_requests(mods.deep_view(), default),
{
    let ghost before = out.deep_view();
    let ghost entries = mods.deep_view();
    let mut i: usize = 0;
    assert(entries.take(0) =~= Seq::<ModEntryView>::empty());
    assert(out.deep_view() =~= before + module_requests(entries.take(0), default));
    while i < mods.len()
        invariant
            i <= mods.len(),
            entries == mods.deep_view(),
            out.deep_view() == before + module_requests(entries.take(i as int), default),
        decreases mods.len() - i,
    {
        let ghost prev = out.deep_view();
        let ghost next = entries.take(i as int + 1);
        assert(next.drop_last() =~= entries.take(i as int));
        assert(next.last() == mods[i as int]@);
        push_entry_requests(out, &mods[i], default);
        assert(out.deep_view() =~= before + module_requests(next, default));
        i += 1;
    }
    assert(entries.take(mods.len() as int) =~= entries);
}

/// Expands a module into the installation requests of its entries.
pub fn expand_module(module: &Module, default: ModProvider) -> (r: Vec<AddRequest>)
    ensures
        r.deep_view() == module_requests(module@.mods, default),
{
    let mut out: Vec<AddRequest> = Vec::new();
    assert(out.deep_view() =~= Seq::<AddRequestView>::empty());
    push_module_requests(&mut out, &module.mods, default);
    assert(Seq::<AddRequestView>::empty() + module_requests(module@.mods, default) =~= module_requests(
        module@.mods,
        default,
    ));
    out
}

/// A fault among the first `k` ids is the fault of the whole list.
proof fn lemma_enabled_requests_fail(table: ModuleTable, ids: Seq<Text>, default: ModProvider, k: int)
    requires
        0 <= k <= ids.len(),
        enabled_requests(table, ids.take(k), default) is Err,
    ensures
        enabled_requests(table, ids, default) == enabled_requests(table, ids.take(k), default),
    decreases ids.len() - k,
{
    if k == ids.len() {
        assert(ids.take(k) =~= ids);
    } else {
        assert(ids.take(k + 1).drop_last() =~= ids.take(k));
        lemma_enabled_requests_fail(table, ids, default, k + 1);
    }
}

/// Expands the enabled modules into installation requests, module after
/// module in the order of `enabled`.
pub fn expand_enabled(modules: &Vec<(String, Module)>, enabled: &Vec<String>, default: ModProvider) -> (r:
    Result<Vec<AddRequest>, ValidationError>)
    ensures
        match r {
            Ok(requests) => enabled_requests(table_view(modules@), texts(enabled@), default) == Ok::<
                Seq<AddRequestView>,
                ValidationErrorView,
            >(requests.deep_view()),
            Err(e) => enabled_requests(table_view(modules@), texts(enabled@), default) == Err::<
                Seq<AddRequestView>,
                ValidationErrorView,
            >(e@),
        },
{
    let ghost table = table_view(modules@);
    let ghost ids = texts(enabled@);
    let mut out: Vec<AddRequest> = Vec::new();
    let mut i: usize = 0;
    assert(ids.take(0) =~= Seq::<Text>::empty());
    assert(out.deep_view() =~= Seq::<AddRequestView>::empty());
    while i < enabled.len()
        invariant
            i <= enabled.len(),
            table == table_view(modules@),
            ids == texts(enabled@),
            enabled_requests(table, ids.take(i as int), default) == Ok::<
                Seq<AddRequestView>,
                ValidationErrorView,
            >(out.deep_view()),
        decreases enabled.len() - i,
    {
        let ghost next = ids.take(i as int + 1);
        assert(next.drop_last() =~= ids.take(i as int));
        assert(next.last() == enabled[i as int]@);
        match find_module(modules, &enabled[i]) {
            None => {
                proof {
                    lemma_enabled_requests_fail(table, ids, default, i as int + 1);
                }
                return Err(ValidationError::UnknownModule(enabled[i].clone()));
            },
            Some(j) => {
                assert(table[j as int].1 == modules[j as int].1@);
                push_module_requests(&mut out, &modules[j].1.mods, default);
            },
        }
        i += 1;
    }
    assert(ids.take(enabled.len() as int) =~= ids);
    Ok(out)
}

/// The metadata a project is initialized with.
#[derive(Debug, PartialEq, Eq)]
pub struct ProjectMetadata {
    pub name: String,
    pub mc_version: String,
    pub author: Option<String>,
    pub version: Option<String>,
    pub modloader: ModLoader,
    pub loader_version: Option<String>,
    pub provider: ModProvider,
    pub yes: bool,
}

pub struct ProjectMetadataView {
    pub name: Text,
    pub mc_version: Text,
    pub author: Option<Text>,
    pub version: Option<Text>,
    pub modloader: ModLoader,
    pub loader_version: Option<Text>,
    pub provider: ModProvider,
    pub yes: bool,
}

impl View for ProjectMetadata {
    type V = ProjectMetadataView;

    open spec fn view(&self) -> ProjectMetadataView {
        ProjectMetadataView {
            name: self.name@,
            mc_version: self.mc_version@,
            author: opt_text(self.author),
            version: opt_text(self.version),
            modloader: self.modloader,
            loader_version: opt_text(self.loader_version),
            provider: self.provider,
            yes: self.yes,
        }
    }
}

impl Clone for ProjectMetadata {
    fn clone(&self) -> (r: Self)
        ensures
            r@ == self@,
    {
        ProjectMetadata {
            name: self.name.clone(),
            mc_version: self.mc_version.clone(),
            author: copy_opt_string(&self.author),
            version: copy_opt_string(&self.version),
            modloader: self.modloader,
            loader_version: copy_opt_string(&self.loader_version),
            provider: self.provider,
            yes: self.yes,
        }
    }
}

/// The value of a field: the override where one is given, the template's value
/// otherwise.
pub open spec fn overridden<A>(given: Option<A>, template: Option<A>) -> Option<A> {
    match given {
        Some(v) => Some(v),
        None => template,
    }
}

/// The effective metadata: for every field the override where one is given and
/// the template's value otherwise. A loader version counts only together with
/// the loader type it was given for; the provider is the template's.
pub open spec fn resolved_metadata(info: TemplateInfoView, config: PackConfigView) -> ProjectMetadataView {
    ProjectMetadataView {
        name: overridden(config.name, Some(info.name)).unwrap(),
        mc_version: overridden(config.mc_version, Some(info.mc_version)).unwrap(),
        author: overridden(config.author, info.author),
        version: overridden(config.version, info.version),
        modloader: overridden(config.modloader.ty, Some(info.modloader)).unwrap(),
        loader_version: if config.modloader.ty is Some {
            config.modloader.version
        } else {
            None
        },
        provider: info.provider,
        yes: config.yes,
    }
}

/// Resolves a field that may be absent in the end.
pub fn resolve_optional(given: &Option<String>, template: &Option<String>) -> (r: Option<String>)
    ensures
        opt_text(r) == overridden(opt_text(*given), opt_text(*template)),
{
    match given {
        Some(v) => Some(v.clone()),
        None => copy_opt_string(template),
    }
}

/// Resolves a field that every project needs: absent from both sources, it
/// is a `MissingRequiredField`.
pub fn resolve_required(field: RequiredField, given: &Option<String>, template: &Option<String>) -> (r:
    Result<String, ValidationError>)
    ensures
        match overridden(opt_text(*given), opt_text(*template)) {
            Some(v) => r matches Ok(s) && s@ == v,
            None => r matches Err(e) && e@ == ValidationErrorView::MissingRequiredField(field),
        },
{
    match resolve_optional(given, template) {
        Some(v) => Ok(v),
        None => Err(ValidationError::MissingRequiredField(field)),
    }
}

/// Resolves the project's metadata from the overrides and the template.
pub fn resolve_metadata(template: &Template, config: &PackConfig) -> (r: ProjectMetadata)
    ensures
        r@ == resolved_metadata(template@.info, config@),
{
    let info = &template.info;
    ProjectMetadata {
        name: match &config.name {
            Some(v) => v.clone(),
            None => info.name.clone(),
        },
        mc_version: match &config.mc_version {
            Some(v) => v.clone(),
            None => info.mc_version.clone(),
        },
        author: resolve_optional(&config.author, &info.author),
        version: resolve_optional(&config.version, &info.version),
        modloader: match config.modloader.ty {
            Some(l) => l,
            None => info.modloader,
        },
        loader_version: match config.modloader.ty {
            Some(_) => copy_opt_string(&config.modloader.version),
            None => None,
        },
        provider: info.provider,
        yes: config.yes,
    }
}

/// Every field of the resolved metadata is the override where one is given
/// and the template's value where none is.
pub proof fn law_override_wins(info: TemplateInfoView, config: PackConfigView)
    ensures
        ({
            let r = resolved_metadata(info, config);
            &&& config.name matches Some(v) ==> r.name == v
            &&& config.name is None ==> r.name == info.name
            &&& config.mc_version matches Some(v) ==> r.mc_version == v
            &&& config.mc_version is None ==> r.mc_version == info.mc_version
            &&& config.author matches Some(v) ==> r.author == Some(v)
            &&& config.author is None ==> r.author == info.author
            &&& config.version matches Some(v) ==> r.version == Some(v)
            &&& config.version is None ==> r.version == info.version
            &&& config.modloader.ty matches Some(l) ==> r.modloader == l && r.loader_version
                == config.modloader.version
            &&& config.modloader.ty is None ==> r.modloader == info.modloader && r.loader_version is None
            &&& r.provider == info.provider
            &&& r.yes == config.yes
        }),
{
}

/// One run of the package manager: the directory it runs in and its arguments.
#[derive(Debug, PartialEq, Eq)]
pub struct Invocation {
    pub dir: String,
    pub args: Vec<String>,
}

pub struct InvocationView {
    pub dir: Text,
    pub args: Seq<Text>,
}

impl View for Invocation {
    type V = InvocationView;

    open spec fn view(&self) -> InvocationView {
        InvocationView { dir: self.dir@, args: texts(self.args@) }
    }
}

impl Clone for Invocation {
    fn clone(&self) -> (r: Self)
        ensures
            r@ == self@,
    {
        Invocation { dir: self.dir.clone(), args: copy_strings(&self.args) }
    }
}

impl DeepView for Invocation {
    type V = InvocationView;

    open spec fn deep_view(&self) -> InvocationView {
        self@
    }
}

/// A flag with its value, where there is a value.
pub open spec fn flag(name: Text, value: Option<Text>) -> Seq<Text> {
    match value {
        Some(v) => seq![name, v],
        None => Seq::empty(),
    }
}

/// The arguments that initialize a project: `init`, the name and the game
/// version, the author and the pack version where there are any, and `--yes`
/// where confirmations are to be suppressed.
pub open spec fn init_args(meta: ProjectMetadataView) -> Seq<Text> {
    seq!["init"@, "--name"@, meta.name, "--mc-version"@, meta.mc_version] + flag("--author"@, meta.author)
        + flag("--version"@, meta.version) + (if meta.yes {
        seq!["--yes"@]
    } else {
        Seq::empty()
    })
}

/// The arguments that install one mod: `add`, the provider and the mod id.
pub open spec fn add_args(request: AddRequestView) -> Seq<Text> {
    seq!["add"@, request.provider.name(), request.id]
}

/// The runs that carry out `requests` in `dir`, one per request, in order.
pub open spec fn add_invocations(dir: Text, requests: Seq<AddRequestView>) -> Seq<InvocationView> {
    Seq::new(requests.len(), |k: int| InvocationView { dir, args: add_args(requests[k]) })
}

/// Whether a run initializes a project.
pub open spec fn is_init(invocation: InvocationView) -> bool {
    invocation.args.len() > 0 && invocation.args[0] == "init"@
}

/// Whether a project directory still has to be initialized: not when it
/// exists and holds the marker of a completed project.
pub fn needs_init(dir_exists: bool, marker_exists: bool) -> (b: bool)
    ensures
        b == !(dir_exists && marker_exists),
{
    !(dir_exists && marker_exists)
}

/// The arguments of the run that initializes a project.
pub fn build_init_args(meta: &ProjectMetadata) -> (r: Vec<String>)
    ensures
        texts(r@) == init_args(meta@),
{
    let mut args: Vec<String> = Vec::new();
    args.push("init".to_owned());
    args.push("--name".to_owned());
    args.push(meta.name.clone());
    args.push("--mc-version".to_owned());
    args.push(meta.mc_version.clone());
    match &meta.author {
        Some(author) => {
            args.push("--author".to_owned());
            args.push(author.clone());
        },
        None => {},
    }
    match &meta.version {
        Some(version) => {
            args.push("--version".to_owned());
            args.push(version.clone());
        },
        None => {},
    }
    if meta.yes {
        args.push("--yes".to_owned());
    }
    assert(texts(args@) =~= init_args(meta@));
    args
}

/// The arguments of the run that installs one mod.
pub fn build_add_args(request: &AddRequest) -> (r: Vec<String>)
    ensures
        texts(r@) == add_args(request@),
{
    let mut args: Vec<String> = Vec::new();
    args.push("add".to_owned());
    args.push(request.provider.as_str().to_owned());
    args.push(request.id.clone());
    assert(texts(args@) =~= add_args(request@));
    args
}

/// The driver of the package manager for one project directory.
#[derive(Debug, PartialEq, Eq)]
pub struct PackwizWrapper {
    pub dir: String,
}

/// The runs that set up a project: its initialization unless the project is
/// complete already, then the installation of every mod of the enabled
/// modules. Imports are merged first, so that no request is made of a
/// template whose imports are at fault.
pub open spec fn planned(
    dir: Text,
    template: TemplateView,
    config: PackConfigView,
    preselected: Seq<Text>,
    picked: Seq<usize>,
    has_marker: bool,
) -> Result<Seq<InvocationView>, ValidationErrorView> {
    match merged_table(template.modules) {
        Err(e) => Err(e),
        Ok(table) => match enabled_in(template.enable_modules, table, preselected, picked) {
            Err(e) => Err(e),
            Ok(ids) => match enabled_requests(table, ids, template.info.provider) {
                Err(e) => Err(e),
                Ok(requests) => {
                    let init = InvocationView {
                        dir,
                        args: init_args(resolved_metadata(template.info, config)),
                    };
                    let adds = add_invocations(dir, requests);
                    if has_marker {
                        Ok(adds)
                    } else {
                        Ok(seq![init] + adds)
                    }
                },
            },
        },
    }
}

impl PackwizWrapper {
    /// The driver for the project in `path`.
    pub fn new(path: String) -> (r: Self)
        ensures
            r.dir@ == path@,
    {
        PackwizWrapper { dir: path }
    }

    /// The run that initializes the project with the resolved metadata.
    pub fn init_project(&self, template: &Template, config: &PackConfig) -> (r: Invocation)
        ensures
            r@ == (InvocationView {
                dir: self.dir@,
                args: init_args(resolved_metadata(template@.info, config@)),
            }),
    {
        let meta = resolve_metadata(template, config);
        Invocation { dir: self.dir.clone(), args: build_init_args(&meta) }
    }

    /// The runs that install what one mod entry stands for.
    pub fn add_mod(&self, template: &Template, entry: &ModEntry) -> (r: Vec<Invocation>)
        ensures
            r.deep_view() == add_invocations(self.dir@, entry_requests(entry@, template@.info.provider)),
    {
        let requests = expand_entry(entry, template.info.provider);
        self.add_all(&requests)
    }

    /// The runs that carry out `requests`, one per request, in order.
    pub fn add_all(&self, requests: &Vec<AddRequest>) -> (r: Vec<Invocation>)
        ensures
            r.deep_view() == add_invocations(self.dir@, requests.deep_view()),
    {
        let mut out: Vec<Invocation> = Vec::new();
        let mut k: usize = 0;
        while k < requests.len()
            invariant
                k <= requests.len(),
                out.len() == k,
                forall|j: int|
                    0 <= j < k ==> out[j]@ == (InvocationView {
                        dir: self.dir@,
                        args: add_args(requests[j]@),
                    }),
            decreases requests.len() - k,
        {
            out.push(Invocation { dir: self.dir.clone(), args: build_add_args(&requests[k]) });
            k += 1;
        }
        assert(out.deep_view() =~= add_invocations(self.dir@, requests.deep_view()));
        out
    }

    /// The runs that set up the project, in the order they are to be made.
    /// `has_marker` says whether the project directory holds the marker of a
    /// completed project; `picked` holds positions among the offered modules
    /// and counts only where the template has no directive of its own.
    pub fn plan(
        &self,
        template: &Template,
        config: &PackConfig,
        preselected: &Vec<String>,
        picked: &Vec<usize>,
        has_marker: bool,
    ) -> (r: Result<Vec<Invocation>, ValidationError>)
        requires
            template@.enable_modules is None ==> picks_in_range(
                template@.modules,
                texts(preselected@),
                picked@,
            ),
        ensures
            match r {
                Ok(runs) => planned(
                    self.dir@,
                    template@,
                    config@,
                    texts(preselected@),
                    picked@,
                    has_marker,
                ) == Ok::<Seq<InvocationView>, ValidationErrorView>(runs.deep_view()),
                Err(e) => planned(
                    self.dir@,
                    template@,
                    config@,
                    texts(preselected@),
                    picked@,
                    has_marker,
                ) == Err::<Seq<InvocationView>, ValidationErrorView>(e@),
            },
            has_marker ==> (r matches Ok(runs) ==> forall|k: int|
                0 <= k < runs.len() ==> !is_init(#[trigger] runs[k]@)),
    {
        let merged = match merge_table(&template.modules) {
            Err(e) => {
                return Err(e);
            },
            Ok(merged) => merged,
        };
        proof {
            lemma_merged_ids(template@.modules);
            lemma_offered_by_ids(
                template@.modules,
                table_view(merged@),
                texts(preselected@),
                template@.modules.len(),
            );
        }
        let ids = match enabled_ids(&template.enable_modules, &merged, preselected, picked) {
            Err(e) => {
                return Err(e);
            },
            Ok(ids) => ids,
        };
        let requests = match expand_enabled(&merged, &ids, template.info.provider) {
            Err(e) => {
                return Err(e);
            },
            Ok(requests) => requests,
        };
        let mut runs: Vec<Invocation> = Vec::new();
        let ghost adds = add_invocations(self.dir@, requests.deep_view());
        let ghost init = InvocationView {
            dir: self.dir@,
            args: init_args(resolved_metadata(template@.info, config@)),
        };
        if !has_marker {
            runs.push(self.init_project(template, config));
        }
        let ghost head = runs.deep_view();
        let mut more = self.add_all(&requests);
        runs.append(&mut more);
        assert(runs.deep_view() =~= head + adds);
        proof {
            assert(template@.enable_modules == directive_view(template.enable_modules));
            if has_marker {
                assert(head =~= Seq::<InvocationView>::empty());
                assert(runs.deep_view() =~= adds);
                law_adds_are_no_init(self.dir@, requests.deep_view());
                assert forall|k: int| 0 <= k < runs.len() implies !is_init(#[trigger] runs[k]@) by {
                    assert(runs[k]@ == runs.deep_view()[k]);
                    assert(!is_init(add_invocations(self.dir@, requests.deep_view())[k]));
                }
            } else {
                assert(head =~= seq![init]);
            }
        }
        Ok(runs)
    }
}

/// How one run of the package manager ended.
#[derive(Clone, Copy, Debug, PartialEq, Eq, Structural)]
pub enum RunOutcome {
    /// The program could not be launched.
    NotSpawned,
    /// The program ran and reported failure.
    Failed,
    /// The program ran and reported success.
    Succeeded,
}

/// A run of the package manager that went wrong; `step` counts the runs made before it.
#[derive(Clone, Copy, Debug, PartialEq, Eq, Structural)]
pub enum ProcessError {
    ProcessSpawnError { step: usize },
    ProcessExitError { step: usize },
}

/// The runs of a plan, made one after the other: the next one is handed out
/// only when the one before has ended well.
#[derive(Debug)]
pub struct InstallRun {
    runs: Vec<Invocation>,
    done: usize,
}

impl InstallRun {
    #[verifier::type_invariant]
    spec fn within(self) -> bool {
        self.done <= self.runs.len()
    }

    /// The runs of the plan.
    pub closed spec fn runs(self) -> Seq<InvocationView> {
        self.runs.deep_view()
    }

    /// How many runs have ended well.
    pub closed spec fn done(self) -> nat {
        self.done as nat
    }

    /// Starts on a plan.
    pub fn new(runs: Vec<Invocation>) -> (r: Self)
        ensures
            r.runs() == runs.deep_view(),
            r.done() == 0,
    {
        InstallRun { runs, done: 0 }
    }

    /// The run to make now; none when the plan is carried out.
    pub fn next(&self) -> (r: Option<&Invocation>)
        ensures
            self.done() <= self.runs().len(),
            match r {
                Some(run) => self.done() < self.runs().len() && run@ == self.runs()[self.done() as int],
                None => self.done() == self.runs().len(),
            },
    {
        proof {
            use_type_invariant(self);
        }
        if self.done < self.runs.len() {
            Some(&self.runs[self.done])
        } else {
            None
        }
    }

    /// How many runs have ended well.
    pub fn completed(&self) -> (n: usize)
        ensures
            n == self.done(),
    {
        self.done
    }

    /// Takes note of how the current run ended. After a success the next run
    /// is due; after a failure the same run stays due and the failure is
    /// reported with the number of the run.
    pub fn record(&mut self, outcome: RunOutcome) -> (r: Result<(), ProcessError>)
        ensures
            final(self).runs() == old(self).runs(),
            match outcome {
                RunOutcome::Succeeded => r is Ok && final(self).done() == (if old(self).done() < old(
                    self,
                ).runs().len() {
                    old(self).done() + 1
                } else {
                    old(self).done()
                }),
                RunOutcome::Failed => r == Err::<(), ProcessError>(
                    ProcessError::ProcessExitError { step: old(self).done() as usize },
                ) && final(self).done() == old(self).done(),
                RunOutcome::NotSpawned => r == Err::<(), ProcessError>(
                    ProcessError::ProcessSpawnError { step: old(self).done() as usize },
                ) && final(self).done() == old(self).done(),
            },
    {
        proof {
            use_type_invariant(&*self);
        }
        match outcome {
            RunOutcome::Succeeded => {
                if self.done < self.runs.len() {
                    self.done = self.done + 1;
                }
                Ok(())
            },
            RunOutcome::Failed => Err(ProcessError::ProcessExitError { step: self.done }),
            RunOutcome::NotSpawned => Err(ProcessError::ProcessSpawnError { step: self.done }),
        }
    }
}

/// The merge keeps every module under its id and in its place.
pub proof fn lemma_merged_ids(table: ModuleTable)
    ensures
        merged_table(table) matches Ok(merged) ==> table_ids(merged) == table_ids(table),
{
    match merged_table(table) {
        Ok(merged) => {
            assert(table_ids(merged) =~= table_ids(table));
        },
        Err(_) => {},
    }
}

/// Which modules are offered depends on the ids of the table alone.
pub proof fn lemma_offered_by_ids(a: ModuleTable, b: ModuleTable, preselected: Seq<Text>, k: nat)
    requires
        table_ids(a) == table_ids(b),
        k <= a.len(),
    ensures
        offered_among(a, preselected, k) == offered_among(b, preselected, k),
    decreases k,
{
    if k > 0 {
        assert(table_ids(a).len() == a.len());
        assert(table_ids(b).len() == b.len());
        lemma_offered_by_ids(a, b, preselected, (k - 1) as nat);
        assert(table_ids(a)[k - 1] == a[k - 1].0);
        assert(table_ids(b)[k - 1] == b[k - 1].0);
    }
}

/// No run that installs a mod initializes a project.
pub proof fn law_adds_are_no_init(dir: Text, requests: Seq<AddRequestView>)
    ensures
        forall|k: int| 0 <= k < requests.len() ==> !is_init(#[trigger] add_invocations(dir, requests)[k]),
{
    reveal_strlit("add");
    reveal_strlit("init");
    assert("add"@.len() != "init"@.len());
}

/// A project that holds the marker of a completed project is never
/// initialized again, whatever else is given.
pub proof fn law_no_init_with_marker(
    dir: Text,
    template: TemplateView,
    config: PackConfigView,
    preselected: Seq<Text>,
    picked: Seq<usize>,
)
    ensures
        planned(dir, template, config, preselected, picked, true) matches Ok(runs) ==> forall|k: int|
            0 <= k < runs.len() ==> !is_init(#[trigger] runs[k]),
{
    match planned(dir, template, config, preselected, picked, true) {
        Ok(runs) => {
            let table = merged_table(template.modules)->Ok_0;
            let ids = enabled_in(template.enable_modules, table, preselected, picked)->Ok_0;
            let requests = enabled_requests(table, ids, template.info.provider)->Ok_0;
            law_adds_are_no_init(dir, requests);
        },
        Err(_) => {},
    }
}

/// No run is planned for a template whose modules import in a circle: the
/// fault is found before any entry is expanded.
pub proof fn law_no_plan_with_cycle(
    dir: Text,
    template: TemplateView,
    config: PackConfigView,
    preselected: Seq<Text>,
    picked: Seq<usize>,
    has_marker: bool,
    path: Seq<int>,
)
    requires
        import_cycle(template.modules, path),
    ensures
        planned(dir, template, config, preselected, picked, has_marker) is Err,
{
    law_cycle_rejected(template.modules, path);
}

} // verus!
