//! Reading a template out of a document, and writing it back into one.

use vstd::prelude::*;
use crate::document::tree;
use crate::document::Node;
use crate::document::NodeView;
use crate::error::Key;
use crate::error::LoadError;
use crate::error::LoadErrorView;
use crate::error::ParseError;
use crate::error::ParseErrorView;
use crate::seqs::first_index;
use crate::seqs::lemma_first_index;
use crate::seqs::lemma_first_index_is;
use crate::seqs::lemma_first_index_none;
use crate::document::parse_document;
use crate::document::yaml_value;
use crate::template::aliases_view;
use crate::template::opt_text;
use crate::template::picks_view;
use crate::template::table_view;
use crate::template::texts;
use crate::template::EnableModules;
use crate::template::EnableModulesView;
use crate::template::Module;
use crate::template::ModuleImport;
use crate::template::ModuleImportView;
use crate::template::ModuleTable;
use crate::template::ModuleView;
use crate::template::Template;
use crate::template::TemplateInfo;
use crate::template::TemplateInfoView;
use crate::template::TemplateView;
use crate::template::ModEntry;
use crate::template::ModEntryType;
use crate::template::ModEntryTypeView;
use crate::template::ModEntryView;
use crate::template::ModLoader;
use crate::template::ModProvider;
use crate::template::Text;

verus! {

/// The entries of a mapping.
pub type Pairs = Seq<(NodeView, NodeView)>;

/// The trees of a list of nodes.
pub open spec fn trees(items: Seq<Node>) -> Seq<NodeView> {
    Seq::new(items.len(), |i: int| tree(items[i]))
}

/// The trees of the entries of a mapping.
pub open spec fn pairs(entries: Seq<(Node, Node)>) -> Pairs {
    Seq::new(entries.len(), |i: int| (tree(entries[i].0), tree(entries[i].1)))
}

proof fn lemma_list_tree(items: Vec<Node>)
    ensures
        tree(Node::List(items)) == NodeView::List(trees(items@)),
{
    assert(tree(Node::List(items))->List_0 =~= trees(items@));
}

proof fn lemma_table_tree(entries: Vec<(Node, Node)>)
    ensures
        tree(Node::Table(entries)) == NodeView::Table(pairs(entries@)),
{
    assert(tree(Node::Table(entries))->Table_0 =~= pairs(entries@));
}

/// The keys of a mapping, in declared order.
pub open spec fn keys_of(entries: Pairs) -> Seq<NodeView> {
    Seq::new(entries.len(), |i: int| entries[i].0)
}

/// The value of the first entry of a mapping under `key`.
pub open spec fn slot(entries: Pairs, key: Text) -> Option<NodeView> {
    match first_index(keys_of(entries), NodeView::Str(key)) {
        None => None,
        Some(i) => Some(entries[i].1),
    }
}

/// What a mapping holds under `key`: the value of the first entry under it.
/// A null value counts as none.
pub open spec fn field(entries: Pairs, key: Text) -> Option<NodeView> {
    match slot(entries, key) {
        None => None,
        Some(NodeView::Null) => None,
        Some(value) => Some(value),
    }
}

/// A field that has to be there.
pub open spec fn required<A>(value: Result<Option<A>, ParseErrorView>, which: Key) -> Result<
    A,
    ParseErrorView,
> {
    match value {
        Err(e) => Err(e),
        Ok(None) => Err(ParseErrorView::Missing(which)),
        Ok(Some(v)) => Ok(v),
    }
}

/// A field that holds a text.
pub open spec fn text_field(entries: Pairs, key: Text, which: Key) -> Result<Option<Text>, ParseErrorView> {
    match field(entries, key) {
        None => Ok(None),
        Some(NodeView::Str(t)) => Ok(Some(t)),
        Some(_) => Err(ParseErrorView::Malformed(which)),
    }
}

/// A field that holds a truth value.
pub open spec fn bool_field(entries: Pairs, key: Text, which: Key) -> Result<Option<bool>, ParseErrorView> {
    match field(entries, key) {
        None => Ok(None),
        Some(NodeView::Bool(b)) => Ok(Some(b)),
        Some(_) => Err(ParseErrorView::Malformed(which)),
    }
}

/// The texts of a list that holds nothing but texts.
pub open spec fn texts_in(items: Seq<NodeView>, which: Key) -> Result<Seq<Text>, ParseErrorView>
    decreases items.len(),
{
    if items.len() == 0 {
        Ok(Seq::empty())
    } else {
        match texts_in(items.drop_last(), which) {
            Err(e) => Err(e),
            Ok(before) => match items.last() {
                NodeView::Str(t) => Ok(before.push(t)),
                _ => Err(ParseErrorView::Malformed(which)),
            },
        }
    }
}

/// A field that holds a list of texts.
pub open spec fn list_field(entries: Pairs, key: Text, which: Key) -> Result<
    Option<Seq<Text>>,
    ParseErrorView,
> {
    match field(entries, key) {
        None => Ok(None),
        Some(NodeView::List(items)) => match texts_in(items, which) {
            Err(e) => Err(e),
            Ok(list) => Ok(Some(list)),
        },
        Some(_) => Err(ParseErrorView::Malformed(which)),
    }
}

/// The provider of a name.
pub open spec fn provider_named(name: Text) -> Option<ModProvider> {
    if name == ModProvider::Curseforge.name() {
        Some(ModProvider::Curseforge)
    } else if name == ModProvider::Modrinth.name() {
        Some(ModProvider::Modrinth)
    } else {
        None
    }
}

/// The loader of a name.
pub open spec fn loader_named(name: Text) -> Option<ModLoader> {
    if name == ModLoader::Forge.name() {
        Some(ModLoader::Forge)
    } else if name == ModLoader::Fabric.name() {
        Some(ModLoader::Fabric)
    } else if name == ModLoader::Neoforge.name() {
        Some(ModLoader::Neoforge)
    } else if name == ModLoader::Quilt.name() {
        Some(ModLoader::Quilt)
    } else {
        None
    }
}

/// A field that names a provider.
pub open spec fn provider_field(entries: Pairs, key: Text, which: Key) -> Result<
    Option<ModProvider>,
    ParseErrorView,
> {
    match text_field(entries, key, which) {
        Err(e) => Err(e),
        Ok(None) => Ok(None),
        Ok(Some(name)) => match provider_named(name) {
            Some(p) => Ok(Some(p)),
            None => Err(ParseErrorView::Malformed(which)),
        },
    }
}

/// A field that names a loader.
pub open spec fn loader_field(entries: Pairs, key: Text, which: Key) -> Result<
    Option<ModLoader>,
    ParseErrorView,
> {
    match text_field(entries, key, which) {
        Err(e) => Err(e),
        Ok(None) => Ok(None),
        Ok(Some(name)) => match loader_named(name) {
            Some(l) => Ok(Some(l)),
            None => Err(ParseErrorView::Malformed(which)),
        },
    }
}

/// The type of an entry: `single`, or `list` or `pick` with their `mods`.
pub open spec fn decode_entry_type(entries: Pairs) -> Result<ModEntryTypeView, ParseErrorView> {
    match required(text_field(entries, "type"@, Key::EntryType), Key::EntryType) {
        Err(e) => Err(e),
        Ok(name) => if name == "single"@ {
            Ok(ModEntryTypeView::Single)
        } else if name == "list"@ {
            match required(list_field(entries, "mods"@, Key::EntryMods), Key::EntryMods) {
                Err(e) => Err(e),
                Ok(mods) => Ok(ModEntryTypeView::List { mods }),
            }
        } else if name == "pick"@ {
            match required(list_field(entries, "mods"@, Key::EntryMods), Key::EntryMods) {
                Err(e) => Err(e),
                Ok(mods) => Ok(ModEntryTypeView::Pick { mods }),
            }
        } else {
            Err(ParseErrorView::Malformed(Key::EntryType))
        },
    }
}

/// A mod entry: a bare text, or a mapping with `type`, `id` and, where given,
/// `provider` and `desc`.
pub open spec fn decode_entry(node: NodeView) -> Result<ModEntryView, ParseErrorView> {
    match node {
        NodeView::Str(id) => Ok(ModEntryView::Simple(id)),
        NodeView::Table(entries) => match decode_entry_type(entries) {
            Err(e) => Err(e),
            Ok(ty) => match required(text_field(entries, "id"@, Key::EntryId), Key::EntryId) {
                Err(e) => Err(e),
                Ok(id) => match provider_field(entries, "provider"@, Key::EntryProvider) {
                    Err(e) => Err(e),
                    Ok(provider) => match text_field(entries, "desc"@, Key::EntryDesc) {
                        Err(e) => Err(e),
                        Ok(desc) => Ok(ModEntryView::Advance { ty, id, provider, desc }),
                    },
                },
            },
        },
        _ => Err(ParseErrorView::Malformed(Key::Entry)),
    }
}

/// The mod entries of a list.
pub open spec fn decode_entries(items: Seq<NodeView>) -> Result<Seq<ModEntryView>, ParseErrorView>
    decreases items.len(),
{
    if items.len() == 0 {
        Ok(Seq::empty())
    } else {
        match decode_entries(items.drop_last()) {
            Err(e) => Err(e),
            Ok(before) => match decode_entry(items.last()) {
                Err(e) => Err(e),
                Ok(entry) => Ok(before.push(entry)),
            },
        }
    }
}

/// Whether a node is the text `key`.
fn is_text(node: &Node, key: &str) -> (b: bool)
    ensures
        b == (tree(*node) == NodeView::Str(key@)),
{
    match node {
        Node::Str(t) => *t == key.to_owned(),
        _ => false,
    }
}

/// Finds what a mapping holds under `key`.
fn find_field<'a>(entries: &'a Vec<(Node, Node)>, key: &str) -> (r: Option<&'a Node>)
    ensures
        match r {
            Some(node) => field(pairs(entries@), key@) == Some(tree(*node)),
            None => field(pairs(entries@), key@) is None,
        },
{
    let ghost keys = keys_of(pairs(entries@));
    let mut i: usize = 0;
    while i < entries.len()
        invariant
            i <= entries.len(),
            keys == keys_of(pairs(entries@)),
            forall|j: int| 0 <= j < i ==> keys[j] != NodeView::Str(key@),
        decreases entries.len() - i,
    {
        assert(keys[i as int] == tree(entries[i as int].0));
        if is_text(&entries[i].0, key) {
            proof {
                lemma_first_index_is(keys, NodeView::Str(key@), i as int);
                assert(pairs(entries@)[i as int].1 == tree(entries[i as int].1));
            }
            return match &entries[i].1 {
                Node::Null => None,
                node => Some(node),
            };
        }
        i += 1;
    }
    proof {
        lemma_first_index_none(keys, NodeView::Str(key@));
    }
    None
}

/// Reads a field that holds a text.
fn read_text(entries: &Vec<(Node, Node)>, key: &str, which: Key) -> (r: Result<Option<String>, ParseError>)
    ensures
        match r {
            Ok(Some(t)) => text_field(pairs(entries@), key@, which) == Ok::<Option<Text>, ParseErrorView>(
                Some(t@),
            ),
            Ok(None) => text_field(pairs(entries@), key@, which) == Ok::<Option<Text>, ParseErrorView>(
                None,
            ),
            Err(e) => text_field(pairs(entries@), key@, which) == Err::<Option<Text>, ParseErrorView>(e@),
        },
{
    match find_field(entries, key) {
        None => Ok(None),
        Some(Node::Str(t)) => Ok(Some(t.clone())),
        Some(_) => Err(ParseError::Malformed(which)),
    }
}

/// Reads a text that has to be there.
fn read_required_text(entries: &Vec<(Node, Node)>, key: &str, which: Key) -> (r: Result<String, ParseError>)
    ensures
        match r {
            Ok(t) => required(text_field(pairs(entries@), key@, which), which) == Ok::<
                Text,
                ParseErrorView,
            >(t@),
            Err(e) => required(text_field(pairs(entries@), key@, which), which) == Err::<
                Text,
                ParseErrorView,
            >(e@),
        },
{
    match read_text(entries, key, which) {
        Err(e) => Err(e),
        Ok(None) => Err(ParseError::Missing(which)),
        Ok(Some(t)) => Ok(t),
    }
}

/// Reads a field that holds a truth value.
fn read_bool(entries: &Vec<(Node, Node)>, key: &str, which: Key) -> (r: Result<Option<bool>, ParseError>)
    ensures
        match r {
            Ok(b) => bool_field(pairs(entries@), key@, which) == Ok::<Option<bool>, ParseErrorView>(b),
            Err(e) => bool_field(pairs(entries@), key@, which) == Err::<Option<bool>, ParseErrorView>(e@),
        },
{
    match find_field(entries, key) {
        None => Ok(None),
        Some(Node::Bool(b)) => Ok(Some(*b)),
        Some(_) => Err(ParseError::Malformed(which)),
    }
}

/// A fault among the first `k` items is the fault of the whole list.
proof fn lemma_texts_in_fail(items: Seq<NodeView>, which: Key, k: int)
    requires
        0 <= k <= items.len(),
        texts_in(items.take(k), which) is Err,
    ensures
        texts_in(items, which) == texts_in(items.take(k), which),
    decreases items.len() - k,
{
    if k == items.len() {
        assert(items.take(k) =~= items);
    } else {
        assert(items.take(k + 1).drop_last() =~= items.take(k));
        lemma_texts_in_fail(items, which, k + 1);
    }
}

/// Reads the texts of a list that holds nothing but texts.
fn read_texts(items: &Vec<Node>, which: Key) -> (r: Result<Vec<String>, ParseError>)
    ensures
        match r {
            Ok(list) => texts_in(trees(items@), which) == Ok::<Seq<Text>, ParseErrorView>(texts(list@)),
            Err(e) => texts_in(trees(items@), which) == Err::<Seq<Text>, ParseErrorView>(e@),
        },
{
    let ghost all = trees(items@);
    let mut list: Vec<String> = Vec::new();
    let mut i: usize = 0;
    assert(all.take(0) =~= Seq::<NodeView>::empty());
    assert(texts(list@) =~= Seq::<Text>::empty());
    while i < items.len()
        invariant
            i <= items.len(),
            all == trees(items@),
            texts_in(all.take(i as int), which) == Ok::<Seq<Text>, ParseErrorView>(texts(list@)),
        decreases items.len() - i,
    {
        let ghost before = texts(list@);
        let ghost next = all.take(i as int + 1);
        assert(next.drop_last() =~= all.take(i as int));
        assert(next.last() == tree(items[i as int]));
        match &items[i] {
            Node::Str(t) => {
                list.push(t.clone());
                assert(texts(list@) =~= before.push(t@));
            },
            _ => {
                proof {
                    lemma_texts_in_fail(all, which, i as int + 1);
                }
                return Err(ParseError::Malformed(which));
            },
        }
        i += 1;
    }
    assert(all.take(items.len() as int) =~= all);
    Ok(list)
}

/// Reads a field that holds a list of texts.
fn read_list(entries: &Vec<(Node, Node)>, key: &str, which: Key) -> (r: Result<
    Option<Vec<String>>,
    ParseError,
>)
    ensures
        match r {
            Ok(Some(list)) => list_field(pairs(entries@), key@, which) == Ok::<
                Option<Seq<Text>>,
                ParseErrorView,
            >(Some(texts(list@))),
            Ok(None) => list_field(pairs(entries@), key@, which) == Ok::<
                Option<Seq<Text>>,
                ParseErrorView,
            >(None),
            Err(e) => list_field(pairs(entries@), key@, which) == Err::<
                Option<Seq<Text>>,
                ParseErrorView,
            >(e@),
        },
{
    match find_field(entries, key) {
        None => Ok(None),
        Some(Node::List(items)) => {
            proof {
                lemma_list_tree(*items);
            }
            match read_texts(items, which) {
                Err(e) => Err(e),
                Ok(list) => Ok(Some(list)),
            }
        },
        Some(_) => Err(ParseError::Malformed(which)),
    }
}

/// Reads a list of texts that has to be there.
fn read_required_list(entries: &Vec<(Node, Node)>, key: &str, which: Key) -> (r: Result<
    Vec<String>,
    ParseError,
>)
    ensures
        match r {
            Ok(list) => required(list_field(pairs(entries@), key@, which), which) == Ok::<
                Seq<Text>,
                ParseErrorView,
            >(texts(list@)),
            Err(e) => required(list_field(pairs(entries@), key@, which), which) == Err::<
                Seq<Text>,
                ParseErrorView,
            >(e@),
        },
{
    match read_list(entries, key, which) {
        Err(e) => Err(e),
        Ok(None) => Err(ParseError::Missing(which)),
        Ok(Some(list)) => Ok(list),
    }
}

/// The provider that a text names.
pub fn provider_from_name(name: &String) -> (r: Option<ModProvider>)
    ensures
        r == provider_named(name@),
{
    if *name == ModProvider::Curseforge.as_str().to_owned() {
        Some(ModProvider::Curseforge)
    } else if *name == ModProvider::Modrinth.as_str().to_owned() {
        Some(ModProvider::Modrinth)
    } else {
        None
    }
}

/// The loader that a text names.
pub fn loader_from_name(name: &String) -> (r: Option<ModLoader>)
    ensures
        r == loader_named(name@),
{
    if *name == ModLoader::Forge.as_str().to_owned() {
        Some(ModLoader::Forge)
    } else if *name == ModLoader::Fabric.as_str().to_owned() {
        Some(ModLoader::Fabric)
    } else if *name == ModLoader::Neoforge.as_str().to_owned() {
        Some(ModLoader::Neoforge)
    } else if *name == ModLoader::Quilt.as_str().to_owned() {
        Some(ModLoader::Quilt)
    } else {
        None
    }
}

/// Reads a field that names a provider.
fn read_provider(entries: &Vec<(Node, Node)>, key: &str, which: Key) -> (r: Result<
    Option<ModProvider>,
    ParseError,
>)
    ensures
        match r {
            Ok(p) => provider_field(pairs(entries@), key@, which) == Ok::<
                Option<ModProvider>,
                ParseErrorView,
            >(p),
            Err(e) => provider_field(pairs(entries@), key@, which) == Err::<
                Option<ModProvider>,
                ParseErrorView,
            >(e@),
        },
{
    match read_text(entries, key, which) {
        Err(e) => Err(e),
        Ok(None) => Ok(None),
        Ok(Some(name)) => match provider_from_name(&name) {
            Some(p) => Ok(Some(p)),
            None => Err(ParseError::Malformed(which)),
        },
    }
}

/// Reads a field that names a loader.
fn read_loader(entries: &Vec<(Node, Node)>, key: &str, which: Key) -> (r: Result<
    Option<ModLoader>,
    ParseError,
>)
    ensures
        match r {
            Ok(l) => loader_field(pairs(entries@), key@, which) == Ok::<Option<ModLoader>, ParseErrorView>(
                l,
            ),
            Err(e) => loader_field(pairs(entries@), key@, which) == Err::<
                Option<ModLoader>,
                ParseErrorView,
            >(e@),
        },
{
    match read_text(entries, key, which) {
        Err(e) => Err(e),
        Ok(None) => Ok(None),
        Ok(Some(name)) => match loader_from_name(&name) {
            Some(l) => Ok(Some(l)),
            None => Err(ParseError::Malformed(which)),
        },
    }
}

/// Reads the type of an entry.
fn read_entry_type(entries: &Vec<(Node, Node)>) -> (r: Result<ModEntryType, ParseError>)
    ensures
        match r {
            Ok(ty) => decode_entry_type(pairs(entries@)) == Ok::<ModEntryTypeView, ParseErrorView>(ty@),
            Err(e) => decode_entry_type(pairs(entries@)) == Err::<ModEntryTypeView, ParseErrorView>(e@),
        },
{
    let name = match read_required_text(entries, "type", Key::EntryType) {
        Err(e) => {
            return Err(e);
        },
        Ok(name) => name,
    };
    if name == "single".to_owned() {
        Ok(ModEntryType::Single)
    } else if name == "list".to_owned() {
        match read_required_list(entries, "mods", Key::EntryMods) {
            Err(e) => Err(e),
            Ok(mods) => Ok(ModEntryType::List { mods }),
        }
    } else if name == "pick".to_owned() {
        match read_required_list(entries, "mods", Key::EntryMods) {
            Err(e) => Err(e),
            Ok(mods) => Ok(ModEntryType::Pick { mods }),
        }
    } else {
        Err(ParseError::Malformed(Key::EntryType))
    }
}

/// Reads a mod entry.
pub fn read_entry(node: &Node) -> (r: Result<ModEntry, ParseError>)
    ensures
        match r {
            Ok(entry) => decode_entry(node@) == Ok::<ModEntryView, ParseErrorView>(entry@),
            Err(e) => decode_entry(node@) == Err::<ModEntryView, ParseErrorView>(e@),
        },
{
    match node {
        Node::Str(id) => Ok(ModEntry::Simple(id.clone())),
        Node::Table(entries) => {
            proof {
                lemma_table_tree(*entries);
            }
            let ty = match read_entry_type(entries) {
                Err(e) => {
                    return Err(e);
                },
                Ok(ty) => ty,
            };
            let id = match read_required_text(entries, "id", Key::EntryId) {
                Err(e) => {
                    return Err(e);
                },
                Ok(id) => id,
            };
            let provider = match read_provider(entries, "provider", Key::EntryProvider) {
                Err(e) => {
                    return Err(e);
                },
                Ok(provider) => provider,
            };
            let desc = match read_text(entries, "desc", Key::EntryDesc) {
                Err(e) => {
                    return Err(e);
                },
                Ok(desc) => desc,
            };
            Ok(ModEntry::Advance { ty, id, provider, desc })
        },
        _ => Err(ParseError::Malformed(Key::Entry)),
    }
}

/// A fault among the first `k` items is the fault of the whole list.
proof fn lemma_decode_entries_fail(items: Seq<NodeView>, k: int)
    requires
        0 <= k <= items.len(),
        decode_entries(items.take(k)) is Err,
    ensures
        decode_entries(items) == decode_entries(items.take(k)),
    decreases items.len() - k,
{
    if k == items.len() {
        assert(items.take(k) =~= items);
    } else {
        assert(items.take(k + 1).drop_last() =~= items.take(k));
        lemma_decode_entries_fail(items, k + 1);
    }
}

/// Reads the mod entries of a list.
pub fn read_entries(items: &Vec<Node>) -> (r: Result<Vec<ModEntry>, ParseError>)
    ensures
        match r {
            Ok(mods) => decode_entries(trees(items@)) == Ok::<Seq<ModEntryView>, ParseErrorView>(
                mods.deep_view(),
            ),
            Err(e) => decode_entries(trees(items@)) == Err::<Seq<ModEntryView>, ParseErrorView>(e@),
        },
{
    let ghost all = trees(items@);
    let mut mods: Vec<ModEntry> = Vec::new();
    let mut i: usize = 0;
    assert(all.take(0) =~= Seq::<NodeView>::empty());
    assert(mods.deep_view() =~= Seq::<ModEntryView>::empty());
    while i < items.len()
        invariant
            i <= items.len(),
            all == trees(items@),
            decode_entries(all.take(i as int)) == Ok::<Seq<ModEntryView>, ParseErrorView>(
                mods.deep_view(),
            ),
        decreases items.len() - i,
    {
        let ghost before = mods.deep_view();
        let ghost next = all.take(i as int + 1);
        assert(next.drop_last() =~= all.take(i as int));
        assert(next.last() == tree(items[i as int]));
        match read_entry(&items[i]) {
            Err(e) => {
                proof {
                    lemma_decode_entries_fail(all, i as int + 1);
                }
                return Err(e);
            },
            Ok(entry) => {
                let ghost added = entry@;
                mods.push(entry);
                assert(mods.deep_view() =~= before.push(added));
            },
        }
        i += 1;
    }
    assert(all.take(items.len() as int) =~= all);
    Ok(mods)
}

/// The picks of a mapping: per source module the mod ids to draw, in
/// declared order.
pub open spec fn decode_picks(entries: Pairs) -> Result<Seq<(Text, Seq<Text>)>, ParseErrorView>
    decreases entries.len(),
{
    if entries.len() == 0 {
        Ok(Seq::empty())
    } else {
        match decode_picks(entries.drop_last()) {
            Err(e) => Err(e),
            Ok(before) => match entries.last() {
                (NodeView::Str(module), NodeView::List(items)) => match texts_in(items, Key::Picks) {
                    Err(e) => Err(e),
                    Ok(ids) => Ok(before.push((module, ids))),
                },
                _ => Err(ParseErrorView::Malformed(Key::Picks)),
            },
        }
    }
}

/// The `picks` of a module.
pub open spec fn picks_field(entries: Pairs) -> Result<Option<Seq<(Text, Seq<Text>)>>, ParseErrorView> {
    match field(entries, "picks"@) {
        None => Ok(None),
        Some(NodeView::Table(picks)) => match decode_picks(picks) {
            Err(e) => Err(e),
            Ok(list) => Ok(Some(list)),
        },
        Some(_) => Err(ParseErrorView::Malformed(Key::Picks)),
    }
}

/// The import of a module: there is one where `from` is given; `picks` and
/// `append_mods` belong to it.
pub open spec fn decode_import(entries: Pairs) -> Result<Option<ModuleImportView>, ParseErrorView> {
    match text_field(entries, "from"@, Key::From) {
        Err(e) => Err(e),
        Ok(None) => Ok(None),
        Ok(Some(import)) => match picks_field(entries) {
            Err(e) => Err(e),
            Ok(picks) => match bool_field(entries, "append_mods"@, Key::AppendMods) {
                Err(e) => Err(e),
                Ok(append_mods) => Ok(Some(ModuleImportView { import, picks, append_mods })),
            },
        },
    }
}

/// The `mods` of a module.
pub open spec fn mods_field(entries: Pairs) -> Result<Seq<ModEntryView>, ParseErrorView> {
    match field(entries, "mods"@) {
        None => Err(ParseErrorView::Missing(Key::Mods)),
        Some(NodeView::List(items)) => decode_entries(items),
        Some(_) => Err(ParseErrorView::Malformed(Key::Mods)),
    }
}

/// A module: a mapping with `name` and `mods` and, where given, `desc` and
/// an import.
pub open spec fn decode_module(node: NodeView) -> Result<ModuleView, ParseErrorView> {
    match node {
        NodeView::Table(entries) => match decode_import(entries) {
            Err(e) => Err(e),
            Ok(import) => match required(
                text_field(entries, "name"@, Key::ModuleName),
                Key::ModuleName,
            ) {
                Err(e) => Err(e),
                Ok(display_name) => match text_field(entries, "desc"@, Key::ModuleDesc) {
                    Err(e) => Err(e),
                    Ok(desc) => match mods_field(entries) {
                        Err(e) => Err(e),
                        Ok(mods) => Ok(ModuleView { import, display_name, desc, mods }),
                    },
                },
            },
        },
        _ => Err(ParseErrorView::Malformed(Key::Module)),
    }
}

/// The modules of a mapping, under their ids and in declared order.
pub open spec fn decode_modules(entries: Pairs) -> Result<ModuleTable, ParseErrorView>
    decreases entries.len(),
{
    if entries.len() == 0 {
        Ok(Seq::empty())
    } else {
        match decode_modules(entries.drop_last()) {
            Err(e) => Err(e),
            Ok(before) => match entries.last().0 {
                NodeView::Str(id) => match decode_module(entries.last().1) {
                    Err(e) => Err(e),
                    Ok(module) => Ok(before.push((id, module))),
                },
                _ => Err(ParseErrorView::Malformed(Key::Modules)),
            },
        }
    }
}

/// The `modules` of a template.
pub open spec fn modules_field(entries: Pairs) -> Result<ModuleTable, ParseErrorView> {
    match field(entries, "modules"@) {
        None => Err(ParseErrorView::Missing(Key::Modules)),
        Some(NodeView::Table(modules)) => decode_modules(modules),
        Some(_) => Err(ParseErrorView::Malformed(Key::Modules)),
    }
}

/// The aliases of a mapping with the locations they stand for.
pub open spec fn decode_aliases(entries: Pairs) -> Result<Seq<(Text, Text)>, ParseErrorView>
    decreases entries.len(),
{
    if entries.len() == 0 {
        Ok(Seq::empty())
    } else {
        match decode_aliases(entries.drop_last()) {
            Err(e) => Err(e),
            Ok(before) => match entries.last() {
                (NodeView::Str(alias), NodeView::Str(location)) => Ok(before.push((alias, location))),
                _ => Err(ParseErrorView::Malformed(Key::Imports)),
            },
        }
    }
}

/// The `imports` of a template.
pub open spec fn aliases_field(entries: Pairs) -> Result<Option<Seq<(Text, Text)>>, ParseErrorView> {
    match field(entries, "imports"@) {
        None => Ok(None),
        Some(NodeView::Table(aliases)) => match decode_aliases(aliases) {
            Err(e) => Err(e),
            Ok(list) => Ok(Some(list)),
        },
        Some(_) => Err(ParseErrorView::Malformed(Key::Imports)),
    }
}

/// The `enable_modules` of a template: the text `all`, or a list of module ids.
pub open spec fn enable_field(entries: Pairs) -> Result<Option<EnableModulesView>, ParseErrorView> {
    match field(entries, "enable_modules"@) {
        None => Ok(None),
        Some(NodeView::Str(word)) => if word == "all"@ {
            Ok(Some(EnableModulesView::All))
        } else {
            Err(ParseErrorView::Malformed(Key::EnableModules))
        },
        Some(NodeView::List(items)) => match texts_in(items, Key::EnableModules) {
            Err(e) => Err(e),
            Ok(ids) => Ok(Some(EnableModulesView::List(ids))),
        },
        Some(_) => Err(ParseErrorView::Malformed(Key::EnableModules)),
    }
}

/// The metadata of a template.
pub open spec fn decode_info(entries: Pairs) -> Result<TemplateInfoView, ParseErrorView> {
    match required(text_field(entries, "name"@, Key::Name), Key::Name) {
        Err(e) => Err(e),
        Ok(name) => match text_field(entries, "desc"@, Key::Desc) {
            Err(e) => Err(e),
            Ok(desc) => match text_field(entries, "author"@, Key::Author) {
                Err(e) => Err(e),
                Ok(author) => match text_field(entries, "version"@, Key::Version) {
                    Err(e) => Err(e),
                    Ok(version) => match required(
                        provider_field(entries, "provider"@, Key::Provider),
                        Key::Provider,
                    ) {
                        Err(e) => Err(e),
                        Ok(provider) => match required(
                            loader_field(entries, "loader"@, Key::Loader),
                            Key::Loader,
                        ) {
                            Err(e) => Err(e),
                            Ok(modloader) => match required(
                                text_field(entries, "mc_version"@, Key::McVersion),
                                Key::McVersion,
                            ) {
                                Err(e) => Err(e),
                                Ok(mc_version) => Ok(
                                    TemplateInfoView {
                                        name,
                                        desc,
                                        author,
                                        version,
                                        provider,
                                        modloader,
                                        mc_version,
                                    },
                                ),
                            },
                        },
                    },
                },
            },
        },
    }
}

/// The template that a document holds: a mapping with the metadata, the
/// modules and, where given, import aliases and the modules to enable.
/// Entries under other keys are passed over.
pub open spec fn decode_template(node: NodeView) -> Result<TemplateView, ParseErrorView> {
    match node {
        NodeView::Table(entries) => match decode_info(entries) {
            Err(e) => Err(e),
            Ok(info) => match aliases_field(entries) {
                Err(e) => Err(e),
                Ok(imports) => match enable_field(entries) {
                    Err(e) => Err(e),
                    Ok(enable_modules) => match modules_field(entries) {
                        Err(e) => Err(e),
                        Ok(modules) => Ok(TemplateView { info, imports, enable_modules, modules }),
                    },
                },
            },
        },
        _ => Err(ParseErrorView::Malformed(Key::Root)),
    }
}

/// The template that a text holds.
pub open spec fn decode_text(text: Seq<char>) -> Result<TemplateView, ParseErrorView> {
    match yaml_value(text) {
        Err(message) => Err(ParseErrorView::Syntax(message)),
        Ok(node) => decode_template(node),
    }
}

proof fn lemma_decode_picks_fail(entries: Pairs, k: int)
    requires
        0 <= k <= entries.len(),
        decode_picks(entries.take(k)) is Err,
    ensures
        decode_picks(entries) == decode_picks(entries.take(k)),
    decreases entries.len() - k,
{
    if k == entries.len() {
        assert(entries.take(k) =~= entries);
    } else {
        assert(entries.take(k + 1).drop_last() =~= entries.take(k));
        lemma_decode_picks_fail(entries, k + 1);
    }
}

proof fn lemma_decode_modules_fail(entries: Pairs, k: int)
    requires
        0 <= k <= entries.len(),
        decode_modules(entries.take(k)) is Err,
    ensures
        decode_modules(entries) == decode_modules(entries.take(k)),
    decreases entries.len() - k,
{
    if k == entries.len() {
        assert(entries.take(k) =~= entries);
    } else {
        assert(entries.take(k + 1).drop_last() =~= entries.take(k));
        lemma_decode_modules_fail(entries, k + 1);
    }
}

proof fn lemma_decode_aliases_fail(entries: Pairs, k: int)
    requires
        0 <= k <= entries.len(),
        decode_aliases(entries.take(k)) is Err,
    ensures
        decode_aliases(entries) == decode_aliases(entries.take(k)),
    decreases entries.len() - k,
{
    if k == entries.len() {
        assert(entries.take(k) =~= entries);
    } else {
        assert(entries.take(k + 1).drop_last() =~= entries.take(k));
        lemma_decode_aliases_fail(entries, k + 1);
    }
}

/// Reads the picks of a mapping.
fn read_picks(entries: &Vec<(Node, Node)>) -> (r: Result<Vec<(String, Vec<String>)>, ParseError>)
    ensures
        match r {
            Ok(picks) => decode_picks(pairs(entries@)) == Ok::<Seq<(Text, Seq<Text>)>, ParseErrorView>(
                picks_view(picks@),
            ),
            Err(e) => decode_picks(pairs(entries@)) == Err::<Seq<(Text, Seq<Text>)>, ParseErrorView>(e@),
        },
{
    let ghost all = pairs(entries@);
    let mut picks: Vec<(String, Vec<String>)> = Vec::new();
    let mut i: usize = 0;
    assert(all.take(0) =~= Seq::<(NodeView, NodeView)>::empty());
    assert(picks_view(picks@) =~= Seq::<(Text, Seq<Text>)>::empty());
    while i < entries.len()
        invariant
            i <= entries.len(),
            all == pairs(entries@),
            decode_picks(all.take(i as int)) == Ok::<Seq<(Text, Seq<Text>)>, ParseErrorView>(
                picks_view(picks@),
            ),
        decreases entries.len() - i,
    {
        let ghost before = picks_view(picks@);
        let ghost next = all.take(i as int + 1);
        assert(next.drop_last() =~= all.take(i as int));
        assert(next.last() == (tree(entries[i as int].0), tree(entries[i as int].1)));
        match (&entries[i].0, &entries[i].1) {
            (Node::Str(module), Node::List(items)) => {
                proof {
                    lemma_list_tree(*items);
                }
                match read_texts(items, Key::Picks) {
                    Err(e) => {
                        proof {
                            lemma_decode_picks_fail(all, i as int + 1);
                        }
                        return Err(e);
                    },
                    Ok(ids) => {
                        let ghost added = (module@, texts(ids@));
                        picks.push((module.clone(), ids));
                        assert(picks_view(picks@) =~= before.push(added));
                    },
                }
            },
            _ => {
                proof {
                    lemma_decode_picks_fail(all, i as int + 1);
                }
                return Err(ParseError::Malformed(Key::Picks));
            },
        }
        i += 1;
    }
    assert(all.take(entries.len() as int) =~= all);
    Ok(picks)
}

/// Reads the import of a module.
fn read_import(entries: &Vec<(Node, Node)>) -> (r: Result<Option<ModuleImport>, ParseError>)
    ensures
        match r {
            Ok(Some(import)) => decode_import(pairs(entries@)) == Ok::<
                Option<ModuleImportView>,
                ParseErrorView,
            >(Some(import@)),
            Ok(None) => decode_import(pairs(entries@)) == Ok::<Option<ModuleImportView>, ParseErrorView>(
                None,
            ),
            Err(e) => decode_import(pairs(entries@)) == Err::<Option<ModuleImportView>, ParseErrorView>(
                e@,
            ),
        },
{
    let import = match read_text(entries, "from", Key::From) {
        Err(e) => {
            return Err(e);
        },
        Ok(None) => {
            return Ok(None);
        },
        Ok(Some(import)) => import,
    };
    let picks = match find_field(entries, "picks") {
        None => None,
        Some(Node::Table(picks)) => {
            proof {
                lemma_table_tree(*picks);
            }
            match read_picks(picks) {
                Err(e) => {
                    return Err(e);
                },
                Ok(list) => Some(list),
            }
        },
        Some(_) => {
            return Err(ParseError::Malformed(Key::Picks));
        },
    };
    let append_mods = match read_bool(entries, "append_mods", Key::AppendMods) {
        Err(e) => {
            return Err(e);
        },
        Ok(append_mods) => append_mods,
    };
    Ok(Some(ModuleImport { import, picks, append_mods }))
}

/// Reads a module.
pub fn read_module(node: &Node) -> (r: Result<Module, ParseError>)
    ensures
        match r {
            Ok(module) => decode_module(node@) == Ok::<ModuleView, ParseErrorView>(module@),
            Err(e) => decode_module(node@) == Err::<ModuleView, ParseErrorView>(e@),
        },
{
    match node {
        Node::Table(entries) => {
            proof {
                lemma_table_tree(*entries);
            }
            let import = match read_import(entries) {
                Err(e) => {
                    return Err(e);
                },
                Ok(import) => import,
            };
            let display_name = match read_required_text(entries, "name", Key::ModuleName) {
                Err(e) => {
                    return Err(e);
                },
                Ok(name) => name,
            };
            let desc = match read_text(entries, "desc", Key::ModuleDesc) {
                Err(e) => {
                    return Err(e);
                },
                Ok(desc) => desc,
            };
            let mods = match find_field(entries, "mods") {
                None => {
                    return Err(ParseError::Missing(Key::Mods));
                },
                Some(Node::List(items)) => {
                    proof {
                        lemma_list_tree(*items);
                    }
                    match read_entries(items) {
                        Err(e) => {
                            return Err(e);
                        },
                        Ok(mods) => mods,
                    }
                },
                Some(_) => {
                    return Err(ParseError::Malformed(Key::Mods));
                },
            };
            Ok(Module { import, display_name, desc, mods })
        },
        _ => Err(ParseError::Malformed(Key::Module)),
    }
}

/// Reads the modules of a mapping.
fn read_modules(entries: &Vec<(Node, Node)>) -> (r: Result<Vec<(String, Module)>, ParseError>)
    ensures
        match r {
            Ok(modules) => decode_modules(pairs(entries@)) == Ok::<ModuleTable, ParseErrorView>(
                table_view(modules@),
            ),
            Err(e) => decode_modules(pairs(entries@)) == Err::<ModuleTable, ParseErrorView>(e@),
        },
{
    let ghost all = pairs(entries@);
    let mut modules: Vec<(String, Module)> = Vec::new();
    let mut i: usize = 0;
    assert(all.take(0) =~= Seq::<(NodeView, NodeView)>::empty());
    assert(table_view(modules@) =~= Seq::<(Text, ModuleView)>::empty());
    while i < entries.len()
        invariant
            i <= entries.len(),
            all == pairs(entries@),
            decode_modules(all.take(i as int)) == Ok::<ModuleTable, ParseErrorView>(table_view(modules@)),
        decreases entries.len() - i,
    {
        let ghost before = table_view(modules@);
        let ghost next = all.take(i as int + 1);
        assert(next.drop_last() =~= all.take(i as int));
        assert(next.last() == (tree(entries[i as int].0), tree(entries[i as int].1)));
        match &entries[i].0 {
            Node::Str(id) => {
                match read_module(&entries[i].1) {
                    Err(e) => {
                        proof {
                            lemma_decode_modules_fail(all, i as int + 1);
                        }
                        return Err(e);
                    },
                    Ok(module) => {
                        let ghost added = (id@, module@);
                        modules.push((id.clone(), module));
                        assert(table_view(modules@) =~= before.push(added));
                    },
                }
            },
            _ => {
                proof {
                    lemma_decode_modules_fail(all, i as int + 1);
                }
                return Err(ParseError::Malformed(Key::Modules));
            },
        }
        i += 1;
    }
    assert(all.take(entries.len() as int) =~= all);
    Ok(modules)
}

/// Reads the aliases of a mapping.
fn read_aliases(entries: &Vec<(Node, Node)>) -> (r: Result<Vec<(String, String)>, ParseError>)
    ensures
        match r {
            Ok(aliases) => decode_aliases(pairs(entries@)) == Ok::<Seq<(Text, Text)>, ParseErrorView>(
                aliases_view(aliases@),
            ),
            Err(e) => decode_aliases(pairs(entries@)) == Err::<Seq<(Text, Text)>, ParseErrorView>(e@),
        },
{
    let ghost all = pairs(entries@);
    let mut aliases: Vec<(String, String)> = Vec::new();
    let mut i: usize = 0;
    assert(all.take(0) =~= Seq::<(NodeView, NodeView)>::empty());
    assert(aliases_view(aliases@) =~= Seq::<(Text, Text)>::empty());
    while i < entries.len()
        invariant
            i <= entries.len(),
            all == pairs(entries@),
            decode_aliases(all.take(i as int)) == Ok::<Seq<(Text, Text)>, ParseErrorView>(
                aliases_view(aliases@),
            ),
        decreases entries.len() - i,
    {
        let ghost before = aliases_view(aliases@);
        let ghost next = all.take(i as int + 1);
        assert(next.drop_last() =~= all.take(i as int));
        assert(next.last() == (tree(entries[i as int].0), tree(entries[i as int].1)));
        match (&entries[i].0, &entries[i].1) {
            (Node::Str(alias), Node::Str(location)) => {
                let ghost added = (alias@, location@);
                aliases.push((alias.clone(), location.clone()));
                assert(aliases_view(aliases@) =~= before.push(added));
            },
            _ => {
                proof {
                    lemma_decode_aliases_fail(all, i as int + 1);
                }
                return Err(ParseError::Malformed(Key::Imports));
            },
        }
        i += 1;
    }
    assert(all.take(entries.len() as int) =~= all);
    Ok(aliases)
}

/// Reads the metadata of a template.
fn read_info(entries: &Vec<(Node, Node)>) -> (r: Result<TemplateInfo, ParseError>)
    ensures
        match r {
            Ok(info) => decode_info(pairs(entries@)) == Ok::<TemplateInfoView, ParseErrorView>(info@),
            Err(e) => decode_info(pairs(entries@)) == Err::<TemplateInfoView, ParseErrorView>(e@),
        },
{
    let name = match read_required_text(entries, "name", Key::Name) {
        Err(e) => {
            return Err(e);
        },
        Ok(v) => v,
    };
    let desc = match read_text(entries, "desc", Key::Desc) {
        Err(e) => {
            return Err(e);
        },
        Ok(v) => v,
    };
    let author = match read_text(entries, "author", Key::Author) {
        Err(e) => {
            return Err(e);
        },
        Ok(v) => v,
    };
    let version = match read_text(entries, "version", Key::Version) {
        Err(e) => {
            return Err(e);
        },
        Ok(v) => v,
    };
    let provider = match read_provider(entries, "provider", Key::Provider) {
        Err(e) => {
            return Err(e);
        },
        Ok(None) => {
            return Err(ParseError::Missing(Key::Provider));
        },
        Ok(Some(v)) => v,
    };
    let modloader = match read_loader(entries, "loader", Key::Loader) {
        Err(e) => {
            return Err(e);
        },
        Ok(None) => {
            return Err(ParseError::Missing(Key::Loader));
        },
        Ok(Some(v)) => v,
    };
    let mc_version = match read_required_text(entries, "mc_version", Key::McVersion) {
        Err(e) => {
            return Err(e);
        },
        Ok(v) => v,
    };
    Ok(TemplateInfo { name, desc, author, version, provider, modloader, mc_version })
}

impl Template {
    /// Reads a template out of a document.
    pub fn from_node(node: &Node) -> (r: Result<Template, ParseError>)
        ensures
            match r {
                Ok(template) => decode_template(node@) == Ok::<TemplateView, ParseErrorView>(template@),
                Err(e) => decode_template(node@) == Err::<TemplateView, ParseErrorView>(e@),
            },
    {
        match node {
            Node::Table(entries) => {
                proof {
                    lemma_table_tree(*entries);
                }
                let info = match read_info(entries) {
                    Err(e) => {
                        return Err(e);
                    },
                    Ok(info) => info,
                };
                let imports = match find_field(entries, "imports") {
                    None => None,
                    Some(Node::Table(aliases)) => {
                        proof {
                            lemma_table_tree(*aliases);
                        }
                        match read_aliases(aliases) {
                            Err(e) => {
                                return Err(e);
                            },
                            Ok(list) => Some(list),
                        }
                    },
                    Some(_) => {
                        return Err(ParseError::Malformed(Key::Imports));
                    },
                };
                let enable_modules = match find_field(entries, "enable_modules") {
                    None => None,
                    Some(Node::Str(word)) => {
                        if *word == "all".to_owned() {
                            Some(EnableModules::All)
                        } else {
                            return Err(ParseError::Malformed(Key::EnableModules));
                        }
                    },
                    Some(Node::List(items)) => {
                        proof {
                            lemma_list_tree(*items);
                        }
                        match read_texts(items, Key::EnableModules) {
                            Err(e) => {
                                return Err(e);
                            },
                            Ok(ids) => Some(EnableModules::List(ids)),
                        }
                    },
                    Some(_) => {
                        return Err(ParseError::Malformed(Key::EnableModules));
                    },
                };
                let modules = match find_field(entries, "modules") {
                    None => {
                        return Err(ParseError::Missing(Key::Modules));
                    },
                    Some(Node::Table(modules)) => {
                        proof {
                            lemma_table_tree(*modules);
                        }
                        match read_modules(modules) {
                            Err(e) => {
                                return Err(e);
                            },
                            Ok(modules) => modules,
                        }
                    },
                    Some(_) => {
                        return Err(ParseError::Malformed(Key::Modules));
                    },
                };
                Ok(Template { info, imports, enable_modules, modules })
            },
            _ => Err(ParseError::Malformed(Key::Root)),
        }
    }

    /// Loads a template from what reading its file gave: the file's text, or
    /// nothing where there is no readable file.
    pub fn load_from_file(content: Option<&str>) -> (r: Result<Template, LoadError>)
        ensures
            match content {
                None => r matches Err(e) && e@ == LoadErrorView::NotFound,
                Some(text) => match decode_text(text@) {
                    Ok(template) => r matches Ok(t) && t@ == template,
                    Err(fault) => r matches Err(e) && e@ == LoadErrorView::ParseError(fault),
                },
            },
    {
        match content {
            None => Err(LoadError::NotFound),
            Some(text) => match Template::load_from_str(text) {
                Ok(template) => Ok(template),
                Err(e) => Err(LoadError::ParseError(e)),
            },
        }
    }

    /// Reads a template out of the text of a document.
    pub fn load_from_str(text: &str) -> (r: Result<Template, ParseError>)
        ensures
            match r {
                Ok(template) => decode_text(text@) == Ok::<TemplateView, ParseErrorView>(template@),
                Err(e) => decode_text(text@) == Err::<TemplateView, ParseErrorView>(e@),
            },
    {
        match parse_document(text) {
            Err(message) => Err(ParseError::Syntax(message)),
            Ok(node) => Template::from_node(&node),
        }
    }
}

/// A mapping with one more entry, where there is a value for it.
pub open spec fn with(entries: Pairs, key: Text, value: Option<NodeView>) -> Pairs {
    match value {
        Some(v) => entries.push((NodeView::Str(key), v)),
        None => entries,
    }
}

/// A text, where there is one, as a node.
pub open spec fn opt_str(text: Option<Text>) -> Option<NodeView> {
    match text {
        Some(t) => Some(NodeView::Str(t)),
        None => None,
    }
}

/// Texts as the nodes of a list.
pub open spec fn text_nodes(items: Seq<Text>) -> Seq<NodeView> {
    Seq::new(items.len(), |i: int| NodeView::Str(items[i]))
}

/// The word for the type of an entry.
pub open spec fn type_word(ty: ModEntryTypeView) -> Text {
    match ty {
        ModEntryTypeView::Single => "single"@,
        ModEntryTypeView::List { .. } => "list"@,
        ModEntryTypeView::Pick { .. } => "pick"@,
    }
}

/// The `mods` that go with the type of an entry.
pub open spec fn type_mods(ty: ModEntryTypeView) -> Option<NodeView> {
    match ty {
        ModEntryTypeView::Single => None,
        ModEntryTypeView::List { mods } => Some(NodeView::List(text_nodes(mods))),
        ModEntryTypeView::Pick { mods } => Some(NodeView::List(text_nodes(mods))),
    }
}

/// The name of a provider, where there is one, as a node.
pub open spec fn opt_provider(provider: Option<ModProvider>) -> Option<NodeView> {
    match provider {
        Some(p) => Some(NodeView::Str(p.name())),
        None => None,
    }
}

/// The entries of the mapping that an advanced entry is written as.
pub open spec fn entry_pairs(
    ty: ModEntryTypeView,
    id: Text,
    provider: Option<ModProvider>,
    desc: Option<Text>,
) -> Pairs {
    let a = with(Seq::empty(), "type"@, Some(NodeView::Str(type_word(ty))));
    let b = with(a, "mods"@, type_mods(ty));
    let c = with(b, "id"@, Some(NodeView::Str(id)));
    let d = with(c, "provider"@, opt_provider(provider));
    with(d, "desc"@, opt_str(desc))
}

/// A mod entry as a node: a simple one as its id, an advanced one as a
/// mapping that holds what the entry holds and nothing that it lacks.
pub open spec fn encode_entry(entry: ModEntryView) -> NodeView {
    match entry {
        ModEntryView::Simple(id) => NodeView::Str(id),
        ModEntryView::Advance { ty, id, provider, desc } => NodeView::Table(
            entry_pairs(ty, id, provider, desc),
        ),
    }
}

/// Mod entries as the nodes of a list.
pub open spec fn entry_nodes(mods: Seq<ModEntryView>) -> Seq<NodeView> {
    Seq::new(mods.len(), |i: int| encode_entry(mods[i]))
}

/// Picks as the entries of a mapping.
pub open spec fn pick_pairs(picks: Seq<(Text, Seq<Text>)>) -> Pairs {
    Seq::new(picks.len(), |i: int| (NodeView::Str(picks[i].0), NodeView::List(text_nodes(picks[i].1))))
}

/// The source of an import, where there is an import.
pub open spec fn import_from(import: Option<ModuleImportView>) -> Option<NodeView> {
    match import {
        Some(i) => Some(NodeView::Str(i.import)),
        None => None,
    }
}

/// The picks of an import, where it has picks.
pub open spec fn import_picks(import: Option<ModuleImportView>) -> Option<NodeView> {
    match import {
        Some(ModuleImportView { picks: Some(picks), .. }) => Some(NodeView::Table(pick_pairs(picks))),
        _ => None,
    }
}

/// The `append_mods` of an import, where it is given.
pub open spec fn import_append(import: Option<ModuleImportView>) -> Option<NodeView> {
    match import {
        Some(ModuleImportView { append_mods: Some(b), .. }) => Some(NodeView::Bool(b)),
        _ => None,
    }
}

/// The entries of the mapping that a module is written as.
pub open spec fn module_pairs(module: ModuleView) -> Pairs {
    let a = with(Seq::empty(), "from"@, import_from(module.import));
    let b = with(a, "picks"@, import_picks(module.import));
    let c = with(b, "append_mods"@, import_append(module.import));
    let d = with(c, "name"@, Some(NodeView::Str(module.display_name)));
    let e = with(d, "desc"@, opt_str(module.desc));
    with(e, "mods"@, Some(NodeView::List(entry_nodes(module.mods))))
}

/// A module as a node.
pub open spec fn encode_module(module: ModuleView) -> NodeView {
    NodeView::Table(module_pairs(module))
}

/// Modules as the entries of a mapping.
pub open spec fn table_pairs(table: ModuleTable) -> Pairs {
    Seq::new(table.len(), |i: int| (NodeView::Str(table[i].0), encode_module(table[i].1)))
}

/// Aliases as the entries of a mapping.
pub open spec fn alias_pairs(aliases: Seq<(Text, Text)>) -> Pairs {
    Seq::new(aliases.len(), |i: int| (NodeView::Str(aliases[i].0), NodeView::Str(aliases[i].1)))
}

/// The aliases of a template, where it has any, as a node.
pub open spec fn opt_aliases(imports: Option<Seq<(Text, Text)>>) -> Option<NodeView> {
    match imports {
        Some(aliases) => Some(NodeView::Table(alias_pairs(aliases))),
        None => None,
    }
}

/// The directive of a template, where it has one, as a node.
pub open spec fn opt_enable(directive: Option<EnableModulesView>) -> Option<NodeView> {
    match directive {
        Some(EnableModulesView::All) => Some(NodeView::Str("all"@)),
        Some(EnableModulesView::List(ids)) => Some(NodeView::List(text_nodes(ids))),
        None => None,
    }
}

/// The entries of the mapping that a template is written as.
pub open spec fn template_pairs(template: TemplateView) -> Pairs {
    let info = template.info;
    let a = with(Seq::empty(), "name"@, Some(NodeView::Str(info.name)));
    let b = with(a, "desc"@, opt_str(info.desc));
    let c = with(b, "author"@, opt_str(info.author));
    let d = with(c, "version"@, opt_str(info.version));
    let e = with(d, "provider"@, Some(NodeView::Str(info.provider.name())));
    let f = with(e, "loader"@, Some(NodeView::Str(info.modloader.name())));
    let g = with(f, "mc_version"@, Some(NodeView::Str(info.mc_version)));
    let h = with(g, "imports"@, opt_aliases(template.imports));
    let i = with(h, "enable_modules"@, opt_enable(template.enable_modules));
    with(i, "modules"@, Some(NodeView::Table(table_pairs(template.modules))))
}

/// A template as a document: a mapping that holds every field the template
/// has, under the key it is read from, and none that it lacks.
pub open spec fn encode_template(template: TemplateView) -> NodeView {
    NodeView::Table(template_pairs(template))
}

/// What `with` adds is found under its key unless the key was there before.
pub proof fn lemma_with(entries: Pairs, key: Text, value: Option<NodeView>)
    ensures
        forall|k: Text| #[trigger]
            slot(with(entries, key, value), k) == (match slot(entries, k) {
                Some(v) => Some(v),
                None => if k == key {
                    value
                } else {
                    None
                },
            }),
        slot(Seq::<(NodeView, NodeView)>::empty(), key) is None,
{
    assert(keys_of(Seq::<(NodeView, NodeView)>::empty()) =~= Seq::<NodeView>::empty());
    match value {
        None => {},
        Some(v) => {
            let more = entries.push((NodeView::Str(key), v));
            assert(keys_of(more).drop_last() =~= keys_of(entries));
            assert(keys_of(more).last() == NodeView::Str(key));
            assert forall|k: Text| #[trigger]
                slot(more, k) == (match slot(entries, k) {
                    Some(v) => Some(v),
                    None => if k == key {
                        value
                    } else {
                        None
                    },
                }) by {
                lemma_first_index(keys_of(entries), NodeView::Str(k));
                match first_index(keys_of(entries), NodeView::Str(k)) {
                    Some(i) => {
                        assert(more[i] == entries[i]);
                    },
                    None => {},
                }
            }
        },
    }
}

/// Texts written as a list are read back as they were.
pub proof fn lemma_texts_round(items: Seq<Text>, which: Key)
    ensures
        texts_in(text_nodes(items), which) == Ok::<Seq<Text>, ParseErrorView>(items),
    decreases items.len(),
{
    if items.len() > 0 {
        lemma_texts_round(items.drop_last(), which);
        assert(text_nodes(items).drop_last() =~= text_nodes(items.drop_last()));
        assert(items.drop_last().push(items.last()) =~= items);
    } else {
        assert(items =~= Seq::<Text>::empty());
    }
}

/// The names of the providers and of the loaders tell them apart.
pub proof fn lemma_names_round(provider: ModProvider, loader: ModLoader)
    ensures
        provider_named(provider.name()) == Some(provider),
        loader_named(loader.name()) == Some(loader),
{
    reveal_strlit("curseforge");
    reveal_strlit("modrinth");
    reveal_strlit("forge");
    reveal_strlit("fabric");
    reveal_strlit("neoforge");
    reveal_strlit("quilt");
    assert("curseforge"@.len() != "modrinth"@.len());
    assert("forge"@.len() != "fabric"@.len());
    assert("forge"@.len() != "neoforge"@.len());
    assert("fabric"@.len() != "neoforge"@.len());
    assert("quilt"@[0] != "forge"@[0]);
    assert("quilt"@.len() != "fabric"@.len());
    assert("quilt"@.len() != "neoforge"@.len());
}

/// A mod entry written as a node is read back as it was.
pub proof fn lemma_entry_round(entry: ModEntryView)
    ensures
        decode_entry(encode_entry(entry)) == Ok::<ModEntryView, ParseErrorView>(entry),
{
    match entry {
        ModEntryView::Simple(id) => {},
        ModEntryView::Advance { ty, id, provider, desc } => {
            let a = with(Seq::empty(), "type"@, Some(NodeView::Str(type_word(ty))));
            let b = with(a, "mods"@, type_mods(ty));
            let c = with(b, "id"@, Some(NodeView::Str(id)));
            let d = with(c, "provider"@, opt_provider(provider));
            let e = with(d, "desc"@, opt_str(desc));
            lemma_with(Seq::empty(), "type"@, Some(NodeView::Str(type_word(ty))));
            lemma_with(a, "mods"@, type_mods(ty));
            lemma_with(b, "id"@, Some(NodeView::Str(id)));
            lemma_with(c, "provider"@, opt_provider(provider));
            lemma_with(d, "desc"@, opt_str(desc));
            lemma_with(Seq::empty(), "mods"@, None);
            lemma_with(Seq::empty(), "id"@, None);
            lemma_with(Seq::empty(), "provider"@, None);
            lemma_with(Seq::empty(), "desc"@, None);
            reveal_strlit("type");
            reveal_strlit("mods");
            reveal_strlit("id");
            reveal_strlit("provider");
            reveal_strlit("desc");
            reveal_strlit("single");
            reveal_strlit("list");
            reveal_strlit("pick");
            assert("type"@[0] != "mods"@[0]);
            assert("type"@.len() != "id"@.len());
            assert("type"@.len() != "provider"@.len());
            assert("type"@[0] != "desc"@[0]);
            assert("mods"@.len() != "id"@.len());
            assert("mods"@.len() != "provider"@.len());
            assert("mods"@[0] != "desc"@[0]);
            assert("id"@.len() != "provider"@.len());
            assert("id"@.len() != "desc"@.len());
            assert("provider"@.len() != "desc"@.len());
            assert("single"@.len() != "list"@.len());
            assert("single"@.len() != "pick"@.len());
            assert("list"@[0] != "pick"@[0]);
            assert(slot(e, "type"@) == Some(NodeView::Str(type_word(ty))));
            assert(slot(e, "mods"@) == type_mods(ty));
            assert(slot(e, "id"@) == Some(NodeView::Str(id)));
            assert(slot(e, "provider"@) == opt_provider(provider));
            assert(slot(e, "desc"@) == opt_str(desc));
            match ty {
                ModEntryTypeView::Single => {},
                ModEntryTypeView::List { mods } => {
                    lemma_texts_round(mods, Key::EntryMods);
                },
                ModEntryTypeView::Pick { mods } => {
                    lemma_texts_round(mods, Key::EntryMods);
                },
            }
            match provider {
                Some(p) => {
                    lemma_names_round(p, ModLoader::Forge);
                },
                None => {},
            }
            assert(decode_entry_type(e) == Ok::<ModEntryTypeView, ParseErrorView>(ty));
        },
    }
}

/// Mod entries written as a list are read back as they were.
pub proof fn lemma_entries_round(mods: Seq<ModEntryView>)
    ensures
        decode_entries(entry_nodes(mods)) == Ok::<Seq<ModEntryView>, ParseErrorView>(mods),
    decreases mods.len(),
{
    if mods.len() > 0 {
        lemma_entries_round(mods.drop_last());
        lemma_entry_round(mods.last());
        assert(entry_nodes(mods).drop_last() =~= entry_nodes(mods.drop_last()));
        assert(mods.drop_last().push(mods.last()) =~= mods);
    } else {
        assert(mods =~= Seq::<ModEntryView>::empty());
    }
}

/// Picks written as a mapping are read back as they were.
pub proof fn lemma_picks_round(picks: Seq<(Text, Seq<Text>)>)
    ensures
        decode_picks(pick_pairs(picks)) == Ok::<Seq<(Text, Seq<Text>)>, ParseErrorView>(picks),
    decreases picks.len(),
{
    if picks.len() > 0 {
        lemma_picks_round(picks.drop_last());
        lemma_texts_round(picks.last().1, Key::Picks);
        assert(pick_pairs(picks).drop_last() =~= pick_pairs(picks.drop_last()));
        assert(picks.drop_last().push(picks.last()) =~= picks);
    } else {
        assert(picks =~= Seq::<(Text, Seq<Text>)>::empty());
    }
}

/// Aliases written as a mapping are read back as they were.
pub proof fn lemma_aliases_round(aliases: Seq<(Text, Text)>)
    ensures
        decode_aliases(alias_pairs(aliases)) == Ok::<Seq<(Text, Text)>, ParseErrorView>(aliases),
    decreases aliases.len(),
{
    if aliases.len() > 0 {
        lemma_aliases_round(aliases.drop_last());
        assert(alias_pairs(aliases).drop_last() =~= alias_pairs(aliases.drop_last()));
        assert(aliases.drop_last().push(aliases.last()) =~= aliases);
    } else {
        assert(aliases =~= Seq::<(Text, Text)>::empty());
    }
}

/// A module written as a node is read back as it was.
pub proof fn lemma_module_round(module: ModuleView)
    ensures
        decode_module(encode_module(module)) == Ok::<ModuleView, ParseErrorView>(module),
{
    let import = module.import;
    let a = with(Seq::empty(), "from"@, import_from(import));
    let b = with(a, "picks"@, import_picks(import));
    let c = with(b, "append_mods"@, import_append(import));
    let d = with(c, "name"@, Some(NodeView::Str(module.display_name)));
    let e = with(d, "desc"@, opt_str(module.desc));
    let f = with(e, "mods"@, Some(NodeView::List(entry_nodes(module.mods))));
    lemma_with(Seq::empty(), "from"@, import_from(import));
    lemma_with(a, "picks"@, import_picks(import));
    lemma_with(b, "append_mods"@, import_append(import));
    lemma_with(c, "name"@, Some(NodeView::Str(module.display_name)));
    lemma_with(d, "desc"@, opt_str(module.desc));
    lemma_with(e, "mods"@, Some(NodeView::List(entry_nodes(module.mods))));
    lemma_with(Seq::empty(), "picks"@, None);
    lemma_with(Seq::empty(), "append_mods"@, None);
    lemma_with(Seq::empty(), "name"@, None);
    lemma_with(Seq::empty(), "desc"@, None);
    lemma_with(Seq::empty(), "mods"@, None);
    reveal_strlit("from");
    reveal_strlit("picks");
    reveal_strlit("append_mods");
    reveal_strlit("name");
    reveal_strlit("desc");
    reveal_strlit("mods");
    assert("from"@.len() != "picks"@.len());
    assert("from"@.len() != "append_mods"@.len());
    assert("from"@[0] != "name"@[0]);
    assert("from"@[0] != "desc"@[0]);
    assert("from"@[0] != "mods"@[0]);
    assert("picks"@.len() != "append_mods"@.len());
    assert("picks"@.len() != "name"@.len());
    assert("picks"@.len() != "desc"@.len());
    assert("picks"@.len() != "mods"@.len());
    assert("append_mods"@.len() != "name"@.len());
    assert("append_mods"@.len() != "desc"@.len());
    assert("append_mods"@.len() != "mods"@.len());
    assert("name"@[0] != "desc"@[0]);
    assert("name"@[0] != "mods"@[0]);
    assert("desc"@[0] != "mods"@[0]);
    assert(slot(f, "from"@) == import_from(import));
    assert(slot(f, "picks"@) == import_picks(import));
    assert(slot(f, "append_mods"@) == import_append(import));
    assert(slot(f, "name"@) == Some(NodeView::Str(module.display_name)));
    assert(slot(f, "desc"@) == opt_str(module.desc));
    assert(slot(f, "mods"@) == Some(NodeView::List(entry_nodes(module.mods))));
    lemma_entries_round(module.mods);
    match import {
        Some(i) => {
            match i.picks {
                Some(picks) => {
                    lemma_picks_round(picks);
                },
                None => {},
            }
            assert(decode_import(f) == Ok::<Option<ModuleImportView>, ParseErrorView>(import));
        },
        None => {
            assert(decode_import(f) == Ok::<Option<ModuleImportView>, ParseErrorView>(import));
        },
    }
}

/// Modules written as a mapping are read back as they were.
pub proof fn lemma_modules_round(table: ModuleTable)
    ensures
        decode_modules(table_pairs(table)) == Ok::<ModuleTable, ParseErrorView>(table),
    decreases table.len(),
{
    if table.len() > 0 {
        lemma_modules_round(table.drop_last());
        lemma_module_round(table.last().1);
        assert(table_pairs(table).drop_last() =~= table_pairs(table.drop_last()));
        assert(table.drop_last().push(table.last()) =~= table);
    } else {
        assert(table =~= Seq::<(Text, ModuleView)>::empty());
    }
}

/// A template written as a document and read from it again is the template
/// it was, in every field.
pub proof fn law_round_trip(template: TemplateView)
    ensures
        decode_template(encode_template(template)) == Ok::<TemplateView, ParseErrorView>(template),
{
    let info = template.info;
    let a = with(Seq::empty(), "name"@, Some(NodeView::Str(info.name)));
    let b = with(a, "desc"@, opt_str(info.desc));
    let c = with(b, "author"@, opt_str(info.author));
    let d = with(c, "version"@, opt_str(info.version));
    let e = with(d, "provider"@, Some(NodeView::Str(info.provider.name())));
    let f = with(e, "loader"@, Some(NodeView::Str(info.modloader.name())));
    let g = with(f, "mc_version"@, Some(NodeView::Str(info.mc_version)));
    let h = with(g, "imports"@, opt_aliases(template.imports));
    let i = with(h, "enable_modules"@, opt_enable(template.enable_modules));
    let j = with(i, "modules"@, Some(NodeView::Table(table_pairs(template.modules))));
    lemma_with(Seq::empty(), "name"@, Some(NodeView::Str(info.name)));
    lemma_with(a, "desc"@, opt_str(info.desc));
    lemma_with(b, "author"@, opt_str(info.author));
    lemma_with(c, "version"@, opt_str(info.version));
    lemma_with(d, "provider"@, Some(NodeView::Str(info.provider.name())));
    lemma_with(e, "loader"@, Some(NodeView::Str(info.modloader.name())));
    lemma_with(f, "mc_version"@, Some(NodeView::Str(info.mc_version)));
    lemma_with(g, "imports"@, opt_aliases(template.imports));
    lemma_with(h, "enable_modules"@, opt_enable(template.enable_modules));
    lemma_with(i, "modules"@, Some(NodeView::Table(table_pairs(template.modules))));
    lemma_with(Seq::empty(), "desc"@, None);
    lemma_with(Seq::empty(), "author"@, None);
    lemma_with(Seq::empty(), "version"@, None);
    lemma_with(Seq::empty(), "provider"@, None);
    lemma_with(Seq::empty(), "loader"@, None);
    lemma_with(Seq::empty(), "mc_version"@, None);
    lemma_with(Seq::empty(), "imports"@, None);
    lemma_with(Seq::empty(), "enable_modules"@, None);
    lemma_with(Seq::empty(), "modules"@, None);
    lemma_root_keys();
    assert(slot(j, "name"@) == Some(NodeView::Str(info.name)));
    assert(slot(j, "desc"@) == opt_str(info.desc));
    assert(slot(j, "author"@) == opt_str(info.author));
    assert(slot(j, "version"@) == opt_str(info.version));
    assert(slot(j, "provider"@) == Some(NodeView::Str(info.provider.name())));
    assert(slot(j, "loader"@) == Some(NodeView::Str(info.modloader.name())));
    assert(slot(j, "mc_version"@) == Some(NodeView::Str(info.mc_version)));
    assert(slot(j, "imports"@) == opt_aliases(template.imports));
    assert(slot(j, "enable_modules"@) == opt_enable(template.enable_modules));
    assert(slot(j, "modules"@) == Some(NodeView::Table(table_pairs(template.modules))));
    lemma_names_round(info.provider, info.modloader);
    assert(decode_info(j) == Ok::<TemplateInfoView, ParseErrorView>(info));
    match template.imports {
        Some(aliases) => {
            lemma_aliases_round(aliases);
        },
        None => {},
    }
    assert(aliases_field(j) == Ok::<Option<Seq<(Text, Text)>>, ParseErrorView>(template.imports));
    match template.enable_modules {
        Some(EnableModulesView::List(ids)) => {
            lemma_texts_round(ids, Key::EnableModules);
        },
        _ => {},
    }
    assert(enable_field(j) == Ok::<Option<EnableModulesView>, ParseErrorView>(template.enable_modules));
    lemma_modules_round(template.modules);
    assert(modules_field(j) == Ok::<ModuleTable, ParseErrorView>(template.modules));
}

/// The keys of a template's mapping differ from each other.
proof fn lemma_root_keys()
    ensures
        "name"@ != "desc"@,
        "name"@ != "author"@,
        "name"@ != "version"@,
        "name"@ != "provider"@,
        "name"@ != "loader"@,
        "name"@ != "mc_version"@,
        "name"@ != "imports"@,
        "name"@ != "enable_modules"@,
        "name"@ != "modules"@,
        "desc"@ != "author"@,
        "desc"@ != "version"@,
        "desc"@ != "provider"@,
        "desc"@ != "loader"@,
        "desc"@ != "mc_version"@,
        "desc"@ != "imports"@,
        "desc"@ != "enable_modules"@,
        "desc"@ != "modules"@,
        "author"@ != "version"@,
        "author"@ != "provider"@,
        "author"@ != "loader"@,
        "author"@ != "mc_version"@,
        "author"@ != "imports"@,
        "author"@ != "enable_modules"@,
        "author"@ != "modules"@,
        "version"@ != "provider"@,
        "version"@ != "loader"@,
        "version"@ != "mc_version"@,
        "version"@ != "imports"@,
        "version"@ != "enable_modules"@,
        "version"@ != "modules"@,
        "provider"@ != "loader"@,
        "provider"@ != "mc_version"@,
        "provider"@ != "imports"@,
        "provider"@ != "enable_modules"@,
        "provider"@ != "modules"@,
        "loader"@ != "mc_version"@,
        "loader"@ != "imports"@,
        "loader"@ != "enable_modules"@,
        "loader"@ != "modules"@,
        "mc_version"@ != "imports"@,
        "mc_version"@ != "enable_modules"@,
        "mc_version"@ != "modules"@,
        "imports"@ != "enable_modules"@,
        "imports"@ != "modules"@,
        "enable_modules"@ != "modules"@,
{
    reveal_strlit("name");
    reveal_strlit("desc");
    reveal_strlit("author");
    reveal_strlit("version");
    reveal_strlit("provider");
    reveal_strlit("loader");
    reveal_strlit("mc_version");
    reveal_strlit("imports");
    reveal_strlit("enable_modules");
    reveal_strlit("modules");
    assert("name"@[0] != "desc"@[0]);
    assert("name"@.len() != "author"@.len());
    assert("name"@.len() != "version"@.len());
    assert("name"@.len() != "provider"@.len());
    assert("name"@.len() != "loader"@.len());
    assert("name"@.len() != "mc_version"@.len());
    assert("name"@.len() != "imports"@.len());
    assert("name"@.len() != "enable_modules"@.len());
    assert("name"@.len() != "modules"@.len());
    assert("desc"@.len() != "author"@.len());
    assert("desc"@.len() != "version"@.len());
    assert("desc"@.len() != "provider"@.len());
    assert("desc"@.len() != "loader"@.len());
    assert("desc"@.len() != "mc_version"@.len());
    assert("desc"@.len() != "imports"@.len());
    assert("desc"@.len() != "enable_modules"@.len());
    assert("desc"@.len() != "modules"@.len());
    assert("author"@.len() != "version"@.len());
    assert("author"@.len() != "provider"@.len());
    assert("author"@[0] != "loader"@[0]);
    assert("author"@.len() != "mc_version"@.len());
    assert("author"@.len() != "imports"@.len());
    assert("author"@.len() != "enable_modules"@.len());
    assert("author"@.len() != "modules"@.len());
    assert("version"@.len() != "provider"@.len());
    assert("version"@.len() != "loader"@.len());
    assert("version"@.len() != "mc_version"@.len());
    assert("version"@[0] != "imports"@[0]);
    assert("version"@.len() != "enable_modules"@.len());
    assert("version"@[0] != "modules"@[0]);
    assert("provider"@.len() != "loader"@.len());
    assert("provider"@.len() != "mc_version"@.len());
    assert("provider"@.len() != "imports"@.len());
    assert("provider"@.len() != "enable_modules"@.len());
    assert("provider"@.len() != "modules"@.len());
    assert("loader"@.len() != "mc_version"@.len());
    assert("loader"@.len() != "imports"@.len());
    assert("loader"@.len() != "enable_modules"@.len());
    assert("loader"@.len() != "modules"@.len());
    assert("mc_version"@.len() != "imports"@.len());
    assert("mc_version"@.len() != "enable_modules"@.len());
    assert("mc_version"@.len() != "modules"@.len());
    assert("imports"@.len() != "enable_modules"@.len());
    assert("imports"@[0] != "modules"@[0]);
    assert("enable_modules"@.len() != "modules"@.len());
}

/// Adds an entry to a mapping, where there is a value for it.
fn push_field(entries: &mut Vec<(Node, Node)>, key: &str, value: Option<Node>)
    ensures
        pairs(final(entries)@) == with(
            pairs(old(entries)@),
            key@,
            match value {
                Some(node) => Some(tree(node)),
                None => None,
            },
        ),
{
    let ghost before = pairs(entries@);
    match value {
        Some(node) => {
            let ghost added = (NodeView::Str(key@), tree(node));
            entries.push((Node::Str(key.to_owned()), node));
            assert(pairs(entries@) =~= before.push(added));
        },
        None => {},
    }
}

/// A text, where there is one, as a node.
fn opt_text_node(text: &Option<String>) -> (r: Option<Node>)
    ensures
        (match r {
            Some(node) => Some(tree(node)),
            None => None,
        }) == opt_str(opt_text(*text)),
{
    match text {
        Some(t) => Some(Node::Str(t.clone())),
        None => None,
    }
}

/// Texts as a list node.
fn texts_node(items: &Vec<String>) -> (node: Node)
    ensures
        node@ == NodeView::List(text_nodes(texts(items@))),
{
    let mut nodes: Vec<Node> = Vec::new();
    let mut i: usize = 0;
    while i < items.len()
        invariant
            i <= items.len(),
            nodes.len() == i,
            forall|j: int| 0 <= j < i ==> tree(nodes[j]) == NodeView::Str(items[j]@),
        decreases items.len() - i,
    {
        nodes.push(Node::Str(items[i].clone()));
        i += 1;
    }
    proof {
        lemma_list_tree(nodes);
        assert(trees(nodes@) =~= text_nodes(texts(items@)));
    }
    Node::List(nodes)
}

/// Writes a mod entry as a node.
pub fn entry_node(entry: &ModEntry) -> (node: Node)
    ensures
        node@ == encode_entry(entry@),
        decode_entry(node@) == Ok::<ModEntryView, ParseErrorView>(entry@),
{
    proof {
        lemma_entry_round(entry@);
    }
    match entry {
        ModEntry::Simple(id) => Node::Str(id.clone()),
        ModEntry::Advance { ty, id, provider, desc } => {
            let mut entries: Vec<(Node, Node)> = Vec::new();
            assert(pairs(entries@) =~= Seq::<(NodeView, NodeView)>::empty());
            match ty {
                ModEntryType::Single => {
                    push_field(&mut entries, "type", Some(Node::Str("single".to_owned())));
                    push_field(&mut entries, "mods", None);
                },
                ModEntryType::List { mods } => {
                    push_field(&mut entries, "type", Some(Node::Str("list".to_owned())));
                    push_field(&mut entries, "mods", Some(texts_node(mods)));
                },
                ModEntryType::Pick { mods } => {
                    push_field(&mut entries, "type", Some(Node::Str("pick".to_owned())));
                    push_field(&mut entries, "mods", Some(texts_node(mods)));
                },
            }
            push_field(&mut entries, "id", Some(Node::Str(id.clone())));
            let provider_node = match provider {
                Some(p) => Some(Node::Str(p.as_str().to_owned())),
                None => None,
            };
            push_field(&mut entries, "provider", provider_node);
            push_field(&mut entries, "desc", opt_text_node(desc));
            proof {
                lemma_table_tree(entries);
            }
            Node::Table(entries)
        },
    }
}

/// Mod entries as a list node.
fn entries_node(mods: &Vec<ModEntry>) -> (node: Node)
    ensures
        node@ == NodeView::List(entry_nodes(mods.deep_view())),
{
    let mut nodes: Vec<Node> = Vec::new();
    let mut i: usize = 0;
    while i < mods.len()
        invariant
            i <= mods.len(),
            nodes.len() == i,
            forall|j: int| 0 <= j < i ==> tree(nodes[j]) == encode_entry(mods[j]@),
        decreases mods.len() - i,
    {
        nodes.push(entry_node(&mods[i]));
        i += 1;
    }
    proof {
        lemma_list_tree(nodes);
        assert(trees(nodes@) =~= entry_nodes(mods.deep_view()));
    }
    Node::List(nodes)
}

/// Picks as a mapping node.
fn picks_node(picks: &Vec<(String, Vec<String>)>) -> (node: Node)
    ensures
        node@ == NodeView::Table(pick_pairs(picks_view(picks@))),
{
    let mut entries: Vec<(Node, Node)> = Vec::new();
    let mut i: usize = 0;
    while i < picks.len()
        invariant
            i <= picks.len(),
            entries.len() == i,
            forall|j: int|
                0 <= j < i ==> tree(entries[j].0) == NodeView::Str(picks[j].0@) && tree(entries[j].1)
                    == NodeView::List(text_nodes(texts(picks[j].1@))),
        decreases picks.len() - i,
    {
        entries.push((Node::Str(picks[i].0.clone()), texts_node(&picks[i].1)));
        i += 1;
    }
    proof {
        lemma_table_tree(entries);
        assert(pairs(entries@) =~= pick_pairs(picks_view(picks@)));
    }
    Node::Table(entries)
}

/// Writes a module as a node.
pub fn module_node(module: &Module) -> (node: Node)
    ensures
        node@ == encode_module(module@),
        decode_module(node@) == Ok::<ModuleView, ParseErrorView>(module@),
{
    proof {
        lemma_module_round(module@);
    }
    let mut entries: Vec<(Node, Node)> = Vec::new();
    assert(pairs(entries@) =~= Seq::<(NodeView, NodeView)>::empty());
    match &module.import {
        Some(import) => {
            push_field(&mut entries, "from", Some(Node::Str(import.import.clone())));
            let picks = match &import.picks {
                Some(picks) => Some(picks_node(picks)),
                None => None,
            };
            push_field(&mut entries, "picks", picks);
            let append = match import.append_mods {
                Some(b) => Some(Node::Bool(b)),
                None => None,
            };
            push_field(&mut entries, "append_mods", append);
        },
        None => {
            push_field(&mut entries, "from", None);
            push_field(&mut entries, "picks", None);
            push_field(&mut entries, "append_mods", None);
        },
    }
    push_field(&mut entries, "name", Some(Node::Str(module.display_name.clone())));
    push_field(&mut entries, "desc", opt_text_node(&module.desc));
    push_field(&mut entries, "mods", Some(entries_node(&module.mods)));
    proof {
        lemma_table_tree(entries);
    }
    Node::Table(entries)
}

/// Modules as a mapping node.
fn modules_node(modules: &Vec<(String, Module)>) -> (node: Node)
    ensures
        node@ == NodeView::Table(table_pairs(table_view(modules@))),
{
    let mut entries: Vec<(Node, Node)> = Vec::new();
    let mut i: usize = 0;
    while i < modules.len()
        invariant
            i <= modules.len(),
            entries.len() == i,
            forall|j: int|
                0 <= j < i ==> tree(entries[j].0) == NodeView::Str(modules[j].0@) && tree(entries[j].1)
                    == encode_module(modules[j].1@),
        decreases modules.len() - i,
    {
        entries.push((Node::Str(modules[i].0.clone()), module_node(&modules[i].1)));
        i += 1;
    }
    proof {
        lemma_table_tree(entries);
        assert(pairs(entries@) =~= table_pairs(table_view(modules@)));
    }
    Node::Table(entries)
}

/// Aliases as a mapping node.
fn aliases_node(aliases: &Vec<(String, String)>) -> (node: Node)
    ensures
        node@ == NodeView::Table(alias_pairs(aliases_view(aliases@))),
{
    let mut entries: Vec<(Node, Node)> = Vec::new();
    let mut i: usize = 0;
    while i < aliases.len()
        invariant
            i <= aliases.len(),
            entries.len() == i,
            forall|j: int|
                0 <= j < i ==> tree(entries[j].0) == NodeView::Str(aliases[j].0@) && tree(entries[j].1)
                    == NodeView::Str(aliases[j].1@),
        decreases aliases.len() - i,
    {
        entries.push((Node::Str(aliases[i].0.clone()), Node::Str(aliases[i].1.clone())));
        i += 1;
    }
    proof {
        lemma_table_tree(entries);
        assert(pairs(entries@) =~= alias_pairs(aliases_view(aliases@)));
    }
    Node::Table(entries)
}

impl Template {
    /// Writes the template as a document. Read from it again, it is the
    /// template it was.
    pub fn to_node(&self) -> (node: Node)
        ensures
            node@ == encode_template(self@),
            decode_template(node@) == Ok::<TemplateView, ParseErrorView>(self@),
    {
        proof {
            law_round_trip(self@);
        }
        let info = &self.info;
        let mut entries: Vec<(Node, Node)> = Vec::new();
        assert(pairs(entries@) =~= Seq::<(NodeView, NodeView)>::empty());
        push_field(&mut entries, "name", Some(Node::Str(info.name.clone())));
        push_field(&mut entries, "desc", opt_text_node(&info.desc));
        push_field(&mut entries, "author", opt_text_node(&info.author));
        push_field(&mut entries, "version", opt_text_node(&info.version));
        push_field(&mut entries, "provider", Some(Node::Str(info.provider.as_str().to_owned())));
        push_field(&mut entries, "loader", Some(Node::Str(info.modloader.as_str().to_owned())));
        push_field(&mut entries, "mc_version", Some(Node::Str(info.mc_version.clone())));
        let imports = match &self.imports {
            Some(aliases) => Some(aliases_node(aliases)),
            None => None,
        };
        push_field(&mut entries, "imports", imports);
        let enable = match &self.enable_modules {
            Some(EnableModules::All) => Some(Node::Str("all".to_owned())),
            Some(EnableModules::List(ids)) => Some(texts_node(ids)),
            None => None,
        };
        push_field(&mut entries, "enable_modules", enable);
        push_field(&mut entries, "modules", Some(modules_node(&self.modules)));
        proof {
            lemma_table_tree(entries);
        }
        Node::Table(entries)
    }
}

} // verus!
