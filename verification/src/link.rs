//! Imports across templates: the modules of the templates that the import
//! aliases stand for are put behind a template's own modules, each under its
//! alias, so that the merge finds them.

use vstd::prelude::*;
use vstd::string::StringExecFns;
use crate::error::ValidationError;
use crate::error::ValidationErrorView;
use crate::merge::merge_first;
use crate::merge::merged_first;
use crate::template::copy_entries;
use crate::template::copy_modules;
use crate::template::copy_opt_string;
use crate::template::copy_strings;
use crate::template::picks_view;
use crate::template::table_view;
use crate::template::texts;
use crate::template::Module;
use crate::template::ModuleImport;
use crate::template::ModuleImportView;
use crate::template::ModuleTable;
use crate::template::ModuleView;
use crate::template::Template;
use crate::template::Text;

verus! {

/// The id under which a module of another template is known: the alias of
/// that template, a dot, and the module's id there.
pub open spec fn qualified(alias: Text, id: Text) -> Text {
    alias + "."@ + id
}

/// Picks with their source modules under an alias.
pub open spec fn qualified_picks(alias: Text, picks: Seq<(Text, Seq<Text>)>) -> Seq<(Text, Seq<Text>)> {
    Seq::new(picks.len(), |i: int| (qualified(alias, picks[i].0), picks[i].1))
}

/// An import with the modules it names under an alias.
pub open spec fn qualified_import(alias: Text, import: ModuleImportView) -> ModuleImportView {
    ModuleImportView {
        import: qualified(alias, import.import),
        picks: match import.picks {
            Some(picks) => Some(qualified_picks(alias, picks)),
            None => None,
        },
        append_mods: import.append_mods,
    }
}

/// A module of another template: what it imports from is looked for in that
/// template, under the same alias.
pub open spec fn qualified_module(alias: Text, module: ModuleView) -> ModuleView {
    ModuleView {
        import: match module.import {
            Some(import) => Some(qualified_import(alias, import)),
            None => None,
        },
        display_name: module.display_name,
        desc: module.desc,
        mods: module.mods,
    }
}

/// The modules of another template under its alias.
pub open spec fn qualified_table(alias: Text, table: ModuleTable) -> ModuleTable {
    Seq::new(table.len(), |i: int| (qualified(alias, table[i].0), qualified_module(alias, table[i].1)))
}

/// The aliases with the module tables of the templates they stand for.
pub open spec fn externals_view(externals: Seq<(String, Template)>) -> Seq<(Text, ModuleTable)> {
    Seq::new(externals.len(), |i: int| (externals[i].0@, externals[i].1@.modules))
}

/// A template's own modules, and behind them the modules of the other
/// templates, each under its alias.
pub open spec fn linked(own: ModuleTable, externals: Seq<(Text, ModuleTable)>) -> ModuleTable
    decreases externals.len(),
{
    if externals.len() == 0 {
        own
    } else {
        linked(own, externals.drop_last()) + qualified_table(externals.last().0, externals.last().1)
    }
}

/// Linking puts nothing before a template's own modules and changes none of them.
pub proof fn law_linked_keeps_own(own: ModuleTable, externals: Seq<(Text, ModuleTable)>)
    ensures
        own.is_prefix_of(linked(own, externals)),
    decreases externals.len(),
{
    if externals.len() > 0 {
        law_linked_keeps_own(own, externals.drop_last());
    }
}

/// The id of a module under an alias.
pub fn qualify(alias: &String, id: &String) -> (r: String)
    ensures
        r@ == qualified(alias@, id@),
{
    let mut r = alias.clone();
    r.append(".");
    r.append(id.as_str());
    r
}

fn qualify_picks(alias: &String, picks: &Vec<(String, Vec<String>)>) -> (r: Vec<(String, Vec<String>)>)
    ensures
        picks_view(r@) == qualified_picks(alias@, picks_view(picks@)),
{
    let mut r: Vec<(String, Vec<String>)> = Vec::new();
    let mut i: usize = 0;
    while i < picks.len()
        invariant
            i <= picks.len(),
            r.len() == i,
            forall|j: int|
                0 <= j < i ==> r[j].0@ == qualified(alias@, picks[j].0@) && texts(r[j].1@) == texts(
                    picks[j].1@,
                ),
        decreases picks.len() - i,
    {
        r.push((qualify(alias, &picks[i].0), copy_strings(&picks[i].1)));
        i += 1;
    }
    assert(picks_view(r@) =~= qualified_picks(alias@, picks_view(picks@)));
    r
}

/// A module of another template, as it is known under the template's alias.
pub fn qualify_module(alias: &String, module: &Module) -> (r: Module)
    ensures
        r@ == qualified_module(alias@, module@),
{
    Module {
        import: match &module.import {
            Some(import) => Some(
                ModuleImport {
                    import: qualify(alias, &import.import),
                    picks: match &import.picks {
                        Some(picks) => Some(qualify_picks(alias, picks)),
                        None => None,
                    },
                    append_mods: import.append_mods,
                },
            ),
            None => None,
        },
        display_name: module.display_name.clone(),
        desc: copy_opt_string(&module.desc),
        mods: copy_entries(&module.mods),
    }
}

/// Puts the modules of other templates behind a template's own, each under
/// the alias of its template.
pub fn link(own: &Vec<(String, Module)>, externals: &Vec<(String, Template)>) -> (r: Vec<(String, Module)>)
    ensures
        table_view(r@) == linked(table_view(own@), externals_view(externals@)),
        own.len() <= r.len(),
{
    let ghost mine = table_view(own@);
    let ghost others = externals_view(externals@);
    let mut all = copy_modules(own);
    assert(all.len() == own.len()) by {
        assert(table_view(all@).len() == table_view(own@).len());
    }
    let mut k: usize = 0;
    assert(others.take(0) =~= Seq::<(Text, ModuleTable)>::empty());
    while k < externals.len()
        invariant
            k <= externals.len(),
            mine == table_view(own@),
            others == externals_view(externals@),
            table_view(all@) == linked(mine, others.take(k as int)),
            own.len() <= all.len(),
        decreases externals.len() - k,
    {
        let alias = &externals[k].0;
        let modules = &externals[k].1.modules;
        let ghost before = table_view(all@);
        let ghost wanted = qualified_table(alias@, table_view(modules@));
        let ghost next = others.take(k as int + 1);
        assert(next.drop_last() =~= others.take(k as int));
        assert(next.last() == (alias@, table_view(modules@)));
        let mut j: usize = 0;
        assert(table_view(all@) =~= before + wanted.take(0));
        while j < modules.len()
            invariant
                j <= modules.len(),
                wanted == qualified_table(alias@, table_view(modules@)),
                table_view(all@) == before + wanted.take(j as int),
                own.len() <= all.len(),
            decreases modules.len() - j,
        {
            let ghost prev = table_view(all@);
            let id = qualify(alias, &modules[j].0);
            let module = qualify_module(alias, &modules[j].1);
            let ghost added = (id@, module@);
            all.push((id, module));
            assert(table_view(all@) =~= prev.push(added));
            assert(added == wanted[j as int]);
            assert(table_view(all@) =~= before + wanted.take(j as int + 1));
            j += 1;
        }
        assert(wanted.take(modules.len() as int) =~= wanted);
        k += 1;
    }
    assert(others.take(externals.len() as int) =~= others);
    all
}

impl Template {
    /// Replaces every module's mods by its resolved list and drops the
    /// imports, where modules may import from the templates that `externals`
    /// holds under their aliases. A template with a fault in its imports is
    /// left as it is.
    pub fn merge_modules_with(&mut self, externals: &Vec<(String, Template)>) -> (r: Result<
        (),
        ValidationError,
    >)
        ensures
            match r {
                Ok(()) => merged_first(
                    linked(old(self)@.modules, externals_view(externals@)),
                    old(self)@.modules.len(),
                ) == Ok::<ModuleTable, ValidationErrorView>(final(self)@.modules)
                    && final(self)@.info == old(self)@.info
                    && final(self)@.imports == old(self)@.imports
                    && final(self)@.enable_modules == old(self)@.enable_modules,
                Err(e) => merged_first(
                    linked(old(self)@.modules, externals_view(externals@)),
                    old(self)@.modules.len(),
                ) == Err::<ModuleTable, ValidationErrorView>(e@) && *final(self) == *old(self),
            },
    {
        let all = link(&self.modules, externals);
        match merge_first(&all, self.modules.len()) {
            Ok(merged) => {
                self.modules = merged;
                Ok(())
            },
            Err(e) => Err(e),
        }
    }
}

} // verus!
