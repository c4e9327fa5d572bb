//! Merging module imports: every module's mod list is resolved against the
//! already-resolved lists of the modules it imports from.

use vstd::prelude::*;
use vstd::set_lib::lemma_int_range;
use vstd::set_lib::lemma_len_subset;
use vstd::set_lib::set_int_range;
use crate::error::ValidationError;
use crate::error::ValidationErrorView;
use crate::seqs::first_index;
use crate::seqs::lemma_first_index;
use crate::seqs::lemma_first_index_is;
use crate::seqs::lemma_first_index_none;
use crate::template::copy_entries;
use crate::template::copy_opt_string;
use crate::template::picks_view;
use crate::template::find_module;
use crate::template::module_index;
use crate::template::table_view;
use crate::template::texts;
use crate::template::ModEntry;
use crate::template::ModEntryView;
use crate::template::Module;
use crate::template::ModuleTable;
use crate::template::ModuleView;
use crate::template::Template;
use crate::template::Text;

verus! {

/// A resolved mod list, or the reason there is none.
pub type Resolution = Result<Seq<ModEntryView>, ValidationErrorView>;

/// The ids of a mod list's entries.
pub open spec fn entry_ids(entries: Seq<ModEntryView>) -> Seq<Text> {
    Seq::new(entries.len(), |i: int| entries[i].id())
}

/// The entries that `ids` name in `source`, in the order of `ids`: for each id the
/// first entry known under it. An id that `source` does not hold is a
/// `PickNotFound` for `module`, the module that `source` is the list of.
pub open spec fn pick_all(source: Seq<ModEntryView>, module: Text, ids: Seq<Text>) -> Resolution
    decreases ids.len(),
{
    if ids.len() == 0 {
        Ok(Seq::empty())
    } else {
        match pick_all(source, module, ids.drop_last()) {
            Err(e) => Err(e),
            Ok(before) => match first_index(entry_ids(source), ids.last()) {
                None => Err(ValidationErrorView::PickNotFound { module, mod_id: ids.last() }),
                Some(p) => Ok(before.push(source[p])),
            },
        }
    }
}

/// The resolved mod list of the module at position `i`, following imports at most
/// `depth` modules deep. A module without an import keeps its mods. An importing
/// module takes the resolved list of its source module, or, where it has picks,
/// the picked entries of each picks source in declared order; its own mods follow
/// where `append_mods` is set. The source module has to resolve also where
/// the picks draw from other modules. Running out of depth means the imports
/// go round in a circle.
pub open spec fn resolve_at(table: ModuleTable, i: int, depth: nat) -> Resolution
    decreases depth, 0nat, 0nat,
{
    if depth == 0 {
        Err(ValidationErrorView::ImportCycle)
    } else {
        let module = table[i].1;
        match module.import {
            None => Ok(module.mods),
            Some(import) => match resolve_ref(table, import.import, (depth - 1) as nat) {
                Err(e) => Err(e),
                Ok(source) => {
                    let drawn = match import.picks {
                        None => Ok(source),
                        Some(picks) => draw(table, picks, picks.len(), (depth - 1) as nat),
                    };
                    match drawn {
                        Err(e) => Err(e),
                        Ok(mods) => if import.append_mods == Some(true) {
                            Ok(mods + module.mods)
                        } else {
                            Ok(mods)
                        },
                    }
                },
            },
        }
    }
}

/// The resolved mod list of the module that `id` names.
pub open spec fn resolve_ref(table: ModuleTable, id: Text, depth: nat) -> Resolution
    decreases depth, 1nat, 0nat,
{
    match module_index(table, id) {
        None => Err(ValidationErrorView::UnknownModule(id)),
        Some(j) => resolve_at(table, j, depth),
    }
}

/// What the first `k` picks draw: for each, the picked entries of its source
/// module's resolved list, one after the other.
pub open spec fn draw(table: ModuleTable, picks: Seq<(Text, Seq<Text>)>, k: nat, depth: nat) -> Resolution
    decreases depth, 2nat, k,
{
    if k == 0 {
        Ok(Seq::empty())
    } else {
        match draw(table, picks, (k - 1) as nat, depth) {
            Err(e) => Err(e),
            Ok(before) => match resolve_ref(table, picks[k - 1].0, depth) {
                Err(e) => Err(e),
                Ok(source) => match pick_all(source, picks[k - 1].0, picks[k - 1].1) {
                    Err(e) => Err(e),
                    Ok(chosen) => Ok(before + chosen),
                },
            },
        }
    }
}

/// The fault of imports that go round in a circle.
pub open spec fn cycle() -> Resolution {
    Err(ValidationErrorView::ImportCycle)
}

/// The resolved mod list of the module at position `i`: what it resolves to at
/// any depth that is enough, and a cycle where none is.
pub open spec fn resolved_mods(table: ModuleTable, i: int) -> Resolution {
    if exists|d: nat| resolve_at(table, i, d) != cycle() {
        resolve_at(table, i, choose|d: nat| resolve_at(table, i, d) != cycle())
    } else {
        cycle()
    }
}

/// The resolved mod list of the module that `id` names.
pub open spec fn resolved_ref(table: ModuleTable, id: Text) -> Resolution {
    match module_index(table, id) {
        None => Err(ValidationErrorView::UnknownModule(id)),
        Some(j) => resolved_mods(table, j),
    }
}

/// What the first `k` picks draw from the resolved lists of their source modules.
pub open spec fn drawn(table: ModuleTable, picks: Seq<(Text, Seq<Text>)>, k: nat) -> Resolution
    decreases k,
{
    if k == 0 {
        Ok(Seq::empty())
    } else {
        match drawn(table, picks, (k - 1) as nat) {
            Err(e) => Err(e),
            Ok(before) => match resolved_ref(table, picks[k - 1].0) {
                Err(e) => Err(e),
                Ok(source) => match pick_all(source, picks[k - 1].0, picks[k - 1].1) {
                    Err(e) => Err(e),
                    Ok(chosen) => Ok(before + chosen),
                },
            },
        }
    }
}

/// What the merge makes of one module, given the resolved lists of the others.
pub open spec fn merge_step(table: ModuleTable, i: int) -> Resolution {
    let module = table[i].1;
    match module.import {
        None => Ok(module.mods),
        Some(import) => match resolved_ref(table, import.import) {
            Err(e) => Err(e),
            Ok(source) => {
                let taken = match import.picks {
                    None => Ok(source),
                    Some(picks) => drawn(table, picks, picks.len()),
                };
                match taken {
                    Err(e) => Err(e),
                    Ok(mods) => if import.append_mods == Some(true) {
                        Ok(mods + module.mods)
                    } else {
                        Ok(mods)
                    },
                }
            },
        },
    }
}

/// The resolved lists of the first `k` modules, or the fault of the first module
/// in declared order that has one.
pub open spec fn resolve_all(table: ModuleTable, k: nat) -> Result<Seq<Seq<ModEntryView>>, ValidationErrorView>
    decreases k,
{
    if k == 0 {
        Ok(Seq::empty())
    } else {
        match resolve_all(table, (k - 1) as nat) {
            Err(e) => Err(e),
            Ok(lists) => match resolved_mods(table, k - 1) {
                Err(e) => Err(e),
                Ok(mods) => Ok(lists.push(mods)),
            },
        }
    }
}

/// A module after the merge: its resolved mods, and no import left.
pub open spec fn merged_module(module: ModuleView, mods: Seq<ModEntryView>) -> ModuleView {
    ModuleView { import: None, display_name: module.display_name, desc: module.desc, mods }
}

/// The first `keep` modules of the table after the merge: every one under its
/// id and in its place, with its resolved mods. The modules behind them are
/// there to be imported from.
pub open spec fn merged_first(table: ModuleTable, keep: nat) -> Result<ModuleTable, ValidationErrorView> {
    match resolve_all(table, keep) {
        Err(e) => Err(e),
        Ok(lists) => Ok(Seq::new(keep, |i: int| (table[i].0, merged_module(table[i].1, lists[i])))),
    }
}

/// `keep`, but no more than `len`.
pub open spec fn at_most(keep: nat, len: nat) -> nat {
    if keep <= len {
        keep
    } else {
        len
    }
}

/// The table after the merge: every module under its id and in its place, with
/// its resolved mods.
pub open spec fn merged_table(table: ModuleTable) -> Result<ModuleTable, ValidationErrorView> {
    merged_first(table, table.len())
}

/// Finds the first entry known under `id`.
fn find_entry(source: &Vec<ModEntry>, id: &String) -> (r: Option<usize>)
    ensures
        match r {
            Some(p) => p < source.len() && first_index(entry_ids(source.deep_view()), id@) == Some(
                p as int,
            ),
            None => first_index(entry_ids(source.deep_view()), id@) == None::<int>,
        },
{
    let ghost ids = entry_ids(source.deep_view());
    let mut p: usize = 0;
    while p < source.len()
        invariant
            p <= source.len(),
            ids == entry_ids(source.deep_view()),
            forall|j: int| 0 <= j < p ==> ids[j] != id@,
        decreases source.len() - p,
    {
        if *source[p].id() == *id {
            proof {
                lemma_first_index_is(ids, id@, p as int);
            }
            return Some(p);
        }
        p += 1;
    }
    proof {
        lemma_first_index_none(ids, id@);
    }
    None
}

/// Draws from `source`, the resolved list of `module`, the entries that `ids` name.
pub fn pick_entries(source: &Vec<ModEntry>, module: &String, ids: &Vec<String>) -> (r: Result<
    Vec<ModEntry>,
    ValidationError,
>)
    ensures
        match r {
            Ok(chosen) => pick_all(source.deep_view(), module@, texts(ids@)) == Ok::<
                Seq<ModEntryView>,
                ValidationErrorView,
            >(chosen.deep_view()),
            Err(e) => e is PickNotFound && pick_all(source.deep_view(), module@, texts(ids@)) == Err::<
                Seq<ModEntryView>,
                ValidationErrorView,
            >(e@),
        },
{
    let mut chosen: Vec<ModEntry> = Vec::new();
    let mut k: usize = 0;
    assert(texts(ids@).take(0) =~= Seq::<Text>::empty());
    assert(chosen.deep_view() =~= Seq::<ModEntryView>::empty());
    while k < ids.len()
        invariant
            k <= ids.len(),
            pick_all(source.deep_view(), module@, texts(ids@).take(k as int)) == Ok::<
                Seq<ModEntryView>,
                ValidationErrorView,
            >(chosen.deep_view()),
        decreases ids.len() - k,
    {
        let ghost before = chosen.deep_view();
        let ghost next = texts(ids@).take(k as int + 1);
        assert(next.drop_last() =~= texts(ids@).take(k as int));
        assert(next.last() == ids[k as int]@);
        match find_entry(source, &ids[k]) {
            None => {
                let e = ValidationError::PickNotFound { module: module.clone(), mod_id: ids[k].clone() };
                proof {
                    lemma_pick_all_fails(source.deep_view(), module@, texts(ids@), k as int + 1);
                }
                return Err(e);
            },
            Some(p) => {
                chosen.push(source[p].clone());
                assert(chosen.deep_view() =~= before.push(source.deep_view()[p as int]));
            },
        }
        k += 1;
    }
    assert(texts(ids@).take(ids.len() as int) =~= texts(ids@));
    Ok(chosen)
}

/// A fault among the first `k` ids is the fault of the whole list.
pub proof fn lemma_pick_all_fails(source: Seq<ModEntryView>, module: Text, ids: Seq<Text>, k: int)
    requires
        0 <= k <= ids.len(),
        pick_all(source, module, ids.take(k)) is Err,
    ensures
        pick_all(source, module, ids) == pick_all(source, module, ids.take(k)),
    decreases ids.len() - k,
{
    if k == ids.len() {
        assert(ids.take(k) =~= ids);
    } else {
        assert(ids.take(k + 1).drop_last() =~= ids.take(k));
        lemma_pick_all_fails(source, module, ids, k + 1);
    }
}

/// A fault among the first `k` picks is the fault of all of them.
proof fn lemma_draw_fails(table: ModuleTable, picks: Seq<(Text, Seq<Text>)>, k: nat, len: nat, depth: nat)
    requires
        k <= len,
        draw(table, picks, k, depth) is Err,
    ensures
        draw(table, picks, len, depth) == draw(table, picks, k, depth),
    decreases len - k,
{
    if k < len {
        lemma_draw_fails(table, picks, k + 1, len, depth);
    }
}

/// A fault among the first `k` modules is the fault of the table.
proof fn lemma_resolve_all_fails(table: ModuleTable, k: nat, len: nat)
    requires
        k <= len,
        resolve_all(table, k) is Err,
    ensures
        resolve_all(table, len) == resolve_all(table, k),
    decreases len - k,
{
    if k < len {
        lemma_resolve_all_fails(table, k + 1, len);
    }
}

/// More depth does not change a resolution that did not run out of depth.
pub proof fn lemma_deeper(table: ModuleTable, i: int, d: nat)
    requires
        resolve_at(table, i, d) != cycle(),
    ensures
        resolve_at(table, i, d + 1) == resolve_at(table, i, d),
    decreases d, 0nat, 0nat,
{
    let module = table[i].1;
    match module.import {
        None => {},
        Some(import) => {
            let g = (d - 1) as nat;
            lemma_ref_deeper(table, import.import, g);
            match import.picks {
                None => {},
                Some(picks) => {
                    if resolve_ref(table, import.import, g) is Ok {
                        lemma_draw_deeper(table, picks, picks.len(), g);
                    }
                },
            }
        },
    }
}

pub proof fn lemma_ref_deeper(table: ModuleTable, id: Text, d: nat)
    requires
        resolve_ref(table, id, d) != cycle(),
    ensures
        resolve_ref(table, id, d + 1) == resolve_ref(table, id, d),
    decreases d, 1nat, 0nat,
{
    match module_index(table, id) {
        None => {},
        Some(j) => {
            lemma_deeper(table, j, d);
        },
    }
}

pub proof fn lemma_draw_deeper(table: ModuleTable, picks: Seq<(Text, Seq<Text>)>, k: nat, d: nat)
    requires
        draw(table, picks, k, d) != cycle(),
    ensures
        draw(table, picks, k, d + 1) == draw(table, picks, k, d),
    decreases d, 2nat, k,
{
    if k > 0 {
        lemma_draw_deeper(table, picks, (k - 1) as nat, d);
        if draw(table, picks, (k - 1) as nat, d) is Ok {
            lemma_ref_deeper(table, picks[k - 1].0, d);
        }
    }
}

/// A resolution that did not run out of depth `d` is the same at every depth from `d` on.
pub proof fn lemma_deeper_by(table: ModuleTable, i: int, d: nat, e: nat)
    requires
        d <= e,
        resolve_at(table, i, d) != cycle(),
    ensures
        resolve_at(table, i, e) == resolve_at(table, i, d),
    decreases e - d,
{
    if d < e {
        lemma_deeper_by(table, i, d, (e - 1) as nat);
        lemma_deeper(table, i, (e - 1) as nat);
    }
}

pub proof fn lemma_ref_deeper_by(table: ModuleTable, id: Text, d: nat, e: nat)
    requires
        d <= e,
        resolve_ref(table, id, d) != cycle(),
    ensures
        resolve_ref(table, id, e) == resolve_ref(table, id, d),
    decreases e - d,
{
    if d < e {
        lemma_ref_deeper_by(table, id, d, (e - 1) as nat);
        lemma_ref_deeper(table, id, (e - 1) as nat);
    }
}

pub proof fn lemma_draw_deeper_by(table: ModuleTable, picks: Seq<(Text, Seq<Text>)>, k: nat, d: nat, e: nat)
    requires
        d <= e,
        draw(table, picks, k, d) != cycle(),
    ensures
        draw(table, picks, k, e) == draw(table, picks, k, d),
    decreases e - d,
{
    if d < e {
        lemma_draw_deeper_by(table, picks, k, d, (e - 1) as nat);
        lemma_draw_deeper(table, picks, k, (e - 1) as nat);
    }
}

/// What a module resolves to at a depth that is enough is its resolved list.
pub proof fn lemma_resolved(table: ModuleTable, i: int, d: nat)
    requires
        resolve_at(table, i, d) != cycle(),
    ensures
        resolved_mods(table, i) == resolve_at(table, i, d),
{
    let c = choose|c: nat| resolve_at(table, i, c) != cycle();
    if c <= d {
        lemma_deeper_by(table, i, c, d);
    } else {
        lemma_deeper_by(table, i, d, c);
    }
}

pub proof fn lemma_resolved_ref(table: ModuleTable, id: Text, d: nat)
    requires
        resolve_ref(table, id, d) != cycle(),
    ensures
        resolved_ref(table, id) == resolve_ref(table, id, d),
{
    match module_index(table, id) {
        None => {},
        Some(j) => {
            lemma_resolved(table, j, d);
        },
    }
}

pub proof fn lemma_drawn(table: ModuleTable, picks: Seq<(Text, Seq<Text>)>, k: nat, d: nat)
    requires
        draw(table, picks, k, d) != cycle(),
    ensures
        drawn(table, picks, k) == draw(table, picks, k, d),
    decreases k,
{
    if k > 0 {
        lemma_drawn(table, picks, (k - 1) as nat, d);
        if draw(table, picks, (k - 1) as nat, d) is Ok {
            lemma_resolved_ref(table, picks[k - 1].0, d);
        }
    }
}

/// A depth at which a reference resolves to what it resolves to.
pub proof fn lemma_ref_depth(table: ModuleTable, id: Text) -> (d: nat)
    requires
        resolved_ref(table, id) != cycle(),
    ensures
        resolve_ref(table, id, d) == resolved_ref(table, id),
{
    match module_index(table, id) {
        None => 0,
        Some(j) => choose|d: nat| resolve_at(table, j, d) != cycle(),
    }
}

/// A depth at which the picks draw what they draw.
pub proof fn lemma_drawn_depth(table: ModuleTable, picks: Seq<(Text, Seq<Text>)>, k: nat) -> (d: nat)
    requires
        drawn(table, picks, k) != cycle(),
    ensures
        draw(table, picks, k, d) == drawn(table, picks, k),
    decreases k,
{
    if k == 0 {
        0
    } else {
        let d1 = lemma_drawn_depth(table, picks, (k - 1) as nat);
        match drawn(table, picks, (k - 1) as nat) {
            Err(e) => d1,
            Ok(before) => {
                let d2 = lemma_ref_depth(table, picks[k - 1].0);
                let d = if d1 <= d2 {
                    d2
                } else {
                    d1
                };
                lemma_draw_deeper_by(table, picks, (k - 1) as nat, d1, d);
                lemma_ref_deeper_by(table, picks[k - 1].0, d2, d);
                d
            },
        }
    }
}

/// The resolved list of every module is what one step of the merge makes of the
/// resolved lists of the modules it imports from: without picks the source
/// module's list, with picks the picked entries of each picks source in declared
/// order, and the module's own mods after them where `append_mods` is set. A
/// fault of a module that is imported from is the fault of the importing module.
pub proof fn law_merge_equation(table: ModuleTable, i: int)
    requires
        0 <= i < table.len(),
    ensures
        resolved_mods(table, i) == merge_step(table, i),
{
    let module = table[i].1;
    if exists|d: nat| resolve_at(table, i, d) != cycle() {
        let d = choose|d: nat| resolve_at(table, i, d) != cycle();
        match module.import {
            None => {},
            Some(import) => {
                let g = (d - 1) as nat;
                lemma_resolved_ref(table, import.import, g);
                match import.picks {
                    None => {},
                    Some(picks) => {
                        if resolve_ref(table, import.import, g) is Ok {
                            lemma_drawn(table, picks, picks.len(), g);
                        }
                    },
                }
            },
        }
    } else {
        if merge_step(table, i) != cycle() {
            match module.import {
                None => {
                    assert(resolve_at(table, i, 1) != cycle());
                },
                Some(import) => {
                    let d0 = lemma_ref_depth(table, import.import);
                    match import.picks {
                        None => {
                            assert(resolve_at(table, i, d0 + 1) != cycle());
                        },
                        Some(picks) => {
                            if resolved_ref(table, import.import) is Ok {
                                let d1 = lemma_drawn_depth(table, picks, picks.len());
                                let d = if d0 <= d1 {
                                    d1
                                } else {
                                    d0
                                };
                                lemma_ref_deeper_by(table, import.import, d0, d);
                                lemma_draw_deeper_by(table, picks, picks.len(), d1, d);
                                assert(resolve_at(table, i, d + 1) != cycle());
                            } else {
                                assert(resolve_at(table, i, d0 + 1) != cycle());
                            }
                        },
                    }
                },
            }
        }
    }
}

/// What `pick_all` draws: where every id is the id of some entry of `source`, one
/// entry per id, in the order of the ids, each the first of `source` under its
/// id; otherwise a `PickNotFound` that names `module` and an id that `source`
/// does not hold.
pub proof fn law_pick_all(source: Seq<ModEntryView>, module: Text, ids: Seq<Text>)
    ensures
        match pick_all(source, module, ids) {
            Ok(chosen) => {
                &&& entry_ids(chosen) == ids
                &&& forall|k: int|
                    0 <= k < ids.len() ==> first_index(entry_ids(source), ids[k]) is Some && chosen[k]
                        == source[first_index(entry_ids(source), #[trigger] ids[k]).unwrap()]
            },
            Err(e) => exists|k: int|
                0 <= k < ids.len() && !entry_ids(source).contains(#[trigger] ids[k]) && e
                    == (ValidationErrorView::PickNotFound { module, mod_id: ids[k] }),
        },
        (forall|k: int| 0 <= k < ids.len() ==> entry_ids(source).contains(#[trigger] ids[k]))
            ==> pick_all(source, module, ids) is Ok,
    decreases ids.len(),
{
    if ids.len() > 0 {
        let front = ids.drop_last();
        let k = ids.len() - 1;
        law_pick_all(source, module, front);
        lemma_first_index(entry_ids(source), ids.last());
        assert(forall|j: int| 0 <= j < front.len() ==> front[j] == ids[j]);
        match pick_all(source, module, front) {
            Err(e) => {
                let j = choose|j: int|
                    0 <= j < front.len() && !entry_ids(source).contains(#[trigger] front[j]) && e
                        == (ValidationErrorView::PickNotFound { module, mod_id: front[j] });
                assert(0 <= j < ids.len() && !entry_ids(source).contains(ids[j]) && e
                    == (ValidationErrorView::PickNotFound { module, mod_id: ids[j] }));
            },
            Ok(before) => match first_index(entry_ids(source), ids.last()) {
                None => {
                    assert(0 <= k < ids.len() && !entry_ids(source).contains(ids[k]));
                },
                Some(p) => {
                    let chosen = before.push(source[p]);
                    assert(entry_ids(source)[p] == source[p].id());
                    assert(entry_ids(before) == front);
                    assert forall|j: int| 0 <= j < ids.len() implies entry_ids(chosen)[j] == ids[j] by {
                        if j < k {
                            assert(entry_ids(before)[j] == before[j].id());
                        }
                    }
                    assert(entry_ids(chosen) =~= ids);
                },
            },
        }
    } else {
        assert(entry_ids(Seq::<ModEntryView>::empty()) =~= ids);
    }
}

/// A module that imports without picks resolves to the resolved list of its
/// source module, followed by its own mods where `append_mods` is set, and to
/// that list alone where it is not.
pub proof fn law_import_without_picks(table: ModuleTable, i: int, source: Seq<ModEntryView>)
    requires
        0 <= i < table.len(),
        table[i].1.import is Some,
        table[i].1.import.unwrap().picks is None,
        resolved_ref(table, table[i].1.import.unwrap().import) == Ok::<
            Seq<ModEntryView>,
            ValidationErrorView,
        >(source),
    ensures
        table[i].1.import.unwrap().append_mods == Some(true) ==> resolved_mods(table, i) == Ok::<
            Seq<ModEntryView>,
            ValidationErrorView,
        >(source + table[i].1.mods),
        table[i].1.import.unwrap().append_mods != Some(true) ==> resolved_mods(table, i) == Ok::<
            Seq<ModEntryView>,
            ValidationErrorView,
        >(source),
{
    law_merge_equation(table, i);
}

/// A module that picks `ids` from one source module resolves to exactly the
/// entries of the source's resolved list that the ids name, in the order of
/// the ids (its own mods after them where `append_mods` is set); an id that
/// the source's resolved list does not hold is a `PickNotFound`.
pub proof fn law_import_with_picks(
    table: ModuleTable,
    i: int,
    source_id: Text,
    ids: Seq<Text>,
    source: Seq<ModEntryView>,
)
    requires
        0 <= i < table.len(),
        table[i].1.import is Some,
        table[i].1.import.unwrap().picks == Some(seq![(source_id, ids)]),
        resolved_ref(table, table[i].1.import.unwrap().import) is Ok,
        resolved_ref(table, source_id) == Ok::<Seq<ModEntryView>, ValidationErrorView>(source),
    ensures
        match pick_all(source, source_id, ids) {
            Ok(chosen) => entry_ids(chosen) == ids && resolved_mods(table, i) == Ok::<
                Seq<ModEntryView>,
                ValidationErrorView,
            >(
                if table[i].1.import.unwrap().append_mods == Some(true) {
                    chosen + table[i].1.mods
                } else {
                    chosen
                },
            ),
            Err(e) => e is PickNotFound && resolved_mods(table, i) == Err::<
                Seq<ModEntryView>,
                ValidationErrorView,
            >(e),
        },
        (exists|k: int| 0 <= k < ids.len() && !entry_ids(source).contains(#[trigger] ids[k]))
            ==> pick_all(source, source_id, ids) is Err,
{
    let picks = seq![(source_id, ids)];
    law_merge_equation(table, i);
    law_pick_all(source, source_id, ids);
    assert(drawn(table, picks, 0) == Ok::<Seq<ModEntryView>, ValidationErrorView>(Seq::empty()));
    assert(picks[0] == (source_id, ids));
    match pick_all(source, source_id, ids) {
        Ok(chosen) => {
            assert forall|k: int| 0 <= k < ids.len() implies entry_ids(source).contains(#[trigger] ids[k]) by {
                lemma_first_index(entry_ids(source), ids[k]);
            }
            assert(Seq::<ModEntryView>::empty() + chosen =~= chosen);
            assert(drawn(table, picks, 1) == Ok::<Seq<ModEntryView>, ValidationErrorView>(chosen));
        },
        Err(e) => {
            assert(drawn(table, picks, 1) == Err::<Seq<ModEntryView>, ValidationErrorView>(e));
        },
    }
}

/// Module `i` imports from module `j`: its source module, or one of its picks
/// sources, is `j`.
pub open spec fn imports_from(table: ModuleTable, i: int, j: int) -> bool {
    &&& 0 <= i < table.len()
    &&& table[i].1.import matches Some(import)
    &&& {
        ||| module_index(table, import.import) == Some(j)
        ||| import.picks matches Some(picks) && exists|q: int|
            0 <= q < picks.len() && module_index(table, #[trigger] picks[q].0) == Some(j)
    }
}

/// The modules of `path` import in a circle: each from the next, the last from the first.
pub open spec fn import_cycle(table: ModuleTable, path: Seq<int>) -> bool {
    &&& path.len() >= 1
    &&& forall|k: int| 0 <= k < path.len() - 1 ==> imports_from(table, #[trigger] path[k], path[k + 1])
    &&& imports_from(table, path.last(), path.first())
}

/// A fault of one picks source is a fault of the draw.
proof fn lemma_draw_source_fails(table: ModuleTable, picks: Seq<(Text, Seq<Text>)>, q: int, d: nat)
    requires
        0 <= q < picks.len(),
        resolve_ref(table, picks[q].0, d) is Err,
    ensures
        draw(table, picks, picks.len(), d) is Err,
{
    assert(draw(table, picks, (q + 1) as nat, d) is Err);
    lemma_draw_fails(table, picks, (q + 1) as nat, picks.len(), d);
}

proof fn lemma_importer_fails(table: ModuleTable, i: int, j: int, d: nat)
    requires
        imports_from(table, i, j),
        d >= 1,
        resolve_at(table, j, (d - 1) as nat) is Err,
    ensures
        resolve_at(table, i, d) is Err,
{
    let import = table[i].1.import.unwrap();
    let g = (d - 1) as nat;
    if module_index(table, import.import) == Some(j) {
    } else {
        let picks = import.picks.unwrap();
        let q = choose|q: int| 0 <= q < picks.len() && module_index(table, #[trigger] picks[q].0) == Some(j);
        lemma_draw_source_fails(table, picks, q, g);
    }
}

proof fn lemma_cycle_depth(table: ModuleTable, path: Seq<int>, d: nat)
    requires
        import_cycle(table, path),
    ensures
        forall|k: int| 0 <= k < path.len() ==> #[trigger] resolve_at(table, path[k], d) is Err,
    decreases d,
{
    if d > 0 {
        lemma_cycle_depth(table, path, (d - 1) as nat);
        assert forall|k: int| 0 <= k < path.len() implies #[trigger] resolve_at(table, path[k], d) is Err by {
            if k < path.len() - 1 {
                assert(imports_from(table, path[k], path[k + 1]));
                lemma_importer_fails(table, path[k], path[k + 1], d);
            } else {
                assert(resolve_at(table, path[0], (d - 1) as nat) is Err);
                lemma_importer_fails(table, path[k], path[0], d);
            }
        }
    }
}

/// Where the merge succeeds, every module has resolved.
proof fn lemma_resolve_all_ok(table: ModuleTable, k: nat, i: int)
    requires
        0 <= i < k,
        resolve_all(table, k) is Ok,
    ensures
        resolved_mods(table, i) is Ok,
    decreases k,
{
    if i < k - 1 {
        lemma_resolve_all_ok(table, (k - 1) as nat, i);
    }
}

/// Modules that import in a circle do not resolve, and the merge of a table
/// that holds such modules fails.
pub proof fn law_cycle_rejected(table: ModuleTable, path: Seq<int>)
    requires
        import_cycle(table, path),
    ensures
        forall|k: int| 0 <= k < path.len() ==> #[trigger] resolved_mods(table, path[k]) is Err,
        merged_table(table) is Err,
{
    assert forall|k: int| 0 <= k < path.len() implies #[trigger] resolved_mods(table, path[k]) is Err by {
        if exists|d: nat| resolve_at(table, path[k], d) != cycle() {
            let d = choose|d: nat| resolve_at(table, path[k], d) != cycle();
            lemma_cycle_depth(table, path, d);
        }
    }
    let last = path.last();
    assert(resolved_mods(table, last) is Err);
    assert(imports_from(table, last, path.first()));
    if resolve_all(table, table.len()) is Ok {
        lemma_resolve_all_ok(table, table.len(), last);
    }
}

/// Where the resolution of one module stands.
enum Slot {
    Pending,
    Done(Vec<ModEntry>),
    Failed(ValidationError),
}

impl Slot {
    spec fn result(self) -> Option<Resolution> {
        match self {
            Slot::Pending => None,
            Slot::Done(mods) => Some(Ok(mods.deep_view())),
            Slot::Failed(e) => Some(Err(e@)),
        }
    }
}

/// `r` is what module `j` resolves to at every depth from `c` on; below that
/// the depth may run out first.
spec fn settles(table: ModuleTable, j: int, c: nat, r: Resolution) -> bool {
    &&& r != cycle()
    &&& forall|f: nat| #[trigger]
        resolve_at(table, j, f) == r || (f < c && resolve_at(table, j, f) == cycle())
}

spec fn ref_settles(table: ModuleTable, id: Text, c: nat, r: Resolution) -> bool {
    &&& r != cycle()
    &&& forall|f: nat| #[trigger]
        resolve_ref(table, id, f) == r || (f < c && resolve_ref(table, id, f) == cycle())
}

spec fn draw_settles(table: ModuleTable, picks: Seq<(Text, Seq<Text>)>, k: nat, c: nat, r: Resolution) -> bool {
    &&& r != cycle()
    &&& forall|f: nat| #[trigger]
        draw(table, picks, k, f) == r || (f < c && draw(table, picks, k, f) == cycle())
}

spec fn slots_ok(table: ModuleTable, slots: Seq<Slot>, c: nat) -> bool {
    &&& slots.len() == table.len()
    &&& forall|j: int|
        0 <= j < slots.len() && (#[trigger] slots[j]) !is Pending ==> settles(
            table,
            j,
            c,
            slots[j].result().unwrap(),
        )
}

spec fn pend(slots: Seq<Slot>) -> Seq<bool> {
    Seq::new(slots.len(), |j: int| slots[j] is Pending)
}

/// Every module still pending runs out of depth `f`.
spec fn all_cycle(table: ModuleTable, pending: Seq<bool>, f: nat) -> bool {
    forall|j: int| 0 <= j < pending.len() && pending[j] ==> #[trigger] resolve_at(table, j, f) == cycle()
}

/// Module `i` runs out of any depth that the pending modules run out of one below.
spec fn waits(table: ModuleTable, pending: Seq<bool>, i: int) -> bool {
    forall|f: nat|
        f >= 1 && all_cycle(table, pending, (f - 1) as nat) ==> #[trigger] resolve_at(table, i, f)
            == cycle()
}

/// Where every pending module waits for a pending one, none resolves at any depth.
proof fn lemma_stuck(table: ModuleTable, pending: Seq<bool>, f: nat)
    requires
        forall|i: int| 0 <= i < pending.len() && pending[i] ==> waits(table, pending, i),
    ensures
        all_cycle(table, pending, f),
    decreases f,
{
    if f > 0 {
        lemma_stuck(table, pending, (f - 1) as nat);
        assert forall|j: int| 0 <= j < pending.len() && pending[j] implies #[trigger] resolve_at(
            table,
            j,
            f,
        ) == cycle() by {
            assert(waits(table, pending, j));
        }
    }
}

proof fn lemma_slots_grow(table: ModuleTable, slots: Seq<Slot>, c: nat, d: nat)
    requires
        slots_ok(table, slots, c),
        c <= d,
    ensures
        slots_ok(table, slots, d),
{
    assert forall|j: int| 0 <= j < slots.len() && (#[trigger] slots[j]) !is Pending implies settles(
        table,
        j,
        d,
        slots[j].result().unwrap(),
    ) by {
        assert(settles(table, j, c, slots[j].result().unwrap()));
    }
}

/// Looks up the module that `id` names: its position where it is resolved,
/// nothing where it is pending, its fault where it has one or is not declared.
fn look_up(modules: &Vec<(String, Module)>, slots: &Vec<Slot>, id: &String, Ghost(c): Ghost<nat>) -> (r:
    Result<Option<usize>, ValidationError>)
    requires
        slots_ok(table_view(modules@), slots@, c),
    ensures
        match r {
            Ok(Some(j)) => j < slots.len() && slots[j as int] is Done && ref_settles(
                table_view(modules@),
                id@,
                c,
                slots[j as int].result().unwrap(),
            ),
            Ok(None) => forall|f: nat|
                all_cycle(table_view(modules@), pend(slots@), f) ==> #[trigger] resolve_ref(
                    table_view(modules@),
                    id@,
                    f,
                ) == cycle(),
            Err(e) => ref_settles(table_view(modules@), id@, c, Err(e@)),
        },
{
    let ghost table = table_view(modules@);
    match find_module(modules, id) {
        None => Err(ValidationError::UnknownModule(id.clone())),
        Some(j) => {
            proof {
                assert(forall|f: nat| #[trigger]
                    resolve_ref(table, id@, f) == resolve_at(table, j as int, f));
            }
            match &slots[j] {
                Slot::Pending => {
                    assert(pend(slots@)[j as int]);
                    Ok(None)
                },
                Slot::Done(_) => {
                    assert(settles(table, j as int, c, slots[j as int].result().unwrap()));
                    Ok(Some(j))
                },
                Slot::Failed(e) => {
                    assert(settles(table, j as int, c, slots[j as int].result().unwrap()));
                    Err(e.clone())
                },
            }
        },
    }
}

/// Appends copies of `more` to `mods`.
fn append_entries(mods: &mut Vec<ModEntry>, more: &Vec<ModEntry>)
    ensures
        final(mods).deep_view() == old(mods).deep_view() + more.deep_view(),
{
    let ghost before = mods.deep_view();
    let mut i: usize = 0;
    assert(mods.deep_view() =~= before + more.deep_view().take(0));
    while i < more.len()
        invariant
            i <= more.len(),
            mods.deep_view() == before + more.deep_view().take(i as int),
        decreases more.len() - i,
    {
        let ghost prev = mods.deep_view();
        mods.push(more[i].clone());
        assert(mods.deep_view() =~= prev.push(more.deep_view()[i as int]));
        assert(mods.deep_view() =~= before + more.deep_view().take(i as int + 1));
        i += 1;
    }
    assert(more.deep_view().take(more.len() as int) =~= more.deep_view());
}

/// Draws what `picks` name from the resolved lists of their source modules.
fn draw_picks(
    modules: &Vec<(String, Module)>,
    slots: &Vec<Slot>,
    picks: &Vec<(String, Vec<String>)>,
    Ghost(c): Ghost<nat>,
) -> (r: Result<Option<Vec<ModEntry>>, ValidationError>)
    requires
        slots_ok(table_view(modules@), slots@, c),
    ensures
        match r {
            Ok(Some(mods)) => draw_settles(
                table_view(modules@),
                picks_view(picks@),
                picks.len() as nat,
                c,
                Ok(mods.deep_view()),
            ),
            Ok(None) => forall|f: nat|
                all_cycle(table_view(modules@), pend(slots@), f) ==> #[trigger] draw(
                    table_view(modules@),
                    picks_view(picks@),
                    picks.len() as nat,
                    f,
                ) == cycle(),
            Err(e) => draw_settles(
                table_view(modules@),
                picks_view(picks@),
                picks.len() as nat,
                c,
                Err(e@),
            ),
        },
{
    let ghost table = table_view(modules@);
    let ghost pv = picks_view(picks@);
    let ghost len = picks.len() as nat;
    let mut drawn: Vec<ModEntry> = Vec::new();
    let mut k: usize = 0;
    assert(drawn.deep_view() =~= Seq::<ModEntryView>::empty());
    while k < picks.len()
        invariant
            k <= picks.len(),
            table == table_view(modules@),
            pv == picks_view(picks@),
            len == picks.len(),
            slots_ok(table, slots@, c),
            draw_settles(table, pv, k as nat, c, Ok(drawn.deep_view())),
        decreases picks.len() - k,
    {
        let ghost before = drawn.deep_view();
        let ghost next = (k + 1) as nat;
        assert(pv[k as int].0 == picks[k as int].0@);
        assert(pv[k as int].1 == texts(picks[k as int].1@));
        match look_up(modules, slots, &picks[k].0, Ghost(c)) {
            Err(e) => {
                proof {
                    assert forall|f: nat| #[trigger]
                        draw(table, pv, len, f) == Err::<Seq<ModEntryView>, ValidationErrorView>(e@) || (f
                            < c && draw(table, pv, len, f) == cycle()) by {
                        assert(draw(table, pv, k as nat, f) == Ok::<Seq<ModEntryView>, ValidationErrorView>(before)
                            || (f < c && draw(table, pv, k as nat, f) == cycle()));
                        assert(resolve_ref(table, pv[k as int].0, f) == Err::<
                            Seq<ModEntryView>,
                            ValidationErrorView,
                        >(e@) || (f < c && resolve_ref(table, pv[k as int].0, f) == cycle()));
                        assert(draw(table, pv, next, f) is Err);
                        lemma_draw_fails(table, pv, next, len, f);
                    }
                }
                return Err(e);
            },
            Ok(None) => {
                proof {
                    assert forall|f: nat| all_cycle(table, pend(slots@), f) implies #[trigger] draw(
                        table,
                        pv,
                        len,
                        f,
                    ) == cycle() by {
                        assert(draw(table, pv, k as nat, f) == Ok::<Seq<ModEntryView>, ValidationErrorView>(before)
                            || (f < c && draw(table, pv, k as nat, f) == cycle()));
                        assert(resolve_ref(table, pv[k as int].0, f) == cycle());
                        assert(draw(table, pv, next, f) == cycle());
                        lemma_draw_fails(table, pv, next, len, f);
                    }
                }
                return Ok(None);
            },
            Ok(Some(j)) => {
                match &slots[j] {
                    Slot::Done(source) => {
                        match pick_entries(source, &picks[k].0, &picks[k].1) {
                            Err(e) => {
                                proof {
                                    assert forall|f: nat| #[trigger]
                                        draw(table, pv, len, f) == Err::<
                                            Seq<ModEntryView>,
                                            ValidationErrorView,
                                        >(e@) || (f < c && draw(table, pv, len, f) == cycle()) by {
                                        assert(draw(table, pv, k as nat, f) == Ok::<
                                            Seq<ModEntryView>,
                                            ValidationErrorView,
                                        >(before) || (f < c && draw(table, pv, k as nat, f) == cycle()));
                                        assert(resolve_ref(table, pv[k as int].0, f) == Ok::<
                                            Seq<ModEntryView>,
                                            ValidationErrorView,
                                        >(source.deep_view()) || (f < c && resolve_ref(
                                            table,
                                            pv[k as int].0,
                                            f,
                                        ) == cycle()));
                                        assert(draw(table, pv, next, f) is Err);
                                        lemma_draw_fails(table, pv, next, len, f);
                                    }
                                }
                                return Err(e);
                            },
                            Ok(chosen) => {
                                append_entries(&mut drawn, &chosen);
                                proof {
                                    assert forall|f: nat| #[trigger]
                                        draw(table, pv, next, f) == Ok::<
                                            Seq<ModEntryView>,
                                            ValidationErrorView,
                                        >(drawn.deep_view()) || (f < c && draw(table, pv, next, f)
                                            == cycle()) by {
                                        assert(draw(table, pv, k as nat, f) == Ok::<
                                            Seq<ModEntryView>,
                                            ValidationErrorView,
                                        >(before) || (f < c && draw(table, pv, k as nat, f) == cycle()));
                                        assert(resolve_ref(table, pv[k as int].0, f) == Ok::<
                                            Seq<ModEntryView>,
                                            ValidationErrorView,
                                        >(source.deep_view()) || (f < c && resolve_ref(
                                            table,
                                            pv[k as int].0,
                                            f,
                                        ) == cycle()));
                                    }
                                }
                            },
                        }
                    },
                    _ => {
                        assert(false);
                        return Ok(None);
                    },
                }
            },
        }
        k += 1;
    }
    Ok(Some(drawn))
}

/// Tries to resolve module `i` from the modules resolved so far.
fn attempt(modules: &Vec<(String, Module)>, slots: &Vec<Slot>, i: usize, Ghost(c): Ghost<nat>) -> (r:
    Option<Slot>)
    requires
        i < modules.len(),
        slots_ok(table_view(modules@), slots@, c),
    ensures
        match r {
            Some(slot) => slot !is Pending && settles(
                table_view(modules@),
                i as int,
                c + 1,
                slot.result().unwrap(),
            ),
            None => waits(table_view(modules@), pend(slots@), i as int),
        },
{
    let ghost table = table_view(modules@);
    let module = &modules[i].1;
    assert(table[i as int].1 == module@);
    match &module.import {
        None => {
            let mods = copy_entries(&module.mods);
            assert(forall|f: nat| f >= 1 ==> #[trigger] resolve_at(table, i as int, f) == Ok::<
                Seq<ModEntryView>,
                ValidationErrorView,
            >(mods.deep_view()));
            Some(Slot::Done(mods))
        },
        Some(import) => {
            assert(module@.import == Some(import@));
            let source = match look_up(modules, slots, &import.import, Ghost(c)) {
                Err(e) => {
                    assert(forall|f: nat| f >= 1 ==> #[trigger] resolve_at(table, i as int, f)
                        == resolve_ref(table, import@.import, (f - 1) as nat));
                    return Some(Slot::Failed(e));
                },
                Ok(None) => {
                    assert(forall|f: nat| f >= 1 ==> #[trigger] resolve_at(table, i as int, f)
                        == resolve_ref(table, import@.import, (f - 1) as nat) || resolve_ref(
                        table,
                        import@.import,
                        (f - 1) as nat,
                    ) is Ok);
                    return None;
                },
                Ok(Some(j)) => j,
            };
            let ghost src = slots[source as int].result().unwrap();
            let drawn = match &import.picks {
                None => {
                    match &slots[source] {
                        Slot::Done(mods) => copy_entries(mods),
                        _ => {
                            assert(false);
                            return None;
                        },
                    }
                },
                Some(picks) => {
                    assert(import@.picks == Some(picks_view(picks@)));
                    match draw_picks(modules, slots, picks, Ghost(c)) {
                        Err(e) => {
                            proof {
                                let pv = picks_view(picks@);
                                assert forall|f: nat| #[trigger]
                                    resolve_at(table, i as int, f) == Err::<
                                        Seq<ModEntryView>,
                                        ValidationErrorView,
                                    >(e@) || (f < c + 1 && resolve_at(table, i as int, f) == cycle()) by {
                                    if f >= 1 {
                                        let g = (f - 1) as nat;
                                        assert(resolve_ref(table, import@.import, g) == src || (g < c
                                            && resolve_ref(table, import@.import, g) == cycle()));
                                        assert(draw(table, pv, pv.len(), g) == Err::<
                                            Seq<ModEntryView>,
                                            ValidationErrorView,
                                        >(e@) || (g < c && draw(table, pv, pv.len(), g) == cycle()));
                                    }
                                }
                            }
                            return Some(Slot::Failed(e));
                        },
                        Ok(None) => {
                            proof {
                                let pv = picks_view(picks@);
                                assert forall|f: nat|
                                    f >= 1 && all_cycle(
                                        table,
                                        pend(slots@),
                                        (f - 1) as nat,
                                    ) implies #[trigger] resolve_at(table, i as int, f) == cycle() by {
                                    let g = (f - 1) as nat;
                                    assert(resolve_ref(table, import@.import, g) == src || (g < c
                                        && resolve_ref(table, import@.import, g) == cycle()));
                                    assert(draw(table, pv, pv.len(), g) == cycle());
                                }
                            }
                            return None;
                        },
                        Ok(Some(mods)) => mods,
                    }
                },
            };
            let ghost taken = drawn.deep_view();
            let mut mods = drawn;
            match import.append_mods {
                Some(true) => {
                    append_entries(&mut mods, &module.mods);
                },
                _ => {},
            }
            proof {
                assert forall|f: nat| #[trigger]
                    resolve_at(table, i as int, f) == Ok::<Seq<ModEntryView>, ValidationErrorView>(
                        mods.deep_view(),
                    ) || (f < c + 1 && resolve_at(table, i as int, f) == cycle()) by {
                    if f >= 1 {
                        let g = (f - 1) as nat;
                        assert(resolve_ref(table, import@.import, g) == src || (g < c && resolve_ref(
                            table,
                            import@.import,
                            g,
                        ) == cycle()));
                        match import@.picks {
                            None => {},
                            Some(pv) => {
                                assert(draw(table, pv, pv.len(), g) == Ok::<
                                    Seq<ModEntryView>,
                                    ValidationErrorView,
                                >(taken) || (g < c && draw(table, pv, pv.len(), g) == cycle()));
                            },
                        }
                    }
                }
            }
            Some(Slot::Done(mods))
        },
    }
}

/// Resolves every module's mod list against the modules it imports from and
/// returns the table with the resolved lists in place of the imports. The
/// fault of the first module in declared order that has one fails the merge.
pub fn merge_table(modules: &Vec<(String, Module)>) -> (r: Result<Vec<(String, Module)>, ValidationError>)
    ensures
        match r {
            Ok(merged) => merged_table(table_view(modules@)) == Ok::<ModuleTable, ValidationErrorView>(
                table_view(merged@),
            ),
            Err(e) => merged_table(table_view(modules@)) == Err::<ModuleTable, ValidationErrorView>(e@),
        },
{
    merge_first(modules, modules.len())
}

/// Resolves the first `keep` modules, or all where there are fewer, against
/// the whole table and returns them with the resolved lists in place of the
/// imports.
pub fn merge_first(modules: &Vec<(String, Module)>, keep: usize) -> (r: Result<
    Vec<(String, Module)>,
    ValidationError,
>)
    ensures
        match r {
            Ok(merged) => merged_first(table_view(modules@), at_most(keep as nat, modules.len() as nat))
                == Ok::<ModuleTable, ValidationErrorView>(table_view(merged@)),
            Err(e) => merged_first(table_view(modules@), at_most(keep as nat, modules.len() as nat))
                == Err::<ModuleTable, ValidationErrorView>(e@),
        },
{
    let ghost table = table_view(modules@);
    let n = modules.len();
    let kept = if keep <= n {
        keep
    } else {
        n
    };
    let mut slots: Vec<Slot> = Vec::new();
    while slots.len() < n
        invariant
            slots.len() <= n,
            forall|j: int| 0 <= j < slots.len() ==> slots[j] is Pending,
        decreases n - slots.len(),
    {
        slots.push(Slot::Pending);
    }
    let ghost mut done: Set<int> = Set::empty();
    let mut progress = true;
    while progress
        invariant
            n == modules.len(),
            slots.len() == n,
            table == table_view(modules@),
            slots_ok(table, slots@, done.len()),
            done.finite(),
            done.len() <= n,
            forall|j: int| done.contains(j) <==> (0 <= j < n && slots[j] !is Pending),
            !progress ==> forall|i: int| 0 <= i < n && slots[i] is Pending ==> waits(table, pend(slots@), i),
        decreases n - done.len() + (if progress { 1int } else { 0int }),
    {
        progress = false;
        let ghost before = done.len();
        let mut i: usize = 0;
        while i < n
            invariant
                i <= n,
                n == modules.len(),
                slots.len() == n,
                table == table_view(modules@),
                slots_ok(table, slots@, done.len()),
                done.finite(),
                done.len() <= n,
                before <= done.len(),
                progress ==> before < done.len(),
                forall|j: int| done.contains(j) <==> (0 <= j < n && slots[j] !is Pending),
                !progress ==> forall|j: int| 0 <= j < i && slots[j] is Pending ==> waits(table, pend(slots@), j),
            decreases n - i,
        {
            let pending = match &slots[i] {
                Slot::Pending => true,
                _ => false,
            };
            if pending {
                match attempt(modules, &slots, i, Ghost(done.len())) {
                    None => {},
                    Some(slot) => {
                        proof {
                            lemma_slots_grow(table, slots@, done.len(), done.len() + 1);
                        }
                        slots.set(i, slot);
                        proof {
                            done = done.insert(i as int);
                            lemma_int_range(0, n as int);
                            lemma_len_subset(done, set_int_range(0, n as int));
                        }
                        progress = true;
                    },
                }
            }
            i += 1;
        }
    }
    let ghost pending = pend(slots@);
    let ghost mut lists: Seq<Seq<ModEntryView>> = Seq::empty();
    let mut merged: Vec<(String, Module)> = Vec::new();
    let mut i: usize = 0;
    assert(table_view(merged@) =~= Seq::new(0, |j: int| (table[j].0, merged_module(table[j].1, lists[j]))));
    while i < kept
        invariant
            i <= kept,
            kept <= n,
            kept == at_most(keep as nat, n as nat),
            n == modules.len(),
            slots.len() == n,
            table == table_view(modules@),
            pending == pend(slots@),
            slots_ok(table, slots@, done.len()),
            done.len() <= n,
            forall|j: int| 0 <= j < n && slots[j] is Pending ==> waits(table, pending, j),
            resolve_all(table, i as nat) == Ok::<Seq<Seq<ModEntryView>>, ValidationErrorView>(lists),
            lists.len() == i,
            merged.len() == i,
            table_view(merged@) == Seq::new(
                i as nat,
                |j: int| (table[j].0, merged_module(table[j].1, lists[j])),
            ),
        decreases kept - i,
    {
        let ghost next = (i + 1) as nat;
        match &slots[i] {
            Slot::Pending => {
                proof {
                    assert(pending[i as int]);
                    assert forall|f: nat| resolve_at(table, i as int, f) == cycle() by {
                        lemma_stuck(table, pending, f);
                    }
                    assert(resolved_mods(table, i as int) == cycle());
                    assert(resolve_all(table, next) is Err);
                    lemma_resolve_all_fails(table, next, kept as nat);
                }
                return Err(ValidationError::ImportCycle);
            },
            Slot::Failed(e) => {
                proof {
                    assert(settles(table, i as int, done.len(), slots[i as int].result().unwrap()));
                    lemma_resolved(table, i as int, done.len());
                    assert(resolved_mods(table, i as int) == Err::<Seq<ModEntryView>, ValidationErrorView>(e@));
                    assert(resolve_all(table, next) is Err);
                    lemma_resolve_all_fails(table, next, kept as nat);
                }
                return Err(e.clone());
            },
            Slot::Done(mods) => {
                proof {
                    assert(settles(table, i as int, done.len(), slots[i as int].result().unwrap()));
                    lemma_resolved(table, i as int, done.len());
                    assert(resolved_mods(table, i as int) == Ok::<Seq<ModEntryView>, ValidationErrorView>(
                        mods.deep_view(),
                    ));
                }
                let ghost prev = table_view(merged@);
                let ghost old_lists = lists;
                let module = Module {
                    import: None,
                    display_name: modules[i].1.display_name.clone(),
                    desc: copy_opt_string(&modules[i].1.desc),
                    mods: copy_entries(mods),
                };
                merged.push((modules[i].0.clone(), module));
                proof {
                    lists = lists.push(mods.deep_view());
                    assert(merged@[i as int].1@ == merged_module(table[i as int].1, lists[i as int]));
                    assert(forall|j: int| 0 <= j < i ==> table_view(merged@)[j] == prev[j]);
                    assert(forall|j: int| 0 <= j < i ==> lists[j] == old_lists[j]);
                    assert(table_view(merged@)[i as int] == (
                        table[i as int].0,
                        merged_module(table[i as int].1, lists[i as int]),
                    ));
                    let target = Seq::new(next, |j: int| (table[j].0, merged_module(table[j].1, lists[j])));
                    assert forall|j: int| 0 <= j < next implies table_view(merged@)[j] == target[j] by {
                        if j < i {
                            assert(prev[j] == (table[j].0, merged_module(table[j].1, old_lists[j])));
                        }
                    }
                    assert(table_view(merged@).len() == target.len());
                    assert(table_view(merged@) =~= Seq::new(
                        next,
                        |j: int| (table[j].0, merged_module(table[j].1, lists[j])),
                    ));
                }
            },
        }
        i += 1;
    }
    Ok(merged)
}

impl Template {
    /// Replaces every module's mods by its resolved list and drops the imports.
    /// A template with a fault in its imports is left as it is.
    pub fn merge_modules_with_imports(&mut self) -> (r: Result<(), ValidationError>)
        ensures
            match r {
                Ok(()) => merged_table(old(self)@.modules) == Ok::<ModuleTable, ValidationErrorView>(
                    final(self)@.modules,
                ) && final(self)@.info == old(self)@.info && final(self)@.imports == old(self)@.imports
                    && final(self)@.enable_modules == old(self)@.enable_modules,
                Err(e) => merged_table(old(self)@.modules) == Err::<ModuleTable, ValidationErrorView>(
                    e@,
                ) && *final(self) == *old(self),
            },
    {
        match merge_table(&self.modules) {
            Ok(merged) => {
                self.modules = merged;
                Ok(())
            },
            Err(e) => Err(e),
        }
    }
}

} // verus!
