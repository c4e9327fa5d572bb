//! Deciding which modules are enabled: by the template's own directive, or by
//! a preselection and what the user picks from the modules that are left.

use vstd::prelude::*;
use crate::error::ValidationError;
use crate::error::ValidationErrorView;
use crate::seqs::lemma_first_index;
use crate::template::copy_strings;
use crate::template::find_module;
use crate::template::module_index;
use crate::template::table_ids;
use crate::template::table_view;
use crate::template::texts;
use crate::template::EnableModules;
use crate::template::EnableModulesView;
use crate::template::Module;
use crate::template::ModuleTable;
use crate::template::Template;
use crate::template::TemplateView;
use crate::template::Text;

verus! {

/// The positions, among the first `k` modules, of those that `preselected`
/// does not name, in declared order.
pub open spec fn offered_among(table: ModuleTable, preselected: Seq<Text>, k: nat) -> Seq<int>
    decreases k,
{
    if k == 0 {
        Seq::empty()
    } else {
        let before = offered_among(table, preselected, (k - 1) as nat);
        if preselected.contains(table[k - 1].0) {
            before
        } else {
            before.push(k - 1)
        }
    }
}

/// The positions of the modules that are offered for selection: those that
/// `preselected` does not name, in declared order.
pub open spec fn offered(table: ModuleTable, preselected: Seq<Text>) -> Seq<int> {
    offered_among(table, preselected, table.len())
}

/// The display names of the offered modules, in the order they are offered.
pub open spec fn offered_names(table: ModuleTable, preselected: Seq<Text>) -> Seq<Text> {
    let positions = offered(table, preselected);
    Seq::new(positions.len(), |k: int| table[positions[k]].1.display_name)
}

/// `ids` without repetitions: of each id the first occurrence stays.
pub open spec fn dedup(ids: Seq<Text>) -> Seq<Text>
    decreases ids.len(),
{
    if ids.len() == 0 {
        Seq::empty()
    } else {
        let before = dedup(ids.drop_last());
        if before.contains(ids.last()) {
            before
        } else {
            before.push(ids.last())
        }
    }
}

/// The first of `ids` that names no module of the table.
pub open spec fn first_unknown(table: ModuleTable, ids: Seq<Text>) -> Option<Text>
    decreases ids.len(),
{
    if ids.len() == 0 {
        None
    } else {
        match first_unknown(table, ids.drop_last()) {
            Some(id) => Some(id),
            None => if module_index(table, ids.last()) is None {
                Some(ids.last())
            } else {
                None
            },
        }
    }
}

/// `ids` where each names a module, the first dangling one as a fault otherwise.
pub open spec fn all_known(table: ModuleTable, ids: Seq<Text>) -> Result<Seq<Text>, ValidationErrorView> {
    match first_unknown(table, ids) {
        Some(id) => Err(ValidationErrorView::UnknownModule(id)),
        None => Ok(ids),
    }
}

/// The ids of the modules picked by position among the offered ones.
pub open spec fn picked_ids(table: ModuleTable, preselected: Seq<Text>, picked: Seq<usize>) -> Seq<Text> {
    let positions = offered(table, preselected);
    Seq::new(picked.len(), |k: int| table[positions[picked[k] as int]].0)
}

/// The view of a directive.
pub open spec fn directive_view(directive: Option<EnableModules>) -> Option<EnableModulesView> {
    match directive {
        Some(d) => Some(d@),
        None => None,
    }
}

/// The modules to install. Under the directive `All`, every module in declared
/// order. Under a list, exactly the listed ids in their order. Without a
/// directive, the preselected ids and then the picked ones, each id once;
/// an id that names no module is a fault in both of the latter cases.
pub open spec fn enabled_in(
    directive: Option<EnableModulesView>,
    table: ModuleTable,
    preselected: Seq<Text>,
    picked: Seq<usize>,
) -> Result<Seq<Text>, ValidationErrorView> {
    match directive {
        Some(EnableModulesView::All) => Ok(table_ids(table)),
        Some(EnableModulesView::List(ids)) => all_known(table, ids),
        None => all_known(table, dedup(preselected + picked_ids(table, preselected, picked))),
    }
}

/// The modules to install from a template.
pub open spec fn enabled(template: TemplateView, preselected: Seq<Text>, picked: Seq<usize>) -> Result<
    Seq<Text>,
    ValidationErrorView,
> {
    enabled_in(template.enable_modules, template.modules, preselected, picked)
}

/// Whether every position of `picked` is a position among the offered modules.
pub open spec fn picks_in_range(table: ModuleTable, preselected: Seq<Text>, picked: Seq<usize>) -> bool {
    forall|k: int| 0 <= k < picked.len() ==> picked[k] < offered(table, preselected).len()
}

/// `dedup` keeps every id, each once.
pub proof fn law_dedup(ids: Seq<Text>)
    ensures
        dedup(ids).no_duplicates(),
        forall|id: Text| dedup(ids).contains(id) <==> ids.contains(id),
    decreases ids.len(),
{
    if ids.len() > 0 {
        let front = ids.drop_last();
        law_dedup(front);
        let before = dedup(front);
        assert forall|id: Text| dedup(ids).contains(id) <==> ids.contains(id) by {
            assert(before.contains(id) <==> front.contains(id));
            assert(forall|j: int| 0 <= j < front.len() ==> front[j] == ids[j]);
            assert(forall|j: int| 0 <= j < before.len() ==> dedup(ids)[j] == before[j]);
            if ids.contains(id) {
                let k = choose|k: int| 0 <= k < ids.len() && ids[k] == id;
                if k < front.len() {
                    assert(front[k] == id);
                    assert(front.contains(id));
                }
                if before.contains(id) {
                    let p = choose|p: int| 0 <= p < before.len() && before[p] == id;
                    assert(dedup(ids)[p] == id);
                } else {
                    assert(ids.last() == id);
                    assert(dedup(ids)[before.len() as int] == id);
                }
            }
            if dedup(ids).contains(id) {
                let p = choose|p: int| 0 <= p < dedup(ids).len() && dedup(ids)[p] == id;
                if p < before.len() {
                    assert(before[p] == id);
                    assert(before.contains(id));
                    let k = choose|k: int| 0 <= k < front.len() && front[k] == id;
                    assert(ids[k] == id);
                } else {
                    assert(ids[ids.len() - 1] == id);
                }
            }
        }
    }
}

/// What comes first stays first: the ids of `first`, each once, lead `dedup(first + second)`.
pub proof fn law_dedup_keeps_order(first: Seq<Text>, second: Seq<Text>)
    ensures
        dedup(first).is_prefix_of(dedup(first + second)),
    decreases second.len(),
{
    if second.len() == 0 {
        assert(first + second =~= first);
    } else {
        law_dedup_keeps_order(first, second.drop_last());
        assert((first + second).drop_last() =~= first + second.drop_last());
    }
}

/// What `first_unknown` finds names no module, and nothing before it does so;
/// it finds nothing only where every id names a module.
pub proof fn law_first_unknown(table: ModuleTable, ids: Seq<Text>)
    ensures
        match first_unknown(table, ids) {
            Some(id) => exists|k: int|
                0 <= k < ids.len() && #[trigger] ids[k] == id && module_index(table, id) is None && forall|
                    j: int,
                | 0 <= j < k ==> module_index(table, #[trigger] ids[j]) is Some,
            None => forall|k: int| 0 <= k < ids.len() ==> module_index(table, #[trigger] ids[k]) is Some,
        },
    decreases ids.len(),
{
    if ids.len() > 0 {
        let front = ids.drop_last();
        law_first_unknown(table, front);
        assert(forall|j: int| 0 <= j < front.len() ==> front[j] == ids[j]);
        match first_unknown(table, front) {
            Some(id) => {
                let k = choose|k: int|
                    0 <= k < front.len() && #[trigger] front[k] == id && module_index(table, id) is None
                        && forall|j: int| 0 <= j < k ==> module_index(table, #[trigger] front[j]) is Some;
                assert(ids[k] == id);
            },
            None => {
                if module_index(table, ids.last()) is None {
                    let k = ids.len() - 1;
                    assert(ids[k] == ids.last());
                }
            },
        }
    }
}

/// Under the directive `All` every module is enabled, in declared order.
/// Under a list whose ids all name modules, exactly the list is enabled, in
/// its order; a list with an id that names no module is rejected.
pub proof fn law_enablement(
    directive: EnableModulesView,
    table: ModuleTable,
    preselected: Seq<Text>,
    picked: Seq<usize>,
)
    ensures
        directive is All ==> enabled_in(Some(directive), table, preselected, picked) == Ok::<
            Seq<Text>,
            ValidationErrorView,
        >(table_ids(table)),
        directive matches EnableModulesView::List(ids) ==> {
            let all = forall|k: int| 0 <= k < ids.len() ==> module_index(table, #[trigger] ids[k]) is Some;
            &&& all ==> enabled_in(Some(directive), table, preselected, picked) == Ok::<
                Seq<Text>,
                ValidationErrorView,
            >(ids)
            &&& !all ==> (enabled_in(Some(directive), table, preselected, picked) matches Err(
                ValidationErrorView::UnknownModule(id),
            ) && ids.contains(id) && module_index(table, id) is None)
        },
{
    match directive {
        EnableModulesView::All => {},
        EnableModulesView::List(ids) => {
            law_first_unknown(table, ids);
        },
    }
}

/// Whether `list` holds `id`.
pub fn contains_id(list: &Vec<String>, id: &String) -> (b: bool)
    ensures
        b == texts(list@).contains(id@),
{
    let mut i: usize = 0;
    while i < list.len()
        invariant
            i <= list.len(),
            forall|j: int| 0 <= j < i ==> texts(list@)[j] != id@,
        decreases list.len() - i,
    {
        if list[i] == *id {
            assert(texts(list@)[i as int] == id@);
            return true;
        }
        i += 1;
    }
    false
}

/// Drops the repetitions from `ids`.
pub fn dedup_ids(ids: &Vec<String>) -> (r: Vec<String>)
    ensures
        texts(r@) == dedup(texts(ids@)),
{
    let mut out: Vec<String> = Vec::new();
    let mut i: usize = 0;
    assert(texts(ids@).take(0) =~= Seq::<Text>::empty());
    assert(texts(out@) =~= Seq::<Text>::empty());
    while i < ids.len()
        invariant
            i <= ids.len(),
            texts(out@) == dedup(texts(ids@).take(i as int)),
        decreases ids.len() - i,
    {
        let ghost before = texts(out@);
        let ghost next = texts(ids@).take(i as int + 1);
        assert(next.drop_last() =~= texts(ids@).take(i as int));
        assert(next.last() == ids[i as int]@);
        if !contains_id(&out, &ids[i]) {
            out.push(ids[i].clone());
            assert(texts(out@) =~= before.push(ids[i as int]@));
        }
        i += 1;
    }
    assert(texts(ids@).take(ids.len() as int) =~= texts(ids@));
    out
}

/// A fault among the first `k` ids is the fault of the whole list.
proof fn lemma_first_unknown_found(table: ModuleTable, ids: Seq<Text>, k: int)
    requires
        0 <= k <= ids.len(),
        first_unknown(table, ids.take(k)) is Some,
    ensures
        first_unknown(table, ids) == first_unknown(table, ids.take(k)),
    decreases ids.len() - k,
{
    if k == ids.len() {
        assert(ids.take(k) =~= ids);
    } else {
        assert(ids.take(k + 1).drop_last() =~= ids.take(k));
        lemma_first_unknown_found(table, ids, k + 1);
    }
}

/// Checks that every id names a module.
pub fn check_known(modules: &Vec<(String, Module)>, ids: &Vec<String>) -> (r: Result<(), ValidationError>)
    ensures
        match r {
            Ok(()) => first_unknown(table_view(modules@), texts(ids@)) is None,
            Err(e) => first_unknown(table_view(modules@), texts(ids@)) matches Some(id) && e@
                == ValidationErrorView::UnknownModule(id),
        },
{
    let ghost table = table_view(modules@);
    let mut i: usize = 0;
    assert(texts(ids@).take(0) =~= Seq::<Text>::empty());
    while i < ids.len()
        invariant
            i <= ids.len(),
            table == table_view(modules@),
            first_unknown(table, texts(ids@).take(i as int)) is None,
        decreases ids.len() - i,
    {
        let ghost next = texts(ids@).take(i as int + 1);
        assert(next.drop_last() =~= texts(ids@).take(i as int));
        assert(next.last() == ids[i as int]@);
        if find_module(modules, &ids[i]).is_none() {
            proof {
                lemma_first_unknown_found(table, texts(ids@), i as int + 1);
            }
            return Err(ValidationError::UnknownModule(ids[i].clone()));
        }
        i += 1;
    }
    assert(texts(ids@).take(ids.len() as int) =~= texts(ids@));
    Ok(())
}

/// The positions of the modules of `modules` that `preselected` does not name.
pub fn offered_positions(modules: &Vec<(String, Module)>, preselected: &Vec<String>) -> (r: Vec<usize>)
    ensures
        r@.len() == offered(table_view(modules@), texts(preselected@)).len(),
        forall|k: int|
            0 <= k < r.len() ==> r[k] as int == offered(table_view(modules@), texts(preselected@))[k],
        forall|k: int| 0 <= k < r.len() ==> r[k] < modules.len(),
{
    let ghost table = table_view(modules@);
    let ghost pre = texts(preselected@);
    let mut out: Vec<usize> = Vec::new();
    let mut i: usize = 0;
    while i < modules.len()
        invariant
            i <= modules.len(),
            table == table_view(modules@),
            pre == texts(preselected@),
            out@.len() == offered_among(table, pre, i as nat).len(),
            forall|k: int| 0 <= k < out.len() ==> out[k] as int == offered_among(table, pre, i as nat)[k],
            forall|k: int| 0 <= k < out.len() ==> out[k] < i,
        decreases modules.len() - i,
    {
        assert(table[i as int].0 == modules[i as int].0@);
        if !contains_id(preselected, &modules[i].0) {
            out.push(i);
        }
        i += 1;
    }
    out
}

/// The ids of the modules to install from `modules` under `directive`, in
/// installation order.
pub fn enabled_ids(
    directive: &Option<EnableModules>,
    modules: &Vec<(String, Module)>,
    preselected: &Vec<String>,
    picked: &Vec<usize>,
) -> (r: Result<Vec<String>, ValidationError>)
    requires
        directive is None ==> picks_in_range(table_view(modules@), texts(preselected@), picked@),
    ensures
        match r {
            Ok(ids) => enabled_in(directive_view(*directive), table_view(modules@), texts(preselected@), picked@)
                == Ok::<Seq<Text>, ValidationErrorView>(texts(ids@)),
            Err(e) => enabled_in(directive_view(*directive), table_view(modules@), texts(preselected@), picked@)
                == Err::<Seq<Text>, ValidationErrorView>(e@),
        },
{
    let ghost table = table_view(modules@);
    match directive {
        Some(EnableModules::All) => {
            let mut ids: Vec<String> = Vec::new();
            let mut i: usize = 0;
            while i < modules.len()
                invariant
                    i <= modules.len(),
                    ids.len() == i,
                    forall|j: int| 0 <= j < i ==> ids[j]@ == modules[j].0@,
                decreases modules.len() - i,
            {
                ids.push(modules[i].0.clone());
                i += 1;
            }
            assert(texts(ids@) =~= table_ids(table));
            Ok(ids)
        },
        Some(EnableModules::List(listed)) => {
            match check_known(modules, listed) {
                Err(e) => Err(e),
                Ok(()) => Ok(copy_strings(listed)),
            }
        },
        None => {
            let positions = offered_positions(modules, preselected);
            let mut all = copy_strings(preselected);
            let ghost pre = texts(preselected@);
            let mut k: usize = 0;
            assert(texts(all@) =~= pre + picked_ids(table, pre, picked@).take(0));
            while k < picked.len()
                invariant
                    k <= picked.len(),
                    table == table_view(modules@),
                    pre == texts(preselected@),
                    picks_in_range(table, pre, picked@),
                    positions@.len() == offered(table, pre).len(),
                    forall|j: int| 0 <= j < positions.len() ==> positions[j] as int == offered(table, pre)[j],
                    forall|j: int| 0 <= j < positions.len() ==> positions[j] < modules.len(),
                    texts(all@) == pre + picked_ids(table, pre, picked@).take(k as int),
                decreases picked.len() - k,
            {
                let ghost before = texts(all@);
                let p = positions[picked[k]];
                assert(table[p as int].0 == modules[p as int].0@);
                all.push(modules[p].0.clone());
                assert(texts(all@) =~= before.push(picked_ids(table, pre, picked@)[k as int]));
                assert(texts(all@) =~= pre + picked_ids(table, pre, picked@).take(k as int + 1));
                k += 1;
            }
            assert(picked_ids(table, pre, picked@).take(picked.len() as int) =~= picked_ids(
                table,
                pre,
                picked@,
            ));
            let ids = dedup_ids(&all);
            match check_known(modules, &ids) {
                Err(e) => Err(e),
                Ok(()) => Ok(ids),
            }
        },
    }
}

impl Template {
    /// The positions of the modules offered for selection: those that
    /// `preselected` does not name, in declared order.
    pub fn offered_modules(&self, preselected: &Vec<String>) -> (r: Vec<usize>)
        ensures
            r@.len() == offered(self@.modules, texts(preselected@)).len(),
            forall|k: int| 0 <= k < r.len() ==> r[k] as int == offered(self@.modules, texts(preselected@))[k],
            forall|k: int| 0 <= k < r.len() ==> r[k] < self.modules.len(),
    {
        offered_positions(&self.modules, preselected)
    }

    /// The display names of the offered modules, in the order they are offered.
    pub fn offered_names(&self, preselected: &Vec<String>) -> (r: Vec<String>)
        ensures
            texts(r@) == offered_names(self@.modules, texts(preselected@)),
    {
        let positions = self.offered_modules(preselected);
        let mut names: Vec<String> = Vec::new();
        let mut k: usize = 0;
        while k < positions.len()
            invariant
                k <= positions.len(),
                names.len() == k,
                positions@.len() == offered(self@.modules, texts(preselected@)).len(),
                forall|j: int|
                    0 <= j < positions.len() ==> positions[j] as int == offered(
                        self@.modules,
                        texts(preselected@),
                    )[j],
                forall|j: int| 0 <= j < positions.len() ==> positions[j] < self.modules.len(),
                forall|j: int|
                    0 <= j < k ==> names[j]@ == self@.modules[positions[j] as int].1.display_name,
            decreases positions.len() - k,
        {
            let p = positions[k];
            assert(self@.modules[p as int].1 == self.modules[p as int].1@);
            names.push(self.modules[p].1.display_name.clone());
            k += 1;
        }
        assert(texts(names@) =~= offered_names(self@.modules, texts(preselected@)));
        names
    }

    /// The ids of the modules to install, in installation order. `picked` holds
    /// positions among the offered modules and counts only where the template
    /// has no directive of its own.
    pub fn enabled_modules(&self, preselected: &Vec<String>, picked: &Vec<usize>) -> (r: Result<
        Vec<String>,
        ValidationError,
    >)
        requires
            self@.enable_modules is None ==> picks_in_range(self@.modules, texts(preselected@), picked@),
        ensures
            match r {
                Ok(ids) => enabled(self@, texts(preselected@), picked@) == Ok::<
                    Seq<Text>,
                    ValidationErrorView,
                >(texts(ids@)),
                Err(e) => enabled(self@, texts(preselected@), picked@) == Err::<
                    Seq<Text>,
                    ValidationErrorView,
                >(e@),
            },
    {
        enabled_ids(&self.enable_modules, &self.modules, preselected, picked)
    }
}

} // verus!
