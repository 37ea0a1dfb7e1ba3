//! Assigning a VMID to each selected template: its base VMID when that is free
//! in the whole cluster; else replace a local copy already in the template's
//! series; else take the next VMID of the series that is free in the cluster.
//!
//! What is installed where depends on the cluster, on the operator's answers
//! and on whether old VMs could be destroyed. [`TemplatePreparation`] holds
//! every decision; whoever drives it answers its [`PrepareQuery`]s one by one.
use vstd::prelude::*;
use crate::catalog::{Template, TemplateView};
use crate::text::lemma_deep_push;
use crate::options::RunOptions;
use crate::vmid::{
    cluster_probe, contains_vmid, find_local_series_vmid, in_base_series, is_managed,
    lemma_cluster_probe_in_series, lemma_local_probe_in_series, local_probe, next_cluster_vmid,
    other_base, seq_has, series_limit, vmid_series_limit, lemma_local_probe_skips,
    lemma_cluster_probe_skips, law_cluster_probe_none, law_local_probe_none,
};

verus! {

/// What the preparation needs to know, or does next.
#[derive(Clone, Copy, PartialEq, Eq, Structural, Debug)]
pub enum PrepareQuery {
    /// Is this VMID in use anywhere in the cluster?
    IsUsed(i32),
    /// Does this VMID live on this node?
    IsLocal(i32),
    /// May the local copy with VMID `vmid` of template `index` be replaced?
    ConfirmReplace { index: usize, vmid: i32 },
    /// Destroy the VM with this VMID; answer whether that succeeded.
    Destroy(i32),
    /// Every template has been handled.
    Finished,
}

/// Something to report to the operator.
#[derive(Clone, Copy, PartialEq, Eq, Structural, Debug)]
pub enum PrepareNotice {
    /// Template `index` is skipped: its VMID is not a managed template ID.
    NotManaged { index: usize },
    /// Template `index` is skipped: its local copy `vmid` could not be removed.
    DestroyFailed { index: usize, vmid: i32 },
    /// Template `index` is installed as `vmid`: its base VMID is used in the cluster.
    Relocated { index: usize, vmid: i32 },
    /// Template `index` is skipped: no free VMID is left below `limit` in its series.
    NoFreeVmid { index: usize, limit: i32 },
}

/// Which answer the preparation waits for.
#[derive(Clone, Copy, PartialEq, Eq, Structural, Debug)]
pub enum PrepareStage {
    /// Whether the template's base VMID, not given out in this run, is in use
    /// in the cluster.
    BaseUsed(i32),
    /// Whether this VMID of the series is in use (looking for a local copy).
    LocalUsed(i32),
    /// Whether this used VMID of the series lives on this node.
    LocalOwned(i32),
    /// Whether the local copy with this VMID may be replaced.
    AwaitConfirm(i32),
    /// Whether destroying the local copy with this VMID succeeded.
    AwaitDestroy(i32),
    /// Whether this VMID is in use in the cluster (looking for a free one).
    ClusterUsed(i32),
    /// Nothing: every template has been handled.
    Finished,
}

/// The state of a preparation, as a mathematical value.
pub struct PreparationView {
    pub templates: Seq<TemplateView>,
    pub allowed: Seq<i32>,
    pub assume_yes: bool,
    pub non_interactive: bool,
    /// The template being handled; those before it are done.
    pub index: int,
    /// The templates to install, with the VMIDs they were given.
    pub prepared: Seq<TemplateView>,
    /// The VMIDs given out in this run.
    pub reserved: Seq<i32>,
    /// For each prepared template, the position among `templates` of the
    /// template it was made from.
    pub origins: Seq<int>,
    pub stage: PrepareStage,
}

/// The state after a transition, the query it asks and what it reports.
pub type PrepareOutcome = (PreparationView, PrepareQuery, Seq<PrepareNotice>);

/// The base VMID of the template being handled.
pub open spec fn current_base(s: PreparationView) -> int {
    s.templates[s.index].vmid as int
}

pub open spec fn with_stage(s: PreparationView, stage: PrepareStage) -> PreparationView {
    PreparationView { stage: stage, ..s }
}

/// The current template is left out; the next one is handled.
pub open spec fn skip_current(s: PreparationView) -> PreparationView {
    PreparationView { index: s.index + 1, ..s }
}

/// The current template is installed as `vmid`; the next one is handled.
pub open spec fn accept_current(s: PreparationView, vmid: i32) -> PreparationView {
    PreparationView {
        index: s.index + 1,
        prepared: s.prepared.push(s.templates[s.index].with_vmid(vmid)),
        reserved: s.reserved.push(vmid),
        origins: s.origins.push(s.index),
        ..s
    }
}

pub open spec fn finish(s: PreparationView, notes: Seq<PrepareNotice>) -> PrepareOutcome {
    (with_stage(s, PrepareStage::Finished), PrepareQuery::Finished, notes)
}

/// Handle the templates from the current one on, up to the first question:
/// skip unmanaged templates, then ask whether the base VMID is in use (unless
/// it was given out in this run, then look for a local copy at once).
pub open spec fn advance(s: PreparationView, notes: Seq<PrepareNotice>) -> PrepareOutcome
    decreases s.templates.len() - s.index, 2int, 0int,
{
    if !(0 <= s.index < s.templates.len()) {
        finish(s, notes)
    } else if !seq_has(s.allowed, current_base(s)) {
        advance(skip_current(s), notes.push(PrepareNotice::NotManaged { index: s.index as usize }))
    } else if !seq_has(s.reserved, current_base(s)) {
        (
            with_stage(s, PrepareStage::BaseUsed(current_base(s) as i32)),
            PrepareQuery::IsUsed(current_base(s) as i32),
            notes,
        )
    } else {
        local_scan(s, current_base(s), notes)
    }
}

/// Look for a local copy of the current template from VMID `c` of its series on.
pub open spec fn local_scan(s: PreparationView, c: int, notes: Seq<PrepareNotice>) -> PrepareOutcome
    decreases s.templates.len() - s.index, 1int, 1int,
{
    match local_probe(current_base(s), s.reserved, c) {
        Some(v) => (
            with_stage(s, PrepareStage::LocalUsed(v as i32)),
            PrepareQuery::IsUsed(v as i32),
            notes,
        ),
        None => cluster_scan(s, current_base(s), notes),
    }
}

/// Look for a VMID that is free in the cluster from VMID `c` of the series on.
pub open spec fn cluster_scan(s: PreparationView, c: int, notes: Seq<PrepareNotice>) -> PrepareOutcome
    decreases s.templates.len() - s.index, 1int, 0int,
{
    if !(0 <= s.index < s.templates.len()) {
        finish(s, notes)
    } else {
        match cluster_probe(current_base(s), s.allowed, s.reserved, c) {
            Some(v) => (
                with_stage(s, PrepareStage::ClusterUsed(v as i32)),
                PrepareQuery::IsUsed(v as i32),
                notes,
            ),
            None => advance(
                skip_current(s),
                notes.push(
                    PrepareNotice::NoFreeVmid {
                        index: s.index as usize,
                        limit: series_limit(current_base(s)) as i32,
                    },
                ),
            ),
        }
    }
}

/// A local copy `vmid` of the current template was found: replace it without
/// asking under `--yes`, keep it under `--non-interactive`, else ask.
pub open spec fn found_local(s: PreparationView, vmid: i32) -> PrepareOutcome {
    if s.assume_yes {
        (with_stage(s, PrepareStage::AwaitDestroy(vmid)), PrepareQuery::Destroy(vmid), Seq::empty())
    } else if s.non_interactive {
        cluster_scan(s, current_base(s), Seq::empty())
    } else {
        (
            with_stage(s, PrepareStage::AwaitConfirm(vmid)),
            PrepareQuery::ConfirmReplace { index: s.index as usize, vmid: vmid },
            Seq::empty(),
        )
    }
}

/// The transition made on the answer `yes` to the pending question.
pub open spec fn answer(s: PreparationView, yes: bool) -> PrepareOutcome {
    match s.stage {
        PrepareStage::BaseUsed(c) => if yes {
            (with_stage(s, PrepareStage::LocalOwned(c)), PrepareQuery::IsLocal(c), Seq::empty())
        } else {
            advance(accept_current(s, c), Seq::empty())
        },
        PrepareStage::LocalUsed(c) => if yes {
            (with_stage(s, PrepareStage::LocalOwned(c)), PrepareQuery::IsLocal(c), Seq::empty())
        } else {
            local_scan(s, c + 100, Seq::empty())
        },
        PrepareStage::LocalOwned(c) => if yes {
            found_local(s, c)
        } else {
            local_scan(s, c + 100, Seq::empty())
        },
        PrepareStage::AwaitConfirm(c) => if yes {
            (with_stage(s, PrepareStage::AwaitDestroy(c)), PrepareQuery::Destroy(c), Seq::empty())
        } else {
            cluster_scan(s, current_base(s), Seq::empty())
        },
        PrepareStage::AwaitDestroy(c) => if yes {
            advance(accept_current(s, c), Seq::empty())
        } else {
            advance(
                skip_current(s),
                seq![PrepareNotice::DestroyFailed { index: s.index as usize, vmid: c }],
            )
        },
        PrepareStage::ClusterUsed(c) => if yes {
            cluster_scan(s, c + 100, Seq::empty())
        } else {
            advance(
                accept_current(s, c),
                if c as int != current_base(s) {
                    seq![PrepareNotice::Relocated { index: s.index as usize, vmid: c }]
                } else {
                    Seq::empty()
                },
            )
        },
        PrepareStage::Finished => (s, PrepareQuery::Finished, Seq::empty()),
    }
}

/// Every template whose base VMID is managed has a series that ends within `i32`.
pub open spec fn limits_fit(templates: Seq<TemplateView>, allowed: Seq<i32>) -> bool {
    forall|j: int|
        0 <= j < templates.len() && seq_has(allowed, #[trigger] templates[j].vmid as int)
            ==> series_limit(templates[j].vmid as int) <= i32::MAX
}

/// `t` is one of the first `bound` templates, installed under a VMID of the
/// series of its managed base VMID.
pub open spec fn has_origin(
    templates: Seq<TemplateView>,
    allowed: Seq<i32>,
    bound: int,
    t: TemplateView,
) -> bool {
    exists|j: int|
        0 <= j < bound && #[trigger] templates[j].with_vmid(t.vmid) == t && seq_has(
            allowed,
            templates[j].vmid as int,
        ) && in_base_series(t.vmid as int, templates[j].vmid as int)
}

/// The VMID `c` is one the current template may still take.
pub open spec fn candidate_ok(s: PreparationView, c: i32) -> bool {
    &&& 0 <= s.index < s.templates.len()
    &&& seq_has(s.allowed, current_base(s))
    &&& in_base_series(c as int, current_base(s))
    &&& !seq_has(s.reserved, c as int)
}

/// What holds of every state of a preparation.
pub open spec fn consistent(s: PreparationView) -> bool {
    &&& between(s)
    &&& match s.stage {
        PrepareStage::Finished => s.index == s.templates.len(),
        PrepareStage::BaseUsed(c) => candidate_ok(s, c) && c as int == current_base(s),
        PrepareStage::LocalUsed(c) => candidate_ok(s, c),
        PrepareStage::LocalOwned(c) => candidate_ok(s, c),
        PrepareStage::AwaitConfirm(c) => candidate_ok(s, c) && !s.assume_yes && !s.non_interactive,
        PrepareStage::AwaitDestroy(c) => candidate_ok(s, c) && (s.assume_yes || !s.non_interactive),
        PrepareStage::ClusterUsed(c) => candidate_ok(s, c) && !other_base(s.allowed, current_base(s), c as int),
    }
}

/// The prepared templates come from the handled ones, at most one each and in
/// their order: `origins` rises strictly, and the `i`-th prepared template is
/// the template at `origins[i]`, unchanged but for a VMID of the series of its
/// managed base VMID.
pub open spec fn origins_ordered(s: PreparationView) -> bool {
    &&& s.origins.len() == s.prepared.len()
    &&& forall|i: int, j: int| 0 <= i < j < s.origins.len() ==> s.origins[i] < s.origins[j]
    &&& forall|i: int|
        0 <= i < s.origins.len() ==> 0 <= #[trigger] s.origins[i] < s.index && s.templates[s.origins[i]].with_vmid(
            s.prepared[i].vmid,
        ) == s.prepared[i] && seq_has(s.allowed, s.templates[s.origins[i]].vmid as int) && in_base_series(
            s.prepared[i].vmid as int,
            s.templates[s.origins[i]].vmid as int,
        )
}

/// The state before any template is handled.
pub open spec fn initial(
    templates: Seq<TemplateView>,
    allowed: Seq<i32>,
    assume_yes: bool,
    non_interactive: bool,
) -> PreparationView {
    PreparationView {
        templates: templates,
        allowed: allowed,
        assume_yes: assume_yes,
        non_interactive: non_interactive,
        index: 0,
        prepared: Seq::empty(),
        reserved: Seq::empty(),
        origins: Seq::empty(),
        stage: PrepareStage::Finished,
    }
}

/// The bookkeeping of a preparation, which holds at every stage.
pub open spec fn between(s: PreparationView) -> bool {
    &&& 0 <= s.index <= s.templates.len()
    &&& limits_fit(s.templates, s.allowed)
    &&& s.reserved == s.prepared.map_values(|t: TemplateView| t.vmid)
    &&& s.reserved.no_duplicates()
    &&& forall|i: int|
        0 <= i < s.prepared.len() ==> has_origin(s.templates, s.allowed, s.index, #[trigger] s.prepared[i])
    &&& origins_ordered(s)
}


/// Taking an available candidate keeps the bookkeeping of a preparation.
proof fn lemma_accept(s: PreparationView, c: i32)
    requires
        between(s),
        candidate_ok(s, c),
    ensures
        between(accept_current(s, c)),
{
    let n = accept_current(s, c);
    let t = s.templates[s.index].with_vmid(c);
    assert(n.reserved =~= n.prepared.map_values(|t: TemplateView| t.vmid));
    assert forall|i: int, j: int|
        0 <= i < n.reserved.len() && 0 <= j < n.reserved.len() && i != j implies n.reserved[i]
        != n.reserved[j] by {
        if i == s.reserved.len() {
            assert(s.reserved[j] as int == c as int ==> seq_has(s.reserved, c as int));
        } else if j == s.reserved.len() {
            assert(s.reserved[i] as int == c as int ==> seq_has(s.reserved, c as int));
        }
    }
    assert forall|i: int| 0 <= i < n.prepared.len() implies has_origin(
        n.templates,
        n.allowed,
        n.index,
        #[trigger] n.prepared[i],
    ) by {
        if i < s.prepared.len() {
            assert(n.prepared[i] == s.prepared[i]);
            assert(has_origin(s.templates, s.allowed, s.index, s.prepared[i]));
            let j = choose|j: int|
                0 <= j < s.index && #[trigger] s.templates[j].with_vmid(s.prepared[i].vmid)
                    == s.prepared[i] && seq_has(s.allowed, s.templates[j].vmid as int)
                    && in_base_series(s.prepared[i].vmid as int, s.templates[j].vmid as int);
            assert(0 <= j < n.index);
        } else {
            assert(n.prepared[i] == t);
            assert(s.templates[s.index].with_vmid(t.vmid) == t);
        }
    }
}

/// The stage asks whether `v` is in use.
pub open spec fn asks_about(stage: PrepareStage, v: i32) -> bool {
    stage == PrepareStage::BaseUsed(v) || stage == PrepareStage::LocalUsed(v) || stage
        == PrepareStage::ClusterUsed(v)
}

/// Handling templates up to the next question keeps the bookkeeping, and the
/// question is whether some VMID is in use, unless every template is done.
proof fn lemma_advance(s: PreparationView, notes: Seq<PrepareNotice>)
    requires
        between(s),
    ensures
        consistent(advance(s, notes).0),
        advance(s, notes).1 is IsUsed || advance(s, notes).1 is Finished,
        advance(s, notes).1 matches PrepareQuery::IsUsed(v) ==> asks_about(advance(s, notes).0.stage, v),
        advance(s, notes).1 is Finished ==> advance(s, notes).0.stage is Finished,
        advance(s, notes).0.templates == s.templates,
        advance(s, notes).0.allowed == s.allowed,
        advance(s, notes).0.assume_yes == s.assume_yes,
        advance(s, notes).0.non_interactive == s.non_interactive,
        advance(s, notes).0.index >= s.index,
        advance(s, notes).0.prepared == s.prepared,
        advance(s, notes).0.origins == s.origins,
        advance(s, notes).0.reserved == s.reserved,
    decreases s.templates.len() - s.index, 2int, 0int,
{
    if !(0 <= s.index < s.templates.len()) {
    } else if !seq_has(s.allowed, current_base(s)) {
        lemma_advance(
            skip_current(s),
            notes.push(PrepareNotice::NotManaged { index: s.index as usize }),
        );
    } else {
        lemma_local_scan(s, current_base(s), notes);
    }
}

proof fn lemma_local_scan(s: PreparationView, c: int, notes: Seq<PrepareNotice>)
    requires
        between(s),
        0 <= s.index < s.templates.len(),
        seq_has(s.allowed, current_base(s)),
        current_base(s) <= c,
        (c - current_base(s)) % 100 == 0,
    ensures
        consistent(local_scan(s, c, notes).0),
        local_scan(s, c, notes).1 is IsUsed || local_scan(s, c, notes).1 is Finished,
        local_scan(s, c, notes).1 matches PrepareQuery::IsUsed(v) ==> asks_about(local_scan(s, c, notes).0.stage, v),
        local_scan(s, c, notes).1 is Finished ==> local_scan(s, c, notes).0.stage is Finished,
        local_scan(s, c, notes).0.templates == s.templates,
        local_scan(s, c, notes).0.allowed == s.allowed,
        local_scan(s, c, notes).0.assume_yes == s.assume_yes,
        local_scan(s, c, notes).0.non_interactive == s.non_interactive,
        local_scan(s, c, notes).0.index >= s.index,
        local_scan(s, c, notes).0.prepared == s.prepared,
        local_scan(s, c, notes).0.origins == s.origins,
        local_scan(s, c, notes).0.reserved == s.reserved,
        local_scan(s, c, notes).0.index == s.index ==> (local_scan(s, c, notes).0.stage matches PrepareStage::LocalUsed(v)
            && v >= c) || local_scan(s, c, notes).0.stage is ClusterUsed,
    decreases s.templates.len() - s.index, 1int, 1int,
{
    lemma_local_probe_in_series(current_base(s), s.reserved, c);
    let base = current_base(s);
    assert(series_limit(base) <= i32::MAX);
    match local_probe(base, s.reserved, c) {
        Some(v) => {
            assert(v as i32 as int == v);
        },
        None => {
            lemma_cluster_scan(s, base, notes);
        },
    }
}

proof fn lemma_cluster_scan(s: PreparationView, c: int, notes: Seq<PrepareNotice>)
    requires
        between(s),
        0 <= s.index < s.templates.len() ==> seq_has(s.allowed, current_base(s))
            && current_base(s) <= c && (c - current_base(s)) % 100 == 0,
    ensures
        consistent(cluster_scan(s, c, notes).0),
        cluster_scan(s, c, notes).1 is IsUsed || cluster_scan(s, c, notes).1 is Finished,
        cluster_scan(s, c, notes).1 matches PrepareQuery::IsUsed(v) ==> asks_about(cluster_scan(s, c, notes).0.stage, v),
        cluster_scan(s, c, notes).1 is Finished ==> cluster_scan(s, c, notes).0.stage is Finished,
        cluster_scan(s, c, notes).0.templates == s.templates,
        cluster_scan(s, c, notes).0.allowed == s.allowed,
        cluster_scan(s, c, notes).0.assume_yes == s.assume_yes,
        cluster_scan(s, c, notes).0.non_interactive == s.non_interactive,
        cluster_scan(s, c, notes).0.index >= s.index,
        cluster_scan(s, c, notes).0.prepared == s.prepared,
        cluster_scan(s, c, notes).0.origins == s.origins,
        cluster_scan(s, c, notes).0.reserved == s.reserved,
        cluster_scan(s, c, notes).0.index == s.index && 0 <= s.index < s.templates.len() ==> (cluster_scan(
            s,
            c,
            notes,
        ).0.stage matches PrepareStage::ClusterUsed(v) && v >= c),
    decreases s.templates.len() - s.index, 1int, 0int,
{
    if 0 <= s.index < s.templates.len() {
        let base = current_base(s);
        lemma_cluster_probe_in_series(base, s.allowed, s.reserved, c);
        assert(series_limit(base) <= i32::MAX);
        match cluster_probe(base, s.allowed, s.reserved, c) {
            Some(v) => {
                assert(v as i32 as int == v);
            },
            None => {
                lemma_advance(
                    skip_current(s),
                    notes.push(
                        PrepareNotice::NoFreeVmid {
                            index: s.index as usize,
                            limit: series_limit(base) as i32,
                        },
                    ),
                );
            },
        }
    }
}


proof fn lemma_between(s: PreparationView)
    requires
        consistent(s),
    ensures
        between(s),
{
}

/// Law: the preparation starts in a consistent state, whose only possible
/// question is whether a VMID is in use.
pub proof fn law_start_consistent(
    templates: Seq<TemplateView>,
    allowed: Seq<i32>,
    assume_yes: bool,
    non_interactive: bool,
)
    requires
        limits_fit(templates, allowed),
    ensures
        consistent(advance(initial(templates, allowed, assume_yes, non_interactive), Seq::empty()).0),
        advance(initial(templates, allowed, assume_yes, non_interactive), Seq::empty()).1 is IsUsed
            || advance(initial(templates, allowed, assume_yes, non_interactive), Seq::empty()).1 is Finished,
{
    let s = initial(templates, allowed, assume_yes, non_interactive);
    assert(s.reserved =~= s.prepared.map_values(|t: TemplateView| t.vmid));
    lemma_advance(s, Seq::empty());
}

/// Law: every answer keeps a preparation consistent, with the same templates,
/// managed VMIDs and options; a replacement is only ever asked about when
/// neither `--yes` nor `--non-interactive` was given; and only a VMID of a
/// managed series that is not given out in this run is ever destroyed.
pub proof fn law_answer_keeps_consistency(s: PreparationView, yes: bool)
    requires
        consistent(s),
    ensures
        consistent(answer(s, yes).0),
        answer(s, yes).0.templates == s.templates,
        answer(s, yes).0.allowed == s.allowed,
        answer(s, yes).0.assume_yes == s.assume_yes,
        answer(s, yes).0.non_interactive == s.non_interactive,
        answer(s, yes).1 is ConfirmReplace ==> !s.assume_yes && !s.non_interactive,
        answer(s, yes).1 matches PrepareQuery::Destroy(c) ==> is_managed(c as int, s.allowed)
            && !seq_has(answer(s, yes).0.reserved, c as int),
        answer(s, yes).1 is Finished ==> answer(s, yes).0.index == s.templates.len(),
{
    lemma_between(s);
    match s.stage {
        PrepareStage::BaseUsed(c) => {
            if !yes {
                lemma_accept(s, c);
                lemma_advance(accept_current(s, c), Seq::empty());
            }
        },
        PrepareStage::LocalUsed(c) => {
            if !yes {
                lemma_local_scan(s, c + 100, Seq::empty());
            }
        },
        PrepareStage::LocalOwned(c) => {
            if yes {
                if !s.assume_yes && s.non_interactive {
                    lemma_cluster_scan(s, current_base(s), Seq::empty());
                }
                if s.assume_yes {
                    lemma_managed(s.allowed, s.index, s.templates, c);
                }
            } else {
                lemma_local_scan(s, c + 100, Seq::empty());
            }
        },
        PrepareStage::AwaitConfirm(c) => {
            if yes {
                lemma_managed(s.allowed, s.index, s.templates, c);
            } else {
                lemma_cluster_scan(s, current_base(s), Seq::empty());
            }
        },
        PrepareStage::AwaitDestroy(c) => {
            if yes {
                lemma_accept(s, c);
                lemma_advance(accept_current(s, c), Seq::empty());
            } else {
                lemma_advance(
                    skip_current(s),
                    seq![PrepareNotice::DestroyFailed { index: s.index as usize, vmid: c }],
                );
            }
        },
        PrepareStage::ClusterUsed(c) => {
            if yes {
                lemma_cluster_scan(s, c + 100, Seq::empty());
            } else {
                lemma_accept(s, c);
                let notes = if c as int != current_base(s) {
                    seq![PrepareNotice::Relocated { index: s.index as usize, vmid: c }]
                } else {
                    Seq::<PrepareNotice>::empty()
                };
                lemma_advance(accept_current(s, c), notes);
            }
        },
        PrepareStage::Finished => {},
    }
}

proof fn lemma_managed(allowed: Seq<i32>, index: int, templates: Seq<TemplateView>, c: i32)
    requires
        0 <= index < templates.len(),
        seq_has(allowed, templates[index].vmid as int),
        in_base_series(c as int, templates[index].vmid as int),
    ensures
        is_managed(c as int, allowed),
{
    let i = choose|i: int| 0 <= i < allowed.len() && #[trigger] allowed[i] as int == templates[index].vmid as int;
    assert(in_base_series(c as int, allowed[i] as int));
}

/// Law: in a consistent state, the VMIDs given out so far are pairwise
/// distinct, and each prepared template is one of the templates handled so
/// far, unchanged but for a VMID taken from the series of its managed base VMID.
pub proof fn law_prepared_vmids(s: PreparationView)
    requires
        consistent(s),
    ensures
        forall|i: int, j: int|
            0 <= i < s.prepared.len() && 0 <= j < s.prepared.len() && i != j ==> #[trigger] s.prepared[i].vmid
                != #[trigger] s.prepared[j].vmid,
        forall|i: int|
            0 <= i < s.prepared.len() ==> #[trigger] is_managed(s.prepared[i].vmid as int, s.allowed),
        forall|i: int|
            0 <= i < s.prepared.len() ==> has_origin(s.templates, s.allowed, s.index, #[trigger] s.prepared[i]),
{
    assert forall|i: int, j: int|
        0 <= i < s.prepared.len() && 0 <= j < s.prepared.len() && i != j implies #[trigger] s.prepared[i].vmid
        != #[trigger] s.prepared[j].vmid by {
        assert(s.reserved[i] == s.prepared[i].vmid);
        assert(s.reserved[j] == s.prepared[j].vmid);
    }
    assert forall|i: int| 0 <= i < s.prepared.len() implies #[trigger] is_managed(
        s.prepared[i].vmid as int,
        s.allowed,
    ) by {
        assert(has_origin(s.templates, s.allowed, s.index, s.prepared[i]));
        let j = choose|j: int|
            0 <= j < s.index && #[trigger] s.templates[j].with_vmid(s.prepared[i].vmid) == s.prepared[i]
                && seq_has(s.allowed, s.templates[j].vmid as int) && in_base_series(
                s.prepared[i].vmid as int,
                s.templates[j].vmid as int,
            );
        lemma_managed(s.allowed, j, s.templates, s.prepared[i].vmid);
    }
}


/// Where a preparation resumes: handling the current template from its start
/// (`0`), looking for a local copy from VMID `c` on (`1`), or looking for a
/// free VMID from `c` on (`2`).
pub open spec fn resume(phase: u8, s: PreparationView, c: int, notes: Seq<PrepareNotice>) -> PrepareOutcome {
    if phase == 0 {
        advance(s, notes)
    } else if phase == 1 {
        local_scan(s, c, notes)
    } else {
        cluster_scan(s, c, notes)
    }
}

/// The selected templates, on their way to VMIDs of their own.
pub struct TemplatePreparation {
    templates: Vec<Template>,
    allowed: Vec<i32>,
    assume_yes: bool,
    non_interactive: bool,
    index: usize,
    prepared: Vec<Template>,
    reserved: Vec<i32>,
    origins: Ghost<Seq<int>>,
    stage: PrepareStage,
}

impl View for TemplatePreparation {
    type V = PreparationView;

    closed spec fn view(&self) -> PreparationView {
        PreparationView {
            templates: self.templates.deep_view(),
            allowed: self.allowed@,
            assume_yes: self.assume_yes,
            non_interactive: self.non_interactive,
            index: self.index as int,
            prepared: self.prepared.deep_view(),
            reserved: self.reserved@,
            origins: self.origins@,
            stage: self.stage,
        }
    }
}

impl TemplatePreparation {
    /// Starts preparing `templates` against the catalog's base VMIDs
    /// `allowed_vmids`; returns the first question and what to report so far.
    pub fn start(templates: Vec<Template>, options: &RunOptions, allowed_vmids: &[i32]) -> (r: (
        TemplatePreparation,
        PrepareQuery,
        Vec<PrepareNotice>,
    ))
        requires
            limits_fit(templates.deep_view(), allowed_vmids@),
        ensures
            (r.0@, r.1, r.2@) == advance(
                initial(templates.deep_view(), allowed_vmids@, options.assume_yes, options.non_interactive),
                Seq::empty(),
            ),
            consistent(r.0@),
    {
        let mut allowed: Vec<i32> = Vec::new();
        let mut i: usize = 0;
        while i < allowed_vmids.len()
            invariant
                i <= allowed_vmids@.len(),
                allowed@ == allowed_vmids@.take(i as int),
            decreases allowed_vmids@.len() - i,
        {
            allowed.push(allowed_vmids[i]);
            assert(allowed@ =~= allowed_vmids@.take(i + 1));
            i = i + 1;
        }
        assert(allowed_vmids@.take(i as int) =~= allowed_vmids@);
        let mut run = TemplatePreparation {
            templates: templates,
            allowed: allowed,
            assume_yes: options.assume_yes,
            non_interactive: options.non_interactive,
            index: 0,
            prepared: Vec::new(),
            reserved: Vec::new(),
            origins: Ghost(Seq::empty()),
            stage: PrepareStage::Finished,
        };
        let mut notes: Vec<PrepareNotice> = Vec::new();
        proof {
            assert(run@.prepared =~= Seq::<TemplateView>::empty());
            assert(run@.reserved =~= run@.prepared.map_values(|t: TemplateView| t.vmid));
            assert(run@ == initial(
                run.templates.deep_view(),
                allowed_vmids@,
                options.assume_yes,
                options.non_interactive,
            ));
            law_start_consistent(
                run.templates.deep_view(),
                allowed_vmids@,
                options.assume_yes,
                options.non_interactive,
            );
        }
        let q = run.resume_at(0, 0, &mut notes);
        (run, q, notes)
    }

    /// The template at `index` of those being prepared.
    pub fn template(&self, index: usize) -> (t: &Template)
        requires
            index < self@.templates.len(),
        ensures
            t@ == self@.templates[index as int],
    {
        &self.templates[index]
    }

    /// The templates to install, each with the VMID it was given.
    pub fn into_prepared(self) -> (prepared: Vec<Template>)
        ensures
            prepared.deep_view() == self@.prepared,
    {
        self.prepared
    }

    /// Takes the answer `yes` to the pending question; returns the next
    /// question and what to report.
    pub fn step(&mut self, yes: bool) -> (r: (PrepareQuery, Vec<PrepareNotice>))
        requires
            consistent(old(self)@),
        ensures
            (final(self)@, r.0, r.1@) == answer(old(self)@, yes),
            consistent(final(self)@),
    {
        proof {
            law_answer_keeps_consistency(self@, yes);
            lemma_between(self@);
            assert(self.templates@.len() == self@.templates.len());
        }
        let mut notes: Vec<PrepareNotice> = Vec::new();
        match self.stage {
            PrepareStage::BaseUsed(c) => {
                if yes {
                    self.stage = PrepareStage::LocalOwned(c);
                    (PrepareQuery::IsLocal(c), notes)
                } else {
                    self.accept(c);
                    let q = self.resume_at(0, 0, &mut notes);
                    (q, notes)
                }
            },
            PrepareStage::LocalUsed(c) => {
                if yes {
                    self.stage = PrepareStage::LocalOwned(c);
                    (PrepareQuery::IsLocal(c), notes)
                } else {
                    let q = self.resume_at(1, (c as i64) + 100, &mut notes);
                    (q, notes)
                }
            },
            PrepareStage::LocalOwned(c) => {
                if !yes {
                    let q = self.resume_at(1, (c as i64) + 100, &mut notes);
                    (q, notes)
                } else if self.assume_yes {
                    self.stage = PrepareStage::AwaitDestroy(c);
                    (PrepareQuery::Destroy(c), notes)
                } else if self.non_interactive {
                    let base = self.templates[self.index].vmid;
                    let q = self.resume_at(2, base as i64, &mut notes);
                    (q, notes)
                } else {
                    self.stage = PrepareStage::AwaitConfirm(c);
                    (PrepareQuery::ConfirmReplace { index: self.index, vmid: c }, notes)
                }
            },
            PrepareStage::AwaitConfirm(c) => {
                if yes {
                    self.stage = PrepareStage::AwaitDestroy(c);
                    (PrepareQuery::Destroy(c), notes)
                } else {
                    let base = self.templates[self.index].vmid;
                    let q = self.resume_at(2, base as i64, &mut notes);
                    (q, notes)
                }
            },
            PrepareStage::AwaitDestroy(c) => {
                if yes {
                    self.accept(c);
                } else {
                    notes.push(PrepareNotice::DestroyFailed { index: self.index, vmid: c });
                    let count = self.templates.len();
                    assert(self.index < count);
                    self.index = self.index + 1;
                }
                let q = self.resume_at(0, 0, &mut notes);
                (q, notes)
            },
            PrepareStage::ClusterUsed(c) => {
                if yes {
                    let q = self.resume_at(2, (c as i64) + 100, &mut notes);
                    (q, notes)
                } else {
                    if c != self.templates[self.index].vmid {
                        notes.push(PrepareNotice::Relocated { index: self.index, vmid: c });
                    }
                    self.accept(c);
                    let q = self.resume_at(0, 0, &mut notes);
                    (q, notes)
                }
            },
            PrepareStage::Finished => (PrepareQuery::Finished, notes),
        }
    }

    /// The current template is installed as `vmid`.
    fn accept(&mut self, vmid: i32)
        requires
            consistent(old(self)@),
            candidate_ok(old(self)@, vmid),
        ensures
            final(self)@ == accept_current(old(self)@, vmid),
            between(final(self)@),
    {
        proof {
            lemma_between(self@);
            lemma_accept(self@, vmid);
            assert(self.templates@.len() == self@.templates.len());
        }
        let chosen = self.templates[self.index].with_vmid(vmid);
        let ghost before = self.prepared;
        self.prepared.push(chosen);
        proof {
            lemma_deep_push(before, self.prepared, chosen);
        }
        self.reserved.push(vmid);
        self.origins = Ghost(self.origins@.push(self.index as int));
        let count = self.templates.len();
        assert(self.index < count);
        self.index = self.index + 1;
    }

    /// Goes on from `phase` (see [`resume`]) until the next question.
    fn resume_at(&mut self, start_phase: u8, start: i64, notes: &mut Vec<PrepareNotice>) -> (q: PrepareQuery)
        requires
            between(old(self)@),
            start_phase <= 2,
            start_phase == 1 ==> 0 <= old(self)@.index < old(self)@.templates.len() && seq_has(
                old(self)@.allowed,
                current_base(old(self)@),
            ) && start >= i32::MIN,
            start_phase == 2 ==> (0 <= old(self)@.index < old(self)@.templates.len() ==> seq_has(
                old(self)@.allowed,
                current_base(old(self)@),
            )) && start >= i32::MIN,
        ensures
            (final(self)@, q, final(notes)@) == resume(start_phase, old(self)@, start as int, old(notes)@),
    {
        let ghost target = resume(start_phase, self@, start as int, notes@);
        let mut phase = start_phase;
        let mut from = start;
        loop
            invariant
                target == resume(start_phase, old(self)@, start as int, old(notes)@),
                self.templates@.len() == self@.templates.len(),
                between(self@),
                phase <= 2,
                phase == 1 ==> 0 <= self@.index < self@.templates.len() && seq_has(
                    self@.allowed,
                    current_base(self@),
                ) && from >= i32::MIN,
                phase == 2 ==> (0 <= self@.index < self@.templates.len() ==> seq_has(
                    self@.allowed,
                    current_base(self@),
                )) && from >= i32::MIN,
                resume(phase, self@, from as int, notes@) == target,
            decreases self@.templates.len() - self@.index, 2 - phase,
        {
            if phase == 0 {
                if self.index >= self.templates.len() {
                    self.stage = PrepareStage::Finished;
                    return PrepareQuery::Finished;
                }
                let base = self.templates[self.index].vmid;
                proof {
                    assert(self@.templates[self@.index].vmid == base);
                }
                if !contains_vmid(self.allowed.as_slice(), base as i64) {
                    notes.push(PrepareNotice::NotManaged { index: self.index });
                    self.index = self.index + 1;
                } else if !contains_vmid(self.reserved.as_slice(), base as i64) {
                    self.stage = PrepareStage::BaseUsed(base);
                    return PrepareQuery::IsUsed(base);
                } else {
                    phase = 1;
                    from = base as i64;
                }
            } else if phase == 1 {
                let base = self.templates[self.index].vmid;
                proof {
                    assert(self@.templates[self@.index].vmid == base);
                }
                match find_local_series_vmid(base, self.reserved.as_slice(), from) {
                    Some(v) => {
                        self.stage = PrepareStage::LocalUsed(v);
                        return PrepareQuery::IsUsed(v);
                    },
                    None => {
                        phase = 2;
                        from = base as i64;
                    },
                }
            } else {
                if self.index >= self.templates.len() {
                    self.stage = PrepareStage::Finished;
                    return PrepareQuery::Finished;
                }
                let base = self.templates[self.index].vmid;
                proof {
                    assert(self@.templates[self@.index].vmid == base);
                }
                match next_cluster_vmid(base, self.allowed.as_slice(), self.reserved.as_slice(), from) {
                    Some(v) => {
                        self.stage = PrepareStage::ClusterUsed(v);
                        return PrepareQuery::IsUsed(v);
                    },
                    None => {
                        let limit = vmid_series_limit(base);
                        notes.push(PrepareNotice::NoFreeVmid { index: self.index, limit: limit });
                        self.index = self.index + 1;
                        phase = 0;
                    },
                }
            }
        }
    }
}


/// Which part of the handling of a template a stage belongs to: checking its
/// base VMID, looking for a local copy, replacing it, looking for a free VMID,
/// or the end.
pub open spec fn stage_phase(stage: PrepareStage) -> int {
    match stage {
        PrepareStage::BaseUsed(_) => 0,
        PrepareStage::LocalUsed(_) => 1,
        PrepareStage::LocalOwned(_) => 1,
        PrepareStage::AwaitConfirm(_) => 2,
        PrepareStage::AwaitDestroy(_) => 2,
        PrepareStage::ClusterUsed(_) => 3,
        PrepareStage::Finished => 4,
    }
}

/// How far a stage is within its part (bounded, as VMIDs are `i32`s).
pub open spec fn stage_position(stage: PrepareStage) -> int {
    match stage {
        PrepareStage::BaseUsed(_) => 0,
        PrepareStage::LocalUsed(c) => 2 * c,
        PrepareStage::LocalOwned(c) => 2 * c + 1,
        PrepareStage::AwaitConfirm(_) => 0,
        PrepareStage::AwaitDestroy(_) => 1,
        PrepareStage::ClusterUsed(c) => c as int,
        PrepareStage::Finished => 0,
    }
}

/// `t` is further than `s`: a later template, or a later part of the same
/// template, or further within the same part.
pub open spec fn moves_forward(s: PreparationView, t: PreparationView) -> bool {
    ||| t.index > s.index
    ||| t.index == s.index && stage_phase(t.stage) > stage_phase(s.stage)
    ||| t.index == s.index && stage_phase(t.stage) == stage_phase(s.stage) && stage_position(t.stage)
        > stage_position(s.stage)
}

/// Law: every answer to a pending question moves the preparation forward in
/// an order that has no infinite ascending chain (the index is at most the
/// number of templates, there are five parts, and positions are bounded by
/// the `i32` VMIDs), so every preparation reaches its end.
pub proof fn law_answer_moves_forward(s: PreparationView, yes: bool)
    requires
        consistent(s),
        !(s.stage is Finished),
    ensures
        moves_forward(s, answer(s, yes).0),
        answer(s, yes).0.index <= s.templates.len(),
        i32::MIN * 2 <= stage_position(answer(s, yes).0.stage) <= i32::MAX * 2 + 1,
{
    lemma_between(s);
    law_answer_keeps_consistency(s, yes);
    match s.stage {
        PrepareStage::BaseUsed(c) => {
            if !yes {
                lemma_accept(s, c);
                lemma_advance(accept_current(s, c), Seq::empty());
            }
        },
        PrepareStage::LocalUsed(c) => {
            if !yes {
                lemma_local_scan(s, c + 100, Seq::empty());
            }
        },
        PrepareStage::LocalOwned(c) => {
            if yes {
                if !s.assume_yes && s.non_interactive {
                    lemma_cluster_scan(s, current_base(s), Seq::empty());
                }
            } else {
                lemma_local_scan(s, c + 100, Seq::empty());
            }
        },
        PrepareStage::AwaitConfirm(c) => {
            if !yes {
                lemma_cluster_scan(s, current_base(s), Seq::empty());
            }
        },
        PrepareStage::AwaitDestroy(c) => {
            if yes {
                lemma_accept(s, c);
                lemma_advance(accept_current(s, c), Seq::empty());
            } else {
                lemma_advance(
                    skip_current(s),
                    seq![PrepareNotice::DestroyFailed { index: s.index as usize, vmid: c }],
                );
            }
        },
        PrepareStage::ClusterUsed(c) => {
            if yes {
                lemma_cluster_scan(s, c + 100, Seq::empty());
            } else {
                lemma_accept(s, c);
                let notes = if c as int != current_base(s) {
                    seq![PrepareNotice::Relocated { index: s.index as usize, vmid: c }]
                } else {
                    Seq::<PrepareNotice>::empty()
                };
                lemma_advance(accept_current(s, c), notes);
            }
        },
        PrepareStage::Finished => {},
    }
}


/// The VMID under which the answer `yes` in `stage` adds the current template
/// to the prepared ones, if it does.
pub open spec fn accepting_vmid(stage: PrepareStage, yes: bool) -> Option<i32> {
    match stage {
        PrepareStage::BaseUsed(c) => if !yes {
            Some(c)
        } else {
            None
        },
        PrepareStage::ClusterUsed(c) => if !yes {
            Some(c)
        } else {
            None
        },
        PrepareStage::AwaitDestroy(c) => if yes {
            Some(c)
        } else {
            None
        },
        _ => None,
    }
}

/// Law: a template is prepared only on the answer that the VMID the search
/// offered is not in use in the cluster, or that its local copy with that VMID
/// was destroyed; it is then the current template under that VMID, and no
/// other answer changes the prepared templates.
pub proof fn law_prepared_only_after_check(s: PreparationView, yes: bool)
    requires
        consistent(s),
    ensures
        match accepting_vmid(s.stage, yes) {
            Some(c) => answer(s, yes).0.prepared == s.prepared.push(s.templates[s.index].with_vmid(c)),
            None => answer(s, yes).0.prepared == s.prepared,
        },
{
    lemma_between(s);
    match s.stage {
        PrepareStage::BaseUsed(c) => {
            if !yes {
                lemma_accept(s, c);
                lemma_advance(accept_current(s, c), Seq::empty());
            }
        },
        PrepareStage::LocalUsed(c) => {
            if !yes {
                lemma_local_scan(s, c + 100, Seq::empty());
            }
        },
        PrepareStage::LocalOwned(c) => {
            if yes {
                if !s.assume_yes && s.non_interactive {
                    lemma_cluster_scan(s, current_base(s), Seq::empty());
                }
            } else {
                lemma_local_scan(s, c + 100, Seq::empty());
            }
        },
        PrepareStage::AwaitConfirm(c) => {
            if !yes {
                lemma_cluster_scan(s, current_base(s), Seq::empty());
            }
        },
        PrepareStage::AwaitDestroy(c) => {
            if yes {
                lemma_accept(s, c);
                lemma_advance(accept_current(s, c), Seq::empty());
            } else {
                lemma_advance(
                    skip_current(s),
                    seq![PrepareNotice::DestroyFailed { index: s.index as usize, vmid: c }],
                );
            }
        },
        PrepareStage::ClusterUsed(c) => {
            if yes {
                lemma_cluster_scan(s, c + 100, Seq::empty());
            } else {
                lemma_accept(s, c);
                let notes = if c as int != current_base(s) {
                    seq![PrepareNotice::Relocated { index: s.index as usize, vmid: c }]
                } else {
                    Seq::<PrepareNotice>::empty()
                };
                lemma_advance(accept_current(s, c), notes);
            }
        },
        PrepareStage::Finished => {},
    }
}

/// Law: under `--non-interactive` without `--yes`, no replacement is asked
/// about, no VM is destroyed, and the preparation never waits on a
/// destruction; a local copy counts as a declined replacement.
pub proof fn law_non_interactive_never_destroys(s: PreparationView, yes: bool)
    requires
        consistent(s),
        s.non_interactive,
        !s.assume_yes,
    ensures
        !(s.stage is AwaitDestroy),
        !(s.stage is AwaitConfirm),
        !(answer(s, yes).1 is Destroy),
        !(answer(s, yes).1 is ConfirmReplace),
{
    lemma_between(s);
    match s.stage {
        PrepareStage::BaseUsed(c) => {
            if !yes {
                lemma_accept(s, c);
                lemma_advance(accept_current(s, c), Seq::empty());
            }
        },
        PrepareStage::LocalUsed(c) => {
            if !yes {
                lemma_local_scan(s, c + 100, Seq::empty());
            }
        },
        PrepareStage::LocalOwned(c) => {
            if yes {
                lemma_cluster_scan(s, current_base(s), Seq::empty());
            } else {
                lemma_local_scan(s, c + 100, Seq::empty());
            }
        },
        PrepareStage::ClusterUsed(c) => {
            if yes {
                lemma_cluster_scan(s, c + 100, Seq::empty());
            } else {
                lemma_accept(s, c);
                let notes = if c as int != current_base(s) {
                    seq![PrepareNotice::Relocated { index: s.index as usize, vmid: c }]
                } else {
                    Seq::<PrepareNotice>::empty()
                };
                lemma_advance(accept_current(s, c), notes);
            }
        },
        _ => {},
    }
}


/// Every VMID of the current template's series below `c` that is not
/// reserved was found not to be both in use and on this node.
pub open spec fn local_checked(
    s: PreparationView,
    used: spec_fn(int) -> bool,
    local: spec_fn(int) -> bool,
    c: int,
) -> bool {
    forall|k: int|
        current_base(s) <= k < c && in_base_series(k, current_base(s)) && !seq_has(s.reserved, k)
            ==> !(#[trigger] used(k) && local(k))
}

/// Every VMID of the current template's series below `c` that is neither
/// reserved nor another template's base VMID was found in use in the cluster.
pub open spec fn cluster_checked(s: PreparationView, used: spec_fn(int) -> bool, c: int) -> bool {
    forall|k: int|
        current_base(s) <= k < c && in_base_series(k, current_base(s)) && !seq_has(s.reserved, k)
            && !other_base(s.allowed, current_base(s), k) ==> #[trigger] used(k)
}

/// The state agrees with a cluster whose VMIDs in use are `used` and whose
/// VMIDs on this node are `local`: each search has passed over exactly the
/// VMIDs it had to, and the VMID it waits on is the first one left.
pub open spec fn agrees(s: PreparationView, used: spec_fn(int) -> bool, local: spec_fn(int) -> bool) -> bool {
    match s.stage {
        PrepareStage::BaseUsed(_) => true,
        PrepareStage::LocalUsed(c) => local_checked(s, used, local, c as int),
        PrepareStage::LocalOwned(c) => local_checked(s, used, local, c as int) && used(c as int),
        PrepareStage::AwaitConfirm(c) => local_checked(s, used, local, c as int) && used(c as int) && local(
            c as int,
        ),
        PrepareStage::AwaitDestroy(c) => local_checked(s, used, local, c as int) && used(c as int) && local(
            c as int,
        ),
        PrepareStage::ClusterUsed(c) => cluster_checked(s, used, c as int),
        PrepareStage::Finished => true,
    }
}

/// `yes` is the true answer to the pending question about the cluster (any
/// answer is true to a question to the operator or about a destruction).
pub open spec fn answers_truly(
    s: PreparationView,
    used: spec_fn(int) -> bool,
    local: spec_fn(int) -> bool,
    yes: bool,
) -> bool {
    match s.stage {
        PrepareStage::BaseUsed(c) => yes == used(c as int),
        PrepareStage::LocalUsed(c) => yes == used(c as int),
        PrepareStage::ClusterUsed(c) => yes == used(c as int),
        PrepareStage::LocalOwned(c) => yes == local(c as int),
        _ => true,
    }
}

proof fn lemma_local_scan_agrees(
    s: PreparationView,
    c: int,
    notes: Seq<PrepareNotice>,
    used: spec_fn(int) -> bool,
    local: spec_fn(int) -> bool,
)
    requires
        between(s),
        0 <= s.index < s.templates.len(),
        seq_has(s.allowed, current_base(s)),
        current_base(s) <= c,
        (c - current_base(s)) % 100 == 0,
        local_checked(s, used, local, c),
    ensures
        agrees(local_scan(s, c, notes).0, used, local),
    decreases s.templates.len() - s.index, 1int, 1int,
{
    let base = current_base(s);
    lemma_local_probe_in_series(base, s.reserved, c);
    lemma_local_scan(s, c, notes);
    match local_probe(base, s.reserved, c) {
        Some(v) => {
            let t = local_scan(s, c, notes).0;
            assert(v as i32 as int == v);
            assert forall|k: int|
                current_base(t) <= k < v && in_base_series(k, current_base(t)) && !seq_has(t.reserved, k)
                    implies !(#[trigger] used(k) && local(k)) by {
                if k >= c {
                    lemma_local_probe_skips(base, s.reserved, c, k);
                }
            }
        },
        None => {
            lemma_cluster_scan_agrees(s, base, notes, used, local);
        },
    }
}

proof fn lemma_cluster_scan_agrees(
    s: PreparationView,
    c: int,
    notes: Seq<PrepareNotice>,
    used: spec_fn(int) -> bool,
    local: spec_fn(int) -> bool,
)
    requires
        between(s),
        0 <= s.index < s.templates.len() ==> seq_has(s.allowed, current_base(s)) && current_base(s) <= c
            && (c - current_base(s)) % 100 == 0 && cluster_checked(s, used, c),
    ensures
        agrees(cluster_scan(s, c, notes).0, used, local),
    decreases s.templates.len() - s.index, 1int, 0int,
{
    lemma_cluster_scan(s, c, notes);
    if 0 <= s.index < s.templates.len() {
        let base = current_base(s);
        lemma_cluster_probe_in_series(base, s.allowed, s.reserved, c);
        match cluster_probe(base, s.allowed, s.reserved, c) {
            Some(v) => {
                let t = cluster_scan(s, c, notes).0;
                assert(v as i32 as int == v);
                assert forall|k: int|
                    current_base(t) <= k < v && in_base_series(k, current_base(t)) && !seq_has(t.reserved, k)
                        && !other_base(t.allowed, current_base(t), k) implies #[trigger] used(k) by {
                    if k >= c {
                        lemma_cluster_probe_skips(base, s.allowed, s.reserved, c, k);
                    }
                }
            },
            None => {
                lemma_advance_agrees(
                    skip_current(s),
                    notes.push(
                        PrepareNotice::NoFreeVmid {
                            index: s.index as usize,
                            limit: series_limit(base) as i32,
                        },
                    ),
                    used,
                    local,
                );
            },
        }
    }
}

proof fn lemma_advance_agrees(
    s: PreparationView,
    notes: Seq<PrepareNotice>,
    used: spec_fn(int) -> bool,
    local: spec_fn(int) -> bool,
)
    requires
        between(s),
    ensures
        agrees(advance(s, notes).0, used, local),
    decreases s.templates.len() - s.index, 2int, 0int,
{
    if !(0 <= s.index < s.templates.len()) {
    } else if !seq_has(s.allowed, current_base(s)) {
        lemma_advance_agrees(
            skip_current(s),
            notes.push(PrepareNotice::NotManaged { index: s.index as usize }),
            used,
            local,
        );
    } else {
        lemma_local_scan_agrees(s, current_base(s), notes, used, local);
    }
}

/// Law: a preparation starts in agreement with any cluster.
pub proof fn law_start_agrees(
    templates: Seq<TemplateView>,
    allowed: Seq<i32>,
    assume_yes: bool,
    non_interactive: bool,
    used: spec_fn(int) -> bool,
    local: spec_fn(int) -> bool,
)
    requires
        limits_fit(templates, allowed),
    ensures
        agrees(advance(initial(templates, allowed, assume_yes, non_interactive), Seq::empty()).0, used, local),
{
    let s = initial(templates, allowed, assume_yes, non_interactive);
    assert(s.reserved =~= s.prepared.map_values(|t: TemplateView| t.vmid));
    lemma_advance_agrees(s, Seq::empty(), used, local);
}

/// Law: answered truly about a cluster that does not change meanwhile, a
/// preparation stays in agreement with it.
pub proof fn law_answer_agrees(
    s: PreparationView,
    yes: bool,
    used: spec_fn(int) -> bool,
    local: spec_fn(int) -> bool,
)
    requires
        consistent(s),
        agrees(s, used, local),
        answers_truly(s, used, local, yes),
    ensures
        agrees(answer(s, yes).0, used, local),
{
    lemma_between(s);
    match s.stage {
        PrepareStage::BaseUsed(c) => {
            if !yes {
                lemma_accept(s, c);
                lemma_advance_agrees(accept_current(s, c), Seq::empty(), used, local);
            }
        },
        PrepareStage::LocalUsed(c) => {
            if !yes {
                lemma_local_scan_agrees(s, c + 100, Seq::empty(), used, local);
            }
        },
        PrepareStage::LocalOwned(c) => {
            if yes {
                if !s.assume_yes && s.non_interactive {
                    lemma_cluster_scan_agrees(s, current_base(s), Seq::empty(), used, local);
                }
            } else {
                lemma_local_scan_agrees(s, c + 100, Seq::empty(), used, local);
            }
        },
        PrepareStage::AwaitConfirm(c) => {
            if !yes {
                lemma_cluster_scan_agrees(s, current_base(s), Seq::empty(), used, local);
            }
        },
        PrepareStage::AwaitDestroy(c) => {
            if yes {
                lemma_accept(s, c);
                lemma_advance_agrees(accept_current(s, c), Seq::empty(), used, local);
            } else {
                lemma_advance_agrees(
                    skip_current(s),
                    seq![PrepareNotice::DestroyFailed { index: s.index as usize, vmid: c }],
                    used,
                    local,
                );
            }
        },
        PrepareStage::ClusterUsed(c) => {
            if yes {
                lemma_cluster_scan_agrees(s, c + 100, Seq::empty(), used, local);
            } else {
                lemma_accept(s, c);
                let notes = if c as int != current_base(s) {
                    seq![PrepareNotice::Relocated { index: s.index as usize, vmid: c }]
                } else {
                    Seq::<PrepareNotice>::empty()
                };
                lemma_advance_agrees(accept_current(s, c), notes, used, local);
            }
        },
        PrepareStage::Finished => {},
    }
}

/// Law: against a cluster that does not change meanwhile, a template taken
/// from the cluster search gets the first VMID of its series (from its base
/// VMID up) that is neither reserved in this run nor another template's base
/// VMID and that the cluster does not use; a template that replaces a local
/// copy gets the first VMID of its series not reserved in this run that is in
/// use and on this node.
pub proof fn law_first_fitting_vmid(
    s: PreparationView,
    yes: bool,
    used: spec_fn(int) -> bool,
    local: spec_fn(int) -> bool,
)
    requires
        consistent(s),
        agrees(s, used, local),
        answers_truly(s, used, local, yes),
    ensures
        match accepting_vmid(s.stage, yes) {
            Some(c) => {
                &&& in_base_series(c as int, current_base(s))
                &&& !seq_has(s.reserved, c as int)
                &&& s.stage is BaseUsed ==> c as int == current_base(s)
                &&& if s.stage is ClusterUsed || s.stage is BaseUsed {
                    &&& !used(c as int)
                    &&& !other_base(s.allowed, current_base(s), c as int)
                    &&& cluster_checked(s, used, c as int)
                } else {
                    &&& used(c as int) && local(c as int)
                    &&& local_checked(s, used, local, c as int)
                }
            },
            None => true,
        },
{
}


/// Law: for each managed template whose base VMID is not given out in this
/// run, the first question is whether that base VMID is in use in the cluster.
pub proof fn law_base_asked_first(s: PreparationView, notes: Seq<PrepareNotice>)
    requires
        between(s),
        0 <= s.index < s.templates.len(),
        seq_has(s.allowed, current_base(s)),
        !seq_has(s.reserved, current_base(s)),
    ensures
        advance(s, notes).1 == PrepareQuery::IsUsed(current_base(s) as i32),
        advance(s, notes).0.stage == PrepareStage::BaseUsed(current_base(s) as i32),
        advance(s, notes).0.index == s.index,
{
}

/// Law: a base VMID that the cluster does not use is taken as it is: the
/// template is prepared under it, and nothing is asked or destroyed for it.
pub proof fn law_free_base_is_used(s: PreparationView, c: i32)
    requires
        consistent(s),
        s.stage == PrepareStage::BaseUsed(c),
    ensures
        c as int == current_base(s),
        answer(s, false).0.prepared == s.prepared.push(s.templates[s.index].with_vmid(c)),
        answer(s, false).0.index > s.index,
        answer(s, false).1 is IsUsed || answer(s, false).1 is Finished,
{
    lemma_accept(s, c);
    lemma_advance(accept_current(s, c), Seq::empty());
}


/// The notices handed in come first, unchanged, among those reported.
pub open spec fn keeps_notes(notes: Seq<PrepareNotice>, reported: Seq<PrepareNotice>) -> bool {
    notes.len() <= reported.len() && forall|i: int| 0 <= i < notes.len() ==> #[trigger] reported[i] == notes[i]
}

proof fn lemma_advance_keeps_notes(s: PreparationView, notes: Seq<PrepareNotice>)
    ensures
        keeps_notes(notes, advance(s, notes).2),
    decreases s.templates.len() - s.index, 2int, 0int,
{
    if !(0 <= s.index < s.templates.len()) {
    } else if !seq_has(s.allowed, current_base(s)) {
        let more = notes.push(PrepareNotice::NotManaged { index: s.index as usize });
        lemma_advance_keeps_notes(skip_current(s), more);
        assert forall|i: int| 0 <= i < notes.len() implies #[trigger] advance(s, notes).2[i] == notes[i] by {
            assert(more[i] == notes[i]);
        }
    } else if !seq_has(s.reserved, current_base(s)) {
    } else {
        lemma_local_scan_keeps_notes(s, current_base(s), notes);
    }
}

proof fn lemma_local_scan_keeps_notes(s: PreparationView, c: int, notes: Seq<PrepareNotice>)
    ensures
        keeps_notes(notes, local_scan(s, c, notes).2),
    decreases s.templates.len() - s.index, 1int, 1int,
{
    if local_probe(current_base(s), s.reserved, c) is None {
        lemma_cluster_scan_keeps_notes(s, current_base(s), notes);
    }
}

proof fn lemma_cluster_scan_keeps_notes(s: PreparationView, c: int, notes: Seq<PrepareNotice>)
    ensures
        keeps_notes(notes, cluster_scan(s, c, notes).2),
    decreases s.templates.len() - s.index, 1int, 0int,
{
    if 0 <= s.index < s.templates.len() && cluster_probe(current_base(s), s.allowed, s.reserved, c) is None {
        let more = notes.push(
            PrepareNotice::NoFreeVmid { index: s.index as usize, limit: series_limit(current_base(s)) as i32 },
        );
        lemma_advance_keeps_notes(skip_current(s), more);
        assert forall|i: int| 0 <= i < notes.len() implies #[trigger] cluster_scan(s, c, notes).2[i] == notes[i] by {
            assert(more[i] == notes[i]);
        }
    }
}

/// Two VMIDs of one series that differ lie at least a step of 100 apart.
proof fn lemma_series_step(base: int, c: int, k: int)
    requires
        (c - base) % 100 == 0,
        (k - base) % 100 == 0,
        c < k,
    ensures
        c + 100 <= k,
{
    assert((k - c) % 100 == 0) by (nonlinear_arith)
        requires
            (c - base) % 100 == 0,
            (k - base) % 100 == 0,
    ;
}

/// Law: against a cluster that does not change meanwhile, the search for a
/// local copy gives up, and turns to the search for a VMID that is free in
/// the cluster, only when no VMID of the template's series that is not
/// reserved in this run is both in use and on this node.
pub proof fn law_local_search_exhausted(
    s: PreparationView,
    used: spec_fn(int) -> bool,
    local: spec_fn(int) -> bool,
    c: i32,
)
    requires
        consistent(s),
        agrees(s, used, local),
        (s.stage == PrepareStage::LocalUsed(c) && !used(c as int)) || (s.stage == PrepareStage::LocalOwned(c)
            && !local(c as int)),
        local_probe(current_base(s), s.reserved, c + 100) is None,
    ensures
        answer(s, false) == cluster_scan(s, current_base(s), Seq::empty()),
        forall|k: int|
            #[trigger] in_base_series(k, current_base(s)) ==> seq_has(s.reserved, k) || !(used(k) && local(k)),
{
    let base = current_base(s);
    law_local_probe_none(base, s.reserved, c + 100);
    assert forall|k: int| #[trigger] in_base_series(k, base) implies seq_has(s.reserved, k) || !(used(k)
        && local(k)) by {
        if k > c {
            lemma_series_step(base, c as int, k);
        }
    }
}

/// Law: against a cluster that does not change meanwhile, the search for a
/// free VMID gives up on a template exactly when no VMID of its series after
/// `c` is left to ask about; and then every VMID of the series is in use in
/// the cluster, reserved in this run or another template's base VMID. The
/// template is then left out, and the first notice reports it.
pub proof fn law_cluster_search_exhausted(
    s: PreparationView,
    used: spec_fn(int) -> bool,
    local: spec_fn(int) -> bool,
    c: i32,
)
    requires
        consistent(s),
        agrees(s, used, local),
        s.stage == PrepareStage::ClusterUsed(c),
        used(c as int),
    ensures
        (answer(s, true).0.index > s.index) <==> cluster_probe(current_base(s), s.allowed, s.reserved, c + 100) is None,
        answer(s, true).0.index > s.index ==> {
            &&& forall|k: int|
                #[trigger] in_base_series(k, current_base(s)) ==> seq_has(s.reserved, k) || other_base(
                    s.allowed,
                    current_base(s),
                    k,
                ) || used(k)
            &&& answer(s, true).0.prepared == s.prepared
            &&& answer(s, true).2.len() > 0
            &&& answer(s, true).2[0] == PrepareNotice::NoFreeVmid {
                index: s.index as usize,
                limit: series_limit(current_base(s)) as i32,
            }
        },
{
    let base = current_base(s);
    lemma_between(s);
    lemma_cluster_scan(s, c + 100, Seq::empty());
    lemma_cluster_scan_keeps_notes(s, c + 100, Seq::empty());
    law_cluster_probe_none(base, s.allowed, s.reserved, c + 100);
    if cluster_probe(base, s.allowed, s.reserved, c + 100) is None {
        let more = Seq::<PrepareNotice>::empty().push(
            PrepareNotice::NoFreeVmid { index: s.index as usize, limit: series_limit(base) as i32 },
        );
        lemma_advance(skip_current(s), more);
        lemma_advance_keeps_notes(skip_current(s), more);
        assert forall|k: int| #[trigger] in_base_series(k, base) implies seq_has(s.reserved, k) || other_base(
            s.allowed,
            base,
            k,
        ) || used(k) by {
            if k > c {
                lemma_series_step(base, c as int, k);
            }
        }
    }
}


/// Law: under `--non-interactive` without `--yes`, answered truly about a
/// cluster that does not change meanwhile, a template is only ever prepared
/// under a VMID that the cluster does not use: nothing is replaced.
pub proof fn law_non_interactive_takes_free_vmids(
    s: PreparationView,
    yes: bool,
    used: spec_fn(int) -> bool,
    local: spec_fn(int) -> bool,
)
    requires
        consistent(s),
        s.non_interactive,
        !s.assume_yes,
        agrees(s, used, local),
        answers_truly(s, used, local, yes),
    ensures
        accepting_vmid(s.stage, yes) matches Some(c) ==> !used(c as int),
        !(answer(s, yes).1 is Destroy),
{
    law_non_interactive_never_destroys(s, yes);
    law_first_fitting_vmid(s, yes, used, local);
}

} // verus!
