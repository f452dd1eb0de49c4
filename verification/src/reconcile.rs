//! The resource cache and the reconciler.
//!
//! The reconciler diffs the desired resource tuples extracted from a new
//! configuration against the cache of currently running resources. The diff
//! is computed (and resources are eagerly built) during validation, but it
//! is only staged: the caller applies it to the cache when the whole
//! validation pass commits, or drops it when the pass's validation results
//! carry an error, in which case nothing changes. A builder failure is not
//! a validation error: it is reported, scoped to its one resource request,
//! and the other requests reconcile normally.

use vstd::prelude::*;

use futures::sync::oneshot;

use crate::handshake::{oneshot_unit, InstanceHandle};
use crate::model::{ConfigSnapshot, Desired, DesiredModel, ExtraConfig, Listen, ListenModel};
use crate::validation::{ResultModel, ValidationResults};

verus! {

/// An opaque identifier of one successfully built resource (a bound socket,
/// an open device). The builder hands it out; the reconciler only stores and
/// copies it.
#[derive(Clone, Copy, Debug, PartialEq, Eq, Structural)]
pub struct ResourceHandle {
    pub id: u64,
}

/// The per-resource plug-in contract: what a concrete resource kind
/// supplies to take part in reconciliation.
///
/// `extract` derives the desired tuples from a configuration snapshot;
/// `build` is the fallible constructor of the underlying resource. The
/// reconciler promises nothing about either call: it states what holds of
/// its own output for every possible answer. The third piece of the plug-in
/// surface — the task factory that turns an installed resource into a
/// running, cancellable job — belongs to the supervisor's executor in the
/// embedding, not to the reconciler.
pub trait ResourcePlugin {
    /// The desired resource tuples of this plugin's group under `snapshot`.
    fn extract(&mut self, snapshot: &ConfigSnapshot) -> Vec<Desired>;

    /// Builds the resource for one sub-configuration, or explains why it
    /// cannot be built.
    fn build(&mut self, sub: &Listen) -> Result<ResourceHandle, String>;
}

/// One install command sent from the reconciler to the supervisor: the
/// resource to serve, the auxiliary configuration, the identity of the new
/// instance, and the supervisor's halves of the stop handshake.
pub struct Install {
    pub instance: u64,
    pub resource: ResourceHandle,
    pub extra: ExtraConfig,
    pub sub: Listen,
    pub stop_request: oneshot::Receiver<()>,
    pub stop_confirm: oneshot::Sender<()>,
}

/// The mathematical content of an [`Install`].
#[verifier::ext_equal]
pub ghost struct InstallModel {
    pub instance: u64,
    pub resource: ResourceHandle,
    pub extra: ExtraConfig,
    pub sub: ListenModel,
}

impl View for Install {
    type V = InstallModel;

    open spec fn view(&self) -> InstallModel {
        InstallModel {
            instance: self.instance,
            resource: self.resource,
            extra: self.extra,
            sub: self.sub@,
        }
    }
}

/// One builder failure, scoped to the one resource request it concerns:
/// the request's identity and the builder's explanation. Build failures are
/// reported, but they never block the commit: the other requests of the
/// pass reconcile normally (partial-failure isolation).
#[derive(Debug)]
pub struct BuildFailure {
    pub sub: Listen,
    pub message: String,
}

/// The mathematical content of a [`BuildFailure`].
#[verifier::ext_equal]
pub ghost struct BuildFailureModel {
    pub sub: ListenModel,
    pub message: Seq<char>,
}

impl View for BuildFailure {
    type V = BuildFailureModel;

    open spec fn view(&self) -> BuildFailureModel {
        BuildFailureModel { sub: self.sub@, message: self.message@ }
    }
}

/// The models of a list of builder failures.
pub open spec fn failure_models(fs: Seq<BuildFailure>) -> Seq<BuildFailureModel> {
    fs.map_values(|f: BuildFailure| f@)
}

/// One entry of the resource cache: a sub-configuration that was desired,
/// the auxiliary configuration its instances run under, the built resource
/// and the running instances.
pub struct CachedEntry {
    pub sub: Listen,
    pub extra: ExtraConfig,
    pub resource: ResourceHandle,
    pub instances: Vec<InstanceHandle>,
}

/// The mathematical content of a [`CachedEntry`]; instances appear as their
/// identities.
#[verifier::ext_equal]
pub ghost struct EntryModel {
    pub sub: ListenModel,
    pub extra: ExtraConfig,
    pub resource: ResourceHandle,
    pub instances: Seq<u64>,
}

impl View for CachedEntry {
    type V = EntryModel;

    open spec fn view(&self) -> EntryModel {
        EntryModel {
            sub: self.sub@,
            extra: self.extra,
            resource: self.resource,
            instances: self.instances@.map_values(|h: InstanceHandle| h@),
        }
    }
}

/// The models of a whole cache.
pub open spec fn cache_models(cache: Seq<CachedEntry>) -> Seq<EntryModel> {
    cache.map_values(|e: CachedEntry| e@)
}

/// The models of a desired-tuple list.
pub open spec fn desired_models(ds: Seq<Desired>) -> Seq<DesiredModel> {
    ds.map_values(|d: Desired| d@)
}

/// The models of an install list.
pub open spec fn install_models(is: Seq<Install>) -> Seq<InstallModel> {
    is.map_values(|i: Install| i@)
}

/// The identities of a sequence of instance handles.
pub open spec fn instance_ids(hs: Seq<InstanceHandle>) -> Seq<u64> {
    hs.map_values(|h: InstanceHandle| h@)
}

/// Install models distribute over concatenation.
pub proof fn lemma_install_models_concat(a: Seq<Install>, b: Seq<Install>)
    ensures
        install_models(a + b) == install_models(a) + install_models(b),
{
    assert forall|i: int| 0 <= i < (a + b).len() implies install_models(a + b)[i]
        == (install_models(a) + install_models(b))[i] by {
        if i < a.len() {
            assert((a + b)[i] == a[i]);
        } else {
            assert((a + b)[i] == b[i - a.len()]);
        }
    }
    assert(install_models(a + b) =~= install_models(a) + install_models(b));
}

/// Instance identities distribute over concatenation.
pub proof fn lemma_instance_ids_concat(a: Seq<InstanceHandle>, b: Seq<InstanceHandle>)
    ensures
        instance_ids(a + b) == instance_ids(a) + instance_ids(b),
{
    assert forall|i: int| 0 <= i < (a + b).len() implies instance_ids(a + b)[i] == (instance_ids(
        a,
    ) + instance_ids(b))[i] by {
        if i < a.len() {
            assert((a + b)[i] == a[i]);
        } else {
            assert((a + b)[i] == b[i - a.len()]);
        }
    }
    assert(instance_ids(a + b) =~= instance_ids(a) + instance_ids(b));
}

/// No two entries of the cache carry the same sub-configuration.
pub open spec fn distinct_subs(cache: Seq<EntryModel>) -> bool {
    forall|i: int, j: int| 0 <= i < j < cache.len() ==> cache[i].sub != cache[j].sub
}

/// No two desired tuples carry the same sub-configuration.
pub open spec fn distinct_desired(ds: Seq<DesiredModel>) -> bool {
    forall|i: int, j: int| 0 <= i < j < ds.len() ==> ds[i].sub != ds[j].sub
}

/// The index of the first cache entry with the given sub-configuration.
pub open spec fn find_sub(cache: Seq<EntryModel>, sub: ListenModel) -> Option<int>
    decreases cache.len(),
{
    if cache.len() == 0 {
        None
    } else if cache[0].sub == sub {
        Some(0int)
    } else {
        match find_sub(cache.drop_first(), sub) {
            None => None,
            Some(i) => Some(i + 1),
        }
    }
}

/// What [`find_sub`] returns: the least matching index, or a proof that no
/// entry matches.
pub proof fn lemma_find_sub(cache: Seq<EntryModel>, sub: ListenModel)
    ensures
        match find_sub(cache, sub) {
            None => forall|i: int| 0 <= i < cache.len() ==> cache[i].sub != sub,
            Some(i) => 0 <= i < cache.len() && cache[i].sub == sub && forall|j: int|
                0 <= j < i ==> cache[j].sub != sub,
        },
    decreases cache.len(),
{
    if cache.len() > 0 && cache[0].sub != sub {
        lemma_find_sub(cache.drop_first(), sub);
        assert forall|i: int| 1 <= i < cache.len() implies cache.drop_first()[i - 1]
            == cache[i] by {}
    }
}

/// Looks the sub-configuration up in the cache, returning the index of the
/// first entry that carries it.
pub fn find_cached(cache: &Vec<CachedEntry>, sub: &Listen) -> (r: Option<usize>)
    ensures
        match r {
            None => find_sub(cache_models(cache@), sub@) is None,
            Some(i) => find_sub(cache_models(cache@), sub@) == Some(i as int),
        },
{
    let mut i: usize = 0;
    while i < cache.len()
        invariant
            0 <= i <= cache.len(),
            forall|j: int| 0 <= j < i ==> cache_models(cache@)[j].sub != sub@,
        decreases cache.len() - i,
    {
        if cache[i].sub == *sub {
            proof {
                let cm = cache_models(cache@);
                lemma_find_sub(cm, sub@);
                assert(cm[i as int].sub == sub@);
                match find_sub(cm, sub@) {
                    None => {
                        assert(cm[i as int].sub != sub@);
                    },
                    Some(k) => {
                        if k < i as int {
                            assert(cm[k].sub == sub@);
                            assert(cm[k].sub != sub@);
                        }
                        if k > i as int {
                            assert(cm[i as int].sub != sub@);
                        }
                    },
                }
            }
            return Some(i);
        }
        proof {
            assert(cache_models(cache@)[i as int].sub != sub@);
        }
        i += 1;
    }
    proof {
        lemma_find_sub(cache_models(cache@), sub@);
    }
    None
}

/// The sum of the desired instance counts of a tuple list.
pub open spec fn sum_scales(ds: Seq<DesiredModel>) -> int
    decreases ds.len(),
{
    if ds.len() == 0 {
        0
    } else {
        sum_scales(ds.drop_last()) + ds.last().scale
    }
}

/// Scales are never negative, so the sum is not either.
pub proof fn lemma_sum_scales_nonneg(ds: Seq<DesiredModel>)
    ensures
        sum_scales(ds) >= 0,
    decreases ds.len(),
{
    if ds.len() > 0 {
        lemma_sum_scales_nonneg(ds.drop_last());
    }
}

/// Extending the prefix by one tuple adds that tuple's scale to the sum.
pub proof fn lemma_sum_scales_take(ds: Seq<DesiredModel>, k: int)
    requires
        1 <= k <= ds.len(),
    ensures
        sum_scales(ds.take(k)) == sum_scales(ds.take(k - 1)) + ds[k - 1].scale,
{
    assert(ds.take(k).drop_last() =~= ds.take(k - 1));
    assert(ds.take(k).last() == ds[k - 1]);
}

/// A prefix never sums to more than the whole list.
pub proof fn lemma_sum_scales_prefix(ds: Seq<DesiredModel>, k: int)
    requires
        0 <= k <= ds.len(),
    ensures
        sum_scales(ds.take(k)) <= sum_scales(ds),
    decreases ds.len() - k,
{
    if k == ds.len() {
        assert(ds.take(k) =~= ds);
    } else {
        lemma_sum_scales_take(ds, k + 1);
        lemma_sum_scales_prefix(ds, k + 1);
    }
}

/// The identities handed to `count` fresh instances allocated from `base`.
pub open spec fn fresh_ids(base: u64, count: int) -> Seq<u64> {
    Seq::new(count as nat, |i: int| (base + i) as u64)
}

/// The install commands for `count` fresh instances of one entry.
pub open spec fn fresh_installs(
    sub: ListenModel,
    extra: ExtraConfig,
    resource: ResourceHandle,
    base: u64,
    count: int,
) -> Seq<InstallModel> {
    Seq::new(
        count as nat,
        |i: int| InstallModel { instance: (base + i) as u64, resource, extra, sub },
    )
}

/// One entry of a staged commit: the data of a future cache entry together
/// with the directions for building it out of the old cache — which old
/// entry to take over (`reuse`), how many of its leading instances survive
/// (`keep`), and how many fresh instances were staged (`fresh`, with
/// identities starting at `base`).
pub struct StagedEntry {
    pub sub: Listen,
    pub extra: ExtraConfig,
    pub resource: ResourceHandle,
    pub reuse: Option<usize>,
    pub keep: usize,
    pub fresh: usize,
    pub base: u64,
}

/// The mathematical content of a [`StagedEntry`].
#[verifier::ext_equal]
pub ghost struct StagedEntryModel {
    pub sub: ListenModel,
    pub extra: ExtraConfig,
    pub resource: ResourceHandle,
    pub reuse: Option<int>,
    pub keep: int,
    pub fresh: int,
    pub base: u64,
}

impl View for StagedEntry {
    type V = StagedEntryModel;

    open spec fn view(&self) -> StagedEntryModel {
        StagedEntryModel {
            sub: self.sub@,
            extra: self.extra,
            resource: self.resource,
            reuse: match self.reuse {
                None => None,
                Some(j) => Some(j as int),
            },
            keep: self.keep as int,
            fresh: self.fresh as int,
            base: self.base,
        }
    }
}

/// The models of the staged entries.
pub open spec fn staged_models(es: Seq<StagedEntry>) -> Seq<StagedEntryModel> {
    es.map_values(|e: StagedEntry| e@)
}

/// The reconciler's deferred commit: everything needed to turn the old cache
/// into the new one once the validation pass is known to be error-free.
///
/// `keepers` are the reconciler-side halves of the fresh handshakes, in the
/// order the matching `installs` were staged; `next_id` is the first
/// instance identity left unused.
pub struct StagedCommit {
    pub entries: Vec<StagedEntry>,
    pub installs: Vec<Install>,
    pub keepers: Vec<InstanceHandle>,
    pub next_id: u64,
}

/// What one pass of planning produces, at the level of models. The
/// validation results are the desired tuples' own, concatenated in order —
/// they alone decide the commit; builder failures are kept apart.
#[verifier::ext_equal]
pub ghost struct PlanModel {
    pub entries: Seq<StagedEntryModel>,
    pub installs: Seq<InstallModel>,
    pub keeper_ids: Seq<u64>,
    pub results: Seq<ResultModel>,
    pub build_errors: Seq<BuildFailureModel>,
    pub next_id: u64,
}

/// How many of the old entry's instances survive for one desired tuple that
/// found its sub-configuration at cache index `j`: all of them up to the
/// desired scale when the extra configuration is unchanged, none when it
/// changed (a change retires every existing instance).
pub open spec fn tuple_keep(cache: Seq<EntryModel>, d: DesiredModel, j: int) -> int {
    if cache[j].extra == d.extra {
        vstd::math::min(cache[j].instances.len() as int, d.scale as int)
    } else {
        0
    }
}

/// The plan for one desired tuple, given the outcome the builder would
/// report for it (the outcome is only consulted when the sub-configuration
/// is not cached; a cached entry is reused without building).
pub open spec fn tuple_plan(
    cache: Seq<EntryModel>,
    d: DesiredModel,
    outcome: Result<ResourceHandle, Seq<char>>,
    base: u64,
) -> PlanModel {
    match find_sub(cache, d.sub) {
        Some(j) => {
            let keep = tuple_keep(cache, d, j);
            let fresh = d.scale - keep;
            PlanModel {
                entries: seq![
                    StagedEntryModel {
                        sub: d.sub,
                        extra: d.extra,
                        resource: cache[j].resource,
                        reuse: Some(j),
                        keep,
                        fresh,
                        base,
                    },
                ],
                installs: fresh_installs(d.sub, d.extra, cache[j].resource, base, fresh),
                keeper_ids: fresh_ids(base, fresh),
                results: d.results,
                build_errors: Seq::empty(),
                next_id: (base + fresh) as u64,
            }
        },
        None => match outcome {
            Ok(resource) => PlanModel {
                entries: seq![
                    StagedEntryModel {
                        sub: d.sub,
                        extra: d.extra,
                        resource,
                        reuse: None,
                        keep: 0,
                        fresh: d.scale as int,
                        base,
                    },
                ],
                installs: fresh_installs(d.sub, d.extra, resource, base, d.scale as int),
                keeper_ids: fresh_ids(base, d.scale as int),
                results: d.results,
                build_errors: Seq::empty(),
                next_id: (base + d.scale) as u64,
            },
            Err(message) => PlanModel {
                entries: Seq::empty(),
                installs: Seq::empty(),
                keeper_ids: Seq::empty(),
                results: d.results,
                build_errors: seq![BuildFailureModel { sub: d.sub, message }],
                next_id: base,
            },
        },
    }
}

/// The combined plan of the first `k` desired tuples: entries, installs,
/// fresh identities and results are concatenated in tuple order, and the
/// identity counter is threaded through.
pub open spec fn plan_upto(
    cache: Seq<EntryModel>,
    ds: Seq<DesiredModel>,
    outcomes: Seq<Result<ResourceHandle, Seq<char>>>,
    base: u64,
    k: int,
) -> PlanModel
    decreases k,
{
    if k <= 0 {
        PlanModel {
            entries: Seq::empty(),
            installs: Seq::empty(),
            keeper_ids: Seq::empty(),
            results: Seq::empty(),
            build_errors: Seq::empty(),
            next_id: base,
        }
    } else {
        let p = plan_upto(cache, ds, outcomes, base, k - 1);
        let t = tuple_plan(cache, ds[k - 1], outcomes[k - 1], p.next_id);
        PlanModel {
            entries: p.entries + t.entries,
            installs: p.installs + t.installs,
            keeper_ids: p.keeper_ids + t.keeper_ids,
            results: p.results + t.results,
            build_errors: p.build_errors + t.build_errors,
            next_id: t.next_id,
        }
    }
}

/// The whole plan: what the reconciler stages for a desired-tuple list,
/// given the builder's outcome for each tuple.
pub open spec fn plan_model(
    cache: Seq<EntryModel>,
    ds: Seq<DesiredModel>,
    outcomes: Seq<Result<ResourceHandle, Seq<char>>>,
    base: u64,
) -> PlanModel {
    plan_upto(cache, ds, outcomes, base, ds.len() as int)
}

/// The plan of the first `k` tuples only reads the first `k` outcomes.
pub proof fn lemma_plan_upto_outcomes(
    cache: Seq<EntryModel>,
    ds: Seq<DesiredModel>,
    outs1: Seq<Result<ResourceHandle, Seq<char>>>,
    outs2: Seq<Result<ResourceHandle, Seq<char>>>,
    base: u64,
    k: int,
)
    requires
        forall|i: int| 0 <= i < k ==> outs1[i] == outs2[i],
    ensures
        plan_upto(cache, ds, outs1, base, k) == plan_upto(cache, ds, outs2, base, k),
    decreases k,
{
    if k > 0 {
        lemma_plan_upto_outcomes(cache, ds, outs1, outs2, base, k - 1);
    }
}

/// Creates `count` fresh stop handshakes for one staged entry: the keeper
/// halves go to the reconciler's list, the matching install commands to the
/// supervisor's, in the same order and with consecutive identities starting
/// at `next_id`.
fn make_fresh(
    sub: &Listen,
    extra: ExtraConfig,
    resource: ResourceHandle,
    count: usize,
    next_id: u64,
    keepers: &mut Vec<InstanceHandle>,
    installs: &mut Vec<Install>,
) -> (new_next: u64)
    requires
        next_id + count <= u64::MAX,
    ensures
        new_next == next_id + count,
        instance_ids(final(keepers)@) == instance_ids(old(keepers)@) + fresh_ids(
            next_id,
            count as int,
        ),
        install_models(final(installs)@) == install_models(old(installs)@) + fresh_installs(
            sub@,
            extra,
            resource,
            next_id,
            count as int,
        ),
{
    let mut made: usize = 0;
    let mut next = next_id;
    proof {
        assert(instance_ids(keepers@) =~= instance_ids(old(keepers)@) + fresh_ids(next_id, 0));
        assert(install_models(installs@) =~= install_models(old(installs)@) + fresh_installs(
            sub@,
            extra,
            resource,
            next_id,
            0,
        ));
    }
    while made < count
        invariant
            made <= count,
            next == next_id + made,
            next_id + count <= u64::MAX,
            instance_ids(keepers@) == instance_ids(old(keepers)@) + fresh_ids(
                next_id,
                made as int,
            ),
            install_models(installs@) == install_models(old(installs)@) + fresh_installs(
                sub@,
                extra,
                resource,
                next_id,
                made as int,
            ),
        decreases count - made,
    {
        let ghost keepers0 = keepers@;
        let ghost installs0 = installs@;
        let (req_send, req_recv) = oneshot_unit();
        let (conf_send, conf_recv) = oneshot_unit();
        keepers.push(InstanceHandle { id: next, stop_request: req_send, stop_confirm: conf_recv });
        installs.push(
            Install {
                instance: next,
                resource,
                extra,
                sub: sub.clone(),
                stop_request: req_recv,
                stop_confirm: conf_send,
            },
        );
        proof {
            assert(instance_ids(keepers@) =~= instance_ids(keepers0).push(next));
            assert(fresh_ids(next_id, made as int + 1) =~= fresh_ids(next_id, made as int).push(
                (next_id + made) as u64,
            ));
            assert(instance_ids(keepers@) =~= instance_ids(old(keepers)@) + fresh_ids(
                next_id,
                made as int + 1,
            ));
            assert(install_models(installs@) =~= install_models(installs0).push(
                InstallModel { instance: next, resource, extra, sub: sub@ },
            ));
            assert(fresh_installs(sub@, extra, resource, next_id, made as int + 1)
                =~= fresh_installs(sub@, extra, resource, next_id, made as int).push(
                InstallModel { instance: (next_id + made) as u64, resource, extra, sub: sub@ },
            ));
            assert(install_models(installs@) =~= install_models(old(installs)@) + fresh_installs(
                sub@,
                extra,
                resource,
                next_id,
                made as int + 1,
            ));
        }
        next = next + 1;
        made = made + 1;
    }
    next
}

/// The identity counter only grows along the plan, and by at most the sum
/// of the desired scales, so under the caller's bound no identity
/// arithmetic wraps around.
pub proof fn lemma_plan_next_id(
    cache: Seq<EntryModel>,
    ds: Seq<DesiredModel>,
    outcomes: Seq<Result<ResourceHandle, Seq<char>>>,
    base: u64,
    k: int,
)
    requires
        0 <= k <= ds.len(),
        base + sum_scales(ds) <= u64::MAX,
    ensures
        base <= plan_upto(cache, ds, outcomes, base, k).next_id,
        plan_upto(cache, ds, outcomes, base, k).next_id <= base + sum_scales(ds.take(k)),
    decreases k,
{
    if k == 0 {
        lemma_sum_scales_nonneg(ds.take(0));
    } else {
        lemma_plan_next_id(cache, ds, outcomes, base, k - 1);
        lemma_sum_scales_take(ds, k);
        lemma_sum_scales_prefix(ds, k);
        let p = plan_upto(cache, ds, outcomes, base, k - 1);
        let d = ds[k - 1];
        match find_sub(cache, d.sub) {
            Some(j) => {
                assert(tuple_plan(cache, d, outcomes[k - 1], p.next_id).next_id as int <= p.next_id
                    + d.scale);
            },
            None => {},
        }
    }
}

/// Plans one reconciliation pass: walks the desired tuples in order, reuses
/// cached entries whose sub-configuration is unchanged, eagerly builds the
/// missing resources through the plugin, and stages the fresh install
/// commands. A build failure turns into a reported [`BuildFailure`] scoped
/// to its one tuple; the other tuples are planned normally and the
/// validation results stay the tuples' own. Nothing is changed yet: the
/// returned staged commit is applied only if the whole validation pass
/// commits.
///
/// The returned results, failures and staged commit equal [`plan_model`] of
/// the cache, the tuples and the builder outcomes the calls actually
/// produced (returned as the ghost last component).
pub fn plan<P: ResourcePlugin>(
    cache: &Vec<CachedEntry>,
    desired: Vec<Desired>,
    plugin: &mut P,
    base: u64,
) -> (r: (
    StagedCommit,
    ValidationResults,
    Vec<BuildFailure>,
    Ghost<Seq<Result<ResourceHandle, Seq<char>>>>,
))
    requires
        base + sum_scales(desired_models(desired@)) <= u64::MAX,
    ensures
        ({
            let pm = plan_model(cache_models(cache@), desired_models(desired@), r.3@, base);
            &&& r.3@.len() == desired@.len()
            &&& staged_models(r.0.entries@) == pm.entries
            &&& install_models(r.0.installs@) == pm.installs
            &&& instance_ids(r.0.keepers@) == pm.keeper_ids
            &&& r.1@ == pm.results
            &&& failure_models(r.2@) == pm.build_errors
            &&& r.0.next_id == pm.next_id
        }),
{
    let ghost cm = cache_models(cache@);
    let ghost dsm = desired_models(desired@);
    let mut rest = desired;
    let n_desired = rest.len();
    proof {
        assert(dsm.len() == n_desired);
    }
    let mut entries: Vec<StagedEntry> = Vec::new();
    let mut installs: Vec<Install> = Vec::new();
    let mut keepers: Vec<InstanceHandle> = Vec::new();
    let mut results = ValidationResults::new();
    let mut failures: Vec<BuildFailure> = Vec::new();
    let mut next = base;
    let ghost mut outs: Seq<Result<ResourceHandle, Seq<char>>> = Seq::empty();
    let mut k: usize = 0;
    proof {
        assert(desired_models(rest@) =~= dsm.skip(0));
        assert(staged_models(entries@) =~= Seq::<StagedEntryModel>::empty());
        assert(install_models(installs@) =~= Seq::<InstallModel>::empty());
        assert(instance_ids(keepers@) =~= Seq::<u64>::empty());
        assert(failure_models(failures@) =~= Seq::<BuildFailureModel>::empty());
    }
    while rest.len() > 0
        invariant
            cm == cache_models(cache@),
            dsm.len() <= usize::MAX,
            k == outs.len(),
            k <= dsm.len(),
            rest@.len() == dsm.len() - k,
            desired_models(rest@) == dsm.skip(k as int),
            base + sum_scales(dsm) <= u64::MAX,
            ({
                let p = plan_upto(cm, dsm, outs, base, k as int);
                &&& staged_models(entries@) == p.entries
                &&& install_models(installs@) == p.installs
                &&& instance_ids(keepers@) == p.keeper_ids
                &&& results@ == p.results
                &&& failure_models(failures@) == p.build_errors
                &&& next == p.next_id
            }),
        decreases rest.len(),
    {
        let ghost rest0 = rest@;
        let d = rest.remove(0);
        proof {
            assert(desired_models(rest0)[0] == dsm.skip(k as int)[0]);
            assert(d@ == dsm[k as int]);
            assert(desired_models(rest@) =~= desired_models(rest0).drop_first());
            assert(desired_models(rest@) =~= dsm.skip(k as int + 1));
        }
        let ghost dm = d@;
        let ghost results_before = results@;
        let Desired { sub, extra, scale, results: d_results } = d;
        results.merge(d_results);
        proof {
            lemma_plan_next_id(cm, dsm, outs, base, k as int);
            lemma_sum_scales_take(dsm, k as int + 1);
            lemma_sum_scales_prefix(dsm, k as int + 1);
            lemma_sum_scales_nonneg(dsm.take(k as int));
            assert(next + dm.scale <= u64::MAX);
        }
        let found = find_cached(cache, &sub);
        let ghost outs0 = outs;
        match found {
            Some(j) => {
                proof {
                    lemma_find_sub(cm, sub@);
                }
                let e_extra = cache[j].extra;
                let e_len = cache[j].instances.len();
                let resource = cache[j].resource;
                let keep = if e_extra == extra {
                    if e_len < scale {
                        e_len
                    } else {
                        scale
                    }
                } else {
                    0
                };
                let fresh = scale - keep;
                let tuple_base = next;
                next = make_fresh(&sub, extra, resource, fresh, tuple_base, &mut keepers,
                    &mut installs);
                entries.push(
                    StagedEntry { sub, extra, resource, reuse: Some(j), keep, fresh, base: tuple_base },
                );
                proof {
                    outs = outs.push(Ok(resource));
                    assert(keep as int == tuple_keep(cm, dm, j as int));
                }
            },
            None => {
                match plugin.build(&sub) {
                    Ok(resource) => {
                        let tuple_base = next;
                        next = make_fresh(&sub, extra, resource, scale, tuple_base, &mut keepers,
                            &mut installs);
                        entries.push(
                            StagedEntry {
                                sub,
                                extra,
                                resource,
                                reuse: None,
                                keep: 0,
                                fresh: scale,
                                base: tuple_base,
                            },
                        );
                        proof {
                            outs = outs.push(Ok(resource));
                        }
                    },
                    Err(message) => {
                        let ghost msgv = message@;
                        failures.push(BuildFailure { sub, message });
                        proof {
                            outs = outs.push(Err(msgv));
                        }
                    },
                }
            },
        }
        k = k + 1;
        proof {
            lemma_plan_upto_outcomes(cm, dsm, outs0, outs, base, k as int - 1);
            let p_prev = plan_upto(cm, dsm, outs, base, k as int - 1);
            let t = tuple_plan(cm, dsm[k as int - 1], outs[k as int - 1], p_prev.next_id);
            let p = plan_upto(cm, dsm, outs, base, k as int);
            assert(p.entries == p_prev.entries + t.entries);
            assert(staged_models(entries@) =~= p.entries);
            assert(install_models(installs@) =~= p.installs);
            assert(instance_ids(keepers@) =~= p.keeper_ids);
            assert(results@ =~= p.results);
            assert(failure_models(failures@) =~= p.build_errors);
        }
    }
    proof {
        assert(k as int == dsm.len());
        assert(plan_upto(cm, dsm, outs, base, k as int) == plan_model(cm, dsm, outs, base));
    }
    (StagedCommit { entries, installs, keepers, next_id: next }, results, failures, Ghost(outs))
}

/// The desired tuples' own results, concatenated in order. A plan's
/// collected results are exactly these, whatever the builder answers.
pub open spec fn all_tuple_results(ds: Seq<DesiredModel>) -> Seq<ResultModel>
    decreases ds.len(),
{
    if ds.len() == 0 {
        Seq::empty()
    } else {
        all_tuple_results(ds.drop_last()) + ds.last().results
    }
}

/// The plan's validation results do not depend on the builder's outcomes:
/// they are the desired tuples' own results, in order. The commit decision
/// is therefore a function of the desired tuples alone.
pub proof fn lemma_plan_results(
    cache: Seq<EntryModel>,
    ds: Seq<DesiredModel>,
    outs: Seq<Result<ResourceHandle, Seq<char>>>,
    base: u64,
    k: int,
)
    requires
        0 <= k <= ds.len(),
    ensures
        plan_upto(cache, ds, outs, base, k).results == all_tuple_results(ds.take(k)),
    decreases k,
{
    if k == 0 {
        assert(plan_upto(cache, ds, outs, base, 0).results =~= all_tuple_results(ds.take(0)));
    } else {
        lemma_plan_results(cache, ds, outs, base, k - 1);
        let p0 = plan_upto(cache, ds, outs, base, k - 1);
        let t = tuple_plan(cache, ds[k - 1], outs[k - 1], p0.next_id);
        assert(ds.take(k).drop_last() =~= ds.take(k - 1));
        assert(ds.take(k).last() == ds[k - 1]);
        assert(t.results == ds[k - 1].results);
        assert(plan_upto(cache, ds, outs, base, k).results =~= all_tuple_results(ds.take(k)));
    }
}

/// One staged entry is well formed against the old cache: a reused index is
/// in range and keeps no more instances than the old entry has; a fresh
/// entry keeps none.
pub open spec fn entry_wf(cache: Seq<EntryModel>, e: StagedEntryModel) -> bool {
    &&& 0 <= e.keep
    &&& 0 <= e.fresh
    &&& match e.reuse {
        Some(j) => 0 <= j < cache.len() && e.keep <= cache[j].instances.len(),
        None => e.keep == 0,
    }
}

/// A staged commit is well formed against the old cache: every entry is,
/// and no old entry is taken over twice.
pub open spec fn staged_wf(cache: Seq<EntryModel>, entries: Seq<StagedEntryModel>) -> bool {
    &&& forall|i: int| 0 <= i < entries.len() ==> entry_wf(cache, #[trigger] entries[i])
    &&& forall|i1: int, i2: int|
        0 <= i1 < i2 < entries.len() && #[trigger] entries[i1].reuse is Some ==> entries[i1].reuse
            != #[trigger] entries[i2].reuse
}

/// How many instances of old entry `j` survive the staged commit: the
/// `keep` of the staged entry that takes `j` over, or none when `j` is not
/// taken over (its sub-configuration is no longer desired).
pub open spec fn keep_of_old(entries: Seq<StagedEntryModel>, j: int) -> int
    decreases entries.len(),
{
    if entries.len() == 0 {
        0
    } else if entries.last().reuse == Some(j) {
        entries.last().keep
    } else {
        keep_of_old(entries.drop_last(), j)
    }
}

/// The surviving count is bounded by what the old entry has.
pub proof fn lemma_keep_of_old_bound(
    cache: Seq<EntryModel>,
    entries: Seq<StagedEntryModel>,
    j: int,
)
    requires
        forall|i: int| 0 <= i < entries.len() ==> entry_wf(cache, #[trigger] entries[i]),
        0 <= j < cache.len(),
    ensures
        0 <= keep_of_old(entries, j) <= cache[j].instances.len(),
    decreases entries.len(),
{
    if entries.len() > 0 {
        if entries.last().reuse == Some(j) {
            assert(entry_wf(cache, entries[entries.len() - 1]));
        } else {
            assert(forall|i: int| 0 <= i < entries.drop_last().len() ==> entries.drop_last()[i]
                == entries[i]);
            lemma_keep_of_old_bound(cache, entries.drop_last(), j);
        }
    }
}

/// When staged entry `i` takes old entry `j` over, the surviving count of
/// `j` is exactly that entry's `keep` (no other staged entry touches `j`).
pub proof fn lemma_keep_of_old_match(entries: Seq<StagedEntryModel>, i: int, j: int)
    requires
        forall|i1: int, i2: int|
            0 <= i1 < i2 < entries.len() && #[trigger] entries[i1].reuse is Some
                ==> entries[i1].reuse != #[trigger] entries[i2].reuse,
        0 <= i < entries.len(),
        entries[i].reuse == Some(j),
    ensures
        keep_of_old(entries, j) == entries[i].keep,
    decreases entries.len(),
{
    if i == entries.len() - 1 {
        assert(entries.last().reuse == Some(j));
    } else {
        assert(entries[i].reuse is Some);
        assert(entries[i].reuse != entries[entries.len() - 1].reuse);
        assert(forall|ii: int| 0 <= ii < entries.drop_last().len() ==> entries.drop_last()[ii]
            == entries[ii]);
        lemma_keep_of_old_match(entries.drop_last(), i, j);
    }
}

/// The instances retired by the staged commit out of the first `j` old
/// entries, in old-cache order: for each old entry, the instances past its
/// surviving count, in instance order.
pub open spec fn retired_upto(
    cache: Seq<EntryModel>,
    entries: Seq<StagedEntryModel>,
    j: int,
) -> Seq<u64>
    decreases j,
{
    if j <= 0 {
        Seq::empty()
    } else {
        retired_upto(cache, entries, j - 1) + cache[j - 1].instances.skip(
            keep_of_old(entries, j - 1),
        )
    }
}

/// Everything the staged commit retires, in deterministic teardown order.
pub open spec fn retired_model(cache: Seq<EntryModel>, entries: Seq<StagedEntryModel>) -> Seq<
    u64,
> {
    retired_upto(cache, entries, cache.len() as int)
}

/// The cache entry a staged entry turns into: the surviving leading
/// instances of the old entry it takes over, followed by its fresh ones.
pub open spec fn applied_entry(cache: Seq<EntryModel>, e: StagedEntryModel) -> EntryModel {
    EntryModel {
        sub: e.sub,
        extra: e.extra,
        resource: e.resource,
        instances: (match e.reuse {
            Some(j) => cache[j].instances.take(e.keep),
            None => Seq::empty(),
        }) + fresh_ids(e.base, e.fresh),
    }
}

/// The whole cache after the staged commit is applied.
pub open spec fn applied_cache(cache: Seq<EntryModel>, entries: Seq<StagedEntryModel>) -> Seq<
    EntryModel,
> {
    Seq::new(entries.len(), |i: int| applied_entry(cache, entries[i]))
}

/// The identities of the keeper handles a staged commit carries, entry by
/// entry.
pub open spec fn planned_keeper_ids(entries: Seq<StagedEntryModel>) -> Seq<u64>
    decreases entries.len(),
{
    if entries.len() == 0 {
        Seq::empty()
    } else {
        fresh_ids(entries[0].base, entries[0].fresh) + planned_keeper_ids(entries.drop_first())
    }
}

/// Appending one staged entry appends its fresh identities.
pub proof fn lemma_planned_keeper_ids_push(entries: Seq<StagedEntryModel>, e: StagedEntryModel)
    ensures
        planned_keeper_ids(entries.push(e)) == planned_keeper_ids(entries) + fresh_ids(
            e.base,
            e.fresh,
        ),
    decreases entries.len(),
{
    if entries.len() == 0 {
        assert(entries.push(e).drop_first() =~= Seq::<StagedEntryModel>::empty());
        assert(entries.push(e)[0] == e);
        assert(planned_keeper_ids(Seq::<StagedEntryModel>::empty()) =~= Seq::<u64>::empty());
        assert(planned_keeper_ids(entries.push(e)) == fresh_ids(e.base, e.fresh)
            + planned_keeper_ids(entries.push(e).drop_first()));
        assert(planned_keeper_ids(entries.push(e)) =~= fresh_ids(e.base, e.fresh));
        assert(planned_keeper_ids(entries) + fresh_ids(e.base, e.fresh) =~= fresh_ids(
            e.base,
            e.fresh,
        ));
    } else {
        assert(entries.push(e).drop_first() =~= entries.drop_first().push(e));
        lemma_planned_keeper_ids_push(entries.drop_first(), e);
        assert(planned_keeper_ids(entries.push(e)) =~= planned_keeper_ids(entries) + fresh_ids(
            e.base,
            e.fresh,
        ));
    }
}

/// What the plan stages is well formed against the cache it was planned
/// for, provided the desired sub-configurations are pairwise distinct; the
/// staged keeper handles carry exactly the planned fresh identities; and
/// every staged entry points back to the cache entry its sub-configuration
/// is found at.
pub proof fn lemma_plan_wf(
    cache: Seq<EntryModel>,
    ds: Seq<DesiredModel>,
    outs: Seq<Result<ResourceHandle, Seq<char>>>,
    base: u64,
    k: int,
)
    requires
        0 <= k <= ds.len(),
        distinct_desired(ds),
    ensures
        ({
            let p = plan_upto(cache, ds, outs, base, k);
            &&& staged_wf(cache, p.entries)
            &&& p.keeper_ids == planned_keeper_ids(p.entries)
            &&& forall|i: int| 0 <= i < p.entries.len() ==> (#[trigger] p.entries[i]).reuse
                == find_sub(cache, p.entries[i].sub)
            &&& forall|i: int| 0 <= i < p.entries.len() ==> exists|kk: int|
                0 <= kk < k && (#[trigger] p.entries[i]).sub == ds[kk].sub
            &&& forall|i1: int, i2: int| 0 <= i1 < i2 < p.entries.len()
                ==> (#[trigger] p.entries[i1]).sub != (#[trigger] p.entries[i2]).sub
        }),
    decreases k,
{
    if k <= 0 {
        let p = plan_upto(cache, ds, outs, base, k);
        assert(p.keeper_ids =~= planned_keeper_ids(p.entries));
    } else {
        lemma_plan_wf(cache, ds, outs, base, k - 1);
        let p0 = plan_upto(cache, ds, outs, base, k - 1);
        let t = tuple_plan(cache, ds[k - 1], outs[k - 1], p0.next_id);
        let p = plan_upto(cache, ds, outs, base, k);
        lemma_find_sub(cache, ds[k - 1].sub);
        if t.entries.len() == 0 {
            assert(p.entries =~= p0.entries);
            assert(p.keeper_ids =~= p0.keeper_ids);
            assert forall|i: int| 0 <= i < p.entries.len() implies exists|kk: int|
                0 <= kk < k && (#[trigger] p.entries[i]).sub == ds[kk].sub by {
                let kk = choose|kk: int| 0 <= kk < k - 1 && p0.entries[i].sub == ds[kk].sub;
                assert(0 <= kk < k && p.entries[i].sub == ds[kk].sub);
            }
        } else {
            let e = t.entries[0];
            assert(p.entries =~= p0.entries.push(e));
            lemma_planned_keeper_ids_push(p0.entries, e);
            assert(p.keeper_ids =~= planned_keeper_ids(p.entries));
            // The new entry is well formed.
            match find_sub(cache, ds[k - 1].sub) {
                Some(j) => {
                    assert(entry_wf(cache, e));
                },
                None => {
                    assert(entry_wf(cache, e));
                },
            }
            // Its sub-configuration is that of tuple k - 1, which differs
            // from every earlier tuple's, hence from every earlier entry's.
            assert(e.sub == ds[k - 1].sub);
            assert forall|i: int| 0 <= i < p.entries.len() implies exists|kk: int|
                0 <= kk < k && (#[trigger] p.entries[i]).sub == ds[kk].sub by {
                if i < p0.entries.len() {
                    let kk = choose|kk: int| 0 <= kk < k - 1 && p0.entries[i].sub == ds[kk].sub;
                    assert(0 <= kk < k && p.entries[i].sub == ds[kk].sub);
                } else {
                    assert(p.entries[i].sub == ds[k - 1].sub);
                }
            }
            assert forall|i1: int, i2: int| 0 <= i1 < i2 < p.entries.len() implies (
            #[trigger] p.entries[i1]).sub != (#[trigger] p.entries[i2]).sub by {
                if i2 == p.entries.len() - 1 {
                    let kk = choose|kk: int| 0 <= kk < k - 1 && p0.entries[i1].sub == ds[kk].sub;
                    assert(ds[kk].sub != ds[k - 1].sub);
                }
            }
            // Two entries never take the same old entry over: each entry's
            // reuse is where its own sub-configuration is cached, and
            // distinct sub-configurations are cached at distinct indexes.
            assert forall|i1: int, i2: int|
                0 <= i1 < i2 < p.entries.len() && (#[trigger] p.entries[i1]).reuse is Some
                    implies p.entries[i1].reuse != (#[trigger] p.entries[i2]).reuse by {
                if p.entries[i2].reuse is Some {
                    let j1 = p.entries[i1].reuse->0;
                    let j2 = p.entries[i2].reuse->0;
                    if j1 == j2 {
                        lemma_find_sub(cache, p.entries[i1].sub);
                        lemma_find_sub(cache, p.entries[i2].sub);
                        assert(cache[j1].sub == p.entries[i1].sub);
                        assert(cache[j2].sub == p.entries[i2].sub);
                        assert(p.entries[i1].sub != p.entries[i2].sub);
                    }
                }
            }
        }
    }
}

/// The identities a plan hands to fresh instances are pairwise distinct and
/// lie in the allocated range, and the reconciler-side keeper handles pair
/// up one for one, in order, with the staged install commands.
pub proof fn lemma_plan_fresh_ids(
    cache: Seq<EntryModel>,
    ds: Seq<DesiredModel>,
    outs: Seq<Result<ResourceHandle, Seq<char>>>,
    base: u64,
    k: int,
)
    requires
        0 <= k <= ds.len(),
        base + sum_scales(ds) <= u64::MAX,
    ensures
        ({
            let p = plan_upto(cache, ds, outs, base, k);
            &&& p.installs.len() == p.keeper_ids.len()
            &&& forall|i: int| 0 <= i < p.keeper_ids.len() ==> base <= #[trigger] p.keeper_ids[i]
                < p.next_id
            &&& forall|i: int, j: int| 0 <= i < j < p.keeper_ids.len() ==> p.keeper_ids[i]
                != p.keeper_ids[j]
            &&& forall|i: int| 0 <= i < p.installs.len() ==> (#[trigger] p.installs[i]).instance
                == p.keeper_ids[i]
        }),
    decreases k,
{
    if k > 0 {
        lemma_plan_fresh_ids(cache, ds, outs, base, k - 1);
        lemma_plan_next_id(cache, ds, outs, base, k - 1);
        lemma_plan_next_id(cache, ds, outs, base, k);
        lemma_sum_scales_take(ds, k);
        lemma_sum_scales_prefix(ds, k);
        let p0 = plan_upto(cache, ds, outs, base, k - 1);
        let t = tuple_plan(cache, ds[k - 1], outs[k - 1], p0.next_id);
        let p = plan_upto(cache, ds, outs, base, k);
        // This tuple's fresh identities do not wrap around.
        assert(p0.next_id + t.keeper_ids.len() <= u64::MAX);
        assert forall|i: int| 0 <= i < t.keeper_ids.len() implies p0.next_id
            <= #[trigger] t.keeper_ids[i] < p.next_id by {
            assert(t.keeper_ids[i] == (p0.next_id + i) as u64);
        }
        assert forall|i: int| 0 <= i < p.keeper_ids.len() implies base
            <= #[trigger] p.keeper_ids[i] < p.next_id by {
            if i < p0.keeper_ids.len() {
                assert(p.keeper_ids[i] == p0.keeper_ids[i]);
                assert(p0.next_id <= p.next_id);
            } else {
                assert(p.keeper_ids[i] == t.keeper_ids[i - p0.keeper_ids.len()]);
            }
        }
        assert forall|i: int, j: int| 0 <= i < j < p.keeper_ids.len() implies p.keeper_ids[i]
            != p.keeper_ids[j] by {
            if j < p0.keeper_ids.len() {
            } else if i >= p0.keeper_ids.len() {
                let ii = i - p0.keeper_ids.len();
                let jj = j - p0.keeper_ids.len();
                assert(p.keeper_ids[i] == (p0.next_id + ii) as u64);
                assert(p.keeper_ids[j] == (p0.next_id + jj) as u64);
            } else {
                assert(p.keeper_ids[i] == p0.keeper_ids[i]);
                assert(p.keeper_ids[i] < p0.next_id);
                assert(p.keeper_ids[j] == t.keeper_ids[j - p0.keeper_ids.len()]);
                assert(p.keeper_ids[j] >= p0.next_id);
            }
        }
        assert forall|i: int| 0 <= i < p.installs.len() implies (#[trigger] p.installs[i]).instance
            == p.keeper_ids[i] by {
            if i < p0.installs.len() {
                assert(p.installs[i] == p0.installs[i]);
                assert(p.keeper_ids[i] == p0.keeper_ids[i]);
            } else {
                let ii = i - p0.installs.len();
                assert(p.installs[i] == t.installs[ii]);
                assert(p.keeper_ids[i] == t.keeper_ids[ii]);
            }
        }
    }
}

/// The fresh-identity ranges of the staged entries: each lies within the
/// pass's allocation, in order and without overlap.
pub proof fn lemma_plan_entry_ranges(
    cache: Seq<EntryModel>,
    ds: Seq<DesiredModel>,
    outs: Seq<Result<ResourceHandle, Seq<char>>>,
    base: u64,
    k: int,
)
    requires
        0 <= k <= ds.len(),
        base + sum_scales(ds) <= u64::MAX,
    ensures
        ({
            let p = plan_upto(cache, ds, outs, base, k);
            &&& forall|i: int| 0 <= i < p.entries.len() ==> base <= (#[trigger] p.entries[i]).base
                && p.entries[i].base + p.entries[i].fresh <= p.next_id
            &&& forall|i: int, j: int| 0 <= i < j < p.entries.len()
                ==> (#[trigger] p.entries[i]).base + p.entries[i].fresh
                <= (#[trigger] p.entries[j]).base
        }),
    decreases k,
{
    if k > 0 {
        lemma_plan_entry_ranges(cache, ds, outs, base, k - 1);
        lemma_plan_next_id(cache, ds, outs, base, k - 1);
        lemma_plan_next_id(cache, ds, outs, base, k);
        lemma_sum_scales_take(ds, k);
        lemma_sum_scales_prefix(ds, k);
        let p0 = plan_upto(cache, ds, outs, base, k - 1);
        let t = tuple_plan(cache, ds[k - 1], outs[k - 1], p0.next_id);
        let p = plan_upto(cache, ds, outs, base, k);
        assert forall|i: int| 0 <= i < p.entries.len() implies base <= (
        #[trigger] p.entries[i]).base && p.entries[i].base + p.entries[i].fresh
            <= p.next_id by {
            if i < p0.entries.len() {
                assert(p.entries[i] == p0.entries[i]);
                assert(p0.next_id <= p.next_id);
            } else {
                assert(p.entries[i] == t.entries[0]);
                assert(t.entries[0].base == p0.next_id);
            }
        }
        assert forall|i: int, j: int| 0 <= i < j < p.entries.len() implies (
        #[trigger] p.entries[i]).base + p.entries[i].fresh <= (#[trigger] p.entries[j]).base by {
            if j < p0.entries.len() {
            } else {
                assert(p.entries[j] == t.entries[0]);
                assert(p.entries[i] == p0.entries[i]);
            }
        }
    }
}

/// Every instance identity of entry `i` of the cache, position by position.
pub open spec fn entry_ids_below(cache: Seq<EntryModel>, bound: int) -> bool {
    forall|i: int, x: int|
        0 <= i < cache.len() && 0 <= x < (#[trigger] cache[i]).instances.len()
            ==> #[trigger] cache[i].instances[x] < bound
}

/// No instance identity appears twice anywhere in the cache.
pub open spec fn cache_ids_distinct(cache: Seq<EntryModel>) -> bool {
    forall|i1: int, x1: int, i2: int, x2: int|
        0 <= i1 < cache.len() && 0 <= x1 < cache[i1].instances.len() && 0 <= i2 < cache.len()
            && 0 <= x2 < cache[i2].instances.len() && (i1 != i2 || x1 != x2)
            ==> #[trigger] cache[i1].instances[x1] != #[trigger] cache[i2].instances[x2]
}

/// Identities never collide: when the old cache's instance identities are
/// pairwise distinct and below the pass's allocation base, the applied
/// cache's identities are pairwise distinct again, and all below the new
/// allocation base — surviving instances keep their old identities and
/// fresh ones draw from disjoint ranges of new ones.
pub proof fn lemma_applied_ids_distinct(
    cache: Seq<EntryModel>,
    ds: Seq<DesiredModel>,
    outs: Seq<Result<ResourceHandle, Seq<char>>>,
    base: u64,
)
    requires
        base + sum_scales(ds) <= u64::MAX,
        distinct_desired(ds),
        entry_ids_below(cache, base as int),
        cache_ids_distinct(cache),
    ensures
        ({
            let p = plan_model(cache, ds, outs, base);
            let after = applied_cache(cache, p.entries);
            &&& entry_ids_below(after, p.next_id as int)
            &&& cache_ids_distinct(after)
        }),
{
    let n = ds.len() as int;
    lemma_plan_wf(cache, ds, outs, base, n);
    lemma_plan_entry_ranges(cache, ds, outs, base, n);
    lemma_plan_next_id(cache, ds, outs, base, n);
    let p = plan_model(cache, ds, outs, base);
    let after = applied_cache(cache, p.entries);
    assert(ds.take(n) =~= ds);
    // Where each applied identity comes from: a kept position of the reused
    // old entry, or an offset in the entry's fresh range.
    assert forall|i: int, x: int| #![trigger after[i].instances[x]]
        0 <= i < after.len() && 0 <= x < after[i].instances.len() implies {
        let e = p.entries[i];
        &&& (x < e.keep ==> e.reuse is Some && after[i].instances[x]
            == cache[e.reuse->0].instances[x] && after[i].instances[x] < base)
        &&& (x >= e.keep ==> after[i].instances[x] == (e.base + (x - e.keep)) as u64 && e.base
            + (x - e.keep) < p.next_id && e.base <= e.base + (x - e.keep))
    } by {
        let e = p.entries[i];
        assert(entry_wf(cache, e));
        assert(after[i] == applied_entry(cache, e));
        if x < e.keep {
            match e.reuse {
                Some(j) => {
                    assert(after[i].instances[x] == cache[j].instances.take(e.keep)[x]);
                },
                None => {},
            }
        } else {
            assert(after[i].instances[x] == fresh_ids(e.base, e.fresh)[x - e.keep]);
        }
    }
    assert forall|i1: int, x1: int, i2: int, x2: int|
        0 <= i1 < after.len() && 0 <= x1 < after[i1].instances.len() && 0 <= i2 < after.len()
            && 0 <= x2 < after[i2].instances.len() && (i1 != i2 || x1 != x2)
            implies #[trigger] after[i1].instances[x1]
            != #[trigger] after[i2].instances[x2] by {
        let e1 = p.entries[i1];
        let e2 = p.entries[i2];
        if x1 < e1.keep && x2 < e2.keep {
            // Two survivors: from one old entry at different positions, or
            // from two different old entries.
            let j1 = e1.reuse->0;
            let j2 = e2.reuse->0;
            if i1 != i2 {
                assert(e1.reuse != e2.reuse);
                assert(j1 != j2);
            }
            assert(after[i1].instances[x1] == cache[j1].instances[x1]);
            assert(after[i2].instances[x2] == cache[j2].instances[x2]);
        } else if x1 >= e1.keep && x2 >= e2.keep {
            // Two fresh identities: distinct offsets of one range, or two
            // disjoint ranges.
            if i1 == i2 {
                assert(x1 - e1.keep != x2 - e2.keep);
            } else if i1 < i2 {
                assert(e1.base + e1.fresh <= e2.base);
            } else {
                assert(e2.base + e2.fresh <= e1.base);
            }
        } else {
            // A survivor is below the base, a fresh identity is not.
        }
    }
}

/// Old entry `j`, stripped down to its surviving instances.
pub open spec fn stripped(
    cache: Seq<EntryModel>,
    entries: Seq<StagedEntryModel>,
    j: int,
) -> EntryModel {
    EntryModel {
        sub: cache[j].sub,
        extra: cache[j].extra,
        resource: cache[j].resource,
        instances: cache[j].instances.take(keep_of_old(entries, j)),
    }
}

/// Whether one of the first `i` staged entries takes old entry `j` over.
pub open spec fn reused_before(entries: Seq<StagedEntryModel>, i: int, j: int) -> bool {
    exists|ii: int| 0 <= ii < i && (#[trigger] entries[ii]).reuse == Some(j)
}

/// Removes the first `count` handles from the front of `v`, in order.
fn take_front(v: &mut Vec<InstanceHandle>, count: usize) -> (r: Vec<InstanceHandle>)
    requires
        count <= old(v)@.len(),
    ensures
        instance_ids(r@) == instance_ids(old(v)@).take(count as int),
        instance_ids(final(v)@) == instance_ids(old(v)@).skip(count as int),
        r@.len() == count,
{
    let mut all: Vec<InstanceHandle> = Vec::new();
    core::mem::swap(v, &mut all);
    let tail = all.split_off(count);
    *v = tail;
    proof {
        assert(instance_ids(all@) =~= instance_ids(old(v)@).take(count as int));
        assert(instance_ids(v@) =~= instance_ids(old(v)@).skip(count as int));
    }
    all
}

/// Applies a staged commit to the cache. Runs only when the whole
/// validation pass committed.
///
/// The old cache is walked in order; of each old entry the surviving
/// leading instances are kept and the rest are collected for retirement, in
/// old-cache order — the deterministic teardown order. The new cache is then
/// assembled in desired order, each entry taking over its surviving
/// instances and appending the staged fresh ones. Returns the install
/// commands to hand to the supervisor and the retired instances, which the
/// caller walks through [`crate::handshake::retire`].
pub fn apply(cache: &mut Vec<CachedEntry>, staged: StagedCommit) -> (r: (
    Vec<Install>,
    Vec<InstanceHandle>,
))
    requires
        staged_wf(cache_models(old(cache)@), staged_models(staged.entries@)),
        instance_ids(staged.keepers@) == planned_keeper_ids(staged_models(staged.entries@)),
    ensures
        cache_models(final(cache)@) == applied_cache(
            cache_models(old(cache)@),
            staged_models(staged.entries@),
        ),
        r.0 == staged.installs,
        instance_ids(r.1@) == retired_model(
            cache_models(old(cache)@),
            staged_models(staged.entries@),
        ),
{
    let ghost cm0 = cache_models(old(cache)@);
    let ghost em = staged_models(staged.entries@);
    let StagedCommit { entries, installs, keepers, next_id: _ } = staged;
    let n_old = cache.len();

    // How many instances of each old entry survive.
    let mut survive: Vec<usize> = Vec::new();
    let mut j0: usize = 0;
    while j0 < n_old
        invariant
            j0 <= n_old,
            survive@.len() == j0,
            forall|j: int| 0 <= j < j0 ==> survive@[j] == 0,
        decreases n_old - j0,
    {
        survive.push(0);
        j0 += 1;
    }
    let mut m: usize = 0;
    while m < entries.len()
        invariant
            em == staged_models(entries@),
            staged_wf(cm0, em),
            n_old == cm0.len(),
            m <= entries@.len(),
            survive@.len() == n_old,
            forall|j: int| 0 <= j < n_old ==> survive@[j] == keep_of_old(em.take(m as int), j),
        decreases entries@.len() - m,
    {
        let e_reuse = entries[m].reuse;
        let e_keep = entries[m].keep;
        proof {
            assert(em[m as int] == entries@[m as int]@);
            assert(entry_wf(cm0, em[m as int]));
        }
        match e_reuse {
            Some(j) => {
                survive.set(j, e_keep);
            },
            None => {},
        }
        proof {
            assert(em.take(m as int + 1).drop_last() =~= em.take(m as int));
            assert(em.take(m as int + 1).last() == em[m as int]);
            assert forall|j: int| 0 <= j < n_old implies survive@[j] == keep_of_old(
                em.take(m as int + 1),
                j,
            ) by {
                if em[m as int].reuse == Some(j) {
                } else {
                }
            }
        }
        m += 1;
    }
    proof {
        assert(em.take(entries@.len() as int) =~= em);
    }

    // Strip the old cache, collecting the retired instances in teardown
    // order: old-cache order, instance order within one entry.
    let mut old_vec: Vec<CachedEntry> = Vec::new();
    core::mem::swap(cache, &mut old_vec);
    let mut slots: Vec<Option<CachedEntry>> = Vec::new();
    let mut retired: Vec<InstanceHandle> = Vec::new();
    let mut j: usize = 0;
    proof {
        assert(cache_models(old_vec@) =~= cm0.skip(0));
        assert(instance_ids(retired@) =~= retired_upto(cm0, em, 0));
    }
    while j < n_old
        invariant
            em == staged_models(entries@),
            staged_wf(cm0, em),
            n_old == cm0.len(),
            j <= n_old,
            cache_models(old_vec@) == cm0.skip(j as int),
            old_vec@.len() == n_old - j,
            survive@.len() == n_old,
            forall|jj: int| 0 <= jj < n_old ==> survive@[jj] == keep_of_old(em, jj),
            slots@.len() == j,
            forall|jj: int| 0 <= jj < j ==> (#[trigger] slots@[jj]) is Some && (slots@[jj]->0)@
                == stripped(cm0, em, jj),
            instance_ids(retired@) == retired_upto(cm0, em, j as int),
        decreases n_old - j,
    {
        let ghost old_vec0 = old_vec@;
        let ghost retired0 = retired@;
        let mut e = old_vec.remove(0);
        let keep = survive[j];
        proof {
            assert(old_vec0[0]@ == cm0.skip(j as int)[0]);
            assert(e@ == cm0[j as int]);
            assert(cache_models(old_vec@) =~= cache_models(old_vec0).drop_first());
            assert(cache_models(old_vec@) =~= cm0.skip(j as int + 1));
            lemma_keep_of_old_bound(cm0, em, j as int);
            assert(instance_ids(e.instances@) == cm0[j as int].instances);
        }
        let mut excess = e.instances.split_off(keep);
        proof {
            assert(instance_ids(e.instances@) =~= cm0[j as int].instances.take(keep as int));
            assert(instance_ids(excess@) =~= cm0[j as int].instances.skip(keep as int));
        }
        retired.append(&mut excess);
        slots.push(Some(e));
        proof {
            assert(instance_ids(retired@) =~= instance_ids(retired0) + cm0[j as int]
                .instances.skip(keep as int));
            assert(instance_ids(retired@) =~= retired_upto(cm0, em, j as int + 1));
            assert((slots@[j as int]->0)@ == stripped(cm0, em, j as int));
        }
        j += 1;
    }

    // Assemble the new cache in staged (desired) order.
    let mut new_cache: Vec<CachedEntry> = Vec::new();
    let mut keepers_rest = keepers;
    let mut ents = entries;
    let n_entries = ents.len();
    let mut i: usize = 0;
    proof {
        assert(em.len() == n_entries);
    }
    proof {
        assert(staged_models(ents@) =~= em.skip(0));
        assert(cache_models(new_cache@) =~= applied_cache(cm0, em).take(0));
        assert(instance_ids(keepers_rest@) =~= planned_keeper_ids(em.skip(0)));
    }
    while ents.len() > 0
        invariant
            staged_wf(cm0, em),
            n_old == cm0.len(),
            em.len() <= usize::MAX,
            i + ents@.len() == em.len(),
            i <= em.len(),
            staged_models(ents@) == em.skip(i as int),
            slots@.len() == n_old,
            forall|jj: int| 0 <= jj < n_old ==> ((#[trigger] slots@[jj]) is Some <==> !reused_before(
                em,
                i as int,
                jj,
            )),
            forall|jj: int| 0 <= jj < n_old && (#[trigger] slots@[jj]) is Some ==> (
            slots@[jj]->0)@ == stripped(cm0, em, jj),
            instance_ids(keepers_rest@) == planned_keeper_ids(em.skip(i as int)),
            cache_models(new_cache@) == applied_cache(cm0, em).take(i as int),
        decreases ents@.len(),
    {
        let ghost ents0 = ents@;
        let e = ents.remove(0);
        proof {
            assert(staged_models(ents0)[0] == em.skip(i as int)[0]);
            assert(e@ == em[i as int]);
            assert(staged_models(ents@) =~= staged_models(ents0).drop_first());
            assert(staged_models(ents@) =~= em.skip(i as int + 1));
            assert(entry_wf(cm0, em[i as int]));
            assert(em.skip(i as int).drop_first() =~= em.skip(i as int + 1));
            assert(planned_keeper_ids(em.skip(i as int)) == fresh_ids(
                em[i as int].base,
                em[i as int].fresh,
            ) + planned_keeper_ids(em.skip(i as int + 1)));
        }
        let ghost slots0 = slots@;
        let mut instances: Vec<InstanceHandle> = match e.reuse {
            Some(jr) => {
                proof {
                    if reused_before(em, i as int, jr as int) {
                        let ii = choose|ii: int|
                            0 <= ii < i as int && (#[trigger] em[ii]).reuse == Some(jr as int);
                        assert(em[ii].reuse is Some);
                        assert(em[ii].reuse != em[i as int].reuse);
                        assert(false);
                    }
                    assert(slots@[jr as int] is Some);
                }
                let slot = slots.remove(jr);
                slots.insert(jr, None);
                proof {
                    assert(slots@ =~= slots0.update(jr as int, None));
                }
                match slot {
                    Some(old_entry) => old_entry.instances,
                    None => vstd::pervasive::unreached(),
                }
            },
            None => Vec::new(),
        };
        proof {
            match em[i as int].reuse {
                Some(jr) => {
                    lemma_keep_of_old_match(em, i as int, jr);
                    assert(instance_ids(instances@) == cm0[jr].instances.take(em[i as int].keep));
                },
                None => {
                    assert(instance_ids(instances@) =~= Seq::<u64>::empty());
                },
            }
        }
        let ghost keepers_before = keepers_rest@;
        let mut fresh_part = take_front(&mut keepers_rest, e.fresh);
        proof {
            assert(instance_ids(fresh_part@) =~= fresh_ids(em[i as int].base, em[i as int].fresh));
            assert(instance_ids(keepers_rest@) =~= planned_keeper_ids(em.skip(i as int + 1)));
        }
        let ghost kept_ids = instance_ids(instances@);
        instances.append(&mut fresh_part);
        proof {
            assert(instance_ids(instances@) =~= kept_ids + fresh_ids(
                em[i as int].base,
                em[i as int].fresh,
            ));
        }
        let ghost new_cache0 = new_cache@;
        new_cache.push(CachedEntry { sub: e.sub, extra: e.extra, resource: e.resource, instances });
        proof {
            assert(new_cache@.last()@ =~= applied_entry(cm0, em[i as int]));
            assert(cache_models(new_cache@) =~= cache_models(new_cache0).push(
                new_cache@.last()@,
            ));
            assert(cache_models(new_cache@) =~= applied_cache(cm0, em).take(i as int + 1));
            assert forall|jj: int| 0 <= jj < n_old implies ((#[trigger] slots@[jj]) is Some
                <==> !reused_before(em, i as int + 1, jj)) by {
                if reused_before(em, i as int + 1, jj) {
                    let ii = choose|ii: int|
                        0 <= ii < i as int + 1 && (#[trigger] em[ii]).reuse == Some(jj);
                    if ii < i as int {
                        assert(reused_before(em, i as int, jj));
                    }
                }
                if reused_before(em, i as int, jj) {
                    let ii = choose|ii: int|
                        0 <= ii < i as int && (#[trigger] em[ii]).reuse == Some(jj);
                    assert(reused_before(em, i as int + 1, jj));
                }
            }
        }
        i += 1;
    }
    *cache = new_cache;
    proof {
        assert(i as int == em.len());
        assert(applied_cache(cm0, em).take(em.len() as int) =~= applied_cache(cm0, em));
    }
    (installs, retired)
}

/// Convergence: when a plan reports no builder failure, the cache it
/// stages matches the desired tuples exactly — same length and order, same
/// sub-configuration and extra configuration, and each entry's instance
/// count equals the desired scale. No stray or missing entries.
pub proof fn lemma_convergence(
    cache: Seq<EntryModel>,
    ds: Seq<DesiredModel>,
    outs: Seq<Result<ResourceHandle, Seq<char>>>,
    base: u64,
    k: int,
)
    requires
        0 <= k <= ds.len(),
        plan_upto(cache, ds, outs, base, k).build_errors.len() == 0,
    ensures
        ({
            let p = plan_upto(cache, ds, outs, base, k);
            &&& p.entries.len() == k
            &&& applied_cache(cache, p.entries).len() == k
            &&& forall|i: int| 0 <= i < k ==> {
                &&& (#[trigger] applied_cache(cache, p.entries)[i]).sub == ds[i].sub
                &&& applied_cache(cache, p.entries)[i].extra == ds[i].extra
                &&& applied_cache(cache, p.entries)[i].instances.len() == ds[i].scale
            }
        }),
    decreases k,
{
    if k > 0 {
        let p0 = plan_upto(cache, ds, outs, base, k - 1);
        let t = tuple_plan(cache, ds[k - 1], outs[k - 1], p0.next_id);
        let p = plan_upto(cache, ds, outs, base, k);
        assert(p0.build_errors.len() == 0 && t.build_errors.len() == 0);
        lemma_convergence(cache, ds, outs, base, k - 1);
        let d = ds[k - 1];
        match find_sub(cache, d.sub) {
            Some(j) => {
                lemma_find_sub(cache, d.sub);
                assert(t.entries.len() == 1);
                let e = t.entries[0];
                assert(0 <= e.keep <= cache[j].instances.len());
                assert(applied_entry(cache, e).instances.len() == d.scale);
            },
            None => {
                match outs[k - 1] {
                    Ok(resource) => {
                        let e = t.entries[0];
                        assert(applied_entry(cache, e).instances.len() == d.scale);
                    },
                    Err(message) => {
                        assert(t.build_errors.len() == 1);
                    },
                }
            },
        }
        assert(p.entries =~= p0.entries.push(t.entries[0]));
        assert forall|i: int| 0 <= i < k implies {
            &&& (#[trigger] applied_cache(cache, p.entries)[i]).sub == ds[i].sub
            &&& applied_cache(cache, p.entries)[i].extra == ds[i].extra
            &&& applied_cache(cache, p.entries)[i].instances.len() == ds[i].scale
        } by {
            let after0 = applied_cache(cache, p0.entries);
            if i < k - 1 {
                assert(after0[i].sub == ds[i].sub);
                assert(after0[i].extra == ds[i].extra);
                assert(after0[i].instances.len() == ds[i].scale);
                assert(p.entries[i] == p0.entries[i]);
                assert(applied_cache(cache, p.entries)[i] == after0[i]);
            }
        }
    }
}

/// Idempotence: planning against a cache that already matches the desired
/// tuples stages no installs, retires nothing, and leaves the cache equal
/// to itself.
pub proof fn lemma_idempotent(
    cache: Seq<EntryModel>,
    ds: Seq<DesiredModel>,
    outs: Seq<Result<ResourceHandle, Seq<char>>>,
    base: u64,
    k: int,
)
    requires
        0 <= k <= ds.len(),
        cache.len() == ds.len(),
        distinct_desired(ds),
        forall|i: int| 0 <= i < ds.len() ==> {
            &&& (#[trigger] cache[i]).sub == ds[i].sub
            &&& cache[i].extra == ds[i].extra
            &&& cache[i].instances.len() == ds[i].scale
        },
    ensures
        ({
            let p = plan_upto(cache, ds, outs, base, k);
            &&& p.installs == Seq::<InstallModel>::empty()
            &&& p.keeper_ids == Seq::<u64>::empty()
            &&& p.build_errors == Seq::<BuildFailureModel>::empty()
            &&& p.next_id == base
            &&& p.entries.len() == k
            &&& forall|i: int| 0 <= i < k ==> #[trigger] p.entries[i] == (StagedEntryModel {
                sub: ds[i].sub,
                extra: ds[i].extra,
                resource: cache[i].resource,
                reuse: Some(i),
                keep: ds[i].scale as int,
                fresh: 0,
                base,
            })
        }),
    decreases k,
{
    if k == 0 {
        let p = plan_upto(cache, ds, outs, base, k);
        assert(p.installs =~= Seq::<InstallModel>::empty());
        assert(p.keeper_ids =~= Seq::<u64>::empty());
        assert(p.build_errors =~= Seq::<BuildFailureModel>::empty());
    } else {
        lemma_idempotent(cache, ds, outs, base, k - 1);
        let p0 = plan_upto(cache, ds, outs, base, k - 1);
        let d = ds[k - 1];
        lemma_find_sub(cache, d.sub);
        match find_sub(cache, d.sub) {
            None => {
                assert(cache[k - 1].sub == d.sub);
                assert(false);
            },
            Some(j) => {
                // The match is the entry at the same position: earlier
                // entries carry the earlier (distinct) sub-configurations.
                if j < k - 1 {
                    assert(cache[j].sub == ds[j].sub);
                    assert(ds[j].sub != ds[k - 1].sub);
                    assert(false);
                }
                if j > k - 1 {
                    assert(cache[k - 1].sub == d.sub);
                    assert(false);
                }
                assert(j == k - 1);
                let t = tuple_plan(cache, d, outs[k - 1], p0.next_id);
                assert(tuple_keep(cache, d, j) == d.scale as int);
                assert(t.installs =~= Seq::<InstallModel>::empty());
                assert(t.keeper_ids =~= Seq::<u64>::empty());
                let p = plan_upto(cache, ds, outs, base, k);
                assert(p.installs =~= Seq::<InstallModel>::empty());
                assert(p.keeper_ids =~= Seq::<u64>::empty());
                assert(p.build_errors =~= Seq::<BuildFailureModel>::empty());
                assert(p.entries =~= p0.entries.push(t.entries[0]));
            },
        }
    }
}

/// After an idempotent plan is applied, the cache is unchanged and nothing
/// is retired.
pub proof fn lemma_idempotent_applied(
    cache: Seq<EntryModel>,
    ds: Seq<DesiredModel>,
    outs: Seq<Result<ResourceHandle, Seq<char>>>,
    base: u64,
)
    requires
        cache.len() == ds.len(),
        distinct_desired(ds),
        forall|i: int| 0 <= i < ds.len() ==> {
            &&& (#[trigger] cache[i]).sub == ds[i].sub
            &&& cache[i].extra == ds[i].extra
            &&& cache[i].instances.len() == ds[i].scale
        },
    ensures
        ({
            let p = plan_model(cache, ds, outs, base);
            &&& p.installs == Seq::<InstallModel>::empty()
            &&& applied_cache(cache, p.entries) == cache
            &&& retired_model(cache, p.entries) == Seq::<u64>::empty()
        }),
{
    lemma_idempotent(cache, ds, outs, base, ds.len() as int);
    let p = plan_model(cache, ds, outs, base);
    assert forall|i: int| 0 <= i < cache.len() implies applied_cache(cache, p.entries)[i]
        == cache[i] by {
        let e = p.entries[i];
        assert(cache[i].instances.take(cache[i].instances.len() as int) =~= cache[i].instances);
        assert(fresh_ids(base, 0) =~= Seq::<u64>::empty());
        assert(applied_entry(cache, e).instances =~= cache[i].instances);
        assert(applied_entry(cache, e) =~= cache[i]);
    }
    assert(applied_cache(cache, p.entries) =~= cache);
    assert forall|j: int| 0 <= j < cache.len() implies cache[j].instances.skip(
        keep_of_old(p.entries, j),
    ) =~= Seq::<u64>::empty() by {
        assert(p.entries[j].reuse == Some(j));
        assert(p.entries[j].reuse is Some);
        assert forall|i1: int, i2: int|
            0 <= i1 < i2 < p.entries.len() && (#[trigger] p.entries[i1]).reuse is Some
                implies p.entries[i1].reuse != (#[trigger] p.entries[i2]).reuse by {}
        lemma_keep_of_old_match(p.entries, j, j);
        assert(keep_of_old(p.entries, j) == cache[j].instances.len());
    }
    lemma_retired_empty(cache, p.entries, cache.len() as int);
}

/// When every old entry survives in full, nothing is retired.
proof fn lemma_retired_empty(cache: Seq<EntryModel>, entries: Seq<StagedEntryModel>, j: int)
    requires
        0 <= j <= cache.len(),
        forall|jj: int| 0 <= jj < cache.len() ==> (#[trigger] cache[jj]).instances.skip(
            keep_of_old(entries, jj),
        ) == Seq::<u64>::empty(),
    ensures
        retired_upto(cache, entries, j) == Seq::<u64>::empty(),
    decreases j,
{
    if j > 0 {
        lemma_retired_empty(cache, entries, j - 1);
        assert(retired_upto(cache, entries, j) =~= Seq::<u64>::empty());
    } else {
        assert(retired_upto(cache, entries, j) =~= Seq::<u64>::empty());
    }
}

/// Scaling up from an empty cache: when every build succeeds, the plan
/// issues exactly one install per desired instance — the sum of the scales.
pub proof fn lemma_scale_up_from_empty(
    ds: Seq<DesiredModel>,
    outs: Seq<Result<ResourceHandle, Seq<char>>>,
    base: u64,
    k: int,
)
    requires
        0 <= k <= ds.len(),
        forall|i: int| 0 <= i < ds.len() ==> (#[trigger] outs[i]) is Ok,
    ensures
        plan_upto(Seq::<EntryModel>::empty(), ds, outs, base, k).installs.len() == sum_scales(
            ds.take(k),
        ),
    decreases k,
{
    if k == 0 {
        assert(sum_scales(ds.take(0)) == 0);
    } else {
        lemma_scale_up_from_empty(ds, outs, base, k - 1);
        lemma_sum_scales_take(ds, k);
        let cache = Seq::<EntryModel>::empty();
        let p0 = plan_upto(cache, ds, outs, base, k - 1);
        let t = tuple_plan(cache, ds[k - 1], outs[k - 1], p0.next_id);
        assert(find_sub(cache, ds[k - 1].sub) is None);
        assert(t.installs.len() == ds[k - 1].scale);
    }
}

/// The instance identities of a whole cache, in teardown order.
pub open spec fn all_instances(cache: Seq<EntryModel>) -> Seq<u64> {
    retired_model(cache, Seq::<StagedEntryModel>::empty())
}

/// The identity `v` stands at some position of one of the first `j` cache
/// entries.
pub open spec fn id_in_cache_prefix(cache: Seq<EntryModel>, j: int, v: u64) -> bool {
    exists|e: int, x: int|
        0 <= e < j && 0 <= x < cache[e].instances.len() && v == #[trigger] cache[e].instances[x]
}

/// When no identity appears twice in the cache, none appears twice in the
/// flattened teardown order either.
pub proof fn lemma_all_instances_distinct(cache: Seq<EntryModel>, j: int)
    requires
        cache_ids_distinct(cache),
        0 <= j <= cache.len(),
    ensures
        ({
            let r = retired_upto(cache, Seq::<StagedEntryModel>::empty(), j);
            &&& forall|a: int, b: int| 0 <= a < b < r.len() ==> r[a] != r[b]
            &&& forall|a: int| 0 <= a < r.len() ==> id_in_cache_prefix(cache, j, #[trigger] r[a])
        }),
    decreases j,
{
    let none = Seq::<StagedEntryModel>::empty();
    if j > 0 {
        lemma_all_instances_distinct(cache, j - 1);
        let r0 = retired_upto(cache, none, j - 1);
        let part = cache[j - 1].instances.skip(keep_of_old(none, j - 1));
        let r = retired_upto(cache, none, j);
        assert(keep_of_old(none, j - 1) == 0);
        assert(part =~= cache[j - 1].instances);
        assert forall|a: int| 0 <= a < r.len() implies id_in_cache_prefix(
            cache,
            j,
            #[trigger] r[a],
        ) by {
            if a < r0.len() {
                assert(r[a] == r0[a]);
                assert(id_in_cache_prefix(cache, j - 1, r0[a]));
                let (e, x) = choose|e: int, x: int|
                    0 <= e < j - 1 && 0 <= x < cache[e].instances.len() && r0[a]
                        == #[trigger] cache[e].instances[x];
                assert(r[a] == cache[e].instances[x]);
            } else {
                assert(r[a] == cache[j - 1].instances[a - r0.len()]);
            }
        }
        assert forall|a: int, b: int| 0 <= a < b < r.len() implies r[a] != r[b] by {
            if b < r0.len() {
                assert(r[a] == r0[a] && r[b] == r0[b]);
            } else if a >= r0.len() {
                assert(r[a] == cache[j - 1].instances[a - r0.len()]);
                assert(r[b] == cache[j - 1].instances[b - r0.len()]);
            } else {
                assert(r[a] == r0[a]);
                assert(id_in_cache_prefix(cache, j - 1, r0[a]));
                let (e, x) = choose|e: int, x: int|
                    0 <= e < j - 1 && 0 <= x < cache[e].instances.len() && r0[a]
                        == #[trigger] cache[e].instances[x];
                assert(r[a] == cache[e].instances[x]);
                assert(r[b] == cache[j - 1].instances[b - r0.len()]);
            }
        }
    }
}

/// Tearing a group down: planning an empty desired list stages no entries
/// and no installs, and retires every running instance of the cache — each
/// one later yields exactly one stop confirm.
pub proof fn lemma_teardown_all(
    cache: Seq<EntryModel>,
    outs: Seq<Result<ResourceHandle, Seq<char>>>,
    base: u64,
)
    ensures
        ({
            let p = plan_model(cache, Seq::<DesiredModel>::empty(), outs, base);
            &&& p.entries == Seq::<StagedEntryModel>::empty()
            &&& p.installs == Seq::<InstallModel>::empty()
            &&& p.build_errors == Seq::<BuildFailureModel>::empty()
            &&& retired_model(cache, p.entries) == all_instances(cache)
            &&& applied_cache(cache, p.entries) == Seq::<EntryModel>::empty()
        }),
{
    let p = plan_model(cache, Seq::<DesiredModel>::empty(), outs, base);
    assert(p.entries =~= Seq::<StagedEntryModel>::empty());
    assert(p.installs =~= Seq::<InstallModel>::empty());
    assert(p.build_errors =~= Seq::<BuildFailureModel>::empty());
    assert(applied_cache(cache, p.entries) =~= Seq::<EntryModel>::empty());
}

} // verus!
