//! The engine: bootstrap, the reload pipeline and the two-phase commit.
//!
//! A [`Builder`] accumulates the configuration of the process — default
//! config paths, the environment prefix, hooks, signals and resource groups
//! — and builds the shared [`Spirit`] instance, running the first
//! reconciliation from scratch. Afterwards every reload runs the whole
//! validation pass first and commits the new snapshot, the new caches and
//! the staged install commands only when no collected validation result is
//! an error; a rejected pass changes nothing. Builder failures do not
//! reject a pass: each is isolated to its one resource request, which is
//! reported (with its group's name and identity) and left out of the new
//! cache while everything else reconciles normally.

use vstd::prelude::*;

use vstd::string::StrSliceExecFns;

use crate::dispatch::Dispatcher;
use crate::handshake::InstanceHandle;
use crate::model::{ConfigSnapshot, Desired, DesiredModel};
use crate::reconcile::{
    apply, cache_models, desired_models, distinct_desired, plan, plan_model, sum_scales,
    CachedEntry, Install, ResourcePlugin, StagedCommit,
};
use crate::store::{stored_snapshot, ConfigStore};
use crate::validation::{has_error, ResultModel, ValidationResult, ValidationResults};

verus! {

/// How candidate configuration files found in a directory are filtered.
#[derive(Debug)]
pub enum PathFilter {
    /// Every file is taken.
    Any,
    /// Only files with this extension are taken.
    Extension(String),
    /// The embedding's filter hook with this registration number decides.
    Custom { hook: u64 },
}

/// Whether `path` names a file with extension `ext`: it ends in a dot
/// followed by exactly `ext`, and the dot is not the first character of the
/// final path component — a name that is nothing but `.ext` is a dotfile
/// without an extension, not a file with one.
pub open spec fn has_extension(path: Seq<char>, ext: Seq<char>) -> bool {
    &&& path.len() > ext.len() + 1
    &&& path.subrange(path.len() - ext.len(), path.len() as int) == ext
    &&& path[path.len() - ext.len() - 1] == '.'
    &&& path[path.len() - ext.len() - 2] != '/'
}

/// Decides whether a path has the given extension.
pub fn path_has_extension(path: &String, ext: &String) -> (r: bool)
    ensures
        r == has_extension(path@, ext@),
{
    let plen = path.as_str().unicode_len();
    let elen = ext.as_str().unicode_len();
    if plen <= elen {
        return false;
    }
    if plen - elen < 2 {
        return false;
    }
    if path.as_str().get_char(plen - elen - 1) != '.' {
        return false;
    }
    if path.as_str().get_char(plen - elen - 2) == '/' {
        return false;
    }
    let mut i: usize = 0;
    while i < elen
        invariant
            i <= elen,
            elen < plen,
            plen == path@.len(),
            elen == ext@.len(),
            forall|j: int| 0 <= j < i ==> path@[plen - elen + j] == ext@[j],
        decreases elen - i,
    {
        if path.as_str().get_char(plen - elen + i) != ext.as_str().get_char(i) {
            proof {
                assert(path@.subrange(plen - elen, plen as int)[i as int] != ext@[i as int]);
            }
            return false;
        }
        i += 1;
    }
    proof {
        assert(path@.subrange(plen - elen, plen as int) =~= ext@);
    }
    true
}

/// What a path filter says of one candidate file.
#[derive(Clone, Copy, Debug, PartialEq, Eq, Structural)]
pub enum FilterDecision {
    /// Take the file.
    Accept,
    /// Skip the file.
    Reject,
    /// Ask the embedding's filter hook with this registration number.
    Ask { hook: u64 },
}

/// Applies a path filter to one candidate configuration file.
pub fn filter_path(filter: &PathFilter, path: &String) -> (d: FilterDecision)
    ensures
        match *filter {
            PathFilter::Any => d == FilterDecision::Accept,
            PathFilter::Extension(ref e) => d == (if has_extension(path@, e@) {
                FilterDecision::Accept
            } else {
                FilterDecision::Reject
            }),
            PathFilter::Custom { hook } => d == (FilterDecision::Ask { hook }),
        },
{
    match filter {
        PathFilter::Any => FilterDecision::Accept,
        PathFilter::Extension(e) => {
            if path_has_extension(path, e) {
                FilterDecision::Accept
            } else {
                FilterDecision::Reject
            }
        },
        PathFilter::Custom { hook } => FilterDecision::Ask { hook: *hook },
    }
}

/// One resource group: the plugin that extracts and builds its resources,
/// the cache of what currently runs, and the name used in logs.
pub struct Group<P> {
    pub plugin: P,
    pub cache: Vec<CachedEntry>,
    pub name: String,
}

/// What one reload produced: whether it committed, every collected
/// validation result, the builder failures (reported per offending resource
/// request, never blocking the commit), and — only when it committed — the
/// install commands for the supervisors, the retired instances (in
/// deterministic teardown order) and the configuration hooks to run, in
/// registration order.
pub struct ReloadReport {
    pub committed: bool,
    pub results: ValidationResults,
    pub build_failures: Vec<GroupBuildFailure>,
    pub installs: Vec<Install>,
    pub retired: Vec<InstanceHandle>,
    pub hooks: Vec<u64>,
}

/// The shared engine instance: the configuration store, the resource
/// groups, the signal dispatcher state and the hook registrations.
pub struct Spirit<P> {
    pub store: ConfigStore,
    pub groups: Vec<Group<P>>,
    pub dispatcher: Dispatcher,
    pub config_hooks: Vec<u64>,
    pub next_instance: u64,
}

impl<P: ResourcePlugin> Spirit<P> {
    /// Starts the builder. The reload signal and the terminating signals
    /// are numeric so the embedding passes its platform's values.
    pub fn new(reload_signal: i32, terminate_signals: Vec<i32>) -> (b: Builder<P>)
        ensures
            b.reload_signal == reload_signal,
            b.terminate_signals == terminate_signals,
            b.config_defaults is None,
            b.config_default_paths@ == Seq::<String>::empty(),
            b.config_env is None,
            b.config_filter is Any,
            b.config_hooks@ == Seq::<u64>::empty(),
            b.sig_hooks@ == Seq::<(i32, u64)>::empty(),
            b.terminate_hooks@ == Seq::<u64>::empty(),
            b.groups@.len() == 0,
            b.next_hook == 0,
    {
        Builder {
            config_defaults: None,
            config_default_paths: Vec::new(),
            config_env: None,
            config_filter: PathFilter::Any,
            config_hooks: Vec::new(),
            sig_hooks: Vec::new(),
            terminate_hooks: Vec::new(),
            groups: Vec::new(),
            reload_signal,
            terminate_signals,
            next_hook: 0,
        }
    }

    /// The current configuration snapshot.
    pub fn config(&self) -> (c: ConfigSnapshot)
        ensures
            c@ == stored_snapshot(self.store),
    {
        self.store.load()
    }

    /// Whether a terminating signal was handled.
    pub fn is_terminated(&self) -> (r: bool)
        ensures
            r == self.dispatcher.terminated,
    {
        self.dispatcher.is_terminated()
    }
}

/// Accumulates everything a [`Spirit`] is built from.
pub struct Builder<P> {
    pub config_defaults: Option<String>,
    pub config_default_paths: Vec<String>,
    pub config_env: Option<String>,
    pub config_filter: PathFilter,
    pub config_hooks: Vec<u64>,
    pub sig_hooks: Vec<(i32, u64)>,
    pub terminate_hooks: Vec<u64>,
    pub groups: Vec<Group<P>>,
    pub reload_signal: i32,
    pub terminate_signals: Vec<i32>,
    pub next_hook: u64,
}

impl<P: ResourcePlugin> Builder<P> {
    /// Sets the baked-in default configuration document; every other
    /// source overrides it.
    pub fn config_defaults(self, defaults: String) -> (b: Self)
        ensures
            b == (Builder { config_defaults: Some(defaults), ..self }),
    {
        Builder { config_defaults: Some(defaults), ..self }
    }

    /// Sets the configuration paths used when the command line names none.
    pub fn config_default_paths(self, paths: Vec<String>) -> (b: Self)
        ensures
            b == (Builder { config_default_paths: paths, ..self }),
    {
        Builder { config_default_paths: paths, ..self }
    }

    /// Sets the environment-variable prefix configuration is read from.
    pub fn config_env(self, env: String) -> (b: Self)
        ensures
            b == (Builder { config_env: Some(env), ..self }),
    {
        Builder { config_env: Some(env), ..self }
    }

    /// Accepts only configuration files with the given extension.
    pub fn config_ext(self, ext: String) -> (b: Self)
        ensures
            b == (Builder { config_filter: PathFilter::Extension(ext), ..self }),
    {
        Builder { config_filter: PathFilter::Extension(ext), ..self }
    }

    /// Lets the embedding's filter hook with this registration number
    /// decide which configuration files are taken.
    pub fn config_filter(self, hook: u64) -> (b: Self)
        ensures
            b == (Builder { config_filter: PathFilter::Custom { hook }, ..self }),
    {
        Builder { config_filter: PathFilter::Custom { hook }, ..self }
    }

    /// Registers the next configuration-change hook; it runs on every
    /// committed reload, in registration order.
    pub fn on_config(self) -> (b: Self)
        requires
            self.next_hook < u64::MAX,
        ensures
            b.config_hooks@ == self.config_hooks@.push(self.next_hook),
            b.next_hook == self.next_hook + 1,
            b.sig_hooks == self.sig_hooks,
            b.terminate_hooks == self.terminate_hooks,
            b.config_default_paths == self.config_default_paths,
            b.config_env == self.config_env,
            b.config_filter == self.config_filter,
            b.groups == self.groups,
            b.reload_signal == self.reload_signal,
            b.terminate_signals == self.terminate_signals,
    {
        let mut hooks = self.config_hooks;
        hooks.push(self.next_hook);
        Builder { config_hooks: hooks, next_hook: self.next_hook + 1, ..self }
    }

    /// Registers the next hook for one signal.
    pub fn on_signal(self, signal: i32) -> (b: Self)
        requires
            self.next_hook < u64::MAX,
        ensures
            b.sig_hooks@ == self.sig_hooks@.push((signal, self.next_hook)),
            b.next_hook == self.next_hook + 1,
            b.config_hooks == self.config_hooks,
            b.terminate_hooks == self.terminate_hooks,
            b.config_default_paths == self.config_default_paths,
            b.config_env == self.config_env,
            b.config_filter == self.config_filter,
            b.groups == self.groups,
            b.reload_signal == self.reload_signal,
            b.terminate_signals == self.terminate_signals,
    {
        let mut hooks = self.sig_hooks;
        hooks.push((signal, self.next_hook));
        Builder { sig_hooks: hooks, next_hook: self.next_hook + 1, ..self }
    }

    /// Registers the next termination hook; they run synchronously, in
    /// registration order, when a terminating signal is handled.
    pub fn on_terminate(self) -> (b: Self)
        requires
            self.next_hook < u64::MAX,
        ensures
            b.terminate_hooks@ == self.terminate_hooks@.push(self.next_hook),
            b.next_hook == self.next_hook + 1,
            b.config_hooks == self.config_hooks,
            b.sig_hooks == self.sig_hooks,
            b.config_default_paths == self.config_default_paths,
            b.config_env == self.config_env,
            b.config_filter == self.config_filter,
            b.groups == self.groups,
            b.reload_signal == self.reload_signal,
            b.terminate_signals == self.terminate_signals,
    {
        let mut hooks = self.terminate_hooks;
        hooks.push(self.next_hook);
        Builder { terminate_hooks: hooks, next_hook: self.next_hook + 1, ..self }
    }

    /// Adds one resource group with its plugin; its cache starts empty, so
    /// the first reconciliation installs everything from scratch.
    pub fn add_group(self, plugin: P, name: String) -> (b: Self)
        ensures
            b.groups@.len() == self.groups@.len() + 1,
            b.groups@.last().cache@ == Seq::<CachedEntry>::empty(),
            b.groups@.last().name == name,
            forall|i: int| 0 <= i < self.groups@.len() ==> b.groups@[i] == self.groups@[i],
            b.config_hooks == self.config_hooks,
            b.sig_hooks == self.sig_hooks,
            b.terminate_hooks == self.terminate_hooks,
            b.config_default_paths == self.config_default_paths,
            b.config_env == self.config_env,
            b.config_filter == self.config_filter,
            b.reload_signal == self.reload_signal,
            b.terminate_signals == self.terminate_signals,
            b.next_hook == self.next_hook,
    {
        let mut groups = self.groups;
        groups.push(Group { plugin, cache: Vec::new(), name });
        Builder { groups, ..self }
    }

    /// Builds the engine and runs the first reconciliation from scratch:
    /// every group's cache starts empty, so everything desired under the
    /// initial snapshot is installed. Fails — and nothing is kept — when
    /// that first validation pass reports an error; a builder failure is
    /// isolated to its one resource request and reported, as on any reload.
    /// The returned engine starts un-terminated.
    pub fn build(self, initial: ConfigSnapshot) -> (r: Result<
        (Spirit<P>, ReloadReport),
        ValidationResults,
    >)
        ensures
            match r {
                Ok(ok) => {
                    &&& ok.1.committed
                    &&& !has_error(ok.1.results@)
                    &&& stored_snapshot(ok.0.store) == initial@
                    &&& ok.0.config_hooks == self.config_hooks
                    &&& ok.1.hooks@ == self.config_hooks@
                    &&& ok.0.groups@.len() == self.groups@.len()
                    &&& !ok.0.dispatcher.terminated
                },
                Err(results) => has_error(results@),
            },
    {
        let Builder {
            config_defaults: _,
            config_default_paths: _,
            config_env: _,
            config_filter: _,
            config_hooks,
            sig_hooks,
            terminate_hooks,
            groups,
            reload_signal,
            terminate_signals,
            next_hook: _,
        } = self;
        let dispatcher = Dispatcher::new(reload_signal, terminate_signals, sig_hooks,
            terminate_hooks);
        let store = ConfigStore::new(ConfigSnapshot { listeners: Vec::new() });
        let mut spirit = Spirit { store, groups, dispatcher, config_hooks, next_instance: 0 };
        let report = spirit.reload(initial);
        if report.committed {
            Ok((spirit, report))
        } else {
            Err(report.results)
        }
    }

    /// The configuration paths to read: the command-line override when it
    /// names any, the registered defaults otherwise.
    pub fn config_paths(&self, cli: Vec<String>) -> (paths: Vec<String>)
        ensures
            cli@.len() > 0 ==> paths@ == cli@,
            cli@.len() == 0 ==> paths@.len() == self.config_default_paths@.len() && forall|i: int|
                0 <= i < paths@.len() ==> (#[trigger] paths@[i])@
                    == self.config_default_paths@[i]@,
    {
        if cli.len() > 0 {
            cli
        } else {
            let paths = self.config_default_paths.clone();
            proof {
                assert forall|i: int| 0 <= i < paths@.len() implies (#[trigger] paths@[i])@
                    == self.config_default_paths@[i]@ by {
                    assert(cloned::<String>(self.config_default_paths@[i], paths@[i]));
                }
            }
            paths
        }
    }
}

/// The models of each group's desired tuples.
pub open spec fn desireds_models(dss: Seq<Vec<Desired>>) -> Seq<Seq<DesiredModel>> {
    dss.map_values(|v: Vec<Desired>| desired_models(v@))
}

/// The total desired instance count over all groups.
pub open spec fn sum_all(dss: Seq<Seq<DesiredModel>>) -> int
    decreases dss.len(),
{
    if dss.len() == 0 {
        0
    } else {
        sum_scales(dss[0]) + sum_all(dss.drop_first())
    }
}

/// No group's desired count is negative, so the total is not either.
pub proof fn lemma_sum_all_nonneg(dss: Seq<Seq<DesiredModel>>)
    ensures
        sum_all(dss) >= 0,
    decreases dss.len(),
{
    if dss.len() > 0 {
        crate::reconcile::lemma_sum_scales_nonneg(dss[0]);
        lemma_sum_all_nonneg(dss.drop_first());
    }
}

/// Appending one group's tuples adds their scales to the total.
pub proof fn lemma_sum_all_push(dss: Seq<Seq<DesiredModel>>, x: Seq<DesiredModel>)
    ensures
        sum_all(dss.push(x)) == sum_all(dss) + sum_scales(x),
    decreases dss.len(),
{
    if dss.len() == 0 {
        assert(dss.push(x).drop_first() =~= Seq::<Seq<DesiredModel>>::empty());
        assert(dss.push(x)[0] == x);
        assert(sum_all(Seq::<Seq<DesiredModel>>::empty()) == 0);
    } else {
        assert(dss.push(x).drop_first() =~= dss.drop_first().push(x));
        lemma_sum_all_push(dss.drop_first(), x);
    }
}

/// The total splits at any group boundary.
pub proof fn lemma_sum_all_split(dss: Seq<Seq<DesiredModel>>, g: int)
    requires
        0 <= g <= dss.len(),
    ensures
        sum_all(dss) == sum_all(dss.take(g)) + sum_all(dss.skip(g)),
    decreases g,
{
    if g == 0 {
        assert(dss.take(0) =~= Seq::<Seq<DesiredModel>>::empty());
        assert(dss.skip(0) =~= dss);
    } else {
        lemma_sum_all_split(dss, g - 1);
        assert(dss.take(g) =~= dss.take(g - 1).push(dss[g - 1]));
        lemma_sum_all_push(dss.take(g - 1), dss[g - 1]);
        assert(dss.skip(g - 1)[0] == dss[g - 1]);
        assert(dss.skip(g - 1).drop_first() =~= dss.skip(g));
        assert(sum_all(dss.skip(g - 1)) == sum_scales(dss[g - 1]) + sum_all(dss.skip(g)));
    }
}

/// A cache matches the desired tuples exactly: same length and order, same
/// sub-configuration and extra configuration, and each entry's instance
/// count equals the desired scale.
pub open spec fn converged(
    cache: Seq<crate::reconcile::EntryModel>,
    ds: Seq<DesiredModel>,
) -> bool {
    &&& cache.len() == ds.len()
    &&& forall|i: int| 0 <= i < ds.len() ==> {
        &&& (#[trigger] cache[i]).sub == ds[i].sub
        &&& cache[i].extra == ds[i].extra
        &&& cache[i].instances.len() == ds[i].scale
    }
}

/// The cache models of every group, in order.
pub open spec fn group_caches<P>(gs: Seq<Group<P>>) -> Seq<Seq<crate::reconcile::EntryModel>> {
    gs.map_values(|g: Group<P>| cache_models(g.cache@))
}

/// The names of every group, in order.
pub open spec fn group_names<P>(gs: Seq<Group<P>>) -> Seq<Seq<char>> {
    gs.map_values(|g: Group<P>| g.name@)
}

/// One builder failure together with the name of the group it happened in:
/// everything the embedding needs to log it.
#[derive(Debug)]
pub struct GroupBuildFailure {
    pub group: String,
    pub failure: crate::reconcile::BuildFailure,
}

/// The mathematical content of a [`GroupBuildFailure`].
#[verifier::ext_equal]
pub ghost struct GroupBuildFailureModel {
    pub group: Seq<char>,
    pub sub: crate::model::ListenModel,
    pub message: Seq<char>,
}

impl View for GroupBuildFailure {
    type V = GroupBuildFailureModel;

    open spec fn view(&self) -> GroupBuildFailureModel {
        GroupBuildFailureModel {
            group: self.group@,
            sub: self.failure.sub@,
            message: self.failure.message@,
        }
    }
}

/// The models of a list of tagged builder failures.
pub open spec fn group_failure_models(fs: Seq<GroupBuildFailure>) -> Seq<GroupBuildFailureModel> {
    fs.map_values(|f: GroupBuildFailure| f@)
}

/// One group's builder failures, each tagged with the group's name.
pub open spec fn tagged_failures(
    name: Seq<char>,
    fs: Seq<crate::reconcile::BuildFailureModel>,
) -> Seq<GroupBuildFailureModel> {
    fs.map_values(
        |f: crate::reconcile::BuildFailureModel| GroupBuildFailureModel {
            group: name,
            sub: f.sub,
            message: f.message,
        },
    )
}

/// The validation results of every desired tuple over every group, in
/// order: the whole pass's results, known before any builder runs.
pub open spec fn desireds_results(dss: Seq<Seq<DesiredModel>>) -> Seq<ResultModel>
    decreases dss.len(),
{
    if dss.len() == 0 {
        Seq::empty()
    } else {
        desireds_results(dss.drop_last()) + crate::reconcile::all_tuple_results(dss.last())
    }
}

/// What one reload over extracted tuples amounts to, at the level of
/// models, given the builder outcomes of every group.
#[verifier::ext_equal]
pub ghost struct ReloadModel {
    /// Every validation result, all groups in order.
    pub results: Seq<ResultModel>,
    /// Every builder failure, tagged with its group's name, in order.
    pub build_errors: Seq<GroupBuildFailureModel>,
    /// Each group's cache after an applied commit.
    pub after: Seq<Seq<crate::reconcile::EntryModel>>,
    /// Every staged install command, all groups in order.
    pub installs: Seq<crate::reconcile::InstallModel>,
    /// Every retired instance, all groups in order.
    pub retired: Seq<u64>,
    /// The first unused instance identity afterwards.
    pub next_id: u64,
}

/// The model of reloading the first `k` groups, threading the identity
/// counter through their plans.
pub open spec fn reload_upto(
    caches: Seq<Seq<crate::reconcile::EntryModel>>,
    dss: Seq<Seq<DesiredModel>>,
    names: Seq<Seq<char>>,
    outs_list: Seq<Seq<Result<crate::reconcile::ResourceHandle, Seq<char>>>>,
    base: u64,
    k: int,
) -> ReloadModel
    decreases k,
{
    if k <= 0 {
        ReloadModel {
            results: Seq::empty(),
            build_errors: Seq::empty(),
            after: Seq::empty(),
            installs: Seq::empty(),
            retired: Seq::empty(),
            next_id: base,
        }
    } else {
        let r = reload_upto(caches, dss, names, outs_list, base, k - 1);
        let p = plan_model(caches[k - 1], dss[k - 1], outs_list[k - 1], r.next_id);
        ReloadModel {
            results: r.results + p.results,
            build_errors: r.build_errors + tagged_failures(names[k - 1], p.build_errors),
            after: r.after.push(crate::reconcile::applied_cache(caches[k - 1], p.entries)),
            installs: r.installs + p.installs,
            retired: r.retired + crate::reconcile::retired_model(caches[k - 1], p.entries),
            next_id: p.next_id,
        }
    }
}

/// The model of one whole reload over extracted tuples.
pub open spec fn reload_model(
    caches: Seq<Seq<crate::reconcile::EntryModel>>,
    dss: Seq<Seq<DesiredModel>>,
    names: Seq<Seq<char>>,
    outs_list: Seq<Seq<Result<crate::reconcile::ResourceHandle, Seq<char>>>>,
    base: u64,
) -> ReloadModel {
    reload_upto(caches, dss, names, outs_list, base, dss.len() as int)
}

/// The model of the first `k` groups only reads the first `k` outcome
/// lists.
pub proof fn lemma_reload_upto_outcomes(
    caches: Seq<Seq<crate::reconcile::EntryModel>>,
    dss: Seq<Seq<DesiredModel>>,
    names: Seq<Seq<char>>,
    outs1: Seq<Seq<Result<crate::reconcile::ResourceHandle, Seq<char>>>>,
    outs2: Seq<Seq<Result<crate::reconcile::ResourceHandle, Seq<char>>>>,
    base: u64,
    k: int,
)
    requires
        forall|i: int| 0 <= i < k ==> outs1[i] == outs2[i],
    ensures
        reload_upto(caches, dss, names, outs1, base, k) == reload_upto(caches, dss, names, outs2,
            base, k),
    decreases k,
{
    if k > 0 {
        lemma_reload_upto_outcomes(caches, dss, names, outs1, outs2, base, k - 1);
    }
}

/// A reload's validation results do not depend on the builders: they are
/// the desired tuples' own results, all groups in order.
pub proof fn lemma_reload_results(
    caches: Seq<Seq<crate::reconcile::EntryModel>>,
    dss: Seq<Seq<DesiredModel>>,
    names: Seq<Seq<char>>,
    outs_list: Seq<Seq<Result<crate::reconcile::ResourceHandle, Seq<char>>>>,
    base: u64,
    k: int,
)
    requires
        0 <= k <= dss.len(),
    ensures
        reload_upto(caches, dss, names, outs_list, base, k).results == desireds_results(
            dss.take(k),
        ),
    decreases k,
{
    if k == 0 {
        assert(reload_upto(caches, dss, names, outs_list, base, 0).results =~= desireds_results(
            dss.take(0),
        ));
    } else {
        lemma_reload_results(caches, dss, names, outs_list, base, k - 1);
        let r = reload_upto(caches, dss, names, outs_list, base, k - 1);
        crate::reconcile::lemma_plan_results(caches[k - 1], dss[k - 1], outs_list[k - 1],
            r.next_id, dss[k - 1].len() as int);
        assert(dss[k - 1].take(dss[k - 1].len() as int) =~= dss[k - 1]);
        assert(dss.take(k).drop_last() =~= dss.take(k - 1));
        assert(dss.take(k).last() == dss[k - 1]);
        assert(reload_upto(caches, dss, names, outs_list, base, k).results =~= desireds_results(
            dss.take(k),
        ));
    }
}

/// When the whole reload reports no builder failure, no single group's
/// plan had one.
pub proof fn lemma_no_build_errors(
    caches: Seq<Seq<crate::reconcile::EntryModel>>,
    dss: Seq<Seq<DesiredModel>>,
    names: Seq<Seq<char>>,
    outs_list: Seq<Seq<Result<crate::reconcile::ResourceHandle, Seq<char>>>>,
    base: u64,
    k: int,
)
    requires
        reload_upto(caches, dss, names, outs_list, base, k).build_errors.len() == 0,
    ensures
        forall|g: int| 0 <= g < k ==> (#[trigger] plan_model(
            caches[g],
            dss[g],
            outs_list[g],
            reload_upto(caches, dss, names, outs_list, base, g).next_id,
        )).build_errors.len() == 0,
    decreases k,
{
    if k > 0 {
        let r0 = reload_upto(caches, dss, names, outs_list, base, k - 1);
        let p = plan_model(caches[k - 1], dss[k - 1], outs_list[k - 1], r0.next_id);
        assert(r0.build_errors.len() == 0 && tagged_failures(names[k - 1],
            p.build_errors).len() == 0);
        lemma_no_build_errors(caches, dss, names, outs_list, base, k - 1);
    }
}

/// At most one cache entry per distinct sub-configuration: a cache that
/// converged to a desired list with pairwise-distinct identities has
/// pairwise-distinct identities itself. Every committed reload leaves the
/// caches converged and every rejected one leaves them untouched, so this
/// holds of the cache at rest.
pub proof fn lemma_converged_distinct(
    cache: Seq<crate::reconcile::EntryModel>,
    ds: Seq<DesiredModel>,
)
    requires
        converged(cache, ds),
        distinct_desired(ds),
    ensures
        crate::reconcile::distinct_subs(cache),
{
    assert forall|i: int, j: int| 0 <= i < j < cache.len() implies cache[i].sub
        != cache[j].sub by {
        assert(cache[i].sub == ds[i].sub);
        assert(cache[j].sub == ds[j].sub);
    }
}

/// Removing a whole group leaks nothing: planning an empty desired list
/// stages no installs and retires every running instance of the group's
/// cache, and stop-requesting each retired instance, in order, yields
/// exactly one stop confirm per instance.
pub proof fn lemma_group_removal_confirms(
    cache: Seq<crate::reconcile::EntryModel>,
    outs: Seq<Result<crate::reconcile::ResourceHandle, Seq<char>>>,
    base: u64,
)
    requires
        crate::reconcile::cache_ids_distinct(cache),
    ensures
        ({
            let p = plan_model(cache, Seq::<DesiredModel>::empty(), outs, base);
            let retired = crate::reconcile::retired_model(cache, p.entries);
            &&& p.installs == Seq::<crate::reconcile::InstallModel>::empty()
            &&& retired == crate::reconcile::all_instances(cache)
            &&& crate::supervisor::confirm_count(
                crate::supervisor::run_actions(
                    retired,
                    crate::supervisor::stop_all_events(retired),
                ),
            ) == retired.len()
        }),
{
    crate::reconcile::lemma_teardown_all(cache, outs, base);
    crate::reconcile::lemma_all_instances_distinct(cache, cache.len() as int);
    crate::supervisor::lemma_stop_all(crate::reconcile::all_instances(cache));
}

/// Whether the desired tuples of one group are pairwise distinct in their
/// sub-configurations.
pub fn check_distinct(ds: &Vec<Desired>) -> (r: bool)
    ensures
        r == distinct_desired(desired_models(ds@)),
{
    let mut i: usize = 0;
    while i < ds.len()
        invariant
            i <= ds@.len(),
            forall|a: int, b: int| 0 <= a < b < ds@.len() && a < i ==> desired_models(ds@)[a].sub
                != desired_models(ds@)[b].sub,
        decreases ds@.len() - i,
    {
        let mut j: usize = i + 1;
        while j < ds.len()
            invariant
                i < j <= ds@.len(),
                i < ds@.len(),
                forall|a: int, b: int| 0 <= a < b < ds@.len() && a < i ==> desired_models(
                    ds@,
                )[a].sub != desired_models(ds@)[b].sub,
                forall|b: int| i < b < j ==> desired_models(ds@)[i as int].sub != desired_models(
                    ds@,
                )[b].sub,
            decreases ds@.len() - j,
        {
            if ds[i].sub == ds[j].sub {
                proof {
                    assert(desired_models(ds@)[i as int].sub == desired_models(ds@)[j as int].sub);
                }
                return false;
            }
            proof {
                assert(desired_models(ds@)[i as int].sub != desired_models(ds@)[j as int].sub);
            }
            j += 1;
        }
        i += 1;
    }
    true
}

/// The total desired instance count over all groups: the exact sum when it
/// fits the identity space, and nothing when it does not.
fn total_scale(desireds: &Vec<Vec<Desired>>) -> (r: Option<u64>)
    ensures
        match r {
            Some(t) => t as int == sum_all(desireds_models(desireds@)),
            None => sum_all(desireds_models(desireds@)) > u64::MAX,
        },
{
    let ghost dssm = desireds_models(desireds@);
    let mut acc: u64 = 0;
    let mut g: usize = 0;
    proof {
        assert(dssm.take(0) =~= Seq::<Seq<DesiredModel>>::empty());
    }
    while g < desireds.len()
        invariant
            g <= desireds@.len(),
            dssm == desireds_models(desireds@),
            acc as int == sum_all(dssm.take(g as int)),
        decreases desireds@.len() - g,
    {
        let ds = &desireds[g];
        let ghost dsm = dssm[g as int];
        let mut t: usize = 0;
        proof {
            assert(dsm.take(0) =~= Seq::<DesiredModel>::empty());
        }
        while t < ds.len()
            invariant
                t <= ds@.len(),
                dssm == desireds_models(desireds@),
                (g as int) < dssm.len(),
                dsm == desired_models(ds@),
                dsm == dssm[g as int],
                acc as int == sum_all(dssm.take(g as int)) + sum_scales(dsm.take(t as int)),
            decreases ds@.len() - t,
        {
            let s = ds[t].scale as u64;
            if s > u64::MAX - acc {
                proof {
                    lemma_sum_all_split(dssm, g as int);
                    assert(dssm.skip(g as int)[0] == dsm);
                    assert(dssm.skip(g as int).drop_first() =~= dssm.skip(g as int + 1));
                    assert(sum_all(dssm.skip(g as int)) == sum_scales(dsm) + sum_all(
                        dssm.skip(g as int + 1),
                    ));
                    lemma_sum_all_nonneg(dssm.skip(g as int + 1));
                    crate::reconcile::lemma_sum_scales_take(dsm, t as int + 1);
                    crate::reconcile::lemma_sum_scales_prefix(dsm, t as int + 1);
                }
                return None;
            }
            acc = acc + s;
            proof {
                crate::reconcile::lemma_sum_scales_take(dsm, t as int + 1);
            }
            t += 1;
        }
        proof {
            assert(dsm.take(dsm.len() as int) =~= dsm);
            lemma_sum_all_push(dssm.take(g as int), dsm);
            assert(dssm.take(g as int + 1) =~= dssm.take(g as int).push(dsm));
        }
        g += 1;
    }
    proof {
        assert(dssm.take(dssm.len() as int) =~= dssm);
    }
    Some(acc)
}

/// Copies a list of hook numbers.
fn copy_ids(ids: &Vec<u64>) -> (r: Vec<u64>)
    ensures
        r@ == ids@,
{
    let mut r: Vec<u64> = Vec::new();
    let mut i: usize = 0;
    while i < ids.len()
        invariant
            i <= ids@.len(),
            r@ == ids@.take(i as int),
        decreases ids@.len() - i,
    {
        r.push(ids[i]);
        proof {
            assert(r@ =~= ids@.take(i as int + 1));
        }
        i += 1;
    }
    proof {
        assert(ids@.take(ids@.len() as int) =~= ids@);
    }
    r
}

/// Moves one group's builder failures into the combined list, each tagged
/// with the group's name.
fn tag_failures(
    name: &String,
    failures: Vec<crate::reconcile::BuildFailure>,
    out: &mut Vec<GroupBuildFailure>,
)
    ensures
        group_failure_models(final(out)@) == group_failure_models(old(out)@) + tagged_failures(
            name@,
            crate::reconcile::failure_models(failures@),
        ),
{
    let ghost fsm = crate::reconcile::failure_models(failures@);
    let mut rest = failures;
    let mut k: usize = 0;
    let n = rest.len();
    proof {
        assert(fsm.len() == n);
        assert(group_failure_models(out@) =~= group_failure_models(old(out)@) + tagged_failures(
            name@,
            fsm.take(0),
        ));
    }
    while rest.len() > 0
        invariant
            k + rest@.len() == fsm.len(),
            fsm.len() <= usize::MAX,
            crate::reconcile::failure_models(rest@) == fsm.skip(k as int),
            group_failure_models(out@) == group_failure_models(old(out)@) + tagged_failures(
                name@,
                fsm.take(k as int),
            ),
        decreases rest@.len(),
    {
        let ghost rest0 = rest@;
        let f = rest.remove(0);
        proof {
            assert(crate::reconcile::failure_models(rest0)[0] == fsm.skip(k as int)[0]);
            assert(f@ == fsm[k as int]);
            assert(crate::reconcile::failure_models(rest@) =~= crate::reconcile::failure_models(
                rest0,
            ).drop_first());
            assert(crate::reconcile::failure_models(rest@) =~= fsm.skip(k as int + 1));
        }
        let ghost out0 = out@;
        let tagged = GroupBuildFailure { group: name.clone(), failure: f };
        proof {
            assert(tagged@ == (GroupBuildFailureModel {
                group: name@,
                sub: fsm[k as int].sub,
                message: fsm[k as int].message,
            }));
        }
        out.push(tagged);
        proof {
            assert(group_failure_models(out0).len() == out0.len());
            assert(out@ == out0.push(tagged));
            assert forall|x: int| 0 <= x < out@.len() implies group_failure_models(out@)[x] == (
            group_failure_models(old(out)@) + tagged_failures(name@, fsm.take(k as int + 1)))[x]
                by {
                assert(group_failure_models(out@)[x] == out@[x]@);
                if x < out0.len() {
                    assert(out@[x] == out0[x]);
                    assert(group_failure_models(out0)[x] == out0[x]@);
                    if x >= group_failure_models(old(out)@).len() {
                        let y = x - group_failure_models(old(out)@).len();
                        assert(tagged_failures(name@, fsm.take(k as int))[y] == tagged_failures(
                            name@,
                            fsm.take(k as int + 1),
                        )[y]);
                    }
                } else {
                    assert(out@[x] == tagged);
                    assert(tagged_failures(name@, fsm.take(k as int + 1))[k as int]
                        == tagged@);
                }
            }
            assert(group_failure_models(out@) =~= group_failure_models(old(out)@)
                + tagged_failures(name@, fsm.take(k as int + 1)));
        }
        k += 1;
    }
    proof {
        assert(fsm.take(fsm.len() as int) =~= fsm);
    }
}

/// The model's `after` lists every planned group's applied cache, in order.
pub proof fn lemma_reload_after_len(
    caches: Seq<Seq<crate::reconcile::EntryModel>>,
    dss: Seq<Seq<DesiredModel>>,
    names: Seq<Seq<char>>,
    outs_list: Seq<Seq<Result<crate::reconcile::ResourceHandle, Seq<char>>>>,
    base: u64,
    k: int,
)
    requires
        k >= 0,
    ensures
        reload_upto(caches, dss, names, outs_list, base, k).after.len() == k,
    decreases k,
{
    if k > 0 {
        lemma_reload_after_len(caches, dss, names, outs_list, base, k - 1);
    }
}

/// What stands at place `g` of the model's `after`: group `g`'s cache with
/// its plan applied.
pub proof fn lemma_reload_after(
    caches: Seq<Seq<crate::reconcile::EntryModel>>,
    dss: Seq<Seq<DesiredModel>>,
    names: Seq<Seq<char>>,
    outs_list: Seq<Seq<Result<crate::reconcile::ResourceHandle, Seq<char>>>>,
    base: u64,
    k: int,
    g: int,
)
    requires
        0 <= g < k,
    ensures
        reload_upto(caches, dss, names, outs_list, base, k).after.len() == k,
        reload_upto(caches, dss, names, outs_list, base, k).after[g]
            == crate::reconcile::applied_cache(
            caches[g],
            plan_model(
                caches[g],
                dss[g],
                outs_list[g],
                reload_upto(caches, dss, names, outs_list, base, g).next_id,
            ).entries,
        ),
    decreases k,
{
    lemma_reload_after_len(caches, dss, names, outs_list, base, k);
    if g == k - 1 {
        lemma_reload_after_len(caches, dss, names, outs_list, base, k - 1);
    } else {
        lemma_reload_after(caches, dss, names, outs_list, base, k - 1, g);
    }
}

impl<P: ResourcePlugin> Spirit<P> {
    /// A rejected reload carrying one error result; nothing was changed.
    fn rejected(message: &str) -> (report: ReloadReport)
        ensures
            !report.committed,
            has_error(report.results@),
            report.committed == !has_error(report.results@),
            report.build_failures@.len() == 0,
            report.installs@.len() == 0,
            report.retired@.len() == 0,
            report.hooks@.len() == 0,
    {
        let results = ValidationResults::single(
            ValidationResult::error(message.to_string()),
        );
        proof {
            assert(results@[0].severity == crate::validation::Severity::Error);
        }
        ReloadReport {
            committed: false,
            results,
            build_failures: Vec::new(),
            installs: Vec::new(),
            retired: Vec::new(),
            hooks: Vec::new(),
        }
    }

    /// One reload over already-extracted desired tuples, one list per
    /// group. The whole validation pass runs first: every group is planned
    /// and the missing resources are eagerly built. The pass commits exactly
    /// when no collected validation result is an error — and the collected
    /// results are the desired tuples' own, so the commit decision does not
    /// depend on the builders. A builder failure is reported per offending
    /// resource request and that request is simply absent from the new
    /// cache; the other requests reconcile normally (partial-failure
    /// isolation). On commit the new snapshot, the new caches and the
    /// staged installs apply together, atomically from any observer's view;
    /// a rejected pass changes nothing at all.
    ///
    /// Beside the report, returns the builders' outcomes (ghost): the
    /// report and the final state equal [`reload_model`] of the old caches,
    /// the desired tuples and exactly those outcomes.
    pub fn reload_extracted(&mut self, new: ConfigSnapshot, desireds: Vec<Vec<Desired>>) -> (r: (
        ReloadReport,
        Ghost<Seq<Seq<Result<crate::reconcile::ResourceHandle, Seq<char>>>>>,
    ))
        requires
            desireds@.len() == old(self).groups@.len(),
            old(self).next_instance + sum_all(desireds_models(desireds@)) <= u64::MAX,
            forall|g: int| 0 <= g < desireds@.len() ==> distinct_desired(
                desired_models((#[trigger] desireds@[g])@),
            ),
        ensures
            ({
                let rm = reload_model(
                    group_caches(old(self).groups@),
                    desireds_models(desireds@),
                    group_names(old(self).groups@),
                    r.1@,
                    old(self).next_instance,
                );
                &&& r.1@.len() == old(self).groups@.len()
                &&& r.0.results@ == rm.results
                &&& group_failure_models(r.0.build_failures@) == rm.build_errors
                &&& r.0.committed ==> {
                    &&& forall|g: int| 0 <= g < old(self).groups@.len() ==> cache_models(
                        (#[trigger] final(self).groups@[g]).cache@,
                    ) == rm.after[g]
                    &&& crate::reconcile::install_models(r.0.installs@) == rm.installs
                    &&& crate::reconcile::instance_ids(r.0.retired@) == rm.retired
                    &&& final(self).next_instance == rm.next_id
                }
            }),
            // The commit decision is a function of the desired tuples alone.
            r.0.results@ == desireds_results(desireds_models(desireds@)),
            r.0.committed == !has_error(r.0.results@),
            final(self).groups@.len() == old(self).groups@.len(),
            final(self).config_hooks == old(self).config_hooks,
            final(self).dispatcher == old(self).dispatcher,
            !r.0.committed ==> {
                &&& stored_snapshot(final(self).store) == stored_snapshot(old(self).store)
                &&& final(self).next_instance == old(self).next_instance
                &&& forall|g: int| 0 <= g < old(self).groups@.len() ==> cache_models(
                    (#[trigger] final(self).groups@[g]).cache@,
                ) == cache_models(old(self).groups@[g].cache@)
                &&& r.0.installs@.len() == 0
                &&& r.0.retired@.len() == 0
                &&& r.0.hooks@.len() == 0
            },
            r.0.committed ==> {
                &&& stored_snapshot(final(self).store) == new@
                &&& r.0.hooks@ == old(self).config_hooks@
            },
            // Convergence: a committed pass whose builders all succeeded
            // leaves every cache matching its desired tuples exactly.
            r.0.committed && r.0.build_failures@.len() == 0 ==> forall|g: int|
                0 <= g < old(self).groups@.len() ==> converged(
                    cache_models((#[trigger] final(self).groups@[g]).cache@),
                    desired_models(desireds@[g]@),
                ),
    {
        let ghost base0 = self.next_instance;
        let ghost caches0 = group_caches(self.groups@);
        let ghost names0 = group_names(self.groups@);
        let ghost dssm = desireds_models(desireds@);
        let ghost n_groups = self.groups@.len();

        // Validation phase: plan every group; nothing is changed yet.
        let mut all_results = ValidationResults::new();
        let mut all_failures: Vec<GroupBuildFailure> = Vec::new();
        let mut staged_list: Vec<StagedCommit> = Vec::new();
        let mut id = self.next_instance;
        let ng = self.groups.len();
        proof {
            assert(n_groups == ng);
        }
        let mut pending: Vec<Group<P>> = Vec::new();
        core::mem::swap(&mut self.groups, &mut pending);
        let mut done: Vec<Group<P>> = Vec::new();
        let mut rest = desireds;
        let ghost mut outs_list: Seq<Seq<Result<crate::reconcile::ResourceHandle, Seq<char>>>> =
            Seq::empty();
        proof {
            let r0 = reload_upto(caches0, dssm, names0, outs_list, base0, 0);
            assert(all_results@ =~= r0.results);
            assert(group_failure_models(all_failures@) =~= r0.build_errors);
            assert(dssm.skip(0) =~= dssm);
        }
        while pending.len() > 0
            invariant
                n_groups == caches0.len(),
                n_groups == dssm.len(),
                n_groups == names0.len(),
                n_groups <= usize::MAX,
                base0 + sum_all(dssm) <= u64::MAX,
                done@.len() + pending@.len() == n_groups,
                rest@.len() == pending@.len(),
                staged_list@.len() == done@.len(),
                outs_list.len() == done@.len(),
                forall|g: int| 0 <= g < rest@.len() ==> desired_models((#[trigger] rest@[g])@)
                    == dssm[done@.len() + g],
                forall|g: int| 0 <= g < pending@.len() ==> cache_models(
                    (#[trigger] pending@[g]).cache@,
                ) == caches0[done@.len() + g],
                forall|g: int| 0 <= g < pending@.len() ==> (#[trigger] pending@[g]).name@
                    == names0[done@.len() + g],
                forall|g: int| 0 <= g < done@.len() ==> cache_models(
                    (#[trigger] done@[g]).cache@,
                ) == caches0[g],
                forall|g: int| 0 <= g < done@.len() ==> ({
                    let p = plan_model(
                        caches0[g],
                        dssm[g],
                        outs_list[g],
                        reload_upto(caches0, dssm, names0, outs_list, base0, g).next_id,
                    );
                    &&& crate::reconcile::staged_models(
                        (#[trigger] staged_list@[g]).entries@,
                    ) == p.entries
                    &&& crate::reconcile::instance_ids(staged_list@[g].keepers@) == p.keeper_ids
                    &&& crate::reconcile::install_models(staged_list@[g].installs@) == p.installs
                }),
                all_results@ == reload_upto(
                    caches0,
                    dssm,
                    names0,
                    outs_list,
                    base0,
                    done@.len() as int,
                ).results,
                group_failure_models(all_failures@) == reload_upto(
                    caches0,
                    dssm,
                    names0,
                    outs_list,
                    base0,
                    done@.len() as int,
                ).build_errors,
                id == reload_upto(
                    caches0,
                    dssm,
                    names0,
                    outs_list,
                    base0,
                    done@.len() as int,
                ).next_id,
                id as int + sum_all(dssm.skip(done@.len() as int)) <= u64::MAX,
            decreases pending@.len(),
        {
            let ghost gi = done@.len() as int;
            let ghost rest0 = rest@;
            let ghost pending0 = pending@;
            let ghost outs0 = outs_list;
            let mut g = pending.remove(0);
            let ds = rest.remove(0);
            let ghost dsm_g = desired_models(ds@);
            proof {
                assert(dsm_g == dssm[gi]);
                assert(cache_models(g.cache@) == caches0[gi]);
                assert(g.name@ == names0[gi]);
                assert forall|x: int| 0 <= x < rest@.len() implies desired_models(
                    (#[trigger] rest@[x])@,
                ) == dssm[gi + 1 + x] by {
                    assert(rest@[x] == rest0[x + 1]);
                }
                assert forall|x: int| 0 <= x < pending@.len() implies cache_models(
                    (#[trigger] pending@[x]).cache@,
                ) == caches0[gi + 1 + x] by {
                    assert(pending@[x] == pending0[x + 1]);
                }
                assert forall|x: int| 0 <= x < pending@.len() implies (
                #[trigger] pending@[x]).name@ == names0[gi + 1 + x] by {
                    assert(pending@[x] == pending0[x + 1]);
                }
                // The identity budget of this group.
                assert(dssm.skip(gi)[0] == dssm[gi]);
                assert(dssm.skip(gi).drop_first() =~= dssm.skip(gi + 1));
                assert(sum_all(dssm.skip(gi)) == sum_scales(dssm[gi]) + sum_all(
                    dssm.skip(gi + 1),
                ));
                lemma_sum_all_nonneg(dssm.skip(gi + 1));
                crate::reconcile::lemma_sum_scales_nonneg(dssm[gi]);
            }
            let ghost id0 = id;
            let (staged, results, failures, outs_g) = plan(&g.cache, ds, &mut g.plugin, id);
            id = staged.next_id;
            let ghost staged_entries = crate::reconcile::staged_models(staged.entries@);
            let ghost staged_kids = crate::reconcile::instance_ids(staged.keepers@);
            all_results.merge(results);
            tag_failures(&g.name, failures, &mut all_failures);
            proof {
                outs_list = outs_list.push(outs_g@);
                lemma_reload_upto_outcomes(caches0, dssm, names0, outs0, outs_list, base0, gi);
                let rprev = reload_upto(caches0, dssm, names0, outs_list, base0, gi);
                assert(outs_list[gi] == outs_g@);
                assert(rprev.next_id == id0);
                let p = plan_model(caches0[gi], dssm[gi], outs_list[gi], rprev.next_id);
                let rnow = reload_upto(caches0, dssm, names0, outs_list, base0, gi + 1);
                assert(all_results@ =~= rnow.results);
                assert(group_failure_models(all_failures@) =~= rnow.build_errors);
                assert forall|x: int| 0 <= x < gi implies ({
                    let px = plan_model(
                        caches0[x],
                        dssm[x],
                        outs_list[x],
                        reload_upto(caches0, dssm, names0, outs_list, base0, x).next_id,
                    );
                    &&& crate::reconcile::staged_models(
                        (#[trigger] staged_list@[x]).entries@,
                    ) == px.entries
                    &&& crate::reconcile::instance_ids(staged_list@[x].keepers@) == px.keeper_ids
                    &&& crate::reconcile::install_models(staged_list@[x].installs@) == px.installs
                }) by {
                    lemma_reload_upto_outcomes(caches0, dssm, names0, outs0, outs_list, base0,
                        x + 1);
                    lemma_reload_upto_outcomes(caches0, dssm, names0, outs0, outs_list, base0, x);
                    assert(outs_list[x] == outs0[x]);
                }
                crate::reconcile::lemma_plan_next_id(caches0[gi], dssm[gi], outs_g@, id0,
                    dssm[gi].len() as int);
                assert(dssm[gi].take(dssm[gi].len() as int) =~= dssm[gi]);
            }
            staged_list.push(staged);
            done.push(g);
        }
        self.groups = done;
        proof {
            assert(dssm.skip(n_groups as int) =~= Seq::<Seq<DesiredModel>>::empty());
            lemma_reload_results(caches0, dssm, names0, outs_list, base0, n_groups as int);
            assert(dssm.take(n_groups as int) =~= dssm);
        }

        // Commit phase: a pass whose collected validation results carry an
        // error changes nothing; otherwise everything applies together.
        // Builder failures are reported, not part of the decision.
        let committed = all_results.committable();
        if committed {
            self.store.store(new);
            self.next_instance = id;
            let mut installs: Vec<Install> = Vec::new();
            let mut retired: Vec<InstanceHandle> = Vec::new();
            let mut pending2: Vec<Group<P>> = Vec::new();
            core::mem::swap(&mut self.groups, &mut pending2);
            let mut done2: Vec<Group<P>> = Vec::new();
            let mut staged_rest = staged_list;
            proof {
                let r0 = reload_upto(caches0, dssm, names0, outs_list, base0, 0);
                assert(crate::reconcile::install_models(installs@) =~= r0.installs);
                assert(crate::reconcile::instance_ids(retired@) =~= r0.retired);
            }
            while pending2.len() > 0
                invariant
                    n_groups == caches0.len(),
                    n_groups == dssm.len(),
                    n_groups == names0.len(),
                    outs_list.len() == n_groups,
                    done2@.len() + pending2@.len() == n_groups,
                    staged_rest@.len() == pending2@.len(),
                    forall|g: int| 0 <= g < n_groups ==> distinct_desired(#[trigger] dssm[g]),
                    forall|g: int| 0 <= g < pending2@.len() ==> cache_models(
                        (#[trigger] pending2@[g]).cache@,
                    ) == caches0[done2@.len() + g],
                    forall|g: int| 0 <= g < staged_rest@.len() ==> ({
                        let p = plan_model(
                            caches0[done2@.len() + g],
                            dssm[done2@.len() + g],
                            outs_list[done2@.len() + g],
                            reload_upto(
                                caches0,
                                dssm,
                                names0,
                                outs_list,
                                base0,
                                done2@.len() + g,
                            ).next_id,
                        );
                        &&& crate::reconcile::staged_models(
                            (#[trigger] staged_rest@[g]).entries@,
                        ) == p.entries
                        &&& crate::reconcile::instance_ids(staged_rest@[g].keepers@)
                            == p.keeper_ids
                        &&& crate::reconcile::install_models(staged_rest@[g].installs@)
                            == p.installs
                    }),
                    forall|g: int| 0 <= g < done2@.len() ==> cache_models(
                        (#[trigger] done2@[g]).cache@,
                    ) == reload_upto(
                        caches0,
                        dssm,
                        names0,
                        outs_list,
                        base0,
                        n_groups as int,
                    ).after[g],
                    crate::reconcile::install_models(installs@) == reload_upto(
                        caches0,
                        dssm,
                        names0,
                        outs_list,
                        base0,
                        done2@.len() as int,
                    ).installs,
                    crate::reconcile::instance_ids(retired@) == reload_upto(
                        caches0,
                        dssm,
                        names0,
                        outs_list,
                        base0,
                        done2@.len() as int,
                    ).retired,
                decreases pending2@.len(),
            {
                let ghost gi = done2@.len() as int;
                let ghost pending20 = pending2@;
                let ghost staged0 = staged_rest@;
                let mut g = pending2.remove(0);
                let staged = staged_rest.remove(0);
                let ghost base_g = reload_upto(caches0, dssm, names0, outs_list, base0,
                    gi).next_id;
                proof {
                    assert(cache_models(g.cache@) == caches0[gi]);
                    assert forall|x: int| 0 <= x < pending2@.len() implies cache_models(
                        (#[trigger] pending2@[x]).cache@,
                    ) == caches0[gi + 1 + x] by {
                        assert(pending2@[x] == pending20[x + 1]);
                    }
                    assert forall|x: int| 0 <= x < staged_rest@.len() implies ({
                        let px = plan_model(
                            caches0[gi + 1 + x],
                            dssm[gi + 1 + x],
                            outs_list[gi + 1 + x],
                            reload_upto(
                                caches0,
                                dssm,
                                names0,
                                outs_list,
                                base0,
                                gi + 1 + x,
                            ).next_id,
                        );
                        &&& crate::reconcile::staged_models(
                            (#[trigger] staged_rest@[x]).entries@,
                        ) == px.entries
                        &&& crate::reconcile::instance_ids(staged_rest@[x].keepers@)
                            == px.keeper_ids
                        &&& crate::reconcile::install_models(staged_rest@[x].installs@)
                            == px.installs
                    }) by {
                        assert(staged_rest@[x] == staged0[x + 1]);
                    }
                    crate::reconcile::lemma_plan_wf(caches0[gi], dssm[gi], outs_list[gi], base_g,
                        dssm[gi].len() as int);
                }
                let ghost staged_installs = staged.installs@;
                let (mut ins, mut ret) = apply(&mut g.cache, staged);
                let ghost installs_before = installs@;
                let ghost retired_before = retired@;
                let ghost ins0 = ins@;
                let ghost ret0 = ret@;
                installs.append(&mut ins);
                retired.append(&mut ret);
                done2.push(g);
                proof {
                    let p = plan_model(caches0[gi], dssm[gi], outs_list[gi], base_g);
                    let rnow = reload_upto(caches0, dssm, names0, outs_list, base0, gi + 1);
                    assert(ins0 == staged_installs);
                    assert(crate::reconcile::install_models(ins0) == p.installs);
                    crate::reconcile::lemma_install_models_concat(installs_before, ins0);
                    crate::reconcile::lemma_instance_ids_concat(retired_before, ret0);
                    assert(crate::reconcile::install_models(installs@) =~= rnow.installs);
                    assert(crate::reconcile::instance_ids(retired@) =~= rnow.retired);
                    lemma_reload_after(caches0, dssm, names0, outs_list, base0, n_groups as int,
                        gi);
                    assert(cache_models(done2@[gi].cache@) == reload_upto(
                        caches0,
                        dssm,
                        names0,
                        outs_list,
                        base0,
                        n_groups as int,
                    ).after[gi]);
                }
            }
            self.groups = done2;
            let hooks = copy_ids(&self.config_hooks);
            proof {
                // An error-free pass with no builder failure converged.
                if group_failure_models(all_failures@).len() == 0 {
                    lemma_no_build_errors(caches0, dssm, names0, outs_list, base0,
                        n_groups as int);
                    assert forall|g: int| 0 <= g < n_groups implies converged(
                        cache_models((#[trigger] self.groups@[g]).cache@),
                        dssm[g],
                    ) by {
                        let base_g = reload_upto(caches0, dssm, names0, outs_list, base0,
                            g).next_id;
                        let p = plan_model(caches0[g], dssm[g], outs_list[g], base_g);
                        crate::reconcile::lemma_convergence(caches0[g], dssm[g], outs_list[g],
                            base_g, dssm[g].len() as int);
                        assert(dssm[g].take(dssm[g].len() as int) =~= dssm[g]);
                        lemma_reload_after(caches0, dssm, names0, outs_list, base0,
                            n_groups as int, g);
                    }
                }
                assert(all_failures@.len() == group_failure_models(all_failures@).len());
            }
            (
                ReloadReport {
                    committed: true,
                    results: all_results,
                    build_failures: all_failures,
                    installs,
                    retired,
                    hooks,
                },
                Ghost(outs_list),
            )
        } else {
            (
                ReloadReport {
                    committed: false,
                    results: all_results,
                    build_failures: all_failures,
                    installs: Vec::new(),
                    retired: Vec::new(),
                    hooks: Vec::new(),
                },
                Ghost(outs_list),
            )
        }
    }

    /// One full reload of a freshly loaded snapshot: extracts every group's
    /// desired tuples, refuses duplicate sub-configurations and an
    /// exhausted instance-identity space as validation errors, and commits
    /// everything together exactly when no collected validation result is
    /// an error. Builder failures are reported per offending request and do
    /// not block the commit. A rejected reload changes nothing: the
    /// previous snapshot and caches stay in service.
    pub fn reload(&mut self, new: ConfigSnapshot) -> (report: ReloadReport)
        ensures
            report.committed == !has_error(report.results@),
            final(self).groups@.len() == old(self).groups@.len(),
            final(self).config_hooks == old(self).config_hooks,
            final(self).dispatcher == old(self).dispatcher,
            !report.committed ==> {
                &&& stored_snapshot(final(self).store) == stored_snapshot(old(self).store)
                &&& final(self).next_instance == old(self).next_instance
                &&& forall|g: int| 0 <= g < old(self).groups@.len() ==> cache_models(
                    (#[trigger] final(self).groups@[g]).cache@,
                ) == cache_models(old(self).groups@[g].cache@)
                &&& report.installs@.len() == 0
                &&& report.retired@.len() == 0
                &&& report.hooks@.len() == 0
            },
            report.committed ==> {
                &&& stored_snapshot(final(self).store) == new@
                &&& report.hooks@ == old(self).config_hooks@
            },
    {
        let ghost caches0 = group_caches(self.groups@);
        let ghost n_groups = self.groups@.len();

        // Extraction: ask every plugin for its desired tuples.
        let mut desireds: Vec<Vec<Desired>> = Vec::new();
        let mut pending: Vec<Group<P>> = Vec::new();
        core::mem::swap(&mut self.groups, &mut pending);
        let mut done: Vec<Group<P>> = Vec::new();
        let mut all_distinct = true;
        while pending.len() > 0
            invariant
                n_groups == caches0.len(),
                done@.len() + pending@.len() == n_groups,
                desireds@.len() == done@.len(),
                forall|g: int| 0 <= g < pending@.len() ==> cache_models(
                    (#[trigger] pending@[g]).cache@,
                ) == caches0[done@.len() + g],
                forall|g: int| 0 <= g < done@.len() ==> cache_models(
                    (#[trigger] done@[g]).cache@,
                ) == caches0[g],
                all_distinct ==> forall|g: int| 0 <= g < desireds@.len() ==> distinct_desired(
                    desired_models((#[trigger] desireds@[g])@),
                ),
            decreases pending@.len(),
        {
            let ghost pending0 = pending@;
            let mut g = pending.remove(0);
            proof {
                assert(cache_models(g.cache@) == caches0[done@.len() as int]);
                assert forall|x: int| 0 <= x < pending@.len() implies cache_models(
                    (#[trigger] pending@[x]).cache@,
                ) == caches0[done@.len() + 1 + x] by {
                    assert(pending@[x] == pending0[x + 1]);
                }
            }
            let ds = g.plugin.extract(&new);
            if !check_distinct(&ds) {
                all_distinct = false;
            }
            desireds.push(ds);
            done.push(g);
        }
        self.groups = done;
        if !all_distinct {
            // A desired set with a repeated identity cannot be cached (at
            // most one entry per sub-configuration): the reload is refused.
            return Self::rejected("duplicate sub-configuration in desired set");
        }
        match total_scale(&desireds) {
            None => Self::rejected("instance identity space exhausted"),
            Some(total) => {
                if total > u64::MAX - self.next_instance {
                    Self::rejected("instance identity space exhausted")
                } else {
                    let (report, _outcomes) = self.reload_extracted(new, desireds);
                    report
                }
            },
        }
    }
}

} // verus!
