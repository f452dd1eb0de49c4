//! The configuration fragments the reconciler works on.
//!
//! A [`ConfigSnapshot`] is one immutable configuration value. Out of it a
//! resource plugin extracts [`Desired`] tuples: the identity-bearing
//! sub-configuration ([`Listen`]), the auxiliary [`ExtraConfig`] that affects
//! behaviour but not identity, and the desired instance count (scale).

use vstd::prelude::*;

use crate::validation::{ResultModel, ValidationResult, ValidationResults};

verus! {

/// The identity-bearing sub-configuration of one listening socket.
///
/// Two resource requests are the same request exactly when their `Listen`
/// values are equal; the reconciler reuses the running resource in that case.
#[derive(Debug)]
pub struct Listen {
    pub port: u16,
    pub host: String,
}

/// The mathematical content of a [`Listen`].
#[verifier::ext_equal]
pub ghost struct ListenModel {
    pub port: u16,
    pub host: Seq<char>,
}

impl View for Listen {
    type V = ListenModel;

    open spec fn view(&self) -> ListenModel {
        ListenModel { port: self.port, host: self.host@ }
    }
}

impl Clone for Listen {
    fn clone(&self) -> (r: Self)
        ensures
            r@ == self@,
    {
        Listen { port: self.port, host: self.host.clone() }
    }
}

impl PartialEq for Listen {
    fn eq(&self, other: &Self) -> (r: bool) {
        self.port == other.port && self.host == other.host
    }
}

impl vstd::std_specs::cmp::PartialEqSpecImpl for Listen {
    open spec fn obeys_eq_spec() -> bool {
        true
    }

    open spec fn eq_spec(&self, other: &Self) -> bool {
        self@ == other@
    }
}

/// Auxiliary parameters attached to one [`Listen`].
///
/// They change how instances behave, but are not part of the request's
/// identity: when only these change, the running instances are retired and
/// fresh ones are installed under the new values.
#[derive(Clone, Copy, Debug, PartialEq, Eq, Structural)]
pub struct ExtraConfig {
    /// How long an instance sleeps after an accept error, in milliseconds.
    pub error_sleep_ms: u64,
    /// The most connections one instance serves at once.
    pub max_conn: usize,
}

/// How to listen on one TCP socket: the identity-bearing [`Listen`], the
/// desired instance count and the auxiliary knobs.
#[derive(Debug)]
pub struct TcpListen {
    pub listen: Listen,
    pub scale: usize,
    pub error_sleep_ms: u64,
    pub max_conn: usize,
    pub extra_cfg: crate::Empty,
}

/// The mathematical content of a [`TcpListen`].
#[verifier::ext_equal]
pub ghost struct TcpListenModel {
    pub listen: ListenModel,
    pub scale: usize,
    pub error_sleep_ms: u64,
    pub max_conn: usize,
}

impl View for TcpListen {
    type V = TcpListenModel;

    open spec fn view(&self) -> TcpListenModel {
        TcpListenModel {
            listen: self.listen@,
            scale: self.scale,
            error_sleep_ms: self.error_sleep_ms,
            max_conn: self.max_conn,
        }
    }
}

impl Clone for TcpListen {
    fn clone(&self) -> (r: Self)
        ensures
            r@ == self@,
    {
        TcpListen {
            listen: self.listen.clone(),
            scale: self.scale,
            error_sleep_ms: self.error_sleep_ms,
            max_conn: self.max_conn,
            extra_cfg: self.extra_cfg,
        }
    }
}

/// The default host to listen on: every interface.
pub fn default_host() -> (r: String)
    ensures
        r@ == "::"@,
{
    "::".to_string()
}

/// The default desired instance count.
pub fn default_scale() -> (r: usize)
    ensures
        r == 1,
{
    1
}

/// The default sleep after an accept error, in milliseconds.
pub fn default_error_sleep() -> (r: u64)
    ensures
        r == 100,
{
    100
}

/// The default cap on concurrent connections of one instance.
pub fn default_max_conn() -> (r: usize)
    ensures
        r == 1000,
{
    1000
}

/// One immutable configuration snapshot.
///
/// Snapshots are replaced wholesale on a successful reload, never edited in
/// place, so a reader's copy stays stable for as long as it keeps it.
#[derive(Debug)]
pub struct ConfigSnapshot {
    /// The TCP listeners the configuration asks for.
    pub listeners: Vec<TcpListen>,
}

impl View for ConfigSnapshot {
    type V = Seq<TcpListenModel>;

    open spec fn view(&self) -> Seq<TcpListenModel> {
        self.listeners@.map_values(|l: TcpListen| l@)
    }
}

impl Clone for ConfigSnapshot {
    fn clone(&self) -> (r: Self)
        ensures
            r@ == self@,
    {
        let r = ConfigSnapshot { listeners: self.listeners.clone() };
        proof {
            assert forall|i: int| 0 <= i < self.listeners@.len() implies r@[i]
                == self@[i] by {
                assert(cloned::<TcpListen>(self.listeners[i], r.listeners[i]));
            }
            assert(r@ =~= self@);
        }
        r
    }
}

/// One desired resource tuple, as a plugin extracts it from a snapshot:
/// identity, auxiliary configuration, instance count, and any validation
/// results the extraction itself produced.
#[derive(Debug)]
pub struct Desired {
    pub sub: Listen,
    pub extra: ExtraConfig,
    pub scale: usize,
    pub results: ValidationResults,
}

/// The mathematical content of a [`Desired`].
#[verifier::ext_equal]
pub ghost struct DesiredModel {
    pub sub: ListenModel,
    pub extra: ExtraConfig,
    pub scale: usize,
    pub results: Seq<ResultModel>,
}

impl View for Desired {
    type V = DesiredModel;

    open spec fn view(&self) -> DesiredModel {
        DesiredModel {
            sub: self.sub@,
            extra: self.extra,
            scale: self.scale,
            results: self.results@,
        }
    }
}

/// What a scale of zero is coerced to.
///
/// A desired scale of zero is not honoured: it is raised to one and a
/// warning is emitted, because a zero scale most likely means a mistake in
/// the configuration rather than an intent to disable the listener.
pub open spec fn coerced_scale(scale: usize) -> usize {
    if scale == 0 {
        1usize
    } else {
        scale
    }
}

impl TcpListen {
    /// Turns this listener configuration into the desired tuple handed to
    /// the reconciler: the [`Listen`] is the identity, the remaining knobs
    /// form the [`ExtraConfig`], and a zero scale is coerced to one with a
    /// warning result.
    pub fn desired(&self) -> (d: Desired)
        ensures
            d@.sub == self@.listen,
            d@.extra == (ExtraConfig {
                error_sleep_ms: self.error_sleep_ms,
                max_conn: self.max_conn,
            }),
            d@.scale == coerced_scale(self.scale),
            self.scale > 0 ==> d@.results == Seq::<ResultModel>::empty(),
            self.scale == 0 ==> d@.results.len() == 1 && d@.results[0].severity
                == crate::validation::Severity::Warning && d@.results[0].subject
                == Some(self@.listen),
    {
        let (scale, results) = if self.scale > 0 {
            (self.scale, ValidationResults::new())
        } else {
            (
                1usize,
                ValidationResults::single(
                    ValidationResult::warning_about(
                        self.listen.clone(),
                        "turning scale 0 to 1".to_string(),
                    ),
                ),
            )
        };
        Desired {
            sub: self.listen.clone(),
            extra: ExtraConfig { error_sleep_ms: self.error_sleep_ms, max_conn: self.max_conn },
            scale,
            results,
        }
    }
}

impl TcpListen {
    /// Whether two listener configurations ask for the same resource: the
    /// identity-bearing part is equal, whatever the scale and the auxiliary
    /// knobs say. A similar pair reuses the running resource on reload.
    pub fn is_similar(&self, other: &Self) -> (r: bool)
        ensures
            r == (self@.listen == other@.listen),
    {
        self.listen == other.listen
    }
}

/// Extracts the desired tuples of every listener in a snapshot, in order.
pub fn extract_tcp(snapshot: &ConfigSnapshot) -> (ds: Vec<Desired>)
    ensures
        ds@.len() == snapshot@.len(),
        forall|i: int| #![trigger ds@[i]] 0 <= i < ds@.len() ==> {
            &&& ds@[i]@.sub == snapshot@[i].listen
            &&& ds@[i]@.extra == (ExtraConfig {
                error_sleep_ms: snapshot@[i].error_sleep_ms,
                max_conn: snapshot@[i].max_conn,
            })
            &&& ds@[i]@.scale == coerced_scale(snapshot@[i].scale)
        },
{
    let mut ds: Vec<Desired> = Vec::new();
    let mut i: usize = 0;
    while i < snapshot.listeners.len()
        invariant
            0 <= i <= snapshot.listeners.len(),
            ds@.len() == i,
            forall|j: int| #![trigger ds@[j]] 0 <= j < i ==> {
                &&& ds@[j]@.sub == snapshot@[j].listen
                &&& ds@[j]@.extra == (ExtraConfig {
                    error_sleep_ms: snapshot@[j].error_sleep_ms,
                    max_conn: snapshot@[j].max_conn,
                })
                &&& ds@[j]@.scale == coerced_scale(snapshot@[j].scale)
            },
        decreases snapshot.listeners.len() - i,
    {
        let d = snapshot.listeners[i].desired();
        ds.push(d);
        i += 1;
    }
    ds
}

/// A server configuration wrapping a transport: the HTTP-level options
/// around whatever accepts the connections.
#[derive(Debug)]
pub struct HyperServer<Transport> {
    pub transport: Transport,
}

impl<Transport> HyperServer<Transport> {
    /// Wraps a transport configuration.
    pub fn new(transport: Transport) -> (r: Self)
        ensures
            r.transport == transport,
    {
        HyperServer { transport }
    }

    /// The wrapped transport configuration.
    pub fn transport(&self) -> (r: &Transport)
        ensures
            r == &self.transport,
    {
        &self.transport
    }
}

impl HyperServer<TcpListen> {
    /// The server's desired tuple: that of its transport — the HTTP-level
    /// options add nothing to the resource's identity.
    pub fn desired(&self) -> (d: Desired)
        ensures
            d@.sub == self.transport@.listen,
            d@.scale == coerced_scale(self.transport@.scale),
    {
        self.transport.desired()
    }

    /// Whether two server configurations ask for the same resource: their
    /// transports do.
    pub fn is_similar(&self, other: &Self) -> (r: bool)
        ensures
            r == (self.transport@.listen == other.transport@.listen),
    {
        self.transport.is_similar(&other.transport)
    }
}

/// The per-resource plug-in surface, assembled step by step.
///
/// The four fields are the whole contract a concrete resource kind has to
/// supply: an extraction of desired tuples from the configuration, a
/// fallible builder of the resource, a factory turning a resource into a
/// running task, and a name used in logs.
#[derive(Debug)]
pub struct Task<Extract, Build, ToTask, Name> {
    pub extract: Extract,
    pub build: Build,
    pub to_task: ToTask,
    pub name: Name,
}

impl Task<(), (), (), ()> {
    /// An empty surface; each piece is filled in by the `with_` methods.
    pub fn new() -> (r: Self)
        ensures
            r.extract == (),
            r.build == (),
            r.to_task == (),
            r.name == (),
    {
        Task { extract: (), build: (), to_task: (), name: () }
    }
}

impl<Extract, Build, ToTask, Name> Task<Extract, Build, ToTask, Name> {
    /// Replaces the extraction function.
    pub fn with_extract<NewExtract>(self, extract: NewExtract) -> (r: Task<
        NewExtract,
        Build,
        ToTask,
        Name,
    >)
        ensures
            r.extract == extract,
            r.build == self.build,
            r.to_task == self.to_task,
            r.name == self.name,
    {
        Task { extract, build: self.build, to_task: self.to_task, name: self.name }
    }

    /// Replaces the resource builder.
    pub fn with_build<NewBuild>(self, build: NewBuild) -> (r: Task<
        Extract,
        NewBuild,
        ToTask,
        Name,
    >)
        ensures
            r.extract == self.extract,
            r.build == build,
            r.to_task == self.to_task,
            r.name == self.name,
    {
        Task { extract: self.extract, build, to_task: self.to_task, name: self.name }
    }

    /// Replaces the task factory.
    pub fn with_to_task<NewToTask>(self, to_task: NewToTask) -> (r: Task<
        Extract,
        Build,
        NewToTask,
        Name,
    >)
        ensures
            r.extract == self.extract,
            r.build == self.build,
            r.to_task == to_task,
            r.name == self.name,
    {
        Task { extract: self.extract, build: self.build, to_task, name: self.name }
    }

    /// Replaces the logging name.
    pub fn with_name<NewName>(self, name: NewName) -> (r: Task<Extract, Build, ToTask, NewName>)
        ensures
            r.extract == self.extract,
            r.build == self.build,
            r.to_task == self.to_task,
            r.name == name,
    {
        Task { extract: self.extract, build: self.build, to_task: self.to_task, name }
    }
}

} // verus!
