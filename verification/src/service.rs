//! The service runtime, as an explicit state machine, and the activation
//! plan over the registry.
//!
//! The runtime starts by connecting, registers every activated provider,
//! acquires the well-known bus address, then serves: it dispatches one
//! message per readiness event, absorbs dispatch failures, and stops
//! unconditionally on a termination signal. Every startup failure is
//! fatal. The loop itself, the connection and the signals live outside
//! the library; they feed events in and perform the actions handed back.

use vstd::prelude::*;
use vstd::string::StringExecFns;

use crate::registry::ProviderDefinition;
use crate::registry::spec_objpath;

verus! {

broadcast use vstd::std_specs::vec::group_vec_axioms, vstd::seq::group_seq_axioms;

/// Where the runtime stands.
#[derive(Clone, Copy, PartialEq, Eq, Structural, Debug)]
pub enum ServiceState {
    /// Establishing the session connection.
    Connecting,
    /// Registering every activated provider object.
    Registering,
    /// Requesting the well-known bus address.
    AcquiringName,
    /// Serving protocol requests.
    Serving,
    /// A termination signal arrived; the loop stops at once.
    ShuttingDown,
    /// Terminal; clean after a signal-driven stop, unclean after a fatal
    /// startup failure.
    Stopped {
        /// Whether the stop was signal-driven rather than a failure.
        clean: bool,
    },
}

/// What the runtime learns from outside.
#[derive(Clone, Copy, PartialEq, Eq, Structural, Debug)]
pub enum ServiceEvent {
    /// The session connection stands.
    ConnectionEstablished,
    /// The session connection cannot be established.
    ConnectionFailed,
    /// Every provider object is registered.
    ProvidersRegistered,
    /// A provider object cannot be registered.
    RegistrationFailed,
    /// The well-known bus address was granted.
    NameAcquired,
    /// The well-known bus address was refused.
    NameRefused,
    /// The connection has a message to read.
    ConnectionReadable,
    /// One message was dispatched and handled.
    DispatchHandled,
    /// One message was dispatched and its handling failed.
    DispatchFailed,
    /// A recognized termination signal arrived.
    TerminationSignal,
}

/// What the runtime asks of its surroundings next.
#[derive(Clone, Copy, PartialEq, Eq, Structural, Debug)]
pub enum ServiceAction {
    /// Register every activated provider object.
    RegisterProviders,
    /// Request the well-known bus address.
    AcquireName,
    /// Wait for the next readiness event or signal.
    AwaitEvent,
    /// Pull and dispatch exactly one pending message.
    DispatchOneMessage,
    /// Stop the loop at once.
    StopLoop {
        /// Whether the stop is signal-driven rather than a failure.
        clean: bool,
    },
    /// Nothing; the event does not belong to this state.
    Ignore,
}

/// The whole transition table: the next state and the action, for every
/// state and event.
pub open spec fn spec_step(s: ServiceState, e: ServiceEvent) -> (ServiceState, ServiceAction) {
    match s {
        ServiceState::Connecting => match e {
            ServiceEvent::ConnectionEstablished => (
                ServiceState::Registering,
                ServiceAction::RegisterProviders,
            ),
            ServiceEvent::ConnectionFailed => (
                ServiceState::Stopped { clean: false },
                ServiceAction::StopLoop { clean: false },
            ),
            _ => (s, ServiceAction::Ignore),
        },
        ServiceState::Registering => match e {
            ServiceEvent::ProvidersRegistered => (
                ServiceState::AcquiringName,
                ServiceAction::AcquireName,
            ),
            ServiceEvent::RegistrationFailed => (
                ServiceState::Stopped { clean: false },
                ServiceAction::StopLoop { clean: false },
            ),
            _ => (s, ServiceAction::Ignore),
        },
        ServiceState::AcquiringName => match e {
            ServiceEvent::NameAcquired => (ServiceState::Serving, ServiceAction::AwaitEvent),
            ServiceEvent::NameRefused => (
                ServiceState::Stopped { clean: false },
                ServiceAction::StopLoop { clean: false },
            ),
            _ => (s, ServiceAction::Ignore),
        },
        ServiceState::Serving => match e {
            ServiceEvent::ConnectionReadable => (
                ServiceState::Serving,
                ServiceAction::DispatchOneMessage,
            ),
            ServiceEvent::DispatchHandled => (ServiceState::Serving, ServiceAction::AwaitEvent),
            ServiceEvent::DispatchFailed => (ServiceState::Serving, ServiceAction::AwaitEvent),
            ServiceEvent::TerminationSignal => (
                ServiceState::ShuttingDown,
                ServiceAction::StopLoop { clean: true },
            ),
            _ => (s, ServiceAction::Ignore),
        },
        ServiceState::ShuttingDown => (ServiceState::Stopped { clean: true }, ServiceAction::Ignore),
        ServiceState::Stopped { clean } => (
            ServiceState::Stopped { clean },
            ServiceAction::Ignore,
        ),
    }
}

/// Take one step of the runtime, exactly as [`spec_step`] says.
pub fn step(s: ServiceState, e: ServiceEvent) -> (r: (ServiceState, ServiceAction))
    ensures
        r == spec_step(s, e),
{
    match s {
        ServiceState::Connecting => match e {
            ServiceEvent::ConnectionEstablished => (
                ServiceState::Registering,
                ServiceAction::RegisterProviders,
            ),
            ServiceEvent::ConnectionFailed => (
                ServiceState::Stopped { clean: false },
                ServiceAction::StopLoop { clean: false },
            ),
            _ => (s, ServiceAction::Ignore),
        },
        ServiceState::Registering => match e {
            ServiceEvent::ProvidersRegistered => (
                ServiceState::AcquiringName,
                ServiceAction::AcquireName,
            ),
            ServiceEvent::RegistrationFailed => (
                ServiceState::Stopped { clean: false },
                ServiceAction::StopLoop { clean: false },
            ),
            _ => (s, ServiceAction::Ignore),
        },
        ServiceState::AcquiringName => match e {
            ServiceEvent::NameAcquired => (ServiceState::Serving, ServiceAction::AwaitEvent),
            ServiceEvent::NameRefused => (
                ServiceState::Stopped { clean: false },
                ServiceAction::StopLoop { clean: false },
            ),
            _ => (s, ServiceAction::Ignore),
        },
        ServiceState::Serving => match e {
            ServiceEvent::ConnectionReadable => (
                ServiceState::Serving,
                ServiceAction::DispatchOneMessage,
            ),
            ServiceEvent::DispatchHandled => (ServiceState::Serving, ServiceAction::AwaitEvent),
            ServiceEvent::DispatchFailed => (ServiceState::Serving, ServiceAction::AwaitEvent),
            ServiceEvent::TerminationSignal => (
                ServiceState::ShuttingDown,
                ServiceAction::StopLoop { clean: true },
            ),
            _ => (s, ServiceAction::Ignore),
        },
        ServiceState::ShuttingDown => (
            ServiceState::Stopped { clean: true },
            ServiceAction::Ignore,
        ),
        ServiceState::Stopped { clean } => (
            ServiceState::Stopped { clean },
            ServiceAction::Ignore,
        ),
    }
}

/// A failed dispatch never unseats the runtime: it keeps serving, and
/// merely waits for the next event.
pub proof fn lemma_dispatch_failure_isolated()
    ensures
        spec_step(ServiceState::Serving, ServiceEvent::DispatchFailed) == (
            ServiceState::Serving,
            ServiceAction::AwaitEvent,
        ),
{
}

/// A termination signal while serving stops the loop at once and the stop
/// is clean, whatever event comes after.
pub proof fn lemma_signal_stops_cleanly(e: ServiceEvent)
    ensures
        spec_step(ServiceState::Serving, ServiceEvent::TerminationSignal) == (
            ServiceState::ShuttingDown,
            ServiceAction::StopLoop { clean: true },
        ),
        spec_step(ServiceState::ShuttingDown, e).0 == (ServiceState::Stopped { clean: true }),
{
}

/// Every startup failure is fatal: the runtime stops uncleanly before the
/// well-known address could be held.
pub proof fn lemma_startup_failures_fatal()
    ensures
        spec_step(ServiceState::Connecting, ServiceEvent::ConnectionFailed).0 == (
            ServiceState::Stopped { clean: false }
        ),
        spec_step(ServiceState::Registering, ServiceEvent::RegistrationFailed).0 == (
            ServiceState::Stopped { clean: false }
        ),
        spec_step(ServiceState::AcquiringName, ServiceEvent::NameRefused).0 == (
            ServiceState::Stopped { clean: false }
        ),
{
}

/// One provider, activated: the pairing of a definition with the resolved
/// application identifier, the resolved configuration directory, and the
/// full object address to register.
pub struct ActivatedProvider {
    /// The definition's display label.
    pub label: String,
    /// The application identifier the application-info collaborator
    /// resolved; authoritative over the table's own.
    pub app_id: String,
    /// The configuration directory holding the history document.
    pub config_dir: String,
    /// The full protocol object address to register.
    pub object_path: String,
}

/// The specification-level value of an activated provider.
#[verifier::ext_equal]
pub struct ActivatedProviderView {
    /// The display label.
    pub label: Seq<char>,
    /// The resolved application identifier.
    pub app_id: Seq<char>,
    /// The configuration directory.
    pub config_dir: Seq<char>,
    /// The full object address.
    pub object_path: Seq<char>,
}

impl View for ActivatedProvider {
    type V = ActivatedProviderView;

    open spec fn view(&self) -> ActivatedProviderView {
        ActivatedProviderView {
            label: self.label@,
            app_id: self.app_id@,
            config_dir: self.config_dir@,
            object_path: self.object_path@,
        }
    }
}

impl DeepView for ActivatedProvider {
    type V = ActivatedProviderView;

    open spec fn deep_view(&self) -> ActivatedProviderView {
        self.view()
    }
}

/// The configuration directory of a definition under the user's
/// configuration root.
pub open spec fn spec_config_dir(root: Seq<char>, dirname: Seq<char>) -> Seq<char> {
    root + "/"@ + dirname
}

/// The activation plan over the registry: one activated provider, in
/// table order, for each definition whose application resolved; a
/// definition whose application is absent is skipped, which is no fault.
pub open spec fn spec_plan(
    defs: Seq<crate::registry::ProviderDefinitionView>,
    resolved: Seq<Option<Seq<char>>>,
    root: Seq<char>,
) -> Seq<ActivatedProviderView>
    decreases defs.len(),
{
    if defs.len() == 0 {
        Seq::empty()
    } else {
        let rest = spec_plan(defs.drop_last(), resolved.drop_last(), root);
        match resolved.last() {
            None => rest,
            Some(app) => rest.push(
                ActivatedProviderView {
                    label: defs.last().label,
                    app_id: app,
                    config_dir: spec_config_dir(root, defs.last().config_dirname),
                    object_path: spec_objpath(defs.last().relative_obj_path),
                },
            ),
        }
    }
}

/// With no application installed at all, the plan is empty; the runtime
/// then registers nothing and still goes on to acquire the well-known
/// address.
pub proof fn lemma_no_installed_no_activations(
    defs: Seq<crate::registry::ProviderDefinitionView>,
    resolved: Seq<Option<Seq<char>>>,
    root: Seq<char>,
)
    requires
        resolved.len() == defs.len(),
        forall|i: int| 0 <= i < resolved.len() ==> resolved[i] is None,
    ensures
        spec_plan(defs, resolved, root) == Seq::<ActivatedProviderView>::empty(),
    decreases defs.len(),
{
    if defs.len() > 0 {
        lemma_no_installed_no_activations(defs.drop_last(), resolved.drop_last(), root);
    }
}

/// Plan the activations, as [`spec_plan`] says: `resolved` holds, for
/// each definition in order, the application identifier the
/// application-info collaborator resolved for its desktop identifier, or
/// nothing where the application is not installed.
pub fn plan_activations(
    defs: &Vec<ProviderDefinition>,
    resolved: &Vec<Option<String>>,
    config_root: &str,
) -> (r: Vec<ActivatedProvider>)
    requires
        resolved@.len() == defs@.len(),
    ensures
        r.deep_view() == spec_plan(defs.deep_view(), resolved.deep_view(), config_root@),
{
    let n: usize = defs.len();
    let mut out: Vec<ActivatedProvider> = Vec::new();
    let mut i: usize = 0;
    proof {
        assert(out.deep_view() =~= spec_plan(
            defs.deep_view().take(0),
            resolved.deep_view().take(0),
            config_root@,
        ));
    }
    while i < n
        invariant
            n == defs@.len(),
            resolved@.len() == defs@.len(),
            i <= n,
            out.deep_view() == spec_plan(
                defs.deep_view().take(i as int),
                resolved.deep_view().take(i as int),
                config_root@,
            ),
        decreases n - i,
    {
        proof {
            assert(defs.deep_view().take(i + 1).drop_last() =~= defs.deep_view().take(i as int));
            assert(resolved.deep_view().take(i + 1).drop_last() =~= resolved.deep_view().take(
                i as int,
            ));
            assert(defs.deep_view().take(i + 1).last() == defs@[i as int]@);
            assert(resolved.deep_view().take(i + 1).last() == resolved@[i as int].deep_view());
        }
        match &resolved[i] {
            None => {},
            Some(app) => {
                let mut dir = String::from_str(config_root);
                dir.append("/");
                dir.append(defs[i].config_dirname.as_str());
                let provider = ActivatedProvider {
                    label: defs[i].label.clone(),
                    app_id: app.clone(),
                    config_dir: dir,
                    object_path: defs[i].objpath(),
                };
                let ghost gdv = out.deep_view();
                let ghost gp = provider@;
                out.push(provider);
                proof {
                    assert(out.deep_view() =~= gdv.push(gp));
                }
            },
        }
        i += 1;
    }
    proof {
        assert(defs.deep_view().take(n as int) =~= defs.deep_view());
        assert(resolved.deep_view().take(n as int) =~= resolved.deep_view());
    }
    out
}

} // verus!
