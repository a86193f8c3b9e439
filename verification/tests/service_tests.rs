//! The registry table, the activation plan and the runtime state machine.

use std::collections::HashSet;

use vscode_search_provider::ServiceAction;
use vscode_search_provider::ServiceEvent;
use vscode_search_provider::ServiceState;
use vscode_search_provider::plan_activations;
use vscode_search_provider::providers;
use vscode_search_provider::step;

#[test]
fn desktop_ids_are_unique() {
    let mut ids = HashSet::new();
    let table = providers();
    for provider in &table {
        ids.insert(provider.desktop_id.clone());
    }
    assert_eq!(table.len(), ids.len());
}

#[test]
fn dbus_paths_are_unique() {
    let mut paths = HashSet::new();
    let table = providers();
    for provider in &table {
        paths.insert(provider.objpath());
    }
    assert_eq!(table.len(), paths.len());
}

#[test]
fn objpath_is_prefix_plus_suffix() {
    let table = providers();
    assert_eq!(table[0].objpath(), "/de/swsnr/searchprovider/vscode/arch/codeoss");
    assert_eq!(table[1].objpath(), "/de/swsnr/searchprovider/vscode/aur/visualstudiocode");
}

#[test]
fn plan_skips_absent_applications() {
    let table = providers();
    let resolved = vec![None, Some("visual-studio-code.desktop".to_string())];
    let plan = plan_activations(&table, &resolved, "/home/foo/.config");
    assert_eq!(plan.len(), 1);
    assert_eq!(plan[0].app_id, "visual-studio-code.desktop");
    assert_eq!(plan[0].config_dir, "/home/foo/.config/Code");
    assert_eq!(plan[0].object_path, "/de/swsnr/searchprovider/vscode/aur/visualstudiocode");
    assert_eq!(plan[0].label, "Visual Studio Code (AUR package)");
}

#[test]
fn no_installed_applications_plan_empty_and_name_still_acquired() {
    let table = providers();
    let resolved = vec![None, None];
    let plan = plan_activations(&table, &resolved, "/home/foo/.config");
    assert_eq!(plan.len(), 0);

    // Registering zero providers still succeeds, and the runtime goes on
    // to request the well-known address.
    let (state, action) = step(ServiceState::Registering, ServiceEvent::ProvidersRegistered);
    assert_eq!(state, ServiceState::AcquiringName);
    assert_eq!(action, ServiceAction::AcquireName);
}

#[test]
fn startup_happy_path() {
    let (s, a) = step(ServiceState::Connecting, ServiceEvent::ConnectionEstablished);
    assert_eq!(s, ServiceState::Registering);
    assert_eq!(a, ServiceAction::RegisterProviders);
    let (s, a) = step(s, ServiceEvent::ProvidersRegistered);
    assert_eq!(s, ServiceState::AcquiringName);
    assert_eq!(a, ServiceAction::AcquireName);
    let (s, a) = step(s, ServiceEvent::NameAcquired);
    assert_eq!(s, ServiceState::Serving);
    assert_eq!(a, ServiceAction::AwaitEvent);
}

#[test]
fn startup_failures_are_fatal() {
    let (s, a) = step(ServiceState::Connecting, ServiceEvent::ConnectionFailed);
    assert_eq!(s, ServiceState::Stopped { clean: false });
    assert_eq!(a, ServiceAction::StopLoop { clean: false });
    let (s, _) = step(ServiceState::Registering, ServiceEvent::RegistrationFailed);
    assert_eq!(s, ServiceState::Stopped { clean: false });
    let (s, _) = step(ServiceState::AcquiringName, ServiceEvent::NameRefused);
    assert_eq!(s, ServiceState::Stopped { clean: false });
}

#[test]
fn dispatch_failure_keeps_serving() {
    let (s, a) = step(ServiceState::Serving, ServiceEvent::ConnectionReadable);
    assert_eq!(s, ServiceState::Serving);
    assert_eq!(a, ServiceAction::DispatchOneMessage);
    let (s, a) = step(s, ServiceEvent::DispatchFailed);
    assert_eq!(s, ServiceState::Serving);
    assert_eq!(a, ServiceAction::AwaitEvent);
    let (s, a) = step(s, ServiceEvent::DispatchHandled);
    assert_eq!(s, ServiceState::Serving);
    assert_eq!(a, ServiceAction::AwaitEvent);
}

#[test]
fn termination_signal_stops_cleanly() {
    let (s, a) = step(ServiceState::Serving, ServiceEvent::TerminationSignal);
    assert_eq!(s, ServiceState::ShuttingDown);
    assert_eq!(a, ServiceAction::StopLoop { clean: true });
    let (s, _) = step(s, ServiceEvent::ConnectionReadable);
    assert_eq!(s, ServiceState::Stopped { clean: true });
}
