use tauri_plugin_blec::address_map::AddressMap;
use tauri_plugin_blec::connection::{
    after_connect_attempt, collect_characteristics, combine_outcomes, connection_verified,
    discovered_peripheral, discovery_target, disconnect_after_discovery, first_adapter, disconnect_verified, keep_polling,
    require_discovered, require_link, require_not_connected, timed_outcome, ConnectStep,
    CONNECT_ATTEMPTS, DISCONNECT_POLLS,
};
use tauri_plugin_blec::device::{settle_disconnect, CharacteristicEntry, DeviceState};
use tauri_plugin_blec::error::Error;
use tauri_plugin_blec::models::{PeripheralProperties, ScanFilter};
use tauri_plugin_blec::scanning::{
    keep_successes, record_stream_discovery, take_task_to_abort, task_running, timed_scan_result,
    HandlerState,
};

#[test]
fn connecting_needs_discovered_devices() {
    let mut discovered: AddressMap<u8> = AddressMap::new();
    assert_eq!(require_discovered(&discovered), Err(Error::NoDevicesDiscovered));
    discovered.insert("AA".to_string(), 7);
    assert_eq!(require_discovered(&discovered), Ok(()));
    assert_eq!(discovered_peripheral(&discovered, "AA"), Ok(&7));
    assert_eq!(discovered_peripheral(&discovered, "BB"), Err(Error::UnknownPeripheral("BB".to_string())));
}

#[test]
fn connect_is_tried_three_times() {
    assert_eq!(CONNECT_ATTEMPTS, 3);
    assert_eq!(after_connect_attempt(0, Ok(())), ConnectStep::Connected);
    assert_eq!(after_connect_attempt(0, Err(Error::ConnectionFailed)), ConnectStep::RetryAfterDelay);
    assert_eq!(after_connect_attempt(1, Err(Error::ConnectionFailed)), ConnectStep::RetryAfterDelay);
    assert_eq!(
        after_connect_attempt(2, Err(Error::Timeout("Connect".to_string()))),
        ConnectStep::GiveUp(Error::Timeout("Connect".to_string()))
    );
    assert_eq!(after_connect_attempt(2, Ok(())), ConnectStep::Connected);
}

#[test]
fn connection_checks() {
    assert_eq!(connection_verified(true), Ok(()));
    assert_eq!(connection_verified(false), Err(Error::ConnectionFailed));
    assert_eq!(require_link(true), Ok(()));
    assert_eq!(require_link(false), Err(Error::NoDeviceConnected));
    assert_eq!(disconnect_verified(false), Ok(()));
    assert_eq!(disconnect_verified(true), Err(Error::DisconnectFailed));
}

#[test]
fn disconnect_polling() {
    assert_eq!(DISCONNECT_POLLS, 10);
    assert!(keep_polling(1, true));
    assert!(keep_polling(9, true));
    assert!(!keep_polling(10, true));
    assert!(!keep_polling(3, false));
}

#[test]
fn combining_disconnect_outcomes_keeps_the_last_error() {
    assert_eq!(combine_outcomes(vec![]), Ok(()));
    assert_eq!(combine_outcomes(vec![Ok(()), Ok(())]), Ok(()));
    assert_eq!(
        combine_outcomes(vec![
            Err(Error::DisconnectFailed),
            Ok(()),
            Err(Error::NoDeviceConnected),
            Ok(()),
        ]),
        Err(Error::NoDeviceConnected)
    );
}

#[test]
fn timed_commands() {
    assert_eq!(timed_outcome::<u8>(None, "Connect"), Err(Error::Timeout("Connect".to_string())));
    assert_eq!(timed_outcome(Some(Ok(4u8)), "Connect"), Ok(4));
    assert_eq!(
        timed_outcome::<u8>(Some(Err("link lost".to_string())), "Connect"),
        Err(Error::Btleplug("link lost".to_string()))
    );
}

#[test]
fn characteristics_are_gathered_service_by_service() {
    let e = |uuid: u128, c: &'static str| CharacteristicEntry { uuid, characteristic: c };
    let all = collect_characteristics(vec![vec![e(1, "a"), e(2, "b")], vec![], vec![e(3, "c")]]);
    let names: Vec<&str> = all.iter().map(|c| c.characteristic).collect();
    assert_eq!(names, vec!["a", "b", "c"]);
    assert_eq!(all[2].uuid, 3);
}

#[test]
fn scan_state_and_tasks() {
    let mut s: HandlerState<u8, u16, u32, &'static str> = HandlerState::new();
    s.add_scan_update_channel(1);
    s.add_connection_update_channel(2);
    s.add_device_scan_channel(3);
    s.add_device_scan_channel(4);
    assert_eq!(s.scan_update_channels, vec![1]);
    assert_eq!(s.connection_update_channels, vec![2]);
    assert_eq!(s.device_scan_channels, vec![3, 4]);
    assert!(s.scan_task.is_none());

    let finished = |t: &&str| *t == "done";
    assert!(!task_running(&None, finished));
    assert!(task_running(&Some("busy"), finished));
    assert!(!task_running(&Some("done"), finished));

    s.scan_task = Some("busy");
    assert_eq!(take_task_to_abort(&mut s.scan_task, finished), Some("busy"));
    assert!(s.scan_task.is_none());
    s.scan_stream_task = Some("done");
    assert_eq!(take_task_to_abort(&mut s.scan_stream_task, finished), None);
    assert!(s.scan_stream_task.is_none());
}

#[test]
fn failed_device_descriptions_are_dropped() {
    let results: Vec<Result<&str, String>> = vec![Ok("a"), Err("gone".to_string()), Ok("c"), Err("x".to_string())];
    assert_eq!(keep_successes(results), vec!["a", "c"]);
    assert_eq!(keep_successes::<u8, ()>(vec![]), Vec::<u8>::new());
}

#[test]
fn connecting_twice_is_refused() {
    let mut connected: AddressMap<u8> = AddressMap::new();
    assert_eq!(require_not_connected(&connected, "AA"), Ok(()));
    connected.insert("AA".to_string(), 1);
    assert_eq!(require_not_connected(&connected, "AA"), Err(Error::AlreadyConnected));
    assert_eq!(require_not_connected(&connected, "BB"), Ok(()));
}

#[test]
fn discovery_disconnects_only_devices_it_connected() {
    assert!(disconnect_after_discovery(false));
    assert!(!disconnect_after_discovery(true));
}

#[test]
fn stopping_needs_a_running_scan() {
    let finished = |t: &&str| *t == "done";
    let mut s: HandlerState<u8, u8, u8, &'static str> = HandlerState::new();
    s.scan_task = Some("busy");
    s.scan_stream_task = Some("done");
    assert_eq!(s.stop_timed(finished), Ok(Some("busy")));
    assert!(s.scan_task.is_none());
    assert_eq!(s.scan_stream_task, Some("done"));
    assert_eq!(s.stop_timed(finished), Err(Error::NoScanRunning));
    s.scan_task = Some("done");
    assert_eq!(s.stop_timed(finished), Err(Error::NoScanRunning));
    assert!(s.scan_task.is_none());
}

#[test]
fn the_first_adapter_is_used() {
    assert_eq!(first_adapter(vec!["hci0", "hci1"]), Ok("hci0"));
    assert_eq!(first_adapter(Vec::<&str>::new()), Err(Error::NoAdapters));
}

#[test]
fn either_kind_of_scan_counts_as_scanning() {
    let finished = |t: &&str| *t == "done";
    let mut s: HandlerState<u8, u8, u8, &'static str> = HandlerState::new();
    assert!(!s.scanning(finished));
    assert_eq!(s.ensure_not_scanning(finished), Ok(()));
    s.scan_stream_task = Some("busy");
    assert!(s.scanning(finished));
    assert_eq!(s.ensure_not_scanning(finished), Err(Error::ScanAlreadyRunning));
    s.scan_stream_task = Some("done");
    s.scan_task = Some("busy");
    assert!(s.scanning(finished));
    assert_eq!(s.ensure_not_scanning(finished), Err(Error::ScanAlreadyRunning));
    s.scan_task = Some("done");
    assert!(!s.scanning(finished));
    assert_eq!(s.ensure_not_scanning(finished), Ok(()));
}

#[test]
fn a_disconnect_already_handled_by_the_adapter_event_succeeds() {
    assert_eq!(settle_disconnect(Ok(7u8)), Ok(Some(7)));
    assert_eq!(settle_disconnect::<u8>(Err(Error::NoDeviceConnected)), Ok(None));
    assert_eq!(settle_disconnect::<u8>(Err(Error::DisconnectFailed)), Err(Error::DisconnectFailed));
}

#[test]
fn discovery_uses_a_connected_or_a_discovered_device() {
    let mut connected: AddressMap<DeviceState<&'static str, u8, u8, u8, u8>> = AddressMap::new();
    let mut discovered: AddressMap<&'static str> = AddressMap::new();
    connected.insert("AA".to_string(), DeviceState::new("connected-a", vec![], None, 0));
    discovered.insert("AA".to_string(), "discovered-a");
    discovered.insert("BB".to_string(), "discovered-b");
    assert_eq!(discovery_target(&connected, &discovered, "AA"), Ok(&"connected-a"));
    assert_eq!(discovery_target(&connected, &discovered, "BB"), Ok(&"discovered-b"));
    assert_eq!(
        discovery_target(&connected, &discovered, "CC"),
        Err(Error::UnknownPeripheral("CC".to_string()))
    );
}

#[test]
fn stopping_the_timed_scan_spares_a_stream() {
    let finished = |t: &&str| *t == "done";
    let mut s: HandlerState<u8, u8, u8, &'static str> = HandlerState::new();
    s.add_scan_update_channel(9);
    s.scan_stream_task = Some("stream");
    assert_eq!(s.stop_timed(finished), Ok(None));
    assert_eq!(s.scan_stream_task, Some("stream"));
    assert_eq!(s.scan_update_channels, vec![9]);
    assert_eq!(s.stop_stream(finished), Some("stream"));
    assert!(s.scan_stream_task.is_none());
    assert_eq!(s.ensure_not_scanning(finished), Ok(()));
    s.scan_stream_task = Some("done");
    assert_eq!(s.stop_stream(finished), None);
    assert!(s.scan_stream_task.is_none());
}

#[test]
fn a_stopped_timed_scan_fails() {
    assert_eq!(timed_scan_result(Some(vec![1u8, 2])), Ok(vec![1, 2]));
    assert_eq!(timed_scan_result::<u8>(None), Err(Error::ScanFailed));
}

#[test]
fn stream_discoveries_are_stored_and_filtered() {
    let mut discovered: AddressMap<&'static str> = AddressMap::new();
    let battery: u128 = 0x180f;
    let props = Some(PeripheralProperties { rssi: Some(-40), services: vec![battery], manufacturer_data: vec![] });
    assert!(record_stream_discovery(&mut discovered, "AA".to_string(), "a", &None, &None));
    assert!(record_stream_discovery(&mut discovered, "BB".to_string(), "b", &Some(ScanFilter::Service(battery)), &props));
    assert!(!record_stream_discovery(&mut discovered, "CC".to_string(), "c", &Some(ScanFilter::Service(1)), &props));
    assert!(record_stream_discovery(&mut discovered, "AA".to_string(), "a2", &None, &None));
    assert_eq!(discovered.keys(), vec!["AA".to_string(), "BB".to_string(), "CC".to_string()]);
    assert_eq!(discovered.get("AA"), Some(&"a2"));
}
