use tauri_plugin_blec::address_map::AddressMap;
use tauri_plugin_blec::device::{
    characteristic_for, locate_connected, take_device, CharacteristicEntry, DeviceState,
};
use tauri_plugin_blec::error::Error;

const RX: u128 = 0x6e400002_b5a3_f393_e0a9_e50e24dcca9e;
const TX: u128 = 0x6e400003_b5a3_f393_e0a9_e50e24dcca9e;
const MISSING: u128 = 0x51ff12bb_3ed8_46e5_b4f9_d64e2fec021b;

type State = DeviceState<&'static str, &'static str, u32, (), &'static str>;

fn device(peripheral: &'static str) -> State {
    DeviceState::new(
        peripheral,
        vec![
            CharacteristicEntry { uuid: RX, characteristic: "rx" },
            CharacteristicEntry { uuid: TX, characteristic: "tx" },
            CharacteristicEntry { uuid: RX, characteristic: "rx-second" },
        ],
        None,
        "on-disconnect",
    )
}

#[test]
fn insert_get_replace_remove() {
    let mut m: AddressMap<u32> = AddressMap::new();
    assert!(m.is_empty());
    assert_eq!(m.insert("AA:BB".to_string(), 1), None);
    assert_eq!(m.insert("CC:DD".to_string(), 2), None);
    assert_eq!(m.get("AA:BB"), Some(&1));
    assert!(m.contains_key("CC:DD"));
    assert!(!m.contains_key("EE:FF"));
    // replacing keeps the position
    assert_eq!(m.insert("AA:BB".to_string(), 3), Some(1));
    assert_eq!(m.keys(), vec!["AA:BB".to_string(), "CC:DD".to_string()]);
    assert_eq!(m.len(), 2);
    assert_eq!(m.remove("AA:BB"), Some(3));
    assert_eq!(m.remove("AA:BB"), None);
    assert_eq!(m.get("AA:BB"), None);
    assert_eq!(m.keys(), vec!["CC:DD".to_string()]);
    m.clear();
    assert_eq!(m.len(), 0);
}

#[test]
fn entries_by_position() {
    let mut m: AddressMap<u32> = AddressMap::new();
    m.insert("A".to_string(), 10);
    m.insert("B".to_string(), 20);
    assert_eq!(m.position("B"), Some(1));
    assert_eq!(m.position("C"), None);
    assert_eq!(m.key_at(0), "A");
    assert_eq!(*m.value_at(1), 20);
    *m.value_mut(1) += 1;
    assert_eq!(m.get("B"), Some(&21));
}

#[test]
fn find_key_returns_the_first_match() {
    let mut m: AddressMap<u32> = AddressMap::new();
    m.insert("A".to_string(), 1);
    m.insert("B".to_string(), 2);
    m.insert("C".to_string(), 2);
    assert_eq!(m.find_key(|v: &u32| *v == 2), Some("B".to_string()));
    assert_eq!(m.find_key(|v: &u32| *v == 9), None);
}

#[test]
fn characteristic_lookup_and_errors() {
    let mut connected: AddressMap<State> = AddressMap::new();
    connected.insert("AA".to_string(), device("periph-a"));
    match characteristic_for(&connected, "AA", RX) {
        Ok((p, c)) => {
            assert_eq!(*p, "periph-a");
            assert_eq!(*c, "rx");
        }
        Err(e) => panic!("unexpected {e:?}"),
    }
    assert_eq!(characteristic_for(&connected, "BB", RX).err(), Some(Error::NoDeviceConnected));
    assert_eq!(
        characteristic_for(&connected, "AA", MISSING).err(),
        Some(Error::CharacNotAvailable("51ff12bb-3ed8-46e5-b4f9-d64e2fec021b".to_string()))
    );
    assert_eq!(locate_connected(&connected, "AA"), Ok(0));
    assert_eq!(locate_connected(&connected, "BB"), Err(Error::NoDeviceConnected));
}

#[test]
fn listeners_subscribe_and_unsubscribe() {
    let mut s = device("p");
    assert!(s.notify_listeners.is_empty());
    s.add_listener(TX, 1);
    s.add_listener(RX, 2);
    s.add_listener(TX, 3);
    assert_eq!(s.listener_positions(TX), vec![0, 2]);
    assert_eq!(s.listener_positions(MISSING), Vec::<usize>::new());
    s.remove_listeners(TX);
    assert_eq!(s.notify_listeners.len(), 1);
    assert_eq!(s.notify_listeners[0].uuid, RX);
    assert_eq!(s.notify_listeners[0].callback, 2);
    assert_eq!(s.find_characteristic(TX), Some(&"tx"));
    assert_eq!(s.find_characteristic(MISSING), None);
}

#[test]
fn taking_a_disconnected_device() {
    let mut connected: AddressMap<State> = AddressMap::new();
    connected.insert("AA".to_string(), device("periph-a"));
    let taken = take_device(&mut connected, "AA").unwrap();
    assert_eq!(taken.peripheral, "periph-a");
    assert_eq!(taken.on_disconnect, "on-disconnect");
    assert!(!connected.contains_key("AA"));
    assert_eq!(take_device(&mut connected, "AA").err(), Some(Error::NoDeviceConnected));
}

#[test]
fn subscribing_then_unsubscribing_restores_other_listeners() {
    let mut s = device("p");
    s.add_listener(RX, 1);
    s.add_listener(TX, 2);
    s.remove_listeners(TX);
    s.add_listener(TX, 3);
    s.remove_listeners(TX);
    let left: Vec<(u128, u32)> = s.notify_listeners.iter().map(|l| (l.uuid, l.callback)).collect();
    assert_eq!(left, vec![(RX, 1)]);
}

#[test]
fn values_in_entry_order() {
    let mut m: AddressMap<u32> = AddressMap::new();
    m.insert("B".to_string(), 2);
    m.insert("A".to_string(), 1);
    m.insert("B".to_string(), 5);
    assert_eq!(m.values(), vec![&5, &1]);
}
