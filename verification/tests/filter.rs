use tauri_plugin_blec::filter::{filter_peripherals, passes, scan_services, should_forward, stream_scan_services};
use tauri_plugin_blec::models::{ManufacturerEntry, PeripheralProperties, ScanFilter};

const HEART_RATE: u128 = 0x0000180d_0000_1000_8000_00805f9b34fb;
const BATTERY: u128 = 0x0000180f_0000_1000_8000_00805f9b34fb;
const CUSTOM: u128 = 0x51ff12bb_3ed8_46e5_b4f9_d64e2fec021b;

fn props(rssi: Option<i16>, services: Vec<u128>, data: Vec<(u16, Vec<u8>)>) -> Option<PeripheralProperties> {
    Some(PeripheralProperties {
        rssi,
        services,
        manufacturer_data: data
            .into_iter()
            .map(|(key, data)| ManufacturerEntry { key, data })
            .collect(),
    })
}

#[test]
fn no_filter_keeps_everything_even_without_properties() {
    assert!(passes(&None, &ScanFilter::NoFilter));
    assert!(passes(&props(None, vec![], vec![]), &ScanFilter::NoFilter));
    let mut devices = vec!["a", "b", "c"];
    filter_peripherals(&mut devices, &vec![None, None, None], &ScanFilter::NoFilter);
    assert_eq!(devices, vec!["a", "b", "c"]);
}

#[test]
fn missing_properties_or_signal_drop_the_device() {
    let f = ScanFilter::Service(HEART_RATE);
    assert!(!passes(&None, &f));
    assert!(!passes(&props(None, vec![HEART_RATE], vec![]), &f));
    assert!(passes(&props(Some(-60), vec![HEART_RATE], vec![]), &f));
}

#[test]
fn service_filters() {
    let p = props(Some(-40), vec![HEART_RATE, BATTERY], vec![]);
    assert!(passes(&p, &ScanFilter::Service(BATTERY)));
    assert!(!passes(&p, &ScanFilter::Service(CUSTOM)));
    assert!(passes(&p, &ScanFilter::AnyService(vec![CUSTOM, BATTERY])));
    assert!(!passes(&p, &ScanFilter::AnyService(vec![CUSTOM])));
    assert!(!passes(&p, &ScanFilter::AnyService(vec![])));
    assert!(passes(&p, &ScanFilter::AllServices(vec![BATTERY, HEART_RATE])));
    assert!(!passes(&p, &ScanFilter::AllServices(vec![BATTERY, CUSTOM])));
    assert!(passes(&p, &ScanFilter::AllServices(vec![])));
}

#[test]
fn manufacturer_filters() {
    let p = props(Some(-70), vec![], vec![(0x004c, vec![0x02, 0x15, 0xaa]), (0x0059, vec![1])]);
    assert!(passes(&p, &ScanFilter::ManufacturerData(0x004c, vec![0x02, 0x15, 0xaa])));
    assert!(!passes(&p, &ScanFilter::ManufacturerData(0x004c, vec![0x02, 0x15])));
    assert!(!passes(&p, &ScanFilter::ManufacturerData(0x0001, vec![1])));
    // only the masked bits count, over the shortest of data, value and mask
    assert!(passes(&p, &ScanFilter::ManufacturerDataMasked(0x004c, vec![0x02, 0x1f], vec![0xff, 0xf0])));
    assert!(!passes(&p, &ScanFilter::ManufacturerDataMasked(0x004c, vec![0x02, 0x1f], vec![0xff, 0x0f])));
    assert!(passes(&p, &ScanFilter::ManufacturerDataMasked(0x0059, vec![], vec![])));
    assert!(!passes(&p, &ScanFilter::ManufacturerDataMasked(0x0001, vec![], vec![])));
}

#[test]
fn filtering_swap_removes_from_the_back() {
    let keep = props(Some(-50), vec![CUSTOM], vec![]);
    let drop = props(Some(-50), vec![BATTERY], vec![]);
    let mut devices = vec![0, 1, 2, 3, 4, 5];
    let properties = vec![keep.clone(), drop.clone(), keep.clone(), drop.clone(), keep.clone(), keep.clone()];
    filter_peripherals(&mut devices, &properties, &ScanFilter::Service(CUSTOM));
    // swap_remove(3) then swap_remove(1)
    assert_eq!(devices, vec![0, 4, 2, 5]);
}

#[test]
fn filtering_everything_away() {
    let mut devices = vec![7, 8];
    filter_peripherals(&mut devices, &vec![None, None], &ScanFilter::AnyService(vec![BATTERY]));
    assert!(devices.is_empty());
}

#[test]
fn stream_forwarding() {
    let p = props(Some(-50), vec![BATTERY], vec![]);
    assert!(should_forward(&None, &None));
    assert!(should_forward(&Some(ScanFilter::Service(BATTERY)), &p));
    assert!(!should_forward(&Some(ScanFilter::Service(CUSTOM)), &p));
}

#[test]
fn adapter_services_of_filters() {
    assert_eq!(scan_services(&ScanFilter::NoFilter), Vec::<u128>::new());
    assert_eq!(scan_services(&ScanFilter::Service(BATTERY)), vec![BATTERY]);
    assert_eq!(scan_services(&ScanFilter::AnyService(vec![BATTERY, CUSTOM])), vec![BATTERY, CUSTOM]);
    assert_eq!(scan_services(&ScanFilter::AllServices(vec![CUSTOM])), vec![CUSTOM]);
    assert_eq!(scan_services(&ScanFilter::ManufacturerData(1, vec![1])), Vec::<u128>::new());
    assert_eq!(scan_services(&ScanFilter::ManufacturerDataMasked(1, vec![1], vec![1])), Vec::<u128>::new());
    assert_eq!(stream_scan_services(&None), Vec::<u128>::new());
    assert_eq!(stream_scan_services(&Some(ScanFilter::Service(HEART_RATE))), vec![HEART_RATE]);
}

#[test]
fn filtering_twice_removes_nothing_more() {
    let keep = props(Some(-50), vec![CUSTOM], vec![]);
    let drop = props(Some(-50), vec![BATTERY], vec![]);
    let f = ScanFilter::Service(CUSTOM);
    let mut devices = vec![0, 1, 2, 3];
    let mut properties = vec![drop.clone(), keep.clone(), drop.clone(), keep.clone()];
    filter_peripherals(&mut devices, &properties.clone(), &f);
    filter_peripherals(&mut properties, &vec![drop.clone(), keep.clone(), drop.clone(), keep.clone()], &f);
    assert_eq!(devices, vec![3, 1]);
    let before = devices.clone();
    filter_peripherals(&mut devices, &properties, &f);
    assert_eq!(devices, before);
}
