use vstd::prelude::*;

verus! {

/// Restricts which discovered devices a scan reports. UUIDs are held as
/// their 128-bit values.
#[derive(Debug, Clone, PartialEq, Eq)]
pub enum ScanFilter {
    /// Report every device.
    NoFilter,
    /// Report devices that advertise this service.
    Service(u128),
    /// Report devices that advertise at least one of these services.
    AnyService(Vec<u128>),
    /// Report devices that advertise all of these services.
    AllServices(Vec<u128>),
    /// Report devices whose manufacturer data under the key equals the value.
    ManufacturerData(u16, Vec<u8>),
    /// Report devices whose manufacturer data under the key equals the value
    /// on the bits of the mask (key, value, mask).
    ManufacturerDataMasked(u16, Vec<u8>, Vec<u8>),
}

/// The mathematical content of a [`ScanFilter`].
pub enum ScanFilterView {
    NoFilter,
    Service(u128),
    AnyService(Seq<u128>),
    AllServices(Seq<u128>),
    ManufacturerData(u16, Seq<u8>),
    ManufacturerDataMasked(u16, Seq<u8>, Seq<u8>),
}

impl View for ScanFilter {
    type V = ScanFilterView;

    open spec fn view(&self) -> ScanFilterView {
        match self {
            ScanFilter::NoFilter => ScanFilterView::NoFilter,
            ScanFilter::Service(u) => ScanFilterView::Service(*u),
            ScanFilter::AnyService(us) => ScanFilterView::AnyService(us@),
            ScanFilter::AllServices(us) => ScanFilterView::AllServices(us@),
            ScanFilter::ManufacturerData(k, v) => ScanFilterView::ManufacturerData(*k, v@),
            ScanFilter::ManufacturerDataMasked(k, v, m) => ScanFilterView::ManufacturerDataMasked(
                *k,
                v@,
                m@,
            ),
        }
    }
}

/// How a value is written to a characteristic.
#[derive(Debug, Clone, Copy, PartialEq, Eq)]
pub enum WriteType {
    /// The device acknowledges the write.
    WithResponse,
    /// The write is not acknowledged.
    WithoutResponse,
}

/// One entry of the manufacturer-specific advertisement data.
#[derive(Debug, Clone, PartialEq, Eq)]
pub struct ManufacturerEntry {
    pub key: u16,
    pub data: Vec<u8>,
}

/// What the scan filters read of an advertising peripheral.
#[derive(Debug, Clone, PartialEq, Eq)]
pub struct PeripheralProperties {
    /// Signal strength of the last advertisement; absent when the device is
    /// not in range.
    pub rssi: Option<i16>,
    /// Advertised service UUIDs.
    pub services: Vec<u128>,
    /// Manufacturer data, one entry per key.
    pub manufacturer_data: Vec<ManufacturerEntry>,
}

/// The mathematical content of [`PeripheralProperties`].
pub struct PropertiesView {
    pub rssi: Option<i16>,
    pub services: Seq<u128>,
    pub manufacturer_data: Seq<(u16, Seq<u8>)>,
}

impl View for PeripheralProperties {
    type V = PropertiesView;

    open spec fn view(&self) -> PropertiesView {
        PropertiesView {
            rssi: self.rssi,
            services: self.services@,
            manufacturer_data: self.manufacturer_data@.map_values(
                |e: ManufacturerEntry| (e.key, e.data@),
            ),
        }
    }
}

/// The view of an optional set of properties.
pub open spec fn opt_properties_view(p: Option<PeripheralProperties>) -> Option<PropertiesView> {
    match p {
        Some(p) => Some(p@),
        None => None,
    }
}

} // verus!
