use btleplug::addr::to_addr;
use btleplug::{AdapterManager, Advertisement, CentralEvent, Peripheral, Upsert};

fn record(x: u64, name: &str) -> Peripheral {
    let adv = Advertisement {
        bluetooth_address: Some(x),
        local_name: Some(name.to_string()),
        signal_strength: None,
        data: Vec::new(),
    };
    Peripheral::from_advertisement(to_addr(x), &adv)
}

#[test]
fn upsert_reports_insert_then_replace() {
    let mut m = AdapterManager::new();
    assert_eq!(m.upsert(record(7, "a")), Upsert::Inserted);
    assert_eq!(m.upsert(record(7, "b")), Upsert::Replaced);
    assert_eq!(m.upsert(record(8, "c")), Upsert::Inserted);
    assert_eq!(m.peripherals().len(), 2);
    assert_eq!(m.peripheral(&to_addr(7)).unwrap().local_name(), Some("b".to_string()));
}

#[test]
fn add_update_and_has() {
    let mut m = AdapterManager::new();
    assert!(!m.has_peripheral(&to_addr(3)));
    m.add_peripheral(record(3, "x"));
    assert!(m.has_peripheral(&to_addr(3)));
    m.update_peripheral(record(3, "y"));
    assert_eq!(m.peripherals().len(), 1);
    assert_eq!(m.peripheral(&to_addr(3)).unwrap().local_name(), Some("y".to_string()));
    assert!(m.peripheral(&to_addr(4)).is_none());
}

#[test]
fn emitted_events_come_out_oldest_first() {
    let mut m = AdapterManager::new();
    let rx = m.event_receiver().unwrap();
    assert!(m.event_receiver().is_none());
    m.add_peripheral(record(1, "a"));
    m.emit(CentralEvent::DeviceDiscovered(to_addr(1)));
    m.emit(CentralEvent::DeviceUpdated(to_addr(1)));
    assert_eq!(m.next_event(&rx), Some(CentralEvent::DeviceDiscovered(to_addr(1))));
    assert_eq!(m.next_event(&rx), Some(CentralEvent::DeviceUpdated(to_addr(1))));
    assert_eq!(m.next_event(&rx), None);
}
