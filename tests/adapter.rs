use btleplug::addr::to_addr;
use btleplug::{Adapter, Advertisement, BDAddr, CentralEvent, Error};

const BEACON: u64 = 0xAABB_CCDD_EE01;

fn beacon_addr() -> BDAddr {
    BDAddr::new([0x01, 0xEE, 0xDD, 0xCC, 0xBB, 0xAA])
}

fn adv(address: Option<u64>, name: Option<&str>, rssi: Option<i16>) -> Advertisement {
    Advertisement {
        bluetooth_address: address,
        local_name: name.map(|n| n.to_string()),
        signal_strength: rssi,
        data: vec![0x02, 0x01, 0x06],
    }
}

fn scanning_adapter() -> Adapter {
    let mut a = Adapter::new();
    assert!(a.start_scan(|| Ok(())).is_ok());
    a
}

fn radio_must_not_be_asked() -> Result<(), Error> {
    panic!("the radio was asked although no change of scan state was due")
}

#[test]
fn new_adapter_is_idle_and_empty() {
    let mut a = Adapter::new();
    assert!(!a.is_scanning());
    assert!(a.peripherals().is_empty());
    assert!(a.peripheral(beacon_addr()).is_none());
    let rx = a.event_receiver().unwrap();
    assert!(a.next_event(&rx).is_none());
}

#[test]
fn to_addr_puts_least_significant_byte_first() {
    assert_eq!(to_addr(BEACON).address, [0x01, 0xEE, 0xDD, 0xCC, 0xBB, 0xAA]);
    assert_eq!(to_addr(0).address, [0; 6]);
    assert_eq!(to_addr(0xFFFF_FFFF_FFFF).address, [0xFF; 6]);
    assert!(to_addr(BEACON) == beacon_addr());
    assert!(to_addr(BEACON + 1) != beacon_addr());
}

#[test]
fn advertisement_address_is_normalised() {
    assert!(adv(Some(BEACON), None, None).address() == Some(beacon_addr()));
    assert!(adv(None, None, None).address().is_none());
    assert!(adv(Some(0x1_0000_0000_0000), None, None).address().is_none());
}

#[test]
fn end_to_end_scenario() {
    let mut a = Adapter::new();
    let rx = a.event_receiver().unwrap();
    assert!(a.start_scan(|| Ok(())).is_ok());
    assert!(a.is_scanning());

    let e = a.on_advertisement(&adv(Some(BEACON), Some("Beacon-1"), Some(-70)));
    assert_eq!(e, Some(CentralEvent::DeviceDiscovered(beacon_addr())));
    let all = a.peripherals();
    assert_eq!(all.len(), 1);
    assert_eq!(all[0].local_name(), Some("Beacon-1".to_string()));
    assert!(all[0].address() == beacon_addr());
    assert_eq!(a.next_event(&rx), Some(CentralEvent::DeviceDiscovered(beacon_addr())));

    let e = a.on_advertisement(&adv(Some(BEACON), Some("Beacon-1"), Some(-42)));
    assert_eq!(e, Some(CentralEvent::DeviceUpdated(beacon_addr())));
    let p = a.peripheral(beacon_addr()).unwrap();
    assert_eq!(p.signal_strength(), Some(-42));
    assert_eq!(a.next_event(&rx), Some(CentralEvent::DeviceUpdated(beacon_addr())));

    assert!(a.stop_scan(|| Ok(())).is_ok());
    assert!(!a.is_scanning());
    assert_eq!(a.on_advertisement(&adv(Some(BEACON), Some("late"), Some(-10))), None);
    assert_eq!(a.next_event(&rx), None);
    assert_eq!(a.peripheral(beacon_addr()).unwrap().signal_strength(), Some(-42));
    assert_eq!(a.peripherals().len(), 1);
}

#[test]
fn repeated_callbacks_keep_one_record() {
    let mut a = scanning_adapter();
    for i in 0..10i16 {
        a.on_advertisement(&adv(Some(BEACON), Some("Beacon-1"), Some(-i)));
    }
    let all = a.peripherals();
    assert_eq!(all.len(), 1);
    assert!(all[0].address() == beacon_addr());
    assert_eq!(all[0].signal_strength(), Some(-9));
}

#[test]
fn first_callback_discovers_and_later_ones_update() {
    let mut a = scanning_adapter();
    let rx = a.event_receiver().unwrap();
    let other = 0x1122_3344_5566u64;
    a.on_advertisement(&adv(Some(BEACON), None, None));
    a.on_advertisement(&adv(Some(other), None, None));
    a.on_advertisement(&adv(Some(BEACON), None, None));
    a.on_advertisement(&adv(Some(BEACON), None, None));
    a.on_advertisement(&adv(Some(other), None, None));
    let mut got = Vec::new();
    while let Some(e) = a.next_event(&rx) {
        got.push(e);
    }
    let o = to_addr(other);
    assert_eq!(
        got,
        vec![
            CentralEvent::DeviceDiscovered(beacon_addr()),
            CentralEvent::DeviceDiscovered(o),
            CentralEvent::DeviceUpdated(beacon_addr()),
            CentralEvent::DeviceUpdated(beacon_addr()),
            CentralEvent::DeviceUpdated(o),
        ]
    );
}

#[test]
fn every_event_finds_its_record() {
    let mut a = scanning_adapter();
    let rx = a.event_receiver().unwrap();
    a.on_advertisement(&adv(Some(BEACON), Some("one"), Some(-80)));
    a.on_advertisement(&adv(Some(BEACON), Some("two"), Some(-60)));
    assert_eq!(a.next_event(&rx).unwrap().address(), beacon_addr());
    let p = a.peripheral(beacon_addr()).unwrap();
    assert_eq!(p.local_name(), Some("two".to_string()));
    assert_eq!(p.signal_strength(), Some(-60));
    assert_eq!(p.data(), vec![0x02, 0x01, 0x06]);
}

#[test]
fn counts_records_and_events() {
    let mut a = scanning_adapter();
    let rx = a.event_receiver().unwrap();
    let addrs = [1u64, 2, 3, 2, 1, 4, 4, 4];
    for &x in addrs.iter() {
        a.on_advertisement(&adv(Some(x), None, None));
    }
    assert_eq!(a.peripherals().len(), 4);
    let mut n = 0;
    while a.next_event(&rx).is_some() {
        n += 1;
    }
    assert_eq!(n, addrs.len());
    let order: Vec<BDAddr> = a.peripherals().iter().map(|p| p.address()).collect();
    assert!(order == vec![to_addr(1), to_addr(2), to_addr(3), to_addr(4)]);
}

#[test]
fn start_while_scanning_and_stop_while_idle_succeed_without_the_radio() {
    let mut a = Adapter::new();
    for _ in 0..3 {
        assert!(a.stop_scan(radio_must_not_be_asked).is_ok());
        assert!(!a.is_scanning());
    }
    assert!(a.start_scan(|| Ok(())).is_ok());
    for _ in 0..3 {
        assert!(a.start_scan(radio_must_not_be_asked).is_ok());
        assert!(a.is_scanning());
    }
    assert!(a.stop_scan(|| Ok(())).is_ok());
    assert!(a.stop_scan(radio_must_not_be_asked).is_ok());
}

#[test]
fn radio_failure_to_start_is_surfaced() {
    let mut a = Adapter::new();
    let r = a.start_scan(|| Err(Error::PermissionDenied));
    assert!(matches!(r, Err(Error::PermissionDenied)));
    assert!(!a.is_scanning());
    assert_eq!(a.on_advertisement(&adv(Some(BEACON), None, None)), None);
    assert!(a.peripherals().is_empty());
}

#[test]
fn radio_failure_to_stop_is_surfaced_and_scan_goes_on() {
    let mut a = scanning_adapter();
    let r = a.stop_scan(|| Err(Error::Other("busy".to_string())));
    assert!(matches!(r, Err(Error::Other(ref s)) if s == "busy"));
    assert!(a.is_scanning());
    assert!(a.on_advertisement(&adv(Some(BEACON), None, None)).is_some());
}

#[test]
fn malformed_callbacks_change_nothing() {
    let mut a = scanning_adapter();
    let rx = a.event_receiver().unwrap();
    assert_eq!(a.on_advertisement(&adv(None, Some("noise"), Some(-90))), None);
    assert_eq!(a.on_advertisement(&adv(Some(0xFFFF_0000_0000_0000), None, None)), None);
    assert!(a.peripherals().is_empty());
    assert_eq!(a.next_event(&rx), None);
    assert!(a.is_scanning());
    assert!(a.on_advertisement(&adv(Some(BEACON), None, None)).is_some());
}

#[test]
fn event_receiver_is_handed_out_once() {
    let mut a = Adapter::new();
    assert!(a.event_receiver().is_some());
    assert!(a.event_receiver().is_none());
    assert!(a.event_receiver().is_none());
}

#[test]
fn scan_knobs_change_nothing() {
    let mut a = scanning_adapter();
    a.active(true);
    a.filter_duplicates(true);
    a.on_advertisement(&adv(Some(BEACON), None, None));
    a.on_advertisement(&adv(Some(BEACON), None, None));
    assert_eq!(a.peripherals().len(), 1);
    assert!(a.is_scanning());
}
