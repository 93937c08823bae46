use serial_server::{create_device, CreateDeviceError, Device, DeviceRegistry, DeviceType, NoStateError};
use std::sync::Arc;

fn fan(address: u8) -> Device {
    Device { address, device_type: DeviceType::Fan }
}

#[test]
fn address_zero_is_out_of_range() {
    let mut registry = DeviceRegistry::new();
    assert_eq!(registry.create(fan(0)), Err(CreateDeviceError::AddressOutOfRange));
    assert!(registry.devices().is_empty());
}

#[test]
fn address_248_is_out_of_range() {
    let mut registry = DeviceRegistry::new();
    assert_eq!(registry.create(fan(248)), Err(CreateDeviceError::AddressOutOfRange));
    assert_eq!(registry.create(fan(255)), Err(CreateDeviceError::AddressOutOfRange));
    assert!(registry.devices().is_empty());
}

#[test]
fn range_bounds_are_accepted() {
    let mut registry = DeviceRegistry::new();
    assert_eq!(registry.create(fan(1)), Ok(vec![fan(1)]));
    assert_eq!(registry.create(fan(247)), Ok(vec![fan(1), fan(247)]));
}

#[test]
fn second_create_of_address_one_is_taken() {
    let mut registry = DeviceRegistry::new();
    assert!(registry.create(fan(1)).is_ok());
    let sensor = Device { address: 1, device_type: DeviceType::TemperatureSensor };
    assert_eq!(registry.create(sensor), Err(CreateDeviceError::AddressTaken));
    assert_eq!(registry.devices(), vec![fan(1)]);
    assert!(registry.is_taken(1));
    assert!(!registry.is_taken(2));
}

#[test]
fn snapshot_keeps_insertion_order() {
    let mut registry = DeviceRegistry::new();
    let sensor = Device { address: 3, device_type: DeviceType::TemperatureSensor };
    registry.create(fan(200)).unwrap();
    registry.create(sensor).unwrap();
    let snapshot = registry.create(fan(17)).unwrap();
    assert_eq!(snapshot, vec![fan(200), sensor, fan(17)]);
    assert_eq!(registry.devices(), snapshot);
}

#[test]
fn create_device_without_registry_is_no_state() {
    assert_eq!(create_device(None, fan(9)), Err(CreateDeviceError::NoState(NoStateError)));
}

#[test]
fn create_device_checks_range_before_registry() {
    assert_eq!(create_device(None, fan(0)), Err(CreateDeviceError::AddressOutOfRange));
    assert_eq!(create_device(None, fan(248)), Err(CreateDeviceError::AddressOutOfRange));
}

#[test]
fn create_device_on_registry() {
    let mut registry = DeviceRegistry::new();
    assert_eq!(create_device(Some(&mut registry), fan(9)), Ok(vec![fan(9)]));
    assert_eq!(create_device(Some(&mut registry), fan(9)), Err(CreateDeviceError::AddressTaken));
    assert_eq!(create_device(Some(&mut registry), fan(0)), Err(CreateDeviceError::AddressOutOfRange));
    assert_eq!(registry.devices(), vec![fan(9)]);
}

#[test]
fn concurrent_creates_with_distinct_addresses_all_succeed() {
    let runtime = tokio::runtime::Builder::new_multi_thread().worker_threads(4).build().unwrap();
    let registry = Arc::new(tokio::sync::Mutex::new(DeviceRegistry::new()));
    let handles: Vec<_> = (1..=247u8)
        .map(|address| {
            let registry = Arc::clone(&registry);
            runtime.spawn(async move {
                let mut guard = registry.lock().await;
                guard.create(fan(address))
            })
        })
        .collect();
    for handle in handles {
        assert!(runtime.block_on(handle).unwrap().is_ok());
    }
    let devices = runtime.block_on(async { registry.lock().await.devices() });
    assert_eq!(devices.len(), 247);
    let mut addresses: Vec<u8> = devices.iter().map(|d| d.address).collect();
    addresses.sort();
    assert_eq!(addresses, (1..=247u8).collect::<Vec<u8>>());
}

#[test]
fn concurrent_creates_of_one_address_have_one_winner() {
    let runtime = tokio::runtime::Builder::new_multi_thread().worker_threads(4).build().unwrap();
    let registry = Arc::new(tokio::sync::Mutex::new(DeviceRegistry::new()));
    let handles: Vec<_> = (0..32)
        .map(|_| {
            let registry = Arc::clone(&registry);
            runtime.spawn(async move { registry.lock().await.create(fan(42)) })
        })
        .collect();
    let mut wins = 0;
    for handle in handles {
        match runtime.block_on(handle).unwrap() {
            Ok(_) => wins += 1,
            Err(e) => assert_eq!(e, CreateDeviceError::AddressTaken),
        }
    }
    assert_eq!(wins, 1);
    assert_eq!(runtime.block_on(async { registry.lock().await.devices() }), vec![fan(42)]);
}
