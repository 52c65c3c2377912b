use deadlock_abba::device::{Device, DeviceKind};
use deadlock_abba::transfer::{
    device_index, is_deadlock_allowed, plan_transfer, transfer_register, TransferPlan,
};

#[test]
fn deadlock_flag_present() {
    let args = vec!["program".to_string(), "deadlock".to_string()];
    let result = is_deadlock_allowed(&args);
    assert!(result);
}

#[test]
fn deadlock_flag_empty() {
    let args = vec!["program".to_string(), "".to_string()];
    let result = !is_deadlock_allowed(&args);
    assert!(result);
}

#[test]
fn deadlock_flag_absent() {
    let args = vec!["program".to_string()];
    let result = !is_deadlock_allowed(&args);
    assert!(result);
}

#[test]
fn deadlock_flag_wrong_word() {
    let args = vec!["program".to_string(), "helloWorld".to_string()];
    let result = !is_deadlock_allowed(&args);
    assert!(result);
}

// Further cases of this library.

#[test]
fn deadlock_flag_only_counts_as_second_argument() {
    let none: Vec<String> = Vec::new();
    assert!(!is_deadlock_allowed(&none));
    let first = vec!["deadlock".to_string()];
    assert!(!is_deadlock_allowed(&first));
    let third = vec!["program".to_string(), "x".to_string(), "deadlock".to_string()];
    assert!(!is_deadlock_allowed(&third));
    let extra = vec!["program".to_string(), "deadlock".to_string(), "x".to_string()];
    assert!(is_deadlock_allowed(&extra));
}

#[test]
fn deadlock_flag_is_exact() {
    for word in ["Deadlock", "deadlock ", "deadlocks", "dead", " deadlock"] {
        let args = vec!["program".to_string(), word.to_string()];
        assert!(!is_deadlock_allowed(&args), "{word}");
    }
}

#[test]
fn device_positions() {
    assert_eq!(device_index(DeviceKind::I2c), 0);
    assert_eq!(device_index(DeviceKind::Spi), 1);
}

#[test]
fn plan_from_i2c_locks_source_first() {
    for deadlock_mode in [false, true] {
        let plan = plan_transfer(DeviceKind::I2c, DeviceKind::Spi, deadlock_mode);
        assert_eq!(
            plan,
            TransferPlan {
                source: 0,
                destination: 1,
                first_lock: 0,
                second_lock: 1,
                pause_between_locks: false,
            }
        );
    }
}

#[test]
fn plan_from_spi_in_normal_mode_keeps_the_global_order() {
    let plan = plan_transfer(DeviceKind::Spi, DeviceKind::I2c, false);
    assert_eq!(
        plan,
        TransferPlan {
            source: 1,
            destination: 0,
            first_lock: 0,
            second_lock: 1,
            pause_between_locks: false,
        }
    );
}

#[test]
fn plan_from_spi_in_deadlock_mode_locks_source_first_and_pauses() {
    let plan = plan_transfer(DeviceKind::Spi, DeviceKind::I2c, true);
    assert_eq!(
        plan,
        TransferPlan {
            source: 1,
            destination: 0,
            first_lock: 1,
            second_lock: 0,
            pause_between_locks: true,
        }
    );
}

#[test]
fn transfer_copies_read_register_into_write_register() {
    let i2c = Device::new("I2C", [0x00, 0xAA, 0xBB]);
    let mut spi = Device::new("SPI", [0x01, 0xCC, 0xDD]);
    transfer_register(&i2c, &mut spi);
    assert_eq!(spi.read_register(0), 0x01);
    assert_eq!(spi.read_register(Device::REG_TO_READ), 0xCC);
    assert_eq!(spi.read_register(Device::REG_TO_WRITE), 0xAA);
    assert_eq!(spi.to_string(), "device [SPI] [0x01, 0xCC, 0xAA] [1]");
    assert_eq!(i2c.to_string(), "device [I2C] [0x00, 0xAA, 0xBB] [0]");
}

#[test]
fn thousand_transfers_from_i2c_to_spi() {
    let i2c = Device::new("I2C", [0x00, 0xAA, 0xBB]);
    let mut spi = Device::new("SPI", [0x01, 0xCC, 0xDD]);
    for _ in 0..1000 {
        transfer_register(&i2c, &mut spi);
    }
    assert_eq!(spi.read_register(Device::REG_TO_READ), 0xCC);
    assert_eq!(spi.read_register(Device::REG_TO_WRITE), 0xAA);
    assert!(spi.to_string().ends_with("[1000]"));
    assert!(spi.to_string().contains("SPI"));
}

#[test]
fn opposite_transfers_commute() {
    let mut a1 = Device::new("I2C", [0x00, 0xAA, 0xBB]);
    let mut b1 = Device::new("SPI", [0x01, 0xCC, 0xDD]);
    transfer_register(&a1, &mut b1);
    transfer_register(&b1, &mut a1);

    let mut a2 = Device::new("I2C", [0x00, 0xAA, 0xBB]);
    let mut b2 = Device::new("SPI", [0x01, 0xCC, 0xDD]);
    transfer_register(&b2, &mut a2);
    transfer_register(&a2, &mut b2);

    assert_eq!(a1.to_string(), a2.to_string());
    assert_eq!(b1.to_string(), b2.to_string());
    assert_eq!(a1.to_string(), "device [I2C] [0x00, 0xAA, 0xCC] [1]");
    assert_eq!(b1.to_string(), "device [SPI] [0x01, 0xCC, 0xAA] [1]");
}

#[test]
fn any_interleaving_ends_as_separate_runs() {
    // 1 = I²C -> SPI, 0 = SPI -> I²C
    let schedules: [&[u8]; 4] = [
        &[1, 1, 1, 0, 0],
        &[0, 0, 1, 1, 1],
        &[1, 0, 1, 0, 1],
        &[0, 1, 1, 0, 1],
    ];
    for schedule in schedules {
        let mut i2c = Device::new("I2C", [0x00, 0xAA, 0xBB]);
        let mut spi = Device::new("SPI", [0x01, 0xCC, 0xDD]);
        for step in schedule {
            if *step == 1 {
                transfer_register(&i2c, &mut spi);
            } else {
                transfer_register(&spi, &mut i2c);
            }
        }
        assert_eq!(i2c.to_string(), "device [I2C] [0x00, 0xAA, 0xCC] [2]");
        assert_eq!(spi.to_string(), "device [SPI] [0x01, 0xCC, 0xAA] [3]");
    }
}
