use deadlock_abba::device::{Device, NUMBER_OF_REGISTERS};

#[test]
fn ok_format_is_stable() {
    let device = Device::new("SPI", [0x00, 0xAA, 0xBB]);
    assert_eq!(device.to_string(), "device [SPI] [0x00, 0xAA, 0xBB] [0]");
}

#[test]
fn ok_count_usage_is_displayed() {
    let mut device = Device::new("SPI", [0x00, 0xAA, 0xBB]);
    let max = 1000;
    for i in 0..max {
        assert!(device.to_string().ends_with(&format!("[{}]", i)));
        device.write_register(Device::REG_TO_WRITE, 0xCC);
    }
    assert!(device.to_string().ends_with(&format!("[{}]", max)));
}

#[test]
fn ok_name_is_displayed() {
    let name = "SPI";
    let device = Device::new(name, [0x00, 0xAA, 0xBB]);
    assert!(device.to_string().contains(name));
}

#[test]
fn ok_device_created() {
    let device1 = Device::new("SPI", [0x00, 0xAA, 0xBB]);
    let device2 = Device::new("I2C", [0x00, 0xCC, 0xDD]);
    //
    assert_eq!(device1.read_register(0), 0x00);
    assert_eq!(device1.read_register(Device::REG_TO_READ), 0xAA);
    assert_eq!(device1.read_register(Device::REG_TO_WRITE), 0xBB);
    assert_eq!(device2.read_register(0), 0x00);
    assert_eq!(device2.read_register(Device::REG_TO_READ), 0xCC);
    assert_eq!(device2.read_register(Device::REG_TO_WRITE), 0xDD);
}

#[test]
fn ok_with_all_same_values() {
    let value = 0xBB;
    let device = Device::new("SPI", [value; NUMBER_OF_REGISTERS]);
    let result = device.read_register(Device::REG_TO_READ);
    assert_eq!(result, value);
}

#[test]
fn ok_with_different_values_on_each_register() {
    let device = Device::new("SPI", [0xAA, 0xBB, 0xCC]);
    //
    assert_eq!(device.read_register(Device::REG_TO_READ), 0xBB);
    assert_eq!(device.read_register(Device::REG_TO_WRITE), 0xCC);
}

#[test]
fn ko_with_different_values_on_each_register() {
    let device = Device::new("SPI", [0xAA, 0xBB, 0xCC]);
    //
    assert_ne!(device.read_register(Device::REG_TO_READ), 0xFF);
    assert_ne!(device.read_register(Device::REG_TO_WRITE), 0xFF);
}

#[test]
fn ok_register_updated() {
    let value = 0xCC;
    let mut device = Device::new("SPI", [0x00, 0xAA, 0xBB]);
    device.write_register(Device::REG_TO_WRITE, value);
    //
    assert_eq!(device.read_register(0), 0x00);
    assert_eq!(device.read_register(Device::REG_TO_READ), 0xAA);
    assert_eq!(device.read_register(Device::REG_TO_WRITE), value);
}

// Further cases of this library.

#[test]
fn format_shows_every_byte_in_upper_case_hex() {
    let device = Device::new("I²C", [0x0F, 0xA0, 0xFF]);
    assert_eq!(device.to_string(), "device [I²C] [0x0F, 0xA0, 0xFF] [0]");
}

#[test]
fn format_of_an_empty_name() {
    let device = Device::new("", [0x01, 0x02, 0x03]);
    assert_eq!(device.to_string(), "device [] [0x01, 0x02, 0x03] [0]");
}

#[test]
fn format_after_writes_shows_new_value_and_count() {
    let mut device = Device::new("SPI", [0x00, 0xAA, 0xBB]);
    for _ in 0..12 {
        device.write_register(0, 0x5C);
    }
    device.write_register(Device::REG_TO_WRITE, 0x07);
    assert_eq!(device.to_string(), "device [SPI] [0x5C, 0xAA, 0x07] [13]");
}

#[test]
fn format_of_a_large_count() {
    let mut device = Device::new("X", [0, 0, 0]);
    for _ in 0..1205 {
        device.write_register(1, 9);
    }
    assert_eq!(device.to_string(), "device [X] [0x00, 0x09, 0x00] [1205]");
}

#[test]
fn read_after_write_sees_the_write_only_in_its_register() {
    let mut device = Device::new("SPI", [0x10, 0x20, 0x30]);
    device.write_register(0, 0x99);
    assert_eq!(device.read_register(0), 0x99);
    assert_eq!(device.read_register(1), 0x20);
    assert_eq!(device.read_register(2), 0x30);
}

#[test]
fn last_write_wins() {
    let mut device = Device::new("SPI", [0, 0, 0]);
    device.write_register(1, 0x11);
    device.write_register(1, 0x22);
    assert_eq!(device.read_register(1), 0x22);
    assert!(device.to_string().ends_with("[2]"));
}

#[test]
fn reads_do_not_count_as_uses() {
    let device = Device::new("SPI", [1, 2, 3]);
    for _ in 0..5 {
        device.read_register(2);
    }
    assert!(device.to_string().ends_with("[0]"));
}

#[test]
fn register_bank_size() {
    assert_eq!(NUMBER_OF_REGISTERS, 3);
    assert_eq!(Device::REG_TO_READ, 1);
    assert_eq!(Device::REG_TO_WRITE, 2);
}
