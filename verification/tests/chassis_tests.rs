use ilo_hw_metrics::chassis::{
    decode_chassis, encode_chassis, FetchError, Hpe, Oem, Root, SmartStorageBattery, Status,
    Status2,
};

fn simple_root(health: &[u8], state: &[u8], modules: Vec<SmartStorageBattery>) -> Root {
    Root {
        status: Status2 { health: health.to_vec(), state: state.to_vec() },
        oem: Oem { hpe: Hpe { smart_storage_battery: modules } },
    }
}

#[test]
fn scenario_chassis_body() {
    let body = b"{\"Status\":{\"Health\":\"OK\",\"State\":\"Enabled\"},\"Oem\":{\"Hpe\":{\"SmartStorageBattery\":[]}}}";
    let root = decode_chassis(body).unwrap();
    assert_eq!(root.status.health, b"OK".to_vec());
    assert_eq!(root.status.state, b"Enabled".to_vec());
    assert_eq!(root.oem.hpe.smart_storage_battery.len(), 0);
}

#[test]
fn empty_battery_array_is_not_an_error() {
    let body = b"{\"Oem\":{\"Hpe\":{\"SmartStorageBattery\":[]}},\"Status\":{}}";
    let root = decode_chassis(body).unwrap();
    assert_eq!(root.oem.hpe.smart_storage_battery, Vec::new());
}

#[test]
fn missing_top_level_status_fails() {
    let body = b"{\"Oem\":{\"Hpe\":{\"SmartStorageBattery\":[]}}}";
    assert_eq!(decode_chassis(body).err(), Some(FetchError::Decode));
}

#[test]
fn missing_vendor_block_defaults_to_no_modules() {
    let body = b"{\"Status\":{\"Health\":\"OK\",\"State\":\"Enabled\"}}";
    let root = decode_chassis(body).unwrap();
    assert_eq!(root.oem.hpe.smart_storage_battery.len(), 0);
}

#[test]
fn missing_health_and_state_default_to_empty() {
    let body = b"{\"Status\":{}}";
    let root = decode_chassis(body).unwrap();
    assert_eq!(root.status.health, b"".to_vec());
    assert_eq!(root.status.state, b"".to_vec());
}

#[test]
fn unknown_fields_are_ignored() {
    let body = b"{\"@odata.id\":\"/redfish/v1/Chassis/1/\",\"Thermal\":{\"Fans\":[1,2,{\"x\":\"a]}\"}]},\"Status\":{\"Health\":\"Warning\",\"HealthRollup\":\"OK\",\"State\":\"Enabled\"},\"SKU\":null}";
    let root = decode_chassis(body).unwrap();
    assert_eq!(root.status.health, b"Warning".to_vec());
    assert_eq!(root.status.state, b"Enabled".to_vec());
}

#[test]
fn battery_modules_keep_array_order() {
    let body = b"{\"Status\":{\"Health\":\"OK\",\"State\":\"Enabled\"},\"Oem\":{\"Hpe\":{\"SmartStorageBattery\":[{\"Status\":{\"Health\":\"OK\",\"State\":\"Enabled\"}},{\"Status\":{\"Health\":\"Critical\",\"State\":\"Absent\"}}]}}}";
    let root = decode_chassis(body).unwrap();
    let modules = &root.oem.hpe.smart_storage_battery;
    assert_eq!(modules.len(), 2);
    assert_eq!(modules[0].status.health, b"OK".to_vec());
    assert_eq!(modules[1].status.health, b"Critical".to_vec());
    assert_eq!(modules[1].status.state, b"Absent".to_vec());
}

#[test]
fn whitespace_between_tokens_is_accepted() {
    let body = b" {\n  \"Status\" : {\t\"Health\" : \"OK\" ,\r\n \"State\" : \"Enabled\" }\n} ";
    let root = decode_chassis(body).unwrap();
    assert_eq!(root.status.health, b"OK".to_vec());
    assert_eq!(root.status.state, b"Enabled".to_vec());
}

#[test]
fn repeated_known_field_keeps_the_later_value() {
    let body = b"{\"Status\":{\"Health\":\"A\",\"Health\":\"B\"}}";
    let root = decode_chassis(body).unwrap();
    assert_eq!(root.status.health, b"B".to_vec());
}

#[test]
fn trailing_bytes_after_the_document_fail() {
    let body = b"{\"Status\":{}}{}";
    assert_eq!(decode_chassis(body).err(), Some(FetchError::Decode));
}

#[test]
fn non_object_body_fails() {
    assert_eq!(decode_chassis(b"[1,2,3]").err(), Some(FetchError::Decode));
    assert_eq!(decode_chassis(b"").err(), Some(FetchError::Decode));
}

#[test]
fn string_escapes_decode_in_read_fields() {
    let body = b"{\"Status\":{\"Health\":\"O\\\"K\\\\\\n\"}}";
    let root = decode_chassis(body).unwrap();
    assert_eq!(root.status.health, b"O\"K\\\n".to_vec());
}

#[test]
fn unicode_escape_in_read_field_fails() {
    let body = b"{\"Status\":{\"Health\":\"\\u0041\"}}";
    assert_eq!(decode_chassis(body).err(), Some(FetchError::Decode));
}

#[test]
fn unicode_escape_in_ignored_field_is_skipped() {
    let body = b"{\"Name\":\"\\u0041\",\"Status\":{\"Health\":\"OK\"}}";
    let root = decode_chassis(body).unwrap();
    assert_eq!(root.status.health, b"OK".to_vec());
}

#[test]
fn battery_module_without_status_defaults_to_empty() {
    let body = b"{\"Status\":{},\"Oem\":{\"Hpe\":{\"SmartStorageBattery\":[{\"Model\":\"96W\"}]}}}";
    let root = decode_chassis(body).unwrap();
    let modules = &root.oem.hpe.smart_storage_battery;
    assert_eq!(modules.len(), 1);
    assert_eq!(modules[0].status.health, b"".to_vec());
    assert_eq!(modules[0].status.state, b"".to_vec());
}

#[test]
fn whitespace_inside_the_battery_array_is_accepted() {
    let body = b"{\"Status\":{} , \"Oem\":{\"Hpe\":{\"SmartStorageBattery\":[ {\"Status\":{\"Health\":\"OK\"}} , {\"Status\":{}} ]}}}";
    let root = decode_chassis(body).unwrap();
    assert_eq!(root.oem.hpe.smart_storage_battery.len(), 2);
    assert_eq!(root.oem.hpe.smart_storage_battery[0].status.health, b"OK".to_vec());
}

#[test]
fn encode_produces_vendor_field_names() {
    let root = simple_root(b"OK", b"Enabled", Vec::new());
    let encoded = encode_chassis(&root);
    assert_eq!(
        encoded,
        b"{\"Status\":{\"Health\":\"OK\",\"State\":\"Enabled\"},\"Oem\":{\"Hpe\":{\"SmartStorageBattery\":[]}}}".to_vec()
    );
}

#[test]
fn round_trip_plain_record() {
    let root = simple_root(
        b"OK",
        b"Enabled",
        vec![
            SmartStorageBattery {
                status: Status { health: b"OK".to_vec(), state: b"Enabled".to_vec() },
            },
            SmartStorageBattery {
                status: Status { health: b"Warning".to_vec(), state: b"Absent".to_vec() },
            },
        ],
    );
    let decoded = decode_chassis(&encode_chassis(&root)).unwrap();
    assert_eq!(decoded, root);
}

#[test]
fn round_trip_awkward_bytes() {
    let root = simple_root(
        b"O\"K\\",
        &[0u8, 10, 13, 34, 92, 200, 255],
        vec![SmartStorageBattery {
            status: Status { health: b"\\\"\\".to_vec(), state: Vec::new() },
        }],
    );
    let decoded = decode_chassis(&encode_chassis(&root)).unwrap();
    assert_eq!(decoded, root);
}

#[test]
fn round_trip_empty_strings() {
    let root = simple_root(b"", b"", Vec::new());
    let decoded = decode_chassis(&encode_chassis(&root)).unwrap();
    assert_eq!(decoded, root);
}
