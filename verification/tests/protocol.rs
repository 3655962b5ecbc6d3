use std::collections::BTreeMap;

use pico_forge::channel::build_commission_request;
use pico_forge::cbor::{build_vendor_payload, lookup_int, lookup_text, CborKey, CborVal, VendorCommand};
use pico_forge::credman::{decode_credential_id, flatten_credentials, CredInfo, RpInfo};
use pico_forge::error::PFError;
use pico_forge::hexcodec::parse_hex_u16;
use pico_forge::hid::{frame_request, init_payload_len, reassemble_response};
use pico_forge::status::{aaguid_string, aggregate_status, summarize_fido_info, FidoInfoRaw};
use pico_forge::textfmt::version_string;
use pico_forge::tlv::{decode_config, encode_config, AppConfigInput};

fn empty_config() -> AppConfigInput {
    AppConfigInput::default()
}

fn cbor_bytes(entries: Vec<(serde_cbor_2::Value, serde_cbor_2::Value)>) -> Vec<u8> {
    let mut m = BTreeMap::new();
    for (k, v) in entries {
        m.insert(k, v);
    }
    serde_cbor_2::to_vec(&serde_cbor_2::Value::Map(m)).unwrap()
}

#[test]
fn tlv_round_trip_full_config() {
    let mut c = empty_config();
    c.vid = Some("1209".to_string());
    c.pid = Some("BEEF".to_string());
    c.product_name = Some("MyKey".to_string());
    c.led_gpio = Some(25);
    c.led_brightness = Some(128);
    c.led_dimmable = Some(true);
    c.led_steady = Some(false);
    c.power_cycle_on_reset = Some(false);
    c.touch_timeout = Some(15);
    c.enable_secp256k1 = Some(true);
    c.led_driver = Some(2);
    let blob = encode_config(&c).unwrap();
    let d = decode_config(&blob).unwrap();
    assert_eq!(d.vid, Some(0x1209));
    assert_eq!(d.pid, Some(0xBEEF));
    assert_eq!(d.led_gpio, Some(25));
    assert_eq!(d.led_brightness, Some(128));
    assert_eq!(d.touch_timeout, Some(15));
    assert_eq!(d.options, Some(0x02 | 0x04));
    assert_eq!(d.curves, Some(0x08));
    assert_eq!(d.product_name, Some(b"MyKey".to_vec()));
    assert_eq!(d.led_driver, Some(2));
}

#[test]
fn tlv_round_trip_absent_fields_stay_absent() {
    let blob = encode_config(&empty_config()).unwrap();
    let d = decode_config(&blob).unwrap();
    assert_eq!(d.vid, None);
    assert_eq!(d.pid, None);
    assert_eq!(d.led_gpio, None);
    assert_eq!(d.led_brightness, None);
    assert_eq!(d.touch_timeout, None);
    assert_eq!(d.curves, None);
    assert_eq!(d.product_name, None);
    assert_eq!(d.led_driver, None);
    // The options entry alone is always present.
    assert_eq!(d.options, Some(0));
}

#[test]
fn tlv_vid_without_pid_emits_nothing() {
    let mut c = empty_config();
    c.vid = Some("1209".to_string());
    let blob = encode_config(&c).unwrap();
    assert_eq!(blob, vec![0x06, 2, 0, 0]);
}

#[test]
fn options_bitfield_always_two_bytes() {
    let blob = encode_config(&empty_config()).unwrap();
    assert_eq!(blob, vec![0x06, 2, 0x00, 0x00]);
    let mut c = empty_config();
    c.led_dimmable = Some(true);
    c.power_cycle_on_reset = Some(false);
    c.led_steady = Some(true);
    let blob = encode_config(&c).unwrap();
    assert_eq!(blob, vec![0x06, 2, 0x00, 0x02 | 0x04 | 0x08]);
}

#[test]
fn product_name_entry_bytes() {
    let mut c = empty_config();
    c.product_name = Some("MyKey".to_string());
    let blob = encode_config(&c).unwrap();
    let needle = [0x09, 0x06, b'M', b'y', b'K', b'e', b'y', 0x00];
    assert!(blob.windows(needle.len()).any(|w| w == needle));
}

#[test]
fn encode_rejects_bad_hex_ids() {
    let mut c = empty_config();
    c.vid = Some("12z9".to_string());
    c.pid = Some("BEEF".to_string());
    assert!(matches!(encode_config(&c), Err(PFError::Io(_))));
    let mut c = empty_config();
    c.vid = Some("1209".to_string());
    c.pid = Some("123456".to_string());
    assert!(matches!(encode_config(&c), Err(PFError::Io(_))));
}

#[test]
fn encode_rejects_overlong_name() {
    let mut c = empty_config();
    c.product_name = Some("x".repeat(255));
    assert!(matches!(encode_config(&c), Err(PFError::Io(_))));
    let mut c = empty_config();
    c.product_name = Some("x".repeat(254));
    assert!(encode_config(&c).is_ok());
}

#[test]
fn parse_hex_u16_cases() {
    assert_eq!(parse_hex_u16("1209"), Some(0x1209));
    assert_eq!(parse_hex_u16("abCD"), Some(0xABCD));
    assert_eq!(parse_hex_u16("0"), Some(0));
    assert_eq!(parse_hex_u16("0000FFFF"), Some(0xFFFF));
    assert_eq!(parse_hex_u16("10000"), None);
    assert_eq!(parse_hex_u16(""), None);
    assert_eq!(parse_hex_u16("+12"), None);
    assert_eq!(parse_hex_u16("12g4"), None);
}

#[test]
fn version_string_formats_packed_word() {
    // The packed word 0x0102 reads as major 1, minor 2.
    let v: u16 = 0x0102;
    assert_eq!(version_string((v / 256) as u8, (v % 256) as u8), "1.2");
    assert_eq!(version_string(0, 0), "0.0");
    assert_eq!(version_string(255, 255), "255.255");
}

#[test]
fn vendor_payload_two_layer_framing() {
    assert_eq!(
        build_vendor_payload(VendorCommand::Memory, 1),
        vec![0x06, 0xA1, 0x01, 0x01]
    );
    assert_eq!(
        build_vendor_payload(VendorCommand::PhysicalOptions, 1),
        vec![0x05, 0xA1, 0x01, 0x01]
    );
}

#[test]
fn cbor_lookups_find_first_match() {
    let entries = vec![
        (CborKey::Int(1), CborVal::Int(4096)),
        (CborKey::Text("gpio".to_string()), CborVal::Int(25)),
        (CborKey::Int(2), CborVal::Other),
    ];
    assert_eq!(lookup_int(&entries, 1), Some(4096));
    assert_eq!(lookup_int(&entries, 2), None);
    assert_eq!(lookup_int(&entries, 3), None);
    assert_eq!(lookup_text(&entries, &"gpio".to_string()), Some(25));
    assert_eq!(lookup_text(&entries, &"brightness".to_string()), None);
}

#[test]
fn aggregate_degrades_empty_vendor_responses_to_zero() {
    let info = cbor_bytes(vec![(
        serde_cbor_2::Value::Integer(14),
        serde_cbor_2::Value::Integer(0x0102),
    )]);
    let status = aggregate_status(&info, &Vec::new(), &Vec::new(), 0x1209, 0xBEEF, &"Pico".to_string());
    assert_eq!(status.info.flash_used, 0);
    assert_eq!(status.info.flash_total, 0);
    assert_eq!(status.info.firmware_version, "1.2");
    assert_eq!(status.info.serial, "?");
    assert_eq!(status.method, "FIDO");
    assert_eq!(status.config.vid, "1209");
    assert_eq!(status.config.pid, "BEEF");
    assert_eq!(status.config.product_name, "Pico");
    assert_eq!(status.config.led_gpio, 0);
    assert_eq!(status.config.led_brightness, 0);
    assert!(!status.secure_boot);
    assert!(!status.secure_lock);
}

#[test]
fn aggregate_degrades_unparsable_vendor_responses_to_zero() {
    let info = cbor_bytes(vec![]);
    let garbage = vec![0xFF, 0x00, 0x13];
    let status = aggregate_status(&info, &garbage, &garbage, 0, 0, &String::new());
    assert_eq!(status.info.flash_used, 0);
    assert_eq!(status.info.flash_total, 0);
    assert_eq!(status.info.firmware_version, "Unknown");
}

#[test]
fn aggregate_reads_memory_and_physical_maps() {
    let info = cbor_bytes(vec![(
        serde_cbor_2::Value::Integer(14),
        serde_cbor_2::Value::Integer(0x0203),
    )]);
    let mem = cbor_bytes(vec![
        (serde_cbor_2::Value::Integer(1), serde_cbor_2::Value::Integer(65536)),
        (serde_cbor_2::Value::Integer(2), serde_cbor_2::Value::Integer(1048576)),
    ]);
    let phy = cbor_bytes(vec![
        (
            serde_cbor_2::Value::Text("gpio".to_string()),
            serde_cbor_2::Value::Integer(25),
        ),
        (
            serde_cbor_2::Value::Text("brightness".to_string()),
            serde_cbor_2::Value::Integer(200),
        ),
    ]);
    let status = aggregate_status(&info, &mem, &phy, 0x1209, 0x0001, &"Key".to_string());
    assert_eq!(status.info.firmware_version, "2.3");
    assert_eq!(status.info.flash_used, 64);
    assert_eq!(status.info.flash_total, 1024);
    assert_eq!(status.config.led_gpio, 25);
    assert_eq!(status.config.led_brightness, 200);
}

#[test]
fn aaguid_renders_uppercase_or_placeholder() {
    let info = cbor_bytes(vec![(
        serde_cbor_2::Value::Integer(3),
        serde_cbor_2::Value::Bytes(vec![0xDE, 0xAD, 0xBE, 0xEF]),
    )]);
    assert_eq!(aaguid_string(&info), "DEADBEEF");
    let without = cbor_bytes(vec![]);
    assert_eq!(aaguid_string(&without), "Unknown");
}

#[test]
fn summarized_aaguid_is_uppercase_and_even() {
    let raw = FidoInfoRaw {
        versions: vec!["FIDO_2_0".to_string()],
        extensions: vec![],
        aaguid: vec![0x01, 0xab, 0xcd, 0xef, 0x23, 0x45, 0x67, 0x89],
        options: vec![("rk".to_string(), true)],
        max_msg_size: 1200,
        pin_protocols: vec![1],
        min_pin_length: 4,
        firmware_version: 0x0506,
    };
    let info = summarize_fido_info(raw);
    assert_eq!(info.aaguid, "01ABCDEF23456789");
    assert_eq!(info.aaguid.len() % 2, 0);
    assert!(info
        .aaguid
        .chars()
        .all(|c| c.is_ascii_digit() || c.is_ascii_uppercase()));
    assert_eq!(info.firmware_version, "5.6");
    assert_eq!(info.min_pin_length, 4);
}

#[test]
fn delete_id_rejects_non_hex_before_any_exchange() {
    match decode_credential_id("not-hex!") {
        Err(PFError::Io(m)) => assert_eq!(m, "Invalid Credential ID Hex string"),
        other => panic!("expected the invalid-hex error, got {:?}", other),
    }
    match decode_credential_id("abc") {
        Err(PFError::Io(_)) => {}
        other => panic!("expected the invalid-hex error, got {:?}", other),
    }
    assert_eq!(decode_credential_id("dead").unwrap(), vec![0xDE, 0xAD]);
}

#[test]
fn flatten_preserves_rp_order() {
    let rp_a = RpInfo {
        id: "site-a".to_string(),
        name: "Site A".to_string(),
    };
    let rp_b = RpInfo {
        id: "site-b".to_string(),
        name: "Site B".to_string(),
    };
    let cred = |id: u8, user: &str| CredInfo {
        id: vec![id],
        user_name: user.to_string(),
        user_display_name: user.to_uppercase(),
        user_id: vec![0xAB, id],
    };
    let rows = flatten_credentials(vec![
        (rp_a, vec![cred(1, "alice")]),
        (rp_b, vec![cred(2, "bob"), cred(3, "carol")]),
    ]);
    assert_eq!(rows.len(), 3);
    assert_eq!(rows[0].rp_id, "site-a");
    assert_eq!(rows[0].user_name, "alice");
    assert_eq!(rows[0].credential_id, "01");
    assert_eq!(rows[0].user_id, "ab01");
    assert_eq!(rows[1].rp_id, "site-b");
    assert_eq!(rows[1].user_name, "bob");
    assert_eq!(rows[2].rp_id, "site-b");
    assert_eq!(rows[2].user_name, "carol");
    assert_eq!(rows[2].credential_id, "03");
}

#[test]
fn commission_request_carries_tlv_in_user_id() {
    let mut c = empty_config();
    c.product_name = Some("MyKey".to_string());
    let req = build_commission_request(&c).unwrap();
    assert_eq!(req.rpid, "Pico Keys");
    assert_eq!(req.user_name, "+picoCommissionProfile");
    assert_eq!(req.user_display_name, "Pico Commissioner");
    assert_eq!(req.challenge.len(), 32);
    assert_eq!(req.user_id, encode_config(&c).unwrap());
    let mut bad = empty_config();
    bad.vid = Some("zz".to_string());
    bad.pid = Some("00".to_string());
    assert!(matches!(build_commission_request(&bad), Err(PFError::Io(_))));
}

#[test]
fn framing_single_report() {
    let payload = vec![0x04];
    let reports = frame_request(0x11223344, 0x10, &payload).unwrap();
    assert_eq!(reports.len(), 1);
    let r = &reports[0];
    assert_eq!(r.len(), 64);
    assert_eq!(&r[0..4], &[0x11, 0x22, 0x33, 0x44]);
    assert_eq!(r[4], 0x90);
    assert_eq!(r[5], 0);
    assert_eq!(r[6], 1);
    assert_eq!(r[7], 0x04);
    assert!(r[8..].iter().all(|&b| b == 0));
    assert_eq!(init_payload_len(r), Some(1));
}

#[test]
fn framing_and_reassembly_round_trip() {
    let payload: Vec<u8> = (0..200u16).map(|i| (i % 251) as u8).collect();
    let reports = frame_request(0xDEADBEEF, 0x10, &payload).unwrap();
    assert_eq!(reports.len(), 1 + (200 - 57 + 58) / 59);
    assert_eq!(reports[1][4], 0);
    assert_eq!(reports[2][4], 1);
    let (cmd, back) = reassemble_response(&reports, 0xDEADBEEF).unwrap();
    assert_eq!(cmd, 0x10);
    assert_eq!(back, payload);
}

#[test]
fn reassembly_rejects_foreign_channel() {
    let payload = vec![1, 2, 3];
    let reports = frame_request(0x01020304, 0x10, &payload).unwrap();
    assert!(matches!(
        reassemble_response(&reports, 0x01020305),
        Err(PFError::Io(_))
    ));
}

#[test]
fn framing_rejects_overlong_payload() {
    let payload = vec![0u8; 7610];
    assert!(matches!(
        frame_request(0x01020304, 0x10, &payload),
        Err(PFError::Io(_))
    ));
    let payload = vec![0u8; 7609];
    assert!(frame_request(0x01020304, 0x10, &payload).is_ok());
}

#[test]
fn error_messages_render() {
    assert_eq!(
        PFError::NoDevice.message(),
        "Could not connect to FIDO device. Is it plugged in?"
    );
    assert_eq!(
        PFError::Device("busy".to_string()).message(),
        "Device Error: busy"
    );
    assert_eq!(PFError::Io("oops".to_string()).message(), "IO/Hex Error: oops");
    assert_eq!(PFError::Pcsc("nope".to_string()).message(), "PCSC Error: nope");
}
