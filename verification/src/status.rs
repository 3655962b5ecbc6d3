use vstd::prelude::*;

use crate::cbor::{
    cbor_map_entries, lookup_bytes, lookup_int, lookup_text, parse_cbor_map, spec_lookup_bytes,
    spec_lookup_int, spec_lookup_text, CborKey, CborVal,
};
use crate::hexcodec::{hex_encode_upper, spec_hex_upper};
use crate::textfmt::{spec_version_chars, version_string};

verus! {

/// The semantic fields of a Memory response map, each under a fixed integer
/// CBOR key; the figures are in bytes.
#[derive(Debug, Clone, Copy, PartialEq, Eq, Structural)]
pub enum MemoryResponseKey {
    UsedSpace,
    TotalSpace,
}

impl MemoryResponseKey {
    pub open spec fn spec_key(self) -> i128 {
        match self {
            MemoryResponseKey::UsedSpace => 1,
            MemoryResponseKey::TotalSpace => 2,
        }
    }

    pub fn key(&self) -> (r: i128)
        ensures
            r == self.spec_key(),
    {
        match self {
            MemoryResponseKey::UsedSpace => 1,
            MemoryResponseKey::TotalSpace => 2,
        }
    }
}

/// Integer key of the AAGUID byte string in a GetInfo response map.
pub const INFO_KEY_AAGUID: i128 = 3;

/// Integer key of the packed firmware version in a GetInfo response map.
pub const INFO_KEY_FIRMWARE: i128 = 14;

/// Identity and flash figures of the status snapshot.  The device's serial is
/// not reachable over this transport, so it stays a placeholder.
#[derive(Debug, Clone)]
pub struct DeviceInfo {
    pub serial: String,
    pub flash_used: u32,
    pub flash_total: u32,
    pub firmware_version: String,
}

/// The configuration as read back: every field present, defaults standing in
/// for whatever the device did not report.
#[derive(Debug, Clone)]
pub struct AppConfig {
    pub vid: String,
    pub pid: String,
    pub product_name: String,
    pub led_gpio: u8,
    pub led_brightness: u8,
    pub led_dimmable: bool,
    pub led_steady: bool,
    pub power_cycle_on_reset: bool,
    pub touch_timeout: u8,
    pub enable_secp256k1: bool,
    pub led_driver: u8,
}

impl Default for AppConfig {
    fn default() -> (r: AppConfig)
        ensures
            r.vid@ == Seq::<char>::empty() && r.pid@ == Seq::<char>::empty(),
            r.product_name@ == Seq::<char>::empty(),
            r.led_gpio == 0 && r.led_brightness == 0 && r.touch_timeout == 0 && r.led_driver == 0,
            !r.led_dimmable && !r.led_steady && !r.power_cycle_on_reset && !r.enable_secp256k1,
    {
        AppConfig {
            vid: String::new(),
            pid: String::new(),
            product_name: String::new(),
            led_gpio: 0,
            led_brightness: 0,
            led_dimmable: false,
            led_steady: false,
            power_cycle_on_reset: false,
            touch_timeout: 0,
            enable_secp256k1: false,
            led_driver: 0,
        }
    }
}

/// The unified snapshot a full status read produces.
#[derive(Debug, Clone)]
pub struct FullDeviceStatus {
    pub info: DeviceInfo,
    pub config: AppConfig,
    pub secure_boot: bool,
    pub secure_lock: bool,
    pub method: String,
}

/// A flash figure in bytes drawn from a parsed Memory response: an absent
/// response, an unparsable one, a missing key or an out-of-range value all
/// degrade to zero, never to an error.
pub open spec fn spec_mem_value(parsed: Option<Seq<(CborKey, CborVal)>>, key: i128) -> u32 {
    match parsed {
        Some(es) => match spec_lookup_int(es, key) {
            Some(v) => if 0 <= v <= 0xFFFF_FFFF {
                v as u32
            } else {
                0
            },
            None => 0,
        },
        None => 0,
    }
}

/// The firmware version string drawn from a parsed GetInfo response: the
/// packed 16-bit word rendered `"major.minor"`, or the placeholder when the
/// key is missing, out of range or the response did not parse.
pub open spec fn spec_fw_string(parsed: Option<Seq<(CborKey, CborVal)>>) -> Seq<char> {
    match parsed {
        Some(es) => match spec_lookup_int(es, INFO_KEY_FIRMWARE) {
            Some(v) => if 0 <= v < 0x10000 {
                spec_version_chars((v / 256) as u8, (v % 256) as u8)
            } else {
                "Unknown"@
            },
            None => "Unknown"@,
        },
        None => "Unknown"@,
    }
}

/// The AAGUID rendering drawn from a parsed GetInfo response: uppercase hex
/// of the byte string under its key, or the placeholder.
pub open spec fn spec_aaguid_chars(parsed: Option<Seq<(CborKey, CborVal)>>) -> Seq<char> {
    match parsed {
        Some(es) => match spec_lookup_bytes(es, INFO_KEY_AAGUID) {
            Some(b) => spec_hex_upper(b),
            None => "Unknown"@,
        },
        None => "Unknown"@,
    }
}

/// A one-byte physical-configuration field drawn from a parsed
/// PhysicalOptions response under a text key, defaulting to zero.
pub open spec fn spec_phy_field(parsed: Option<Seq<(CborKey, CborVal)>>, key: Seq<char>) -> u8 {
    match parsed {
        Some(es) => match spec_lookup_text(es, key) {
            Some(v) => if 0 <= v <= 255 {
                v as u8
            } else {
                0
            },
            None => 0,
        },
        None => 0,
    }
}

/// Law: a vendor Memory response that is absent, unparsable, or missing a
/// figure yields zero for that figure — the status read still succeeds and
/// never turns such a response into an error.
pub proof fn lemma_memory_defaults(parsed: Option<Seq<(CborKey, CborVal)>>, key: i128)
    ensures
        parsed is None ==> spec_mem_value(parsed, key) == 0,
        parsed matches Some(es) && spec_lookup_int(es, key) is None ==> spec_mem_value(
            parsed,
            key,
        ) == 0,
{
}

fn mem_value(entries: &Option<Vec<(CborKey, CborVal)>>, key: i128) -> (r: u32)
    ensures
        match entries {
            Some(es) => r == spec_mem_value(Some(es@), key),
            None => r == 0,
        },
{
    match entries {
        Some(es) => match lookup_int(es, key) {
            Some(v) => if 0 <= v && v <= 0xFFFF_FFFF {
                v as u32
            } else {
                0
            },
            None => 0,
        },
        None => 0,
    }
}

/// The AAGUID as the GetInfo response carries it, rendered uppercase, or the
/// placeholder when the response does not hold one.
pub fn aaguid_string(info_res: &Vec<u8>) -> (r: String)
    ensures
        r@ == spec_aaguid_chars(cbor_map_entries(info_res@)),
{
    match parse_cbor_map(info_res) {
        Some(es) => match lookup_bytes(&es, INFO_KEY_AAGUID) {
            Some(b) => hex_encode_upper(&b),
            None => "Unknown".to_owned(),
        },
        None => "Unknown".to_owned(),
    }
}

/// Sequences the three exchanges' raw responses into one snapshot.  The
/// caller has already judged the GetInfo exchange fatal on failure; a failed
/// vendor exchange is handed in as an empty byte string and degrades to
/// defaults here, because older firmware lacks those extensions.
pub fn aggregate_status(
    info_res: &Vec<u8>,
    mem_res: &Vec<u8>,
    phy_res: &Vec<u8>,
    vid: u16,
    pid: u16,
    product_name: &String,
) -> (r: FullDeviceStatus)
    ensures
        r.info.serial@ == "?"@,
        r.info.firmware_version@ == spec_fw_string(cbor_map_entries(info_res@)),
        r.info.flash_used == spec_mem_value(
            cbor_map_entries(mem_res@),
            MemoryResponseKey::UsedSpace.spec_key(),
        ) / 1024,
        r.info.flash_total == spec_mem_value(
            cbor_map_entries(mem_res@),
            MemoryResponseKey::TotalSpace.spec_key(),
        ) / 1024,
        r.config.vid@ == spec_hex_upper(seq![(vid / 256) as u8, (vid % 256) as u8]),
        r.config.pid@ == spec_hex_upper(seq![(pid / 256) as u8, (pid % 256) as u8]),
        r.config.product_name@ == product_name@,
        r.config.led_gpio == spec_phy_field(cbor_map_entries(phy_res@), "gpio"@),
        r.config.led_brightness == spec_phy_field(cbor_map_entries(phy_res@), "brightness"@),
        !r.config.led_dimmable && !r.config.led_steady && !r.config.power_cycle_on_reset,
        r.config.touch_timeout == 0 && !r.config.enable_secp256k1 && r.config.led_driver == 0,
        !r.secure_boot && !r.secure_lock,
        r.method@ == "FIDO"@,
{
    let info_entries = parse_cbor_map(info_res);
    let firmware_version = match &info_entries {
        Some(es) => match lookup_int(es, INFO_KEY_FIRMWARE) {
            Some(v) => {
                if 0 <= v && v < 0x10000 {
                    version_string((v / 256) as u8, (v % 256) as u8)
                } else {
                    "Unknown".to_owned()
                }
            },
            None => "Unknown".to_owned(),
        },
        None => "Unknown".to_owned(),
    };
    let mem_entries = parse_cbor_map(mem_res);
    let used = mem_value(&mem_entries, MemoryResponseKey::UsedSpace.key());
    let total = mem_value(&mem_entries, MemoryResponseKey::TotalSpace.key());
    let mut vid_bytes: Vec<u8> = Vec::new();
    vid_bytes.push((vid / 256) as u8);
    vid_bytes.push((vid % 256) as u8);
    let mut pid_bytes: Vec<u8> = Vec::new();
    pid_bytes.push((pid / 256) as u8);
    pid_bytes.push((pid % 256) as u8);
    proof {
        assert(vid_bytes@ =~= seq![(vid / 256) as u8, (vid % 256) as u8]);
        assert(pid_bytes@ =~= seq![(pid / 256) as u8, (pid % 256) as u8]);
    }
    let mut config = AppConfig::default();
    config.vid = hex_encode_upper(&vid_bytes);
    config.pid = hex_encode_upper(&pid_bytes);
    config.product_name = product_name.clone();
    let phy_entries = parse_cbor_map(phy_res);
    match &phy_entries {
        Some(es) => {
            let gpio_key: String = "gpio".to_owned();
            match lookup_text(es, &gpio_key) {
                Some(v) => {
                    if 0 <= v && v <= 255 {
                        config.led_gpio = v as u8;
                    }
                },
                None => {},
            }
            let brightness_key: String = "brightness".to_owned();
            match lookup_text(es, &brightness_key) {
                Some(v) => {
                    if 0 <= v && v <= 255 {
                        config.led_brightness = v as u8;
                    }
                },
                None => {},
            }
        },
        None => {},
    }
    FullDeviceStatus {
        info: DeviceInfo {
            serial: "?".to_owned(),
            flash_used: used / 1024,
            flash_total: total / 1024,
            firmware_version,
        },
        config,
        secure_boot: false,
        secure_lock: false,
        method: "FIDO".to_owned(),
    }
}

/// Device information as the generic FIDO2 client library reports it, held as
/// plain values.
#[derive(Debug, Clone)]
pub struct FidoInfoRaw {
    pub versions: Vec<String>,
    pub extensions: Vec<String>,
    pub aaguid: Vec<u8>,
    pub options: Vec<(String, bool)>,
    pub max_msg_size: i32,
    pub pin_protocols: Vec<u32>,
    pub min_pin_length: u32,
    pub firmware_version: u32,
}

/// The same information prepared for display: AAGUID in uppercase hex, the
/// firmware version as `"major.minor"`.
#[derive(Debug, Clone)]
pub struct FidoDeviceInfo {
    pub versions: Vec<String>,
    pub extensions: Vec<String>,
    pub aaguid: String,
    pub options: Vec<(String, bool)>,
    pub max_msg_size: i32,
    pub pin_protocols: Vec<u32>,
    pub min_pin_length: u32,
    pub firmware_version: String,
}

/// Renders the raw device information for display.
pub fn summarize_fido_info(raw: FidoInfoRaw) -> (r: FidoDeviceInfo)
    ensures
        r.aaguid@ == spec_hex_upper(raw.aaguid@),
        r.firmware_version@ == spec_version_chars(
            ((raw.firmware_version / 256) % 256) as u8,
            (raw.firmware_version % 256) as u8,
        ),
        r.versions == raw.versions,
        r.extensions == raw.extensions,
        r.options == raw.options,
        r.max_msg_size == raw.max_msg_size,
        r.pin_protocols == raw.pin_protocols,
        r.min_pin_length == raw.min_pin_length,
{
    let aaguid = hex_encode_upper(&raw.aaguid);
    let firmware_version = version_string(
        ((raw.firmware_version / 256) % 256) as u8,
        (raw.firmware_version % 256) as u8,
    );
    FidoDeviceInfo {
        versions: raw.versions,
        extensions: raw.extensions,
        aaguid,
        options: raw.options,
        max_msg_size: raw.max_msg_size,
        pin_protocols: raw.pin_protocols,
        min_pin_length: raw.min_pin_length,
        firmware_version,
    }
}

} // verus!
