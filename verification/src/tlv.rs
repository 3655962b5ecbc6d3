use vstd::prelude::*;

use crate::error::PFError;
use crate::hexcodec::{parse_hex_u16, spec_hex_str_val, spec_is_hex_u16};

verus! {

/// A sparse configuration update: a field that is `None` contributes no TLV
/// entry at all, and the firmware leaves that setting unchanged.
#[derive(Debug, Clone)]
pub struct AppConfigInput {
    pub vid: Option<String>,
    pub pid: Option<String>,
    pub product_name: Option<String>,
    pub led_gpio: Option<u8>,
    pub led_brightness: Option<u8>,
    pub led_dimmable: Option<bool>,
    pub led_steady: Option<bool>,
    pub power_cycle_on_reset: Option<bool>,
    pub touch_timeout: Option<u8>,
    pub enable_secp256k1: Option<bool>,
    pub led_driver: Option<u8>,
}

impl Default for AppConfigInput {
    /// The empty update: nothing present, nothing written.
    fn default() -> (r: AppConfigInput)
        ensures
            r.vid is None && r.pid is None && r.product_name is None,
            r.led_gpio is None && r.led_brightness is None && r.led_dimmable is None,
            r.led_steady is None && r.power_cycle_on_reset is None,
            r.touch_timeout is None && r.enable_secp256k1 is None && r.led_driver is None,
    {
        AppConfigInput {
            vid: None,
            pid: None,
            product_name: None,
            led_gpio: None,
            led_brightness: None,
            led_dimmable: None,
            led_steady: None,
            power_cycle_on_reset: None,
            touch_timeout: None,
            enable_secp256k1: None,
            led_driver: None,
        }
    }
}

/// The options bitfield aggregated from the three boolean flags: 0x02 when the
/// LED is dimmable, 0x04 when power-cycle-on-reset is disabled, 0x08 when the
/// LED is steady.
pub open spec fn spec_opts_bits(c: AppConfigInput) -> u16 {
    (((if c.led_dimmable == Some(true) {
        2int
    } else {
        0int
    }) + (if c.power_cycle_on_reset == Some(false) {
        4int
    } else {
        0int
    }) + (if c.led_steady == Some(true) {
        8int
    } else {
        0int
    })) as u16)
}

/// The combined USB vendor/product id entry, present only when both fields
/// are: tag 0x00, four value bytes, each id big-endian.
pub open spec fn spec_vid_pid_part(c: AppConfigInput) -> Seq<u8> {
    match (c.vid, c.pid) {
        (Some(v), Some(p)) => {
            let vv = spec_hex_str_val(v@);
            let pv = spec_hex_str_val(p@);
            seq![
                0x00u8,
                4u8,
                (vv / 256) as u8,
                (vv % 256) as u8,
                (pv / 256) as u8,
                (pv % 256) as u8,
            ]
        },
        _ => seq![],
    }
}

/// A one-value-byte entry, present only when the field is.
pub open spec fn spec_opt_u8_entry(tag: u8, v: Option<u8>) -> Seq<u8> {
    match v {
        Some(x) => seq![tag, 1u8, x],
        None => seq![],
    }
}

/// The options entry is emitted unconditionally: tag 0x06, two value bytes
/// big-endian, even when every flag is at its default.
pub open spec fn spec_opts_part(c: AppConfigInput) -> Seq<u8> {
    seq![0x06u8, 2u8, (spec_opts_bits(c) / 256) as u8, (spec_opts_bits(c) % 256) as u8]
}

/// The enabled-curves entry, emitted only when secp256k1 is switched on: tag
/// 0x0A, four value bytes whose last carries the curve bit 0x08.
pub open spec fn spec_curves_part(c: AppConfigInput) -> Seq<u8> {
    if c.enable_secp256k1 == Some(true) {
        seq![0x0Au8, 4u8, 0u8, 0u8, 0u8, 0x08u8]
    } else {
        seq![]
    }
}

/// The USB product string entry: tag 0x09, length one more than the name, the
/// name's bytes and a terminating NUL.
pub open spec fn spec_name_part(c: AppConfigInput) -> Seq<u8> {
    match c.product_name {
        Some(n) => seq![0x09u8, (n@.len() + 1) as u8] + n@.map(|i: int, ch: char| ch as u8)
            + seq![0u8],
        None => seq![],
    }
}

/// The whole TLV blob, entries in the fixed firmware order.
pub open spec fn spec_tlv(c: AppConfigInput) -> Seq<u8> {
    spec_vid_pid_part(c) + spec_opt_u8_entry(0x04, c.led_gpio) + spec_opt_u8_entry(
        0x05,
        c.led_brightness,
    ) + spec_opt_u8_entry(0x08, c.touch_timeout) + spec_opts_part(c) + spec_curves_part(c)
        + spec_name_part(c) + spec_opt_u8_entry(0x0C, c.led_driver)
}

/// What the encoder accepts: when both USB ids are present each must be a hex
/// numeral of a 16-bit value, and a product name must be ASCII and short
/// enough for the one-byte TLV length (name plus NUL terminator).
pub open spec fn spec_config_encodable(c: AppConfigInput) -> bool {
    (match (c.vid, c.pid) {
        (Some(v), Some(p)) => spec_is_hex_u16(v@) && spec_is_hex_u16(p@),
        _ => true,
    }) && (match c.product_name {
        Some(n) => n@.len() <= 254 && vstd::utf8::is_ascii_chars(n@),
        None => true,
    })
}

fn push_u8_entry(out: &mut Vec<u8>, tag: u8, v: Option<u8>)
    ensures
        final(out)@ == old(out)@ + spec_opt_u8_entry(tag, v),
{
    match v {
        Some(x) => {
            out.push(tag);
            out.push(1);
            out.push(x);
            proof {
                assert(out@ =~= old(out)@ + spec_opt_u8_entry(tag, v));
            }
        },
        None => {
            proof {
                assert(out@ =~= old(out)@ + spec_opt_u8_entry(tag, v));
            }
        },
    }
}

fn push_word_entry(out: &mut Vec<u8>, tag: u8, v: u16)
    ensures
        final(out)@ == old(out)@ + seq![tag, 2u8, (v / 256) as u8, (v % 256) as u8],
{
    out.push(tag);
    out.push(2);
    out.push((v / 256) as u8);
    out.push((v % 256) as u8);
    proof {
        assert(out@ =~= old(out)@ + seq![tag, 2u8, (v / 256) as u8, (v % 256) as u8]);
    }
}

fn push_vid_pid_entry(out: &mut Vec<u8>, vs: &String, ps: &String) -> (r: Result<(), PFError>)
    ensures
        r is Ok <==> spec_is_hex_u16(vs@) && spec_is_hex_u16(ps@),
        r is Ok ==> final(out)@ == old(out)@ + seq![
            0x00u8,
            4u8,
            (spec_hex_str_val(vs@) / 256) as u8,
            (spec_hex_str_val(vs@) % 256) as u8,
            (spec_hex_str_val(ps@) / 256) as u8,
            (spec_hex_str_val(ps@) % 256) as u8,
        ],
        r is Err ==> final(out)@ == old(out)@,
        r matches Err(e) ==> e matches PFError::Io(_),
{
    let vid = match parse_hex_u16(vs.as_str()) {
        Some(v) => v,
        None => {
            return Err(PFError::Io("invalid hex digits in USB vendor id".to_owned()));
        },
    };
    let pid = match parse_hex_u16(ps.as_str()) {
        Some(v) => v,
        None => {
            return Err(PFError::Io("invalid hex digits in USB product id".to_owned()));
        },
    };
    out.push(0x00);
    out.push(4);
    out.push((vid / 256) as u8);
    out.push((vid % 256) as u8);
    out.push((pid / 256) as u8);
    out.push((pid % 256) as u8);
    proof {
        assert(out@ =~= old(out)@ + seq![
            0x00u8,
            4u8,
            (spec_hex_str_val(vs@) / 256) as u8,
            (spec_hex_str_val(vs@) % 256) as u8,
            (spec_hex_str_val(ps@) / 256) as u8,
            (spec_hex_str_val(ps@) % 256) as u8,
        ]);
    }
    Ok(())
}

fn push_name_entry(out: &mut Vec<u8>, name: &String) -> (r: Result<(), PFError>)
    ensures
        r is Ok <==> name@.len() <= 254 && vstd::utf8::is_ascii_chars(name@),
        r is Ok ==> final(out)@ == old(out)@ + seq![0x09u8, (name@.len() + 1) as u8] + name@.map(
            |i: int, ch: char| ch as u8,
        ) + seq![0u8],
        r is Err ==> final(out)@ == old(out)@,
        r matches Err(e) ==> e matches PFError::Io(_),
{
    let name_str = name.as_str();
    if !name_str.is_ascii() {
        return Err(PFError::Io("product name is not ASCII".to_owned()));
    }
    let mut name_bytes = name_str.as_bytes_vec();
    proof {
        vstd::string::is_ascii_spec_bytes(name_str);
        assert(name_bytes@ =~= name@.map(|i: int, ch: char| ch as u8));
    }
    if name_bytes.len() > 254 {
        return Err(PFError::Io("product name is too long".to_owned()));
    }
    out.push(0x09);
    out.push((name_bytes.len() + 1) as u8);
    out.append(&mut name_bytes);
    out.push(0x00);
    proof {
        assert(out@ =~= old(out)@ + seq![0x09u8, (name@.len() + 1) as u8] + name@.map(
            |i: int, ch: char| ch as u8,
        ) + seq![0u8]);
    }
    Ok(())
}

/// Serializes a sparse configuration into the firmware's tag/length/value
/// byte sequence.  Malformed input — a non-hex or out-of-range USB id when
/// both are given, or an over-long or non-ASCII product name — is rejected
/// here, before any device I/O could be attempted.
#[verifier::rlimit(100)]
pub fn encode_config(c: &AppConfigInput) -> (r: Result<Vec<u8>, PFError>)
    ensures
        r is Ok <==> spec_config_encodable(*c),
        r matches Ok(v) ==> v@ == spec_tlv(*c),
        r matches Err(e) ==> e matches PFError::Io(_),
{
    let mut out: Vec<u8> = Vec::new();
    match (&c.vid, &c.pid) {
        (Some(vs), Some(ps)) => {
            match push_vid_pid_entry(&mut out, vs, ps) {
                Ok(()) => {
                    proof {
                        assert(out@ =~= spec_vid_pid_part(*c));
                    }
                },
                Err(e) => {
                    return Err(e);
                },
            }
        },
        _ => {
            proof {
                assert(out@ =~= spec_vid_pid_part(*c));
            }
        },
    }
    let ghost s1 = spec_vid_pid_part(*c);
    push_u8_entry(&mut out, 0x04, c.led_gpio);
    let ghost s2 = s1 + spec_opt_u8_entry(0x04, c.led_gpio);
    push_u8_entry(&mut out, 0x05, c.led_brightness);
    let ghost s3 = s2 + spec_opt_u8_entry(0x05, c.led_brightness);
    push_u8_entry(&mut out, 0x08, c.touch_timeout);
    let ghost s4 = s3 + spec_opt_u8_entry(0x08, c.touch_timeout);
    let mut opts: u16 = 0;
    let dimmable = match c.led_dimmable {
        Some(b) => b,
        None => false,
    };
    if dimmable {
        opts += 2;
    }
    let power_cycle = match c.power_cycle_on_reset {
        Some(b) => b,
        None => true,
    };
    if !power_cycle {
        opts += 4;
    }
    let steady = match c.led_steady {
        Some(b) => b,
        None => false,
    };
    if steady {
        opts += 8;
    }
    assert(opts == spec_opts_bits(*c));
    push_word_entry(&mut out, 0x06, opts);
    let ghost s5 = s4 + spec_opts_part(*c);
    proof {
        assert(spec_opts_part(*c) =~= seq![
            0x06u8,
            2u8,
            (opts / 256) as u8,
            (opts % 256) as u8,
        ]);
    }
    let secp = match c.enable_secp256k1 {
        Some(b) => b,
        None => false,
    };
    if secp {
        out.push(0x0A);
        out.push(4);
        out.push(0);
        out.push(0);
        out.push(0);
        out.push(0x08);
        proof {
            assert(out@ =~= s5 + spec_curves_part(*c));
        }
    } else {
        proof {
            assert(out@ =~= s5 + spec_curves_part(*c));
        }
    }
    let ghost s6 = s5 + spec_curves_part(*c);
    match &c.product_name {
        Some(name) => {
            match push_name_entry(&mut out, name) {
                Ok(()) => {
                    proof {
                        assert(out@ == s6 + spec_name_part(*c));
                    }
                },
                Err(e) => {
                    return Err(e);
                },
            }
        },
        None => {
            proof {
                assert(out@ =~= s6 + spec_name_part(*c));
            }
        },
    }
    let ghost s7 = s6 + spec_name_part(*c);
    push_u8_entry(&mut out, 0x0C, c.led_driver);
    proof {
        assert(out@ == s7 + spec_opt_u8_entry(0x0C, c.led_driver));
        assert(out@ == spec_tlv(*c));
    }
    Ok(out)
}

/// The fields a TLV walk recovers, mirroring how the firmware reads the blob.
/// Every field that the blob holds no entry for stays `None`.
#[derive(Debug, Clone, PartialEq)]
pub struct DecodedConfig {
    pub vid: Option<u16>,
    pub pid: Option<u16>,
    pub led_gpio: Option<u8>,
    pub led_brightness: Option<u8>,
    pub options: Option<u16>,
    pub touch_timeout: Option<u8>,
    pub curves: Option<u32>,
    pub product_name: Option<Vec<u8>>,
    pub led_driver: Option<u8>,
}

pub ghost struct SpecDecodedConfig {
    pub vid: Option<u16>,
    pub pid: Option<u16>,
    pub led_gpio: Option<u8>,
    pub led_brightness: Option<u8>,
    pub options: Option<u16>,
    pub touch_timeout: Option<u8>,
    pub curves: Option<u32>,
    pub product_name: Option<Seq<u8>>,
    pub led_driver: Option<u8>,
}

impl View for DecodedConfig {
    type V = SpecDecodedConfig;

    open spec fn view(&self) -> SpecDecodedConfig {
        SpecDecodedConfig {
            vid: self.vid,
            pid: self.pid,
            led_gpio: self.led_gpio,
            led_brightness: self.led_brightness,
            options: self.options,
            touch_timeout: self.touch_timeout,
            curves: self.curves,
            product_name: match self.product_name {
                Some(v) => Some(v@),
                None => None,
            },
            led_driver: self.led_driver,
        }
    }
}

pub open spec fn spec_empty_decoded() -> SpecDecodedConfig {
    SpecDecodedConfig {
        vid: None,
        pid: None,
        led_gpio: None,
        led_brightness: None,
        options: None,
        touch_timeout: None,
        curves: None,
        product_name: None,
        led_driver: None,
    }
}

/// One TLV entry applied to the fields read so far.  A known tag with the
/// wrong length is malformed; an unknown tag is skipped unread.
pub open spec fn spec_apply_entry(d: SpecDecodedConfig, tag: u8, v: Seq<u8>) -> Option<
    SpecDecodedConfig,
> {
    if tag == 0x00 {
        if v.len() == 4 {
            Some(
                SpecDecodedConfig {
                    vid: Some((v[0] * 256 + v[1]) as u16),
                    pid: Some((v[2] * 256 + v[3]) as u16),
                    ..d
                },
            )
        } else {
            None
        }
    } else if tag == 0x04 {
        if v.len() == 1 {
            Some(SpecDecodedConfig { led_gpio: Some(v[0]), ..d })
        } else {
            None
        }
    } else if tag == 0x05 {
        if v.len() == 1 {
            Some(SpecDecodedConfig { led_brightness: Some(v[0]), ..d })
        } else {
            None
        }
    } else if tag == 0x06 {
        if v.len() == 2 {
            Some(SpecDecodedConfig { options: Some((v[0] * 256 + v[1]) as u16), ..d })
        } else {
            None
        }
    } else if tag == 0x08 {
        if v.len() == 1 {
            Some(SpecDecodedConfig { touch_timeout: Some(v[0]), ..d })
        } else {
            None
        }
    } else if tag == 0x0A {
        if v.len() == 4 {
            Some(
                SpecDecodedConfig {
                    curves: Some(
                        (v[0] * 0x1000000 + v[1] * 0x10000 + v[2] * 256 + v[3]) as u32,
                    ),
                    ..d
                },
            )
        } else {
            None
        }
    } else if tag == 0x09 {
        if v.len() >= 1 && v.last() == 0 {
            Some(SpecDecodedConfig { product_name: Some(v.drop_last()), ..d })
        } else {
            None
        }
    } else if tag == 0x0C {
        if v.len() == 1 {
            Some(SpecDecodedConfig { led_driver: Some(v[0]), ..d })
        } else {
            None
        }
    } else {
        Some(d)
    }
}

/// A TLV walk from a given field state: reads `[tag][length][value…]` entries
/// until the bytes run out; truncated entries make the whole blob malformed.
pub open spec fn spec_decode_from(b: Seq<u8>, d: SpecDecodedConfig) -> Option<SpecDecodedConfig>
    decreases b.len(),
{
    if b.len() == 0 {
        Some(d)
    } else if b.len() < 2 {
        None
    } else {
        let l = b[1] as int;
        if b.len() < 2 + l {
            None
        } else {
            match spec_apply_entry(d, b[0], b.subrange(2, 2 + l)) {
                Some(d2) => spec_decode_from(b.subrange(2 + l, b.len() as int), d2),
                None => None,
            }
        }
    }
}

pub open spec fn spec_decode_config(b: Seq<u8>) -> Option<SpecDecodedConfig> {
    spec_decode_from(b, spec_empty_decoded())
}

/// Walks a TLV blob as the firmware does and recovers the typed fields.
pub fn decode_config(b: &Vec<u8>) -> (r: Option<DecodedConfig>)
    ensures
        match r {
            Some(d) => spec_decode_config(b@) == Some(d@),
            None => spec_decode_config(b@) is None,
        },
{
    let mut d = DecodedConfig {
        vid: None,
        pid: None,
        led_gpio: None,
        led_brightness: None,
        options: None,
        touch_timeout: None,
        curves: None,
        product_name: None,
        led_driver: None,
    };
    let mut i: usize = 0;
    proof {
        assert(d@ == spec_empty_decoded());
        assert(b@.subrange(0, b@.len() as int) =~= b@);
    }
    while i < b.len()
        invariant
            i <= b@.len(),
            spec_decode_from(b@.subrange(i as int, b@.len() as int), d@) == spec_decode_config(
                b@,
            ),
        decreases b@.len() - i,
    {
        let ghost rem = b@.subrange(i as int, b@.len() as int);
        let ghost d0 = d@;
        if i + 1 == b.len() {
            proof {
                assert(rem.len() == 1);
            }
            return None;
        }
        let tag = b[i];
        let l = b[i + 1] as usize;
        proof {
            assert(rem[0] == b@[i as int]);
            assert(rem[1] == b@[i as int + 1]);
        }
        if b.len() - i - 2 < l {
            proof {
                assert(rem.len() < 2 + l);
            }
            return None;
        }
        let ghost v = rem.subrange(2, 2 + l as int);
        proof {
            assert(v =~= b@.subrange(i as int + 2, i as int + 2 + l as int));
        }
        if tag == 0x00 {
            if l != 4 {
                return None;
            }
            d.vid = Some((b[i + 2] as u16) * 256 + (b[i + 3] as u16));
            d.pid = Some((b[i + 4] as u16) * 256 + (b[i + 5] as u16));
        } else if tag == 0x04 {
            if l != 1 {
                return None;
            }
            d.led_gpio = Some(b[i + 2]);
        } else if tag == 0x05 {
            if l != 1 {
                return None;
            }
            d.led_brightness = Some(b[i + 2]);
        } else if tag == 0x06 {
            if l != 2 {
                return None;
            }
            d.options = Some((b[i + 2] as u16) * 256 + (b[i + 3] as u16));
        } else if tag == 0x08 {
            if l != 1 {
                return None;
            }
            d.touch_timeout = Some(b[i + 2]);
        } else if tag == 0x0A {
            if l != 4 {
                return None;
            }
            d.curves = Some(
                (b[i + 2] as u32) * 0x1000000 + (b[i + 3] as u32) * 0x10000 + (b[i + 4] as u32)
                    * 256 + (b[i + 5] as u32),
            );
        } else if tag == 0x09 {
            if l < 1 || b[i + 2 + l - 1] != 0 {
                proof {
                    assert(l >= 1 ==> v.last() == b@[i as int + 2 + l as int - 1]);
                }
                return None;
            }
            let name_slice = vstd::slice::slice_subrange(b.as_slice(), i + 2, i + 2 + l - 1);
            let name = vstd::slice::slice_to_vec(name_slice);
            proof {
                assert(name@ =~= v.drop_last());
            }
            d.product_name = Some(name);
        } else if tag == 0x0C {
            if l != 1 {
                return None;
            }
            d.led_driver = Some(b[i + 2]);
        }
        proof {
            assert(spec_apply_entry(d0, tag, v) == Some(d@));
            assert(rem.subrange(2 + l as int, rem.len() as int) =~= b@.subrange(
                i as int + 2 + l as int,
                b@.len() as int,
            ));
        }
        i = i + 2 + l;
    }
    Some(d)
}

proof fn lemma_decode_step(e: Seq<u8>, rest: Seq<u8>, d: SpecDecodedConfig, d2: SpecDecodedConfig)
    requires
        2 <= e.len() <= 257,
        e[1] as int == e.len() - 2,
        spec_apply_entry(d, e[0], e.subrange(2, e.len() as int)) == Some(d2),
    ensures
        spec_decode_from(e + rest, d) == spec_decode_from(rest, d2),
{
    let t = e + rest;
    assert(t[0] == e[0]);
    assert(t[1] == e[1]);
    let l = t[1] as int;
    assert(t.len() >= 2 + l);
    assert(t.subrange(2, 2 + l) =~= e.subrange(2, e.len() as int));
    assert(t.subrange(2 + l, t.len() as int) =~= rest);
}

/// What a TLV walk of an encoded configuration must recover: exactly the
/// fields that were present in the input — with the USB ids resolved to their
/// numeric values and the product name to its bytes — plus the options word,
/// which is always written.
pub open spec fn spec_expected_roundtrip(c: AppConfigInput) -> SpecDecodedConfig {
    SpecDecodedConfig {
        vid: match (c.vid, c.pid) {
            (Some(v), Some(_)) => Some(spec_hex_str_val(v@) as u16),
            _ => None,
        },
        pid: match (c.vid, c.pid) {
            (Some(_), Some(p)) => Some(spec_hex_str_val(p@) as u16),
            _ => None,
        },
        led_gpio: c.led_gpio,
        led_brightness: c.led_brightness,
        options: Some(spec_opts_bits(c)),
        touch_timeout: c.touch_timeout,
        curves: if c.enable_secp256k1 == Some(true) {
            Some(8u32)
        } else {
            None
        },
        product_name: match c.product_name {
            Some(n) => Some(n@.map(|i: int, ch: char| ch as u8)),
            None => None,
        },
        led_driver: c.led_driver,
    }
}

/// The field state after the identity entries at the head of the blob.
pub open spec fn spec_head_state(c: AppConfigInput) -> SpecDecodedConfig {
    SpecDecodedConfig {
        vid: match (c.vid, c.pid) {
            (Some(v), Some(_)) => Some(spec_hex_str_val(v@) as u16),
            _ => None,
        },
        pid: match (c.vid, c.pid) {
            (Some(_), Some(p)) => Some(spec_hex_str_val(p@) as u16),
            _ => None,
        },
        led_gpio: c.led_gpio,
        led_brightness: c.led_brightness,
        touch_timeout: c.touch_timeout,
        ..spec_empty_decoded()
    }
}

#[verifier::rlimit(60)]
proof fn lemma_rt_head(c: AppConfigInput, rest: Seq<u8>)
    requires
        spec_config_encodable(c),
    ensures
        spec_decode_from(
            spec_vid_pid_part(c) + (spec_opt_u8_entry(0x04, c.led_gpio) + (spec_opt_u8_entry(
                0x05,
                c.led_brightness,
            ) + (spec_opt_u8_entry(0x08, c.touch_timeout) + rest))),
            spec_empty_decoded(),
        ) == spec_decode_from(rest, spec_head_state(c)),
{
    let p1 = spec_vid_pid_part(c);
    let p2 = spec_opt_u8_entry(0x04, c.led_gpio);
    let p3 = spec_opt_u8_entry(0x05, c.led_brightness);
    let p4 = spec_opt_u8_entry(0x08, c.touch_timeout);
    let r4 = p4 + rest;
    let r3 = p3 + r4;
    let r2 = p2 + r3;
    let d0 = spec_empty_decoded();
    let d1 = match (c.vid, c.pid) {
        (Some(v), Some(p)) => SpecDecodedConfig {
            vid: Some(spec_hex_str_val(v@) as u16),
            pid: Some(spec_hex_str_val(p@) as u16),
            ..d0
        },
        _ => d0,
    };
    match (c.vid, c.pid) {
        (Some(v), Some(p)) => {
            let vv = spec_hex_str_val(v@);
            let pv = spec_hex_str_val(p@);
            crate::hexcodec::lemma_hex_val_nonneg(v@);
            crate::hexcodec::lemma_hex_val_nonneg(p@);
            assert(p1.subrange(2, 6) =~= seq![
                (vv / 256) as u8,
                (vv % 256) as u8,
                (pv / 256) as u8,
                (pv % 256) as u8,
            ]);
            assert(spec_apply_entry(d0, p1[0], p1.subrange(2, 6)) == Some(d1));
            lemma_decode_step(p1, r2, d0, d1);
        },
        _ => {
            assert(p1 + r2 =~= r2);
        },
    }
    assert(spec_decode_from(p1 + r2, d0) == spec_decode_from(r2, d1));
    let d2 = match c.led_gpio {
        Some(x) => SpecDecodedConfig { led_gpio: Some(x), ..d1 },
        None => d1,
    };
    match c.led_gpio {
        Some(x) => {
            assert(p2.subrange(2, 3) =~= seq![x]);
            lemma_decode_step(p2, r3, d1, d2);
        },
        None => {
            assert(p2 + r3 =~= r3);
        },
    }
    assert(spec_decode_from(r2, d1) == spec_decode_from(r3, d2));
    let d3 = match c.led_brightness {
        Some(x) => SpecDecodedConfig { led_brightness: Some(x), ..d2 },
        None => d2,
    };
    match c.led_brightness {
        Some(x) => {
            assert(p3.subrange(2, 3) =~= seq![x]);
            lemma_decode_step(p3, r4, d2, d3);
        },
        None => {
            assert(p3 + r4 =~= r4);
        },
    }
    assert(spec_decode_from(r3, d2) == spec_decode_from(r4, d3));
    let d4 = match c.touch_timeout {
        Some(x) => SpecDecodedConfig { touch_timeout: Some(x), ..d3 },
        None => d3,
    };
    match c.touch_timeout {
        Some(x) => {
            assert(p4.subrange(2, 3) =~= seq![x]);
            lemma_decode_step(p4, rest, d3, d4);
        },
        None => {
            assert(p4 + rest =~= rest);
        },
    }
    assert(spec_decode_from(r4, d3) == spec_decode_from(rest, d4));
    assert(d4 == spec_head_state(c));
}

/// The field state after the option, curve, name and driver entries are
/// applied on top of an arbitrary prior state.
pub open spec fn spec_tail_state(c: AppConfigInput, d: SpecDecodedConfig) -> SpecDecodedConfig {
    SpecDecodedConfig {
        options: Some(spec_opts_bits(c)),
        curves: if c.enable_secp256k1 == Some(true) {
            Some(8u32)
        } else {
            d.curves
        },
        product_name: match c.product_name {
            Some(n) => Some(n@.map(|i: int, ch: char| ch as u8)),
            None => d.product_name,
        },
        led_driver: match c.led_driver {
            Some(x) => Some(x),
            None => d.led_driver,
        },
        ..d
    }
}

#[verifier::rlimit(60)]
proof fn lemma_rt_tail(c: AppConfigInput, d: SpecDecodedConfig)
    requires
        spec_config_encodable(c),
    ensures
        spec_decode_from(
            spec_opts_part(c) + (spec_curves_part(c) + (spec_name_part(c) + spec_opt_u8_entry(
                0x0C,
                c.led_driver,
            ))),
            d,
        ) == Some(spec_tail_state(c, d)),
{
    let p5 = spec_opts_part(c);
    let p6 = spec_curves_part(c);
    let p7 = spec_name_part(c);
    let p8 = spec_opt_u8_entry(0x0C, c.led_driver);
    let r8 = p8;
    let r7 = p7 + r8;
    let r6 = p6 + r7;
    let bits = spec_opts_bits(c);
    let d5 = SpecDecodedConfig { options: Some(bits), ..d };
    assert(p5.subrange(2, 4) =~= seq![(bits / 256) as u8, (bits % 256) as u8]);
    assert(spec_apply_entry(d, p5[0], p5.subrange(2, 4)) == Some(d5));
    lemma_decode_step(p5, r6, d, d5);
    let d6 = if c.enable_secp256k1 == Some(true) {
        SpecDecodedConfig { curves: Some(8u32), ..d5 }
    } else {
        d5
    };
    if c.enable_secp256k1 == Some(true) {
        assert(p6.subrange(2, 6) =~= seq![0u8, 0u8, 0u8, 0x08u8]);
        assert(spec_apply_entry(d5, p6[0], p6.subrange(2, 6)) == Some(d6));
        lemma_decode_step(p6, r7, d5, d6);
    } else {
        assert(p6 + r7 =~= r7);
    }
    assert(spec_decode_from(r6, d5) == spec_decode_from(r7, d6));
    let d7 = match c.product_name {
        Some(n) => SpecDecodedConfig {
            product_name: Some(n@.map(|i: int, ch: char| ch as u8)),
            ..d6
        },
        None => d6,
    };
    match c.product_name {
        Some(n) => {
            let nb = n@.map(|i: int, ch: char| ch as u8);
            assert(p7.len() == nb.len() + 3);
            assert(p7[1] == (n@.len() + 1) as u8);
            let v = p7.subrange(2, p7.len() as int);
            assert(v =~= nb + seq![0u8]);
            assert(v.last() == 0);
            assert(v.drop_last() =~= nb);
            assert(spec_apply_entry(d6, p7[0], v) == Some(d7));
            lemma_decode_step(p7, r8, d6, d7);
        },
        None => {
            assert(p7 + r8 =~= r8);
        },
    }
    assert(spec_decode_from(r7, d6) == spec_decode_from(r8, d7));
    let d8 = match c.led_driver {
        Some(x) => SpecDecodedConfig { led_driver: Some(x), ..d7 },
        None => d7,
    };
    match c.led_driver {
        Some(x) => {
            assert(p8.subrange(2, 3) =~= seq![x]);
            lemma_decode_step(p8, Seq::empty(), d7, d8);
            assert(p8 + Seq::<u8>::empty() =~= r8);
        },
        None => {
            assert(r8.len() == 0);
        },
    }
    assert(spec_decode_from(r8, d7) == Some(d8));
    assert(d8 == spec_tail_state(c, d));
}

/// Law: the TLV round trip.  For every encodable configuration, walking the
/// encoded blob recovers exactly the fields that were present in the input;
/// absent fields produce no TLV entry and so stay absent on the way back.
pub proof fn lemma_tlv_round_trip(c: AppConfigInput)
    requires
        spec_config_encodable(c),
    ensures
        spec_decode_config(spec_tlv(c)) == Some(spec_expected_roundtrip(c)),
{
    let p1 = spec_vid_pid_part(c);
    let p2 = spec_opt_u8_entry(0x04, c.led_gpio);
    let p3 = spec_opt_u8_entry(0x05, c.led_brightness);
    let p4 = spec_opt_u8_entry(0x08, c.touch_timeout);
    let p5 = spec_opts_part(c);
    let p6 = spec_curves_part(c);
    let p7 = spec_name_part(c);
    let p8 = spec_opt_u8_entry(0x0C, c.led_driver);
    let tail = p5 + (p6 + (p7 + p8));
    assert(spec_tlv(c) =~= p1 + (p2 + (p3 + (p4 + tail))));
    lemma_rt_head(c, tail);
    lemma_rt_tail(c, spec_head_state(c));
    assert(spec_tail_state(c, spec_head_state(c)) == spec_expected_roundtrip(c));
}

/// Law: the options bitfield entry is always emitted — two value bytes, even
/// when every flag is absent or at its default — and its value carries
/// exactly the three flag bits: 0x02 dimmable, 0x04 power-cycle-on-reset
/// disabled, 0x08 steady.
pub proof fn lemma_options_always_emitted(c: AppConfigInput)
    requires
        spec_config_encodable(c),
    ensures
        spec_decode_config(spec_tlv(c)) matches Some(d) && d.options == Some(spec_opts_bits(c)),
        spec_opts_bits(c) == (if c.led_dimmable == Some(true) {
            2int
        } else {
            0int
        }) + (if c.power_cycle_on_reset == Some(false) {
            4int
        } else {
            0int
        }) + (if c.led_steady == Some(true) {
            8int
        } else {
            0int
        }),
{
    lemma_tlv_round_trip(c);
}

} // verus!
