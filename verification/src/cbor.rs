use vstd::prelude::*;

use serde_cbor_2::Value;

verus! {

/// The outer byte of a vendor payload, selecting the command category.  The
/// values are firmware-defined constants and must never be renumbered.
#[derive(Debug, Clone, Copy, PartialEq, Eq, Structural)]
pub enum VendorCommand {
    Memory,
    PhysicalOptions,
}

impl VendorCommand {
    pub open spec fn spec_byte(self) -> u8 {
        match self {
            VendorCommand::Memory => 0x06,
            VendorCommand::PhysicalOptions => 0x05,
        }
    }

    pub fn byte(&self) -> (r: u8)
        ensures
            r == self.spec_byte(),
    {
        match self {
            VendorCommand::Memory => 0x06,
            VendorCommand::PhysicalOptions => 0x05,
        }
    }
}

/// Sub-operations of the Memory category, sent as the inner CBOR map's
/// value under key 1.
#[derive(Debug, Clone, Copy, PartialEq, Eq, Structural)]
pub enum MemorySubCommand {
    GetStats,
}

impl MemorySubCommand {
    pub open spec fn spec_code(self) -> u8 {
        match self {
            MemorySubCommand::GetStats => 0x01,
        }
    }

    pub fn code(&self) -> (r: u8)
        ensures
            r == self.spec_code(),
    {
        match self {
            MemorySubCommand::GetStats => 0x01,
        }
    }
}

/// Sub-operations of the PhysicalOptions category.
#[derive(Debug, Clone, Copy, PartialEq, Eq, Structural)]
pub enum PhysicalOptionsSubCommand {
    GetOptions,
}

impl PhysicalOptionsSubCommand {
    pub open spec fn spec_code(self) -> u8 {
        match self {
            PhysicalOptionsSubCommand::GetOptions => 0x01,
        }
    }

    pub fn code(&self) -> (r: u8)
        ensures
            r == self.spec_code(),
    {
        match self {
            PhysicalOptionsSubCommand::GetOptions => 0x01,
        }
    }
}

/// A key of the top-level CBOR map of a device response, reduced to what the
/// vendor protocol reads: integer keys, text keys, anything else opaque.
#[derive(Debug, Clone)]
pub enum CborKey {
    Int(i128),
    Text(String),
    Other,
}

/// A value of the top-level CBOR map, reduced likewise.
#[derive(Debug, Clone)]
pub enum CborVal {
    Int(i128),
    Bytes(Vec<u8>),
    Other,
}

/// What parsing a byte string as a CBOR document yields, restricted to the
/// shape the vendor protocol reads: the top-level map's entries in order.
/// Parsing is a function of the bytes alone; a malformed document or one that
/// is not a map at the top level yields nothing.
pub uninterp spec fn cbor_map_entries(b: Seq<u8>) -> Option<Seq<(CborKey, CborVal)>>;

/// Relies on serde_cbor_2::from_slice::<Value>: a self-describing parse of
/// one CBOR document.  An empty input is never a well-formed document, so it
/// yields None.
#[verifier::external_body]
pub(crate) fn parse_cbor_map(b: &Vec<u8>) -> (r: Option<Vec<(CborKey, CborVal)>>)
    ensures
        match r {
            Some(v) => cbor_map_entries(b@) == Some(v@),
            None => cbor_map_entries(b@) is None,
        },
        b@.len() == 0 ==> r is None,
{
    match serde_cbor_2::from_slice::<Value>(b.as_slice()) {
        Ok(Value::Map(m)) => Some(m.into_iter().map(|(k, v)| (
            match k {
                Value::Integer(i) => CborKey::Int(i),
                Value::Text(t) => CborKey::Text(t),
                _ => CborKey::Other,
            },
            match v {
                Value::Integer(i) => CborVal::Int(i),
                Value::Bytes(x) => CborVal::Bytes(x),
                _ => CborVal::Other,
            },
        )).collect()),
        _ => None,
    }
}

/// Relies on serde_cbor_2::to_vec on a one-entry map of small unsigned
/// integers: a single-entry map is the byte 0xA1, and an unsigned integer
/// below 24 is itself one byte.
#[verifier::external_body]
fn cbor_encode_map1(key: u8, val: u8) -> (r: Vec<u8>)
    requires
        key < 24,
        val < 24,
    ensures
        r@ == seq![0xA1u8, key, val],
{
    let mut m = std::collections::BTreeMap::new();
    m.insert(
        serde_cbor_2::Value::Integer(key as i128),
        serde_cbor_2::Value::Integer(val as i128),
    );
    match serde_cbor_2::to_vec(&serde_cbor_2::Value::Map(m)) {
        Ok(v) => v,
        Err(_) => Vec::new(),
    }
}

/// A vendor request as it goes over the wire: the raw vendor command byte,
/// then the CBOR map `{1: sub-command}`.  The two-layer framing — an outer
/// raw byte selecting the category, an inner CBOR map selecting the
/// sub-operation — is what the firmware expects and must be kept exactly.
pub fn build_vendor_payload(cmd: VendorCommand, sub: u8) -> (r: Vec<u8>)
    requires
        sub < 24,
    ensures
        r@ == seq![cmd.spec_byte(), 0xA1u8, 0x01u8, sub],
{
    let mut out: Vec<u8> = Vec::new();
    out.push(cmd.byte());
    let mut body = cbor_encode_map1(0x01, sub);
    out.append(&mut body);
    proof {
        assert(out@ =~= seq![cmd.spec_byte(), 0xA1u8, 0x01u8, sub]);
    }
    out
}

/// The first integer value stored under an integer key, or nothing.  (The
/// device's top-level maps carry each key once.)
pub open spec fn spec_lookup_int(entries: Seq<(CborKey, CborVal)>, key: i128) -> Option<i128>
    decreases entries.len(),
{
    if entries.len() == 0 {
        None
    } else {
        match entries[0] {
            (CborKey::Int(k), CborVal::Int(v)) => if k == key {
                Some(v)
            } else {
                spec_lookup_int(entries.drop_first(), key)
            },
            _ => spec_lookup_int(entries.drop_first(), key),
        }
    }
}

pub fn lookup_int(entries: &Vec<(CborKey, CborVal)>, key: i128) -> (r: Option<i128>)
    ensures
        r == spec_lookup_int(entries@, key),
{
    let n = entries.len();
    let mut i: usize = 0;
    proof {
        assert(entries@.subrange(0, n as int) =~= entries@);
    }
    while i < n
        invariant
            i <= n,
            n == entries@.len(),
            spec_lookup_int(entries@.subrange(i as int, n as int), key) == spec_lookup_int(
                entries@,
                key,
            ),
        decreases n - i,
    {
        let ghost rem = entries@.subrange(i as int, n as int);
        proof {
            assert(rem[0] == entries@[i as int]);
            assert(rem.drop_first() =~= entries@.subrange(i as int + 1, n as int));
        }
        match &entries[i] {
            (CborKey::Int(k), CborVal::Int(v)) => {
                if *k == key {
                    return Some(*v);
                }
            },
            _ => {},
        }
        i += 1;
    }
    proof {
        assert(entries@.subrange(n as int, n as int).len() == 0);
    }
    None
}

/// The first integer value stored under a text key, or nothing.
pub open spec fn spec_lookup_text(entries: Seq<(CborKey, CborVal)>, key: Seq<char>) -> Option<
    i128,
>
    decreases entries.len(),
{
    if entries.len() == 0 {
        None
    } else {
        match entries[0] {
            (CborKey::Text(k), CborVal::Int(v)) => if k@ == key {
                Some(v)
            } else {
                spec_lookup_text(entries.drop_first(), key)
            },
            _ => spec_lookup_text(entries.drop_first(), key),
        }
    }
}

pub fn lookup_text(entries: &Vec<(CborKey, CborVal)>, key: &String) -> (r: Option<i128>)
    ensures
        r == spec_lookup_text(entries@, key@),
{
    let n = entries.len();
    let mut i: usize = 0;
    proof {
        assert(entries@.subrange(0, n as int) =~= entries@);
    }
    while i < n
        invariant
            i <= n,
            n == entries@.len(),
            spec_lookup_text(entries@.subrange(i as int, n as int), key@) == spec_lookup_text(
                entries@,
                key@,
            ),
        decreases n - i,
    {
        let ghost rem = entries@.subrange(i as int, n as int);
        proof {
            assert(rem[0] == entries@[i as int]);
            assert(rem.drop_first() =~= entries@.subrange(i as int + 1, n as int));
        }
        match &entries[i] {
            (CborKey::Text(k), CborVal::Int(v)) => {
                if k.eq(key) {
                    return Some(*v);
                }
            },
            _ => {},
        }
        i += 1;
    }
    proof {
        assert(entries@.subrange(n as int, n as int).len() == 0);
    }
    None
}

/// The first byte-string value stored under an integer key, or nothing.
pub open spec fn spec_lookup_bytes(entries: Seq<(CborKey, CborVal)>, key: i128) -> Option<Seq<u8>>
    decreases entries.len(),
{
    if entries.len() == 0 {
        None
    } else {
        match entries[0] {
            (CborKey::Int(k), CborVal::Bytes(v)) => if k == key {
                Some(v@)
            } else {
                spec_lookup_bytes(entries.drop_first(), key)
            },
            _ => spec_lookup_bytes(entries.drop_first(), key),
        }
    }
}

pub fn lookup_bytes(entries: &Vec<(CborKey, CborVal)>, key: i128) -> (r: Option<Vec<u8>>)
    ensures
        match r {
            Some(v) => spec_lookup_bytes(entries@, key) == Some(v@),
            None => spec_lookup_bytes(entries@, key) is None,
        },
{
    let n = entries.len();
    let mut i: usize = 0;
    proof {
        assert(entries@.subrange(0, n as int) =~= entries@);
    }
    while i < n
        invariant
            i <= n,
            n == entries@.len(),
            spec_lookup_bytes(entries@.subrange(i as int, n as int), key) == spec_lookup_bytes(
                entries@,
                key,
            ),
        decreases n - i,
    {
        let ghost rem = entries@.subrange(i as int, n as int);
        proof {
            assert(rem[0] == entries@[i as int]);
            assert(rem.drop_first() =~= entries@.subrange(i as int + 1, n as int));
        }
        match &entries[i] {
            (CborKey::Int(k), CborVal::Bytes(v)) => {
                if *k == key {
                    let mut out: Vec<u8> = Vec::new();
                    let mut j: usize = 0;
                    while j < v.len()
                        invariant
                            j <= v@.len(),
                            out@ == v@.subrange(0, j as int),
                        decreases v@.len() - j,
                    {
                        out.push(v[j]);
                        proof {
                            assert(out@ =~= v@.subrange(0, j as int + 1));
                        }
                        j += 1;
                    }
                    proof {
                        assert(out@ =~= v@);
                    }
                    return Some(out);
                }
            },
            _ => {},
        }
        i += 1;
    }
    proof {
        assert(entries@.subrange(n as int, n as int).len() == 0);
    }
    None
}

} // verus!
