//! Host-side core of a bridge to a vendor-extended CTAP-HID security key.
//!
//! The library holds the logic that can be checked: the TLV configuration
//! codec, the vendor CBOR payload codec, CTAP-HID report framing, the status
//! aggregation rules and the credential bookkeeping.  The surrounding
//! application owns the actual device I/O and feeds raw bytes in and out.

pub mod cbor;
pub mod channel;
pub mod credman;
pub mod error;
pub mod hexcodec;
pub mod hid;
pub mod status;
pub mod textfmt;
pub mod tlv;
