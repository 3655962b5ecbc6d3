use vstd::prelude::*;

verus! {

/// Error kinds of the library.
///
/// `NoDevice` is kept distinct from the other transport failures because a
/// caller must be able to tell "is it plugged in?" apart from a generic I/O
/// fault.  `Pcsc` carries a smart-card subsystem failure already rendered to
/// text; the library itself never constructs it, the surrounding application
/// does.  `Io` covers I/O, hex and CBOR codec failures; `Device` covers
/// firmware-side rejections.
#[derive(Debug, Clone)]
pub enum PFError {
    NoDevice,
    Pcsc(String),
    Io(String),
    Device(String),
}

impl PFError {
    /// The single human-readable rendering that crosses the boundary to the
    /// caller; no structured error codes leave the library.
    pub open spec fn spec_message(self) -> Seq<char> {
        match self {
            PFError::NoDevice => "Could not connect to FIDO device. Is it plugged in?"@,
            PFError::Pcsc(s) => "PCSC Error: "@ + s@,
            PFError::Io(s) => "IO/Hex Error: "@ + s@,
            PFError::Device(s) => "Device Error: "@ + s@,
        }
    }

    pub fn message(&self) -> (r: String)
        ensures
            r@ == self.spec_message(),
    {
        match self {
            PFError::NoDevice => "Could not connect to FIDO device. Is it plugged in?".to_owned(),
            PFError::Pcsc(s) => "PCSC Error: ".to_owned().concat(s.as_str()),
            PFError::Io(s) => "IO/Hex Error: ".to_owned().concat(s.as_str()),
            PFError::Device(s) => "Device Error: ".to_owned().concat(s.as_str()),
        }
    }
}

} // verus!
