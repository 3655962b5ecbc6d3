use vstd::prelude::*;

use rand::RngExt;

use crate::error::PFError;
use crate::tlv::{encode_config, spec_config_encodable, spec_tlv, AppConfigInput};

verus! {

/// A credential-creation request repurposed as a configuration write: the
/// firmware recognises the fixed relying-party id and reads the user-entity
/// id bytes as a TLV command instead of storing a credential.
#[derive(Debug, Clone)]
pub struct CommissionRequest {
    pub rpid: String,
    pub challenge: Vec<u8>,
    pub user_id: Vec<u8>,
    pub user_name: String,
    pub user_display_name: String,
}

/// Relies on rand::rng().fill: whatever was drawn, exactly 32 bytes come
/// back.  Nothing else can be promised of a fresh random challenge.
#[verifier::external_body]
fn random_challenge() -> (r: Vec<u8>)
    ensures
        r@.len() == 32,
{
    let mut buf = [0u8; 32];
    rand::rng().fill(&mut buf[..]);
    buf.to_vec()
}

/// Builds the covert configuration write: the TLV blob rides in the user-id
/// field, under a fresh 32-byte challenge and the fixed literals the firmware
/// looks for.  The surrounding application hands the request to the FIDO2
/// client library's credential-creation call unchanged.
pub fn build_commission_request(config: &AppConfigInput) -> (r: Result<CommissionRequest, PFError>)
    ensures
        r is Ok <==> spec_config_encodable(*config),
        r matches Ok(req) ==> {
            &&& req.user_id@ == spec_tlv(*config)
            &&& req.rpid@ == "Pico Keys"@
            &&& req.user_name@ == "+picoCommissionProfile"@
            &&& req.user_display_name@ == "Pico Commissioner"@
            &&& req.challenge@.len() == 32
        },
        r matches Err(e) ==> e matches PFError::Io(_),
{
    let blob = match encode_config(config) {
        Ok(v) => v,
        Err(e) => {
            return Err(e);
        },
    };
    Ok(
        CommissionRequest {
            rpid: "Pico Keys".to_owned(),
            challenge: random_challenge(),
            user_id: blob,
            user_name: "+picoCommissionProfile".to_owned(),
            user_display_name: "Pico Commissioner".to_owned(),
        },
    )
}

} // verus!
