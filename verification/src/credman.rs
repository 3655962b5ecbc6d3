use vstd::prelude::*;

use crate::error::PFError;
use crate::hexcodec::{
    hex_decode, hex_encode, spec_hex_decode, spec_hex_lower, spec_is_hex_string,
};

verus! {

/// A relying party as enumeration reports it.
#[derive(Debug, Clone)]
pub struct RpInfo {
    pub id: String,
    pub name: String,
}

/// A resident credential as enumeration reports it, ids still raw bytes.
#[derive(Debug, Clone)]
pub struct CredInfo {
    pub id: Vec<u8>,
    pub user_name: String,
    pub user_display_name: String,
    pub user_id: Vec<u8>,
}

/// A resident credential prepared for the caller: ids rendered as lowercase
/// hex, relying-party fields attached.
#[derive(Debug, Clone)]
pub struct StoredCredential {
    pub credential_id: String,
    pub rp_id: String,
    pub rp_name: String,
    pub user_name: String,
    pub user_display_name: String,
    pub user_id: String,
}

/// How one output row must relate to the relying party and credential it was
/// built from.
pub open spec fn spec_entry_matches(s: StoredCredential, rp: RpInfo, c: CredInfo) -> bool {
    &&& s.credential_id@ == spec_hex_lower(c.id@)
    &&& s.rp_id@ == rp.id@
    &&& s.rp_name@ == rp.name@
    &&& s.user_name@ == c.user_name@
    &&& s.user_display_name@ == c.user_display_name@
    &&& s.user_id@ == spec_hex_lower(c.user_id@)
}

/// How many credentials stand before relying party `i` in the flattening.
pub open spec fn spec_cred_offset(rps: Seq<(RpInfo, Vec<CredInfo>)>, i: int) -> int
    decreases i,
{
    if i <= 0 {
        0
    } else {
        spec_cred_offset(rps, i - 1) + rps[i - 1].1@.len()
    }
}

pub proof fn lemma_cred_offset_nonneg(rps: Seq<(RpInfo, Vec<CredInfo>)>, i: int)
    requires
        0 <= i <= rps.len(),
    ensures
        0 <= spec_cred_offset(rps, i),
    decreases i,
{
    if i > 0 {
        lemma_cred_offset_nonneg(rps, i - 1);
    }
}

proof fn lemma_cred_offset_bound(rps: Seq<(RpInfo, Vec<CredInfo>)>, a: int, i: int)
    requires
        0 <= a < i <= rps.len(),
    ensures
        spec_cred_offset(rps, a) + rps[a].1@.len() <= spec_cred_offset(rps, i),
        0 <= spec_cred_offset(rps, a),
    decreases i,
{
    lemma_cred_offset_nonneg(rps, a);
    if i > a + 1 {
        lemma_cred_offset_bound(rps, a, i - 1);
    }
}

/// Flattens the per-relying-party credential lists into one ordered sequence:
/// relying parties in enumeration order, and within each its credentials in
/// order.
pub fn flatten_credentials(rps: Vec<(RpInfo, Vec<CredInfo>)>) -> (r: Vec<StoredCredential>)
    ensures
        r@.len() == spec_cred_offset(rps@, rps@.len() as int),
        forall|i: int, j: int|
            0 <= i < rps@.len() && 0 <= j < rps@[i].1@.len() ==> spec_entry_matches(
                r@[spec_cred_offset(rps@, i) + j],
                rps@[i].0,
                #[trigger] rps@[i].1@[j],
            ),
{
    let mut out: Vec<StoredCredential> = Vec::new();
    let n = rps.len();
    let mut i: usize = 0;
    while i < n
        invariant
            i <= n,
            n == rps@.len(),
            out@.len() == spec_cred_offset(rps@, i as int),
            forall|a: int, b: int|
                0 <= a < i && 0 <= b < rps@[a].1@.len() ==> spec_entry_matches(
                    out@[spec_cred_offset(rps@, a) + b],
                    rps@[a].0,
                    #[trigger] rps@[a].1@[b],
                ),
        decreases n - i,
    {
        let rp = &rps[i].0;
        let creds = &rps[i].1;
        let m = creds.len();
        let mut j: usize = 0;
        while j < m
            invariant
                j <= m,
                i < n,
                n == rps@.len(),
                m == rps@[i as int].1@.len(),
                rp == rps@[i as int].0,
                creds == rps@[i as int].1,
                out@.len() == spec_cred_offset(rps@, i as int) + j,
                forall|a: int, b: int|
                    0 <= a < i && 0 <= b < rps@[a].1@.len() ==> spec_entry_matches(
                        out@[spec_cred_offset(rps@, a) + b],
                        rps@[a].0,
                        #[trigger] rps@[a].1@[b],
                    ),
                forall|b: int|
                    0 <= b < j ==> spec_entry_matches(
                        out@[spec_cred_offset(rps@, i as int) + b],
                        rps@[i as int].0,
                        #[trigger] rps@[i as int].1@[b],
                    ),
            decreases m - j,
        {
            let c = &creds[j];
            let row = StoredCredential {
                credential_id: hex_encode(&c.id),
                rp_id: rp.id.clone(),
                rp_name: rp.name.clone(),
                user_name: c.user_name.clone(),
                user_display_name: c.user_display_name.clone(),
                user_id: hex_encode(&c.user_id),
            };
            let ghost out_before = out@;
            out.push(row);
            proof {
                lemma_cred_offset_nonneg(rps@, i as int);
                assert(spec_entry_matches(row, rps@[i as int].0, rps@[i as int].1@[j as int]));
                assert forall|a: int, b: int|
                    0 <= a < i && 0 <= b < rps@[a].1@.len() implies spec_entry_matches(
                    out@[spec_cred_offset(rps@, a) + b],
                    rps@[a].0,
                    #[trigger] rps@[a].1@[b],
                ) by {
                    lemma_cred_offset_bound(rps@, a, i as int);
                    assert(out@[spec_cred_offset(rps@, a) + b] == out_before[spec_cred_offset(
                        rps@,
                        a,
                    ) + b]);
                };
            }
            j += 1;
        }
        proof {
            lemma_cred_offset_nonneg(rps@, i as int);
            assert forall|a: int, b: int|
                0 <= a < i + 1 && 0 <= b < rps@[a].1@.len() implies spec_entry_matches(
                out@[spec_cred_offset(rps@, a) + b],
                rps@[a].0,
                #[trigger] rps@[a].1@[b],
            ) by {
                if a < i {
                } else {
                }
            };
        }
        i += 1;
    }
    out
}

/// Reads a credential id given as hex into its bytes.  Malformed hex is
/// rejected here, before any device exchange could be attempted, with the
/// distinguished invalid-hex error.
pub fn decode_credential_id(credential_id_hex: &str) -> (r: Result<Vec<u8>, PFError>)
    ensures
        r is Ok <==> spec_is_hex_string(credential_id_hex@),
        r matches Ok(v) ==> v@ == spec_hex_decode(credential_id_hex@),
        r matches Err(e) ==> e matches PFError::Io(m) && m@ == "Invalid Credential ID Hex string"@,
{
    match hex_decode(credential_id_hex) {
        Some(v) => Ok(v),
        None => Err(PFError::Io("Invalid Credential ID Hex string".to_owned())),
    }
}

} // verus!
