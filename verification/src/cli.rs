//! The commands of the voter's tool, as plain values.

use vstd::prelude::*;
use std::path::PathBuf;

verus! {

/// A filesystem path, as `std` holds it.
#[verifier::external_type_specification]
#[verifier::external_body]
pub struct ExPathBuf(PathBuf);

/// A command line of the voter's tool.
pub struct Cli {
    pub command: Command,
}

/// What the voter's tool is asked to do.
pub enum Command {
    /// Prove a vote with the identity stored under `user_id_path`, keep the
    /// receipt if asked, and submit it to the registry.
    Vote { user_id_path: PathBuf, vote: String, receipt_out_path: Option<PathBuf> },
    /// Create a key pair and store it under `out_path`, in a directory named
    /// after the user (`"user"` by default).
    GenerateKeyPair { out_path: PathBuf, user_name: Option<String> },
    /// Issue, with the authority's key stored under `issuer_id_path`, the
    /// identity of the user whose public key is stored at `user_pkey_path`.
    IssueIdentity { issuer_id_path: PathBuf, user_pkey_path: PathBuf },
    /// Check the receipts listed in a file and tally the votes for an election.
    Audit { audit_file_path: PathBuf, gov_key_hex: String },
    /// Print the id of the election a stored receipt votes in.
    ExtractElectionId { receipt_path: PathBuf },
}

/// The directory name under which a key pair is stored: the user's name,
/// or `"user"` when none is given.
pub fn key_pair_dir_name(user_name: Option<String>) -> (r: String)
    ensures
        r@ == match user_name {
            Some(n) => n@,
            None => seq!['u', 's', 'e', 'r'],
        },
{
    match user_name {
        Some(n) => n,
        None => {
            let d = String::from_str("user");
            proof {
                reveal_strlit("user");
            }
            d
        },
    }
}

} // verus!
