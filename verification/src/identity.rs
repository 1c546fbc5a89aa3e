//! The identity store's decisions.  The shell reads and writes the key
//! file; this module decides which 32 bytes become the secret, and derives
//! the public identifier, which is a function of the secret alone — which
//! is what makes the identity stable across launches.
use vstd::prelude::*;

verus! {

/// The public identifier that the transport derives from a 32-byte secret.
pub uninterp spec fn spec_node_id_of(secret: Seq<u8>) -> Seq<char>;

/// Relies on iroh-base's `SecretKey::from_bytes`, `SecretKey::public` and
/// the `Display` of `PublicKey` (lowercase hex of the 32 public-key bytes):
/// the identifier depends on the secret bytes alone, and hex of 32 bytes is
/// 64 characters.
#[verifier::external_body]
fn derive_node_id(secret: &[u8; 32]) -> (r: String)
    ensures
        r@ == spec_node_id_of(secret@),
        r@.len() == 64,
{
    iroh::SecretKey::from_bytes(secret).public().to_string()
}

/// The secret an identity load settles on: the file's bytes when the file
/// held exactly 32 bytes, else the freshly generated bytes.
pub open spec fn spec_chosen_secret(loaded: Option<Seq<u8>>, fresh: Seq<u8>) -> Seq<u8> {
    match loaded {
        Some(bytes) => if bytes.len() == 32 {
            bytes
        } else {
            fresh
        },
        None => fresh,
    }
}

/// Settle the identity: adopt the loaded key file if it is exactly 32
/// bytes, else the fresh random bytes; derive the public identifier.
/// Returns the secret, the identifier, and whether the fresh key was taken
/// (in which case the shell should try to persist it).
pub fn settle_identity(loaded: Option<Vec<u8>>, fresh: [u8; 32]) -> (r: ([u8; 32], String, bool))
    ensures
        r.0@ == spec_chosen_secret(
            match loaded {
                Some(b) => Some(b@),
                None => None,
            },
            fresh@,
        ),
        r.1@ == spec_node_id_of(r.0@),
        r.1@.len() == 64,
        r.2 == !(loaded matches Some(b) && b@.len() == 32),
    {
    let (secret, generated): ([u8; 32], bool) = match loaded {
        Some(bytes) => {
            if bytes.len() == 32 {
                let mut arr: [u8; 32] = [0; 32];
                let mut i: usize = 0;
                while i < 32
                    invariant
                        i <= 32,
                        bytes@.len() == 32,
                        forall|j: int| 0 <= j < i ==> arr@[j] == bytes@[j],
                    decreases 32 - i,
                {
                    arr.set(i, bytes[i]);
                    i = i + 1;
                }
                proof {
                    assert(arr@ =~= bytes@);
                }
                (arr, false)
            } else {
                (fresh, true)
            }
        },
        None => (fresh, true),
    };
    let node_id = derive_node_id(&secret);
    (secret, node_id, generated)
}

/// Stable identity: two launches that load the same existing 32-byte key
/// file settle on the same public identifier, whatever fresh bytes each
/// drew.
pub proof fn lemma_stable_identity(file: Seq<u8>, fresh1: Seq<u8>, fresh2: Seq<u8>)
    requires
        file.len() == 32,
    ensures
        spec_node_id_of(spec_chosen_secret(Some(file), fresh1)) == spec_node_id_of(
            spec_chosen_secret(Some(file), fresh2),
        ),
{
}

} // verus!
