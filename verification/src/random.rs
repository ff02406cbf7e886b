//! The one true source of randomness: secret keys are drawn through the
//! cryptographically seeded generator of the tfhe crate. Everything else
//! (encryption masks, noise samples) enters the library as explicit
//! `EntropySource` words prepared by the caller.
use vstd::prelude::*;

verus! {

/// Relies on tfhe's `new_seeder` (a hardware or operating-system entropy
/// seeder) and `LweSecretKey::generate_new_binary`, whose source fills the
/// key with uniformly random binary values: the result has length n and
/// every coefficient is 0 or 1. Nothing is assumed about which bits come
/// out. `from_container` rejects an empty key, hence the lower bound.
#[verifier::external_body]
pub fn tfhe_random_binary_vec(n: usize) -> (r: Vec<u64>)
    requires
        1 <= n,
    ensures
        r@.len() == n,
        forall|i: int| 0 <= i < n ==> r@[i] == 0 || r@[i] == 1,
{
    let mut seeder = tfhe::core_crypto::seeders::new_seeder();
    let mut generator = tfhe::core_crypto::prelude::SecretRandomGenerator::<
        tfhe::core_crypto::prelude::ActivatedRandomGenerator,
    >::new(seeder.seed());
    let sk: tfhe::core_crypto::prelude::LweSecretKeyOwned<u64> =
        tfhe::core_crypto::prelude::LweSecretKey::generate_new_binary(
        tfhe::core_crypto::prelude::LweDimension(n),
        &mut generator,
    );
    sk.into_container()
}

} // verus!
