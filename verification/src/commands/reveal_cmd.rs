use vstd::prelude::*;

use crate::error::Result;
use crate::secret_value::SecretValue;
use crate::vault::{exact, is_not_found, Vault};

verus! {

/// Read the secret at `(namespace, var)`. `Error::NotFound` if absent.
pub fn run<V: Vault + ?Sized>(vault: &V, namespace: &str, var: &str) -> (r: Result<SecretValue>)
    ensures
        vault.is_modeled() ==> (r matches Ok(v) ==> vault.contents().contains_key(
            (namespace@, var@),
        ) && v@ == vault.contents()[(namespace@, var@)]),
        vault.is_modeled() ==> (!vault.contents().contains_key((namespace@, var@)) ==> is_not_found(
            r,
            namespace@,
            var@,
        )),
        exact(vault) && vault.contents().contains_key((namespace@, var@)) ==> r is Ok,
{
    vault.get(namespace, var)
}

} // verus!
