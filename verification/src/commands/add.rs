use vstd::prelude::*;

use crate::error::Result;
use crate::secret_value::SecretValue;
use crate::vault::{exact, Contents, Vault};

verus! {

/// Store `value` at `(namespace, var)`. Overwrites existing.
pub fn run<V: Vault + ?Sized>(vault: &mut V, namespace: &str, var: &str, value: SecretValue) -> (r:
    Result<()>)
    ensures
        old(vault).is_modeled() ==> (r is Ok ==> final(vault).contents() == old(
            vault,
        ).contents().insert((namespace@, var@), value@)),
        old(vault).is_modeled() ==> (r is Err ==> final(vault).contents() == old(vault).contents()
            || final(vault).contents() == old(vault).contents().insert((namespace@, var@), value@)),
        final(vault).is_modeled() == old(vault).is_modeled(),
        final(vault).is_infallible() == old(vault).is_infallible(),
        exact(&*old(vault)) ==> r is Ok,
{
    vault.set(namespace, var, value)
}

/// What `add` stores, `reveal` reads back: when `add::run` succeeds on a
/// modelled vault its contents become `before` with the pair set to `value`,
/// so the pair is present and holds `value`, which is what `reveal_cmd::run`
/// then returns; any earlier value at the pair is replaced.
pub proof fn law_add_then_reveal(
    before: Contents,
    after: Contents,
    namespace: Seq<char>,
    var: Seq<char>,
    value: Seq<u8>,
)
    requires
        after == before.insert((namespace, var), value),
    ensures
        after.contains_key((namespace, var)),
        after[(namespace, var)] == value,
{
}

} // verus!
