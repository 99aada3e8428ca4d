//! The storage abstraction and its mathematical model: a map from
//! `(namespace, var)` to the secret's bytes.
use vstd::prelude::*;

use crate::error::{Error, Result};
use crate::secret_value::SecretValue;
use crate::text::{strictly_sorted, views};

verus! {

/// The contents of a vault: `(namespace, var)` to the secret's bytes.
pub type Contents = Map<(Seq<char>, Seq<char>), Seq<u8>>;

/// The variables stored in `namespace`.
pub open spec fn vars_of(c: Contents, namespace: Seq<char>) -> Set<Seq<char>> {
    Set::new(|v: Seq<char>| c.contains_key((namespace, v)))
}

/// The namespaces with at least one stored secret.
pub open spec fn namespaces_of(c: Contents) -> Set<Seq<char>> {
    Set::new(|ns: Seq<char>| exists|v: Seq<char>| c.contains_key((ns, v)))
}

/// `r` is the `NotFound` error for `(namespace, var)`.
pub open spec fn is_not_found<T>(r: Result<T>, namespace: Seq<char>, var: Seq<char>) -> bool {
    r matches Err(Error::NotFound { namespace: n, var: v }) && n@ == namespace && v@ == var
}

/// Storage abstraction. Implementations: `InMemoryVault` here, and the macOS
/// Keychain-backed vault of the application.
///
/// What a vault holds is its `contents`. Only a vault whose contents are
/// modelled here (`is_modeled`) is bound to them by the clauses below; storage
/// outside the process, such as the Keychain, has no model in this library and
/// is held to the clauses that do not mention it.
pub trait Vault {
    /// What the vault holds, when `is_modeled`.
    open spec fn contents(&self) -> Contents {
        Map::empty()
    }

    /// Whether `contents` is what the vault holds.
    open spec fn is_modeled(&self) -> bool {
        false
    }

    /// The vault fails only where its contract names a failure (`NotFound`
    /// for a missing secret): storage that cannot fail, such as memory.
    open spec fn is_infallible(&self) -> bool {
        false
    }

    /// Set or overwrite a secret.
    fn set(&mut self, namespace: &str, var: &str, value: SecretValue) -> (r: Result<()>)
        ensures
            old(self).is_modeled() ==> (r is Ok ==> final(self).contents() == old(
                self,
            ).contents().insert((namespace@, var@), value@)),
            old(self).is_modeled() ==> (r is Err ==> final(self).contents() == old(self).contents()
                || final(self).contents() == old(self).contents().insert(
                (namespace@, var@),
                value@,
            )),
            final(self).is_modeled() == old(self).is_modeled(),
            final(self).is_infallible() == old(self).is_infallible(),
            old(self).is_modeled() && old(self).is_infallible() ==> r is Ok,
    ;

    /// Read a secret. Returns `Error::NotFound` if missing.
    fn get(&self, namespace: &str, var: &str) -> (r: Result<SecretValue>)
        ensures
            self.is_modeled() ==> (r matches Ok(v) ==> self.contents().contains_key(
                (namespace@, var@),
            ) && v@ == self.contents()[(namespace@, var@)]),
            self.is_modeled() ==> (!self.contents().contains_key((namespace@, var@))
                ==> is_not_found(r, namespace@, var@)),
            self.is_modeled() && self.is_infallible() && self.contents().contains_key((namespace@, var@)) ==> r is Ok,
    ;

    /// Delete a secret. Returns `Error::NotFound` if missing.
    fn delete(&mut self, namespace: &str, var: &str) -> (r: Result<()>)
        ensures
            old(self).is_modeled() ==> (r is Ok ==> old(self).contents().contains_key(
                (namespace@, var@),
            ) && final(self).contents() == old(self).contents().remove((namespace@, var@))),
            old(self).is_modeled() ==> (r is Err ==> final(self).contents() == old(self).contents()
                || final(self).contents() == old(self).contents().remove((namespace@, var@))),
            old(self).is_modeled() ==> (!old(self).contents().contains_key((namespace@, var@))
                ==> is_not_found(r, namespace@, var@)),
            final(self).is_modeled() == old(self).is_modeled(),
            final(self).is_infallible() == old(self).is_infallible(),
            old(self).is_modeled() && old(self).is_infallible() && old(self).contents().contains_key((namespace@, var@)) ==> r is Ok,
    ;

    /// Variable names within `namespace`. Sorted. Empty list if the namespace has no entries.
    fn list_vars(&self, namespace: &str) -> (r: Result<Vec<String>>)
        ensures
            r matches Ok(v) ==> strictly_sorted(views(v@)),
            self.is_modeled() ==> (r matches Ok(v) ==> views(v@).to_set() == vars_of(
                self.contents(),
                namespace@,
            )),
            self.is_modeled() && self.is_infallible() ==> r is Ok,
    ;

    /// All namespaces with at least one stored secret. Sorted.
    fn list_namespaces(&self) -> (r: Result<Vec<String>>)
        ensures
            r matches Ok(v) ==> strictly_sorted(views(v@)),
            self.is_modeled() ==> (r matches Ok(v) ==> views(v@).to_set() == namespaces_of(
                self.contents(),
            )),
            self.is_modeled() ==> (r is Ok ==> self.contents().dom().finite()
                && self.contents().dom().len() <= usize::MAX),
            self.is_modeled() && self.is_infallible() ==> r is Ok,
    ;
}

/// A modelled vault that fails only where its contract names a failure.
pub open spec fn exact<V: Vault + ?Sized>(v: &V) -> bool {
    v.is_modeled() && v.is_infallible()
}

} // verus!

verus! {

/// A read gives back what the last write wrote.
pub proof fn law_get_after_set(c: Contents, namespace: Seq<char>, var: Seq<char>, value: Seq<u8>)
    ensures
        c.insert((namespace, var), value).contains_key((namespace, var)),
        c.insert((namespace, var), value)[(namespace, var)] == value,
{
}

/// A second write to the same place replaces the first.
pub proof fn law_set_overwrites(
    c: Contents,
    namespace: Seq<char>,
    var: Seq<char>,
    first: Seq<u8>,
    second: Seq<u8>,
)
    ensures
        c.insert((namespace, var), first).insert((namespace, var), second) == c.insert(
            (namespace, var),
            second,
        ),
{
    assert(c.insert((namespace, var), first).insert((namespace, var), second) =~= c.insert(
        (namespace, var),
        second,
    ));
}

/// A write touches no other secret.
pub proof fn law_set_leaves_others(
    c: Contents,
    namespace: Seq<char>,
    var: Seq<char>,
    value: Seq<u8>,
    other: (Seq<char>, Seq<char>),
)
    requires
        other != (namespace, var),
    ensures
        c.insert((namespace, var), value).contains_key(other) == c.contains_key(other),
        c.contains_key(other) ==> c.insert((namespace, var), value)[other] == c[other],
{
}

/// After a delete the secret is gone, and a read of it is `NotFound`.
pub proof fn law_delete_then_absent(c: Contents, namespace: Seq<char>, var: Seq<char>)
    ensures
        !c.remove((namespace, var)).contains_key((namespace, var)),
{
}

/// A stored secret's variable is listed in its namespace, and its namespace is listed.
pub proof fn law_set_then_listed(c: Contents, namespace: Seq<char>, var: Seq<char>, value: Seq<u8>)
    ensures
        vars_of(c.insert((namespace, var), value), namespace).contains(var),
        namespaces_of(c.insert((namespace, var), value)).contains(namespace),
{
    assert(c.insert((namespace, var), value).contains_key((namespace, var)));
}

/// Deleting the last variable of a namespace drops the namespace from the listing.
pub proof fn law_delete_last_var_drops_namespace(c: Contents, namespace: Seq<char>, var: Seq<char>)
    requires
        vars_of(c, namespace) == Set::<Seq<char>>::empty().insert(var),
    ensures
        !namespaces_of(c.remove((namespace, var))).contains(namespace),
{
    if namespaces_of(c.remove((namespace, var))).contains(namespace) {
        let v = choose|v: Seq<char>| c.remove((namespace, var)).contains_key((namespace, v));
        assert(vars_of(c, namespace).contains(v));
    }
}

} // verus!
