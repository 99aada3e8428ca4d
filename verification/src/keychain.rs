//! The Keychain vault's own rules: item naming, name validation and the
//! reading of Keychain status codes. The Keychain calls themselves are made by
//! the application, which keeps the index in step through `crate::index`.
use vstd::prelude::*;
use vstd::string::*;

use crate::error::{Error, Result};
use crate::index::{adds, namespaces_recorded, pairs, vars_recorded, without, Index, IndexEntry};
use crate::secret_value::SecretValue;
use crate::text::{strictly_sorted, views,
    char_debug_text, char_is_control, char_is_whitespace, chars_of, debug_char, is_control,
    is_whitespace, push_signed_decimal, signed_decimal,
};

verus! {

/// `errSecItemNotFound` from Apple's `Security.framework`.
pub const ERR_SEC_ITEM_NOT_FOUND: i32 = -25300;

/// The Keychain service under which `namespace`'s secrets are stored.
pub open spec fn service_text(namespace: Seq<char>) -> Seq<char> {
    "stowe."@ + namespace
}

pub fn service(namespace: &str) -> (s: String)
    ensures
        s@ == service_text(namespace@),
{
    let mut s = String::new();
    s.append("stowe.");
    s.append(namespace);
    s
}

/// Characters that confuse the Keychain service-name format.
pub open spec fn disallowed_name_char(c: char) -> bool {
    is_whitespace(c) || is_control(c) || c == '/'
}

/// Why a namespace or variable name is refused, if it is: `label` says which.
pub open spec fn name_error(label: Seq<char>, value: Seq<char>) -> Option<Seq<char>> {
    if value.len() == 0 {
        Some(label + " must be non-empty"@)
    } else if exists|i: int| 0 <= i < value.len() && disallowed_name_char(#[trigger] value[i]) {
        let i = choose|i: int|
            0 <= i < value.len() && disallowed_name_char(#[trigger] value[i]) && forall|j: int|
                0 <= j < i ==> !disallowed_name_char(value[j]);
        Some(label + " contains disallowed character: "@ + char_debug_text(value[i]))
    } else {
        None
    }
}

/// Reject names that are empty or hold whitespace, control characters or `/`.
pub fn validate_name(label: &str, value: &str) -> (r: Result<()>)
    ensures
        match name_error(label@, value@) {
            None => r is Ok,
            Some(m) => r matches Err(Error::Invalid(x)) && x@ == m,
        },
{
    let v = chars_of(value);
    if v.len() == 0 {
        let mut m = String::new();
        m.append(label);
        m.append(" must be non-empty");
        return Err(Error::Invalid(m));
    }
    let mut i: usize = 0;
    while i < v.len()
        invariant
            v@ == value@,
            i <= v@.len(),
            forall|j: int| 0 <= j < i ==> !disallowed_name_char(#[trigger] v@[j]),
        decreases v.len() - i,
    {
        let ch = v[i];
        if char_is_whitespace(ch) || char_is_control(ch) || ch == '/' {
            let ghost k = choose|k: int|
                0 <= k < value@.len() && disallowed_name_char(#[trigger] value@[k]) && forall|j: int|
                    0 <= j < k ==> !disallowed_name_char(value@[j]);
            assert(k == i) by {
                if k < i {
                    assert(!disallowed_name_char(v@[k]));
                } else if k > i {
                    assert(disallowed_name_char(value@[i as int]));
                }
            }
            let mut m = String::new();
            m.append(label);
            m.append(" contains disallowed character: ");
            let d = debug_char(ch);
            m.append(d.as_str());
            return Err(Error::Invalid(m));
        }
        i = i + 1;
    }
    Ok(())
}

/// Check a `(namespace, var)` pair before it is written: the namespace first,
/// then the variable.
pub fn validate_key(namespace: &str, var: &str) -> (r: Result<()>)
    ensures
        match name_error("namespace"@, namespace@) {
            Some(m) => r matches Err(Error::Invalid(x)) && x@ == m,
            None => match name_error("var"@, var@) {
                None => r is Ok,
                Some(m) => r matches Err(Error::Invalid(x)) && x@ == m,
            },
        },
{
    validate_name("namespace", namespace)?;
    validate_name("var", var)
}

/// A Keychain call that failed: its status code and, when Security.framework
/// has one, its message.
#[derive(Debug)]
pub struct KeychainFailure {
    pub code: i32,
    pub message: Option<String>,
}

/// An optional string as an optional character sequence.
pub open spec fn opt_view(o: Option<String>) -> Option<Seq<char>> {
    match o {
        Some(t) => Some(t@),
        None => None,
    }
}

/// `e` is the library's error for a Keychain failure with `code` and
/// `message` on `(namespace, var)`: `errSecItemNotFound` is `NotFound`;
/// anything else is a `Keychain` error naming the status.
pub open spec fn keychain_error_is(
    e: Error,
    code: i32,
    message: Option<Seq<char>>,
    namespace: Seq<char>,
    var: Seq<char>,
) -> bool {
    if code == ERR_SEC_ITEM_NOT_FOUND {
        e matches Error::NotFound { namespace: n, var: v } && n@ == namespace && v@ == var
    } else {
        e matches Error::Keychain(m) && m@ == match message {
            Some(t) => t + " (code "@ + signed_decimal(code as int) + ")"@,
            None => "keychain error code "@ + signed_decimal(code as int),
        }
    }
}

/// Maps a Keychain status to the library's error.
pub fn keychain_error(code: i32, message: Option<String>, namespace: &str, var: &str) -> (e: Error)
    ensures
        keychain_error_is(e, code, opt_view(message), namespace@, var@),
{
    if code == ERR_SEC_ITEM_NOT_FOUND {
        return Error::NotFound { namespace: namespace.to_owned(), var: var.to_owned() };
    }
    let mut m = String::new();
    match message {
        Some(t) => {
            m.append(t.as_str());
            m.append(" (code ");
            push_signed_decimal(&mut m, code as i64);
            m.append(")");
        },
        None => {
            m.append("keychain error code ");
            push_signed_decimal(&mut m, code as i64);
        },
    }
    Error::Keychain(m)
}

/// The Keychain service a write of `(namespace, var)` goes to, once both
/// names are accepted.
pub fn checked_service(namespace: &str, var: &str) -> (r: Result<String>)
    ensures
        match name_error("namespace"@, namespace@) {
            Some(m) => r matches Err(Error::Invalid(x)) && x@ == m,
            None => match name_error("var"@, var@) {
                None => r matches Ok(s) && s@ == service_text(namespace@),
                Some(m) => r matches Err(Error::Invalid(x)) && x@ == m,
            },
        },
{
    validate_key(namespace, var)?;
    Ok(service(namespace))
}

/// Settles a Keychain write of `(namespace, var)`: when the Keychain took
/// it, the pair is recorded in the index; a failure is mapped to the
/// library's error and leaves the index as it was.
pub fn finish_set(
    index: &mut Index,
    namespace: &str,
    var: &str,
    outcome: core::result::Result<(), KeychainFailure>,
) -> (r: Result<()>)
    ensures
        outcome is Ok ==> r is Ok && pairs(final(index)@) == pairs(old(index)@).insert(
            (namespace@, var@),
        ) && final(index).path_text() == old(index).path_text(),
        outcome is Ok ==> adds(old(index)@, final(index)@, namespace@, var@),
        outcome matches Err(f) ==> *final(index) == *old(index) && (r matches Err(e)
            && keychain_error_is(e, f.code, opt_view(f.message), namespace@, var@)),
{
    match outcome {
        Ok(()) => {
            index.add(namespace, var);
            Ok(())
        },
        Err(f) => Err(keychain_error(f.code, f.message, namespace, var)),
    }
}

/// Settles a Keychain delete of `(namespace, var)`: when it succeeded the
/// pair is forgotten by the index; a failure is mapped and leaves the index.
pub fn finish_delete(
    index: &mut Index,
    namespace: &str,
    var: &str,
    outcome: core::result::Result<(), KeychainFailure>,
) -> (r: Result<()>)
    ensures
        outcome is Ok ==> r is Ok && final(index)@ == without(old(index)@, namespace@, var@)
            && pairs(final(index)@) == pairs(old(index)@).remove((namespace@, var@))
            && final(index).path_text() == old(index).path_text(),
        outcome matches Err(f) ==> *final(index) == *old(index) && (r matches Err(e)
            && keychain_error_is(e, f.code, opt_view(f.message), namespace@, var@)),
{
    match outcome {
        Ok(()) => {
            index.remove(namespace, var);
            Ok(())
        },
        Err(f) => Err(keychain_error(f.code, f.message, namespace, var)),
    }
}

/// Settles a Keychain read of `(namespace, var)`: the bytes read become the
/// secret; a failure is mapped (`errSecItemNotFound` to `NotFound`).
pub fn finish_get(
    namespace: &str,
    var: &str,
    outcome: core::result::Result<Vec<u8>, KeychainFailure>,
) -> (r: Result<SecretValue>)
    ensures
        outcome matches Ok(b) ==> (r matches Ok(v) && v@ == b@),
        outcome matches Err(f) ==> (r matches Err(e) && keychain_error_is(
            e,
            f.code,
            opt_view(f.message),
            namespace@,
            var@,
        )),
{
    match outcome {
        Ok(b) => Ok(SecretValue::new(b)),
        Err(f) => Err(keychain_error(f.code, f.message, namespace, var)),
    }
}

/// The Keychain item, `(service, account)`, that holds `var` of `namespace`.
pub open spec fn keychain_item(namespace: Seq<char>, var: Seq<char>) -> (Seq<char>, Seq<char>) {
    (service_text(namespace), var)
}

/// A secret lives in the Keychain under service `stowe.<namespace>` and
/// account `<var>`.
pub proof fn law_item_is_service_and_account(namespace: Seq<char>, var: Seq<char>)
    ensures
        keychain_item(namespace, var).0 == "stowe."@ + namespace,
        keychain_item(namespace, var).1 == var,
{
}

/// Two different `(namespace, var)` pairs are stored in two different
/// Keychain items.
pub proof fn law_distinct_pairs_distinct_items(
    namespace1: Seq<char>,
    var1: Seq<char>,
    namespace2: Seq<char>,
    var2: Seq<char>,
)
    requires
        (namespace1, var1) != (namespace2, var2),
    ensures
        keychain_item(namespace1, var1) != keychain_item(namespace2, var2),
{
    let p = "stowe."@;
    if namespace1 != namespace2 {
        assert((p + namespace1).skip(p.len() as int) =~= namespace1);
        assert((p + namespace2).skip(p.len() as int) =~= namespace2);
    }
}

/// A write of one pair changes no other pair's item, and a delete of the pair
/// then leaves no item for it.
pub proof fn law_write_touches_only_its_item(
    items: Map<(Seq<char>, Seq<char>), Seq<u8>>,
    namespace: Seq<char>,
    var: Seq<char>,
    value: Seq<u8>,
    other_namespace: Seq<char>,
    other_var: Seq<char>,
)
    requires
        (namespace, var) != (other_namespace, other_var),
    ensures
        items.insert(keychain_item(namespace, var), value).contains_key(
            keychain_item(other_namespace, other_var),
        ) == items.contains_key(keychain_item(other_namespace, other_var)),
        items.insert(keychain_item(namespace, var), value)[keychain_item(other_namespace, other_var)]
            == items[keychain_item(other_namespace, other_var)],
        items.insert(keychain_item(namespace, var), value)[keychain_item(namespace, var)] == value,
        !items.insert(keychain_item(namespace, var), value).remove(
            keychain_item(namespace, var),
        ).contains_key(keychain_item(namespace, var)),
{
    law_distinct_pairs_distinct_items(namespace, var, other_namespace, other_var);
}

/// The Keychain items this process changed through a vault, as the Keychain
/// took those calls: `(service, account)` to the bytes written, an item
/// dropped once deleted. It records the calls made, not what the Keychain
/// holds, which other programs change too; it exists for the proofs alone.
pub struct KeychainLog {
    items: Ghost<Map<(Seq<char>, Seq<char>), Seq<u8>>>,
}

impl View for KeychainLog {
    type V = Map<(Seq<char>, Seq<char>), Seq<u8>>;

    closed spec fn view(&self) -> Map<(Seq<char>, Seq<char>), Seq<u8>> {
        self.items@
    }
}

impl KeychainLog {
    /// A log of no calls.
    pub fn new() -> (l: Self)
        ensures
            l@ == Map::<(Seq<char>, Seq<char>), Seq<u8>>::empty(),
    {
        KeychainLog { items: Ghost(Map::empty()) }
    }
}

/// `security_framework::passwords::set_generic_password`: creates or updates
/// the generic password of `service`/`account` in the login Keychain. Nothing
/// is stated of the outcome: it is the Keychain's answer. When the Keychain
/// took the write, `log` records `password` at `(service, account)`, the item
/// the call addressed; otherwise it is unchanged.
#[verifier::external_body]
fn keychain_set(log: &mut KeychainLog, service: &str, account: &str, password: &[u8]) -> (r: core::result::Result<
    (),
    KeychainFailure,
>)
    ensures
        r is Ok ==> final(log)@ == old(log)@.insert((service@, account@), password@),
        r is Err ==> final(log)@ == old(log)@,
{
    match security_framework::passwords::set_generic_password(service, account, password) {
        Ok(()) => Ok(()),
        Err(e) => Err(KeychainFailure { code: e.code(), message: e.message() }),
    }
}

/// `security_framework::passwords::get_generic_password`: the generic password
/// of `service`/`account`, failing with `errSecItemNotFound` when there is
/// none. Nothing is stated of the outcome: it is the Keychain's answer.
#[verifier::external_body]
fn keychain_get(service: &str, account: &str) -> core::result::Result<Vec<u8>, KeychainFailure> {
    match security_framework::passwords::get_generic_password(service, account) {
        Ok(b) => Ok(b),
        Err(e) => Err(KeychainFailure { code: e.code(), message: e.message() }),
    }
}

/// `security_framework::passwords::delete_generic_password`: deletes the
/// generic password of `service`/`account`, failing with `errSecItemNotFound`
/// when there is none. Nothing is stated of the outcome: it is the Keychain's
/// answer. When the Keychain deleted the item, `log` drops `(service, account)`,
/// the item the call addressed; otherwise it is unchanged.
#[verifier::external_body]
fn keychain_delete(log: &mut KeychainLog, service: &str, account: &str) -> (r: core::result::Result<(), KeychainFailure>)
    ensures
        r is Ok ==> final(log)@ == old(log)@.remove((service@, account@)),
        r is Err ==> final(log)@ == old(log)@,
{
    match security_framework::passwords::delete_generic_password(service, account) {
        Ok(()) => Ok(()),
        Err(e) => Err(KeychainFailure { code: e.code(), message: e.message() }),
    }
}

/// `e` is what a failed Keychain call on `(namespace, var)` becomes.
pub open spec fn is_keychain_failure(e: Error, namespace: Seq<char>, var: Seq<char>) -> bool {
    ||| e matches Error::NotFound { namespace: n, var: v } && n@ == namespace && v@ == var
    ||| e is Keychain
}

/// macOS Keychain-backed storage. Values are Generic Password items under
/// service `stowe.<namespace>` and account `<var>`. Listing reads the index,
/// which every successful write and delete updates; the application saves it.
pub struct KeychainVault {
    index: Index,
    log: KeychainLog,
}

impl KeychainVault {
    /// The Keychain items this vault's writes and deletes changed, as the
    /// Keychain took them (see `KeychainLog`).
    pub closed spec fn items(&self) -> Map<(Seq<char>, Seq<char>), Seq<u8>> {
        self.log@
    }

    /// The `(namespace, var)` pairs the index records.
    pub closed spec fn recorded(&self) -> Set<(Seq<char>, Seq<char>)> {
        pairs(self.index@)
    }

    /// The index's entries.
    pub closed spec fn entries_model(&self) -> Seq<IndexEntry> {
        self.index@
    }

    /// Where the index is saved.
    pub closed spec fn index_path(&self) -> Seq<char> {
        self.index.path_text()
    }

    /// A vault listing through `index`.
    pub fn open_with_index(index: Index) -> (v: Self)
        ensures
            v.entries_model() == index@,
            v.index_path() == index.path_text(),
            v.items() == Map::<(Seq<char>, Seq<char>), Seq<u8>>::empty(),
    {
        KeychainVault { index, log: KeychainLog::new() }
    }

    /// The index, for saving.
    pub fn index(&self) -> (i: &Index)
        ensures
            i@ == self.entries_model(),
            i.path_text() == self.index_path(),
    {
        &self.index
    }

    /// Records the outcome of a Keychain write of `(namespace, var)` made
    /// outside this type (a write with access control).
    pub fn settle_set(
        &mut self,
        namespace: &str,
        var: &str,
        outcome: core::result::Result<(), KeychainFailure>,
    ) -> (r: Result<()>)
        ensures
            outcome is Ok ==> r is Ok && final(self).recorded() == old(self).recorded().insert(
                (namespace@, var@),
            ) && final(self).index_path() == old(self).index_path(),
            outcome is Ok ==> adds(
                old(self).entries_model(),
                final(self).entries_model(),
                namespace@,
                var@,
            ),
            outcome matches Err(f) ==> *final(self) == *old(self) && (r matches Err(e)
                && keychain_error_is(e, f.code, opt_view(f.message), namespace@, var@)),
            final(self).items() == old(self).items(),
    {
        finish_set(&mut self.index, namespace, var, outcome)
    }

    /// Set or overwrite a secret. Names are checked first; a write the
    /// Keychain takes is recorded in the index.
    pub fn set(&mut self, namespace: &str, var: &str, value: SecretValue) -> (r: Result<()>)
        ensures
            name_error("namespace"@, namespace@) matches Some(m) ==> (r matches Err(Error::Invalid(x))
                && x@ == m),
            name_error("namespace"@, namespace@) is None ==> (name_error("var"@, var@) matches Some(m)
                ==> (r matches Err(Error::Invalid(x)) && x@ == m)),
            r is Ok ==> final(self).recorded() == old(self).recorded().insert((namespace@, var@)),
            r is Ok ==> adds(
                old(self).entries_model(),
                final(self).entries_model(),
                namespace@,
                var@,
            ),
            r is Err ==> *final(self) == *old(self),
            r matches Err(e) ==> (name_error("namespace"@, namespace@) is None && name_error(
                "var"@,
                var@,
            ) is None ==> is_keychain_failure(e, namespace@, var@)),
            final(self).index_path() == old(self).index_path(),
            r is Ok ==> final(self).items() == old(self).items().insert(
                keychain_item(namespace@, var@),
                value@,
            ),
    {
        let service = checked_service(namespace, var)?;
        let outcome = keychain_set(&mut self.log, service.as_str(), var, value.expose());
        let r = finish_set(&mut self.index, namespace, var, outcome);
        r
    }

    /// Read a secret. `errSecItemNotFound` is `Error::NotFound`.
    pub fn get(&self, namespace: &str, var: &str) -> (r: Result<SecretValue>)
        ensures
            r matches Err(e) ==> is_keychain_failure(e, namespace@, var@),
    {
        let service = service(namespace);
        finish_get(namespace, var, keychain_get(service.as_str(), var))
    }

    /// Delete a secret; a delete the Keychain performs is forgotten by the index.
    pub fn delete(&mut self, namespace: &str, var: &str) -> (r: Result<()>)
        ensures
            r is Ok ==> final(self).entries_model() == without(
                old(self).entries_model(),
                namespace@,
                var@,
            ) && final(self).recorded() == old(self).recorded().remove((namespace@, var@)),
            r is Err ==> *final(self) == *old(self),
            r matches Err(e) ==> is_keychain_failure(e, namespace@, var@),
            final(self).index_path() == old(self).index_path(),
            r is Ok ==> final(self).items() == old(self).items().remove(keychain_item(namespace@, var@)),
    {
        let service = service(namespace);
        let outcome = keychain_delete(&mut self.log, service.as_str(), var);
        finish_delete(&mut self.index, namespace, var, outcome)
    }

    /// Variable names within `namespace`, from the index. Sorted.
    pub fn list_vars(&self, namespace: &str) -> (r: Result<Vec<String>>)
        ensures
            r matches Ok(v) && strictly_sorted(views(v@)) && views(v@).to_set() == vars_recorded(
                self.entries_model(),
                namespace@,
            ),
    {
        Ok(self.index.vars_in(namespace))
    }

    /// All namespaces the index records. Sorted.
    pub fn list_namespaces(&self) -> (r: Result<Vec<String>>)
        ensures
            r matches Ok(v) && strictly_sorted(views(v@)) && views(v@).to_set() == namespaces_recorded(
                self.entries_model(),
            ),
    {
        Ok(self.index.namespaces())
    }
}

} // verus!
