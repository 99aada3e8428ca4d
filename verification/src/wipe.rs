//! Wipe all secrets from a vault.
use vstd::prelude::*;

use crate::error::{Error, Result};
use crate::text::{lemma_strictly_sorted_len, strictly_sorted, views};
use crate::vault::{exact, namespaces_of, vars_of, Contents, Vault};

verus! {

#[derive(Debug, Clone, Copy)]
pub struct WipeReport {
    pub namespaces_deleted: usize,
    pub vars_deleted: usize,
    pub audit_rows_deleted: i64,
}

impl WipeReport {
    /// The report once the audit log was (or was not) truncated: the rows
    /// removed when truncation was attempted and succeeded, else none.
    pub fn with_audit_truncation(self, truncation: Option<Result<i64>>) -> (r: WipeReport)
        ensures
            r.namespaces_deleted == self.namespaces_deleted,
            r.vars_deleted == self.vars_deleted,
            r.audit_rows_deleted == match truncation {
                Some(Ok(n)) => n,
                _ => 0i64,
            },
    {
        let rows = match truncation {
            Some(Ok(n)) => n,
            _ => 0,
        };
        WipeReport { audit_rows_deleted: rows, ..self }
    }
}

/// The phrase a user types to confirm a wipe.
pub open spec fn wipe_phrase() -> Seq<char> {
    "WIPE EVERYTHING"@
}

/// Whether the line the user typed confirms the wipe: the phrase, with any
/// surrounding whitespace (the line's end among it).
pub fn confirms_wipe(line: &str) -> (b: bool)
    ensures
        b == (crate::text::trimmed(line@) == wipe_phrase()),
{
    let t = crate::text::trim(line);
    crate::text::str_eq(t.as_str(), "WIPE EVERYTHING")
}

/// The count of deletions after one more delete answered `deleted`: one more
/// when it succeeded (held at `usize::MAX`), the same when it failed, as a
/// failed delete is skipped.
pub fn count_deleted(count: usize, deleted: &Result<()>) -> (n: usize)
    ensures
        deleted is Ok ==> n == (if count < usize::MAX {
            count + 1
        } else {
            count as int
        }),
        deleted is Err ==> n == count,
{
    if deleted.is_ok() {
        count.saturating_add(1)
    } else {
        count
    }
}

/// How many of `deletes` succeeded.
pub open spec fn succeeded(deletes: Seq<Result<()>>) -> nat
    decreases deletes.len(),
{
    if deletes.len() == 0 {
        0
    } else {
        succeeded(deletes.drop_last()) + if deletes.last() is Ok {
            1nat
        } else {
            0nat
        }
    }
}

/// What wiping counts when listing the variables of the first `lists.len()`
/// namespaces answered `lists`, and deleting the variables of each answered
/// the matching entry of `deletes`: the deletions that succeeded, or the first
/// listing's error.
pub open spec fn wiped(lists: Seq<Result<Vec<String>>>, deletes: Seq<Seq<Result<()>>>) -> Result<nat>
    decreases lists.len(),
{
    if lists.len() == 0 {
        Ok(0)
    } else {
        match wiped(lists.drop_last(), deletes.drop_last()) {
            Err(e) => Err(e),
            Ok(n) => match lists.last() {
                Err(e) => Err(e),
                Ok(_) => Ok(n + succeeded(deletes.last())),
            },
        }
    }
}

/// What wiping gives when listing the namespaces answered `listing`: the
/// namespaces listed and the deletions that succeeded, or the first error.
pub open spec fn wipe_outcome(
    listing: Result<Vec<String>>,
    lists: Seq<Result<Vec<String>>>,
    deletes: Seq<Seq<Result<()>>>,
) -> Result<(nat, nat)> {
    match listing {
        Err(e) => Err(e),
        Ok(nses) => match wiped(lists, deletes) {
            Err(e) => Err(e),
            Ok(n) => Ok((nses@.len(), n)),
        },
    }
}

/// `n`, held at `usize::MAX`.
pub open spec fn capped(n: nat) -> int {
    if n < usize::MAX {
        n as int
    } else {
        usize::MAX as int
    }
}

/// `r` is what `w` says: the same error, or a report of those counts (the
/// deletions held at `usize::MAX`) with no audit rows.
pub open spec fn gives_wipe(r: Result<WipeReport>, w: Result<(nat, nat)>) -> bool {
    match r {
        Ok(rep) => w matches Ok((nses, n)) && rep.namespaces_deleted == nses && rep.vars_deleted
            == capped(n) && rep.audit_rows_deleted == 0,
        Err(e) => w == Err::<(nat, nat), Error>(e),
    }
}

/// The answers that wiping read: the namespaces were all visited unless a
/// listing failed, and each namespace's variables were each deleted once.
pub open spec fn wipe_answers_fit(
    listing: Result<Vec<String>>,
    lists: Seq<Result<Vec<String>>>,
    deletes: Seq<Seq<Result<()>>>,
) -> bool {
    listing matches Ok(nses) ==> {
        &&& lists.len() <= nses@.len()
        &&& deletes.len() == lists.len()
        &&& lists.len() < nses@.len() ==> wiped(lists, deletes) is Err
        &&& forall|k: int|
            0 <= k < lists.len() ==> (#[trigger] lists[k] matches Ok(vs) ==> deletes[k].len()
                == vs@.len())
    }
}

/// `c2` is `c1` with some keys removed and nothing else changed.
pub open spec fn removed_only(c1: Contents, c2: Contents) -> bool {
    &&& c2.dom().subset_of(c1.dom())
    &&& forall|k: (Seq<char>, Seq<char>)| #[trigger] c2.contains_key(k) ==> c2[k] == c1[k]
}

/// Delete every `(namespace, var)` the vault lists. A failed delete is
/// skipped; the report counts the namespaces listed and the deletions that
/// succeeded, whatever the vault answered (`wipe_outcome`); a failed listing
/// is returned.
pub fn wipe_all<V: Vault + ?Sized>(vault: &mut V) -> (r: Result<WipeReport>)
    ensures
        r matches Ok(rep) ==> rep.audit_rows_deleted == 0,
        old(vault).is_modeled() ==> (r matches Ok(rep) ==> {
            &&& rep.namespaces_deleted == namespaces_of(old(vault).contents()).len()
            &&& removed_only(old(vault).contents(), final(vault).contents())
            &&& old(vault).contents().dom().finite()
            &&& final(vault).contents().dom().len() + rep.vars_deleted <= old(
                vault,
            ).contents().dom().len()
        }),
        exact(&*old(vault)) ==> (r matches Ok(rep) && final(vault).contents().dom().len() == 0
            && rep.vars_deleted == old(vault).contents().dom().len()),
        exists|
            listing: Result<Vec<String>>,
            lists: Seq<Result<Vec<String>>>,
            deletes: Seq<Seq<Result<()>>>,
        |
            #![trigger wipe_outcome(listing, lists, deletes)]
            wipe_answers_fit(listing, lists, deletes) && gives_wipe(
                r,
                wipe_outcome(listing, lists, deletes),
            ),
{
    let ghost c0 = vault.contents();
    let ghost modeled = vault.is_modeled();
    let ghost whole = vault.is_modeled() && vault.is_infallible();
    let listing = vault.list_namespaces();
    let ghost got_listing = listing;
    let namespaces = match listing {
        Ok(v) => v,
        Err(e) => {
            assert(gives_wipe(Err(e), wipe_outcome(got_listing, Seq::empty(), Seq::empty())));
            return Err(e);
        },
    };
    proof {
        lemma_strictly_sorted_len(views(namespaces@));
    }
    let namespaces_count = namespaces.len();
    let mut vars_deleted: usize = 0;
    let mut i: usize = 0;
    let ghost mut lists: Seq<Result<Vec<String>>> = Seq::empty();
    let ghost mut deletes: Seq<Seq<Result<()>>> = Seq::empty();
    let ghost mut total: nat = 0;
    while i < namespaces.len()
        invariant
            i <= namespaces@.len(),
            got_listing == Ok::<Vec<String>, Error>(namespaces),
            lists.len() == i,
            deletes.len() == i,
            wiped(lists, deletes) == Ok::<nat, Error>(total),
            vars_deleted == capped(total),
            forall|k: int|
                0 <= k < lists.len() ==> (#[trigger] lists[k] matches Ok(vs) ==> deletes[k].len()
                    == vs@.len()),
            modeled == vault.is_modeled(),
            modeled == old(vault).is_modeled(),
            whole == (vault.is_modeled() && vault.is_infallible()),
            whole == (old(vault).is_modeled() && old(vault).is_infallible()),
            c0 == old(vault).contents(),
            strictly_sorted(views(namespaces@)),
            modeled ==> c0.dom().finite(),
            modeled ==> c0.dom().len() <= usize::MAX,
            modeled ==> removed_only(c0, vault.contents()),
            modeled ==> vault.contents().dom().len() + vars_deleted <= c0.dom().len(),
            modeled ==> views(namespaces@).to_set() == namespaces_of(c0),
            whole ==> vault.contents().dom().len() + vars_deleted == c0.dom().len(),
            whole ==> forall|k: (Seq<char>, Seq<char>)|
                #[trigger] vault.contents().contains_key(k) ==> !views(namespaces@).take(
                    i as int,
                ).contains(k.0),
        decreases namespaces.len() - i,
    {
        let ns = namespaces[i].as_str();
        let ghost c1 = vault.contents();
        let listed = vault.list_vars(ns);
        let ghost got_list = listed;
        let ghost prev_lists = lists;
        let ghost prev_deletes = deletes;
        let vars = match listed {
            Ok(v) => v,
            Err(e) => {
                proof {
                    lists = lists.push(got_list);
                    deletes = deletes.push(Seq::empty());
                    assert(lists.drop_last() =~= prev_lists);
                    assert(deletes.drop_last() =~= prev_deletes);
                    assert(wipe_answers_fit(got_listing, lists, deletes));
                }
                assert(gives_wipe(Err(e), wipe_outcome(got_listing, lists, deletes)));
                return Err(e);
            },
        };
        let ghost mut cur: Seq<Result<()>> = Seq::empty();
        assert forall|m: int| 0 <= m < vars@.len() implies views(vars@).to_set().contains(
            #[trigger] vars@[m]@,
        ) by {
            assert(views(vars@)[m] == vars@[m]@);
        }
        let mut j: usize = 0;
        while j < vars.len()
            invariant
                j <= vars@.len(),
                i < namespaces@.len(),
                cur.len() == j,
                vars_deleted == capped(total + succeeded(cur)),
                ns@ == namespaces@[i as int]@,
                modeled == vault.is_modeled(),
                modeled == old(vault).is_modeled(),
                whole == (vault.is_modeled() && vault.is_infallible()),
                whole == (old(vault).is_modeled() && old(vault).is_infallible()),
            whole == (old(vault).is_modeled() && old(vault).is_infallible()),
                c0 == old(vault).contents(),
                strictly_sorted(views(vars@)),
                modeled ==> c0.dom().finite(),
                modeled ==> c0.dom().len() <= usize::MAX,
                modeled ==> removed_only(c0, vault.contents()),
                modeled ==> removed_only(c1, vault.contents()),
                modeled ==> vault.contents().dom().len() + vars_deleted <= c0.dom().len(),
                modeled ==> views(vars@).to_set() == vars_of(c1, ns@),
                whole ==> vault.contents().dom().len() + vars_deleted == c0.dom().len(),
                whole ==> forall|k: (Seq<char>, Seq<char>)|
                    #[trigger] vault.contents().contains_key(k) ==> !views(namespaces@).take(
                        i as int,
                    ).contains(k.0),
                whole ==> forall|m: int|
                    j <= m < vars@.len() ==> vault.contents().contains_key(
                        (ns@, #[trigger] vars@[m]@),
                    ),
                whole ==> forall|k: (Seq<char>, Seq<char>)|
                    #[trigger] vault.contents().contains_key(k) && k.0 == ns@ ==> !views(
                        vars@,
                    ).take(j as int).contains(k.1),
            decreases vars.len() - j,
        {
            let ghost before = vault.contents();
            let var = vars[j].as_str();
            proof {
                if modeled {
                    vstd::set_lib::lemma_len_subset(before.dom(), c0.dom());
                }
            }
            let deleted = vault.delete(ns, var);
            proof {
                let after = vault.contents();
                let k = (ns@, var@);
                if modeled && after != before {
                    assert(after == before.remove(k));
                    assert(before.contains_key(k)) by {
                        if !before.contains_key(k) {
                            assert(before.remove(k) =~= before);
                        }
                    }
                    assert(after.dom() =~= before.dom().remove(k));
                }
            }
            vars_deleted = count_deleted(vars_deleted, &deleted);
            proof {
                let before_cur = cur;
                cur = cur.push(deleted);
                assert(cur.drop_last() =~= before_cur);
            }
            proof {
                let after = vault.contents();
                let k = (ns@, var@);
                assert(views(vars@).take(j + 1) =~= views(vars@).take(j as int).push(var@));
                if whole {
                    assert(views(vars@)[j as int] == var@);
                    assert(forall|m: int| j < m < vars@.len() ==> #[trigger] vars@[m]@ != var@) by {
                        assert forall|m: int| j < m < vars@.len() implies #[trigger] vars@[m]@
                            != var@ by {
                            assert(crate::text::lex_lt(views(vars@)[j as int], views(vars@)[m]));
                            crate::text::lemma_lex_lt_irreflexive(var@);
                        }
                    }
                }
            }
            j = j + 1;
        }
        proof {
            lists = lists.push(got_list);
            deletes = deletes.push(cur);
            assert(lists.drop_last() =~= prev_lists);
            assert(deletes.drop_last() =~= prev_deletes);
            total = total + succeeded(cur);
            assert forall|k: int| 0 <= k < lists.len() implies (#[trigger] lists[k] matches Ok(
                vs,
            ) ==> deletes[k].len() == vs@.len()) by {
                if k < i {
                    assert(lists[k] == prev_lists[k]);
                    assert(deletes[k] == prev_deletes[k]);
                }
            }
        }
        proof {
            if whole {
                assert forall|k: (Seq<char>, Seq<char>)|
                    #[trigger] vault.contents().contains_key(k) implies !views(namespaces@).take(
                    i + 1,
                ).contains(k.0) by {
                    assert(views(vars@).take(vars@.len() as int) =~= views(vars@));
                    assert(views(namespaces@).take(i + 1) =~= views(namespaces@).take(
                        i as int,
                    ).push(ns@));
                    if k.0 == ns@ {
                        assert(c1.contains_key(k));
                        assert(vars_of(c1, ns@).contains(k.1));
                    }
                }
            }
        }
        i = i + 1;
    }
    proof {
        if whole {
            let c = vault.contents();
            assert(views(namespaces@).take(namespaces@.len() as int) =~= views(namespaces@));
            assert(c.dom() =~= Set::<(Seq<char>, Seq<char>)>::empty()) by {
                assert forall|k: (Seq<char>, Seq<char>)| !c.dom().contains(k) by {
                    if c.contains_key(k) {
                        assert(c0.contains_key(k));
                        assert(c0.contains_key((k.0, k.1)));
                        assert(namespaces_of(c0).contains(k.0));
                        assert(views(namespaces@).to_set().contains(k.0));
                    }
                }
            }
        }
        if modeled {
            vstd::set_lib::lemma_len_subset(vault.contents().dom(), c0.dom());
        }
    }
    assert(gives_wipe(
        Ok(WipeReport { namespaces_deleted: namespaces_count, vars_deleted, audit_rows_deleted: 0 }),
        wipe_outcome(got_listing, lists, deletes),
    ));
    Ok(WipeReport { namespaces_deleted: namespaces_count, vars_deleted, audit_rows_deleted: 0 })
}

} // verus!
