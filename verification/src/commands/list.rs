use vstd::prelude::*;

use crate::error::{Error, Result};
use crate::text::{lemma_strictly_sorted_len, strictly_sorted, views};
use crate::vault::{exact, namespaces_of, vars_of, Vault};

verus! {

pub struct NamespaceSummary {
    pub namespace: String,
    pub var_count: usize,
}

pub open spec fn summary_names(s: Seq<NamespaceSummary>) -> Seq<Seq<char>> {
    s.map_values(|x: NamespaceSummary| x.namespace@)
}

/// The summary of `namespace` given what listing its variables gave: their
/// count, or the listing's error.
pub fn summarize(namespace: String, listed: Result<Vec<String>>) -> (r: Result<NamespaceSummary>)
    ensures
        listed matches Ok(v) ==> (r matches Ok(s) && s.namespace == namespace && s.var_count
            == v@.len()),
        listed matches Err(e) ==> r == Err::<NamespaceSummary, Error>(e),
{
    match listed {
        Ok(v) => Ok(NamespaceSummary { namespace, var_count: v.len() }),
        Err(e) => Err(e),
    }
}

/// What summarizing `nses` gives when listing the variables of the first
/// `lists.len()` of them answered `lists`: each namespace with its count of
/// variables, or the first listing's error.
pub open spec fn summed(nses: Seq<Seq<char>>, lists: Seq<Result<Vec<String>>>) -> Result<
    Seq<(Seq<char>, nat)>,
>
    decreases lists.len(),
{
    if lists.len() == 0 {
        Ok(Seq::empty())
    } else {
        let k = lists.len() - 1;
        match summed(nses, lists.drop_last()) {
            Err(e) => Err(e),
            Ok(acc) => match lists.last() {
                Ok(v) => Ok(acc.push((nses[k], v@.len()))),
                Err(e) => Err(e),
            },
        }
    }
}

/// What summarizing gives when listing the namespaces answered `listing`
/// and listing their variables answered `lists`.
pub open spec fn listed_summaries(listing: Result<Vec<String>>, lists: Seq<Result<Vec<String>>>) -> Result<
    Seq<(Seq<char>, nat)>,
> {
    match listing {
        Err(e) => Err(e),
        Ok(nses) => summed(views(nses@), lists),
    }
}

/// `r` is what `s` says: the same error, or the same names and counts.
pub open spec fn gives_summaries(r: Result<Vec<NamespaceSummary>>, s: Result<Seq<(Seq<char>, nat)>>) -> bool {
    match r {
        Ok(out) => s matches Ok(acc) && out@.len() == acc.len() && forall|i: int|
            0 <= i < acc.len() ==> #[trigger] acc[i] == (out@[i].namespace@, out@[i].var_count as nat),
        Err(e) => s == Err::<Seq<(Seq<char>, nat)>, Error>(e),
    }
}

/// Summary of every namespace with at least one variable, in name order:
/// whatever the vault, the namespaces it listed with the count of variables
/// each listing gave, or the first listing's error (`listed_summaries`).
pub fn namespaces<V: Vault + ?Sized>(vault: &V) -> (r: Result<Vec<NamespaceSummary>>)
    ensures
        r matches Ok(out) ==> strictly_sorted(summary_names(out@)),
        vault.is_modeled() ==> (r matches Ok(out) ==> summary_names(out@).to_set()
            == namespaces_of(vault.contents()) && forall|i: int|
            0 <= i < out@.len() ==> #[trigger] out@[i].var_count == vars_of(
                vault.contents(),
                out@[i].namespace@,
            ).len()),
        exact(vault) ==> r is Ok,
        exists|listing: Result<Vec<String>>, lists: Seq<Result<Vec<String>>>|
            #![trigger listed_summaries(listing, lists)]
            {
                &&& listing matches Ok(nses) ==> lists.len() <= nses@.len() && (lists.len()
                    < nses@.len() ==> summed(views(nses@), lists) is Err)
                &&& gives_summaries(r, listed_summaries(listing, lists))
            },
{
    let listing = vault.list_namespaces();
    let ghost got_listing = listing;
    let nses = match listing {
        Ok(v) => v,
        Err(e) => {
            assert(gives_summaries(Err(e), listed_summaries(got_listing, Seq::empty())));
            return Err(e);
        },
    };
    let mut out: Vec<NamespaceSummary> = Vec::new();
    let mut i: usize = 0;
    let ghost mut lists: Seq<Result<Vec<String>>> = Seq::empty();
    while i < nses.len()
        invariant
            i <= nses@.len(),
            out@.len() == i,
            got_listing == Ok::<Vec<String>, Error>(nses),
            lists.len() == i,
            summed(views(nses@), lists) matches Ok(acc) && acc.len() == i && forall|k: int|
                0 <= k < i ==> #[trigger] acc[k] == (out@[k].namespace@, out@[k].var_count as nat),
            forall|k: int| 0 <= k < i ==> #[trigger] out@[k].namespace@ == nses@[k]@,
            vault.is_modeled() ==> forall|k: int|
                0 <= k < i ==> #[trigger] out@[k].var_count == vars_of(
                    vault.contents(),
                    out@[k].namespace@,
                ).len(),
        decreases nses.len() - i,
    {
        let ns = nses[i].clone();
        let listed = vault.list_vars(ns.as_str());
        let ghost got = listed;
        proof {
            if got is Ok {
                lemma_strictly_sorted_len(views(got->Ok_0@));
            }
        }
        let ghost prev = lists;
        let ghost old_out = out@;
        proof {
            lists = lists.push(got);
            assert(lists.drop_last() =~= prev);
            assert(views(nses@)[i as int] == nses@[i as int]@);
        }
        let summary = match summarize(ns, listed) {
            Ok(s) => s,
            Err(e) => {
                assert(gives_summaries(Err(e), listed_summaries(got_listing, lists)));
                return Err(e);
            },
        };
        out.push(summary);
        assert forall|k: int| 0 <= k < i + 1 implies #[trigger] summed(views(nses@), lists)->Ok_0[k]
            == (out@[k].namespace@, out@[k].var_count as nat) by {
            if k < i {
                assert(out@[k] == old_out[k]);
            }
        }
        i = i + 1;
    }
    assert(summary_names(out@) =~= views(nses@));
    assert(gives_summaries(Ok(out), listed_summaries(got_listing, lists)));
    Ok(out)
}

/// Variables within a single namespace, sorted.
pub fn vars<V: Vault + ?Sized>(vault: &V, namespace: &str) -> (r: Result<Vec<String>>)
    ensures
        r matches Ok(v) ==> strictly_sorted(views(v@)),
        vault.is_modeled() ==> (r matches Ok(v) ==> views(v@).to_set() == vars_of(
            vault.contents(),
            namespace@,
        )),
        exact(vault) ==> r is Ok,
{
    vault.list_vars(namespace)
}

} // verus!
