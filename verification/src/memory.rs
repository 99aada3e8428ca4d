//! A vault held in memory: the reference against which other vaults are judged.
use vstd::prelude::*;

use crate::error::{Error, Result};
use crate::secret_value::SecretValue;
use crate::text::{insert_sorted, str_eq, strictly_sorted, views};
use crate::vault::{namespaces_of, vars_of, Contents, Vault};

verus! {

struct Entry {
    namespace: String,
    var: String,
    value: SecretValue,
}

spec fn key_at(items: Seq<Entry>, i: int) -> (Seq<char>, Seq<char>) {
    (items[i].namespace@, items[i].var@)
}

spec fn has_key(items: Seq<Entry>, k: (Seq<char>, Seq<char>)) -> bool {
    exists|i: int| 0 <= i < items.len() && #[trigger] key_at(items, i) == k
}

spec fn index_of(items: Seq<Entry>, k: (Seq<char>, Seq<char>)) -> int {
    choose|i: int| 0 <= i < items.len() && #[trigger] key_at(items, i) == k
}

/// No key is stored twice.
spec fn keys_distinct(items: Seq<Entry>) -> bool {
    forall|i: int, j: int|
        0 <= i < j < items.len() ==> #[trigger] key_at(items, i) != #[trigger] key_at(items, j)
}

spec fn model_of(items: Seq<Entry>) -> Contents {
    Map::new(
        |k: (Seq<char>, Seq<char>)| has_key(items, k),
        |k: (Seq<char>, Seq<char>)| items[index_of(items, k)].value@,
    )
}

proof fn lemma_lookup(items: Seq<Entry>, i: int)
    requires
        keys_distinct(items),
        0 <= i < items.len(),
    ensures
        model_of(items).contains_key(key_at(items, i)),
        model_of(items)[key_at(items, i)] == items[i].value@,
{
    let k = key_at(items, i);
    assert(has_key(items, k));
    let j = index_of(items, k);
    if j != i {
        if j < i {
            assert(key_at(items, j) != key_at(items, i));
        } else {
            assert(key_at(items, i) != key_at(items, j));
        }
    }
}

proof fn lemma_finite(items: Seq<Entry>)
    ensures
        model_of(items).dom().finite(),
        model_of(items).dom().len() <= items.len(),
{
    let keys = Seq::new(items.len(), |i: int| key_at(items, i));
    assert(model_of(items).dom() =~= keys.to_set()) by {
        assert forall|q: (Seq<char>, Seq<char>)| #[trigger]
            model_of(items).dom().contains(q) implies keys.to_set().contains(q) by {
            let j = choose|j: int| 0 <= j < items.len() && #[trigger] key_at(items, j) == q;
            assert(keys[j] == q);
        }
        assert forall|q: (Seq<char>, Seq<char>)| #[trigger]
            keys.to_set().contains(q) implies model_of(items).dom().contains(q) by {
            let j = choose|j: int| 0 <= j < keys.len() && keys[j] == q;
            assert(key_at(items, j) == q);
        }
    }
    keys.lemma_cardinality_of_set();
}

/// Pure in-memory implementation. Values are wiped from memory when they are
/// overwritten, deleted, or the vault is dropped.
pub struct InMemoryVault {
    items: Vec<Entry>,
}

impl InMemoryVault {
    #[verifier::type_invariant]
    closed spec fn wf(self) -> bool {
        keys_distinct(self.items@)
    }

    pub closed spec fn model(self) -> Contents {
        model_of(self.items@)
    }

    pub fn new() -> (v: Self)
        ensures
            v.contents() == Map::<(Seq<char>, Seq<char>), Seq<u8>>::empty(),
            v.is_modeled(),
            v.is_infallible(),
    {
        let v = InMemoryVault { items: Vec::new() };
        assert(model_of(v.items@) =~= Map::<(Seq<char>, Seq<char>), Seq<u8>>::empty());
        v
    }
}

/// Position of `(namespace, var)` in `items`, if stored.
fn find(items: &Vec<Entry>, namespace: &str, var: &str) -> (r: Option<usize>)
    ensures
        r matches Some(i) ==> i < items@.len() && key_at(items@, i as int) == (namespace@, var@),
        r is None ==> !has_key(items@, (namespace@, var@)),
{
    let mut i: usize = 0;
    while i < items.len()
        invariant
            i <= items@.len(),
            forall|j: int| 0 <= j < i ==> #[trigger] key_at(items@, j) != (namespace@, var@),
        decreases items.len() - i,
    {
        if str_eq(items[i].namespace.as_str(), namespace) && str_eq(items[i].var.as_str(), var) {
            return Some(i);
        }
        i = i + 1;
    }
    None
}

impl Vault for InMemoryVault {
    open spec fn contents(&self) -> Contents {
        self.model()
    }

    open spec fn is_modeled(&self) -> bool {
        true
    }

    open spec fn is_infallible(&self) -> bool {
        true
    }

    fn set(&mut self, namespace: &str, var: &str, value: SecretValue) -> (r: Result<()>) {
        proof {
            use_type_invariant(&*self);
        }
        let ghost k = (namespace@, var@);
        let ghost v = value@;
        let ghost old_items = self.items@;
        let mut items: Vec<Entry> = Vec::new();
        std::mem::swap(&mut items, &mut self.items);
        assert(items@ == old_items);
        let entry = Entry { namespace: namespace.to_owned(), var: var.to_owned(), value };
        match find(&items, namespace, var) {
            Some(i) => {
                items.set(i, entry);
                assert forall|a: int, b: int|
                    0 <= a < b < items@.len() implies #[trigger] key_at(items@, a)
                    != #[trigger] key_at(items@, b) by {
                    assert(key_at(old_items, a) != key_at(old_items, b));
                    assert(key_at(items@, a) == key_at(old_items, a));
                    assert(key_at(items@, b) == key_at(old_items, b));
                }
                assert forall|q: (Seq<char>, Seq<char>)|
                    #![trigger model_of(items@).contains_key(q)]
                    model_of(items@).contains_key(q) == model_of(old_items).insert(
                        k,
                        v,
                    ).contains_key(q) && (model_of(items@).contains_key(q) ==> model_of(
                        items@,
                    )[q] == model_of(old_items).insert(k, v)[q]) by {
                    if has_key(items@, q) {
                        let j = choose|j: int|
                            0 <= j < items@.len() && #[trigger] key_at(items@, j) == q;
                        lemma_lookup(items@, j);
                        assert(key_at(old_items, j) == q);
                        if j != i {
                            lemma_lookup(old_items, j);
                        }
                    }
                    if has_key(old_items, q) {
                        let j = choose|j: int|
                            0 <= j < old_items.len() && #[trigger] key_at(old_items, j) == q;
                        assert(key_at(items@, j) == q);
                    }
                }
                assert(model_of(items@) =~= model_of(old_items).insert(k, v));
            },
            None => {
                items.push(entry);
                let ghost n = old_items.len() as int;
                assert forall|a: int, b: int|
                    0 <= a < b < items@.len() implies #[trigger] key_at(items@, a)
                    != #[trigger] key_at(items@, b) by {
                    assert(key_at(items@, a) == key_at(old_items, a));
                    if b < n {
                        assert(key_at(old_items, a) != key_at(old_items, b));
                        assert(key_at(items@, b) == key_at(old_items, b));
                    }
                }
                assert forall|q: (Seq<char>, Seq<char>)|
                    #![trigger model_of(items@).contains_key(q)]
                    model_of(items@).contains_key(q) == model_of(old_items).insert(
                        k,
                        v,
                    ).contains_key(q) && (model_of(items@).contains_key(q) ==> model_of(
                        items@,
                    )[q] == model_of(old_items).insert(k, v)[q]) by {
                    assert(key_at(items@, n) == k);
                    if has_key(items@, q) {
                        let j = choose|j: int|
                            0 <= j < items@.len() && #[trigger] key_at(items@, j) == q;
                        lemma_lookup(items@, j);
                        if j < n {
                            assert(key_at(old_items, j) == q);
                            lemma_lookup(old_items, j);
                        }
                    }
                    if has_key(old_items, q) {
                        let j = choose|j: int|
                            0 <= j < old_items.len() && #[trigger] key_at(old_items, j) == q;
                        assert(key_at(items@, j) == q);
                    }
                }
                assert(model_of(items@) =~= model_of(old_items).insert(k, v));
            },
        }
        self.items = items;
        Ok(())
    }

    fn get(&self, namespace: &str, var: &str) -> (r: Result<SecretValue>) {
        proof {
            use_type_invariant(self);
        }
        match find(&self.items, namespace, var) {
            Some(i) => {
                proof {
                    lemma_lookup(self.items@, i as int);
                }
                Ok(self.items[i].value.duplicate())
            },
            None => Err(Error::NotFound { namespace: namespace.to_owned(), var: var.to_owned() }),
        }
    }

    fn delete(&mut self, namespace: &str, var: &str) -> (r: Result<()>) {
        proof {
            use_type_invariant(&*self);
        }
        let ghost k = (namespace@, var@);
        match find(&self.items, namespace, var) {
            Some(i) => {
                let ghost old_items = self.items@;
                proof {
                    lemma_lookup(old_items, i as int);
                }
                let mut items: Vec<Entry> = Vec::new();
                std::mem::swap(&mut items, &mut self.items);
                let _removed = items.remove(i);
                assert forall|a: int, b: int|
                    0 <= a < b < items@.len() implies #[trigger] key_at(items@, a)
                    != #[trigger] key_at(items@, b) by {
                    let oa = if a < i {
                        a
                    } else {
                        a + 1
                    };
                    let ob = if b < i {
                        b
                    } else {
                        b + 1
                    };
                    assert(key_at(items@, a) == key_at(old_items, oa));
                    assert(key_at(items@, b) == key_at(old_items, ob));
                    assert(key_at(old_items, oa) != key_at(old_items, ob));
                }
                assert forall|q: (Seq<char>, Seq<char>)|
                    #![trigger model_of(items@).contains_key(q)]
                    model_of(items@).contains_key(q) == model_of(old_items).remove(k).contains_key(
                        q,
                    ) && (model_of(items@).contains_key(q) ==> model_of(items@)[q] == model_of(
                        old_items,
                    ).remove(k)[q]) by {
                    if has_key(items@, q) {
                        let j = choose|j: int|
                            0 <= j < items@.len() && #[trigger] key_at(items@, j) == q;
                        let oj = if j < i {
                            j
                        } else {
                            j + 1
                        };
                        assert(key_at(old_items, oj) == q);
                        lemma_lookup(items@, j);
                        lemma_lookup(old_items, oj);
                        if oj < i {
                            assert(key_at(old_items, oj) != key_at(old_items, i as int));
                        } else {
                            assert(key_at(old_items, i as int) != key_at(old_items, oj));
                        }
                    }
                    if has_key(old_items, q) && q != k {
                        let j = choose|j: int|
                            0 <= j < old_items.len() && #[trigger] key_at(old_items, j) == q;
                        if j < i {
                            assert(key_at(items@, j) == q);
                        } else if j > i {
                            assert(key_at(items@, j - 1) == q);
                        }
                    }
                }
                assert(model_of(items@) =~= model_of(old_items).remove(k));
                self.items = items;
                Ok(())
            },
            None => Err(Error::NotFound { namespace: namespace.to_owned(), var: var.to_owned() }),
        }
    }

    fn list_vars(&self, namespace: &str) -> (r: Result<Vec<String>>) {
        proof {
            use_type_invariant(self);
        }
        let ghost items = self.items@;
        let mut out: Vec<String> = Vec::new();
        let mut i: usize = 0;
        while i < self.items.len()
            invariant
                items == self.items@,
                i <= items.len(),
                strictly_sorted(views(out@)),
                forall|v: Seq<char>| #[trigger]
                    views(out@).to_set().contains(v) <==> exists|j: int|
                        0 <= j < i && #[trigger] key_at(items, j) == (namespace@, v),
            decreases self.items.len() - i,
        {
            let ghost before = views(out@).to_set();
            let ghost ii = i as int;
            if str_eq(self.items[i].namespace.as_str(), namespace) {
                insert_sorted(&mut out, self.items[i].var.clone());
            }
            assert forall|v: Seq<char>| #[trigger]
                views(out@).to_set().contains(v) <==> exists|j: int|
                    0 <= j < ii + 1 && #[trigger] key_at(items, j) == (namespace@, v) by {
                if views(out@).to_set().contains(v) {
                    if before.contains(v) {
                        let j = choose|j: int|
                            0 <= j < ii && #[trigger] key_at(items, j) == (namespace@, v);
                        assert(0 <= j < ii + 1 && key_at(items, j) == (namespace@, v));
                    } else {
                        assert(key_at(items, ii) == (namespace@, v));
                    }
                }
                if exists|j: int| 0 <= j < ii + 1 && #[trigger] key_at(items, j) == (namespace@, v) {
                    let j = choose|j: int|
                        0 <= j < ii + 1 && #[trigger] key_at(items, j) == (namespace@, v);
                    if j < ii {
                        assert(before.contains(v));
                    }
                }
            }
            i = i + 1;
        }
        assert forall|v: Seq<char>| #[trigger]
            views(out@).to_set().contains(v) == vars_of(self.contents(), namespace@).contains(v) by {
            if views(out@).to_set().contains(v) {
                let j = choose|j: int|
                    0 <= j < items.len() && #[trigger] key_at(items, j) == (namespace@, v);
                assert(has_key(items, (namespace@, v)));
            }
            if vars_of(self.contents(), namespace@).contains(v) {
                assert(has_key(items, (namespace@, v)));
                let j = choose|j: int|
                    0 <= j < items.len() && #[trigger] key_at(items, j) == (namespace@, v);
                assert(exists|j: int|
                    0 <= j < items.len() && #[trigger] key_at(items, j) == (namespace@, v));
            }
        }
        assert(views(out@).to_set() =~= vars_of(self.contents(), namespace@));
        Ok(out)
    }

    fn list_namespaces(&self) -> (r: Result<Vec<String>>) {
        proof {
            use_type_invariant(self);
        }
        let ghost items = self.items@;
        let mut out: Vec<String> = Vec::new();
        let mut i: usize = 0;
        while i < self.items.len()
            invariant
                items == self.items@,
                i <= items.len(),
                strictly_sorted(views(out@)),
                forall|ns: Seq<char>| #[trigger]
                    views(out@).to_set().contains(ns) <==> exists|j: int|
                        0 <= j < i && #[trigger] items[j].namespace@ == ns,
            decreases self.items.len() - i,
        {
            let ghost before = views(out@).to_set();
            let ghost ii = i as int;
            insert_sorted(&mut out, self.items[i].namespace.clone());
            assert forall|ns: Seq<char>| #[trigger]
                views(out@).to_set().contains(ns) <==> exists|j: int|
                    0 <= j < ii + 1 && #[trigger] items[j].namespace@ == ns by {
                if views(out@).to_set().contains(ns) {
                    if before.contains(ns) {
                        let j = choose|j: int| 0 <= j < ii && #[trigger] items[j].namespace@ == ns;
                        assert(0 <= j < ii + 1 && items[j].namespace@ == ns);
                    } else {
                        assert(items[ii].namespace@ == ns);
                    }
                }
                if exists|j: int| 0 <= j < ii + 1 && #[trigger] items[j].namespace@ == ns {
                    let j = choose|j: int| 0 <= j < ii + 1 && #[trigger] items[j].namespace@ == ns;
                    if j < ii {
                        assert(before.contains(ns));
                    }
                }
            }
            i = i + 1;
        }
        assert forall|ns: Seq<char>| #[trigger]
            namespaces_of(self.contents()).contains(ns) == views(out@).to_set().contains(ns) by {
            if views(out@).to_set().contains(ns) {
                let j = choose|j: int| 0 <= j < items.len() && #[trigger] items[j].namespace@ == ns;
                assert(key_at(items, j) == (ns, items[j].var@));
                assert(has_key(items, (ns, items[j].var@)));
                assert(self.contents().contains_key((ns, items[j].var@)));
            }
            if namespaces_of(self.contents()).contains(ns) {
                let v = choose|v: Seq<char>| self.contents().contains_key((ns, v));
                assert(has_key(items, (ns, v)));
                let j = choose|j: int| 0 <= j < items.len() && #[trigger] key_at(items, j) == (ns, v);
                assert(items[j].namespace@ == ns);
            }
        }
        assert(views(out@).to_set() =~= namespaces_of(self.contents()));
        proof {
            lemma_finite(items);
        }
        Ok(out)
    }
}

} // verus!
