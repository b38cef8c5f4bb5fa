//! The in-memory form of a theme document: an ordered variable table with
//! unique keys, and an optional embedded wallpaper blob.

use vstd::prelude::*;

use crate::value::{valid_key, wf_value, Value, ValueModel};

verus! {

/// A parsed theme document. The variable table preserves insertion order;
/// keys are unique. The wallpaper, when present, is a non-empty byte blob
/// that the codec copies opaquely.
#[derive(Clone, PartialEq, Debug)]
pub struct ThemeDocument {
    variables: Vec<(String, Value)>,
    wallpaper: Option<Vec<u8>>,
}

/// The mathematical model of a document.
pub struct DocumentModel {
    pub variables: Seq<(Seq<char>, ValueModel)>,
    pub wallpaper: Option<Seq<u8>>,
}

impl View for ThemeDocument {
    type V = DocumentModel;

    closed spec fn view(&self) -> DocumentModel {
        DocumentModel {
            variables: self.variables@.map(|i: int, kv: (String, Value)| (kv.0@, kv.1@)),
            wallpaper: match self.wallpaper {
                Some(w) => Some(w@),
                None => None,
            },
        }
    }
}

// ---------------------------------------------------------------------------
// Operations on the model
// ---------------------------------------------------------------------------

/// The value under the first occurrence of `k`.
pub open spec fn lookup(vars: Seq<(Seq<char>, ValueModel)>, k: Seq<char>) -> Option<ValueModel>
    decreases vars.len(),
{
    if vars.len() == 0 {
        None
    } else if vars[0].0 == k {
        Some(vars[0].1)
    } else {
        lookup(vars.drop_first(), k)
    }
}

pub open spec fn has_key(vars: Seq<(Seq<char>, ValueModel)>, k: Seq<char>) -> bool {
    exists|i: int| 0 <= i < vars.len() && #[trigger] vars[i].0 == k
}

/// The table without any entry under `k`, order otherwise kept.
pub open spec fn remove_key(vars: Seq<(Seq<char>, ValueModel)>, k: Seq<char>) -> Seq<
    (Seq<char>, ValueModel),
>
    decreases vars.len(),
{
    if vars.len() == 0 {
        vars
    } else if vars[0].0 == k {
        remove_key(vars.drop_first(), k)
    } else {
        seq![vars[0]] + remove_key(vars.drop_first(), k)
    }
}

/// The table with `k` bound to `v`: in place if `k` is present, appended
/// otherwise.
pub open spec fn upsert(vars: Seq<(Seq<char>, ValueModel)>, k: Seq<char>, v: ValueModel) -> Seq<
    (Seq<char>, ValueModel),
>
    decreases vars.len(),
{
    if vars.len() == 0 {
        seq![(k, v)]
    } else if vars[0].0 == k {
        seq![(k, v)] + vars.drop_first()
    } else {
        seq![vars[0]] + upsert(vars.drop_first(), k, v)
    }
}

pub open spec fn unique_keys(vars: Seq<(Seq<char>, ValueModel)>) -> bool {
    forall|i: int, j: int|
        0 <= i < j < vars.len() ==> (#[trigger] vars[i].0) != (#[trigger] vars[j].0)
}

pub open spec fn wf_vars(vars: Seq<(Seq<char>, ValueModel)>) -> bool {
    &&& unique_keys(vars)
    &&& forall|i: int|
        0 <= i < vars.len() ==> valid_key((#[trigger] vars[i]).0) && wf_value(vars[i].1)
}

pub open spec fn wf_doc(d: DocumentModel) -> bool {
    &&& wf_vars(d.variables)
    &&& (d.wallpaper matches Some(w) ==> w.len() > 0)
}

// ---------------------------------------------------------------------------
// Facts about the model operations
// ---------------------------------------------------------------------------

pub proof fn lemma_lookup_some_iff_has_key(vars: Seq<(Seq<char>, ValueModel)>, k: Seq<char>)
    ensures
        lookup(vars, k) is Some <==> has_key(vars, k),
    decreases vars.len(),
{
    if vars.len() == 0 {
    } else if vars[0].0 == k {
        assert(vars[0].0 == k);
    } else {
        lemma_lookup_some_iff_has_key(vars.drop_first(), k);
        if has_key(vars, k) {
            let i = choose|i: int| 0 <= i < vars.len() && #[trigger] vars[i].0 == k;
            assert(vars.drop_first()[i - 1] == vars[i]);
        }
        if has_key(vars.drop_first(), k) {
            let i = choose|i: int|
                0 <= i < vars.drop_first().len() && #[trigger] vars.drop_first()[i].0 == k;
            assert(vars[i + 1] == vars.drop_first()[i]);
        }
    }
}

/// An entry found at the first occurrence of its key is what `lookup` yields.
pub proof fn lemma_lookup_found(vars: Seq<(Seq<char>, ValueModel)>, k: Seq<char>, i: int)
    requires
        0 <= i < vars.len(),
        vars[i].0 == k,
        forall|j: int| 0 <= j < i ==> (#[trigger] vars[j].0) != k,
    ensures
        lookup(vars, k) == Some(vars[i].1),
    decreases vars.len(),
{
    if i == 0 {
    } else {
        assert(vars[0].0 != k);
        assert(vars.drop_first()[i - 1] == vars[i]);
        assert(forall|j: int|
            0 <= j < i - 1 ==> (#[trigger] vars.drop_first()[j]) == vars[j + 1]);
        lemma_lookup_found(vars.drop_first(), k, i - 1);
    }
}

pub proof fn lemma_lookup_absent(vars: Seq<(Seq<char>, ValueModel)>, k: Seq<char>)
    requires
        forall|j: int| 0 <= j < vars.len() ==> (#[trigger] vars[j].0) != k,
    ensures
        lookup(vars, k) is None,
{
    lemma_lookup_some_iff_has_key(vars, k);
}

/// Removing an absent key changes nothing.
pub proof fn lemma_remove_key_absent(vars: Seq<(Seq<char>, ValueModel)>, k: Seq<char>)
    requires
        !has_key(vars, k),
    ensures
        remove_key(vars, k) == vars,
    decreases vars.len(),
{
    if vars.len() > 0 {
        assert(vars[0].0 != k);
        assert(!has_key(vars.drop_first(), k)) by {
            if has_key(vars.drop_first(), k) {
                let i = choose|i: int|
                    0 <= i < vars.drop_first().len() && #[trigger] vars.drop_first()[i].0 == k;
                assert(vars[i + 1] == vars.drop_first()[i]);
            }
        }
        lemma_remove_key_absent(vars.drop_first(), k);
        assert(remove_key(vars, k) =~= vars);
    }
}

/// After removal the key is gone.
pub proof fn lemma_remove_key_gone(vars: Seq<(Seq<char>, ValueModel)>, k: Seq<char>)
    ensures
        !has_key(remove_key(vars, k), k),
        lookup(remove_key(vars, k), k) is None,
    decreases vars.len(),
{
    let r = remove_key(vars, k);
    if vars.len() == 0 {
        assert(!has_key(r, k));
    } else if vars[0].0 == k {
        lemma_remove_key_gone(vars.drop_first(), k);
    } else {
        lemma_remove_key_gone(vars.drop_first(), k);
        let tail = remove_key(vars.drop_first(), k);
        assert(!has_key(r, k)) by {
            if has_key(r, k) {
                let i = choose|i: int| 0 <= i < r.len() && #[trigger] r[i].0 == k;
                if i == 0 {
                    assert(r[0] == vars[0]);
                } else {
                    assert(r[i] == tail[i - 1]);
                }
            }
        }
    }
    lemma_lookup_some_iff_has_key(remove_key(vars, k), k);
}

/// Removal leaves every other key bound as before.
pub proof fn lemma_remove_key_other(
    vars: Seq<(Seq<char>, ValueModel)>,
    k: Seq<char>,
    k2: Seq<char>,
)
    requires
        k2 != k,
    ensures
        lookup(remove_key(vars, k), k2) == lookup(vars, k2),
    decreases vars.len(),
{
    if vars.len() == 0 {
    } else if vars[0].0 == k {
        lemma_remove_key_other(vars.drop_first(), k, k2);
        assert(vars[0].0 != k2);
    } else {
        lemma_remove_key_other(vars.drop_first(), k, k2);
        let r = remove_key(vars, k);
        let tail = remove_key(vars.drop_first(), k);
        assert(r == seq![vars[0]] + tail);
        assert(r[0] == vars[0]);
        if vars[0].0 == k2 {
        } else {
            assert(r.drop_first() =~= tail);
        }
    }
}

/// Every key of the reduced table was a key of the original.
pub proof fn lemma_remove_key_keys(
    vars: Seq<(Seq<char>, ValueModel)>,
    k: Seq<char>,
    k2: Seq<char>,
)
    ensures
        has_key(remove_key(vars, k), k2) ==> has_key(vars, k2),
    decreases vars.len(),
{
    if vars.len() > 0 {
        lemma_remove_key_keys(vars.drop_first(), k, k2);
        let r = remove_key(vars, k);
        let tail = remove_key(vars.drop_first(), k);
        if has_key(r, k2) {
            if vars[0].0 == k {
                assert(has_key(vars.drop_first(), k2));
                let i = choose|i: int|
                    0 <= i < vars.drop_first().len() && #[trigger] vars.drop_first()[i].0 == k2;
                assert(vars[i + 1] == vars.drop_first()[i]);
            } else {
                let i = choose|i: int| 0 <= i < r.len() && #[trigger] r[i].0 == k2;
                if i == 0 {
                    assert(r[0] == vars[0]);
                } else {
                    assert(r[i] == tail[i - 1]);
                    assert(has_key(tail, k2));
                    assert(has_key(vars.drop_first(), k2));
                    let j = choose|j: int|
                        0 <= j < vars.drop_first().len() && #[trigger] vars.drop_first()[j].0
                            == k2;
                    assert(vars[j + 1] == vars.drop_first()[j]);
                }
            }
        }
    }
}

/// Removal keeps the table well-formed.
pub proof fn lemma_remove_key_wf(vars: Seq<(Seq<char>, ValueModel)>, k: Seq<char>)
    requires
        wf_vars(vars),
    ensures
        wf_vars(remove_key(vars, k)),
    decreases vars.len(),
{
    if vars.len() > 0 {
        assert(wf_vars(vars.drop_first())) by {
            assert(forall|i: int|
                0 <= i < vars.drop_first().len() ==> (#[trigger] vars.drop_first()[i])
                    == vars[i + 1]);
        }
        lemma_remove_key_wf(vars.drop_first(), k);
        if vars[0].0 != k {
            let r = remove_key(vars, k);
            let tail = remove_key(vars.drop_first(), k);
            assert(r == seq![vars[0]] + tail);
            assert forall|i: int, j: int| 0 <= i < j < r.len() implies (#[trigger] r[i].0)
                != (#[trigger] r[j].0) by {
                if i == 0 {
                    assert(r[0] == vars[0]);
                    assert(r[j] == tail[j - 1]);
                    assert(has_key(tail, tail[j - 1].0));
                    lemma_remove_key_keys(vars.drop_first(), k, tail[j - 1].0);
                    let m = choose|m: int|
                        0 <= m < vars.drop_first().len() && #[trigger] vars.drop_first()[m].0
                            == tail[j - 1].0;
                    assert(vars[m + 1] == vars.drop_first()[m]);
                    assert(vars[0].0 != vars[m + 1].0);
                } else {
                    assert(r[i] == tail[i - 1] && r[j] == tail[j - 1]);
                }
            }
            assert forall|i: int| 0 <= i < r.len() implies valid_key((#[trigger] r[i]).0)
                && wf_value(r[i].1) by {
                if i == 0 {
                    assert(r[0] == vars[0]);
                } else {
                    assert(r[i] == tail[i - 1]);
                }
            }
        }
    }
}


/// Binding an absent key appends it.
pub proof fn lemma_upsert_absent(vars: Seq<(Seq<char>, ValueModel)>, k: Seq<char>, v: ValueModel)
    requires
        !has_key(vars, k),
    ensures
        upsert(vars, k, v) == vars.push((k, v)),
    decreases vars.len(),
{
    if vars.len() == 0 {
        assert(upsert(vars, k, v) =~= vars.push((k, v)));
    } else {
        assert(vars[0].0 != k);
        assert(!has_key(vars.drop_first(), k)) by {
            if has_key(vars.drop_first(), k) {
                let i = choose|i: int|
                    0 <= i < vars.drop_first().len() && #[trigger] vars.drop_first()[i].0 == k;
                assert(vars[i + 1] == vars.drop_first()[i]);
            }
        }
        lemma_upsert_absent(vars.drop_first(), k, v);
        assert(upsert(vars, k, v) =~= vars.push((k, v)));
    }
}

/// Binding a present key updates it in place.
pub proof fn lemma_upsert_at(
    vars: Seq<(Seq<char>, ValueModel)>,
    k: Seq<char>,
    v: ValueModel,
    i: int,
)
    requires
        0 <= i < vars.len(),
        vars[i].0 == k,
        forall|j: int| 0 <= j < i ==> (#[trigger] vars[j].0) != k,
    ensures
        upsert(vars, k, v) == vars.update(i, (k, v)),
    decreases vars.len(),
{
    if i == 0 {
        assert(upsert(vars, k, v) =~= vars.update(0, (k, v)));
    } else {
        assert(vars[0].0 != k);
        assert(vars.drop_first()[i - 1] == vars[i]);
        assert(forall|j: int|
            0 <= j < i - 1 ==> (#[trigger] vars.drop_first()[j]) == vars[j + 1]);
        lemma_upsert_at(vars.drop_first(), k, v, i - 1);
        assert(upsert(vars, k, v) =~= vars.update(i, (k, v)));
    }
}

/// Binding a well-formed entry keeps the table well-formed.
pub proof fn lemma_upsert_wf(vars: Seq<(Seq<char>, ValueModel)>, k: Seq<char>, v: ValueModel)
    requires
        wf_vars(vars),
        valid_key(k),
        wf_value(v),
    ensures
        wf_vars(upsert(vars, k, v)),
{
    if has_key(vars, k) {
        let i = choose|i: int| 0 <= i < vars.len() && #[trigger] vars[i].0 == k;
        assert(forall|j: int| 0 <= j < i ==> (#[trigger] vars[j].0) != k);
        lemma_upsert_at(vars, k, v, i);
        let r = vars.update(i, (k, v));
        assert forall|a: int, b: int| 0 <= a < b < r.len() implies (#[trigger] r[a].0)
            != (#[trigger] r[b].0) by {
            assert(vars[a].0 != vars[b].0);
        }
    } else {
        lemma_upsert_absent(vars, k, v);
        let r = vars.push((k, v));
        assert forall|a: int, b: int| 0 <= a < b < r.len() implies (#[trigger] r[a].0)
            != (#[trigger] r[b].0) by {
            if b < vars.len() {
                assert(vars[a].0 != vars[b].0);
            } else {
                assert(r[b] == (k, v));
                assert(r[a] == vars[a]);
                assert(!(vars[a].0 == k));
            }
        }
    }
}

/// After `upsert`, `k` is bound to `v`.
pub proof fn lemma_upsert_lookup_same(
    vars: Seq<(Seq<char>, ValueModel)>,
    k: Seq<char>,
    v: ValueModel,
)
    ensures
        lookup(upsert(vars, k, v), k) == Some(v),
        has_key(upsert(vars, k, v), k),
    decreases vars.len(),
{
    let r = upsert(vars, k, v);
    if vars.len() == 0 {
        assert(r[0] == (k, v));
    } else if vars[0].0 == k {
        assert(r[0] == (k, v));
    } else {
        lemma_upsert_lookup_same(vars.drop_first(), k, v);
        assert(r[0] == vars[0]);
        assert(r.drop_first() =~= upsert(vars.drop_first(), k, v));
        let i = choose|i: int|
            0 <= i < r.drop_first().len() && #[trigger] r.drop_first()[i].0 == k;
        assert(r[i + 1] == r.drop_first()[i]);
    }
}

/// After `upsert` of `k`, every other key is bound as before.
pub proof fn lemma_upsert_lookup_other(
    vars: Seq<(Seq<char>, ValueModel)>,
    k: Seq<char>,
    v: ValueModel,
    k2: Seq<char>,
)
    requires
        k2 != k,
    ensures
        lookup(upsert(vars, k, v), k2) == lookup(vars, k2),
    decreases vars.len(),
{
    let r = upsert(vars, k, v);
    if vars.len() == 0 {
        assert(r[0] == (k, v));
        assert(r.drop_first() =~= Seq::<(Seq<char>, ValueModel)>::empty());
        assert(lookup(r.drop_first(), k2) is None);
        assert(lookup(r, k2) is None);
    } else if vars[0].0 == k {
        assert(r[0] == (k, v));
        assert(r.drop_first() =~= vars.drop_first());
        assert(lookup(r, k2) == lookup(vars.drop_first(), k2));
        assert(lookup(vars, k2) == lookup(vars.drop_first(), k2));
    } else {
        lemma_upsert_lookup_other(vars.drop_first(), k, v, k2);
        assert(r[0] == vars[0]);
        assert(r.drop_first() =~= upsert(vars.drop_first(), k, v));
        if vars[0].0 == k2 {
            assert(lookup(r, k2) == Some(r[0].1));
            assert(lookup(vars, k2) == Some(vars[0].1));
        } else {
            assert(lookup(r, k2) == lookup(r.drop_first(), k2));
            assert(lookup(vars, k2) == lookup(vars.drop_first(), k2));
        }
    }
}

// ---------------------------------------------------------------------------
// Executable accessors
// ---------------------------------------------------------------------------

impl ThemeDocument {
    /// An empty document: no variables, no wallpaper.
    pub fn new() -> (d: ThemeDocument)
        ensures
            d@.variables == Seq::<(Seq<char>, ValueModel)>::empty(),
            d@.wallpaper is None,
            wf_doc(d@),
    {
        let d = ThemeDocument { variables: Vec::new(), wallpaper: None };
        proof {
            assert(d@.variables =~= Seq::<(Seq<char>, ValueModel)>::empty());
        }
        d
    }

    pub fn len(&self) -> (n: usize)
        ensures
            n == self@.variables.len(),
    {
        self.variables.len()
    }

    /// The entry at a position of the table, in insertion order.
    pub fn entry_at(&self, i: usize) -> (kv: (&String, &Value))
        requires
            i < self@.variables.len(),
        ensures
            kv.0@ == self@.variables[i as int].0,
            kv.1@ == self@.variables[i as int].1,
    {
        let pair = &self.variables[i];
        (&pair.0, &pair.1)
    }

    /// The value under `key`, if any.
    pub fn get(&self, key: &String) -> (r: Option<&Value>)
        ensures
            r is Some <==> lookup(self@.variables, key@) is Some,
            r matches Some(v) ==> lookup(self@.variables, key@) == Some(v@),
    {
        let ghost m = self@.variables;
        let mut i: usize = 0;
        while i < self.variables.len()
            invariant
                0 <= i <= self.variables.len(),
                m == self@.variables,
                m.len() == self.variables.len(),
                forall|j: int| 0 <= j < m.len() ==> (#[trigger] m[j]) == (
                    self.variables@[j].0@,
                    self.variables@[j].1@,
                ),
                forall|j: int| 0 <= j < i ==> (#[trigger] m[j].0) != key@,
            decreases self.variables.len() - i,
        {
            let pair = &self.variables[i];
            if pair.0 == *key {
                proof {
                    lemma_lookup_found(m, key@, i as int);
                }
                return Some(&pair.1);
            }
            i = i + 1;
        }
        proof {
            lemma_lookup_absent(m, key@);
        }
        None
    }

    /// Bind `key` to `value`: in place if present, appended otherwise.
    #[verifier::loop_isolation(false)]
    pub fn set(&mut self, key: String, value: Value)
        requires
            wf_doc(old(self)@),
            valid_key(key@),
            wf_value(value@),
        ensures
            final(self)@.variables == upsert(old(self)@.variables, key@, value@),
            final(self)@.wallpaper == old(self)@.wallpaper,
            wf_doc(final(self)@),
            lookup(final(self)@.variables, key@) == Some(value@),
            forall|k2: Seq<char>|
                k2 != key@ ==> lookup(final(self)@.variables, k2) == lookup(
                    old(self)@.variables,
                    k2,
                ),
    {
        let ghost m = old(self)@.variables;
        proof {
            lemma_upsert_wf(m, key@, value@);
            lemma_upsert_lookup_same(m, key@, value@);
            assert forall|k2: Seq<char>| k2 != key@ implies lookup(upsert(m, key@, value@), k2)
                == lookup(m, k2) by {
                lemma_upsert_lookup_other(m, key@, value@, k2);
            }
        }
        let mut i: usize = 0;
        while i < self.variables.len()
            invariant
                0 <= i <= self.variables.len(),
                *self == *old(self),
                m == self@.variables,
                m.len() == self.variables.len(),
                forall|j: int| 0 <= j < m.len() ==> (#[trigger] m[j]) == (
                    self.variables@[j].0@,
                    self.variables@[j].1@,
                ),
                forall|j: int| 0 <= j < i ==> (#[trigger] m[j].0) != key@,
            decreases self.variables.len() - i,
        {
            let found = self.variables[i].0 == key;
            if found {
                proof {
                    lemma_upsert_at(m, key@, value@, i as int);
                }
                self.variables.remove(i);
                self.variables.insert(i, (key, value));
                proof {
                    assert(self.variables@ =~= old(self).variables@.update(
                        i as int,
                        (key, value),
                    ));
                    assert(final(self)@.variables =~= m.update(i as int, (key@, value@)));
                }
                return ;
            }
            i = i + 1;
        }
        proof {
            lemma_upsert_absent(m, key@, value@);
        }
        self.variables.push((key, value));
        proof {
            assert(final(self)@.variables =~= m.push((key@, value@)));
        }
    }

    /// Drop `key` from the table; doing so for an absent key changes nothing.
    #[verifier::loop_isolation(false)]
    pub fn remove(&mut self, key: &String)
        requires
            wf_doc(old(self)@),
        ensures
            final(self)@.variables == remove_key(old(self)@.variables, key@),
            final(self)@.wallpaper == old(self)@.wallpaper,
            wf_doc(final(self)@),
            !has_key(old(self)@.variables, key@) ==> final(self)@ == old(self)@,
            lookup(final(self)@.variables, key@) is None,
            forall|k2: Seq<char>|
                k2 != key@ ==> lookup(final(self)@.variables, k2) == lookup(
                    old(self)@.variables,
                    k2,
                ),
    {
        let ghost m = old(self)@.variables;
        proof {
            lemma_remove_key_wf(m, key@);
            lemma_remove_key_gone(m, key@);
            assert forall|k2: Seq<char>| k2 != key@ implies lookup(remove_key(m, key@), k2)
                == lookup(m, k2) by {
                lemma_remove_key_other(m, key@, k2);
            }
        }
        let mut i: usize = 0;
        while i < self.variables.len()
            invariant
                0 <= i <= self.variables.len(),
                *self == *old(self),
                m == self@.variables,
                m.len() == self.variables.len(),
                forall|j: int| 0 <= j < m.len() ==> (#[trigger] m[j]) == (
                    self.variables@[j].0@,
                    self.variables@[j].1@,
                ),
                forall|j: int| 0 <= j < i ==> (#[trigger] m[j].0) != key@,
            decreases self.variables.len() - i,
        {
            let found = self.variables[i].0 == *key;
            if found {
                proof {
                    assert(m[i as int].0 == key@);
                    assert(has_key(m, key@));
                    lemma_remove_key_at(m, key@, i as int);
                }
                self.variables.remove(i);
                proof {
                    assert(final(self)@.variables =~= m.remove(i as int));
                }
                return ;
            }
            i = i + 1;
        }
        proof {
            assert(!has_key(m, key@));
            lemma_remove_key_absent(m, key@);
        }
    }

    /// The embedded wallpaper blob, if any.
    pub fn wallpaper(&self) -> (r: Option<&Vec<u8>>)
        ensures
            r is Some <==> self@.wallpaper is Some,
            r matches Some(w) ==> self@.wallpaper == Some(w@),
    {
        match &self.wallpaper {
            Some(w) => Some(w),
            None => None,
        }
    }

    /// Replace the embedded wallpaper with a non-empty blob.
    pub fn set_wallpaper(&mut self, bytes: Vec<u8>)
        requires
            wf_doc(old(self)@),
            bytes@.len() > 0,
        ensures
            final(self)@.wallpaper == Some(bytes@),
            final(self)@.variables == old(self)@.variables,
            wf_doc(final(self)@),
    {
        self.wallpaper = Some(bytes);
    }
}

/// With unique keys, removing the key found at `i` is removing that one
/// entry.
proof fn lemma_remove_key_at(vars: Seq<(Seq<char>, ValueModel)>, k: Seq<char>, i: int)
    requires
        unique_keys(vars),
        0 <= i < vars.len(),
        vars[i].0 == k,
    ensures
        remove_key(vars, k) == vars.remove(i),
    decreases vars.len(),
{
    if i == 0 {
        assert(!has_key(vars.drop_first(), k)) by {
            if has_key(vars.drop_first(), k) {
                let j = choose|j: int|
                    0 <= j < vars.drop_first().len() && #[trigger] vars.drop_first()[j].0 == k;
                assert(vars[j + 1] == vars.drop_first()[j]);
            }
        }
        lemma_remove_key_absent(vars.drop_first(), k);
        assert(remove_key(vars, k) =~= vars.remove(0));
    } else {
        assert(vars[0].0 != k);
        assert(unique_keys(vars.drop_first())) by {
            assert(forall|j: int|
                0 <= j < vars.drop_first().len() ==> (#[trigger] vars.drop_first()[j]) == vars[j
                    + 1]);
        }
        assert(vars.drop_first()[i - 1] == vars[i]);
        lemma_remove_key_at(vars.drop_first(), k, i - 1);
        assert(remove_key(vars, k) =~= vars.remove(i));
    }
}

} // verus!
