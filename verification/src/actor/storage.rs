//! The decisions of the storage client over the objects it loads: which are
//! ready for use, which bindings belong to a model, and how a custom
//! resource is scoped.
use vstd::prelude::*;

use crate::cluster::state::join_words;
use crate::text::{compare_text, push_char, KeyCmp};

verus! {

/// What the status of a model, a function or a storage says.
#[derive(Copy, Clone, Debug, PartialEq, Eq, Structural)]
pub struct ReadyStatus {
    /// The state is `Ready`.
    pub ready: bool,
    /// The status holds what a ready object must carry (a model's fields, a
    /// function's spec).
    pub complete: bool,
}

/// Why an object could not be used.
#[derive(Copy, Clone, Debug, PartialEq, Eq, Structural)]
pub enum LoadError {
    /// The object has no status, or its state is not `Ready`.
    NotReady,
    /// The object is ready but its status lacks its fields or spec.
    Incomplete,
}

/// Whether a model or function can be used.
pub fn check_ready(status: Option<ReadyStatus>) -> (r: Result<(), LoadError>)
    ensures
        r == match status {
            Some(s) => if !s.ready {
                Err(LoadError::NotReady)
            } else if !s.complete {
                Err(LoadError::Incomplete)
            } else {
                Ok(())
            },
            None => Err(LoadError::NotReady),
        },
{
    match status {
        Some(s) => {
            if !s.ready {
                Err(LoadError::NotReady)
            } else if !s.complete {
                Err(LoadError::Incomplete)
            } else {
                Ok(())
            }
        },
        None => Err(LoadError::NotReady),
    }
}

/// Whether a storage can be used: its state must be `Ready`.
pub fn check_storage_ready(ready: Option<bool>) -> (r: Result<(), LoadError>)
    ensures
        r == if ready == Some(true) {
            Ok(())
        } else {
            Err(LoadError::NotReady)
        },
{
    match ready {
        Some(true) => Ok(()),
        _ => Err(LoadError::NotReady),
    }
}

/// A listed object: its name and status.
#[derive(Clone, Debug)]
pub struct NamedStatus {
    pub name: String,
    pub status: Option<ReadyStatus>,
}

pub open spec fn usable(s: Option<ReadyStatus>) -> bool {
    match s {
        Some(st) => st.ready && st.complete,
        None => false,
    }
}

/// The names of the usable objects, in order.
pub open spec fn usable_names(items: Seq<NamedStatus>) -> Seq<Seq<char>>
    decreases items.len(),
{
    if items.len() == 0 {
        Seq::empty()
    } else if usable(items.last().status) {
        usable_names(items.drop_last()).push(items.last().name@)
    } else {
        usable_names(items.drop_last())
    }
}

/// The names of the ready objects with their fields or spec.
pub fn ready_names(items: &Vec<NamedStatus>) -> (r: Vec<String>)
    ensures
        r@.map_values(|s: String| s@) == usable_names(items@),
{
    let mut r: Vec<String> = Vec::new();
    let n = items.len();
    let mut i: usize = 0;
    while i < n
        invariant
            n == items@.len(),
            i <= n,
            r@.map_values(|s: String| s@) == usable_names(items@.take(i as int)),
        decreases n - i,
    {
        proof {
            assert(items@.take(i + 1).drop_last() =~= items@.take(i as int));
            assert(items@.take(i + 1).last() == items@[i as int]);
        }
        let ok = match items[i].status {
            Some(s) => s.ready && s.complete,
            None => false,
        };
        if ok {
            let ghost before = r@;
            r.push(items[i].name.clone());
            assert(r@.map_values(|s: String| s@) =~= before.map_values(|s: String| s@).push(items@[i as int].name@));
        }
        i = i + 1;
    }
    assert(items@.take(n as int) =~= items@);
    r
}

/// A listed storage binding: whether it is ready, the model it binds, and
/// the storage its status names.
#[derive(Clone, Debug)]
pub struct BindingEntry<Storage> {
    pub ready: bool,
    pub model: String,
    pub storage: Option<Storage>,
}

/// The storages of the ready bindings of a model, in order.
pub open spec fn bound_storages<Storage>(items: Seq<BindingEntry<Storage>>, model: Seq<char>) -> Seq<Storage>
    decreases items.len(),
{
    if items.len() == 0 {
        Seq::empty()
    } else {
        let rest = bound_storages(items.drop_last(), model);
        let b = items.last();
        if b.ready && b.model@ == model && b.storage is Some {
            rest.push(b.storage.unwrap())
        } else {
            rest
        }
    }
}

/// The storages a model is bound to.
pub fn model_storages<Storage>(items: Vec<BindingEntry<Storage>>, model_name: &str) -> (r: Vec<Storage>)
    ensures
        r@ == bound_storages(items@, model_name@),
{
    let ghost all = items@;
    let mut r: Vec<Storage> = Vec::new();
    let mut items = items;
    let mut rest: Vec<BindingEntry<Storage>> = Vec::new();
    // Walk the entries from the back, then restore their order.
    let n = items.len();
    let mut k: usize = n;
    while k > 0
        invariant
            all.len() == n,
            k <= n,
            items@ == all.take(k as int),
            rest@.len() == n - k,
            forall|j: int| 0 <= j < n - k ==> #[trigger] rest@[j] == all[n - 1 - j],
        decreases k,
    {
        let e = items.pop().unwrap();
        rest.push(e);
        assert(items@ =~= all.take(k - 1));
        k = k - 1;
    }
    let mut i: usize = 0;
    while i < n
        invariant
            all.len() == n,
            rest@.len() == n - i,
            i <= n,
            forall|j: int| 0 <= j < n - i ==> #[trigger] rest@[j] == all[n - 1 - j],
            r@ == bound_storages(all.take(i as int), model_name@),
        decreases n - i,
    {
        let e = rest.pop().unwrap();
        assert(e == all[i as int]);
        proof {
            assert(all.take(i + 1).drop_last() =~= all.take(i as int));
            assert(all.take(i + 1).last() == all[i as int]);
        }
        let same = match compare_text(e.model.as_str(), model_name) {
            KeyCmp::Equal => true,
            _ => false,
        };
        if e.ready && same {
            match e.storage {
                Some(s) => r.push(s),
                None => {},
            }
        }
        i = i + 1;
    }
    assert(all.take(n as int) =~= all);
    r
}

/// How a custom resource is scoped.
#[derive(Copy, Clone, Debug, PartialEq, Eq, Structural)]
pub enum CrdScope {
    Namespaced,
    Cluster,
}

/// The scope a definition names, where it is one of the two known.
pub fn crd_scope(scope: &str) -> (r: Option<CrdScope>)
    ensures
        r == if scope@ == "Namespaced"@ {
            Some(CrdScope::Namespaced)
        } else if scope@ == "Cluster"@ {
            Some(CrdScope::Cluster)
        } else {
            None
        },
{
    match compare_text(scope, "Namespaced") {
        KeyCmp::Equal => Some(CrdScope::Namespaced),
        _ => match compare_text(scope, "Cluster") {
            KeyCmp::Equal => Some(CrdScope::Cluster),
            _ => None,
        },
    }
}

/// The first version of a definition with the given name.
pub fn find_version(versions: &Vec<String>, version: &str) -> (r: Option<usize>)
    ensures
        match r {
            Some(i) => i < versions@.len() && versions@[i as int]@ == version@
                && forall|j: int| 0 <= j < i ==> versions@[j]@ != version@,
            None => forall|j: int| 0 <= j < versions@.len() ==> versions@[j]@ != version@,
        },
{
    let n = versions.len();
    let mut i: usize = 0;
    while i < n
        invariant
            n == versions@.len(),
            i <= n,
            forall|j: int| 0 <= j < i ==> versions@[j]@ != version@,
        decreases n - i,
    {
        match compare_text(versions[i].as_str(), version) {
            KeyCmp::Equal => {
                return Some(i);
            },
            _ => {},
        }
        i = i + 1;
    }
    None
}

/// The names of the versions joined by commas, as the error about an
/// unknown version lists them.
pub fn versions_text(versions: &Vec<String>) -> (r: String)
    ensures
        r@ == join_words(versions@.map_values(|s: String| s@), seq![',']),
{
    let ghost w = versions@.map_values(|s: String| s@);
    let mut out = String::new();
    let n = versions.len();
    let mut i: usize = 0;
    while i < n
        invariant
            n == versions@.len(),
            w == versions@.map_values(|s: String| s@),
            i <= n,
            out@ == join_words(w.take(i as int), seq![',']),
        decreases n - i,
    {
        proof {
            assert(w.take(i + 1).drop_last() =~= w.take(i as int));
            assert(w.take(i + 1).last() == w[i as int]);
        }
        if i > 0 {
            push_char(&mut out, ',');
        }
        out.append(versions[i].as_str());
        proof {
            if i == 0 {
                assert(out@ =~= w.take(1)[0]);
            } else {
                assert(out@ =~= join_words(w.take(i as int), seq![',']) + seq![','] + w[i as int]);
            }
        }
        i = i + 1;
    }
    assert(w.take(n as int) =~= w);
    out
}

} // verus!
