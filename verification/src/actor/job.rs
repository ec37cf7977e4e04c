//! The decisions of the function job client over rendered documents: which
//! API group a document belongs to, and whether deleting it touches it.
use vstd::prelude::*;

use crate::text::{compare_text, KeyCmp};

verus! {

/// The API group of an `apiVersion`: the part before the first `/`, or the
/// core group (empty) where there is no `/`.
pub open spec fn api_group(api_version: Seq<char>) -> Seq<char> {
    if exists|i: int| 0 <= i < api_version.len() && api_version[i] == '/' {
        let i = choose|i: int| 0 <= i < api_version.len() && api_version[i] == '/' && forall|j: int| 0 <= j < i ==> api_version[j] != '/';
        api_version.take(i)
    } else {
        Seq::empty()
    }
}

/// The API group of a document's `apiVersion`.
pub fn api_group_of(api_version: &str) -> (r: String)
    ensures
        r@ == api_group(api_version@),
{
    let n = api_version.unicode_len();
    let mut group = String::new();
    let mut i: usize = 0;
    while i < n
        invariant
            n == api_version@.len(),
            i <= n,
            forall|j: int| 0 <= j < i ==> api_version@[j] != '/',
            group@ == api_version@.take(i as int),
        decreases n - i,
    {
        let c = api_version.get_char(i);
        if c == '/' {
            proof {
                let v = api_version@;
                assert(v[i as int] == '/');
                let k = choose|k: int| 0 <= k < v.len() && v[k] == '/' && forall|j: int| 0 <= j < k ==> v[j] != '/';
                if k < i {
                    assert(v[k] != '/');
                }
                if k > i {
                    assert(v[i as int] != '/');
                }
            }
            return group;
        }
        crate::text::push_char(&mut group, c);
        assert(group@ =~= api_version@.take(i + 1));
        i = i + 1;
    }
    String::new()
}

/// Whether a document's type is a persistent volume claim, which deleting
/// a function's documents keeps.
pub open spec fn is_volume_claim(api_version: Seq<char>, kind: Seq<char>) -> bool {
    api_version == "v1"@ && kind == "PersistentVolumeClaim"@
}

/// Whether deleting a function's documents deletes this one: it must exist
/// and not be a persistent volume claim.
pub fn deletes_document(types: Option<(&str, &str)>, found: bool) -> (r: bool)
    ensures
        r == (found && match types {
            Some((api_version, kind)) => !is_volume_claim(api_version@, kind@),
            None => true,
        }),
{
    match types {
        Some((api_version, kind)) => {
            let v1 = match compare_text(api_version, "v1") {
                KeyCmp::Equal => true,
                _ => false,
            };
            let pvc = match compare_text(kind, "PersistentVolumeClaim") {
                KeyCmp::Equal => true,
                _ => false,
            };
            if v1 && pvc {
                return false;
            }
        },
        None => {},
    }
    found
}

/// How a rendered document is written: patched in place when it exists,
/// created otherwise.
#[derive(Copy, Clone, Debug, PartialEq, Eq, Structural)]
pub enum ApplyMode {
    Patch,
    Create,
}

pub fn apply_mode(found: bool) -> (r: ApplyMode)
    ensures
        r == if found {
            ApplyMode::Patch
        } else {
            ApplyMode::Create
        },
{
    if found {
        ApplyMode::Patch
    } else {
        ApplyMode::Create
    }
}

} // verus!
