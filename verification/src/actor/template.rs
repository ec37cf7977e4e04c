//! Finding the place of a field in a function's input document: the path is
//! walked step by step from the root, the field specs of the steps are looked
//! up, and missing array items and object members are created on the way.
use vstd::prelude::*;

use super::input::{cursor_entries, cursor_steps, CursorEntry, CursorEntryView};
use super::json::{
    json_view, key_index, lemma_array_view, lemma_key_index, lemma_object_view, items_view,
    members_view, pad_to, with_key, JsonValue, JsonView,
};
use crate::sorted::{Duplicate, SortedMap};
use crate::text::{compare_text, decimal, signed_decimal, text_lt, write_decimal, write_signed, KeyCmp};
use crate::user_auth::{debug_text, to_debug_text};
use super::input::{child_path, parse_bool, parse_bool_text, parse_i64, parse_i64_text, snake_case, InputField};

verus! {

/// How a walk along a field path ends.
pub enum WalkEnd<S> {
    /// At a field with this spec.
    Found(S),
    /// An array step names a field without a spec.
    NoArrayField,
    /// An object step names a field without a spec.
    NoObjectField,
    /// An array step meets a value that is no array; the spec of the field.
    NotAnArray(S, nat),
    /// An object step meets a value that is no object; the spec of the field.
    NotAnObject(S, Seq<char>),
    /// An array step meets a null, or an index without a successor.
    Panics,
}

/// Walks the steps of a path from a value whose field has the spec `cur`:
/// the new value, and how the walk ends.  An array step pads the array with
/// nulls up to its index; an object step adds a null member for a missing
/// key, and a null becomes an object of that one member; an object step
/// with an empty member name stays where it is.
pub open spec fn walk<F: View, E: FieldEdit<F>>(
    doc: JsonView,
    steps: Seq<CursorEntryView>,
    cur: F::V,
    specs: Map<Seq<char>, F::V>,
    ev: E::EV,
) -> (JsonView, WalkEnd<F::V>, JsonView)
    decreases steps.len(),
{
    if steps.len() == 0 {
        (E::edited(ev, doc, cur), WalkEnd::Found(cur), doc)
    } else {
        let rest = steps.drop_first();
        match steps[0] {
            CursorEntryView::EnterArray { basename, index } => {
                if !specs.contains_key(basename) {
                    (doc, WalkEnd::NoArrayField, doc)
                } else {
                    let s = specs[basename];
                    match doc {
                        JsonView::Null => (doc, WalkEnd::Panics, doc),
                        JsonView::Array(items) => {
                            if index >= usize::MAX {
                                (doc, WalkEnd::Panics, doc)
                            } else {
                                let p = pad_to(items, index);
                                let (c, end, found) = walk::<F, E>(p[index as int], rest, s, specs, ev);
                                (JsonView::Array(p.update(index as int, c)), end, found)
                            }
                        },
                        _ => (doc, WalkEnd::NotAnArray(s, index), doc),
                    }
                }
            },
            CursorEntryView::EnterObject { basename, child } => {
                if child.len() == 0 {
                    walk::<F, E>(doc, rest, cur, specs, ev)
                } else if !specs.contains_key(basename) {
                    (doc, WalkEnd::NoObjectField, doc)
                } else {
                    let s = specs[basename];
                    match doc {
                        JsonView::Null => {
                            let (c, end, found) = walk::<F, E>(JsonView::Null, rest, s, specs, ev);
                            (JsonView::Object(seq![(child, c)]), end, found)
                        },
                        JsonView::Object(members) => {
                            let g = with_key(members, child);
                            let i = key_index(members, child);
                            let (c, end, found) = walk::<F, E>(g[i as int].1, rest, s, specs, ev);
                            (JsonView::Object(g.update(i as int, (child, c))), end, found)
                        },
                        _ => (doc, WalkEnd::NotAnObject(s, child), doc),
                    }
                }
            },
        }
    }
}

/// The walk of a field's path from the root field `/`, where it has a
/// spec, with the edit made at its end: the new document, how the walk ends,
/// and the value it reached.
pub open spec fn field_edit<F: View, E: FieldEdit<F>>(doc: JsonView, name: Seq<char>, specs: Map<Seq<char>, F::V>, ev: E::EV) -> (JsonView, Option<WalkEnd<F::V>>, JsonView) {
    if specs.contains_key("/"@) {
        let (d, end, found) = walk::<F, E>(doc, cursor_steps(name), specs["/"@], specs, ev);
        (d, Some(end), found)
    } else {
        (doc, None, doc)
    }
}

/// The walk of a field's path from the root field `/` that only makes room
/// for the field.
pub open spec fn field_walk<F: View>(doc: JsonView, name: Seq<char>, specs: Map<Seq<char>, F::V>) -> (JsonView, Option<WalkEnd<F::V>>) {
    let (d, end, found) = field_edit::<F, Locate>(doc, name, specs, ());
    (d, end)
}

/// What is done to the value a walk reaches, given the field's spec.
pub trait FieldEdit<F: View> {
    /// What the edit depends on.
    type EV;

    spec fn edit_view(&self) -> Self::EV;

    spec fn edited(ev: Self::EV, doc: JsonView, spec: F::V) -> JsonView;

    /// What the edit gives back besides the new value.
    type Out;

    spec fn produced(ev: Self::EV, doc: JsonView, spec: F::V, out: Self::Out) -> bool;

    fn edit(self, doc: JsonValue, spec: &F) -> (r: (JsonValue, Self::Out))
        ensures
            json_view(r.0) == Self::edited(self.edit_view(), json_view(doc), spec@),
            Self::produced(self.edit_view(), json_view(doc), spec@, r.1),
    ;
}

/// The edit that leaves the value reached as it is.
pub struct Locate;

impl<F: View> FieldEdit<F> for Locate {
    type EV = ();

    open spec fn edit_view(&self) -> () {
        ()
    }

    open spec fn edited(ev: (), doc: JsonView, spec: F::V) -> JsonView {
        doc
    }

    type Out = ();

    open spec fn produced(ev: (), doc: JsonView, spec: F::V, out: ()) -> bool {
        true
    }

    fn edit(self, doc: JsonValue, spec: &F) -> (r: (JsonValue, ())) {
        (doc, ())
    }
}

/// Whether a value is null, and its length where it is an array.
#[derive(Copy, Clone, Debug, PartialEq, Eq)]
pub struct Shape {
    pub is_null: bool,
    pub array_len: Option<usize>,
}

pub open spec fn shape_of(sh: Shape, v: JsonView) -> bool {
    &&& sh.is_null == (v is Null)
    &&& (sh.array_len is Some) == (v is Array)
    &&& v is Array ==> sh.array_len.unwrap() == v->Array_0.len()
}

fn shape(v: &JsonValue) -> (r: Shape)
    ensures
        shape_of(r, json_view(*v)),
{
    match v {
        JsonValue::Null => Shape { is_null: true, array_len: None },
        JsonValue::Array(items) => {
            proof {
                lemma_array_view(*items);
            }
            Shape { is_null: false, array_len: Some(items.len()) }
        },
        _ => Shape { is_null: false, array_len: None },
    }
}

/// Whether walking the steps from a value fails as indexing a null fails:
/// an array step, with a spec for its field, meets a null or an index
/// without a successor.
pub open spec fn walk_panics(doc: JsonView, steps: Seq<CursorEntryView>, keys: Set<Seq<char>>) -> bool
    decreases steps.len(),
{
    if steps.len() == 0 {
        false
    } else {
        let rest = steps.drop_first();
        match steps[0] {
            CursorEntryView::EnterArray { basename, index } => {
                if !keys.contains(basename) {
                    false
                } else {
                    match doc {
                        JsonView::Null => true,
                        JsonView::Array(items) => if index >= usize::MAX {
                            true
                        } else {
                            walk_panics(pad_to(items, index)[index as int], rest, keys)
                        },
                        _ => false,
                    }
                }
            },
            CursorEntryView::EnterObject { basename, child } => {
                if child.len() == 0 {
                    walk_panics(doc, rest, keys)
                } else if !keys.contains(basename) {
                    false
                } else {
                    match doc {
                        JsonView::Null => walk_panics(JsonView::Null, rest, keys),
                        JsonView::Object(members) => walk_panics(with_key(members, child)[key_index(members, child) as int].1, rest, keys),
                        _ => false,
                    }
                }
            },
        }
    }
}

/// A walk fails so whatever its edit and its starting spec.
pub proof fn lemma_walk_panics<F: View, E: FieldEdit<F>>(
    doc: JsonView,
    steps: Seq<CursorEntryView>,
    cur: F::V,
    specs: Map<Seq<char>, F::V>,
    ev: E::EV,
)
    ensures
        (walk::<F, E>(doc, steps, cur, specs, ev).1 is Panics) == walk_panics(doc, steps, specs.dom()),
    decreases steps.len(),
{
    if steps.len() > 0 {
        let rest = steps.drop_first();
        match steps[0] {
            CursorEntryView::EnterArray { basename, index } => {
                if specs.contains_key(basename) {
                    match doc {
                        JsonView::Array(items) => {
                            if index < usize::MAX {
                                lemma_walk_panics::<F, E>(pad_to(items, index)[index as int], rest, specs[basename], specs, ev);
                            }
                        },
                        _ => {},
                    }
                }
            },
            CursorEntryView::EnterObject { basename, child } => {
                if child.len() == 0 {
                    lemma_walk_panics::<F, E>(doc, rest, cur, specs, ev);
                } else if specs.contains_key(basename) {
                    match doc {
                        JsonView::Null => {
                            lemma_walk_panics::<F, E>(JsonView::Null, rest, specs[basename], specs, ev);
                        },
                        JsonView::Object(members) => {
                            lemma_walk_panics::<F, E>(
                                with_key(members, child)[key_index(members, child) as int].1,
                                rest,
                                specs[basename],
                                specs,
                                ev,
                            );
                        },
                        _ => {},
                    }
                }
            },
        }
    }
}

/// Every edit of a field fails as indexing a null fails exactly where the
/// plain walk to it does.
pub proof fn lemma_field_edit_panics<F: View, E: FieldEdit<F>>(doc: JsonView, name: Seq<char>, specs: Map<Seq<char>, F::V>, ev: E::EV)
    ensures
        (field_edit::<F, E>(doc, name, specs, ev).1 == Some(WalkEnd::<F::V>::Panics))
            == (field_walk::<F>(doc, name, specs).1 == Some(WalkEnd::<F::V>::Panics)),
{
    if specs.contains_key("/"@) {
        lemma_walk_panics::<F, E>(doc, cursor_steps(name), specs["/"@], specs, ev);
        lemma_walk_panics::<F, Locate>(doc, cursor_steps(name), specs["/"@], specs, ());
    }
}

/// Why a field could not be reached.
#[derive(Clone, Debug, PartialEq)]
pub enum FieldError<F> {
    /// There is no spec for the root field.
    NoRootField,
    /// An array step of the path names a field without a spec.
    NoArrayField { name: String },
    /// An object step of the path names a field without a spec.
    NoObjectField { name: String },
    /// A value on the path is indexed but is no array.
    NotAnArray { spec: F, index: usize, name: String },
    /// A value on the path has a member looked up but is no object.
    NotAnObject { spec: F, child: String, name: String },
}

/// How a lookup ended, as a walk does.
pub open spec fn field_end<F: View>(r: Result<F, FieldError<F>>) -> Option<WalkEnd<F::V>> {
    match r {
        Ok(f) => Some(WalkEnd::Found(f@)),
        Err(FieldError::NoRootField) => None,
        Err(FieldError::NoArrayField { .. }) => Some(WalkEnd::NoArrayField),
        Err(FieldError::NoObjectField { .. }) => Some(WalkEnd::NoObjectField),
        Err(FieldError::NotAnArray { spec, index, .. }) => Some(WalkEnd::NotAnArray(spec@, index as nat)),
        Err(FieldError::NotAnObject { spec, child, .. }) => Some(WalkEnd::NotAnObject(spec@, child@)),
    }
}

/// Every error but the missing root names the path looked up.
pub open spec fn names_path<F>(r: Result<F, FieldError<F>>, name: Seq<char>) -> bool {
    match r {
        Err(FieldError::NoArrayField { name: n }) => n@ == name,
        Err(FieldError::NoObjectField { name: n }) => n@ == name,
        Err(FieldError::NotAnArray { name: n, .. }) => n@ == name,
        Err(FieldError::NotAnObject { name: n, .. }) => n@ == name,
        _ => true,
    }
}

pub open spec fn steps_view(steps: Seq<CursorEntry>) -> Seq<CursorEntryView> {
    steps.map_values(|e: CursorEntry| e@)
}

#[verifier::rlimit(60)]
#[verifier::spinoff_prover]
fn walk_from<F: Duplicate, E: FieldEdit<F>>(
    doc: JsonValue,
    steps: &Vec<CursorEntry>,
    k: usize,
    cur: &F,
    specs: &SortedMap<String, F>,
    name: &str,
    e: E,
) -> (r: (JsonValue, Result<F, FieldError<F>>, Shape, Option<E::Out>))
    requires
        specs.wf(),
        k <= steps@.len(),
        !(walk::<F, E>(json_view(doc), steps_view(steps@).skip(k as int), cur@, specs@, e.edit_view()).1 is Panics),
    ensures
        json_view(r.0) == walk::<F, E>(json_view(doc), steps_view(steps@).skip(k as int), cur@, specs@, e.edit_view()).0,
        field_end(r.1) == Some(walk::<F, E>(json_view(doc), steps_view(steps@).skip(k as int), cur@, specs@, e.edit_view()).1),
        r.1 is Ok ==> shape_of(r.2, walk::<F, E>(json_view(doc), steps_view(steps@).skip(k as int), cur@, specs@, e.edit_view()).2),
        r.1 is Ok ==> r.3 is Some && E::produced(
            e.edit_view(),
            walk::<F, E>(json_view(doc), steps_view(steps@).skip(k as int), cur@, specs@, e.edit_view()).2,
            r.1->Ok_0@,
            r.3.unwrap(),
        ),
        names_path(r.1, name@),
    decreases steps@.len() - k,
{
    let ghost sv = steps_view(steps@).skip(k as int);
    let ghost d0 = doc;
    if k == steps.len() {
        let sh = shape(&doc);
        let (edited, out) = e.edit(doc, cur);
        return (edited, Ok(cur.duplicate()), sh, Some(out));
    }
    proof {
        assert(sv[0] == steps@[k as int]@);
        assert(sv.drop_first() =~= steps_view(steps@).skip(k + 1));
    }
    match &steps[k] {
        CursorEntry::EnterArray { basename, index } => {
            let index = *index;
            match specs.get(basename) {
                None => (doc, Err(FieldError::NoArrayField { name: String::from_str(name) }), Shape { is_null: false, array_len: None }, None),
                Some(s) => match doc {
                    JsonValue::Array(mut items) => {
                        proof {
                            lemma_array_view(items);
                        }
                        if index == usize::MAX {
                            // The walk would overflow the length here; the precondition rules it out.
                            return (JsonValue::Array(items), Err(FieldError::NoRootField), Shape { is_null: false, array_len: None }, None);
                        }
                        let ghost iv0 = items_view(items@);
                        let ghost len0 = items@.len();
                        while items.len() <= index
                            invariant
                                index < usize::MAX,
                                len0 <= items@.len(),
                                len0 <= index + 1 ==> items@.len() <= index + 1,
                                len0 > index ==> items@.len() == len0,
                                items_view(items@) =~= iv0 + Seq::new((items@.len() - len0) as nat, |i: int| JsonView::Null),
                            decreases index + 1 - items@.len(),
                        {
                            let ghost before = items@;
                            items.push(JsonValue::Null);
                            proof {
                                assert(json_view(JsonValue::Null) == JsonView::Null);
                                assert(items_view(items@) =~= items_view(before).push(JsonView::Null));
                            }
                        }
                        let ghost p = items_view(items@);
                        assert(p =~= pad_to(iv0, index as nat));
                        let c = items.remove(index);
                        assert(json_view(c) == p[index as int]);
                        let (c2, r, sh, out) = walk_from(c, steps, k + 1, s, specs, name, e);
                        items.insert(index, c2);
                        proof {
                            assert(items_view(items@) =~= p.update(index as int, json_view(c2)));
                            lemma_array_view(items);
                        }
                        (JsonValue::Array(items), r, sh, out)
                    },
                    // Indexing a null fails; the precondition rules it out.
                    JsonValue::Null => (JsonValue::Null, Err(FieldError::NoRootField), Shape { is_null: false, array_len: None }, None),
                    other => (other, Err(FieldError::NotAnArray { spec: s.duplicate(), index, name: String::from_str(name) }), Shape { is_null: false, array_len: None }, None),
                },
            }
        },
        CursorEntry::EnterObject { basename, child } => {
            if child.as_str().unicode_len() == 0 {
                return walk_from(doc, steps, k + 1, cur, specs, name, e);
            }
            match specs.get(basename) {
                None => (doc, Err(FieldError::NoObjectField { name: String::from_str(name) }), Shape { is_null: false, array_len: None }, None),
                Some(s) => match doc {
                    JsonValue::Null => {
                        let (c2, r, sh, out) = walk_from(JsonValue::Null, steps, k + 1, s, specs, name, e);
                        let mut members: Vec<(String, JsonValue)> = Vec::new();
                        members.push((child.clone(), c2));
                        proof {
                            lemma_object_view(members);
                            assert(members_view(members@) =~= seq![(child@, json_view(c2))]);
                        }
                        (JsonValue::Object(members), r, sh, out)
                    },
                    JsonValue::Object(mut members) => {
                        proof {
                            lemma_object_view(members);
                        }
                        let ghost mv0 = members_view(members@);
                        let m = members.len();
                        let mut j: usize = 0;
                        let mut found = false;
                        while j < m
                            invariant_except_break
                                !found,
                            invariant
                                m == members@.len(),
                                mv0 == members_view(members@),
                                j <= m,
                                forall|x: int| 0 <= x < j ==> text_lt(#[trigger] mv0[x].0, child@),
                            ensures
                                j <= m,
                                forall|x: int| 0 <= x < j ==> text_lt(#[trigger] mv0[x].0, child@),
                                j < m ==> !text_lt(mv0[j as int].0, child@),
                                found == (j < m && mv0[j as int].0 == child@),
                            decreases m - j,
                        {
                            match compare_text(members[j].0.as_str(), child.as_str()) {
                                KeyCmp::Less => {
                                    j = j + 1;
                                },
                                KeyCmp::Equal => {
                                    found = true;
                                    break;
                                },
                                KeyCmp::Greater => {
                                    proof {
                                        crate::text::lemma_text_lt_irreflexive(child@);
                                        if text_lt(mv0[j as int].0, child@) {
                                            crate::text::lemma_text_lt_transitive(mv0[j as int].0, child@, mv0[j as int].0);
                                            crate::text::lemma_text_lt_irreflexive(mv0[j as int].0);
                                        }
                                    }
                                    break;
                                },
                            }
                        }
                        proof {
                            lemma_key_index(mv0, child@, j as int);
                        }
                        if !found {
                            members.insert(j, (child.clone(), JsonValue::Null));
                        }
                        let ghost g = members_view(members@);
                        assert(g =~= with_key(mv0, child@));
                        let (key, c) = members.remove(j);
                        assert(json_view(c) == g[j as int].1 && key@ == child@);
                        let (c2, r, sh, out) = walk_from(c, steps, k + 1, s, specs, name, e);
                        members.insert(j, (key, c2));
                        proof {
                            assert(members_view(members@) =~= g.update(j as int, (child@, json_view(c2))));
                            lemma_object_view(members);
                        }
                        (JsonValue::Object(members), r, sh, out)
                    },
                    other => (other, Err(FieldError::NotAnObject { spec: s.duplicate(), child: child.clone(), name: String::from_str(name) }), Shape { is_null: false, array_len: None }, None),
                },
            }
        },
    }
}

/// Finds the place of a field in a document: walks its path from the root
/// field `/`, creating the array items and object members it passes that
/// are missing, and gives the spec of the field reached.
pub fn get_field<F: Duplicate>(specs: &SortedMap<String, F>, map: &mut JsonValue, name: &str) -> (r: Result<F, FieldError<F>>)
    requires
        specs.wf(),
        field_walk::<F>(json_view(*old(map)), name@, specs@).1 != Some(WalkEnd::<F::V>::Panics),
    ensures
        json_view(*final(map)) == field_walk::<F>(json_view(*old(map)), name@, specs@).0,
        field_end(r) == field_walk::<F>(json_view(*old(map)), name@, specs@).1,
        names_path(r, name@),
{
    let (r, sh, out) = edit_field(specs, map, name, Locate);
    r
}

/// Walks a field's path as `get_field` does and edits the value reached;
/// gives the field's spec and what the value was like.
fn edit_field<F: Duplicate, E: FieldEdit<F>>(specs: &SortedMap<String, F>, map: &mut JsonValue, name: &str, e: E) -> (r: (Result<F, FieldError<F>>, Shape, Option<E::Out>))
    requires
        specs.wf(),
        field_edit::<F, E>(json_view(*old(map)), name@, specs@, e.edit_view()).1 != Some(WalkEnd::<F::V>::Panics),
    ensures
        json_view(*final(map)) == field_edit::<F, E>(json_view(*old(map)), name@, specs@, e.edit_view()).0,
        field_end(r.0) == field_edit::<F, E>(json_view(*old(map)), name@, specs@, e.edit_view()).1,
        r.0 is Ok ==> shape_of(r.1, field_edit::<F, E>(json_view(*old(map)), name@, specs@, e.edit_view()).2),
        r.0 is Ok ==> r.2 is Some && E::produced(
            e.edit_view(),
            field_edit::<F, E>(json_view(*old(map)), name@, specs@, e.edit_view()).2,
            r.0->Ok_0@,
            r.2.unwrap(),
        ),
        names_path(r.0, name@),
{
    let root = String::from_str("/");
    match specs.get(&root) {
        None => (Err(FieldError::NoRootField), Shape { is_null: false, array_len: None }, None),
        Some(cur) => {
            let steps = cursor_entries(name);
            assert(steps_view(steps@).skip(0) =~= cursor_steps(name@));
            let mut doc = JsonValue::Null;
            std::mem::swap(&mut doc, map);
            let (d, r, sh, out) = walk_from(doc, &steps, 0, cur, specs, name, e);
            *map = d;
            (r, sh, out)
        },
    }
}

fn panics_from<F: View>(doc: &JsonValue, steps: &Vec<CursorEntry>, k: usize, specs: &SortedMap<String, F>) -> (r: bool)
    requires
        specs.wf(),
        k <= steps@.len(),
    ensures
        r == walk_panics(json_view(*doc), steps_view(steps@).skip(k as int), specs@.dom()),
    decreases steps@.len() - k,
{
    let ghost sv = steps_view(steps@).skip(k as int);
    if k == steps.len() {
        return false;
    }
    proof {
        assert(sv[0] == steps@[k as int]@);
        assert(sv.drop_first() =~= steps_view(steps@).skip(k + 1));
    }
    let null = JsonValue::Null;
    assert(json_view(null) == JsonView::Null);
    match &steps[k] {
        CursorEntry::EnterArray { basename, index } => {
            let index = *index;
            if specs.get(basename).is_none() {
                return false;
            }
            match doc {
                JsonValue::Null => true,
                JsonValue::Array(items) => {
                    proof {
                        lemma_array_view(*items);
                    }
                    if index == usize::MAX {
                        true
                    } else if index < items.len() {
                        assert(pad_to(items_view(items@), index as nat)[index as int] == json_view(items@[index as int]));
                        panics_from(&items[index], steps, k + 1, specs)
                    } else {
                        assert(pad_to(items_view(items@), index as nat)[index as int] == JsonView::Null);
                        panics_from(&null, steps, k + 1, specs)
                    }
                },
                _ => false,
            }
        },
        CursorEntry::EnterObject { basename, child } => {
            if child.as_str().unicode_len() == 0 {
                return panics_from(doc, steps, k + 1, specs);
            }
            if specs.get(basename).is_none() {
                return false;
            }
            match doc {
                JsonValue::Null => panics_from(&null, steps, k + 1, specs),
                JsonValue::Object(members) => {
                    proof {
                        lemma_object_view(*members);
                    }
                    let ghost mv0 = members_view(members@);
                    let m = members.len();
                    let mut j: usize = 0;
                    let mut found = false;
                    while j < m
                        invariant_except_break
                            !found,
                        invariant
                            m == members@.len(),
                            mv0 == members_view(members@),
                            j <= m,
                            forall|x: int| 0 <= x < j ==> text_lt(#[trigger] mv0[x].0, child@),
                        ensures
                            j <= m,
                            forall|x: int| 0 <= x < j ==> text_lt(#[trigger] mv0[x].0, child@),
                            j < m ==> !text_lt(mv0[j as int].0, child@),
                            found == (j < m && mv0[j as int].0 == child@),
                        decreases m - j,
                    {
                        match compare_text(members[j].0.as_str(), child.as_str()) {
                            KeyCmp::Less => {
                                j = j + 1;
                            },
                            KeyCmp::Equal => {
                                found = true;
                                break;
                            },
                            KeyCmp::Greater => {
                                proof {
                                    crate::text::lemma_text_lt_irreflexive(child@);
                                    if text_lt(mv0[j as int].0, child@) {
                                        crate::text::lemma_text_lt_transitive(mv0[j as int].0, child@, mv0[j as int].0);
                                        crate::text::lemma_text_lt_irreflexive(mv0[j as int].0);
                                    }
                                }
                                break;
                            },
                        }
                    }
                    proof {
                        lemma_key_index(mv0, child@, j as int);
                    }
                    if found {
                        assert(with_key(mv0, child@)[j as int].1 == json_view(members@[j as int].1));
                        panics_from(&members[j].1, steps, k + 1, specs)
                    } else {
                        assert(with_key(mv0, child@)[j as int].1 == JsonView::Null);
                        panics_from(&null, steps, k + 1, specs)
                    }
                },
                _ => false,
            }
        },
    }
}

/// Whether walking to the field at `name` fails as indexing a null fails:
/// the inputs that `get_field` and the other walks leave out.
pub fn field_walk_panics<F: View>(specs: &SortedMap<String, F>, map: &JsonValue, name: &str) -> (r: bool)
    requires
        specs.wf(),
    ensures
        r == (field_walk::<F>(json_view(*map), name@, specs@).1 == Some(WalkEnd::<F::V>::Panics)),
{
    let root = String::from_str("/");
    match specs.get(&root) {
        None => false,
        Some(cur) => {
            let steps = cursor_entries(name);
            assert(steps_view(steps@).skip(0) =~= cursor_steps(name@));
            proof {
                lemma_walk_panics::<F, Locate>(json_view(*map), cursor_steps(name@), specs@["/"@], specs@, ());
            }
            panics_from(map, &steps, 0, specs)
        },
    }
}

/// The kind of a field, with what filling in its default reads of it.
/// (Fractional numbers are not held here.)
#[derive(Debug)]
pub enum FieldKind {
    /// A field that holds no value.
    NoValue,
    Boolean { default: Option<bool> },
    Integer { default: Option<i64>, minimum: Option<i64>, maximum: Option<i64> },
    String { default: Option<String> },
    OneOfStrings { default: Option<String>, choices: Vec<String> },
    /// Whether the default is the current time.
    DateTime { default_now: bool },
    Ip,
    Uuid,
    /// The names of the object's members.
    Object { children: Vec<String> },
    /// The names of the members of each item.
    ObjectArray { children: Vec<String> },
}

pub enum FieldKindView {
    NoValue,
    Boolean { default: Option<bool> },
    Integer { default: Option<i64>, minimum: Option<i64>, maximum: Option<i64> },
    String { default: Option<Seq<char>> },
    OneOfStrings { default: Option<Seq<char>>, choices: Seq<Seq<char>> },
    DateTime { default_now: bool },
    Ip,
    Uuid,
    Object { children: Seq<Seq<char>> },
    ObjectArray { children: Seq<Seq<char>> },
}

pub open spec fn texts_view(v: Seq<String>) -> Seq<Seq<char>> {
    v.map_values(|s: String| s@)
}

impl View for FieldKind {
    type V = FieldKindView;

    open spec fn view(&self) -> FieldKindView {
        match self {
            FieldKind::NoValue => FieldKindView::NoValue,
            FieldKind::Boolean { default } => FieldKindView::Boolean { default: *default },
            FieldKind::Integer { default, minimum, maximum } => FieldKindView::Integer { default: *default, minimum: *minimum, maximum: *maximum },
            FieldKind::String { default } => FieldKindView::String {
                default: match default { Some(d) => Some(d@), None => None },
            },
            FieldKind::OneOfStrings { default, choices } => FieldKindView::OneOfStrings {
                default: match default { Some(d) => Some(d@), None => None },
                choices: texts_view(choices@),
            },
            FieldKind::DateTime { default_now } => FieldKindView::DateTime { default_now: *default_now },
            FieldKind::Ip => FieldKindView::Ip,
            FieldKind::Uuid => FieldKindView::Uuid,
            FieldKind::Object { children } => FieldKindView::Object { children: texts_view(children@) },
            FieldKind::ObjectArray { children } => FieldKindView::ObjectArray { children: texts_view(children@) },
        }
    }
}

/// What filling in a field's default does.
#[derive(Debug, PartialEq)]
pub enum DefaultAction {
    /// Put this value in the field.
    Put(JsonValue),
    /// Leave the field as it is.
    Keep,
    /// The field has no value and no default, and it is required.
    Missing,
    /// Put `init` in the field where given, then fill in the fields at these
    /// paths, as atoms or not.
    Descend { init: Option<JsonValue>, children: Vec<String>, is_atom: bool },
}

pub enum DefaultPlan {
    Put(JsonView),
    Keep,
    Missing,
    Descend { init: Option<JsonView>, children: Seq<Seq<char>>, is_atom: bool },
}

impl View for DefaultAction {
    type V = DefaultPlan;

    open spec fn view(&self) -> DefaultPlan {
        match self {
            DefaultAction::Put(v) => DefaultPlan::Put(json_view(*v)),
            DefaultAction::Keep => DefaultPlan::Keep,
            DefaultAction::Missing => DefaultPlan::Missing,
            DefaultAction::Descend { init, children, is_atom } => DefaultPlan::Descend {
                init: match init { Some(v) => Some(json_view(*v)), None => None },
                children: texts_view(children@),
                is_atom: *is_atom,
            },
        }
    }
}

/// The paths of named children of a field.
pub open spec fn member_paths(name: Seq<char>, children: Seq<Seq<char>>) -> Seq<Seq<char>> {
    Seq::new(children.len(), |i: int| name + children[i] + seq!['/'])
}

/// The paths of the first `n` items of a field.
pub open spec fn item_paths(name: Seq<char>, n: nat) -> Seq<Seq<char>> {
    Seq::new(n, |i: int| name + decimal(i as nat) + seq!['/'])
}

/// A field without a value and without a default: left alone where it is
/// optional, missing otherwise.
pub open spec fn absent(optional: bool) -> DefaultPlan {
    if optional {
        DefaultPlan::Keep
    } else {
        DefaultPlan::Missing
    }
}

/// Filling in the default of the field at `name`, of a kind, whose value is
/// null or not (and, where it is an array, of a length): a null field takes
/// the kind's default (the current time, `now`, for a time), or is absent; a
/// field of no value is set to null; an object is filled member by member,
/// an array of objects item by item where it is an atom, and like an object
/// otherwise.
pub open spec fn default_plan(
    kind: FieldKindView,
    name: Seq<char>,
    is_null: bool,
    array_len: Option<nat>,
    optional: bool,
    is_atom: bool,
    now: Seq<char>,
) -> DefaultPlan {
    match kind {
        FieldKindView::NoValue => DefaultPlan::Put(JsonView::Null),
        FieldKindView::Boolean { default } => if !is_null {
            DefaultPlan::Keep
        } else {
            match default {
                Some(b) => DefaultPlan::Put(JsonView::Bool(b)),
                None => absent(optional),
            }
        },
        FieldKindView::Integer { default, .. } => if !is_null {
            DefaultPlan::Keep
        } else {
            match default {
                Some(n) => DefaultPlan::Put(JsonView::Number(n)),
                None => absent(optional),
            }
        },
        FieldKindView::String { default } => if !is_null {
            DefaultPlan::Keep
        } else {
            match default {
                Some(t) => DefaultPlan::Put(JsonView::Text(t)),
                None => absent(optional),
            }
        },
        FieldKindView::OneOfStrings { default, .. } => if !is_null {
            DefaultPlan::Keep
        } else {
            match default {
                Some(t) => DefaultPlan::Put(JsonView::Text(t)),
                None => absent(optional),
            }
        },
        FieldKindView::DateTime { default_now } => if !is_null {
            DefaultPlan::Keep
        } else if default_now {
            DefaultPlan::Put(JsonView::Text(now))
        } else {
            absent(optional)
        },
        FieldKindView::Ip | FieldKindView::Uuid => if !is_null {
            DefaultPlan::Keep
        } else {
            absent(optional)
        },
        FieldKindView::Object { children } => DefaultPlan::Descend {
            init: if is_null { Some(JsonView::Object(Seq::empty())) } else { None },
            children: member_paths(name, children),
            is_atom: true,
        },
        FieldKindView::ObjectArray { children } => if is_atom {
            if is_null {
                DefaultPlan::Descend { init: Some(JsonView::Array(Seq::empty())), children: Seq::empty(), is_atom: false }
            } else {
                match array_len {
                    Some(n) => DefaultPlan::Descend { init: None, children: item_paths(name, n), is_atom: false },
                    None => DefaultPlan::Keep,
                }
            }
        } else {
            DefaultPlan::Descend {
                init: if is_null { Some(JsonView::Object(Seq::empty())) } else { None },
                children: member_paths(name, children),
                is_atom: true,
            }
        },
    }
}

fn absent_action(optional: bool) -> (r: DefaultAction)
    ensures
        r@ == absent(optional),
{
    if optional {
        DefaultAction::Keep
    } else {
        DefaultAction::Missing
    }
}

fn empty_object() -> (r: JsonValue)
    ensures
        json_view(r) == JsonView::Object(Seq::empty()),
{
    let members: Vec<(String, JsonValue)> = Vec::new();
    proof {
        lemma_object_view(members);
        assert(members_view(members@) =~= Seq::<(Seq<char>, JsonView)>::empty());
    }
    JsonValue::Object(members)
}

fn empty_array() -> (r: JsonValue)
    ensures
        json_view(r) == JsonView::Array(Seq::empty()),
{
    let items: Vec<JsonValue> = Vec::new();
    proof {
        lemma_array_view(items);
        assert(items_view(items@) =~= Seq::<JsonView>::empty());
    }
    JsonValue::Array(items)
}

fn member_path_list(name: &str, children: &Vec<String>) -> (r: Vec<String>)
    ensures
        texts_view(r@) == member_paths(name@, texts_view(children@)),
{
    let mut r: Vec<String> = Vec::new();
    let n = children.len();
    let mut i: usize = 0;
    while i < n
        invariant
            n == children@.len(),
            i <= n,
            texts_view(r@) =~= member_paths(name@, texts_view(children@)).take(i as int),
        decreases n - i,
    {
        let ghost before = r@;
        r.push(child_path(name, children[i].as_str()));
        assert(texts_view(r@) =~= texts_view(before).push(name@ + children@[i as int]@ + seq!['/']));
        i = i + 1;
    }
    assert(member_paths(name@, texts_view(children@)).take(n as int) =~= member_paths(name@, texts_view(children@)));
    r
}

fn item_path_list(name: &str, n: usize) -> (r: Vec<String>)
    ensures
        texts_view(r@) == item_paths(name@, n as nat),
{
    let mut r: Vec<String> = Vec::new();
    let mut i: usize = 0;
    while i < n
        invariant
            i <= n,
            texts_view(r@) =~= item_paths(name@, n as nat).take(i as int),
        decreases n - i,
    {
        let ghost before = r@;
        let mut segment = String::new();
        write_decimal(&mut segment, i as u128);
        r.push(child_path(name, segment.as_str()));
        assert(texts_view(r@) =~= texts_view(before).push(name@ + decimal(i as nat) + seq!['/']));
        i = i + 1;
    }
    assert(item_paths(name@, n as nat).take(n as int) =~= item_paths(name@, n as nat));
    r
}

/// Decides how the default of one field is filled in; `now` is the current
/// time in RFC 3339 form.
pub fn fill_default_step(
    kind: &FieldKind,
    name: &str,
    is_null: bool,
    array_len: Option<usize>,
    optional: bool,
    is_atom: bool,
    now: &str,
) -> (r: DefaultAction)
    ensures
        r@ == default_plan(
            kind@,
            name@,
            is_null,
            match array_len { Some(n) => Some(n as nat), None => None },
            optional,
            is_atom,
            now@,
        ),
{
    match kind {
        FieldKind::NoValue => DefaultAction::Put(JsonValue::Null),
        FieldKind::Boolean { default } => if !is_null {
            DefaultAction::Keep
        } else {
            match default {
                Some(b) => DefaultAction::Put(JsonValue::Bool(*b)),
                None => absent_action(optional),
            }
        },
        FieldKind::Integer { default, .. } => if !is_null {
            DefaultAction::Keep
        } else {
            match default {
                Some(n) => DefaultAction::Put(JsonValue::Number(*n)),
                None => absent_action(optional),
            }
        },
        FieldKind::String { default } => if !is_null {
            DefaultAction::Keep
        } else {
            match default {
                Some(t) => DefaultAction::Put(JsonValue::Text(t.clone())),
                None => absent_action(optional),
            }
        },
        FieldKind::OneOfStrings { default, .. } => if !is_null {
            DefaultAction::Keep
        } else {
            match default {
                Some(t) => DefaultAction::Put(JsonValue::Text(t.clone())),
                None => absent_action(optional),
            }
        },
        FieldKind::DateTime { default_now } => if !is_null {
            DefaultAction::Keep
        } else if *default_now {
            DefaultAction::Put(JsonValue::Text(String::from_str(now)))
        } else {
            absent_action(optional)
        },
        FieldKind::Ip | FieldKind::Uuid => if !is_null {
            DefaultAction::Keep
        } else {
            absent_action(optional)
        },
        FieldKind::Object { children } => {
            let init = if is_null { Some(empty_object()) } else { None };
            DefaultAction::Descend { init, children: member_path_list(name, children), is_atom: true }
        },
        FieldKind::ObjectArray { children } => if is_atom {
            if is_null {
                let none: Vec<String> = Vec::new();
                assert(texts_view(none@) =~= Seq::<Seq<char>>::empty());
                DefaultAction::Descend { init: Some(empty_array()), children: none, is_atom: false }
            } else {
                match array_len {
                    Some(n) => DefaultAction::Descend { init: None, children: item_path_list(name, n), is_atom: false },
                    None => DefaultAction::Keep,
                }
            }
        } else {
            let init = if is_null { Some(empty_object()) } else { None };
            DefaultAction::Descend { init, children: member_path_list(name, children), is_atom: true }
        },
    }
}

fn copy_texts(v: &Vec<String>) -> (r: Vec<String>)
    ensures
        r@ == v@,
{
    let mut r: Vec<String> = Vec::new();
    let n = v.len();
    let mut i: usize = 0;
    while i < n
        invariant
            n == v@.len(),
            i <= n,
            r@ == v@.take(i as int),
        decreases n - i,
    {
        r.push(v[i].clone());
        assert(r@ =~= v@.take(i + 1));
        i = i + 1;
    }
    assert(v@.take(n as int) =~= v@);
    r
}

impl FieldKind {
    /// A copy of the kind.
    pub fn copy(&self) -> (r: FieldKind)
        ensures
            r@ == self@,
    {
        match self {
            FieldKind::NoValue => FieldKind::NoValue,
            FieldKind::Boolean { default } => FieldKind::Boolean { default: *default },
            FieldKind::Integer { default, minimum, maximum } => FieldKind::Integer { default: *default, minimum: *minimum, maximum: *maximum },
            FieldKind::String { default } => FieldKind::String { default: match default { Some(d) => Some(d.clone()), None => None } },
            FieldKind::OneOfStrings { default, choices } => FieldKind::OneOfStrings {
                default: match default { Some(d) => Some(d.clone()), None => None },
                choices: copy_texts(choices),
            },
            FieldKind::DateTime { default_now } => FieldKind::DateTime { default_now: *default_now },
            FieldKind::Ip => FieldKind::Ip,
            FieldKind::Uuid => FieldKind::Uuid,
            FieldKind::Object { children } => FieldKind::Object { children: copy_texts(children) },
            FieldKind::ObjectArray { children } => FieldKind::ObjectArray { children: copy_texts(children) },
        }
    }
}

/// A field's spec: its kind, and whether it may be left without a value.
#[derive(Debug)]
pub struct FieldSpec {
    pub kind: FieldKind,
    pub optional: bool,
}

pub struct FieldSpecView {
    pub kind: FieldKindView,
    pub optional: bool,
}

impl View for FieldSpec {
    type V = FieldSpecView;

    open spec fn view(&self) -> FieldSpecView {
        FieldSpecView { kind: self.kind@, optional: self.optional }
    }
}

impl Duplicate for FieldSpec {
    fn duplicate(&self) -> (r: FieldSpec) {
        FieldSpec { kind: self.kind.copy(), optional: self.optional }
    }
}

/// The shape of a value as the default plan reads it.
pub open spec fn null_of(v: JsonView) -> bool {
    v is Null
}

pub open spec fn array_len_of(v: JsonView) -> Option<nat> {
    match v {
        JsonView::Array(items) => Some(items.len()),
        _ => None,
    }
}

/// The default plan of a field reached by a walk, whose value is `doc`.
pub open spec fn plan_at(doc: JsonView, spec: FieldSpecView, name: Seq<char>, optional: bool, is_atom: bool, now: Seq<char>) -> DefaultPlan {
    default_plan(spec.kind, name, null_of(doc), array_len_of(doc), optional || spec.optional, is_atom, now)
}

/// The value a plan leaves in the field.
pub open spec fn planned_value(plan: DefaultPlan, doc: JsonView) -> JsonView {
    match plan {
        DefaultPlan::Put(v) => v,
        DefaultPlan::Descend { init: Some(v), .. } => v,
        _ => doc,
    }
}

/// Filling in the default of one field: the plan's value is written there.
pub struct FillEdit {
    pub name: String,
    pub optional: bool,
    pub is_atom: bool,
    pub now: String,
}

/// What filling in one default depends on.
pub struct FillEditView {
    pub name: Seq<char>,
    pub optional: bool,
    pub is_atom: bool,
    pub now: Seq<char>,
}

impl FieldEdit<FieldSpec> for FillEdit {
    type EV = FillEditView;

    open spec fn edit_view(&self) -> FillEditView {
        FillEditView { name: self.name@, optional: self.optional, is_atom: self.is_atom, now: self.now@ }
    }

    open spec fn edited(ev: FillEditView, doc: JsonView, spec: FieldSpecView) -> JsonView {
        planned_value(plan_at(doc, spec, ev.name, ev.optional, ev.is_atom, ev.now), doc)
    }

    type Out = ();

    open spec fn produced(ev: FillEditView, doc: JsonView, spec: FieldSpecView, out: ()) -> bool {
        true
    }

    fn edit(self, doc: JsonValue, spec: &FieldSpec) -> (r: (JsonValue, ())) {
        let sh = shape(&doc);
        let action = fill_default_step(
            &spec.kind,
            self.name.as_str(),
            sh.is_null,
            sh.array_len,
            self.optional || spec.optional,
            self.is_atom,
            self.now.as_str(),
        );
        match action {
            DefaultAction::Put(v) => (v, ()),
            DefaultAction::Descend { init: Some(v), .. } => (v, ()),
            _ => (doc, ()),
        }
    }
}

/// A field whose default is still to be filled in, with how.
#[derive(Clone, Debug, PartialEq, Eq)]
pub struct FillTask {
    pub name: String,
    pub optional: bool,
    pub is_atom: bool,
}

pub open spec fn tasks_view(v: Seq<FillTask>) -> Seq<(Seq<char>, bool, bool)> {
    v.map_values(|t: FillTask| (t.name@, t.optional, t.is_atom))
}

/// Why a default could not be filled in.
#[derive(Debug)]
pub enum FillError {
    /// The field could not be reached.
    Field(FieldError<FieldSpec>),
    /// The field has no value and no default, and it is required.
    Missing { spec: FieldSpec, name: String },
}

/// Fills in the default of the field at `name`: the field is reached as
/// `get_field` reaches it, and the plan for it is carried out there.  The
/// fields to fill in next are given back in order, each with whether it may
/// be left without a value (this field's own say included) and whether it
/// is an atom.
pub fn fill_default_field(
    specs: &SortedMap<String, FieldSpec>,
    map: &mut JsonValue,
    name: &str,
    optional: bool,
    is_atom: bool,
    now: &str,
) -> (r: Result<Vec<FillTask>, FillError>)
    requires
        specs.wf(),
        field_walk::<FieldSpec>(json_view(*old(map)), name@, specs@).1 != Some(WalkEnd::<FieldSpecView>::Panics),
    ensures
        ({
            let (d, end, found) = field_edit::<FieldSpec, FillEdit>(
                json_view(*old(map)),
                name@,
                specs@,
                FillEditView { name: name@, optional, is_atom, now: now@ },
            );
            &&& json_view(*final(map)) == d
            &&& match end {
                Some(WalkEnd::Found(s)) => match plan_at(found, s, name@, optional, is_atom, now@) {
                    DefaultPlan::Missing => (r matches Err(FillError::Missing { spec, name: n }) && spec@ == s && n@ == name@),
                    DefaultPlan::Descend { children, is_atom: a, .. } => r is Ok && tasks_view(r.unwrap()@)
                        == children.map_values(|c: Seq<char>| (c, optional || s.optional, a)),
                    _ => r is Ok && r.unwrap()@.len() == 0,
                },
                _ => (r matches Err(FillError::Field(e)) && field_end(Err(e)) == end && names_path(Err::<FieldSpec, FieldError<FieldSpec>>(e), name@)),
            }
        }),
{
    proof {
        lemma_field_edit_panics::<FieldSpec, FillEdit>(
            json_view(*old(map)),
            name@,
            specs@,
            FillEditView { name: name@, optional, is_atom, now: now@ },
        );
    }
    let e = FillEdit { name: String::from_str(name), optional, is_atom, now: String::from_str(now) };
    let (r, sh, out) = edit_field(specs, map, name, e);
    match r {
        Err(err) => Err(FillError::Field(err)),
        Ok(spec) => {
            let opt = optional || spec.optional;
            let action = fill_default_step(&spec.kind, name, sh.is_null, sh.array_len, opt, is_atom, now);
            match action {
                DefaultAction::Missing => Err(FillError::Missing { spec, name: String::from_str(name) }),
                DefaultAction::Descend { children, is_atom: a, .. } => {
                    let ghost cv = texts_view(children@);
                    let mut tasks: Vec<FillTask> = Vec::new();
                    let n = children.len();
                    let mut i: usize = 0;
                    while i < n
                        invariant
                            n == children@.len(),
                            cv == texts_view(children@),
                            i <= n,
                            tasks_view(tasks@) =~= cv.map_values(|c: Seq<char>| (c, opt, a)).take(i as int),
                        decreases n - i,
                    {
                        let ghost before = tasks@;
                        tasks.push(FillTask { name: children[i].clone(), optional: opt, is_atom: a });
                        assert(tasks_view(tasks@) =~= tasks_view(before).push((cv[i as int], opt, a)));
                        i = i + 1;
                    }
                    assert(cv.map_values(|c: Seq<char>| (c, opt, a)).take(n as int) =~= cv.map_values(|c: Seq<char>| (c, opt, a)));
                    Ok(tasks)
                },
                _ => Ok(Vec::new()),
            }
        },
    }
}

/// A text is a date and time that `chrono::DateTime<Utc>` reads.
pub uninterp spec fn date_time_text(s: Seq<char>) -> bool;

/// Whether a text reads as a date and time (`str::parse` into
/// `chrono::DateTime<Utc>`).
#[verifier::external_body]
fn parses_as_date_time(s: &str) -> (r: bool)
    ensures
        r == date_time_text(s@),
{
    s.parse::<chrono::DateTime<chrono::Utc>>().is_ok()
}

/// A text is a UUID that `uuid::Uuid` reads.
pub uninterp spec fn uuid_text(s: Seq<char>) -> bool;

/// Whether a text reads as a UUID (`uuid::Uuid::parse_str`).
#[verifier::external_body]
fn parses_as_uuid(s: &str) -> (r: bool)
    ensures
        r == uuid_text(s@),
{
    uuid::Uuid::parse_str(s).is_ok()
}

/// Whether a value passes the format check of its field's kind: a date and
/// time or a UUID must read as one; every other value passes.
pub open spec fn text_check(kind: FieldKindView, value: JsonView) -> bool {
    match (kind, value) {
        (FieldKindView::DateTime { .. }, JsonView::Text(t)) => date_time_text(t),
        (FieldKindView::Uuid, JsonView::Text(t)) => uuid_text(t),
        _ => true,
    }
}

/// What storing an input value in a field comes to.
pub enum UpdatePlan {
    /// The field is set to null.
    Clear,
    /// The value is written into the field.
    Put,
    /// The value is not of the field's type.
    Mismatch,
    /// The integer is below the minimum.
    Below(i64, i64),
    /// The integer is above the maximum.
    Above(i64, i64),
    /// The text is not one of the choices.
    NotAChoice(Seq<char>),
    /// The text does not read as the kind's format.
    Invalid(Seq<char>),
    /// The text names a stored object, to be read and stored instead.
    Resolve(Seq<char>),
    /// The text is to be checked as an address, then written.
    CheckAddress(Seq<char>),
    /// These values are to be stored at these paths, in order.
    Updates(Seq<(Seq<char>, JsonView)>),
}

/// The paths and values of an object input's members.
pub open spec fn member_updates(name: Seq<char>, members: Seq<(Seq<char>, JsonView)>) -> Seq<(Seq<char>, JsonView)> {
    Seq::new(members.len(), |i: int| (name + snake_case(members[i].0) + seq!['/'], members[i].1))
}

/// The paths and values of an array input's items.
pub open spec fn item_updates(name: Seq<char>, items: Seq<JsonView>) -> Seq<(Seq<char>, JsonView)> {
    Seq::new(items.len(), |i: int| (name + decimal(i as nat) + seq!['/'], items[i]))
}

/// How an input value is stored in the field at `name`, by the field's
/// kind; `valid` is whether a text passes the kind's format check.
pub open spec fn update_plan(kind: FieldKindView, name: Seq<char>, value: JsonView, valid: bool) -> UpdatePlan {
    match kind {
        FieldKindView::NoValue => UpdatePlan::Clear,
        FieldKindView::Boolean { .. } => match value {
            JsonView::Bool(_) => UpdatePlan::Put,
            _ => UpdatePlan::Mismatch,
        },
        FieldKindView::Integer { minimum, maximum, .. } => match value {
            JsonView::Number(n) => if minimum is Some && n < minimum.unwrap() {
                UpdatePlan::Below(n, minimum.unwrap())
            } else if maximum is Some && n > maximum.unwrap() {
                UpdatePlan::Above(n, maximum.unwrap())
            } else {
                UpdatePlan::Put
            },
            _ => UpdatePlan::Mismatch,
        },
        FieldKindView::String { .. } => match value {
            JsonView::Text(_) => UpdatePlan::Put,
            _ => UpdatePlan::Mismatch,
        },
        FieldKindView::OneOfStrings { choices, .. } => match value {
            JsonView::Text(t) => if choices.contains(t) {
                UpdatePlan::Put
            } else {
                UpdatePlan::NotAChoice(t)
            },
            _ => UpdatePlan::Mismatch,
        },
        FieldKindView::DateTime { .. } | FieldKindView::Uuid => match value {
            JsonView::Text(t) => if valid {
                UpdatePlan::Put
            } else {
                UpdatePlan::Invalid(t)
            },
            _ => UpdatePlan::Mismatch,
        },
        FieldKindView::Ip => match value {
            JsonView::Text(t) => UpdatePlan::CheckAddress(t),
            _ => UpdatePlan::Mismatch,
        },
        FieldKindView::Object { .. } => match value {
            JsonView::Text(t) => UpdatePlan::Resolve(t),
            JsonView::Object(members) => UpdatePlan::Updates(member_updates(name, members)),
            _ => UpdatePlan::Mismatch,
        },
        FieldKindView::ObjectArray { .. } => match value {
            JsonView::Array(items) => UpdatePlan::Updates(item_updates(name, items)),
            _ => UpdatePlan::Mismatch,
        },
    }
}

/// What is left to do after a value was stored.
#[derive(Debug)]
pub enum UpdateStep {
    /// Nothing: the value is stored.
    Done,
    /// Store these values at these paths, in order.
    Updates(Vec<(String, JsonValue)>),
    /// Read the stored object named `reference` and store it at `name`.
    Resolve { name: String, reference: String },
    /// Check that `text` is an IP address, then store it at `name`.
    CheckAddress { name: String, text: String },
}

/// Why an input value could not be stored.
#[derive(Debug)]
pub enum UpdateError {
    /// The field could not be reached.
    Field(FieldError<FieldSpec>),
    /// The value is not of the field's type.
    Mismatch { spec: FieldSpec, value: JsonValue, name: String },
    /// The integer is out of the field's bounds.
    Bound(BoundError),
    /// The text is not one of the field's choices.
    NotAChoice { value: String, name: String },
    /// The text does not read as the field's format.
    Invalid { spec: FieldSpec, value: String, name: String },
    /// The text does not read as a value of the field's type.
    NotParsed { value: String, name: String },
}

pub open spec fn updates_view(v: Seq<(String, JsonValue)>) -> Seq<(Seq<char>, JsonView)> {
    v.map_values(|p: (String, JsonValue)| (p.0@, json_view(p.1)))
}

/// The result that stands for a plan.
pub open spec fn update_result(r: Result<UpdateStep, UpdateError>, plan: UpdatePlan, name: Seq<char>, spec: FieldSpecView, value: JsonView) -> bool {
    match plan {
        UpdatePlan::Clear | UpdatePlan::Put => (r matches Ok(UpdateStep::Done)),
        UpdatePlan::Mismatch => (r matches Err(UpdateError::Mismatch { spec: s, value: v, name: n })
            && s@ == spec && json_view(v) == value && n@ == name),
        UpdatePlan::Below(v, m) => (r matches Err(UpdateError::Bound(BoundError::BelowMinimum { value: a, minimum: b, name: n }))
            && a == v && b == m && n@ == name),
        UpdatePlan::Above(v, m) => (r matches Err(UpdateError::Bound(BoundError::AboveMaximum { value: a, maximum: b, name: n }))
            && a == v && b == m && n@ == name),
        UpdatePlan::NotAChoice(t) => (r matches Err(UpdateError::NotAChoice { value: v, name: n }) && v@ == t && n@ == name),
        UpdatePlan::Invalid(t) => (r matches Err(UpdateError::Invalid { spec: s, value: v, name: n })
            && s@ == spec && v@ == t && n@ == name),
        UpdatePlan::Resolve(t) => (r matches Ok(UpdateStep::Resolve { name: n, reference: v }) && n@ == name && v@ == t),
        UpdatePlan::CheckAddress(t) => (r matches Ok(UpdateStep::CheckAddress { name: n, text: v }) && n@ == name && v@ == t),
        UpdatePlan::Updates(u) => (r matches Ok(UpdateStep::Updates(v)) && updates_view(v@) == u),
    }
}

fn format_valid(kind: &FieldKind, value: &JsonValue) -> (r: bool)
    ensures
        r == text_check(kind@, json_view(*value)),
{
    match (kind, value) {
        (FieldKind::DateTime { .. }, JsonValue::Text(t)) => parses_as_date_time(t.as_str()),
        (FieldKind::Uuid, JsonValue::Text(t)) => parses_as_uuid(t.as_str()),
        _ => true,
    }
}

fn contains_text(choices: &Vec<String>, t: &str) -> (r: bool)
    ensures
        r == texts_view(choices@).contains(t@),
{
    let n = choices.len();
    let mut i: usize = 0;
    while i < n
        invariant
            n == choices@.len(),
            i <= n,
            forall|j: int| 0 <= j < i ==> choices@[j]@ != t@,
        decreases n - i,
    {
        match compare_text(choices[i].as_str(), t) {
            KeyCmp::Equal => {
                assert(texts_view(choices@)[i as int] == t@);
                return true;
            },
            _ => {},
        }
        i = i + 1;
    }
    proof {
        if texts_view(choices@).contains(t@) {
            let j = choose|j: int| 0 <= j < texts_view(choices@).len() && texts_view(choices@)[j] == t@;
            assert(choices@[j]@ == t@);
        }
    }
    false
}

/// Decides what storing an input value in a field with this spec comes to,
/// given whether a text passes the kind's format check: the values of an
/// object's members or an array's items are handed on with their paths, a
/// text for an object is a name to look up, and the rest is checked.
pub fn update_action(spec: &FieldSpec, name: &str, value: JsonValue, valid: bool) -> (r: Result<UpdateStep, UpdateError>)
    ensures
        update_result(r, update_plan(spec.kind@, name@, json_view(value), valid), name@, spec@, json_view(value)),
{
    let ghost vv = json_view(value);
    match &spec.kind {
        FieldKind::NoValue => Ok(UpdateStep::Done),
        FieldKind::Boolean { .. } => match value {
            JsonValue::Bool(_) => Ok(UpdateStep::Done),
            other => Err(UpdateError::Mismatch { spec: spec.duplicate(), value: other, name: String::from_str(name) }),
        },
        FieldKind::Integer { minimum, maximum, .. } => match value {
            JsonValue::Number(n) => match check_integer_bounds(name, n, *minimum, *maximum) {
                Ok(()) => Ok(UpdateStep::Done),
                Err(e) => Err(UpdateError::Bound(e)),
            },
            other => Err(UpdateError::Mismatch { spec: spec.duplicate(), value: other, name: String::from_str(name) }),
        },
        FieldKind::String { .. } => match value {
            JsonValue::Text(_) => Ok(UpdateStep::Done),
            other => Err(UpdateError::Mismatch { spec: spec.duplicate(), value: other, name: String::from_str(name) }),
        },
        FieldKind::OneOfStrings { choices, .. } => match value {
            JsonValue::Text(t) => if contains_text(choices, t.as_str()) {
                Ok(UpdateStep::Done)
            } else {
                Err(UpdateError::NotAChoice { value: t, name: String::from_str(name) })
            },
            other => Err(UpdateError::Mismatch { spec: spec.duplicate(), value: other, name: String::from_str(name) }),
        },
        FieldKind::DateTime { .. } | FieldKind::Uuid => match value {
            JsonValue::Text(t) => if valid {
                Ok(UpdateStep::Done)
            } else {
                Err(UpdateError::Invalid { spec: spec.duplicate(), value: t, name: String::from_str(name) })
            },
            other => Err(UpdateError::Mismatch { spec: spec.duplicate(), value: other, name: String::from_str(name) }),
        },
        FieldKind::Ip => match value {
            JsonValue::Text(t) => Ok(UpdateStep::CheckAddress { name: String::from_str(name), text: t }),
            other => Err(UpdateError::Mismatch { spec: spec.duplicate(), value: other, name: String::from_str(name) }),
        },
        FieldKind::Object { .. } => match value {
            JsonValue::Text(t) => Ok(UpdateStep::Resolve { name: String::from_str(name), reference: t }),
            JsonValue::Object(mut members) => {
                proof {
                    lemma_object_view(members);
                }
                let ghost mv = members@;
                let ghost target = member_updates(name@, members_view(mv));
                let mut out: Vec<(String, JsonValue)> = Vec::new();
                let n = members.len();
                let mut i: usize = 0;
                while i < n
                    invariant
                        n == mv.len(),
                        i <= n,
                        members@ == mv.skip(i as int),
                        target == member_updates(name@, members_view(mv)),
                        updates_view(out@) =~= target.take(i as int),
                    decreases n - i,
                {
                    let ghost before = out@;
                    let (k, v) = members.remove(0);
                    assert(members@ =~= mv.skip(i + 1));
                    assert((k, v) == mv[i as int]);
                    let f = InputField::sub_object(name, k.as_str(), v);
                    out.push((f.name, f.value));
                    assert(updates_view(out@) =~= updates_view(before).push(target[i as int]));
                    i = i + 1;
                }
                assert(target.take(n as int) =~= target);
                Ok(UpdateStep::Updates(out))
            },
            other => Err(UpdateError::Mismatch { spec: spec.duplicate(), value: other, name: String::from_str(name) }),
        },
        FieldKind::ObjectArray { .. } => match value {
            JsonValue::Array(mut items) => {
                proof {
                    lemma_array_view(items);
                }
                let ghost iv = items@;
                let ghost target = item_updates(name@, items_view(iv));
                let mut out: Vec<(String, JsonValue)> = Vec::new();
                let n = items.len();
                let mut i: usize = 0;
                while i < n
                    invariant
                        n == iv.len(),
                        i <= n,
                        items@ == iv.skip(i as int),
                        target == item_updates(name@, items_view(iv)),
                        updates_view(out@) =~= target.take(i as int),
                    decreases n - i,
                {
                    let ghost before = out@;
                    let v = items.remove(0);
                    assert(items@ =~= iv.skip(i + 1));
                    assert(v == iv[i as int]);
                    let f = InputField::sub_array(name, i, v);
                    out.push((f.name, f.value));
                    assert(updates_view(out@) =~= updates_view(before).push(target[i as int]));
                    i = i + 1;
                }
                assert(target.take(n as int) =~= target);
                Ok(UpdateStep::Updates(out))
            },
            other => Err(UpdateError::Mismatch { spec: spec.duplicate(), value: other, name: String::from_str(name) }),
        },
    }
}

/// What storing a value writes into the field itself: null for a field of
/// no value, the value where it is put, and nothing otherwise.
pub open spec fn update_written(plan: UpdatePlan, doc: JsonView, value: JsonView) -> JsonView {
    match plan {
        UpdatePlan::Clear => JsonView::Null,
        UpdatePlan::Put => value,
        _ => doc,
    }
}

/// Storing an input value in the field reached.
pub struct UpdateEdit {
    pub name: String,
    pub value: JsonValue,
}

impl FieldEdit<FieldSpec> for UpdateEdit {
    type EV = (Seq<char>, JsonView);

    open spec fn edit_view(&self) -> (Seq<char>, JsonView) {
        (self.name@, json_view(self.value))
    }

    open spec fn edited(ev: (Seq<char>, JsonView), doc: JsonView, spec: FieldSpecView) -> JsonView {
        update_written(update_plan(spec.kind, ev.0, ev.1, text_check(spec.kind, ev.1)), doc, ev.1)
    }

    type Out = Result<UpdateStep, UpdateError>;

    open spec fn produced(ev: (Seq<char>, JsonView), doc: JsonView, spec: FieldSpecView, out: Result<UpdateStep, UpdateError>) -> bool {
        update_result(out, update_plan(spec.kind, ev.0, ev.1, text_check(spec.kind, ev.1)), ev.0, spec, ev.1)
    }

    fn edit(self, doc: JsonValue, spec: &FieldSpec) -> (r: (JsonValue, Result<UpdateStep, UpdateError>)) {
        let valid = format_valid(&spec.kind, &self.value);
        let ghost plan = update_plan(spec.kind@, self.name@, json_view(self.value), valid);
        let writes = match (&spec.kind, &self.value) {
            (FieldKind::NoValue, _) => 1u8,
            (FieldKind::Boolean { .. }, JsonValue::Bool(_)) => 2u8,
            (FieldKind::Integer { minimum, maximum, .. }, JsonValue::Number(n)) => {
                let below = match minimum {
                    Some(m) => *n < *m,
                    None => false,
                };
                let above = match maximum {
                    Some(x) => *n > *x,
                    None => false,
                };
                if below || above {
                    0u8
                } else {
                    2u8
                }
            },
            (FieldKind::String { .. }, JsonValue::Text(_)) => 2u8,
            (FieldKind::OneOfStrings { choices, .. }, JsonValue::Text(t)) => if contains_text(choices, t.as_str()) {
                2u8
            } else {
                0u8
            },
            (FieldKind::DateTime { .. }, JsonValue::Text(_)) | (FieldKind::Uuid, JsonValue::Text(_)) => if valid {
                2u8
            } else {
                0u8
            },
            _ => 0u8,
        };
        assert(writes == 1u8 <==> plan is Clear);
        assert(writes == 2u8 <==> plan is Put);
        if writes == 1u8 {
            (JsonValue::Null, Ok(UpdateStep::Done))
        } else if writes == 2u8 {
            (self.value, Ok(UpdateStep::Done))
        } else {
            let r = update_action(spec, self.name.as_str(), self.value, valid);
            (doc, r)
        }
    }
}

/// Stores an input value in the field at `name`: the field is reached as
/// `get_field` reaches it, the value is checked against the field's kind
/// and written there, or what is left to do is given back: the values of an
/// object's members or an array's items with their paths, a stored object to
/// read, or an address to check.
pub fn update_field_value(specs: &SortedMap<String, FieldSpec>, map: &mut JsonValue, name: &str, value: JsonValue) -> (r: Result<UpdateStep, UpdateError>)
    requires
        specs.wf(),
        field_walk::<FieldSpec>(json_view(*old(map)), name@, specs@).1 != Some(WalkEnd::<FieldSpecView>::Panics),
    ensures
        ({
            let (d, end, found) = field_edit::<FieldSpec, UpdateEdit>(json_view(*old(map)), name@, specs@, (name@, json_view(value)));
            &&& json_view(*final(map)) == d
            &&& match end {
                Some(WalkEnd::Found(s)) => update_result(
                    r,
                    update_plan(s.kind, name@, json_view(value), text_check(s.kind, json_view(value))),
                    name@,
                    s,
                    json_view(value),
                ),
                _ => (r matches Err(UpdateError::Field(e)) && field_end(Err(e)) == end && names_path(Err::<FieldSpec, FieldError<FieldSpec>>(e), name@)),
            }
        }),
{
    proof {
        lemma_field_edit_panics::<FieldSpec, UpdateEdit>(json_view(*old(map)), name@, specs@, (name@, json_view(value)));
    }
    let e = UpdateEdit { name: String::from_str(name), value };
    let (r, sh, out) = edit_field(specs, map, name, e);
    match r {
        Err(err) => Err(UpdateError::Field(err)),
        Ok(_) => match out {
            Some(o) => o,
            None => Ok(UpdateStep::Done),
        },
    }
}

/// The value an input text stands for in a field of a kind: a boolean or
/// an integer as read from the text (none where it does not read), and the
/// text itself for every other kind.
pub open spec fn string_value(kind: FieldKindView, text: Seq<char>) -> Option<JsonView> {
    match kind {
        FieldKindView::Boolean { .. } => match parse_bool(text) {
            Some(b) => Some(JsonView::Bool(b)),
            None => None,
        },
        FieldKindView::Integer { .. } => match parse_i64(text) {
            Some(v) => Some(JsonView::Number(v as i64)),
            None => None,
        },
        _ => Some(JsonView::Text(text)),
    }
}

/// Storing an input text in the field reached.
pub struct StringEdit {
    pub name: String,
    pub text: String,
}

impl FieldEdit<FieldSpec> for StringEdit {
    type EV = (Seq<char>, Seq<char>);

    open spec fn edit_view(&self) -> (Seq<char>, Seq<char>) {
        (self.name@, self.text@)
    }

    open spec fn edited(ev: (Seq<char>, Seq<char>), doc: JsonView, spec: FieldSpecView) -> JsonView {
        match string_value(spec.kind, ev.1) {
            Some(v) => update_written(update_plan(spec.kind, ev.0, v, text_check(spec.kind, v)), doc, v),
            None => doc,
        }
    }

    type Out = Result<UpdateStep, UpdateError>;

    open spec fn produced(ev: (Seq<char>, Seq<char>), doc: JsonView, spec: FieldSpecView, out: Result<UpdateStep, UpdateError>) -> bool {
        match string_value(spec.kind, ev.1) {
            Some(v) => update_result(out, update_plan(spec.kind, ev.0, v, text_check(spec.kind, v)), ev.0, spec, v),
            None => (out matches Err(UpdateError::NotParsed { value: t, name: n }) && t@ == ev.1 && n@ == ev.0),
        }
    }

    fn edit(self, doc: JsonValue, spec: &FieldSpec) -> (r: (JsonValue, Result<UpdateStep, UpdateError>)) {
        let value = match &spec.kind {
            FieldKind::Boolean { .. } => match parse_bool_text(self.text.as_str()) {
                Some(b) => Some(JsonValue::Bool(b)),
                None => None,
            },
            FieldKind::Integer { .. } => match parse_i64_text(self.text.as_str()) {
                Some(v) => Some(JsonValue::Number(v)),
                None => None,
            },
            _ => Some(JsonValue::Text(self.text.clone())),
        };
        match value {
            Some(v) => {
                let inner = UpdateEdit { name: self.name, value: v };
                inner.edit(doc, spec)
            },
            None => (doc, Err(UpdateError::NotParsed { value: self.text, name: self.name })),
        }
    }
}

/// Stores an input text in the field at `name`: the field is reached as
/// `get_field` reaches it, the text is read as the field's kind takes it,
/// and the value is then stored as `update_field_value` stores it.
pub fn update_field_string(specs: &SortedMap<String, FieldSpec>, map: &mut JsonValue, name: &str, value: &str) -> (r: Result<UpdateStep, UpdateError>)
    requires
        specs.wf(),
        field_walk::<FieldSpec>(json_view(*old(map)), name@, specs@).1 != Some(WalkEnd::<FieldSpecView>::Panics),
    ensures
        ({
            let (d, end, found) = field_edit::<FieldSpec, StringEdit>(json_view(*old(map)), name@, specs@, (name@, value@));
            &&& json_view(*final(map)) == d
            &&& match end {
                Some(WalkEnd::Found(s)) => StringEdit::produced((name@, value@), found, s, r),
                _ => (r matches Err(UpdateError::Field(e)) && field_end(Err(e)) == end && names_path(Err::<FieldSpec, FieldError<FieldSpec>>(e), name@)),
            }
        }),
{
    proof {
        lemma_field_edit_panics::<FieldSpec, StringEdit>(json_view(*old(map)), name@, specs@, (name@, value@));
    }
    let e = StringEdit { name: String::from_str(name), text: String::from_str(value) };
    let (r, sh, out) = edit_field(specs, map, name, e);
    match r {
        Err(err) => Err(UpdateError::Field(err)),
        Ok(_) => match out {
            Some(o) => o,
            None => Ok(UpdateStep::Done),
        },
    }
}

/// Writing a text into the field reached.
pub struct PutText {
    pub text: String,
}

impl<F: View> FieldEdit<F> for PutText {
    type EV = Seq<char>;

    open spec fn edit_view(&self) -> Seq<char> {
        self.text@
    }

    open spec fn edited(ev: Seq<char>, doc: JsonView, spec: F::V) -> JsonView {
        JsonView::Text(ev)
    }

    type Out = ();

    open spec fn produced(ev: Seq<char>, doc: JsonView, spec: F::V, out: ()) -> bool {
        true
    }

    fn edit(self, doc: JsonValue, spec: &F) -> (r: (JsonValue, ())) {
        (JsonValue::Text(self.text), ())
    }
}

/// Stores a text that was found to be an address in the field at `name`,
/// reached as `get_field` reaches it.
pub fn store_checked_text<F: Duplicate>(specs: &SortedMap<String, F>, map: &mut JsonValue, name: &str, text: &str) -> (r: Result<(), FieldError<F>>)
    requires
        specs.wf(),
        field_walk::<F>(json_view(*old(map)), name@, specs@).1 != Some(WalkEnd::<F::V>::Panics),
    ensures
        json_view(*final(map)) == field_edit::<F, PutText>(json_view(*old(map)), name@, specs@, text@).0,
        match r {
            Ok(()) => (field_edit::<F, PutText>(json_view(*old(map)), name@, specs@, text@).1 matches Some(WalkEnd::Found(_))),
            Err(e) => (field_end(Err::<F, FieldError<F>>(e)) == field_edit::<F, PutText>(json_view(*old(map)), name@, specs@, text@).1)
                && names_path(Err::<F, FieldError<F>>(e), name@),
        },
{
    proof {
        lemma_field_edit_panics::<F, PutText>(json_view(*old(map)), name@, specs@, text@);
    }
    let (r, sh, out) = edit_field(specs, map, name, PutText { text: String::from_str(text) });
    match r {
        Ok(_) => Ok(()),
        Err(e) => Err(e),
    }
}

/// Why an integer input was refused: the value, the bound it crosses, and
/// the field's path.
#[derive(Clone, Debug, PartialEq, Eq)]
pub enum BoundError {
    /// It is less than the field's minimum.
    BelowMinimum { value: i64, minimum: i64, name: String },
    /// It is greater than the field's maximum.
    AboveMaximum { value: i64, maximum: i64, name: String },
}

/// The message of a bound error.
pub open spec fn bound_message(e: BoundError) -> Seq<char> {
    match e {
        BoundError::BelowMinimum { value, minimum, name } => "value "@ + signed_decimal(value as int)
            + " should be greater than minimum value "@ + signed_decimal(minimum as int) + ": "@ + debug_text(name@),
        BoundError::AboveMaximum { value, maximum, name } => "value "@ + signed_decimal(value as int)
            + " should be less than maximum value "@ + signed_decimal(maximum as int) + ": "@ + debug_text(name@),
    }
}

impl BoundError {
    /// The error's message.
    pub fn message(&self) -> (r: String)
        ensures
            r@ == bound_message(*self),
    {
        let (value, label, bound, name) = match self {
            BoundError::BelowMinimum { value, minimum, name } => (*value, " should be greater than minimum value ", *minimum, name),
            BoundError::AboveMaximum { value, maximum, name } => (*value, " should be less than maximum value ", *maximum, name),
        };
        let mut s = String::from_str("value ");
        write_signed(&mut s, value);
        s.append(label);
        write_signed(&mut s, bound);
        s.append(": ");
        let q = to_debug_text(name.as_str());
        s.append(q.as_str());
        proof {
            reveal_strlit("value ");
            reveal_strlit(": ");
        }
        s
    }
}

/// Checks an integer input for the field at `name` against the field's
/// bounds, the minimum first; a value equal to a bound passes.
pub fn check_integer_bounds(name: &str, value: i64, minimum: Option<i64>, maximum: Option<i64>) -> (r: Result<(), BoundError>)
    ensures
        match r {
            Ok(()) => !(minimum is Some && value < minimum.unwrap()) && !(maximum is Some && value > maximum.unwrap()),
            Err(BoundError::BelowMinimum { value: v, minimum: m, name: n }) => {
                &&& minimum == Some(m) && value < m
                &&& v == value && n@ == name@
            },
            Err(BoundError::AboveMaximum { value: v, maximum: x, name: n }) => {
                &&& !(minimum is Some && value < minimum.unwrap())
                &&& maximum == Some(x) && value > x
                &&& v == value && n@ == name@
            },
        },
{
    match minimum {
        Some(m) => {
            if value < m {
                return Err(BoundError::BelowMinimum { value, minimum: m, name: String::from_str(name) });
            }
        },
        None => {},
    }
    match maximum {
        Some(x) => {
            if value > x {
                return Err(BoundError::AboveMaximum { value, maximum: x, name: String::from_str(name) });
            }
        },
        None => {},
    }
    Ok(())
}

/// A field left without a value is reported missing only when neither the
/// caller nor the field's own spec lets it be optional: a field whose spec
/// is optional is never missing.
pub proof fn law_optional_field_never_missing(
    doc: JsonView,
    spec: FieldSpecView,
    name: Seq<char>,
    optional: bool,
    is_atom: bool,
    now: Seq<char>,
)
    ensures
        plan_at(doc, spec, name, optional, is_atom, now) is Missing ==> !optional && !spec.optional,
        spec.optional ==> !(plan_at(doc, spec, name, optional, is_atom, now) is Missing),
        // A required field of a kind with a value, that is null and has no
        // default, is missing.
        !optional && !spec.optional && doc is Null && (spec.kind matches FieldKindView::String { default: None })
            ==> plan_at(doc, spec, name, optional, is_atom, now) is Missing,
{
}

/// An object input hands on each of its members, in order, to the member's
/// own path (the member name in snake case under the field's path), and an
/// array input hands on each item to the path of its index.
pub proof fn law_updates_keep_members(kind: FieldKindView, name: Seq<char>, value: JsonView, valid: bool)
    ensures
        (kind is Object && value is Object) ==> ({
            let members = value->Object_0;
            &&& update_plan(kind, name, value, valid) is Updates
            &&& update_plan(kind, name, value, valid)->Updates_0.len() == members.len()
            &&& forall|i: int| 0 <= i < members.len() ==> {
                let u = #[trigger] update_plan(kind, name, value, valid)->Updates_0[i];
                &&& u.1 == members[i].1
                &&& u.0 == name + snake_case(members[i].0) + seq!['/']
            }
        }),
        (kind is ObjectArray && value is Array) ==> ({
            let items = value->Array_0;
            &&& update_plan(kind, name, value, valid) is Updates
            &&& update_plan(kind, name, value, valid)->Updates_0.len() == items.len()
            &&& forall|i: int| 0 <= i < items.len() ==> {
                let u = #[trigger] update_plan(kind, name, value, valid)->Updates_0[i];
                &&& u.1 == items[i]
                &&& u.0 == name + decimal(i as nat) + seq!['/']
            }
        }),
{
}

proof fn lemma_key_index_bound(members: Seq<(Seq<char>, JsonView)>, key: Seq<char>)
    ensures
        key_index(members, key) <= members.len(),
    decreases members.len(),
{
    if members.len() > 0 && text_lt(members[0].0, key) {
        lemma_key_index_bound(members.drop_first(), key);
    }
}

/// An array step keeps the array as it was but for the item at its index:
/// the array grows with nulls up to the index where it is shorter, never
/// shrinks, and every other item stays.
pub proof fn law_walk_array_step<F: View, E: FieldEdit<F>>(
    doc: JsonView,
    steps: Seq<CursorEntryView>,
    cur: F::V,
    specs: Map<Seq<char>, F::V>,
    ev: E::EV,
)
    requires
        steps.len() > 0,
        steps[0] is EnterArray,
        specs.contains_key(steps[0]->EnterArray_basename),
        doc is Array,
        steps[0]->EnterArray_index < usize::MAX,
    ensures
        ({
            let items = doc->Array_0;
            let index = steps[0]->EnterArray_index;
            let r = walk::<F, E>(doc, steps, cur, specs, ev).0;
            &&& r is Array
            &&& r->Array_0.len() == if items.len() > index { items.len() } else { index + 1 }
            &&& forall|j: int| 0 <= j < r->Array_0.len() && j != index ==> #[trigger] r->Array_0[j]
                == if j < items.len() { items[j] } else { JsonView::Null }
        }),
{
}

/// An object step keeps every member of the object but the one it enters,
/// and leaves that member present: at most one member is added.
pub proof fn law_walk_object_step<F: View, E: FieldEdit<F>>(
    doc: JsonView,
    steps: Seq<CursorEntryView>,
    cur: F::V,
    specs: Map<Seq<char>, F::V>,
    ev: E::EV,
)
    requires
        steps.len() > 0,
        steps[0] is EnterObject,
        steps[0]->EnterObject_child.len() > 0,
        specs.contains_key(steps[0]->EnterObject_basename),
        doc is Object,
    ensures
        ({
            let members = doc->Object_0;
            let child = steps[0]->EnterObject_child;
            let r = walk::<F, E>(doc, steps, cur, specs, ev).0;
            &&& r is Object
            &&& members.len() <= r->Object_0.len() <= members.len() + 1
            &&& forall|x: int| 0 <= x < members.len() && #[trigger] members[x].0 != child ==> r->Object_0.contains(members[x])
            &&& exists|y: int| 0 <= y < r->Object_0.len() && #[trigger] r->Object_0[y].0 == child
        }),
{
    let members = doc->Object_0;
    let child = steps[0]->EnterObject_child;
    let i = key_index(members, child);
    lemma_key_index_bound(members, child);
    let g = with_key(members, child);
    let r = walk::<F, E>(doc, steps, cur, specs, ev).0->Object_0;
    assert(r == g.update(i as int, (child, walk::<F, E>(g[i as int].1, steps.drop_first(), specs[steps[0]->EnterObject_basename], specs, ev).0)));
    assert(r[i as int].0 == child);
    assert forall|x: int| 0 <= x < members.len() && #[trigger] members[x].0 != child implies r.contains(members[x]) by {
        if i < members.len() && members[i as int].0 == child {
            assert(x != i);
            assert(r[x] == members[x]);
        } else if x < i {
            assert(r[x] == members[x]);
        } else {
            assert(r[x + 1] == members[x]);
        }
    }
}

/// Filling in a default never touches a value that is there (but for an
/// object or array, which is filled member by member, and a field of no
/// value, which is always null); a null field with a default takes it.
pub proof fn law_fill_keeps_values(
    doc: JsonView,
    spec: FieldSpecView,
    name: Seq<char>,
    optional: bool,
    is_atom: bool,
    now: Seq<char>,
)
    ensures
        !(doc is Null) && !(spec.kind is NoValue) ==> planned_value(plan_at(doc, spec, name, optional, is_atom, now), doc) == doc,
        spec.kind is NoValue ==> planned_value(plan_at(doc, spec, name, optional, is_atom, now), doc) == JsonView::Null,
        doc is Null && (spec.kind matches FieldKindView::Boolean { default: Some(b) })
            ==> planned_value(plan_at(doc, spec, name, optional, is_atom, now), doc) == JsonView::Bool(spec.kind->Boolean_default.unwrap()),
        doc is Null && (spec.kind matches FieldKindView::Integer { default: Some(n), .. })
            ==> planned_value(plan_at(doc, spec, name, optional, is_atom, now), doc) == JsonView::Number(spec.kind->Integer_default.unwrap()),
        doc is Null && (spec.kind matches FieldKindView::String { default: Some(t) })
            ==> planned_value(plan_at(doc, spec, name, optional, is_atom, now), doc) == JsonView::Text(spec.kind->String_default.unwrap()),
        doc is Null && (spec.kind matches FieldKindView::DateTime { default_now: true })
            ==> planned_value(plan_at(doc, spec, name, optional, is_atom, now), doc) == JsonView::Text(now),
{
}

/// Storing a value writes it only where it passes the field's check, and
/// otherwise leaves the field as it was: an integer is written exactly when
/// it is within the bounds, a text for a choice exactly when it is one of
/// the choices, and a value of another type is never written.
pub proof fn law_update_writes_checked(kind: FieldKindView, name: Seq<char>, value: JsonView, doc: JsonView)
    ensures
        (kind matches FieldKindView::Integer { minimum, maximum, .. }) && (value matches JsonView::Number(n)) ==> {
            let minimum = kind->Integer_minimum;
            let maximum = kind->Integer_maximum;
            let n = value->Number_0;
            let within = (minimum is None || minimum.unwrap() <= n) && (maximum is None || n <= maximum.unwrap());
            &&& within ==> update_written(update_plan(kind, name, value, text_check(kind, value)), doc, value) == value
            &&& !within ==> update_written(update_plan(kind, name, value, text_check(kind, value)), doc, value) == doc
            &&& !within ==> !(update_plan(kind, name, value, text_check(kind, value)) is Put)
        },
        (kind matches FieldKindView::OneOfStrings { choices, .. }) && (value matches JsonView::Text(t)) ==> {
            let choices = kind->OneOfStrings_choices;
            let t = value->Text_0;
            &&& choices.contains(t) ==> update_written(update_plan(kind, name, value, text_check(kind, value)), doc, value) == value
            &&& !choices.contains(t) ==> update_written(update_plan(kind, name, value, text_check(kind, value)), doc, value) == doc
        },
        (kind is Boolean && !(value is Bool)) || (kind is Integer && !(value is Number))
            || ((kind is String || kind is OneOfStrings || kind is DateTime || kind is Uuid || kind is Ip) && !(value is Text))
            ==> update_plan(kind, name, value, text_check(kind, value)) is Mismatch
                && update_written(update_plan(kind, name, value, text_check(kind, value)), doc, value) == doc,
        kind is Boolean && value is Bool ==> update_written(update_plan(kind, name, value, text_check(kind, value)), doc, value) == value,
{
}

} // verus!
