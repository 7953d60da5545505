//! JSON values as the library models them, and merging a patch into one.
use crate::models::JsonValue;
use crate::sync::{first_index, lemma_first_index_prefix, lemma_first_index_range};
use crate::text::{owned, str_eq};
use vstd::prelude::*;

verus! {

/// The mathematical form of a JSON value: a number is kept as its literal
/// text, an object as its members in order.
pub enum JsonModel {
    Null,
    Bool(bool),
    Number(Seq<char>),
    Str(Seq<char>),
    Array(Seq<JsonModel>),
    Object(Seq<(Seq<char>, JsonModel)>),
}

impl JsonValue {
    /// The model of the value.
    pub open spec fn model(&self) -> JsonModel
        decreases self,
    {
        match self {
            JsonValue::Null => JsonModel::Null,
            JsonValue::Bool(b) => JsonModel::Bool(*b),
            JsonValue::Number(n) => JsonModel::Number(n@),
            JsonValue::Str(s) => JsonModel::Str(s@),
            JsonValue::Array(items) => JsonModel::Array(
                Seq::new(
                    items@.len(),
                    |i: int|
                        if 0 <= i < items@.len() {
                            proof {
                                assert(decreases_to!(items => items@[i]));
                            }
                            items@[i].model()
                        } else {
                            JsonModel::Null
                        },
                ),
            ),
            JsonValue::Object(fields) => JsonModel::Object(
                Seq::new(
                    fields@.len(),
                    |i: int|
                        if 0 <= i < fields@.len() {
                            proof {
                                assert(decreases_to!(fields => fields@[i].1));
                            }
                            (fields@[i].0@, fields@[i].1.model())
                        } else {
                            (Seq::empty(), JsonModel::Null)
                        },
                ),
            ),
        }
    }
}

/// The predicate "the member is named `key`".
pub open spec fn member_named(key: Seq<char>) -> spec_fn((Seq<char>, JsonModel)) -> bool {
    |m: (Seq<char>, JsonModel)| m.0 == key
}

/// A patch merged into a value: objects merge member by member (a member
/// the target lacks is added at the end), anything else replaces the
/// target.
pub open spec fn merged(target: JsonModel, patch: JsonModel) -> JsonModel
    decreases patch,
{
    match patch {
        JsonModel::Object(pf) => match target {
            JsonModel::Object(tf) => {
                proof {
                    assert(decreases_to!(patch => pf));
                }
                JsonModel::Object(merged_members(tf, pf))
            },
            _ => patch,
        },
        _ => patch,
    }
}

/// The members of an object once the patch's members are merged into it,
/// one after the other: a member of the same name takes the merge of its
/// value, a new name is added at the end.
pub open spec fn merged_members(
    target: Seq<(Seq<char>, JsonModel)>,
    patch: Seq<(Seq<char>, JsonModel)>,
) -> Seq<(Seq<char>, JsonModel)>
    decreases patch,
{
    if patch.len() == 0 {
        target
    } else {
        proof {
            assert(decreases_to!(patch => patch.drop_last()));
            assert(decreases_to!(patch => patch[patch.len() - 1].1));
        }
        let acc = merged_members(target, patch.drop_last());
        let (key, value) = patch[patch.len() - 1];
        match first_index(acc, member_named(key)) {
            Some(i) => acc.update(i, (key, merged(acc[i].1, value))),
            None => acc.push((key, merged(JsonModel::Null, value))),
        }
    }
}

/// The models of an object's members.
pub open spec fn members_model(fields: Seq<(String, JsonValue)>) -> Seq<(Seq<char>, JsonModel)> {
    Seq::new(fields.len(), |i: int| (fields[i].0@, fields[i].1.model()))
}

proof fn lemma_object_model(fields: Vec<(String, JsonValue)>)
    ensures
        JsonValue::Object(fields).model() == JsonModel::Object(members_model(fields@)),
{
    let m = JsonValue::Object(fields).model();
    assert(m matches JsonModel::Object(ms) && ms =~= members_model(fields@));
}

proof fn lemma_array_model(items: Vec<JsonValue>)
    ensures
        JsonValue::Array(items).model() == JsonModel::Array(Seq::new(items@.len(), |i: int| items@[i].model())),
{
    let m = JsonValue::Array(items).model();
    assert(m matches JsonModel::Array(ms) && ms =~= Seq::new(items@.len(), |i: int| items@[i].model()));
}

/// A copy of a value.
pub fn copy_json(v: &JsonValue) -> (r: JsonValue)
    ensures
        r.model() == v.model(),
    decreases v,
{
    match v {
        JsonValue::Null => JsonValue::Null,
        JsonValue::Bool(b) => JsonValue::Bool(*b),
        JsonValue::Number(n) => JsonValue::Number(owned(n.as_str())),
        JsonValue::Str(t) => JsonValue::Str(owned(t.as_str())),
        JsonValue::Array(items) => {
            let mut out: Vec<JsonValue> = Vec::new();
            let mut i: usize = 0;
            while i < items.len()
                invariant
                    *v == JsonValue::Array(*items),
                    i <= items@.len(),
                    out@.len() == i,
                    forall|k: int| 0 <= k < i ==> (#[trigger] out@[k]).model() == items@[k].model(),
                decreases items.len() - i,
            {
                proof {
                    assert(decreases_to!(*v => (*v)->Array_0));
                    assert(decreases_to!(*items => items@[i as int]));
                }
                let c = copy_json(&items[i]);
                out.push(c);
                i = i + 1;
            }
            proof {
                lemma_array_model(*items);
                lemma_array_model(out);
                assert(Seq::new(out@.len(), |k: int| out@[k].model()) =~= Seq::new(
                    items@.len(),
                    |k: int| items@[k].model(),
                ));
            }
            JsonValue::Array(out)
        },
        JsonValue::Object(fields) => {
            let mut out: Vec<(String, JsonValue)> = Vec::new();
            let mut i: usize = 0;
            while i < fields.len()
                invariant
                    *v == JsonValue::Object(*fields),
                    i <= fields@.len(),
                    out@.len() == i,
                    forall|k: int|
                        0 <= k < i ==> (#[trigger] out@[k]).0@ == fields@[k].0@ && out@[k].1.model()
                            == fields@[k].1.model(),
                decreases fields.len() - i,
            {
                proof {
                    assert(decreases_to!(*v => (*v)->Object_0));
                    assert(decreases_to!(*fields => fields@[i as int].1));
                }
                let c = copy_json(&fields[i].1);
                out.push((owned(fields[i].0.as_str()), c));
                i = i + 1;
            }
            proof {
                lemma_object_model(*fields);
                lemma_object_model(out);
                assert(members_model(out@) =~= members_model(fields@));
            }
            JsonValue::Object(out)
        },
    }
}

/// The position of the first member named `key`.
fn find_member(fields: &Vec<(String, JsonValue)>, key: &str) -> (r: Option<usize>)
    ensures
        match r {
            Some(k) => first_index(members_model(fields@), member_named(key@)) == Some(k as int),
            None => first_index(members_model(fields@), member_named(key@)) is None,
        },
{
    let ghost ms = members_model(fields@);
    let ghost pred = member_named(key@);
    let mut k: usize = 0;
    while k < fields.len()
        invariant
            ms == members_model(fields@),
            pred == member_named(key@),
            k <= fields@.len(),
            first_index(ms.take(k as int), pred) is None,
        decreases fields.len() - k,
    {
        assert(ms.take(k + 1).drop_last() =~= ms.take(k as int));
        assert(ms.take(k + 1).last() == ms[k as int]);
        if str_eq(fields[k].0.as_str(), key) {
            proof {
                lemma_first_index_prefix(ms, pred, k + 1);
            }
            return Some(k);
        }
        k = k + 1;
    }
    assert(ms.take(k as int) =~= ms);
    None
}

/// `merge_runtime_patch`: merges `patch` into `target`; objects merge
/// member by member, anything else replaces the target.
pub fn merge_runtime_patch(target: JsonValue, patch: &JsonValue) -> (r: JsonValue)
    ensures
        r.model() == merged(target.model(), patch.model()),
    decreases patch,
{
    match patch {
        JsonValue::Object(pf) => match target {
            JsonValue::Object(tf) => {
                let ghost t0 = members_model(tf@);
                let ghost p0 = members_model(pf@);
                proof {
                    lemma_object_model(tf);
                    lemma_object_model(*pf);
                }
                let mut acc = tf;
                let mut i: usize = 0;
                assert(p0.take(0) =~= Seq::<(Seq<char>, JsonModel)>::empty());
                while i < pf.len()
                    invariant
                        *patch == JsonValue::Object(*pf),
                        p0 == members_model(pf@),
                        i <= pf@.len(),
                        members_model(acc@) == merged_members(t0, p0.take(i as int)),
                    decreases pf.len() - i,
                {
                    proof {
                        assert(decreases_to!(*patch => (*patch)->Object_0));
                        assert(decreases_to!(*pf => pf@[i as int].1));
                    }
                    let ghost before = members_model(acc@);
                    let ghost pt = p0.take(i + 1);
                    assert(pt.drop_last() =~= p0.take(i as int));
                    assert(pt[pt.len() - 1] == (pf@[i as int].0@, pf@[i as int].1.model()));
                    let key = pf[i].0.as_str();
                    match find_member(&acc, key) {
                        Some(j) => {
                            proof {
                                lemma_first_index_range(before, member_named(key@));
                            }
                            let mut slot: (String, JsonValue) = (String::new(), JsonValue::Null);
                            acc.set_and_swap(j, &mut slot);
                            let (name, old) = slot;
                            let m = merge_runtime_patch(old, &pf[i].1);
                            acc.set(j, (name, m));
                            assert(members_model(acc@) =~= before.update(
                                j as int,
                                (key@, merged(before[j as int].1, pf@[i as int].1.model())),
                            ));
                        },
                        None => {
                            let m = merge_runtime_patch(JsonValue::Null, &pf[i].1);
                            acc.push((owned(key), m));
                            assert(members_model(acc@) =~= before.push(
                                (key@, merged(JsonModel::Null, pf@[i as int].1.model())),
                            ));
                        },
                    }
                    i = i + 1;
                }
                assert(p0.take(i as int) =~= p0);
                proof {
                    lemma_object_model(acc);
                }
                JsonValue::Object(acc)
            },
            _ => copy_json(patch),
        },
        _ => copy_json(patch),
    }
}

/// The patched runtime in its serialised form: the patch merged into the
/// stored runtime, then, when that is an object, its `last_updated_at` set
/// to `now` (replaced where it is, added at the end otherwise).
pub open spec fn stamped_patch(stored: JsonModel, patch: JsonModel, now: Seq<char>) -> JsonModel {
    let m = merged(stored, patch);
    match m {
        JsonModel::Object(_) => merged(m, JsonModel::Object(seq![("last_updated_at"@, JsonModel::Str(now))])),
        _ => m,
    }
}

/// `update_runtime`'s merge of the patch into the stored runtime, with the
/// update time set.
pub fn patched_runtime_json(stored: JsonValue, patch: &JsonValue, now: &str) -> (r: JsonValue)
    ensures
        r.model() == stamped_patch(stored.model(), patch.model(), now@),
{
    let m = merge_runtime_patch(stored, patch);
    let is_object = match &m {
        JsonValue::Object(_) => true,
        _ => false,
    };
    if is_object {
        let mut members: Vec<(String, JsonValue)> = Vec::new();
        members.push((owned("last_updated_at"), JsonValue::Str(owned(now))));
        let stamp = JsonValue::Object(members);
        proof {
            lemma_object_model(members);
            assert(members_model(members@) =~= seq![("last_updated_at"@, JsonModel::Str(now@))]);
        }
        merge_runtime_patch(m, &stamp)
    } else {
        m
    }
}

} // verus!
