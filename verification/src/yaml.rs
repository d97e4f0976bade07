//! A YAML document as the specification editor reads and writes it.
use vstd::prelude::*;
use crate::projection::{
    apply_nested_edit, ids_view, nested_edit, protected_field, spec_nested_edit, NestedEdit, NestedEditError,
    NestedEditOperation,
};
use crate::text::{owned, str_eq};

verus! {

/// A YAML value.  Numbers are kept as the text YAML gives them.
#[derive(Debug)]
pub enum YamlValue {
    Null,
    Bool(bool),
    Number(String),
    Text(String),
    Sequence(Vec<YamlValue>),
    Mapping(Vec<YamlEntry>),
}

/// One key and value of a YAML mapping.
#[derive(Debug)]
pub struct YamlEntry {
    pub key: YamlValue,
    pub value: YamlValue,
}

/// A YAML value as a mathematical value.
pub enum YamlModel {
    Null,
    Bool(bool),
    Number(Seq<char>),
    Text(Seq<char>),
    Sequence(Seq<YamlModel>),
    Mapping(Seq<(YamlModel, YamlModel)>),
}

pub open spec fn ymodel(v: YamlValue) -> YamlModel
    decreases v, 0nat,
{
    match v {
        YamlValue::Null => YamlModel::Null,
        YamlValue::Bool(b) => YamlModel::Bool(b),
        YamlValue::Number(s) => YamlModel::Number(s@),
        YamlValue::Text(s) => YamlModel::Text(s@),
        YamlValue::Sequence(vs) => YamlModel::Sequence(ymodels(vs@, vs@.len() as int)),
        YamlValue::Mapping(es) => YamlModel::Mapping(emodels(es@, es@.len() as int)),
    }
}

pub open spec fn ymodels(s: Seq<YamlValue>, n: int) -> Seq<YamlModel>
    decreases s, n,
{
    if n <= 0 || n > s.len() {
        Seq::empty()
    } else {
        ymodels(s, n - 1).push(ymodel(s[n - 1]))
    }
}

pub open spec fn emodels(s: Seq<YamlEntry>, n: int) -> Seq<(YamlModel, YamlModel)>
    decreases s, n,
{
    if n <= 0 || n > s.len() {
        Seq::empty()
    } else {
        emodels(s, n - 1).push((ymodel(s[n - 1].key), ymodel(s[n - 1].value)))
    }
}

pub open spec fn emodel(e: YamlEntry) -> (YamlModel, YamlModel) {
    (ymodel(e.key), ymodel(e.value))
}

pub open spec fn ymodel_seq(s: Seq<YamlValue>) -> Seq<YamlModel> {
    s.map_values(|v: YamlValue| ymodel(v))
}

pub open spec fn emodel_seq(s: Seq<YamlEntry>) -> Seq<(YamlModel, YamlModel)> {
    s.map_values(|e: YamlEntry| emodel(e))
}

proof fn lemma_ymodels(s: Seq<YamlValue>, n: int)
    requires
        0 <= n <= s.len(),
    ensures
        ymodels(s, n) == ymodel_seq(s.take(n)),
    decreases n,
{
    if n > 0 {
        lemma_ymodels(s, n - 1);
        assert(ymodel_seq(s.take(n)) =~= ymodel_seq(s.take(n - 1)).push(ymodel(s[n - 1])));
    } else {
        assert(ymodel_seq(s.take(n)) =~= Seq::empty());
    }
}

proof fn lemma_emodels(s: Seq<YamlEntry>, n: int)
    requires
        0 <= n <= s.len(),
    ensures
        emodels(s, n) == emodel_seq(s.take(n)),
    decreases n,
{
    if n > 0 {
        lemma_emodels(s, n - 1);
        assert(emodel_seq(s.take(n)) =~= emodel_seq(s.take(n - 1)).push(emodel(s[n - 1])));
    } else {
        assert(emodel_seq(s.take(n)) =~= Seq::empty());
    }
}

/// A sequence or mapping models as the models of its parts.
pub proof fn lemma_model_parts(v: YamlValue)
    ensures
        v matches YamlValue::Sequence(vs) ==> ymodel(v) == YamlModel::Sequence(ymodel_seq(vs@)),
        v matches YamlValue::Mapping(es) ==> ymodel(v) == YamlModel::Mapping(emodel_seq(es@)),
{
    match v {
        YamlValue::Sequence(vs) => {
            lemma_ymodels(vs@, vs@.len() as int);
            assert(vs@.take(vs@.len() as int) =~= vs@);
        },
        YamlValue::Mapping(es) => {
            lemma_emodels(es@, es@.len() as int);
            assert(es@.take(es@.len() as int) =~= es@);
        },
        _ => {},
    }
}

// ---------------------------------------------------------------------------
// Reading a mapping

pub type YEntry = (YamlModel, YamlModel);

/// The first entry with the text key `name`.
pub open spec fn key_pos(es: Seq<YEntry>, name: Seq<char>) -> Option<int>
    decreases es.len(),
{
    if es.len() == 0 {
        None
    } else {
        match key_pos(es.drop_last(), name) {
            Some(i) => Some(i),
            None => if es.last().0 == YamlModel::Text(name) {
                Some(es.len() - 1)
            } else {
                None
            },
        }
    }
}

/// The value of key `name` of a mapping.
pub open spec fn mget(v: YamlModel, name: Seq<char>) -> Option<YamlModel> {
    match v {
        YamlModel::Mapping(es) => match key_pos(es, name) {
            Some(i) => Some(es[i].1),
            None => None,
        },
        _ => None,
    }
}

pub open spec fn text_of(v: Option<YamlModel>) -> Option<Seq<char>> {
    match v {
        Some(YamlModel::Text(s)) => Some(s),
        _ => None,
    }
}

/// The text `id` of a mapping.
pub open spec fn id_of(v: YamlModel) -> Option<Seq<char>> {
    text_of(mget(v, "id"@))
}

/// Sets key `name` of the entries: in place when it is there, appended
/// otherwise.
pub open spec fn mset(es: Seq<YEntry>, name: Seq<char>, val: YamlModel) -> Seq<YEntry> {
    match key_pos(es, name) {
        Some(i) => es.update(i, (es[i].0, val)),
        None => es.push((YamlModel::Text(name), val)),
    }
}

/// The first element with id `id`.
pub open spec fn first_id(s: Seq<YamlModel>, id: Seq<char>) -> Option<int>
    decreases s.len(),
{
    if s.len() == 0 {
        None
    } else {
        match first_id(s.drop_last(), id) {
            Some(i) => Some(i),
            None => if id_of(s.last()) == Some(id) {
                Some(s.len() - 1)
            } else {
                None
            },
        }
    }
}

proof fn lemma_key_pos(es: Seq<YEntry>, name: Seq<char>)
    ensures
        match key_pos(es, name) {
            Some(i) => 0 <= i < es.len() && es[i].0 == YamlModel::Text(name) && forall|j: int|
                0 <= j < i ==> es[j].0 != YamlModel::Text(name),
            None => forall|j: int| 0 <= j < es.len() ==> es[j].0 != YamlModel::Text(name),
        },
    decreases es.len(),
{
    if es.len() > 0 {
        lemma_key_pos(es.drop_last(), name);
        assert forall|j: int| 0 <= j < es.len() - 1 implies es.drop_last()[j] == es[j] by {}
    }
}

proof fn lemma_key_pos_at(es: Seq<YEntry>, name: Seq<char>, k: int)
    requires
        0 <= k <= es.len(),
        forall|j: int| 0 <= j < k ==> es[j].0 != YamlModel::Text(name),
        k < es.len() ==> es[k].0 == YamlModel::Text(name),
    ensures
        key_pos(es, name) == (if k < es.len() { Some(k) } else { None::<int> }),
{
    lemma_key_pos(es, name);
}

/// Changing values leaves the key positions as they were.
proof fn lemma_key_pos_update(es: Seq<YEntry>, i: int, x: YamlModel, name: Seq<char>)
    requires
        0 <= i < es.len(),
    ensures
        key_pos(es.update(i, (es[i].0, x)), name) == key_pos(es, name),
{
    let u = es.update(i, (es[i].0, x));
    lemma_key_pos(es, name);
    lemma_key_pos(u, name);
    match key_pos(es, name) {
        Some(p) => {
            assert(u[p].0 == es[p].0);
            assert forall|j: int| 0 <= j < p implies u[j].0 != YamlModel::Text(name) by {
                assert(u[j].0 == es[j].0);
            }
            lemma_key_pos_at(u, name, p);
        },
        None => {
            assert forall|j: int| 0 <= j < u.len() implies u[j].0 != YamlModel::Text(name) by {
                assert(u[j].0 == es[j].0);
            }
            lemma_key_pos_at(u, name, u.len() as int);
        },
    }
}

proof fn lemma_first_id(s: Seq<YamlModel>, id: Seq<char>)
    ensures
        match first_id(s, id) {
            Some(i) => 0 <= i < s.len() && id_of(s[i]) == Some(id) && forall|j: int|
                0 <= j < i ==> id_of(s[j]) != Some(id),
            None => forall|j: int| 0 <= j < s.len() ==> id_of(s[j]) != Some(id),
        },
    decreases s.len(),
{
    if s.len() > 0 {
        lemma_first_id(s.drop_last(), id);
        assert forall|j: int| 0 <= j < s.len() - 1 implies s.drop_last()[j] == s[j] by {}
    }
}

proof fn lemma_first_id_at(s: Seq<YamlModel>, id: Seq<char>, k: int)
    requires
        0 <= k <= s.len(),
        forall|j: int| 0 <= j < k ==> id_of(s[j]) != Some(id),
        k < s.len() ==> id_of(s[k]) == Some(id),
    ensures
        first_id(s, id) == (if k < s.len() { Some(k) } else { None::<int> }),
{
    lemma_first_id(s, id);
}

/// The first element whose `role` is `role`.
pub open spec fn first_role(s: Seq<YamlModel>, role: Seq<char>) -> Option<int>
    decreases s.len(),
{
    if s.len() == 0 {
        None
    } else {
        match first_role(s.drop_last(), role) {
            Some(i) => Some(i),
            None => if text_of(mget(s.last(), "role"@)) == Some(role) {
                Some(s.len() - 1)
            } else {
                None
            },
        }
    }
}

proof fn lemma_first_role(s: Seq<YamlModel>, role: Seq<char>)
    ensures
        match first_role(s, role) {
            Some(i) => 0 <= i < s.len() && text_of(mget(s[i], "role"@)) == Some(role) && forall|j: int|
                0 <= j < i ==> text_of(mget(s[j], "role"@)) != Some(role),
            None => forall|j: int| 0 <= j < s.len() ==> text_of(mget(s[j], "role"@)) != Some(role),
        },
    decreases s.len(),
{
    if s.len() > 0 {
        lemma_first_role(s.drop_last(), role);
        assert forall|j: int| 0 <= j < s.len() - 1 implies s.drop_last()[j] == s[j] by {}
    }
}

proof fn lemma_first_role_at(s: Seq<YamlModel>, role: Seq<char>, k: int)
    requires
        0 <= k <= s.len(),
        forall|j: int| 0 <= j < k ==> text_of(mget(s[j], "role"@)) != Some(role),
        k < s.len() ==> text_of(mget(s[k], "role"@)) == Some(role),
    ensures
        first_role(s, role) == (if k < s.len() { Some(k) } else { None::<int> }),
{
    lemma_first_role(s, role);
}

fn is_text(v: &YamlValue, name: &str) -> (r: bool)
    ensures
        r == (ymodel(*v) == YamlModel::Text(name@)),
{
    match v {
        YamlValue::Text(s) => str_eq(s.as_str(), name),
        _ => false,
    }
}

fn key_index(es: &Vec<YamlEntry>, name: &str) -> (r: Option<usize>)
    ensures
        match r {
            Some(i) => key_pos(emodel_seq(es@), name@) == Some(i as int) && i < es@.len(),
            None => key_pos(emodel_seq(es@), name@) is None,
        },
{
    let ghost m = emodel_seq(es@);
    let mut k: usize = 0;
    while k < es.len()
        invariant
            k <= es.len(),
            m == emodel_seq(es@),
            forall|j: int| 0 <= j < k ==> m[j].0 != YamlModel::Text(name@),
        decreases es.len() - k,
    {
        if is_text(&es[k].key, name) {
            proof {
                lemma_key_pos_at(m, name@, k as int);
            }
            return Some(k);
        }
        k = k + 1;
    }
    proof {
        lemma_key_pos_at(m, name@, m.len() as int);
    }
    None
}

fn has_id(v: &YamlValue, id: &str) -> (r: bool)
    ensures
        r == (id_of(ymodel(*v)) == Some(id@)),
{
    proof {
        lemma_model_parts(*v);
    }
    match v {
        YamlValue::Mapping(es) => match key_index(es, "id") {
            Some(i) => {
                proof {
                    assert(emodel_seq(es@)[i as int] == emodel(es@[i as int]));
                }
                match &es[i].value {
                    YamlValue::Text(s) => str_eq(s.as_str(), id),
                    _ => false,
                }
            },
            None => false,
        },
        _ => false,
    }
}

fn id_index(list: &Vec<YamlValue>, id: &str) -> (r: Option<usize>)
    ensures
        match r {
            Some(i) => first_id(ymodel_seq(list@), id@) == Some(i as int) && i < list@.len(),
            None => first_id(ymodel_seq(list@), id@) is None,
        },
{
    let ghost m = ymodel_seq(list@);
    let mut k: usize = 0;
    while k < list.len()
        invariant
            k <= list.len(),
            m == ymodel_seq(list@),
            forall|j: int| 0 <= j < k ==> id_of(m[j]) != Some(id@),
        decreases list.len() - k,
    {
        if has_id(&list[k], id) {
            proof {
                lemma_first_id_at(m, id@, k as int);
            }
            return Some(k);
        }
        k = k + 1;
    }
    proof {
        lemma_first_id_at(m, id@, m.len() as int);
    }
    None
}

fn has_role(v: &YamlValue, role: &str) -> (r: bool)
    ensures
        r == (text_of(mget(ymodel(*v), "role"@)) == Some(role@)),
{
    proof {
        lemma_model_parts(*v);
    }
    match v {
        YamlValue::Mapping(es) => match key_index(es, "role") {
            Some(i) => {
                proof {
                    assert(emodel_seq(es@)[i as int] == emodel(es@[i as int]));
                }
                match &es[i].value {
                    YamlValue::Text(s) => str_eq(s.as_str(), role),
                    _ => false,
                }
            },
            None => false,
        },
        _ => false,
    }
}

fn role_index(list: &Vec<YamlValue>, role: &str) -> (r: Option<usize>)
    ensures
        match r {
            Some(i) => first_role(ymodel_seq(list@), role@) == Some(i as int) && i < list@.len(),
            None => first_role(ymodel_seq(list@), role@) is None,
        },
{
    let ghost m = ymodel_seq(list@);
    let mut k: usize = 0;
    while k < list.len()
        invariant
            k <= list.len(),
            m == ymodel_seq(list@),
            forall|j: int| 0 <= j < k ==> text_of(mget(m[j], "role"@)) != Some(role@),
        decreases list.len() - k,
    {
        if has_role(&list[k], role) {
            proof {
                lemma_first_role_at(m, role@, k as int);
            }
            return Some(k);
        }
        k = k + 1;
    }
    proof {
        lemma_first_role_at(m, role@, m.len() as int);
    }
    None
}

// ---------------------------------------------------------------------------
// Writing a mapping

/// Why a specification edit is refused.
#[derive(Debug, Clone, Copy, PartialEq, Eq, Structural)]
pub enum PatchError {
    /// The document has no text `kind`.
    KindMissing,
    /// The document's kind is none of the four specification kinds.
    UnsupportedKind,
    /// The document has no sequence under its kind.
    CollectionMissing,
    /// No item of the document has the id.
    ItemNotFound,
    /// The item is not a mapping.
    ItemNotMapping,
    /// Bindings and contracts are not edited through their anchors.
    AnchorNotEditable,
    /// The item has no sequence for the anchor's kind.
    AnchorCollectionMissing,
    /// The item has no entry with the anchor's local id.
    AnchorNotFound,
    /// The anchor's entry is not a mapping.
    AnchorNotMapping,
    /// A nested list is there but is not a sequence.
    NotSequence,
    /// No nested entity has the id.
    EntityNotFound,
    /// A claim index lies outside the target's claims.
    ClaimIndexOutside,
    /// The nested edit itself is refused.
    Nested(NestedEditError),
    /// A project configuration is not a specification edit.
    NotSpecificationPatch,
    /// A criterion is only added to an item of a requirements document.
    CriterionOutsideRequirements,
    /// A new requirement goes only into a requirements document.
    NotRequirementsDocument,
    /// A new feature or feature target goes only into a features document.
    NotFeaturesDocument,
    /// A new requirement has no criterion.
    NoCriteria,
    /// The requirement has no list of criteria.
    CriteriaMissing,
    /// The requirement already has a criterion with the new criterion's id.
    CriterionExists,
    /// The feature's bindings or targets are not lists.
    FeatureInvalid,
    /// The feature has no implementation binding.
    NoImplementationBinding,
    /// The implementation binding already has a target with the new id.
    TargetExists,
    /// The edited document does not declare the specification schema.
    SchemaInvalid,
}

/// The list under key `name`: empty when the key is missing and `insert`,
/// refused (`None`) when it is missing otherwise or is not a sequence.
pub open spec fn list_of(es: Seq<YEntry>, name: Seq<char>, insert: bool) -> Option<Seq<YamlModel>> {
    match key_pos(es, name) {
        None => if insert {
            Some(Seq::empty())
        } else {
            None
        },
        Some(i) => match es[i].1 {
            YamlModel::Sequence(l) => Some(l),
            _ => None,
        },
    }
}

/// Replaces entry `i`'s value, keeping its key.
fn set_value(es: &mut Vec<YamlEntry>, i: usize, value: YamlValue) -> (r: YamlValue)
    requires
        i < old(es)@.len(),
    ensures
        emodel_seq(final(es)@) == emodel_seq(old(es)@).update(i as int, (emodel_seq(old(es)@)[i as int].0, ymodel(value))),
        ymodel(r) == emodel_seq(old(es)@)[i as int].1,
{
    let ghost before = es@;
    let ghost vm = ymodel(value);
    let e = es.remove(i);
    let YamlEntry { key, value: old_value } = e;
    es.insert(i, YamlEntry { key, value });
    proof {
        assert(emodel_seq(es@) =~= emodel_seq(before).update(i as int, (emodel_seq(before)[i as int].0, vm)));
    }
    old_value
}

/// Sets key `name` to `value`.
fn put(es: &mut Vec<YamlEntry>, name: &str, value: YamlValue)
    ensures
        emodel_seq(final(es)@) == mset(emodel_seq(old(es)@), name@, ymodel(value)),
{
    let ghost before = es@;
    match key_index(es, name) {
        Some(i) => {
            let _ = set_value(es, i, value);
        },
        None => {
            let ghost vm = ymodel(value);
            es.push(YamlEntry { key: YamlValue::Text(owned(name)), value });
            proof {
                assert(emodel_seq(es@) =~= emodel_seq(before).push((YamlModel::Text(name@), vm)));
            }
        },
    }
}

/// Takes the list under key `name` out of the entries, leaving a
/// placeholder that a later `put` of the key overwrites.
fn take_list(es: &mut Vec<YamlEntry>, name: &str, insert: bool, missing: PatchError, not_seq: PatchError) -> (r: Result<
    Vec<YamlValue>,
    PatchError,
>)
    ensures
        match list_of(emodel_seq(old(es)@), name@, insert) {
            Some(l) => r matches Ok(v) && ymodel_seq(v@) == l && forall|x: YamlModel|
                #[trigger] mset(emodel_seq(final(es)@), name@, x) == mset(emodel_seq(old(es)@), name@, x),
            None => r is Err && (key_pos(emodel_seq(old(es)@), name@) is None ==> r == Err::<Vec<YamlValue>, PatchError>(missing))
                && (key_pos(emodel_seq(old(es)@), name@) is Some ==> r == Err::<Vec<YamlValue>, PatchError>(not_seq)),
        },
{
    let ghost before = emodel_seq(es@);
    match key_index(es, name) {
        None => {
            if !insert {
                return Err(missing);
            }
            es.push(YamlEntry { key: YamlValue::Text(owned(name)), value: YamlValue::Null });
            proof {
                let after = emodel_seq(es@);
                assert(after =~= before.push((YamlModel::Text(name@), YamlModel::Null)));
                lemma_key_pos(before, name@);
                lemma_key_pos_at(after, name@, before.len() as int);
                assert forall|x: YamlModel| #[trigger] mset(after, name@, x) == mset(before, name@, x) by {
                    assert(after.update(before.len() as int, (after[before.len() as int].0, x)) =~= before.push(
                        (YamlModel::Text(name@), x),
                    ));
                }
            }
            let empty: Vec<YamlValue> = Vec::new();
            proof {
                assert(ymodel_seq(empty@) =~= Seq::<YamlModel>::empty());
            }
            Ok(empty)
        },
        Some(i) => {
            let v = set_value(es, i, YamlValue::Null);
            proof {
                lemma_model_parts(v);
                let after = emodel_seq(es@);
                lemma_key_pos_update(before, i as int, YamlModel::Null, name@);
                assert forall|x: YamlModel| #[trigger] mset(after, name@, x) == mset(before, name@, x) by {
                    assert(after.update(i as int, (after[i as int].0, x)) =~= before.update(i as int, (before[i as int].0, x)));
                }
            }
            match v {
                YamlValue::Sequence(vs) => Ok(vs),
                _ => Err(not_seq),
            }
        },
    }
}

/// Puts the list `l` under key `name`.
fn put_list(es: &mut Vec<YamlEntry>, name: &str, l: Vec<YamlValue>)
    ensures
        emodel_seq(final(es)@) == mset(emodel_seq(old(es)@), name@, YamlModel::Sequence(ymodel_seq(l@))),
{
    let v = YamlValue::Sequence(l);
    proof {
        lemma_model_parts(v);
    }
    put(es, name, v);
}

/// Takes the mapping of the first element with id `id` out of the list.
fn take_child(list: &mut Vec<YamlValue>, id: &str, missing: PatchError, not_mapping: PatchError) -> (r: Result<
    (usize, Vec<YamlEntry>),
    PatchError,
>)
    ensures
        match first_id(ymodel_seq(old(list)@), id@) {
            None => r == Err::<(usize, Vec<YamlEntry>), PatchError>(missing),
            Some(i) => match ymodel_seq(old(list)@)[i] {
                YamlModel::Mapping(m) => r matches Ok((j, es)) && j == i && j < old(list)@.len() && emodel_seq(es@) == m
                    && final(list)@.len() == old(list)@.len() && ymodel_seq(final(list)@) == ymodel_seq(
                    old(list)@,
                ).update(i, YamlModel::Null),
                _ => r == Err::<(usize, Vec<YamlEntry>), PatchError>(not_mapping),
            },
        },
{
    let i = match id_index(list, id) {
        Some(i) => i,
        None => {
            return Err(missing);
        },
    };
    let ghost before = ymodel_seq(list@);
    let v = list.remove(i);
    list.insert(i, YamlValue::Null);
    proof {
        lemma_model_parts(v);
        assert(before[i as int] == ymodel(v));
        assert(ymodel_seq(list@) =~= before.update(i as int, YamlModel::Null));
    }
    match v {
        YamlValue::Mapping(es) => Ok((i, es)),
        _ => Err(not_mapping),
    }
}

/// Puts the mapping `es` back as element `i`.
fn put_child(list: &mut Vec<YamlValue>, i: usize, es: Vec<YamlEntry>)
    requires
        i < old(list)@.len(),
    ensures
        ymodel_seq(final(list)@) == ymodel_seq(old(list)@).update(i as int, YamlModel::Mapping(emodel_seq(es@))),
        final(list)@.len() == old(list)@.len(),
{
    let ghost before = ymodel_seq(list@);
    let v = YamlValue::Mapping(es);
    proof {
        lemma_model_parts(v);
    }
    let ghost vm = ymodel(v);
    list.remove(i);
    list.insert(i, v);
    proof {
        assert(ymodel_seq(list@) =~= before.update(i as int, vm));
    }
}

/// Takes the mapping at `i` out of the list.
fn take_at(list: &mut Vec<YamlValue>, i: usize, not_mapping: PatchError) -> (r: Result<Vec<YamlEntry>, PatchError>)
    requires
        i < old(list)@.len(),
    ensures
        match ymodel_seq(old(list)@)[i as int] {
            YamlModel::Mapping(m) => r matches Ok(es) && emodel_seq(es@) == m && final(list)@.len() == old(
                list,
            )@.len() && ymodel_seq(final(list)@) == ymodel_seq(old(list)@).update(i as int, YamlModel::Null),
            _ => r == Err::<Vec<YamlEntry>, PatchError>(not_mapping),
        },
{
    let ghost before = ymodel_seq(list@);
    let v = list.remove(i);
    list.insert(i, YamlValue::Null);
    proof {
        lemma_model_parts(v);
        assert(before[i as int] == ymodel(v));
        assert(ymodel_seq(list@) =~= before.update(i as int, YamlModel::Null));
    }
    match v {
        YamlValue::Mapping(es) => Ok(es),
        _ => Err(not_mapping),
    }
}

/// The edit of a list of entities with ids.
pub open spec fn upsert(
    list: Seq<YamlModel>,
    id: Seq<char>,
    value: YamlModel,
    operation: NestedEditOperation,
    current: Option<Seq<char>>,
) -> Result<Seq<YamlModel>, PatchError> {
    match spec_nested_edit(list.map_values(|x: YamlModel| id_of(x)), id, operation, current) {
        Ok(NestedEdit::Replace { position }) => Ok(list.update(position as int, value)),
        Ok(NestedEdit::Append) => Ok(list.push(value)),
        Ok(NestedEdit::Remove { position }) => Ok(list.remove(position as int)),
        Err(e) => Err(PatchError::Nested(e)),
    }
}

fn ids_of(list: &Vec<YamlValue>) -> (r: Vec<Option<String>>)
    ensures
        ids_view(r@) == ymodel_seq(list@).map_values(|x: YamlModel| id_of(x)),
{
    let ghost target = ymodel_seq(list@).map_values(|x: YamlModel| id_of(x));
    let mut r: Vec<Option<String>> = Vec::new();
    let mut k: usize = 0;
    while k < list.len()
        invariant
            k <= list.len(),
            target == ymodel_seq(list@).map_values(|x: YamlModel| id_of(x)),
            ids_view(r@) == target.take(k as int),
        decreases list.len() - k,
    {
        let ghost before = ids_view(r@);
        let item = &list[k];
        proof {
            lemma_model_parts(*item);
        }
        let id: Option<String> = match item {
            YamlValue::Mapping(es) => match key_index(es, "id") {
                Some(i) => {
                    proof {
                        assert(emodel_seq(es@)[i as int] == emodel(es@[i as int]));
                    }
                    match &es[i].value {
                        YamlValue::Text(s) => Some(owned(s.as_str())),
                        _ => None,
                    }
                },
                None => None,
            },
            _ => None,
        };
        r.push(id);
        proof {
            assert(target[k as int] == id_of(ymodel(list@[k as int])));
            assert(ids_view(r@) =~= before.push(crate::projection::opt_view(id)));
            assert(target.take(k + 1) =~= target.take(k as int).push(target[k as int]));
        }
        k = k + 1;
    }
    proof {
        assert(target.take(target.len() as int) =~= target);
    }
    r
}

fn upsert_exec(
    list: &mut Vec<YamlValue>,
    id: &str,
    value: YamlValue,
    operation: NestedEditOperation,
    current: Option<&str>,
) -> (r: Result<(), PatchError>)
    ensures
        match upsert(
            ymodel_seq(old(list)@),
            id@,
            ymodel(value),
            operation,
            match current {
                Some(c) => Some(c@),
                None => None,
            },
        ) {
            Ok(l) => r is Ok && ymodel_seq(final(list)@) == l,
            Err(e) => r == Err::<(), PatchError>(e),
        },
{
    let ghost before = ymodel_seq(list@);
    let ghost vm = ymodel(value);
    let ids = ids_of(list);
    match nested_edit(&ids, id, operation, current) {
        Err(e) => Err(PatchError::Nested(e)),
        Ok(edit) => {
            proof {
                if exists|k: int| crate::projection::first_with_id(ids_view(ids@), id@, k) {
                    let k = choose|k: int| crate::projection::first_with_id(ids_view(ids@), id@, k);
                    assert(k < list@.len());
                }
            }
            apply_nested_edit(list, edit, value);
            proof {
                match edit {
                    NestedEdit::Replace { position } => {
                        assert(ymodel_seq(list@) =~= before.update(position as int, vm));
                    },
                    NestedEdit::Append => {
                        assert(ymodel_seq(list@) =~= before.push(vm));
                    },
                    NestedEdit::Remove { position } => {
                        assert(ymodel_seq(list@) =~= before.remove(position as int));
                    },
                }
            }
            Ok(())
        },
    }
}

/// The edit of a target's claims at `index`.
pub open spec fn claim_edit(
    list: Seq<YamlModel>,
    index: nat,
    operation: NestedEditOperation,
    value: YamlModel,
) -> Result<Seq<YamlModel>, PatchError> {
    match operation {
        NestedEditOperation::Upsert => if index > list.len() {
            Err(PatchError::ClaimIndexOutside)
        } else if index == list.len() {
            Ok(list.push(value))
        } else {
            Ok(list.update(index as int, value))
        },
        NestedEditOperation::Delete => if index >= list.len() {
            Err(PatchError::ClaimIndexOutside)
        } else {
            Ok(list.remove(index as int))
        },
    }
}

fn claim_exec(list: &mut Vec<YamlValue>, index: usize, operation: NestedEditOperation, value: YamlValue) -> (r: Result<
    (),
    PatchError,
>)
    ensures
        match claim_edit(ymodel_seq(old(list)@), index as nat, operation, ymodel(value)) {
            Ok(l) => r is Ok && ymodel_seq(final(list)@) == l,
            Err(e) => r == Err::<(), PatchError>(e),
        },
{
    let ghost before = ymodel_seq(list@);
    let ghost vm = ymodel(value);
    match operation {
        NestedEditOperation::Upsert => {
            if index > list.len() {
                return Err(PatchError::ClaimIndexOutside);
            }
            if index == list.len() {
                list.push(value);
                proof {
                    assert(ymodel_seq(list@) =~= before.push(vm));
                }
            } else {
                list.set(index, value);
                proof {
                    assert(ymodel_seq(list@) =~= before.update(index as int, vm));
                }
            }
        },
        NestedEditOperation::Delete => {
            if index >= list.len() {
                return Err(PatchError::ClaimIndexOutside);
            }
            list.remove(index);
            proof {
                assert(ymodel_seq(list@) =~= before.remove(index as int));
            }
        },
    }
    Ok(())
}

// ---------------------------------------------------------------------------
// Specification edits

/// A field an edit writes: its key and its value.
#[derive(Debug)]
pub struct PatchField {
    pub key: String,
    pub value: YamlValue,
}

/// The kind of a local anchor of an item.
#[derive(Debug, Clone, Copy, PartialEq, Eq, Structural)]
pub enum AnchorKind {
    Principle,
    Rule,
    Criterion,
    Binding,
    Contract,
}

/// An edit of a nested entity of an item: a binding or contract of the
/// item, an ownership scope or target of a binding, or a claim of a target.
/// `value` is the entity in its YAML form and `id` its id.
#[derive(Debug)]
pub enum NestedPatch {
    Binding { operation: NestedEditOperation, id: String, value: YamlValue, current_id: Option<String> },
    Ownership {
        operation: NestedEditOperation,
        binding_id: String,
        id: String,
        value: YamlValue,
        current_id: Option<String>,
    },
    Target {
        operation: NestedEditOperation,
        binding_id: String,
        id: String,
        value: YamlValue,
        current_id: Option<String>,
    },
    Claim {
        operation: NestedEditOperation,
        binding_id: String,
        target_id: String,
        claim_index: usize,
        value: YamlValue,
    },
    Contract { operation: NestedEditOperation, id: String, value: YamlValue, current_id: Option<String> },
}

/// An edit of a specification document: of one item's own fields, of the
/// fields of one of its principles, rules or criteria (named by the parts
/// of its anchor), or of a nested entity; a new criterion of a requirement;
/// a new requirement or feature; a new target of a feature's implementation
/// binding; or a project configuration, which is no specification edit.
/// New entities come in their YAML form, with their ids, already checked
/// by the caller against the project's model (a target's repository path
/// among them).
#[derive(Debug)]
pub enum EditPatch {
    Specification { item_id: String, fields: Vec<PatchField> },
    Anchor { item_id: String, kind: AnchorKind, local_id: String, fields: Vec<PatchField> },
    Nested { item_id: String, edit: NestedPatch },
    AddCriterion { requirement_id: String, criterion_id: String, criterion: YamlValue },
    CreateRequirement { item: YamlValue },
    CreateFeature { item: YamlValue },
    AddFeatureTarget { feature_id: String, target_id: String, target: YamlValue },
    Config,
}

pub open spec fn opt_str(o: Option<String>) -> Option<Seq<char>> {
    match o {
        Some(s) => Some(s@),
        None => None,
    }
}

/// Writes the fields in order; with `guard`, `id`, `bindings` and
/// `contracts` are left alone.
pub open spec fn apply_fields(es: Seq<YEntry>, fields: Seq<PatchField>, guard: bool) -> Seq<YEntry>
    decreases fields.len(),
{
    if fields.len() == 0 {
        es
    } else {
        let prev = apply_fields(es, fields.drop_last(), guard);
        let f = fields.last();
        if guard && protected_field(f.key@) {
            prev
        } else {
            mset(prev, f.key@, ymodel(f.value))
        }
    }
}

/// Edits the list under `name` (made empty when missing) and puts it back.
pub open spec fn within_list(
    es: Seq<YEntry>,
    name: Seq<char>,
    edit: spec_fn(Seq<YamlModel>) -> Result<Seq<YamlModel>, PatchError>,
) -> Result<Seq<YEntry>, PatchError> {
    match list_of(es, name, true) {
        None => Err(PatchError::NotSequence),
        Some(l) => match edit(l) {
            Ok(l2) => Ok(mset(es, name, YamlModel::Sequence(l2))),
            Err(e) => Err(e),
        },
    }
}

/// Edits the mapping of the first entity with id `id` and puts it back.
pub open spec fn within_entity(
    l: Seq<YamlModel>,
    id: Seq<char>,
    edit: spec_fn(Seq<YEntry>) -> Result<Seq<YEntry>, PatchError>,
) -> Result<Seq<YamlModel>, PatchError> {
    match first_id(l, id) {
        None => Err(PatchError::EntityNotFound),
        Some(i) => match l[i] {
            YamlModel::Mapping(m) => match edit(m) {
                Ok(m2) => Ok(l.update(i, YamlModel::Mapping(m2))),
                Err(e) => Err(e),
            },
            _ => Err(PatchError::EntityNotFound),
        },
    }
}

/// What a nested edit makes of an item's entries.
pub open spec fn nested_spec(es: Seq<YEntry>, p: NestedPatch) -> Result<Seq<YEntry>, PatchError> {
    match p {
        NestedPatch::Binding { operation, id, value, current_id } => within_list(
            es,
            "bindings"@,
            |l: Seq<YamlModel>| upsert(l, id@, ymodel(value), operation, opt_str(current_id)),
        ),
        NestedPatch::Contract { operation, id, value, current_id } => within_list(
            es,
            "contracts"@,
            |l: Seq<YamlModel>| upsert(l, id@, ymodel(value), operation, opt_str(current_id)),
        ),
        NestedPatch::Ownership { operation, binding_id, id, value, current_id } => within_list(
            es,
            "bindings"@,
            |l: Seq<YamlModel>|
                within_entity(
                    l,
                    binding_id@,
                    |b: Seq<YEntry>|
                        within_list(
                            b,
                            "owns"@,
                            |o: Seq<YamlModel>| upsert(o, id@, ymodel(value), operation, opt_str(current_id)),
                        ),
                ),
        ),
        NestedPatch::Target { operation, binding_id, id, value, current_id } => within_list(
            es,
            "bindings"@,
            |l: Seq<YamlModel>|
                within_entity(
                    l,
                    binding_id@,
                    |b: Seq<YEntry>|
                        within_list(
                            b,
                            "targets"@,
                            |t: Seq<YamlModel>| upsert(t, id@, ymodel(value), operation, opt_str(current_id)),
                        ),
                ),
        ),
        NestedPatch::Claim { operation, binding_id, target_id, claim_index, value } => within_list(
            es,
            "bindings"@,
            |l: Seq<YamlModel>|
                within_entity(
                    l,
                    binding_id@,
                    |b: Seq<YEntry>|
                        within_list(
                            b,
                            "targets"@,
                            |t: Seq<YamlModel>|
                                within_entity(
                                    t,
                                    target_id@,
                                    |tm: Seq<YEntry>|
                                        within_list(
                                            tm,
                                            "claims"@,
                                            |c: Seq<YamlModel>| claim_edit(c, claim_index as nat, operation, ymodel(value)),
                                        ),
                                ),
                        ),
                ),
        ),
    }
}

/// The list an anchor kind is kept in; bindings and contracts are edited
/// as nested entities instead.
pub open spec fn anchor_collection(kind: AnchorKind) -> Option<Seq<char>> {
    match kind {
        AnchorKind::Principle => Some("principles"@),
        AnchorKind::Rule => Some("rules"@),
        AnchorKind::Criterion => Some("criteria"@),
        _ => None,
    }
}

/// What an edit makes of the item's entries.
pub open spec fn item_edit(es: Seq<YEntry>, p: EditPatch) -> Result<Seq<YEntry>, PatchError> {
    match p {
        EditPatch::Specification { fields, .. } => Ok(apply_fields(es, fields@, true)),
        EditPatch::Anchor { kind, local_id, fields, .. } => match anchor_collection(kind) {
            None => Err(PatchError::AnchorNotEditable),
            Some(c) => match list_of(es, c, false) {
                None => Err(PatchError::AnchorCollectionMissing),
                Some(l) => match first_id(l, local_id@) {
                    None => Err(PatchError::AnchorNotFound),
                    Some(j) => match l[j] {
                        YamlModel::Mapping(m) => Ok(
                            mset(es, c, YamlModel::Sequence(l.update(j, YamlModel::Mapping(apply_fields(m, fields@, false))))),
                        ),
                        _ => Err(PatchError::AnchorNotMapping),
                    },
                },
            },
        },
        EditPatch::Nested { edit, .. } => nested_spec(es, edit),
        EditPatch::AddCriterion { criterion_id, criterion, .. } => match list_of(es, "criteria"@, false) {
            None => Err(PatchError::CriteriaMissing),
            Some(l) => if first_id(l, criterion_id@) is Some {
                Err(PatchError::CriterionExists)
            } else {
                Ok(mset(es, "criteria"@, YamlModel::Sequence(l.push(ymodel(criterion)))))
            },
        },
        EditPatch::AddFeatureTarget { target_id, target, .. } => match list_of(es, "bindings"@, true) {
            None => Err(PatchError::FeatureInvalid),
            Some(bs) => match first_role(bs, "implementation"@) {
                None => Err(PatchError::NoImplementationBinding),
                Some(j) => match bs[j] {
                    YamlModel::Mapping(b) => match list_of(b, "targets"@, true) {
                        None => Err(PatchError::FeatureInvalid),
                        Some(ts) => if first_id(ts, target_id@) is Some {
                            Err(PatchError::TargetExists)
                        } else {
                            Ok(
                                mset(
                                    es,
                                    "bindings"@,
                                    YamlModel::Sequence(
                                        bs.update(
                                            j,
                                            YamlModel::Mapping(
                                                mset(b, "targets"@, YamlModel::Sequence(ts.push(ymodel(target)))),
                                            ),
                                        ),
                                    ),
                                ),
                            )
                        },
                    },
                    _ => Err(PatchError::FeatureInvalid),
                },
            },
        },
        _ => Err(PatchError::NotSpecificationPatch),
    }
}

/// The id of the item an edit changes (new items have none).
pub open spec fn patch_item_id(p: EditPatch) -> Seq<char> {
    match p {
        EditPatch::Specification { item_id, .. } => item_id@,
        EditPatch::Anchor { item_id, .. } => item_id@,
        EditPatch::Nested { item_id, .. } => item_id@,
        EditPatch::AddCriterion { requirement_id, .. } => requirement_id@,
        EditPatch::AddFeatureTarget { feature_id, .. } => feature_id@,
        _ => Seq::empty(),
    }
}

/// The kind of document an edit is bound to, if it is bound to one.
pub open spec fn required_kind(p: EditPatch) -> Option<Seq<char>> {
    match p {
        EditPatch::AddCriterion { .. } => Some("requirements"@),
        EditPatch::CreateRequirement { .. } => Some("requirements"@),
        EditPatch::CreateFeature { .. } => Some("features"@),
        EditPatch::AddFeatureTarget { .. } => Some("features"@),
        _ => None,
    }
}

/// How an edit bound to another kind of document is refused.
pub open spec fn wrong_kind(p: EditPatch) -> PatchError {
    match p {
        EditPatch::AddCriterion { .. } => PatchError::CriterionOutsideRequirements,
        EditPatch::CreateRequirement { .. } => PatchError::NotRequirementsDocument,
        _ => PatchError::NotFeaturesDocument,
    }
}

/// A requirement lists at least one criterion.
pub open spec fn has_criteria(item: YamlModel) -> bool {
    mget(item, "criteria"@) matches Some(YamlModel::Sequence(c)) && c.len() > 0
}

/// The new item an edit appends to the document's list, if it makes one.
pub open spec fn created_item(p: EditPatch) -> Option<YamlModel> {
    match p {
        EditPatch::CreateRequirement { item } => Some(ymodel(item)),
        EditPatch::CreateFeature { item } => Some(ymodel(item)),
        _ => None,
    }
}

/// The four kinds of specification document, each keeping its items under
/// a key of its own name.
pub open spec fn collection_name(kind: Seq<char>) -> bool {
    kind == "philosophies"@ || kind == "policies"@ || kind == "requirements"@ || kind == "features"@
}

/// What an edit makes of a specification document. A configuration is
/// refused. Otherwise the document's kind names the list of its items and
/// must be one of the four specification kinds; an edit bound to another
/// kind is refused, and so is a new requirement without criteria. A new
/// requirement or feature is appended to the list; any other edit changes
/// the item with its id, which is put back in place.
pub open spec fn spec_patch(doc: YamlModel, p: EditPatch) -> Result<YamlModel, PatchError> {
    if p is Config {
        Err(PatchError::NotSpecificationPatch)
    } else {
        match text_of(mget(doc, "kind"@)) {
            None => Err(PatchError::KindMissing),
            Some(kind) => if !collection_name(kind) {
                Err(PatchError::UnsupportedKind)
            } else if required_kind(p) is Some && required_kind(p) != Some(kind) {
                Err(wrong_kind(p))
            } else if p matches EditPatch::CreateRequirement { item } && !has_criteria(ymodel(item)) {
                Err(PatchError::NoCriteria)
            } else {
                match doc {
                    YamlModel::Mapping(es) => match list_of(es, kind, false) {
                        None => Err(PatchError::CollectionMissing),
                        Some(l) => match created_item(p) {
                            Some(v) => Ok(YamlModel::Mapping(mset(es, kind, YamlModel::Sequence(l.push(v))))),
                            None => match first_id(l, patch_item_id(p)) {
                                None => Err(PatchError::ItemNotFound),
                                Some(i) => match l[i] {
                                    YamlModel::Mapping(m) => match item_edit(m, p) {
                                        Ok(m2) => Ok(
                                            YamlModel::Mapping(
                                                mset(es, kind, YamlModel::Sequence(l.update(i, YamlModel::Mapping(m2)))),
                                            ),
                                        ),
                                        Err(e) => Err(e),
                                    },
                                    _ => Err(PatchError::ItemNotMapping),
                                },
                            },
                        },
                    },
                    _ => Err(PatchError::KindMissing),
                }
            },
        }
    }
}

fn apply_fields_exec(es: &mut Vec<YamlEntry>, fields: Vec<PatchField>, guard: bool)
    ensures
        emodel_seq(final(es)@) == apply_fields(emodel_seq(old(es)@), fields@, guard),
{
    let ghost orig = fields@;
    let ghost start = emodel_seq(es@);
    let mut rest = fields;
    let mut k: usize = 0;
    assert(orig.len() == rest.len());
    while rest.len() > 0
        invariant
            k <= orig.len(),
            orig.len() <= usize::MAX,
            rest@ == orig.skip(k as int),
            rest@.len() == orig.len() - k,
            emodel_seq(es@) == apply_fields(start, orig.take(k as int), guard),
        decreases rest.len(),
    {
        let f = rest.remove(0);
        proof {
            assert(f == orig[k as int]);
            assert(orig.take(k + 1).drop_last() =~= orig.take(k as int));
            assert(orig.take(k + 1).last() == orig[k as int]);
            assert(rest@ =~= orig.skip(k + 1));
        }
        let PatchField { key, value } = f;
        let c = crate::text::chars_of(key.as_str());
        let protected = str_eq(key.as_str(), "id") || str_eq(key.as_str(), "bindings") || str_eq(
            key.as_str(),
            "contracts",
        );
        if !(guard && protected) {
            put(es, key.as_str(), value);
        }
        k = k + 1;
    }
    proof {
        assert(orig.take(k as int) =~= orig);
    }
}

fn opt_ref(o: &Option<String>) -> (r: Option<&str>)
    ensures
        match r {
            Some(c) => Some(c@),
            None => None::<Seq<char>>,
        } == opt_str(*o),
{
    match o {
        Some(s) => Some(s.as_str()),
        None => None,
    }
}

/// Upserts or deletes entity `id` in the list under `name`.
fn upsert_in(
    es: &mut Vec<YamlEntry>,
    name: &str,
    id: &str,
    value: YamlValue,
    operation: NestedEditOperation,
    current: Option<&str>,
) -> (r: Result<(), PatchError>)
    ensures
        ({
            let cv = match current {
                Some(c) => Some(c@),
                None => None::<Seq<char>>,
            };
            match within_list(emodel_seq(old(es)@), name@, |l: Seq<YamlModel>| upsert(l, id@, ymodel(value), operation, cv)) {
                Ok(m) => r is Ok && emodel_seq(final(es)@) == m,
                Err(e) => r == Err::<(), PatchError>(e),
            }
        }),
{
    let ghost e0 = emodel_seq(es@);
    let mut l = match take_list(es, name, true, PatchError::NotSequence, PatchError::NotSequence) {
        Ok(l) => l,
        Err(e) => {
            return Err(e);
        },
    };
    match upsert_exec(&mut l, id, value, operation, current) {
        Ok(()) => {},
        Err(e) => {
            return Err(e);
        },
    }
    let ghost e1 = emodel_seq(es@);
    put_list(es, name, l);
    proof {
        assert(mset(e1, name@, YamlModel::Sequence(ymodel_seq(l@))) == mset(e0, name@, YamlModel::Sequence(ymodel_seq(l@))));
    }
    Ok(())
}

/// Upserts or deletes entity `id` in the list `inner` of binding
/// `binding_id`.
fn binding_upsert(
    es: &mut Vec<YamlEntry>,
    binding_id: &str,
    inner: &str,
    id: &str,
    value: YamlValue,
    operation: NestedEditOperation,
    current: Option<&str>,
) -> (r: Result<(), PatchError>)
    ensures
        ({
            let cv = match current {
                Some(c) => Some(c@),
                None => None::<Seq<char>>,
            };
            let vm = ymodel(value);
            match within_list(
                emodel_seq(old(es)@),
                "bindings"@,
                |l: Seq<YamlModel>|
                    within_entity(
                        l,
                        binding_id@,
                        |b: Seq<YEntry>| within_list(b, inner@, |o: Seq<YamlModel>| upsert(o, id@, vm, operation, cv)),
                    ),
            ) {
                Ok(m) => r is Ok && emodel_seq(final(es)@) == m,
                Err(e) => r == Err::<(), PatchError>(e),
            }
        }),
{
    let ghost e0 = emodel_seq(es@);
    let mut l = match take_list(es, "bindings", true, PatchError::NotSequence, PatchError::NotSequence) {
        Ok(l) => l,
        Err(e) => {
            return Err(e);
        },
    };
    let ghost l0 = ymodel_seq(l@);
    let (i, mut b) = match take_child(&mut l, binding_id, PatchError::EntityNotFound, PatchError::EntityNotFound) {
        Ok(x) => x,
        Err(e) => {
            return Err(e);
        },
    };
    match upsert_in(&mut b, inner, id, value, operation, current) {
        Ok(()) => {},
        Err(e) => {
            return Err(e);
        },
    }
    let ghost bm = emodel_seq(b@);
    put_child(&mut l, i, b);
    proof {
        assert(ymodel_seq(l@) =~= l0.update(i as int, YamlModel::Mapping(bm)));
    }
    let ghost e1 = emodel_seq(es@);
    put_list(es, "bindings", l);
    proof {
        assert(mset(e1, "bindings"@, YamlModel::Sequence(ymodel_seq(l@))) == mset(
            e0,
            "bindings"@,
            YamlModel::Sequence(ymodel_seq(l@)),
        ));
    }
    Ok(())
}

/// Edits claim `index` of target `target_id` of binding `binding_id`.
fn claim_in(
    es: &mut Vec<YamlEntry>,
    binding_id: &str,
    target_id: &str,
    index: usize,
    operation: NestedEditOperation,
    value: YamlValue,
) -> (r: Result<(), PatchError>)
    ensures
        ({
            let vm = ymodel(value);
            match within_list(
                emodel_seq(old(es)@),
                "bindings"@,
                |l: Seq<YamlModel>|
                    within_entity(
                        l,
                        binding_id@,
                        |b: Seq<YEntry>|
                            within_list(
                                b,
                                "targets"@,
                                |t: Seq<YamlModel>|
                                    within_entity(
                                        t,
                                        target_id@,
                                        |tm: Seq<YEntry>|
                                            within_list(
                                                tm,
                                                "claims"@,
                                                |c: Seq<YamlModel>| claim_edit(c, index as nat, operation, vm),
                                            ),
                                    ),
                            ),
                    ),
            ) {
                Ok(m) => r is Ok && emodel_seq(final(es)@) == m,
                Err(e) => r == Err::<(), PatchError>(e),
            }
        }),
{
    let ghost e0 = emodel_seq(es@);
    let mut l = match take_list(es, "bindings", true, PatchError::NotSequence, PatchError::NotSequence) {
        Ok(l) => l,
        Err(e) => {
            return Err(e);
        },
    };
    let ghost l0 = ymodel_seq(l@);
    let (i, mut b) = match take_child(&mut l, binding_id, PatchError::EntityNotFound, PatchError::EntityNotFound) {
        Ok(x) => x,
        Err(e) => {
            return Err(e);
        },
    };
    let ghost b0 = emodel_seq(b@);
    let mut tl = match take_list(&mut b, "targets", true, PatchError::NotSequence, PatchError::NotSequence) {
        Ok(x) => x,
        Err(e) => {
            return Err(e);
        },
    };
    let ghost t0 = ymodel_seq(tl@);
    let (j, mut t) = match take_child(&mut tl, target_id, PatchError::EntityNotFound, PatchError::EntityNotFound) {
        Ok(x) => x,
        Err(e) => {
            return Err(e);
        },
    };
    let ghost tm0 = emodel_seq(t@);
    let mut cl = match take_list(&mut t, "claims", true, PatchError::NotSequence, PatchError::NotSequence) {
        Ok(x) => x,
        Err(e) => {
            return Err(e);
        },
    };
    match claim_exec(&mut cl, index, operation, value) {
        Ok(()) => {},
        Err(e) => {
            return Err(e);
        },
    }
    let ghost tm1 = emodel_seq(t@);
    put_list(&mut t, "claims", cl);
    proof {
        assert(mset(tm1, "claims"@, YamlModel::Sequence(ymodel_seq(cl@))) == mset(
            tm0,
            "claims"@,
            YamlModel::Sequence(ymodel_seq(cl@)),
        ));
    }
    let ghost tm2 = emodel_seq(t@);
    put_child(&mut tl, j, t);
    proof {
        assert(ymodel_seq(tl@) =~= t0.update(j as int, YamlModel::Mapping(tm2)));
    }
    let ghost b1 = emodel_seq(b@);
    put_list(&mut b, "targets", tl);
    proof {
        assert(mset(b1, "targets"@, YamlModel::Sequence(ymodel_seq(tl@))) == mset(
            b0,
            "targets"@,
            YamlModel::Sequence(ymodel_seq(tl@)),
        ));
    }
    let ghost b2 = emodel_seq(b@);
    put_child(&mut l, i, b);
    proof {
        assert(ymodel_seq(l@) =~= l0.update(i as int, YamlModel::Mapping(b2)));
    }
    let ghost e1 = emodel_seq(es@);
    put_list(es, "bindings", l);
    proof {
        assert(mset(e1, "bindings"@, YamlModel::Sequence(ymodel_seq(l@))) == mset(
            e0,
            "bindings"@,
            YamlModel::Sequence(ymodel_seq(l@)),
        ));
    }
    Ok(())
}

fn nested_exec(es: &mut Vec<YamlEntry>, p: NestedPatch) -> (r: Result<(), PatchError>)
    ensures
        match nested_spec(emodel_seq(old(es)@), p) {
            Ok(m) => r is Ok && emodel_seq(final(es)@) == m,
            Err(e) => r == Err::<(), PatchError>(e),
        },
{
    match p {
        NestedPatch::Binding { operation, id, value, current_id } => {
            let c = opt_ref(&current_id);
            upsert_in(es, "bindings", id.as_str(), value, operation, c)
        },
        NestedPatch::Contract { operation, id, value, current_id } => {
            let c = opt_ref(&current_id);
            upsert_in(es, "contracts", id.as_str(), value, operation, c)
        },
        NestedPatch::Ownership { operation, binding_id, id, value, current_id } => {
            let c = opt_ref(&current_id);
            binding_upsert(es, binding_id.as_str(), "owns", id.as_str(), value, operation, c)
        },
        NestedPatch::Target { operation, binding_id, id, value, current_id } => {
            let c = opt_ref(&current_id);
            binding_upsert(es, binding_id.as_str(), "targets", id.as_str(), value, operation, c)
        },
        NestedPatch::Claim { operation, binding_id, target_id, claim_index, value } => {
            claim_in(es, binding_id.as_str(), target_id.as_str(), claim_index, operation, value)
        },
    }
}

fn item_edit_exec(es: &mut Vec<YamlEntry>, p: EditPatch) -> (r: Result<(), PatchError>)
    ensures
        match item_edit(emodel_seq(old(es)@), p) {
            Ok(m) => r is Ok && emodel_seq(final(es)@) == m,
            Err(e) => r == Err::<(), PatchError>(e),
        },
{
    match p {
        EditPatch::Specification { fields, .. } => {
            apply_fields_exec(es, fields, true);
            Ok(())
        },
        EditPatch::Nested { edit, .. } => nested_exec(es, edit),
        EditPatch::AddCriterion { criterion_id, criterion, .. } => {
            let ghost e0 = emodel_seq(es@);
            let mut l = match take_list(es, "criteria", false, PatchError::CriteriaMissing, PatchError::CriteriaMissing) {
                Ok(l) => l,
                Err(e) => {
                    return Err(e);
                },
            };
            if id_index(&l, criterion_id.as_str()).is_some() {
                return Err(PatchError::CriterionExists);
            }
            let ghost l0 = ymodel_seq(l@);
            let ghost cm = ymodel(criterion);
            l.push(criterion);
            proof {
                assert(ymodel_seq(l@) =~= l0.push(cm));
            }
            let ghost e1 = emodel_seq(es@);
            put_list(es, "criteria", l);
            proof {
                assert(mset(e1, "criteria"@, YamlModel::Sequence(ymodel_seq(l@))) == mset(
                    e0,
                    "criteria"@,
                    YamlModel::Sequence(ymodel_seq(l@)),
                ));
            }
            Ok(())
        },
        EditPatch::AddFeatureTarget { target_id, target, .. } => {
            let ghost e0 = emodel_seq(es@);
            let mut bs = match take_list(es, "bindings", true, PatchError::FeatureInvalid, PatchError::FeatureInvalid) {
                Ok(l) => l,
                Err(e) => {
                    return Err(e);
                },
            };
            let ghost b0 = ymodel_seq(bs@);
            let j = match role_index(&bs, "implementation") {
                Some(j) => j,
                None => {
                    return Err(PatchError::NoImplementationBinding);
                },
            };
            let mut b = match take_at(&mut bs, j, PatchError::FeatureInvalid) {
                Ok(b) => b,
                Err(e) => {
                    return Err(e);
                },
            };
            let ghost bm0 = emodel_seq(b@);
            let mut ts = match take_list(&mut b, "targets", true, PatchError::FeatureInvalid, PatchError::FeatureInvalid) {
                Ok(l) => l,
                Err(e) => {
                    return Err(e);
                },
            };
            if id_index(&ts, target_id.as_str()).is_some() {
                return Err(PatchError::TargetExists);
            }
            let ghost t0 = ymodel_seq(ts@);
            let ghost tm = ymodel(target);
            ts.push(target);
            proof {
                assert(ymodel_seq(ts@) =~= t0.push(tm));
            }
            let ghost bm1 = emodel_seq(b@);
            put_list(&mut b, "targets", ts);
            proof {
                assert(mset(bm1, "targets"@, YamlModel::Sequence(ymodel_seq(ts@))) == mset(
                    bm0,
                    "targets"@,
                    YamlModel::Sequence(ymodel_seq(ts@)),
                ));
            }
            let ghost bm = emodel_seq(b@);
            put_child(&mut bs, j, b);
            proof {
                assert(ymodel_seq(bs@) =~= b0.update(j as int, YamlModel::Mapping(bm)));
            }
            let ghost e1 = emodel_seq(es@);
            put_list(es, "bindings", bs);
            proof {
                assert(mset(e1, "bindings"@, YamlModel::Sequence(ymodel_seq(bs@))) == mset(
                    e0,
                    "bindings"@,
                    YamlModel::Sequence(ymodel_seq(bs@)),
                ));
            }
            Ok(())
        },
        EditPatch::CreateRequirement { .. } => Err(PatchError::NotSpecificationPatch),
        EditPatch::CreateFeature { .. } => Err(PatchError::NotSpecificationPatch),
        EditPatch::Config => Err(PatchError::NotSpecificationPatch),
        EditPatch::Anchor { kind, local_id, fields, .. } => {
            let name = match kind {
                AnchorKind::Principle => "principles",
                AnchorKind::Rule => "rules",
                AnchorKind::Criterion => "criteria",
                _ => {
                    return Err(PatchError::AnchorNotEditable);
                },
            };
            proof {
                reveal_strlit("principles");
                reveal_strlit("rules");
                reveal_strlit("criteria");
                assert(anchor_collection(kind) == Some(name@));
            }
            let ghost e0 = emodel_seq(es@);
            let mut l = match take_list(
                es,
                name,
                false,
                PatchError::AnchorCollectionMissing,
                PatchError::AnchorCollectionMissing,
            ) {
                Ok(l) => l,
                Err(e) => {
                    return Err(e);
                },
            };
            let ghost l0 = ymodel_seq(l@);
            let (j, mut a) = match take_child(
                &mut l,
                local_id.as_str(),
                PatchError::AnchorNotFound,
                PatchError::AnchorNotMapping,
            ) {
                Ok(x) => x,
                Err(e) => {
                    return Err(e);
                },
            };
            apply_fields_exec(&mut a, fields, false);
            let ghost am = emodel_seq(a@);
            put_child(&mut l, j, a);
            proof {
                assert(ymodel_seq(l@) =~= l0.update(j as int, YamlModel::Mapping(am)));
            }
            let ghost e1 = emodel_seq(es@);
            put_list(es, name, l);
            proof {
                assert(mset(e1, name@, YamlModel::Sequence(ymodel_seq(l@))) == mset(
                    e0,
                    name@,
                    YamlModel::Sequence(ymodel_seq(l@)),
                ));
            }
            Ok(())
        },
    }
}

fn item_id_of(p: &EditPatch) -> (r: &str)
    ensures
        r@ == patch_item_id(*p),
{
    proof {
        reveal_strlit("");
    }
    match p {
        EditPatch::Specification { item_id, .. } => item_id.as_str(),
        EditPatch::Anchor { item_id, .. } => item_id.as_str(),
        EditPatch::Nested { item_id, .. } => item_id.as_str(),
        EditPatch::AddCriterion { requirement_id, .. } => requirement_id.as_str(),
        EditPatch::AddFeatureTarget { feature_id, .. } => feature_id.as_str(),
        _ => "",
    }
}

fn lists_criteria(item: &YamlValue) -> (r: bool)
    ensures
        r == has_criteria(ymodel(*item)),
{
    proof {
        lemma_model_parts(*item);
    }
    match item {
        YamlValue::Mapping(es) => match key_index(es, "criteria") {
            Some(i) => {
                proof {
                    assert(emodel_seq(es@)[i as int] == emodel(es@[i as int]));
                }
                match &es[i].value {
                    YamlValue::Sequence(c) => {
                        proof {
                            lemma_model_parts(es@[i as int].value);
                        }
                        c.len() > 0
                    },
                    _ => false,
                }
            },
            None => false,
        },
        _ => false,
    }
}

fn apply_patch(doc: YamlValue, patch: EditPatch) -> (r: Result<YamlValue, PatchError>)
    ensures
        match r {
            Ok(v) => spec_patch(ymodel(doc), patch) == Ok::<YamlModel, PatchError>(ymodel(v)),
            Err(e) => spec_patch(ymodel(doc), patch) == Err::<YamlModel, PatchError>(e),
        },
{
    proof {
        lemma_model_parts(doc);
    }
    if let EditPatch::Config = patch {
        return Err(PatchError::NotSpecificationPatch);
    }
    let ghost dm = ymodel(doc);
    let mut es = match doc {
        YamlValue::Mapping(es) => es,
        _ => {
            return Err(PatchError::KindMissing);
        },
    };
    let ghost e0 = emodel_seq(es@);
    let name: &str = match key_index(&es, "kind") {
        None => {
            return Err(PatchError::KindMissing);
        },
        Some(i) => {
            proof {
                assert(e0[i as int] == emodel(es@[i as int]));
            }
            match &es[i].value {
                YamlValue::Text(k) => {
                    if str_eq(k.as_str(), "philosophies") {
                        "philosophies"
                    } else if str_eq(k.as_str(), "policies") {
                        "policies"
                    } else if str_eq(k.as_str(), "requirements") {
                        "requirements"
                    } else if str_eq(k.as_str(), "features") {
                        "features"
                    } else {
                        proof {
                            reveal_strlit("philosophies");
                            reveal_strlit("policies");
                            reveal_strlit("requirements");
                            reveal_strlit("features");
                        }
                        return Err(PatchError::UnsupportedKind);
                    }
                },
                _ => {
                    return Err(PatchError::KindMissing);
                },
            }
        },
    };
    proof {
        assert(text_of(mget(dm, "kind"@)) == Some(name@));
        reveal_strlit("requirements");
        reveal_strlit("features");
    }
    let bound: Option<&str> = match &patch {
        EditPatch::AddCriterion { .. } => Some("requirements"),
        EditPatch::CreateRequirement { .. } => Some("requirements"),
        EditPatch::CreateFeature { .. } => Some("features"),
        EditPatch::AddFeatureTarget { .. } => Some("features"),
        _ => None,
    };
    if let Some(k) = bound {
        if !str_eq(name, k) {
            return Err(
                match &patch {
                    EditPatch::AddCriterion { .. } => PatchError::CriterionOutsideRequirements,
                    EditPatch::CreateRequirement { .. } => PatchError::NotRequirementsDocument,
                    _ => PatchError::NotFeaturesDocument,
                },
            );
        }
    }
    if let EditPatch::CreateRequirement { item } = &patch {
        if !lists_criteria(item) {
            return Err(PatchError::NoCriteria);
        }
    }
    let mut l = match take_list(
        &mut es,
        name,
        false,
        PatchError::CollectionMissing,
        PatchError::CollectionMissing,
    ) {
        Ok(l) => l,
        Err(e) => {
            return Err(e);
        },
    };
    let ghost l0 = ymodel_seq(l@);
    let ghost c0 = created_item(patch);
    let created = match patch {
        EditPatch::CreateRequirement { item } => Ok(item),
        EditPatch::CreateFeature { item } => Ok(item),
        other => Err(other),
    };
    let patch = match created {
        Ok(item) => {
            let ghost im = ymodel(item);
            l.push(item);
            proof {
                assert(ymodel_seq(l@) =~= l0.push(im));
            }
            let ghost e1 = emodel_seq(es@);
            put_list(&mut es, name, l);
            proof {
                assert(mset(e1, name@, YamlModel::Sequence(ymodel_seq(l@))) == mset(
                    e0,
                    name@,
                    YamlModel::Sequence(ymodel_seq(l@)),
                ));
            }
            let v = YamlValue::Mapping(es);
            proof {
                lemma_model_parts(v);
            }
            return Ok(v);
        },
        Err(other) => other,
    };
    let (i, mut item) = match take_child(
        &mut l,
        item_id_of(&patch),
        PatchError::ItemNotFound,
        PatchError::ItemNotMapping,
    ) {
        Ok(x) => x,
        Err(e) => {
            return Err(e);
        },
    };
    match item_edit_exec(&mut item, patch) {
        Ok(()) => {},
        Err(e) => {
            return Err(e);
        },
    }
    let ghost im = emodel_seq(item@);
    put_child(&mut l, i, item);
    proof {
        assert(ymodel_seq(l@) =~= l0.update(i as int, YamlModel::Mapping(im)));
    }
    let ghost e1 = emodel_seq(es@);
    put_list(&mut es, name, l);
    proof {
        assert(mset(e1, name@, YamlModel::Sequence(ymodel_seq(l@))) == mset(
            e0,
            name@,
            YamlModel::Sequence(ymodel_seq(l@)),
        ));
    }
    let v = YamlValue::Mapping(es);
    proof {
        lemma_model_parts(v);
    }
    Ok(v)
}

/// The specification schema every document declares.
pub open spec fn spec_schema() -> Seq<char> {
    "mitase/spec/v1"@
}

/// An edit of a specification document, which must still declare the
/// specification schema afterwards.
pub open spec fn spec_patch_content(doc: YamlModel, p: EditPatch) -> Result<YamlModel, PatchError> {
    match spec_patch(doc, p) {
        Ok(m) => if text_of(mget(m, "schema"@)) == Some(spec_schema()) {
            Ok(m)
        } else {
            Err(PatchError::SchemaInvalid)
        },
        Err(e) => Err(e),
    }
}

/// Applies an edit to a specification document. A project configuration
/// is refused. The document's `kind` (philosophies, policies, requirements
/// or features) names the list of its items. A new criterion or requirement
/// goes only into a requirements document, a new feature or feature target
/// only into a features document, and a new requirement needs a criterion.
/// A new requirement or feature is appended to the list. Otherwise the item
/// with the edit's id must be a mapping: a specification edit writes each
/// field but `id`, `bindings` and `contracts`; an anchor edit writes each
/// field of the principle, rule or criterion with the anchor's local id; a
/// nested edit adds, replaces or removes a binding, contract, ownership
/// scope, target or claim; a new criterion is appended to the requirement's
/// criteria unless one has its id; a new target is appended to the targets
/// of the feature's first implementation binding unless one has its id.
/// Keys keep their places and new keys are appended.
/// The edited document must still declare the specification schema,
/// `mitase/spec/v1`. What the edit writes is taken as given: that a new
/// feature's or target's path is a valid repository path, and that the
/// edited document reads as a specification document of the project's
/// model in every other respect, are left to the caller, which holds that
/// model.
pub fn specification_patch_content(doc: YamlValue, patch: EditPatch) -> (r: Result<YamlValue, PatchError>)
    ensures
        match r {
            Ok(v) => spec_patch_content(ymodel(doc), patch) == Ok::<YamlModel, PatchError>(ymodel(v)),
            Err(e) => spec_patch_content(ymodel(doc), patch) == Err::<YamlModel, PatchError>(e),
        },
{
    let v = apply_patch(doc, patch)?;
    let declared = match &v {
        YamlValue::Mapping(es) => {
            proof {
                lemma_model_parts(v);
            }
            match key_index(es, "schema") {
                Some(i) => {
                    proof {
                        assert(emodel_seq(es@)[i as int] == emodel(es@[i as int]));
                    }
                    match &es[i].value {
                        YamlValue::Text(t) => str_eq(t.as_str(), "mitase/spec/v1"),
                        _ => false,
                    }
                },
                None => false,
            }
        },
        _ => false,
    };
    if !declared {
        return Err(PatchError::SchemaInvalid);
    }
    Ok(v)
}

} // verus!
