use vstd::prelude::*;

verus! {

/// A JSON value that the engine carries through without looking into it.
#[verifier::external_type_specification]
#[verifier::external_body]
pub struct ExValue(serde_json::Value);

/// The value stored under one key of a `template` object.
#[derive(Debug, PartialEq)]
pub enum FieldValue {
    Text(String),
    Flag(bool),
    List(Vec<serde_json::Value>),
    Other(serde_json::Value),
}

pub enum FieldV {
    Text(Seq<char>),
    Flag(bool),
    List(Seq<serde_json::Value>),
    Other(serde_json::Value),
}

impl View for FieldValue {
    type V = FieldV;

    open spec fn view(&self) -> FieldV {
        match self {
            FieldValue::Text(s) => FieldV::Text(s@),
            FieldValue::Flag(b) => FieldV::Flag(*b),
            FieldValue::List(v) => FieldV::List(v@),
            FieldValue::Other(v) => FieldV::Other(*v),
        }
    }
}

/// The keys of an object, in order, each with its value.
pub type Fields = Vec<(String, FieldValue)>;

pub type FieldsV = Seq<(Seq<char>, FieldV)>;

pub open spec fn fields_view(f: Seq<(String, FieldValue)>) -> FieldsV {
    f.map_values(|p: (String, FieldValue)| (p.0@, p.1@))
}

/// Index of the first entry under `k`, or -1 where there is none.
pub open spec fn key_index(f: FieldsV, k: Seq<char>) -> int
    decreases f.len(),
{
    if f.len() == 0 {
        -1
    } else if f[0].0 == k {
        0
    } else {
        let r = key_index(f.drop_first(), k);
        if r < 0 {
            -1
        } else {
            r + 1
        }
    }
}

pub open spec fn value_of(f: FieldsV, k: Seq<char>) -> Option<FieldV> {
    let i = key_index(f, k);
    if i >= 0 {
        Some(f[i].1)
    } else {
        None
    }
}

/// Stores `v` under `k`: replaces the first entry under `k`, or appends one.
pub open spec fn with_field(f: FieldsV, k: Seq<char>, v: FieldV) -> FieldsV {
    let i = key_index(f, k);
    if i >= 0 {
        f.update(i, (k, v))
    } else {
        f.push((k, v))
    }
}

/// Appends `v` under `k` only where `k` is absent.
pub open spec fn with_default(f: FieldsV, k: Seq<char>, v: FieldV) -> FieldsV {
    if key_index(f, k) >= 0 {
        f
    } else {
        f.push((k, v))
    }
}

pub proof fn lemma_key_index_shape(f: FieldsV, k: Seq<char>)
    ensures
        -1 <= key_index(f, k) < f.len(),
        key_index(f, k) >= 0 ==> f[key_index(f, k)].0 == k,
        forall|j: int| 0 <= j < key_index(f, k) ==> f[j].0 != k,
        key_index(f, k) < 0 ==> forall|j: int| 0 <= j < f.len() ==> f[j].0 != k,
    decreases f.len(),
{
    if f.len() > 0 && f[0].0 != k {
        lemma_key_index_shape(f.drop_first(), k);
        assert forall|j: int| 0 < j < f.len() implies f[j] == f.drop_first()[j - 1] by {}
    }
}

pub proof fn lemma_key_index_at(f: FieldsV, k: Seq<char>, i: int)
    requires
        0 <= i <= f.len(),
        forall|j: int| 0 <= j < i ==> f[j].0 != k,
        i < f.len() ==> f[i].0 == k,
    ensures
        key_index(f, k) == if i < f.len() {
            i
        } else {
            -1
        },
    decreases i,
{
    if i > 0 {
        assert forall|j: int| 0 <= j < i - 1 implies f.drop_first()[j].0 != k by {
            assert(f.drop_first()[j] == f[j + 1]);
        }
        if i < f.len() {
            assert(f.drop_first()[i - 1] == f[i]);
        }
        lemma_key_index_at(f.drop_first(), k, i - 1);
    }
}

pub proof fn lemma_with_field(f: FieldsV, k: Seq<char>, v: FieldV, k2: Seq<char>)
    ensures
        value_of(with_field(f, k, v), k) == Some(v),
        k2 != k ==> value_of(with_field(f, k, v), k2) == value_of(f, k2),
{
    let g = with_field(f, k, v);
    lemma_key_index_shape(f, k);
    lemma_key_index_shape(f, k2);
    let i = key_index(f, k);
    let i2 = key_index(f, k2);
    if i >= 0 {
        lemma_key_index_at(g, k, i);
        if k2 != k {
            if i2 >= 0 {
                lemma_key_index_at(g, k2, i2);
            } else {
                lemma_key_index_at(g, k2, g.len() as int);
            }
        }
    } else {
        lemma_key_index_at(g, k, f.len() as int);
        if k2 != k {
            if i2 >= 0 {
                lemma_key_index_at(g, k2, i2);
            } else {
                lemma_key_index_at(g, k2, g.len() as int);
            }
        }
    }
}

pub proof fn lemma_with_default(f: FieldsV, k: Seq<char>, v: FieldV, k2: Seq<char>)
    ensures
        value_of(with_default(f, k, v), k) is Some,
        k2 != k ==> value_of(with_default(f, k, v), k2) == value_of(f, k2),
{
    let g = with_default(f, k, v);
    lemma_key_index_shape(f, k);
    lemma_key_index_shape(f, k2);
    if key_index(f, k) < 0 {
        lemma_key_index_at(g, k, f.len() as int);
        if k2 != k {
            let i2 = key_index(f, k2);
            if i2 >= 0 {
                lemma_key_index_at(g, k2, i2);
            } else {
                lemma_key_index_at(g, k2, g.len() as int);
            }
        }
    }
}

pub proof fn lemma_with_field_same(f: FieldsV, k: Seq<char>, v: FieldV)
    requires
        value_of(f, k) == Some(v),
    ensures
        with_field(f, k, v) == f,
{
    lemma_key_index_shape(f, k);
    assert(with_field(f, k, v) =~= f);
}

/// Finds the first entry under `k`.
pub fn find_key(f: &Fields, k: &String) -> (r: Option<usize>)
    ensures
        match r {
            Some(i) => i < f.len() && key_index(fields_view(f@), k@) == i,
            None => key_index(fields_view(f@), k@) == -1,
        },
{
    let ghost fv = fields_view(f@);
    let mut i: usize = 0;
    while i < f.len()
        invariant
            i <= f.len(),
            fv == fields_view(f@),
            forall|j: int| 0 <= j < i ==> fv[j].0 != k@,
        decreases f.len() - i,
    {
        if f[i].0 == *k {
            assert(fv[i as int].0 == f@[i as int].0@);
            proof {
                lemma_key_index_at(fv, k@, i as int);
            }
            return Some(i);
        }
        assert(fv[i as int].0 == f@[i as int].0@);
        i = i + 1;
    }
    proof {
        lemma_key_index_at(fv, k@, f.len() as int);
    }
    None
}

/// Stores `v` under `k` (see `with_field`).
pub fn set_field(f: &mut Fields, k: &String, v: FieldValue)
    ensures
        fields_view(final(f)@) == with_field(fields_view(old(f)@), k@, v@),
{
    let found = find_key(f, k);
    match found {
        Some(i) => {
            f.set(i, (k.clone(), v));
            assert(fields_view(f@) =~= with_field(fields_view(old(f)@), k@, v@));
        },
        None => {
            f.push((k.clone(), v));
            assert(fields_view(f@) =~= with_field(fields_view(old(f)@), k@, v@));
        },
    }
}

/// Appends `v` under `k` where `k` is absent (see `with_default`).
pub fn set_default(f: &mut Fields, k: &String, v: FieldValue)
    ensures
        fields_view(final(f)@) == with_default(fields_view(old(f)@), k@, v@),
{
    let found = find_key(f, k);
    if found.is_none() {
        f.push((k.clone(), v));
        assert(fields_view(f@) =~= with_default(fields_view(old(f)@), k@, v@));
    }
}

} // verus!
