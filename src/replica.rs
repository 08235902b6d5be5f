use vstd::prelude::*;
use crate::fields::{
    FieldValue, FieldV, Fields, FieldsV, fields_view, value_of, with_field, with_default,
    find_key, set_field, set_default, lemma_with_field, lemma_with_default,
    lemma_with_field_same,
};
use crate::layout::{
    TemplateSlot, TemplateV, InstanceNode, InstanceV, InstanceSlot, InstanceSlotV, Layer, LayerV,
    LayoutDocument, LayoutV, slots_view, layers_view, sum_of, lemma_sum_take, lemma_sum_prefix,
    lemma_sum_le, layer_size_fn, layout_size,
};

verus! {

/// Which instances a conversion targets.
pub enum Selector<'a> {
    /// Those whose `uid`, cut to 32 bits, is listed.
    Uids(&'a Vec<u32>),
    /// Those of the given type that do not define a template.
    OfType(&'a String),
}

pub enum SelectorV {
    Uids(Seq<u32>),
    OfType(Seq<char>),
}

impl<'a> View for Selector<'a> {
    type V = SelectorV;

    open spec fn view(&self) -> SelectorV {
        match self {
            Selector::Uids(u) => SelectorV::Uids(u@),
            Selector::OfType(t) => SelectorV::OfType(t@),
        }
    }
}

/// Why a conversion by uid was refused.
#[derive(Debug, PartialEq, Eq)]
pub enum ConvertError {
    /// The layout holds no `layers` array.
    MissingLayers,
    /// A targeted instance has a `template` entry that is not an object.
    TemplateNotObject,
}

/// The template binding is in `template` mode.
pub open spec fn is_template_mode(t: TemplateV) -> bool {
    match t {
        TemplateV::Object(f) => value_of(f, "mode"@) == Some(FieldV::Text("template"@)),
        _ => false,
    }
}

pub open spec fn selects(sel: SelectorV, i: InstanceV) -> bool {
    match sel {
        SelectorV::Uids(u) => i.uid is Some && u.contains(i.uid->0 as u32),
        SelectorV::OfType(t) => i.object_type == Some(t) && !is_template_mode(i.template),
    }
}

/// The entry is an instance that the selector targets and whose binding can be rewritten.
pub open spec fn converts(sel: SelectorV, s: InstanceSlotV) -> bool {
    match s {
        InstanceSlotV::Node(i) => selects(sel, i) && !(i.template is Other),
        InstanceSlotV::Other(_) => false,
    }
}

/// The entry is an instance that the selector targets but whose binding is not an object.
pub open spec fn blocked(sel: SelectorV, s: InstanceSlotV) -> bool {
    match s {
        InstanceSlotV::Node(i) => selects(sel, i) && i.template is Other,
        InstanceSlotV::Other(_) => false,
    }
}

/// The merge that makes a binding a replica of `target`: the mode, the source and the
/// template name are set; the three sync flags and the component list are only filled in.
pub open spec fn replica_fields(f: FieldsV, target: Seq<char>) -> FieldsV {
    let f1 = with_field(f, "mode"@, FieldV::Text("replica"@));
    let f2 = with_field(f1, "sourceTemplateName"@, FieldV::Text(target));
    let f3 = with_field(f2, "templateName"@, FieldV::Text(Seq::empty()));
    let f4 = with_default(f3, "replicaHierarchyInSyncWithTemplate"@, FieldV::Flag(true));
    let f5 = with_default(f4, "templatePropagateHierarchyChanges"@, FieldV::Flag(true));
    let f6 = with_default(f5, "replicaIgnoreTemplateHierarchyChanges"@, FieldV::Flag(false));
    with_default(f6, "components"@, FieldV::List(Seq::empty()))
}

pub open spec fn template_fields(t: TemplateV) -> FieldsV {
    match t {
        TemplateV::Object(f) => f,
        _ => Seq::empty(),
    }
}

pub open spec fn converted_slot(sel: SelectorV, target: Seq<char>, s: InstanceSlotV) -> InstanceSlotV {
    if converts(sel, s) {
        let i = s->Node_0;
        InstanceSlotV::Node(
            InstanceV {
                uid: i.uid,
                object_type: i.object_type,
                template: TemplateV::Object(replica_fields(template_fields(i.template), target)),
                rest: i.rest,
            },
        )
    } else {
        s
    }
}

pub open spec fn converted_slots(sel: SelectorV, target: Seq<char>, s: Seq<InstanceSlotV>) -> Seq<
    InstanceSlotV,
> {
    s.map_values(|x: InstanceSlotV| converted_slot(sel, target, x))
}

pub open spec fn converted_layer(sel: SelectorV, target: Seq<char>, l: LayerV) -> LayerV {
    LayerV {
        instances: match l.instances {
            Some(s) => Some(converted_slots(sel, target, s)),
            None => None,
        },
        rest: l.rest,
    }
}

pub open spec fn converted_layers(sel: SelectorV, target: Seq<char>, s: Seq<LayerV>) -> Seq<LayerV> {
    s.map_values(|l: LayerV| converted_layer(sel, target, l))
}

pub open spec fn converted_layout(sel: SelectorV, target: Seq<char>, d: LayoutV) -> LayoutV {
    LayoutV {
        layers: match d.layers {
            Some(ls) => Some(converted_layers(sel, target, ls)),
            None => None,
        },
        rest: d.rest,
    }
}

pub open spec fn slot_count_fn(sel: SelectorV) -> spec_fn(InstanceSlotV) -> nat {
    |s: InstanceSlotV|
        if converts(sel, s) {
            1nat
        } else {
            0nat
        }
}

/// Number of instances of a layer that the selector converts.
pub open spec fn layer_count(sel: SelectorV, l: LayerV) -> nat {
    match l.instances {
        Some(s) => sum_of(s, slot_count_fn(sel)),
        None => 0,
    }
}

pub open spec fn layer_count_fn(sel: SelectorV) -> spec_fn(LayerV) -> nat {
    |l: LayerV| layer_count(sel, l)
}

/// Number of instances of a layout that the selector converts.
pub open spec fn layout_count(sel: SelectorV, d: LayoutV) -> nat {
    match d.layers {
        Some(ls) => sum_of(ls, layer_count_fn(sel)),
        None => 0,
    }
}

pub open spec fn layer_blocked(sel: SelectorV, l: LayerV) -> bool {
    match l.instances {
        Some(s) => exists|j: int| 0 <= j < s.len() && blocked(sel, #[trigger] s[j]),
        None => false,
    }
}

pub open spec fn layout_blocked(sel: SelectorV, d: LayoutV) -> bool {
    match d.layers {
        Some(ls) => exists|i: int| 0 <= i < ls.len() && layer_blocked(sel, #[trigger] ls[i]),
        None => false,
    }
}

proof fn lemma_key_lengths()
    ensures
        "mode"@.len() == 4,
        "sourceTemplateName"@.len() == 18,
        "templateName"@.len() == 12,
        "replicaHierarchyInSyncWithTemplate"@.len() == 34,
        "templatePropagateHierarchyChanges"@.len() == 33,
        "replicaIgnoreTemplateHierarchyChanges"@.len() == 37,
        "components"@.len() == 10,
{
    reveal_strlit("mode");
    reveal_strlit("sourceTemplateName");
    reveal_strlit("templateName");
    reveal_strlit("replicaHierarchyInSyncWithTemplate");
    reveal_strlit("templatePropagateHierarchyChanges");
    reveal_strlit("replicaIgnoreTemplateHierarchyChanges");
    reveal_strlit("components");
}

proof fn lemma_field_step(f: FieldsV, k: Seq<char>, v: FieldV)
    ensures
        value_of(with_field(f, k, v), k) == Some(v),
        forall|k2: Seq<char>|
            k2 != k ==> #[trigger] value_of(with_field(f, k, v), k2) == value_of(f, k2),
{
    lemma_with_field(f, k, v, k);
    assert forall|k2: Seq<char>| k2 != k implies #[trigger] value_of(with_field(f, k, v), k2)
        == value_of(f, k2) by {
        lemma_with_field(f, k, v, k2);
    }
}

proof fn lemma_default_step(f: FieldsV, k: Seq<char>, v: FieldV)
    ensures
        value_of(with_default(f, k, v), k) is Some,
        forall|k2: Seq<char>|
            k2 != k ==> #[trigger] value_of(with_default(f, k, v), k2) == value_of(f, k2),
{
    lemma_with_default(f, k, v, k);
    assert forall|k2: Seq<char>| k2 != k implies #[trigger] value_of(with_default(f, k, v), k2)
        == value_of(f, k2) by {
        lemma_with_default(f, k, v, k2);
    }
}

/// After the merge, the binding is a replica of `target` with an empty template name,
/// and the sync flags and the component list are present.
pub proof fn lemma_replica_fields_values(f: FieldsV, target: Seq<char>)
    ensures
        value_of(replica_fields(f, target), "mode"@) == Some(FieldV::Text("replica"@)),
        value_of(replica_fields(f, target), "sourceTemplateName"@) == Some(FieldV::Text(target)),
        value_of(replica_fields(f, target), "templateName"@) == Some(FieldV::Text(Seq::empty())),
        value_of(replica_fields(f, target), "replicaHierarchyInSyncWithTemplate"@) is Some,
        value_of(replica_fields(f, target), "templatePropagateHierarchyChanges"@) is Some,
        value_of(replica_fields(f, target), "replicaIgnoreTemplateHierarchyChanges"@) is Some,
        value_of(replica_fields(f, target), "components"@) is Some,
{
    lemma_key_lengths();
    let f1 = with_field(f, "mode"@, FieldV::Text("replica"@));
    let f2 = with_field(f1, "sourceTemplateName"@, FieldV::Text(target));
    let f3 = with_field(f2, "templateName"@, FieldV::Text(Seq::empty()));
    let f4 = with_default(f3, "replicaHierarchyInSyncWithTemplate"@, FieldV::Flag(true));
    let f5 = with_default(f4, "templatePropagateHierarchyChanges"@, FieldV::Flag(true));
    let f6 = with_default(f5, "replicaIgnoreTemplateHierarchyChanges"@, FieldV::Flag(false));
    lemma_field_step(f, "mode"@, FieldV::Text("replica"@));
    lemma_field_step(f1, "sourceTemplateName"@, FieldV::Text(target));
    lemma_field_step(f2, "templateName"@, FieldV::Text(Seq::empty()));
    lemma_default_step(f3, "replicaHierarchyInSyncWithTemplate"@, FieldV::Flag(true));
    lemma_default_step(f4, "templatePropagateHierarchyChanges"@, FieldV::Flag(true));
    lemma_default_step(f5, "replicaIgnoreTemplateHierarchyChanges"@, FieldV::Flag(false));
    lemma_default_step(f6, "components"@, FieldV::List(Seq::empty()));
}

/// Merging a replica binding into one that it already produced changes nothing.
pub proof fn lemma_replica_fields_fixed(f: FieldsV, target: Seq<char>)
    ensures
        replica_fields(replica_fields(f, target), target) == replica_fields(f, target),
{
    let g = replica_fields(f, target);
    lemma_replica_fields_values(f, target);
    lemma_with_field_same(g, "mode"@, FieldV::Text("replica"@));
    lemma_with_field_same(g, "sourceTemplateName"@, FieldV::Text(target));
    lemma_with_field_same(g, "templateName"@, FieldV::Text(Seq::empty()));
}


proof fn lemma_slot_count_le_len(sel: SelectorV, s: Seq<InstanceSlotV>)
    ensures
        sum_of(s, slot_count_fn(sel)) <= s.len(),
    decreases s.len(),
{
    if s.len() > 0 {
        lemma_slot_count_le_len(sel, s.drop_last());
    }
}

proof fn lemma_layout_count_le_size(sel: SelectorV, d: LayoutV)
    ensures
        layout_count(sel, d) <= layout_size(d),
{
    if let Some(ls) = d.layers {
        assert forall|l: LayerV| #[trigger] layer_count_fn(sel)(l) <= layer_size_fn()(l) by {
            if let Some(s) = l.instances {
                lemma_slot_count_le_len(sel, s);
            }
        }
        lemma_sum_le(ls, layer_count_fn(sel), layer_size_fn());
    }
}

/// Rewrites `f` in place into a replica binding of `target`.
pub fn make_replica(f: &mut Fields, target: &String)
    ensures
        fields_view(final(f)@) == replica_fields(fields_view(old(f)@), target@),
{
    set_field(f, &"mode".to_owned(), FieldValue::Text("replica".to_owned()));
    set_field(f, &"sourceTemplateName".to_owned(), FieldValue::Text(target.clone()));
    set_field(f, &"templateName".to_owned(), FieldValue::Text(String::new()));
    set_default(f, &"replicaHierarchyInSyncWithTemplate".to_owned(), FieldValue::Flag(true));
    set_default(f, &"templatePropagateHierarchyChanges".to_owned(), FieldValue::Flag(true));
    set_default(f, &"replicaIgnoreTemplateHierarchyChanges".to_owned(), FieldValue::Flag(false));
    set_default(f, &"components".to_owned(), FieldValue::List(Vec::new()));
}

/// Whether the binding is in `template` mode.
pub fn template_mode(t: &TemplateSlot) -> (r: bool)
    ensures
        r == is_template_mode(t@),
{
    match t {
        TemplateSlot::Object(f) => {
            let found = find_key(f, &"mode".to_owned());
            match found {
                Some(i) => {
                    assert(fields_view(f@)[i as int] == (f@[i as int].0@, f@[i as int].1@));
                    match &f[i].1 {
                        FieldValue::Text(m) => *m == "template".to_owned(),
                        _ => false,
                    }
                },
                None => false,
            }
        },
        _ => false,
    }
}

fn contains_uid(u: &Vec<u32>, x: u32) -> (r: bool)
    ensures
        r == u@.contains(x),
{
    let mut i: usize = 0;
    while i < u.len()
        invariant
            i <= u.len(),
            forall|j: int| 0 <= j < i ==> u@[j] != x,
        decreases u.len() - i,
    {
        if u[i] == x {
            return true;
        }
        i = i + 1;
    }
    false
}

/// Whether the selector targets the instance.
pub fn is_selected(n: &InstanceNode, sel: &Selector) -> (r: bool)
    ensures
        r == selects(sel@, n@),
{
    match sel {
        Selector::Uids(u) => match n.uid {
            Some(x) => contains_uid(u, x as u32),
            None => false,
        },
        Selector::OfType(t) => match &n.object_type {
            Some(ty) => *ty == **t && !template_mode(&n.template),
            None => false,
        },
    }
}

/// Converts one instance entry; the flag says whether it was converted.
pub fn convert_slot(s: InstanceSlot, sel: &Selector, target: &String) -> (r: (InstanceSlot, bool))
    ensures
        r.0@ == converted_slot(sel@, target@, s@),
        r.1 == converts(sel@, s@),
{
    match s {
        InstanceSlot::Other(v) => (InstanceSlot::Other(v), false),
        InstanceSlot::Node(n) => {
            if !is_selected(&n, sel) {
                return (InstanceSlot::Node(n), false);
            }
            let InstanceNode { uid, object_type, template, rest } = n;
            match template {
                TemplateSlot::Other(v) => (
                    InstanceSlot::Node(
                        InstanceNode { uid, object_type, template: TemplateSlot::Other(v), rest },
                    ),
                    false,
                ),
                TemplateSlot::Absent => {
                    let mut f: Fields = Vec::new();
                    assert(fields_view(f@) =~= Seq::empty());
                    make_replica(&mut f, target);
                    (
                        InstanceSlot::Node(
                            InstanceNode { uid, object_type, template: TemplateSlot::Object(f), rest },
                        ),
                        true,
                    )
                },
                TemplateSlot::Object(f0) => {
                    let mut f = f0;
                    make_replica(&mut f, target);
                    (
                        InstanceSlot::Node(
                            InstanceNode { uid, object_type, template: TemplateSlot::Object(f), rest },
                        ),
                        true,
                    )
                },
            }
        },
    }
}

/// Converts the instance entries of one layer, in order, and counts the converted ones.
pub fn convert_slots(slots: Vec<InstanceSlot>, sel: &Selector, target: &String) -> (r: (
    Vec<InstanceSlot>,
    usize,
))
    ensures
        slots_view(r.0@) == converted_slots(sel@, target@, slots_view(slots@)),
        r.1 == sum_of(slots_view(slots@), slot_count_fn(sel@)),
{
    let ghost sv = slots_view(slots@);
    let n = slots.len();
    let mut pending = slots;
    let mut out: Vec<InstanceSlot> = Vec::new();
    let mut count: usize = 0;
    while pending.len() > 0
        invariant
            n == sv.len(),
            out.len() + pending.len() == n,
            forall|j: int| 0 <= j < out.len() ==> #[trigger] out@[j]@ == converted_slot(sel@, target@, sv[j]),
            forall|j: int| 0 <= j < pending.len() ==> #[trigger] pending@[j]@ == sv[out.len() + j],
            count == sum_of(sv.take(out.len() as int), slot_count_fn(sel@)),
            count <= out.len(),
        decreases pending.len(),
    {
        let ghost k = out.len() as int;
        let s = pending.remove(0);
        assert(s@ == sv[k]);
        let (c, hit) = convert_slot(s, sel, target);
        proof {
            lemma_sum_take(sv, slot_count_fn(sel@), k);
        }
        if hit {
            count = count + 1;
        }
        out.push(c);
        assert forall|j: int| 0 <= j < pending.len() implies #[trigger] pending@[j]@ == sv[out.len() + j] by {}
    }
    assert(sv.take(n as int) =~= sv);
    assert(slots_view(out@) =~= converted_slots(sel@, target@, sv));
    (out, count)
}

/// Converts the targeted instances of one layer.
pub fn convert_layer(l: Layer, sel: &Selector, target: &String) -> (r: (Layer, usize))
    ensures
        r.0@ == converted_layer(sel@, target@, l@),
        r.1 == layer_count(sel@, l@),
{
    let Layer { instances, rest } = l;
    match instances {
        Some(v) => {
            let (w, c) = convert_slots(v, sel, target);
            (Layer { instances: Some(w), rest }, c)
        },
        None => (Layer { instances: None, rest }, 0),
    }
}

/// Converts the targeted instances of every layer, in order.
pub fn convert_layers(layers: Vec<Layer>, sel: &Selector, target: &String) -> (r: (Vec<Layer>, usize))
    requires
        sum_of(layers_view(layers@), layer_size_fn()) <= usize::MAX,
    ensures
        layers_view(r.0@) == converted_layers(sel@, target@, layers_view(layers@)),
        r.1 == sum_of(layers_view(layers@), layer_count_fn(sel@)),
{
    let ghost lv = layers_view(layers@);
    let n = layers.len();
    let mut pending = layers;
    let mut out: Vec<Layer> = Vec::new();
    let mut count: usize = 0;
    proof {
        lemma_layout_count_le_size(sel@, LayoutV { layers: Some(lv), rest: arbitrary() });
    }
    while pending.len() > 0
        invariant
            n == lv.len(),
            out.len() + pending.len() == n,
            forall|j: int| 0 <= j < out.len() ==> #[trigger] out@[j]@ == converted_layer(sel@, target@, lv[j]),
            forall|j: int| 0 <= j < pending.len() ==> #[trigger] pending@[j]@ == lv[out.len() + j],
            count == sum_of(lv.take(out.len() as int), layer_count_fn(sel@)),
            sum_of(lv, layer_count_fn(sel@)) <= usize::MAX,
        decreases pending.len(),
    {
        let ghost k = out.len() as int;
        let l = pending.remove(0);
        assert(l@ == lv[k]);
        let (c, added) = convert_layer(l, sel, target);
        proof {
            lemma_sum_take(lv, layer_count_fn(sel@), k);
            lemma_sum_prefix(lv, layer_count_fn(sel@), k + 1);
        }
        count = count + added;
        out.push(c);
        assert forall|j: int| 0 <= j < pending.len() implies #[trigger] pending@[j]@ == lv[out.len() + j] by {}
    }
    assert(lv.take(n as int) =~= lv);
    assert(layers_view(out@) =~= converted_layers(sel@, target@, lv));
    (out, count)
}

/// Converts the targeted instances of a layout.
pub fn convert_layout(doc: LayoutDocument, sel: &Selector, target: &String) -> (r: (LayoutDocument, usize))
    requires
        layout_size(doc@) <= usize::MAX,
    ensures
        r.0@ == converted_layout(sel@, target@, doc@),
        r.1 == layout_count(sel@, doc@),
{
    let LayoutDocument { layers, rest } = doc;
    match layers {
        Some(ls) => {
            let (w, c) = convert_layers(ls, sel, target);
            (LayoutDocument { layers: Some(w), rest }, c)
        },
        None => (LayoutDocument { layers: None, rest }, 0),
    }
}


/// What a conversion by uid asks for: a layout file, the uids in it, and the template.
#[derive(Debug, Clone, PartialEq, Eq)]
pub struct SetReplicasPayload {
    pub project_path: String,
    pub layout_file_path: String,
    pub instance_uids: Vec<u32>,
    pub target_template_name: String,
}

/// What a project-wide conversion by type asks for.
#[derive(Debug, Clone, PartialEq, Eq)]
pub struct SetAllInstancesOfTypePayload {
    pub project_path: String,
    pub layout_file_paths: Vec<String>,
    pub object_type_name: String,
    pub target_template_name: String,
}

/// The outcome of a conversion by uid: the new layout and the number of converted
/// instances, or the reason for refusing it.
pub open spec fn uid_outcome(d: LayoutV, uids: Seq<u32>, target: Seq<char>) -> Result<
    (LayoutV, nat),
    ConvertError,
> {
    let sel = SelectorV::Uids(uids);
    if d.layers is None {
        Err(ConvertError::MissingLayers)
    } else if layout_blocked(sel, d) {
        Err(ConvertError::TemplateNotObject)
    } else {
        Ok((converted_layout(sel, target, d), layout_count(sel, d)))
    }
}

fn layer_has_blocked(l: &Layer, sel: &Selector) -> (r: bool)
    ensures
        r == layer_blocked(sel@, l@),
{
    match &l.instances {
        None => false,
        Some(v) => {
            let ghost sv = slots_view(v@);
            let mut j: usize = 0;
            while j < v.len()
                invariant
                    j <= v.len(),
                    sv == slots_view(v@),
                    l@.instances == Some(sv),
                    forall|k: int| 0 <= k < j ==> !blocked(sel@, #[trigger] sv[k]),
                decreases v.len() - j,
            {
                assert(sv[j as int] == v@[j as int]@);
                match &v[j] {
                    InstanceSlot::Node(n) => {
                        if is_selected(n, sel) {
                            if let TemplateSlot::Other(_) = &n.template {
                                assert(blocked(sel@, sv[j as int]));
                                assert(l@.instances == Some(sv));
                                assert(l@.instances->0[j as int] == sv[j as int]);
                                assert(blocked(sel@, l@.instances->0[j as int]));
                                return true;
                            }
                        }
                    },
                    InstanceSlot::Other(_) => {},
                }
                j = j + 1;
            }
            false
        },
    }
}

fn layout_has_blocked(d: &LayoutDocument, sel: &Selector) -> (r: bool)
    ensures
        r == layout_blocked(sel@, d@),
{
    match &d.layers {
        None => false,
        Some(ls) => {
            let ghost lv = layers_view(ls@);
            let mut i: usize = 0;
            while i < ls.len()
                invariant
                    i <= ls.len(),
                    lv == layers_view(ls@),
                    d@.layers == Some(lv),
                    forall|k: int| 0 <= k < i ==> !layer_blocked(sel@, #[trigger] lv[k]),
                decreases ls.len() - i,
            {
                assert(lv[i as int] == ls@[i as int]@);
                if layer_has_blocked(&ls[i], sel) {
                    assert(layer_blocked(sel@, lv[i as int]));
                    assert(d@.layers == Some(lv));
                    assert(d@.layers->0[i as int] == lv[i as int]);
                    assert(layer_blocked(sel@, d@.layers->0[i as int]));
                    return true;
                }
                i = i + 1;
            }
            false
        },
    }
}

/// Makes every instance whose uid is listed a replica of the payload's template,
/// whatever its binding was. The layout is left as it was when it has no `layers`
/// array, or when a listed instance has a `template` entry that is not an object.
pub fn convert_by_uid(doc: &mut LayoutDocument, payload: &SetReplicasPayload) -> (r: Result<
    usize,
    ConvertError,
>)
    requires
        layout_size(old(doc)@) <= usize::MAX,
    ensures
        match uid_outcome(old(doc)@, payload.instance_uids@, payload.target_template_name@) {
            Ok((d1, c)) => r == Ok::<usize, ConvertError>(c as usize) && final(doc)@ == d1,
            Err(e) => r == Err::<usize, ConvertError>(e) && final(doc)@ == old(doc)@,
        },
{
    let sel = Selector::Uids(&payload.instance_uids);
    if doc.layers.is_none() {
        return Err(ConvertError::MissingLayers);
    }
    if layout_has_blocked(doc, &sel) {
        return Err(ConvertError::TemplateNotObject);
    }
    proof {
        lemma_layout_count_le_size(sel@, doc@);
    }
    let taken = doc.layers.take();
    match taken {
        Some(ls) => {
            let (w, c) = convert_layers(ls, &sel, &payload.target_template_name);
            doc.layers = Some(w);
            Ok(c)
        },
        None => Err(ConvertError::MissingLayers),
    }
}

pub open spec fn opt_layout_view(d: Option<LayoutDocument>) -> Option<LayoutV> {
    match d {
        Some(x) => Some(x@),
        None => None,
    }
}

pub open spec fn docs_view(s: Seq<Option<LayoutDocument>>) -> Seq<Option<LayoutV>> {
    s.map_values(|d: Option<LayoutDocument>| opt_layout_view(d))
}

pub open spec fn doc_size_fn() -> spec_fn(Option<LayoutV>) -> nat {
    |d: Option<LayoutV>|
        match d {
            Some(x) => layout_size(x),
            None => 0,
        }
}

pub open spec fn doc_count_fn(sel: SelectorV) -> spec_fn(Option<LayoutV>) -> nat {
    |d: Option<LayoutV>|
        match d {
            Some(x) => layout_count(sel, x),
            None => 0,
        }
}

/// The layout was loaded and holds at least one instance to convert.
pub open spec fn doc_modified(sel: SelectorV, d: Option<LayoutV>) -> bool {
    d is Some && layout_count(sel, d->0) > 0
}

pub open spec fn doc_modified_fn(sel: SelectorV) -> spec_fn(Option<LayoutV>) -> nat {
    |d: Option<LayoutV>|
        if doc_modified(sel, d) {
            1nat
        } else {
            0nat
        }
}

pub open spec fn converted_doc(sel: SelectorV, target: Seq<char>, d: Option<LayoutV>) -> Option<LayoutV> {
    match d {
        Some(x) => Some(converted_layout(sel, target, x)),
        None => None,
    }
}

/// The counts of a project-wide conversion, and which layouts it changed.
#[derive(Debug, Clone, PartialEq, Eq)]
pub struct ProjectWideReport {
    /// One flag per layout: it was loaded and at least one of its instances was converted.
    pub modified: Vec<bool>,
    pub layouts_modified: usize,
    pub instances_modified: usize,
}

/// Makes every instance of the payload's type a replica of its template, in every
/// layout that could be loaded (`None` marks one that could not); instances whose
/// binding is in template mode are left alone.
pub fn convert_by_type_project_wide(
    docs: &mut Vec<Option<LayoutDocument>>,
    payload: &SetAllInstancesOfTypePayload,
) -> (r: ProjectWideReport)
    requires
        sum_of(docs_view(old(docs)@), doc_size_fn()) <= usize::MAX,
    ensures
        final(docs).len() == old(docs).len(),
        forall|i: int|
            0 <= i < old(docs).len() ==> #[trigger] docs_view(final(docs)@)[i] == converted_doc(
                SelectorV::OfType(payload.object_type_name@),
                payload.target_template_name@,
                docs_view(old(docs)@)[i],
            ),
        r.modified.len() == old(docs).len(),
        forall|i: int|
            0 <= i < old(docs).len() ==> #[trigger] r.modified@[i] == doc_modified(
                SelectorV::OfType(payload.object_type_name@),
                docs_view(old(docs)@)[i],
            ),
        r.instances_modified == sum_of(
            docs_view(old(docs)@),
            doc_count_fn(SelectorV::OfType(payload.object_type_name@)),
        ),
        r.layouts_modified == sum_of(
            docs_view(old(docs)@),
            doc_modified_fn(SelectorV::OfType(payload.object_type_name@)),
        ),
{
    let sel = Selector::OfType(&payload.object_type_name);
    let target = &payload.target_template_name;
    let ghost dv = docs_view(docs@);
    let n = docs.len();
    let mut pending: Vec<Option<LayoutDocument>> = Vec::new();
    std::mem::swap(docs, &mut pending);
    let mut modified: Vec<bool> = Vec::new();
    let mut layouts: usize = 0;
    let mut instances: usize = 0;
    proof {
        assert forall|d: Option<LayoutV>| #[trigger] doc_count_fn(sel@)(d) <= doc_size_fn()(d) by {
            if let Some(x) = d {
                lemma_layout_count_le_size(sel@, x);
            }
        }
        lemma_sum_le(dv, doc_count_fn(sel@), doc_size_fn());
    }
    while pending.len() > 0
        invariant
            n == dv.len(),
            docs.len() + pending.len() == n,
            modified.len() == docs.len(),
            forall|j: int|
                0 <= j < docs.len() ==> #[trigger] opt_layout_view(docs@[j]) == converted_doc(
                    sel@,
                    target@,
                    dv[j],
                ),
            forall|j: int| 0 <= j < docs.len() ==> #[trigger] modified@[j] == doc_modified(sel@, dv[j]),
            forall|j: int|
                0 <= j < pending.len() ==> #[trigger] opt_layout_view(pending@[j]) == dv[docs.len() + j],
            instances == sum_of(dv.take(docs.len() as int), doc_count_fn(sel@)),
            layouts == sum_of(dv.take(docs.len() as int), doc_modified_fn(sel@)),
            layouts <= docs.len(),
            sum_of(dv, doc_count_fn(sel@)) <= usize::MAX,
            sum_of(dv, doc_size_fn()) <= usize::MAX,
            sel@ == SelectorV::OfType(payload.object_type_name@),
        decreases pending.len(),
    {
        let ghost k = docs.len() as int;
        let d = pending.remove(0);
        assert(opt_layout_view(d) == dv[k]);
        proof {
            lemma_sum_take(dv, doc_count_fn(sel@), k);
            lemma_sum_take(dv, doc_modified_fn(sel@), k);
            lemma_sum_prefix(dv, doc_count_fn(sel@), k + 1);
            lemma_sum_take(dv, doc_size_fn(), k);
            lemma_sum_prefix(dv, doc_size_fn(), k + 1);
        }
        match d {
            Some(doc) => {
                let (c, added) = convert_layout(doc, &sel, target);
                instances = instances + added;
                if added > 0 {
                    layouts = layouts + 1;
                }
                modified.push(added > 0);
                docs.push(Some(c));
            },
            None => {
                modified.push(false);
                docs.push(None);
            },
        }
        assert forall|j: int| 0 <= j < pending.len() implies #[trigger] opt_layout_view(pending@[j])
            == dv[docs.len() + j] by {}
    }
    assert(dv.take(n as int) =~= dv);
    ProjectWideReport { modified, layouts_modified: layouts, instances_modified: instances }
}


proof fn lemma_slot_fixed(u: Seq<u32>, target: Seq<char>, s: InstanceSlotV)
    requires
        !blocked(SelectorV::Uids(u), s),
    ensures
        converted_slot(SelectorV::Uids(u), target, converted_slot(SelectorV::Uids(u), target, s))
            == converted_slot(SelectorV::Uids(u), target, s),
        !blocked(SelectorV::Uids(u), converted_slot(SelectorV::Uids(u), target, s)),
{
    let sel = SelectorV::Uids(u);
    if converts(sel, s) {
        lemma_replica_fields_fixed(template_fields(s->Node_0.template), target);
    }
}

/// Converting by uid a second time, with the same uids and template, succeeds and
/// gives back the layout that the first conversion produced.
pub proof fn lemma_convert_by_uid_idempotent(d: LayoutV, uids: Seq<u32>, target: Seq<char>)
    requires
        uid_outcome(d, uids, target) is Ok,
    ensures
        uid_outcome(uid_outcome(d, uids, target)->Ok_0.0, uids, target) is Ok,
        uid_outcome(uid_outcome(d, uids, target)->Ok_0.0, uids, target)->Ok_0.0 == uid_outcome(
            d,
            uids,
            target,
        )->Ok_0.0,
{
    let sel = SelectorV::Uids(uids);
    let ls = d.layers->0;
    let d1 = converted_layout(sel, target, d);
    let ls1 = d1.layers->0;
    assert forall|i: int| 0 <= i < ls.len() implies converted_layer(sel, target, #[trigger] ls1[i])
        == ls1[i] && !layer_blocked(sel, ls1[i]) by {
        let l = ls[i];
        assert(!layer_blocked(sel, l));
        if let Some(s) = l.instances {
            let s1 = converted_slots(sel, target, s);
            assert forall|j: int| 0 <= j < s.len() implies converted_slot(sel, target, #[trigger] s1[j])
                == s1[j] && !blocked(sel, s1[j]) by {
                lemma_slot_fixed(uids, target, s[j]);
            }
            assert(converted_slots(sel, target, s1) =~= s1);
        }
    }
    assert(converted_layers(sel, target, ls1) =~= ls1);
}

/// A conversion by type leaves every instance whose binding is in template mode as it was.
pub proof fn lemma_type_conversion_keeps_templates(
    d: LayoutV,
    object_type: Seq<char>,
    target: Seq<char>,
    i: int,
    j: int,
)
    requires
        d.layers is Some,
        0 <= i < d.layers->0.len(),
        d.layers->0[i].instances is Some,
        0 <= j < d.layers->0[i].instances->0.len(),
        d.layers->0[i].instances->0[j] is Node,
        is_template_mode(d.layers->0[i].instances->0[j]->Node_0.template),
    ensures
        converted_layout(SelectorV::OfType(object_type), target, d).layers->0[i].instances->0[j]
            == d.layers->0[i].instances->0[j],
{
}

proof fn lemma_sum_zero<A>(s: Seq<A>, f: spec_fn(A) -> nat, k: int)
    requires
        sum_of(s, f) == 0,
        0 <= k < s.len(),
    ensures
        f(s[k]) == 0,
    decreases s.len(),
{
    if k < s.len() - 1 {
        lemma_sum_zero(s.drop_last(), f, k);
    }
}

/// A layout in which the selector converts no instance is left as it was.
pub proof fn lemma_nothing_to_convert(sel: SelectorV, target: Seq<char>, d: LayoutV)
    requires
        layout_count(sel, d) == 0,
    ensures
        converted_layout(sel, target, d) == d,
{
    if let Some(ls) = d.layers {
        assert forall|i: int| 0 <= i < ls.len() implies converted_layer(sel, target, #[trigger] ls[i])
            == ls[i] by {
            lemma_sum_zero(ls, layer_count_fn(sel), i);
            if let Some(s) = ls[i].instances {
                assert forall|j: int| 0 <= j < s.len() implies converted_slot(sel, target, #[trigger] s[j])
                    == s[j] by {
                    lemma_sum_zero(s, slot_count_fn(sel), j);
                }
                assert(converted_slots(sel, target, s) =~= s);
            }
        }
        assert(converted_layers(sel, target, ls) =~= ls);
    }
}


/// The number of instance entries of a layout, where it fits in a `usize`.
pub fn layout_instance_count(doc: &LayoutDocument) -> (r: Option<usize>)
    ensures
        match r {
            Some(n) => n == layout_size(doc@),
            None => layout_size(doc@) > usize::MAX,
        },
{
    match &doc.layers {
        None => Some(0),
        Some(ls) => {
            let ghost lv = layers_view(ls@);
            let mut total: usize = 0;
            let mut i: usize = 0;
            while i < ls.len()
                invariant
                    i <= ls.len(),
                    lv == layers_view(ls@),
                    doc@.layers == Some(lv),
                    total == sum_of(lv.take(i as int), layer_size_fn()),
                decreases ls.len() - i,
            {
                assert(lv[i as int] == ls@[i as int]@);
                proof {
                    lemma_sum_take(lv, layer_size_fn(), i as int);
                }
                let here: usize = match &ls[i].instances {
                    Some(v) => v.len(),
                    None => 0,
                };
                if here > usize::MAX - total {
                    proof {
                        lemma_sum_prefix(lv, layer_size_fn(), i + 1);
                    }
                    return None;
                }
                total = total + here;
                i = i + 1;
            }
            assert(lv.take(ls.len() as int) =~= lv);
            Some(total)
        },
    }
}

/// The number of instance entries over all loaded layouts, where it fits in a `usize`.
pub fn project_instance_count(docs: &Vec<Option<LayoutDocument>>) -> (r: Option<usize>)
    ensures
        match r {
            Some(n) => n == sum_of(docs_view(docs@), doc_size_fn()),
            None => sum_of(docs_view(docs@), doc_size_fn()) > usize::MAX,
        },
{
    let ghost dv = docs_view(docs@);
    let mut total: usize = 0;
    let mut i: usize = 0;
    while i < docs.len()
        invariant
            i <= docs.len(),
            dv == docs_view(docs@),
            total == sum_of(dv.take(i as int), doc_size_fn()),
        decreases docs.len() - i,
    {
        assert(dv[i as int] == opt_layout_view(docs@[i as int]));
        proof {
            lemma_sum_take(dv, doc_size_fn(), i as int);
        }
        let here: usize = match &docs[i] {
            Some(d) => match layout_instance_count(d) {
                Some(n) => n,
                None => {
                    proof {
                        lemma_sum_prefix(dv, doc_size_fn(), i + 1);
                    }
                    return None;
                },
            },
            None => 0,
        };
        if here > usize::MAX - total {
            proof {
                lemma_sum_prefix(dv, doc_size_fn(), i + 1);
            }
            return None;
        }
        total = total + here;
        i = i + 1;
    }
    assert(dv.take(docs.len() as int) =~= dv);
    Some(total)
}

} // verus!
