use vstd::prelude::*;
use crate::fields::{Fields, FieldsV, fields_view};

verus! {

/// The `template` entry of an instance.
#[derive(Debug, PartialEq)]
pub enum TemplateSlot {
    /// The instance has no `template` key.
    Absent,
    /// The key holds an object.
    Object(Fields),
    /// The key holds something other than an object.
    Other(serde_json::Value),
}

pub enum TemplateV {
    Absent,
    Object(FieldsV),
    Other(serde_json::Value),
}

impl View for TemplateSlot {
    type V = TemplateV;

    open spec fn view(&self) -> TemplateV {
        match self {
            TemplateSlot::Absent => TemplateV::Absent,
            TemplateSlot::Object(f) => TemplateV::Object(fields_view(f@)),
            TemplateSlot::Other(v) => TemplateV::Other(*v),
        }
    }
}

/// An instance object: what the engine reads of it, and the rest of its keys.
#[derive(Debug, PartialEq)]
pub struct InstanceNode {
    /// `uid`, where it holds an unsigned integer.
    pub uid: Option<u64>,
    /// `type`, where it holds a string.
    pub object_type: Option<String>,
    pub template: TemplateSlot,
    /// The object without its `template` key.
    pub rest: serde_json::Value,
}

pub struct InstanceV {
    pub uid: Option<u64>,
    pub object_type: Option<Seq<char>>,
    pub template: TemplateV,
    pub rest: serde_json::Value,
}

pub open spec fn opt_string_view(s: Option<String>) -> Option<Seq<char>> {
    match s {
        Some(t) => Some(t@),
        None => None,
    }
}

impl View for InstanceNode {
    type V = InstanceV;

    open spec fn view(&self) -> InstanceV {
        InstanceV {
            uid: self.uid,
            object_type: opt_string_view(self.object_type),
            template: self.template@,
            rest: self.rest,
        }
    }
}

/// An entry of a layer's `instances` array.
#[derive(Debug, PartialEq)]
pub enum InstanceSlot {
    Node(InstanceNode),
    /// An entry that is not an object.
    Other(serde_json::Value),
}

pub enum InstanceSlotV {
    Node(InstanceV),
    Other(serde_json::Value),
}

impl View for InstanceSlot {
    type V = InstanceSlotV;

    open spec fn view(&self) -> InstanceSlotV {
        match self {
            InstanceSlot::Node(n) => InstanceSlotV::Node(n@),
            InstanceSlot::Other(v) => InstanceSlotV::Other(*v),
        }
    }
}

pub open spec fn slots_view(s: Seq<InstanceSlot>) -> Seq<InstanceSlotV> {
    s.map_values(|x: InstanceSlot| x@)
}

/// An entry of a layout's `layers` array.
#[derive(Debug, PartialEq)]
pub struct Layer {
    /// `instances`, where the entry is an object holding an array there.
    pub instances: Option<Vec<InstanceSlot>>,
    /// The entry without its `instances` array.
    pub rest: serde_json::Value,
}

pub struct LayerV {
    pub instances: Option<Seq<InstanceSlotV>>,
    pub rest: serde_json::Value,
}

impl View for Layer {
    type V = LayerV;

    open spec fn view(&self) -> LayerV {
        LayerV {
            instances: match self.instances {
                Some(v) => Some(slots_view(v@)),
                None => None,
            },
            rest: self.rest,
        }
    }
}

pub open spec fn layers_view(s: Seq<Layer>) -> Seq<LayerV> {
    s.map_values(|x: Layer| x@)
}

/// A layout document.
#[derive(Debug, PartialEq)]
pub struct LayoutDocument {
    /// `layers`, where the document is an object holding an array there.
    pub layers: Option<Vec<Layer>>,
    /// The document without its `layers` array.
    pub rest: serde_json::Value,
}

pub struct LayoutV {
    pub layers: Option<Seq<LayerV>>,
    pub rest: serde_json::Value,
}

impl View for LayoutDocument {
    type V = LayoutV;

    open spec fn view(&self) -> LayoutV {
        LayoutV {
            layers: match self.layers {
                Some(v) => Some(layers_view(v@)),
                None => None,
            },
            rest: self.rest,
        }
    }
}

/// Sum of `f` over `s`.
pub open spec fn sum_of<A>(s: Seq<A>, f: spec_fn(A) -> nat) -> nat
    decreases s.len(),
{
    if s.len() == 0 {
        0
    } else {
        sum_of(s.drop_last(), f) + f(s.last())
    }
}

pub proof fn lemma_sum_take<A>(s: Seq<A>, f: spec_fn(A) -> nat, k: int)
    requires
        0 <= k < s.len(),
    ensures
        sum_of(s.take(k + 1), f) == sum_of(s.take(k), f) + f(s[k]),
{
    assert(s.take(k + 1).drop_last() =~= s.take(k));
}

pub proof fn lemma_sum_prefix<A>(s: Seq<A>, f: spec_fn(A) -> nat, k: int)
    requires
        0 <= k <= s.len(),
    ensures
        sum_of(s.take(k), f) <= sum_of(s, f),
    decreases s.len() - k,
{
    if k < s.len() {
        lemma_sum_take(s, f, k);
        lemma_sum_prefix(s, f, k + 1);
    } else {
        assert(s.take(k) =~= s);
    }
}

pub proof fn lemma_sum_le<A>(s: Seq<A>, f: spec_fn(A) -> nat, g: spec_fn(A) -> nat)
    requires
        forall|x: A| #[trigger] f(x) <= g(x),
    ensures
        sum_of(s, f) <= sum_of(s, g),
    decreases s.len(),
{
    if s.len() > 0 {
        lemma_sum_le(s.drop_last(), f, g);
    }
}

/// Number of instance entries in a layer.
pub open spec fn layer_size(l: LayerV) -> nat {
    match l.instances {
        Some(s) => s.len(),
        None => 0,
    }
}

pub open spec fn layer_size_fn() -> spec_fn(LayerV) -> nat {
    |l: LayerV| layer_size(l)
}

/// Number of instance entries in a layout.
pub open spec fn layout_size(d: LayoutV) -> nat {
    match d.layers {
        Some(ls) => sum_of(ls, layer_size_fn()),
        None => 0,
    }
}

} // verus!
