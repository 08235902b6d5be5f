use vstd::prelude::*;
use crate::fields::{FieldV, value_of};
use crate::layout::{
    TemplateSlot, TemplateV, InstanceNode, InstanceV, InstanceSlot, InstanceSlotV, LayerV,
    LayoutDocument, LayoutV, slots_view, layers_view,
};
use crate::registry::text_of;

verus! {

/// What the inspector shows of one instance. Its position stands in the instance
/// object at `layer_index` / `instance_index`.
#[derive(Debug, Clone, PartialEq, Eq)]
pub struct InstanceSummary {
    pub uid: u32,
    pub object_type_name: String,
    pub is_replica: bool,
    pub is_template: bool,
    pub template_or_source_name: Option<String>,
    pub layer_index: usize,
    pub instance_index: usize,
}

pub struct InstanceSummaryV {
    pub uid: u32,
    pub object_type_name: Seq<char>,
    pub is_replica: bool,
    pub is_template: bool,
    pub template_or_source_name: Option<Seq<char>>,
    pub layer_index: int,
    pub instance_index: int,
}

impl View for InstanceSummary {
    type V = InstanceSummaryV;

    open spec fn view(&self) -> InstanceSummaryV {
        InstanceSummaryV {
            uid: self.uid,
            object_type_name: self.object_type_name@,
            is_replica: self.is_replica,
            is_template: self.is_template,
            template_or_source_name: match self.template_or_source_name {
                Some(s) => Some(s@),
                None => None,
            },
            layer_index: self.layer_index as int,
            instance_index: self.instance_index as int,
        }
    }
}

pub open spec fn summaries_view(s: Seq<InstanceSummary>) -> Seq<InstanceSummaryV> {
    s.map_values(|x: InstanceSummary| x@)
}

pub open spec fn mode_is(t: TemplateV, m: Seq<char>) -> bool {
    t is Object && value_of(t->Object_0, "mode"@) == Some(FieldV::Text(m))
}

/// The string under `k` of a binding object, if there is one.
pub open spec fn text_field(t: TemplateV, k: Seq<char>) -> Option<Seq<char>> {
    if t is Object && value_of(t->Object_0, k) is Some && value_of(t->Object_0, k)->0 is Text {
        Some(value_of(t->Object_0, k)->0->Text_0)
    } else {
        None
    }
}

/// The summary of an instance: a missing uid reads 0 and a missing type reads empty.
pub open spec fn summary_of(li: int, ii: int, i: InstanceV) -> InstanceSummaryV {
    InstanceSummaryV {
        uid: match i.uid {
            Some(u) => u as u32,
            None => 0u32,
        },
        object_type_name: match i.object_type {
            Some(t) => t,
            None => Seq::empty(),
        },
        is_replica: mode_is(i.template, "replica"@),
        is_template: !mode_is(i.template, "replica"@) && mode_is(i.template, "template"@),
        template_or_source_name: if mode_is(i.template, "replica"@) {
            text_field(i.template, "sourceTemplateName"@)
        } else if mode_is(i.template, "template"@) {
            text_field(i.template, "templateName"@)
        } else {
            None
        },
        layer_index: li,
        instance_index: ii,
    }
}

/// The summaries of the object entries of one layer, in order.
pub open spec fn slot_summaries(li: int, s: Seq<InstanceSlotV>) -> Seq<InstanceSummaryV>
    decreases s.len(),
{
    if s.len() == 0 {
        Seq::empty()
    } else {
        let prev = slot_summaries(li, s.drop_last());
        match s.last() {
            InstanceSlotV::Node(i) => prev.push(summary_of(li, s.len() - 1, i)),
            InstanceSlotV::Other(_) => prev,
        }
    }
}

pub open spec fn layer_summaries(li: int, l: LayerV) -> Seq<InstanceSummaryV> {
    match l.instances {
        Some(s) => slot_summaries(li, s),
        None => Seq::empty(),
    }
}

pub open spec fn layers_summaries(ls: Seq<LayerV>) -> Seq<InstanceSummaryV>
    decreases ls.len(),
{
    if ls.len() == 0 {
        Seq::empty()
    } else {
        layers_summaries(ls.drop_last()) + layer_summaries(ls.len() - 1, ls.last())
    }
}

/// The summaries of every instance of a layout: layers in order, instances in order.
pub open spec fn layout_summaries(d: LayoutV) -> Seq<InstanceSummaryV> {
    match d.layers {
        Some(ls) => layers_summaries(ls),
        None => Seq::empty(),
    }
}

fn summarize(li: usize, ii: usize, n: &InstanceNode) -> (r: InstanceSummary)
    ensures
        r@ == summary_of(li as int, ii as int, n@),
{
    let uid = match n.uid {
        Some(u) => u as u32,
        None => 0,
    };
    let object_type_name = match &n.object_type {
        Some(t) => t.clone(),
        None => String::new(),
    };
    let mut is_replica = false;
    let mut is_template = false;
    let mut name: Option<String> = None;
    if let TemplateSlot::Object(f) = &n.template {
        let mode = text_of(f, &"mode".to_owned());
        if let Some(m) = mode {
            if *m == "replica".to_owned() {
                is_replica = true;
                name = match text_of(f, &"sourceTemplateName".to_owned()) {
                    Some(s) => Some(s.clone()),
                    None => None,
                };
            } else if *m == "template".to_owned() {
                is_template = true;
                name = match text_of(f, &"templateName".to_owned()) {
                    Some(s) => Some(s.clone()),
                    None => None,
                };
            }
        }
    }
    proof {
        reveal_strlit("replica");
        reveal_strlit("template");
    }
    InstanceSummary {
        uid,
        object_type_name,
        is_replica,
        is_template,
        template_or_source_name: name,
        layer_index: li,
        instance_index: ii,
    }
}

/// Lists every instance object of a layout, with its uid, type and template role.
pub fn list_instances(doc: &LayoutDocument) -> (r: Vec<InstanceSummary>)
    ensures
        summaries_view(r@) == layout_summaries(doc@),
{
    let mut out: Vec<InstanceSummary> = Vec::new();
    match &doc.layers {
        None => {
            assert(summaries_view(out@) =~= Seq::empty());
            out
        },
        Some(ls) => {
            let ghost lv = layers_view(ls@);
            let mut i: usize = 0;
            assert(lv.take(0) =~= Seq::<LayerV>::empty());
            assert(summaries_view(out@) =~= Seq::empty());
            while i < ls.len()
                invariant
                    i <= ls.len(),
                    lv == layers_view(ls@),
                    summaries_view(out@) == layers_summaries(lv.take(i as int)),
                decreases ls.len() - i,
            {
                assert(lv[i as int] == ls@[i as int]@);
                let ghost base = summaries_view(out@);
                assert(lv.take(i + 1).drop_last() =~= lv.take(i as int));
                match &ls[i].instances {
                    None => {},
                    Some(v) => {
                        let ghost sv = slots_view(v@);
                        let mut j: usize = 0;
                        assert(sv.take(0) =~= Seq::<InstanceSlotV>::empty());
                        assert(base + Seq::empty() =~= base);
                        while j < v.len()
                            invariant
                                j <= v.len(),
                                sv == slots_view(v@),
                                summaries_view(out@) == base + slot_summaries(i as int, sv.take(j as int)),
                            decreases v.len() - j,
                        {
                            assert(sv[j as int] == v@[j as int]@);
                            assert(sv.take(j + 1).drop_last() =~= sv.take(j as int));
                            assert(sv.take(j + 1).last() == sv[j as int]);
                            match &v[j] {
                                InstanceSlot::Node(n) => {
                                    let s = summarize(i, j, n);
                                    assert(slot_summaries(i as int, sv.take(j + 1)) == slot_summaries(
                                        i as int,
                                        sv.take(j as int),
                                    ).push(summary_of(i as int, j as int, n@)));
                                    let ghost prev = out@;
                                    let ghost sv_new = s@;
                                    out.push(s);
                                    assert(summaries_view(out@) =~= summaries_view(prev).push(sv_new));
                                    assert(summaries_view(out@) =~= base + slot_summaries(i as int, sv.take(j + 1)));
                                },
                                InstanceSlot::Other(_) => {},
                            }
                            j = j + 1;
                        }
                        assert(sv.take(v.len() as int) =~= sv);
                    },
                }
                assert(summaries_view(out@) =~= layers_summaries(lv.take(i + 1)));
                i = i + 1;
            }
            assert(lv.take(ls.len() as int) =~= lv);
            out
        },
    }
}

} // verus!
