use vstd::prelude::*;
use crate::fields::{FieldValue, FieldV, fields_view, value_of, find_key};
use crate::layout::{
    TemplateSlot, InstanceSlot, InstanceSlotV, Layer, LayerV, LayoutDocument, LayoutV, slots_view,
    layers_view,
};

verus! {

/// A layout that the project manifest declares.
#[derive(Debug, Clone, PartialEq, Eq)]
pub struct LayoutEntry {
    pub name: String,
    /// The layout file, relative to the project root.
    pub path: String,
}

/// A template, with the type of the instance that defines it and the layout it stands in.
#[derive(Debug, Clone, PartialEq, Eq)]
pub struct TemplateDefinition {
    pub name: String,
    pub object_type: String,
    pub defined_in_layout_name: String,
    pub defined_in_layout_path: String,
}

pub struct TemplateDefV {
    pub name: Seq<char>,
    pub object_type: Seq<char>,
    pub layout_name: Seq<char>,
    pub layout_path: Seq<char>,
}

impl View for TemplateDefinition {
    type V = TemplateDefV;

    open spec fn view(&self) -> TemplateDefV {
        TemplateDefV {
            name: self.name@,
            object_type: self.object_type@,
            layout_name: self.defined_in_layout_name@,
            layout_path: self.defined_in_layout_path@,
        }
    }
}

pub open spec fn defs_view(s: Seq<TemplateDefinition>) -> Seq<TemplateDefV> {
    s.map_values(|t: TemplateDefinition| t@)
}

/// A declared layout with its document, or `None` where it could not be loaded.
#[derive(Debug, PartialEq)]
pub struct LoadedLayout {
    pub entry: LayoutEntry,
    pub doc: Option<LayoutDocument>,
}

/// The template that an instance entry defines: its binding is in `template` mode
/// with a non-empty string `templateName`.
pub open spec fn slot_def(name: Seq<char>, path: Seq<char>, s: InstanceSlotV) -> Option<TemplateDefV> {
    match s {
        InstanceSlotV::Node(i) => match i.template {
            crate::layout::TemplateV::Object(f) => {
                if value_of(f, "mode"@) == Some(FieldV::Text("template"@)) && value_of(
                    f,
                    "templateName"@,
                ) is Some && value_of(f, "templateName"@)->0 is Text && value_of(
                    f,
                    "templateName"@,
                )->0->Text_0.len() > 0 {
                    Some(
                        TemplateDefV {
                            name: value_of(f, "templateName"@)->0->Text_0,
                            object_type: match i.object_type {
                                Some(t) => t,
                                None => Seq::empty(),
                            },
                            layout_name: name,
                            layout_path: path,
                        },
                    )
                } else {
                    None
                }
            },
            _ => None,
        },
        InstanceSlotV::Other(_) => None,
    }
}

pub open spec fn slots_defs(name: Seq<char>, path: Seq<char>, s: Seq<InstanceSlotV>) -> Set<
    TemplateDefV,
> {
    Set::new(|t: TemplateDefV| exists|j: int| 0 <= j < s.len() && slot_def(name, path, s[j]) == Some(t))
}

pub open spec fn layer_defs(name: Seq<char>, path: Seq<char>, l: LayerV) -> Set<TemplateDefV> {
    match l.instances {
        Some(s) => slots_defs(name, path, s),
        None => Set::empty(),
    }
}

pub open spec fn layers_defs(name: Seq<char>, path: Seq<char>, ls: Seq<LayerV>) -> Set<TemplateDefV> {
    Set::new(
        |t: TemplateDefV| exists|i: int| 0 <= i < ls.len() && layer_defs(name, path, ls[i]).contains(t),
    )
}

/// The templates that a layout defines.
pub open spec fn layout_defs(name: Seq<char>, path: Seq<char>, d: LayoutV) -> Set<TemplateDefV> {
    match d.layers {
        Some(ls) => layers_defs(name, path, ls),
        None => Set::empty(),
    }
}

pub open spec fn loaded_defs(l: LoadedLayout) -> Set<TemplateDefV> {
    match l.doc {
        Some(d) => layout_defs(l.entry.name@, l.entry.path@, d@),
        None => Set::empty(),
    }
}

/// The templates that the loaded layouts define; those that failed to load add none.
pub open spec fn registry_defs(s: Seq<LoadedLayout>) -> Set<TemplateDefV> {
    Set::new(|t: TemplateDefV| exists|k: int| 0 <= k < s.len() && loaded_defs(s[k]).contains(t))
}

pub(crate) fn text_of<'a>(f: &'a Vec<(String, FieldValue)>, k: &String) -> (r: Option<&'a String>)
    ensures
        match r {
            Some(s) => value_of(fields_view(f@), k@) == Some(FieldV::Text(s@)),
            None => !(value_of(fields_view(f@), k@) is Some && value_of(fields_view(f@), k@)->0 is Text),
        },
{
    match find_key(f, k) {
        Some(i) => {
            assert(fields_view(f@)[i as int] == (f@[i as int].0@, f@[i as int].1@));
            match &f[i].1 {
                FieldValue::Text(s) => Some(s),
                _ => None,
            }
        },
        None => None,
    }
}

/// The template that an instance entry defines, if any.
pub fn slot_definition(entry: &LayoutEntry, s: &InstanceSlot) -> (r: Option<TemplateDefinition>)
    ensures
        match r {
            Some(t) => slot_def(entry.name@, entry.path@, s@) == Some(t@),
            None => slot_def(entry.name@, entry.path@, s@) is None,
        },
{
    match s {
        InstanceSlot::Node(n) => match &n.template {
            TemplateSlot::Object(f) => {
                let mode = text_of(f, &"mode".to_owned());
                let is_template = match mode {
                    Some(m) => *m == "template".to_owned(),
                    None => false,
                };
                if !is_template {
                    return None;
                }
                match text_of(f, &"templateName".to_owned()) {
                    Some(name) => {
                        if name.as_str().is_empty() {
                            return None;
                        }
                        let object_type = match &n.object_type {
                            Some(t) => t.clone(),
                            None => String::new(),
                        };
                        Some(
                            TemplateDefinition {
                                name: name.clone(),
                                object_type,
                                defined_in_layout_name: entry.name.clone(),
                                defined_in_layout_path: entry.path.clone(),
                            },
                        )
                    },
                    None => None,
                }
            },
            _ => None,
        },
        InstanceSlot::Other(_) => None,
    }
}

/// Adds `t` unless an equal definition is present.
pub fn insert_definition(out: &mut Vec<TemplateDefinition>, t: TemplateDefinition)
    requires
        defs_view(old(out)@).no_duplicates(),
    ensures
        defs_view(final(out)@).no_duplicates(),
        defs_view(final(out)@).to_set() == defs_view(old(out)@).to_set().insert(t@),
{
    let ghost ov = defs_view(out@);
    let mut i: usize = 0;
    while i < out.len()
        invariant
            i <= out.len(),
            ov == defs_view(out@),
            ov == defs_view(old(out)@),
            ov.no_duplicates(),
            forall|j: int| 0 <= j < i ==> #[trigger] ov[j] != t@,
        decreases out.len() - i,
    {
        let same = out[i].name == t.name && out[i].object_type == t.object_type
            && out[i].defined_in_layout_name == t.defined_in_layout_name
            && out[i].defined_in_layout_path == t.defined_in_layout_path;
        assert(ov[i as int] == out@[i as int]@);
        if same {
            assert(ov.to_set().insert(t@) =~= ov.to_set());
            return;
        }
        i = i + 1;
    }
    out.push(t);
    assert(defs_view(out@) =~= ov.push(t@));
    proof {
        ov.lemma_push_to_set_commute(t@);
        assert(!ov.contains(t@));
    }
}

fn add_layer(out: &mut Vec<TemplateDefinition>, entry: &LayoutEntry, l: &Layer)
    requires
        defs_view(old(out)@).no_duplicates(),
    ensures
        defs_view(final(out)@).no_duplicates(),
        defs_view(final(out)@).to_set() == defs_view(old(out)@).to_set().union(
            layer_defs(entry.name@, entry.path@, l@),
        ),
{
    match &l.instances {
        None => {
            assert(defs_view(old(out)@).to_set().union(Set::empty()) =~= defs_view(old(out)@).to_set());
        },
        Some(v) => {
            let ghost sv = slots_view(v@);
            let ghost base = defs_view(out@).to_set();
            let ghost (nm, pt) = (entry.name@, entry.path@);
            let mut j: usize = 0;
            while j < v.len()
                invariant
                    j <= v.len(),
                    sv == slots_view(v@),
                    defs_view(out@).no_duplicates(),
                    defs_view(out@).to_set() == base.union(slots_defs(nm, pt, sv.take(j as int))),
                    nm == entry.name@,
                    pt == entry.path@,
                decreases v.len() - j,
            {
                assert(sv[j as int] == v@[j as int]@);
                let found = slot_definition(entry, &v[j]);
                let ghost before = slots_defs(nm, pt, sv.take(j as int));
                let ghost after = slots_defs(nm, pt, sv.take(j + 1));
                match found {
                    Some(t) => {
                        assert(after =~= before.insert(t@)) by {
                            assert(sv.take(j + 1)[j as int] == sv[j as int]);
                            assert forall|x: TemplateDefV| after.contains(x) implies before.insert(t@).contains(x) by {
                                let w = choose|w: int| 0 <= w < j + 1 && #[trigger] slot_def(nm, pt, sv.take(j + 1)[w]) == Some(x);
                                if w < j {
                                    assert(sv.take(j as int)[w] == sv.take(j + 1)[w]);
                                }
                            }
                            assert forall|x: TemplateDefV| before.insert(t@).contains(x) implies after.contains(x) by {
                                if x != t@ {
                                    let w = choose|w: int| 0 <= w < j && #[trigger] slot_def(nm, pt, sv.take(j as int)[w]) == Some(x);
                                    assert(sv.take(j as int)[w] == sv.take(j + 1)[w]);
                                }
                            }
                        }
                        insert_definition(out, t);
                        assert(base.union(before).insert(t@) =~= base.union(after));
                    },
                    None => {
                        assert(after =~= before) by {
                            assert forall|x: TemplateDefV| after.contains(x) implies before.contains(x) by {
                                let w = choose|w: int| 0 <= w < j + 1 && #[trigger] slot_def(nm, pt, sv.take(j + 1)[w]) == Some(x);
                                assert(sv.take(j as int)[w] == sv.take(j + 1)[w]);
                            }
                            assert forall|x: TemplateDefV| before.contains(x) implies after.contains(x) by {
                                let w = choose|w: int| 0 <= w < j && #[trigger] slot_def(nm, pt, sv.take(j as int)[w]) == Some(x);
                                assert(sv.take(j as int)[w] == sv.take(j + 1)[w]);
                            }
                        }
                    },
                }
                j = j + 1;
            }
            assert(sv.take(v.len() as int) =~= sv);
        },
    }
}


fn add_layout(out: &mut Vec<TemplateDefinition>, entry: &LayoutEntry, d: &LayoutDocument)
    requires
        defs_view(old(out)@).no_duplicates(),
    ensures
        defs_view(final(out)@).no_duplicates(),
        defs_view(final(out)@).to_set() == defs_view(old(out)@).to_set().union(
            layout_defs(entry.name@, entry.path@, d@),
        ),
{
    match &d.layers {
        None => {
            assert(defs_view(old(out)@).to_set().union(Set::empty()) =~= defs_view(old(out)@).to_set());
        },
        Some(ls) => {
            let ghost lv = layers_view(ls@);
            let ghost base = defs_view(out@).to_set();
            let ghost (nm, pt) = (entry.name@, entry.path@);
            let mut i: usize = 0;
            assert(layers_defs(nm, pt, lv.take(0)) =~= Set::empty());
            assert(base.union(Set::empty()) =~= base);
            while i < ls.len()
                invariant
                    i <= ls.len(),
                    lv == layers_view(ls@),
                    defs_view(out@).no_duplicates(),
                    defs_view(out@).to_set() == base.union(layers_defs(nm, pt, lv.take(i as int))),
                    nm == entry.name@,
                    pt == entry.path@,
                decreases ls.len() - i,
            {
                assert(lv[i as int] == ls@[i as int]@);
                let ghost before = layers_defs(nm, pt, lv.take(i as int));
                let ghost after = layers_defs(nm, pt, lv.take(i + 1));
                let ghost here = layer_defs(nm, pt, lv[i as int]);
                add_layer(out, entry, &ls[i]);
                assert(after =~= before.union(here)) by {
                    assert(lv.take(i + 1)[i as int] == lv[i as int]);
                    assert forall|x: TemplateDefV| after.contains(x) implies before.union(here).contains(x) by {
                        let w = choose|w: int| 0 <= w < i + 1 && #[trigger] layer_defs(nm, pt, lv.take(i + 1)[w]).contains(x);
                        if w < i {
                            assert(lv.take(i as int)[w] == lv.take(i + 1)[w]);
                        }
                    }
                    assert forall|x: TemplateDefV| before.union(here).contains(x) implies after.contains(x) by {
                        if before.contains(x) {
                            let w = choose|w: int| 0 <= w < i && #[trigger] layer_defs(nm, pt, lv.take(i as int)[w]).contains(x);
                            assert(lv.take(i as int)[w] == lv.take(i + 1)[w]);
                        }
                    }
                }
                assert(base.union(before).union(here) =~= base.union(after));
                i = i + 1;
            }
            assert(lv.take(ls.len() as int) =~= lv);
        },
    }
}

/// Collects the templates that the loaded layouts define, each full record once.
/// Layouts that could not be loaded are passed over.
pub fn build_registry(layouts: &Vec<LoadedLayout>) -> (r: Vec<TemplateDefinition>)
    ensures
        defs_view(r@).no_duplicates(),
        defs_view(r@).to_set() == registry_defs(layouts@),
{
    let mut out: Vec<TemplateDefinition> = Vec::new();
    let ghost sv = layouts@;
    assert(defs_view(out@) =~= Seq::empty());
    assert(defs_view(out@).to_set() =~= Set::empty());
    assert(registry_defs(sv.take(0)) =~= Set::empty());
    let mut k: usize = 0;
    while k < layouts.len()
        invariant
            k <= layouts.len(),
            sv == layouts@,
            defs_view(out@).no_duplicates(),
            defs_view(out@).to_set() == registry_defs(sv.take(k as int)),
        decreases layouts.len() - k,
    {
        let ghost before = registry_defs(sv.take(k as int));
        let ghost after = registry_defs(sv.take(k + 1));
        let ghost here = loaded_defs(sv[k as int]);
        match &layouts[k].doc {
            Some(d) => {
                add_layout(&mut out, &layouts[k].entry, d);
            },
            None => {
                assert(defs_view(out@).to_set().union(here) =~= defs_view(out@).to_set());
            },
        }
        assert(after =~= before.union(here)) by {
            assert(sv.take(k + 1)[k as int] == sv[k as int]);
            assert forall|x: TemplateDefV| after.contains(x) implies before.union(here).contains(x) by {
                let w = choose|w: int| 0 <= w < k + 1 && #[trigger] loaded_defs(sv.take(k + 1)[w]).contains(x);
                if w < k {
                    assert(sv.take(k as int)[w] == sv.take(k + 1)[w]);
                }
            }
            assert forall|x: TemplateDefV| before.union(here).contains(x) implies after.contains(x) by {
                if before.contains(x) {
                    let w = choose|w: int| 0 <= w < k && #[trigger] loaded_defs(sv.take(k as int)[w]).contains(x);
                    assert(sv.take(k as int)[w] == sv.take(k + 1)[w]);
                }
            }
        }
        k = k + 1;
    }
    assert(sv.take(layouts.len() as int) =~= sv);
    out
}

/// The registry holds as many records as there are distinct definitions: records that
/// agree in name, type, layout name and layout path collapse into one.
pub proof fn lemma_registry_counts_distinct(layouts: Seq<LoadedLayout>, r: Seq<TemplateDefinition>)
    requires
        defs_view(r).no_duplicates(),
        defs_view(r).to_set() == registry_defs(layouts),
    ensures
        r.len() == registry_defs(layouts).len(),
{
    defs_view(r).unique_seq_to_set();
}

} // verus!
