use vstd::prelude::*;
use quick_xml::events::Event;
use crate::registry::LayoutEntry;

verus! {

/// A markup event of the manifest that the reader acts on.
#[derive(Debug, Clone, PartialEq, Eq)]
pub enum XmlToken {
    /// A start tag, by name.
    Open(String),
    /// An end tag, by name.
    Close(String),
    /// Text, unescaped.
    Text(String),
}

pub enum XmlTokenV {
    Open(Seq<char>),
    Close(Seq<char>),
    Text(Seq<char>),
}

impl View for XmlToken {
    type V = XmlTokenV;

    open spec fn view(&self) -> XmlTokenV {
        match self {
            XmlToken::Open(s) => XmlTokenV::Open(s@),
            XmlToken::Close(s) => XmlTokenV::Close(s@),
            XmlToken::Text(s) => XmlTokenV::Text(s@),
        }
    }
}

pub open spec fn tokens_view(s: Seq<XmlToken>) -> Seq<XmlTokenV> {
    s.map_values(|t: XmlToken| t@)
}

pub open spec fn entries_view(s: Seq<LayoutEntry>) -> Seq<(Seq<char>, Seq<char>)> {
    s.map_values(|e: LayoutEntry| (e.name@, e.path@))
}

/// Why a manifest could not be read.
#[derive(Debug, PartialEq, Eq)]
pub enum ManifestError {
    /// The markup is malformed, or holds an entity that cannot be unescaped.
    Malformed,
}

/// The events that quick-xml reads from a document (start tags, end tags and text,
/// with surrounding whitespace trimmed), or `None` where it reports an error.
pub uninterp spec fn xml_tokens_of(s: Seq<char>) -> Option<Seq<XmlTokenV>>;

/// Relies on quick_xml::Reader (from_str, trim_text, read_event) and
/// BytesText::unescape: the document's events up to the end, or `None` at the first
/// error. The loop drains a reader whose progress is not visible to the verifier.
#[verifier::external_body]
fn xml_tokens(content: &str) -> (r: Option<Vec<XmlToken>>)
    ensures
        match r {
            Some(v) => xml_tokens_of(content@) == Some(tokens_view(v@)),
            None => xml_tokens_of(content@) is None,
        },
{
    let mut reader = quick_xml::Reader::from_str(content);
    reader.trim_text(true);
    let mut out = Vec::new();
    loop {
        match reader.read_event() {
            Ok(Event::Start(e)) => out.push(XmlToken::Open(String::from_utf8_lossy(e.name().as_ref()).into_owned())),
            Ok(Event::End(e)) => out.push(XmlToken::Close(String::from_utf8_lossy(e.name().as_ref()).into_owned())),
            Ok(Event::Text(e)) => out.push(XmlToken::Text(e.unescape().ok()?.into_owned())),
            Ok(Event::Eof) => return Some(out),
            Ok(_) => {},
            Err(_) => return None,
        }
    }
}

/// Relies on str::ends_with: whether `s` ends with `suffix`.
#[verifier::external_body]
fn ends_with(s: &str, suffix: &str) -> (r: bool)
    ensures
        r == (suffix@.len() <= s@.len() && s@.subrange(s@.len() - suffix@.len(), s@.len() as int)
            == suffix@),
{
    s.ends_with(suffix)
}

pub open spec fn is_json_path(p: Seq<char>) -> bool {
    ".json"@.len() <= p.len() && p.subrange(p.len() - ".json"@.len(), p.len() as int) == ".json"@
}

/// Where the reader stands: inside a `layout` block or not, the name captured in
/// it, and whether the next text is a name or a file.
pub struct ScanState {
    pub in_layout: bool,
    pub name: Option<Seq<char>>,
    pub next_is_name: bool,
    pub next_is_file: bool,
}

pub open spec fn scan_start() -> ScanState {
    ScanState { in_layout: false, name: None, next_is_name: false, next_is_file: false }
}

/// One event: the next state, and the entry it emits, if any.
pub open spec fn scan_step(st: ScanState, t: XmlTokenV) -> (ScanState, Option<(Seq<char>, Seq<char>)>) {
    match t {
        XmlTokenV::Open(tag) => {
            if tag == "layout"@ {
                (ScanState { in_layout: true, name: None, next_is_name: false, next_is_file: false }, None)
            } else if tag == "name"@ && st.in_layout {
                (ScanState { next_is_name: true, ..st }, None)
            } else if tag == "file"@ && st.in_layout && st.name is Some {
                (ScanState { next_is_file: true, ..st }, None)
            } else {
                (st, None)
            }
        },
        XmlTokenV::Text(x) => {
            if st.next_is_name {
                (ScanState { name: Some(x), next_is_name: false, ..st }, None)
            } else if st.next_is_file {
                (
                    ScanState { next_is_file: false, ..st },
                    if st.name is Some && is_json_path(x) {
                        Some((st.name->0, x))
                    } else {
                        None
                    },
                )
            } else {
                (st, None)
            }
        },
        XmlTokenV::Close(tag) => {
            if tag == "layout"@ {
                (ScanState { in_layout: false, name: None, ..st }, None)
            } else {
                (st, None)
            }
        },
    }
}

/// The state after a run of events, and the entries emitted along it, in order.
pub open spec fn scan(s: Seq<XmlTokenV>) -> (ScanState, Seq<(Seq<char>, Seq<char>)>)
    decreases s.len(),
{
    if s.len() == 0 {
        (scan_start(), Seq::empty())
    } else {
        let (st, out) = scan(s.drop_last());
        let (st2, e) = scan_step(st, s.last());
        (
            st2,
            match e {
                Some(x) => out.push(x),
                None => out,
            },
        )
    }
}

pub proof fn lemma_scan_push(s: Seq<XmlTokenV>, t: XmlTokenV)
    ensures
        scan(s.push(t)) == ({
            let (st2, e) = scan_step(scan(s).0, t);
            (
                st2,
                match e {
                    Some(x) => scan(s).1.push(x),
                    None => scan(s).1,
                },
            )
        }),
{
    assert(s.push(t).drop_last() =~= s);
}

/// The layouts that a run of manifest events declares, in order.
pub fn layouts_from_tokens(tokens: &Vec<XmlToken>) -> (r: Vec<LayoutEntry>)
    ensures
        entries_view(r@) == scan(tokens_view(tokens@)).1,
{
    let ghost tv = tokens_view(tokens@);
    let layout_tag = "layout".to_owned();
    let name_tag = "name".to_owned();
    let file_tag = "file".to_owned();
    let mut in_layout = false;
    let mut name: Option<String> = None;
    let mut next_is_name = false;
    let mut next_is_file = false;
    let mut out: Vec<LayoutEntry> = Vec::new();
    let mut i: usize = 0;
    assert(tv.take(0) =~= Seq::<XmlTokenV>::empty());
    assert(entries_view(out@) =~= Seq::empty());
    while i < tokens.len()
        invariant
            i <= tokens.len(),
            tv == tokens_view(tokens@),
            layout_tag@ == "layout"@,
            name_tag@ == "name"@,
            file_tag@ == "file"@,
            scan(tv.take(i as int)).0 == (ScanState {
                in_layout,
                name: match name {
                    Some(n) => Some(n@),
                    None => None,
                },
                next_is_name,
                next_is_file,
            }),
            scan(tv.take(i as int)).1 == entries_view(out@),
        decreases tokens.len() - i,
    {
        proof {
            assert(tv.take(i + 1) =~= tv.take(i as int).push(tv[i as int]));
            lemma_scan_push(tv.take(i as int), tv[i as int]);
            assert(tv[i as int] == tokens@[i as int]@);
        }
        match &tokens[i] {
            XmlToken::Open(tag) => {
                if *tag == layout_tag {
                    in_layout = true;
                    name = None;
                    next_is_name = false;
                    next_is_file = false;
                } else if *tag == name_tag && in_layout {
                    next_is_name = true;
                } else if *tag == file_tag && in_layout && name.is_some() {
                    next_is_file = true;
                }
            },
            XmlToken::Text(x) => {
                if next_is_name {
                    name = Some(x.clone());
                    next_is_name = false;
                } else if next_is_file {
                    match &name {
                        Some(n) => {
                            if ends_with(x.as_str(), ".json") {
                                out.push(LayoutEntry { name: n.clone(), path: x.clone() });
                                assert(entries_view(out@) =~= scan(tv.take(i + 1)).1);
                            }
                        },
                        None => {},
                    }
                    next_is_file = false;
                }
            },
            XmlToken::Close(tag) => {
                if *tag == layout_tag {
                    in_layout = false;
                    name = None;
                }
            },
        }
        i = i + 1;
    }
    assert(tv.take(tokens.len() as int) =~= tv);
    out
}

/// Reads the layouts that a project manifest declares: one entry for each `file`
/// that ends in `.json` and follows a `name` in the same `layout` block.
pub fn read_manifest(content: &str) -> (r: Result<Vec<LayoutEntry>, ManifestError>)
    ensures
        match xml_tokens_of(content@) {
            Some(tv) => r is Ok && entries_view(r->Ok_0@) == scan(tv).1,
            None => r == Err::<Vec<LayoutEntry>, ManifestError>(ManifestError::Malformed),
        },
{
    match xml_tokens(content) {
        Some(tokens) => Ok(layouts_from_tokens(&tokens)),
        None => Err(ManifestError::Malformed),
    }
}


pub open spec fn is_open(t: XmlTokenV, tag: Seq<char>) -> bool {
    t == XmlTokenV::Open(tag)
}

pub open spec fn is_close(t: XmlTokenV, tag: Seq<char>) -> bool {
    t == XmlTokenV::Close(tag)
}

/// `<layout><name>N</name><file>F</file></layout>`
pub open spec fn is_full_block(b: Seq<XmlTokenV>) -> bool {
    &&& b.len() == 8
    &&& is_open(b[0], "layout"@)
    &&& is_open(b[1], "name"@)
    &&& b[2] is Text
    &&& is_close(b[3], "name"@)
    &&& is_open(b[4], "file"@)
    &&& b[5] is Text
    &&& is_close(b[6], "file"@)
    &&& is_close(b[7], "layout"@)
}

/// `<layout><name>N</name></layout>` or `<layout><file>F</file></layout>`
pub open spec fn is_partial_block(b: Seq<XmlTokenV>) -> bool {
    &&& b.len() == 5
    &&& is_open(b[0], "layout"@)
    &&& ((is_open(b[1], "name"@) && is_close(b[3], "name"@)) || (is_open(b[1], "file"@) && is_close(
        b[3],
        "file"@,
    )))
    &&& b[2] is Text
    &&& is_close(b[4], "layout"@)
}

pub open spec fn is_block(b: Seq<XmlTokenV>) -> bool {
    is_full_block(b) || is_partial_block(b)
}

/// The entry that a block declares: its name and file, where it has both and the
/// file ends in `.json`.
pub open spec fn block_entry(b: Seq<XmlTokenV>) -> Seq<(Seq<char>, Seq<char>)> {
    if is_full_block(b) && is_json_path(b[5]->Text_0) {
        seq![(b[2]->Text_0, b[5]->Text_0)]
    } else {
        Seq::empty()
    }
}

pub open spec fn concat_blocks(bs: Seq<Seq<XmlTokenV>>) -> Seq<XmlTokenV>
    decreases bs.len(),
{
    if bs.len() == 0 {
        Seq::empty()
    } else {
        concat_blocks(bs.drop_last()) + bs.last()
    }
}

pub open spec fn blocks_entries(bs: Seq<Seq<XmlTokenV>>) -> Seq<(Seq<char>, Seq<char>)>
    decreases bs.len(),
{
    if bs.len() == 0 {
        Seq::empty()
    } else {
        blocks_entries(bs.drop_last()) + block_entry(bs.last())
    }
}

proof fn lemma_tag_lengths()
    ensures
        "layout"@.len() == 6,
        "name"@.len() == 4,
        "file"@.len() == 4,
        "name"@ != "file"@,
{
    reveal_strlit("layout");
    reveal_strlit("name");
    reveal_strlit("file");
    assert("name"@[0] != "file"@[0]);
}

proof fn lemma_scan_block(p: Seq<XmlTokenV>, b: Seq<XmlTokenV>)
    requires
        scan(p).0 == scan_start(),
        is_block(b),
    ensures
        scan(p + b).0 == scan_start(),
        scan(p + b).1 == scan(p).1 + block_entry(b),
{
    lemma_tag_lengths();
    assert(b.take(b.len() as int) =~= b);
    assert(p + b.take(0) =~= p);
    let q1 = p + b.take(1);
    let q2 = p + b.take(2);
    let q3 = p + b.take(3);
    let q4 = p + b.take(4);
    let q5 = p + b.take(5);
    assert(q1 =~= p.push(b[0]));
    assert(q2 =~= q1.push(b[1]));
    assert(q3 =~= q2.push(b[2]));
    assert(q4 =~= q3.push(b[3]));
    assert(q5 =~= q4.push(b[4]));
    lemma_scan_push(p, b[0]);
    lemma_scan_push(q1, b[1]);
    lemma_scan_push(q2, b[2]);
    lemma_scan_push(q3, b[3]);
    lemma_scan_push(q4, b[4]);
    if is_full_block(b) {
        let q6 = p + b.take(6);
        let q7 = p + b.take(7);
        assert(q6 =~= q5.push(b[5]));
        assert(q7 =~= q6.push(b[6]));
        assert(p + b =~= q7.push(b[7]));
        lemma_scan_push(q5, b[5]);
        lemma_scan_push(q6, b[6]);
        lemma_scan_push(q7, b[7]);
        if is_json_path(b[5]->Text_0) {
            assert(scan(p + b).1 =~= scan(p).1 + block_entry(b));
        } else {
            assert(scan(p + b).1 =~= scan(p).1 + block_entry(b));
        }
    } else {
        assert(p + b =~= q5);
        assert(scan(p + b).1 =~= scan(p).1 + block_entry(b));
    }
}

/// A manifest made of well-formed `layout` blocks declares one entry for each block
/// that has both a name and a `.json` file, in document order, and none for a block
/// that lacks either.
pub proof fn lemma_manifest_blocks(bs: Seq<Seq<XmlTokenV>>)
    requires
        forall|k: int| 0 <= k < bs.len() ==> is_block(#[trigger] bs[k]),
    ensures
        scan(concat_blocks(bs)).1 == blocks_entries(bs),
        scan(concat_blocks(bs)).0 == scan_start(),
    decreases bs.len(),
{
    if bs.len() == 0 {
        assert(concat_blocks(bs) =~= Seq::<XmlTokenV>::empty());
    } else {
        let init = bs.drop_last();
        assert forall|k: int| 0 <= k < init.len() implies is_block(#[trigger] init[k]) by {
            assert(init[k] == bs[k]);
        }
        lemma_manifest_blocks(init);
        assert(is_block(bs[bs.len() - 1]));
        lemma_scan_block(concat_blocks(init), bs.last());
    }
}

} // verus!
