//! Reading the project descriptor files.
//!
//! The two descriptor files are XML: the project file carries the
//! project name as the text of its first `name` element, and the C
//! project file declares the build configurations as `name` attributes
//! of its `configuration` elements. The outside parser's whole event
//! list stands behind one trusted wrapper under the name [`events_of`];
//! everything done with the events — the scanning, matching and
//! collecting — is verified against that name, so each reader's result
//! is pinned to the document's text.

use vstd::prelude::*;

use quick_xml::events::BytesStart;
use quick_xml::events::Event;
use quick_xml::reader::Reader;

use crate::strnum::contains_sub;
use crate::strnum::contains_seq;

verus! {

/// Whether the content looks like a project descriptor file.
pub fn validate_project_file(content: &str) -> (ok: bool)
    ensures
        ok == contains_seq(content@, "<projectDescription>"@),
{
    contains_sub(content, "<projectDescription>")
}

/// Whether the content looks like a C project descriptor file.
pub fn validate_cproject_file(content: &str) -> (ok: bool)
    ensures
        ok == contains_seq(content@, "<cproject"@),
{
    contains_sub(content, "<cproject")
}

/// A file name with the linker-script extension: it ends in `.ld` and
/// has something before the dot.
pub open spec fn is_ld_name(s: Seq<char>) -> bool {
    s.len() > 3 && s.subrange(s.len() - 3, s.len() as int) == ".ld"@
}

/// Keeps the file names carrying the linker-script extension, in input
/// order.
pub open spec fn ld_names_spec(names: Seq<Seq<char>>) -> Seq<Seq<char>>
    decreases names.len(),
{
    if names.len() == 0 {
        Seq::<Seq<char>>::empty()
    } else {
        ld_names_spec(names.drop_last()) + (if is_ld_name(names.last()) {
            seq![names.last()]
        } else {
            Seq::<Seq<char>>::empty()
        })
    }
}

/// Filters a directory listing down to the linker-script files.
pub fn filter_ld_files(names: &Vec<String>) -> (r: Vec<String>)
    ensures
        r.deep_view() == ld_names_spec(names.deep_view()),
{
    let mut out: Vec<String> = Vec::new();
    let n = names.len();
    let mut i: usize = 0;
    proof {
        assert(names.deep_view().subrange(0, 0) =~= Seq::<Seq<char>>::empty());
        assert(out.deep_view() =~= ld_names_spec(names.deep_view().subrange(0, 0)));
    }
    while i < n
        invariant
            0 <= i <= n,
            n == names@.len(),
            out.deep_view() =~= ld_names_spec(names.deep_view().subrange(0, i as int)),
        decreases n - i,
    {
        proof {
            assert(names.deep_view().subrange(0, i as int + 1).drop_last() =~= names.deep_view()
                .subrange(0, i as int));
            assert(names.deep_view().subrange(0, i as int + 1).last() == names.deep_view()[i as int]);
        }
        let name = &names[i];
        let len = name.as_str().unicode_len();
        let mut keep = false;
        if len > 3 {
            let a = name.as_str().get_char(len - 3);
            let b = name.as_str().get_char(len - 2);
            let c = name.as_str().get_char(len - 1);
            keep = a == '.' && b == 'l' && c == 'd';
            proof {
                reveal_strlit(".ld");
                if keep {
                    assert(name@.subrange(name@.len() - 3, name@.len() as int) =~= ".ld"@);
                } else {
                    assert(name@.subrange(name@.len() - 3, name@.len() as int) != ".ld"@) by {
                        let suf = name@.subrange(name@.len() - 3, name@.len() as int);
                        assert(suf[0] == a && suf[1] == b && suf[2] == c);
                        assert(".ld"@[0] == '.' && ".ld"@[1] == 'l' && ".ld"@[2] == 'd');
                    }
                }
            }
        }
        if keep {
            out.push(name.clone());
        }
        proof {
            assert(out.deep_view() =~= ld_names_spec(names.deep_view().subrange(0, i as int + 1)));
        }
        i = i + 1;
    }
    proof {
        assert(names.deep_view().subrange(0, n as int) =~= names.deep_view());
    }
    out
}

/// One recorded event, reduced to plain values: what the verified
/// scanning logic works on.
#[derive(Debug, Clone)]
pub enum XmlNode {
    /// An opening tag: its name and, when the tag carries the looked-up
    /// attribute, that attribute's value.
    Start { name: Vec<u8>, name_attr: Option<String> },
    /// A closing tag and its name.
    End { name: Vec<u8> },
    /// Clean character data.
    Text(String),
    /// Character data whose unescaping failed, with the error text.
    BadText(String),
    /// End of the document.
    Eof,
    /// Anything else.
    Other,
    /// A parse error and its text.
    Malformed(String),
}

/// The event list the XML parser derives from a document: a function of
/// the document text and the attribute key alone, left unspecified
/// beyond that. One entry per parser event, whitespace-only text
/// dropped, text trimmed, and on every opening tag the value of the
/// given attribute when the tag carries one.
pub uninterp spec fn events_of(content: Seq<char>, attr: Seq<char>) -> Seq<XmlNode>;

/// An event is terminal when the parse stops there: the end of the
/// document or a parse error.
pub open spec fn is_terminal_node(n: XmlNode) -> bool {
    n is Eof || n is Malformed
}

#[verifier::external_type_specification]
#[verifier::external_body]
#[verifier::reject_recursive_types(R)]
pub struct ExReader<R>(Reader<R>);

#[verifier::external_type_specification]
#[verifier::external_body]
pub struct ExBytesStart<'a>(BytesStart<'a>);

/// Relies on BytesStart::try_get_attribute and Attribute::unescape_value:
/// the attribute's unescaped value when the tag carries it and it
/// unescapes cleanly. Serves the event conversion below.
#[verifier::external_body]
fn attr_of(tag: &BytesStart, attr: &str) -> (r: Option<String>) {
    match tag.try_get_attribute(attr) {
        Ok(Some(a)) => a.unescape_value().ok().map(|v| v.into_owned()),
        _ => None,
    }
}

/// A parse in progress: the outside parser plus the document, the
/// attribute key, and the count of events already taken.
struct EventCursor<'a> {
    reader: Reader<&'a [u8]>,
    content: &'a str,
    attr: &'a str,
    taken: usize,
}

/// Relies on quick_xml's Reader::from_str and trim_text: opens the
/// document with whitespace trimming, nothing taken yet. The clauses
/// also record the shape of the list the name denotes — the parse up to
/// its first end-of-document or error: never empty, its single terminal
/// event at the end, and no longer than the in-memory document allows,
/// since every event before the terminal consumes at least one byte.
#[verifier::external_body]
fn open_document<'a>(content: &'a str, attr: &'a str) -> (c: EventCursor<'a>)
    ensures
        c.content@ == content@,
        c.attr@ == attr@,
        c.taken == 0,
        events_of(c.content@, c.attr@).len() > 0,
        events_of(c.content@, c.attr@).len() <= usize::MAX,
        is_terminal_node(events_of(c.content@, c.attr@).last()),
        forall|j: int|
            0 <= j < events_of(c.content@, c.attr@).len() - 1 ==> !is_terminal_node(
                #[trigger] events_of(c.content@, c.attr@)[j],
            ),
{
    let mut reader = Reader::from_str(content);
    reader.trim_text(true);
    EventCursor { reader, content, attr, taken: 0 }
}

/// Relies on quick_xml's Reader::read_event, the events' name and
/// unescape accessors, and BytesStart::try_get_attribute with
/// Attribute::unescape_value: converts the next event to a plain value
/// and counts it. While events remain, the call returns exactly the
/// next entry of the document's event list; nothing is promised past
/// its end.
#[verifier::external_body]
fn next_document_event(c: &mut EventCursor) -> (ev: XmlNode)
    requires
        old(c).taken < usize::MAX,
    ensures
        final(c).content == old(c).content,
        final(c).attr == old(c).attr,
        final(c).taken == old(c).taken + 1,
        old(c).taken < events_of(old(c).content@, old(c).attr@).len() ==> ev == events_of(
            old(c).content@,
            old(c).attr@,
        )[old(c).taken as int],
{
    c.taken += 1;
    match c.reader.read_event() {
        Ok(Event::Start(e)) => {
            let name = e.name().as_ref().to_vec();
            XmlNode::Start { name, name_attr: attr_of(&e, c.attr) }
        },
        Ok(Event::End(e)) => XmlNode::End { name: e.name().as_ref().to_vec() },
        Ok(Event::Text(t)) => match t.unescape() {
            Ok(s) => XmlNode::Text(s.into_owned()),
            Err(e) => XmlNode::BadText(e.to_string()),
        },
        Ok(Event::Eof) => XmlNode::Eof,
        Ok(_) => XmlNode::Other,
        Err(e) => XmlNode::Malformed(e.to_string()),
    }
}

/// Pulls the whole event list of a document, one event at a time, up
/// to and including its terminal event.
fn collect_events(content: &str, attr: &str) -> (r: Vec<XmlNode>)
    ensures
        r@ == events_of(content@, attr@),
{
    let mut c = open_document(content, attr);
    let ghost evs = events_of(content@, attr@);
    let mut out: Vec<XmlNode> = Vec::new();
    let mut done = false;
    while !done
        invariant
            c.content@ == content@,
            c.attr@ == attr@,
            evs == events_of(content@, attr@),
            0 < evs.len() <= usize::MAX,
            is_terminal_node(evs.last()),
            forall|j: int| 0 <= j < evs.len() - 1 ==> !is_terminal_node(#[trigger] evs[j]),
            c.taken as int == out@.len(),
            c.taken <= evs.len(),
            out@ =~= evs.subrange(0, c.taken as int),
            !done ==> forall|j: int|
                0 <= j < c.taken ==> !is_terminal_node(#[trigger] evs[j]),
            done ==> c.taken == evs.len(),
        decreases evs.len() - c.taken + (if done {
            0int
        } else {
            1int
        }),
    {
        proof {
            if c.taken == evs.len() {
                assert(!is_terminal_node(evs[evs.len() - 1]));
            }
            assert(c.taken < evs.len());
        }
        let ghost before = c.taken as int;
        let ev = next_document_event(&mut c);
        let terminal = match &ev {
            XmlNode::Eof => true,
            XmlNode::Malformed(_) => true,
            _ => false,
        };
        out.push(ev);
        proof {
            assert(out@ =~= evs.subrange(0, before + 1));
        }
        if terminal {
            done = true;
            proof {
                assert(is_terminal_node(evs[before]));
                assert(before == evs.len() - 1);
            }
        }
    }
    proof {
        assert(evs.subrange(0, evs.len() as int) =~= evs);
    }
    out
}

/// The bytes of the `name` tag.
pub open spec fn name_tag() -> Seq<u8> {
    seq![110u8, 97u8, 109u8, 101u8]
}

/// The bytes of the `configuration` tag.
pub open spec fn configuration_tag() -> Seq<u8> {
    seq![99u8, 111u8, 110u8, 102u8, 105u8, 103u8, 117u8, 114u8, 97u8, 116u8, 105u8, 111u8, 110u8]
}

fn is_name_tag(v: &Vec<u8>) -> (r: bool)
    ensures
        r == (v@ == name_tag()),
{
    if v.len() != 4 {
        proof {
            assert(v@ != name_tag());
        }
        return false;
    }
    let r = v[0] == 110 && v[1] == 97 && v[2] == 109 && v[3] == 101;
    proof {
        if r {
            assert(v@ =~= name_tag());
        } else {
            assert(v@ != name_tag());
        }
    }
    r
}

fn is_configuration_tag(v: &Vec<u8>) -> (r: bool)
    ensures
        r == (v@ == configuration_tag()),
{
    let tag: [u8; 13] = [99, 111, 110, 102, 105, 103, 117, 114, 97, 116, 105, 111, 110];
    if v.len() != 13 {
        proof {
            assert(v@ != configuration_tag());
        }
        return false;
    }
    let mut i: usize = 0;
    while i < 13
        invariant
            0 <= i <= 13,
            v@.len() == 13,
            tag@ =~= configuration_tag(),
            forall|k: int| 0 <= k < i ==> v@[k] == configuration_tag()[k],
        decreases 13 - i,
    {
        if v[i] != tag[i] {
            proof {
                assert(v@[i as int] != configuration_tag()[i as int]);
                assert(v@ != configuration_tag());
            }
            return false;
        }
        i = i + 1;
    }
    proof {
        assert(v@ =~= configuration_tag());
    }
    true
}

/// The message when no project name is found before the document ends.
pub open spec fn name_not_found_msg() -> Seq<char> {
    "Project name not found in .project file"@
}

/// What scanning the event list yields for the project name: the text
/// immediately following the first opening `name` tag. The event after
/// such a tag is consumed either way; a failed unescape there fails the
/// scan, the document's end or a parse error fails it with its own
/// message, and everything else is passed over.
pub open spec fn project_name_outcome(nodes: Seq<XmlNode>) -> Result<Seq<char>, Seq<char>>
    decreases nodes.len(),
{
    if nodes.len() == 0 {
        Err(name_not_found_msg())
    } else {
        match nodes[0] {
            XmlNode::Malformed(m) => Err(m@),
            XmlNode::Eof => Err(name_not_found_msg()),
            XmlNode::Start { name, name_attr } => {
                if name@ == name_tag() {
                    if nodes.len() >= 2 {
                        match nodes[1] {
                            XmlNode::Text(t) => Ok(t@),
                            XmlNode::BadText(m) => Err(m@),
                            _ => project_name_outcome(nodes.subrange(2, nodes.len() as int)),
                        }
                    } else {
                        Err(name_not_found_msg())
                    }
                } else {
                    project_name_outcome(nodes.subrange(1, nodes.len() as int))
                }
            },
            _ => project_name_outcome(nodes.subrange(1, nodes.len() as int)),
        }
    }
}

/// Scans a recorded event list for the project name, exactly as the
/// live scan does.
pub fn project_name_from_nodes(nodes: &Vec<XmlNode>) -> (r: Result<String, String>)
    ensures
        r matches Ok(s) ==> project_name_outcome(nodes@) == Ok::<Seq<char>, Seq<char>>(s@),
        r matches Err(m) ==> project_name_outcome(nodes@) == Err::<Seq<char>, Seq<char>>(m@),
{
    let n = nodes.len();
    let mut i: usize = 0;
    proof {
        assert(nodes@.subrange(0, n as int) =~= nodes@);
    }
    while i < n
        invariant
            0 <= i <= n,
            n == nodes@.len(),
            project_name_outcome(nodes@) == project_name_outcome(
                nodes@.subrange(i as int, n as int),
            ),
        decreases n - i,
    {
        let ghost tail = nodes@.subrange(i as int, n as int);
        proof {
            assert(tail[0] == nodes@[i as int]);
            assert(tail.subrange(1, tail.len() as int) =~= nodes@.subrange(i as int + 1, n as int));
            if i + 2 <= n {
                assert(tail.subrange(2, tail.len() as int) =~= nodes@.subrange(
                    i as int + 2,
                    n as int,
                ));
            }
        }
        match &nodes[i] {
            XmlNode::Malformed(m) => {
                return Err(m.clone());
            },
            XmlNode::Eof => {
                let mut msg = String::new();
                msg.append("Project name not found in .project file");
                proof {
                    assert(msg@ =~= name_not_found_msg());
                }
                return Err(msg);
            },
            XmlNode::Start { name, name_attr: _ } => {
                if is_name_tag(name) {
                    if i + 1 < n {
                        proof {
                            assert(tail[1] == nodes@[i as int + 1]);
                        }
                        match &nodes[i + 1] {
                            XmlNode::Text(t) => {
                                return Ok(t.clone());
                            },
                            XmlNode::BadText(m) => {
                                return Err(m.clone());
                            },
                            _ => {},
                        }
                        i = i + 2;
                    } else {
                        let mut msg = String::new();
                        msg.append("Project name not found in .project file");
                        proof {
                            assert(msg@ =~= name_not_found_msg());
                        }
                        return Err(msg);
                    }
                } else {
                    i = i + 1;
                }
            },
            _ => {
                i = i + 1;
            },
        }
    }
    proof {
        assert(nodes@.subrange(n as int, n as int) =~= Seq::<XmlNode>::empty());
    }
    let mut msg = String::new();
    msg.append("Project name not found in .project file");
    proof {
        assert(msg@ =~= name_not_found_msg());
    }
    Err(msg)
}

/// What scanning the event list yields for the configuration names: the
/// `name` attribute of every opening `configuration` tag, in document
/// order; a parse error fails the whole scan with its message.
pub open spec fn configurations_outcome(nodes: Seq<XmlNode>) -> Result<Seq<Seq<char>>, Seq<char>>
    decreases nodes.len(),
{
    if nodes.len() == 0 {
        Ok(Seq::<Seq<char>>::empty())
    } else {
        match nodes[0] {
            XmlNode::Malformed(m) => Err("Error parsing .cproject: "@ + m@),
            XmlNode::Eof => Ok(Seq::<Seq<char>>::empty()),
            XmlNode::Start { name, name_attr } => {
                let rest = configurations_outcome(nodes.subrange(1, nodes.len() as int));
                if name@ == configuration_tag() {
                    match rest {
                        Ok(tailcfg) => match name_attr {
                            Some(v) => Ok(seq![v@] + tailcfg),
                            None => Ok(tailcfg),
                        },
                        Err(e) => Err(e),
                    }
                } else {
                    rest
                }
            },
            _ => configurations_outcome(nodes.subrange(1, nodes.len() as int)),
        }
    }
}

/// Scans a recorded event list for the configuration names, exactly as
/// the live scan does.
pub fn configurations_from_nodes(nodes: &Vec<XmlNode>) -> (r: Result<Vec<String>, String>)
    ensures
        r matches Ok(cs) ==> configurations_outcome(nodes@) == Ok::<Seq<Seq<char>>, Seq<char>>(
            cs.deep_view(),
        ),
        r matches Err(m) ==> configurations_outcome(nodes@) == Err::<Seq<Seq<char>>, Seq<char>>(
            m@,
        ),
{
    let n = nodes.len();
    let mut out: Vec<String> = Vec::new();
    let mut i: usize = 0;
    proof {
        assert(nodes@.subrange(0, n as int) =~= nodes@);
        assert(out.deep_view() =~= Seq::<Seq<char>>::empty());
    }
    while i < n
        invariant
            0 <= i <= n,
            n == nodes@.len(),
            match configurations_outcome(nodes@.subrange(i as int, n as int)) {
                Ok(rest) => configurations_outcome(nodes@) == Ok::<Seq<Seq<char>>, Seq<char>>(
                    out.deep_view() + rest,
                ),
                Err(e) => configurations_outcome(nodes@) == Err::<Seq<Seq<char>>, Seq<char>>(e),
            },
        decreases n - i,
    {
        let ghost tail = nodes@.subrange(i as int, n as int);
        proof {
            assert(tail[0] == nodes@[i as int]);
            assert(tail.subrange(1, tail.len() as int) =~= nodes@.subrange(i as int + 1, n as int));
        }
        match &nodes[i] {
            XmlNode::Malformed(m) => {
                let mut msg = String::new();
                msg.append("Error parsing .cproject: ");
                msg.append(m.as_str());
                proof {
                    assert(msg@ =~= "Error parsing .cproject: "@ + m@);
                }
                return Err(msg);
            },
            XmlNode::Eof => {
                proof {
                    assert(out.deep_view() + Seq::<Seq<char>>::empty() =~= out.deep_view());
                }
                return Ok(out);
            },
            XmlNode::Start { name, name_attr } => {
                if is_configuration_tag(name) {
                    match name_attr {
                        Some(v) => {
                            let ghost prev = out.deep_view();
                            let ghost prevv = out@;
                            let item = v.clone();
                            proof {
                                assert(prev.len() == prevv.len());
                            }
                            out.push(item);
                            proof {
                                assert(out@ == prevv.push(item));
                                assert forall|k: int|
                                    0 <= k < out.deep_view().len() implies #[trigger] out.deep_view()[k]
                                    == (prev + seq![v@])[k] by {
                                    if k < prevv.len() {
                                        assert(out@[k] == prevv[k]);
                                        assert(prev[k] == prevv[k].deep_view());
                                    } else {
                                        assert(out@[k] == item);
                                    }
                                }
                                assert(out.deep_view() =~= prev + seq![v@]);
                                assert(forall|rest: Seq<Seq<char>>|
                                    (prev + seq![v@]) + rest =~= prev + (seq![v@] + rest));
                            }
                        },
                        None => {},
                    }
                }
                i = i + 1;
            },
            _ => {
                i = i + 1;
            },
        }
    }
    proof {
        assert(nodes@.subrange(n as int, n as int) =~= Seq::<XmlNode>::empty());
        assert(out.deep_view() + Seq::<Seq<char>>::empty() =~= out.deep_view());
    }
    Ok(out)
}

/// Reads the project name from the descriptor content: the text
/// immediately following the first opening `name` tag of the parsed
/// event stream, exactly as the verified scan decides it.
pub fn get_project_name(content: &str) -> (r: Result<String, String>)
    ensures
        r matches Ok(s) ==> project_name_outcome(events_of(content@, "name"@)) == Ok::<
            Seq<char>,
            Seq<char>,
        >(s@),
        r matches Err(m) ==> project_name_outcome(events_of(content@, "name"@)) == Err::<
            Seq<char>,
            Seq<char>,
        >(m@),
{
    let nodes = collect_events(content, "name");
    project_name_from_nodes(&nodes)
}

/// Reads the build configuration names from the C project descriptor
/// content: the `name` attribute of every opening `configuration`
/// element of the parsed event stream, in document order, exactly as
/// the verified scan decides it.
pub fn get_cproject_configurations(content: &str) -> (r: Result<Vec<String>, String>)
    ensures
        r matches Ok(cs) ==> configurations_outcome(events_of(content@, "name"@)) == Ok::<
            Seq<Seq<char>>,
            Seq<char>,
        >(cs.deep_view()),
        r matches Err(m) ==> configurations_outcome(events_of(content@, "name"@)) == Err::<
            Seq<Seq<char>>,
            Seq<char>,
        >(m@),
{
    let nodes = collect_events(content, "name");
    configurations_from_nodes(&nodes)
}

} // verus!