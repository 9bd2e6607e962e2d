//! A pass over the events of an AIXM 4.5 `<AIXM-Snapshot>` document.
//!
//! Each handled feature's subtree is collapsed into field → text maps,
//! then interpreted. Field capture is scoped, not a blind flatten: the
//! flat reader records only leaves that are direct children of the
//! feature or children of the feature's own `<TagUid>` identity block,
//! because features embed referenced Uid blocks (`<OrgUid><txtName>…`)
//! that come before the feature's own `<txtName>`. The path reader keys
//! every leaf by its element path within the feature (`RwyUid/AhpUid/
//! codeId`) and every attribute by `path@name`.
use crate::aixm::airspace::{
    ase_from_paths, ase_outcome, assemble_airspaces, airspaces_assembled, vertex_views, AbdRaw,
    AixmAirspace, AseRaw,
};
use crate::aixm::airway::{
    airways_assembled, assemble_airways, rsg_outcome, rsg_raw_from_paths, rte_outcome,
    rte_raw_from_paths, RsgRaw, RteRaw,
};
use crate::aixm::convert::{
    airport_fields_outcome, airport_from_fields, navaid_fields_outcome, navaid_from_fields,
    waypoint_fields_outcome, waypoint_from_fields,
};
use crate::aixm::runway::{
    assemble_runways, rdn_outcome, rdn_raw_from_paths, runways_assembled, rwy_outcome,
    rwy_raw_from_paths, RdnRaw, RwyRaw,
};
use crate::domain::{Airport, Airway, AirwayLeg, Navaid, Runway, Waypoint};
use crate::openaip::somes;
use crate::aixm::convert::FieldsView;
use crate::aixm::fields::{fields_view, record, record_field, Fields};
use crate::text::{opt_view, push_all, push_lit, str_eq, string_from, to_chars, trim, trimmed_chars, vec_eq};
use crate::aixm::parser::XmlEvent::{End, Other, Start, Text};
use quick_xml::events::Event;
use quick_xml::name::LocalName;
use quick_xml::Reader;
use vstd::prelude::*;

verus! {

/// One XML event, reduced to what the pass reads: element local names,
/// attributes (local name, raw value), and text (`None` when its
/// entities do not unescape). Empty elements, comments, declarations
/// and the like are `Other`.
#[derive(Debug, Clone)]
pub enum XmlEvent {
    Start { name: String, attrs: Vec<(String, String)> },
    End { name: String },
    Text { text: Option<String> },
    Eof,
    Other,
}

/// Text is recorded directly under the feature, or under the feature's
/// own identity block.
pub open spec fn in_scope(stack: Seq<Seq<char>>, end_tag: Seq<char>) -> bool {
    stack.len() == 1 || (stack.len() == 2 && stack[0] == end_tag + "Uid"@)
}

pub open spec fn names(stack: Seq<String>) -> Seq<Seq<char>> {
    stack.map_values(|s: String| s@)
}

/// The flat reader from event `q` with open elements `stack`: the fields
/// recorded and the position after the feature's end tag (or of the end
/// of the events).
pub open spec fn feature_scan(
    events: Seq<XmlEvent>,
    q: int,
    end_tag: Seq<char>,
    stack: Seq<Seq<char>>,
    fields: FieldsView,
) -> (FieldsView, int)
    decreases events.len() - q,
{
    if q < 0 || q >= events.len() {
        (fields, events.len() as int)
    } else {
        match events[q] {
            XmlEvent::Start { name, attrs } => feature_scan(
                events,
                q + 1,
                end_tag,
                stack.push(name@),
                fields,
            ),
            XmlEvent::Text { text } => {
                let f2 = match text {
                    Some(t) => if in_scope(stack, end_tag) && trim(t@).len() > 0 {
                        record(fields, stack.last(), trim(t@))
                    } else {
                        fields
                    },
                    None => fields,
                };
                feature_scan(events, q + 1, end_tag, stack, f2)
            },
            XmlEvent::End { name } => if stack.len() == 0 && name@ == end_tag {
                (fields, q + 1)
            } else {
                feature_scan(
                    events,
                    q + 1,
                    end_tag,
                    if stack.len() > 0 {
                        stack.drop_last()
                    } else {
                        stack
                    },
                    fields,
                )
            },
            XmlEvent::Eof => (fields, q),
            XmlEvent::Other => feature_scan(events, q + 1, end_tag, stack, fields),
        }
    }
}

pub proof fn lemma_feature_scan_bounds(
    events: Seq<XmlEvent>,
    q: int,
    end_tag: Seq<char>,
    stack: Seq<Seq<char>>,
    fields: FieldsView,
)
    requires
        0 <= q <= events.len(),
    ensures
        q <= feature_scan(events, q, end_tag, stack, fields).1 <= events.len(),
    decreases events.len() - q,
{
    if q < events.len() {
        match events[q] {
            XmlEvent::Start { name, attrs } => lemma_feature_scan_bounds(
                events,
                q + 1,
                end_tag,
                stack.push(name@),
                fields,
            ),
            XmlEvent::Text { text } => {
                let f2 = match text {
                    Some(t) => if in_scope(stack, end_tag) && trim(t@).len() > 0 {
                        record(fields, stack.last(), trim(t@))
                    } else {
                        fields
                    },
                    None => fields,
                };
                lemma_feature_scan_bounds(events, q + 1, end_tag, stack, f2)
            },
            XmlEvent::End { name } => if !(stack.len() == 0 && name@ == end_tag) {
                lemma_feature_scan_bounds(
                    events,
                    q + 1,
                    end_tag,
                    if stack.len() > 0 {
                        stack.drop_last()
                    } else {
                        stack
                    },
                    fields,
                )
            },
            XmlEvent::Eof => {},
            XmlEvent::Other => lemma_feature_scan_bounds(events, q + 1, end_tag, stack, fields),
        }
    }
}

fn push_name(stack: &mut Vec<String>, name: &String)
    ensures
        names(final(stack)@) == names(old(stack)@).push(name@),
{
    let ghost before = names(stack@);
    stack.push(name.clone());
    assert(names(stack@) =~= before.push(name@));
}

fn pop_name(stack: &mut Vec<String>)
    ensures
        names(final(stack)@) == if names(old(stack)@).len() > 0 {
            names(old(stack)@).drop_last()
        } else {
            names(old(stack)@)
        },
{
    let ghost before = names(stack@);
    if stack.len() > 0 {
        stack.pop();
        assert(names(stack@) =~= before.drop_last());
    }
}

fn uid_of(end_tag: &str) -> (r: Vec<char>)
    ensures
        r@ == end_tag@ + "Uid"@,
{
    let mut v = to_chars(end_tag);
    let u = to_chars("Uid");
    push_all(&mut v, &u);
    v
}

/// Reads from event `p` (just after a feature's start tag) up to and
/// including its matching end tag, recording scoped leaf text, first
/// value winning; returns the fields and the position after the feature.
pub fn read_feature(events: &[XmlEvent], p: usize, end_tag: &str) -> (r: (Fields, usize))
    requires
        p <= events@.len(),
    ensures
        (fields_view(r.0@), r.1 as int) == feature_scan(events@, p as int, end_tag@, Seq::empty(), Seq::empty()),
{
    let primary_uid = uid_of(end_tag);
    let tag = to_chars(end_tag);
    let mut fields: Fields = Vec::new();
    let mut stack: Vec<String> = Vec::new();
    let mut q = p;
    let ghost total = feature_scan(events@, p as int, end_tag@, Seq::empty(), Seq::empty());
    proof {
        assert(names(stack@) =~= Seq::<Seq<char>>::empty());
        assert(fields_view(fields@) =~= Seq::<(Seq<char>, Seq<char>)>::empty());
    }
    while q < events.len()
        invariant
            p <= q <= events@.len(),
            primary_uid@ == end_tag@ + "Uid"@,
            tag@ == end_tag@,
            feature_scan(events@, q as int, end_tag@, names(stack@), fields_view(fields@)) == total,
            total == feature_scan(events@, p as int, end_tag@, Seq::empty(), Seq::empty()),
        decreases events.len() - q,
    {
        match &events[q] {
            XmlEvent::Start { name, attrs } => {
                push_name(&mut stack, name);
            },
            XmlEvent::Text { text } => {
                match text {
                    Some(t) => {
                        let tt = trimmed_chars(t.as_str());
                        let n = stack.len();
                        let scoped = n == 1 || (n == 2 && vec_eq(
                            &to_chars(stack[0].as_str()),
                            &primary_uid,
                        ));
                        proof {
                            if n == 2 {
                                assert(names(stack@)[0] == stack@[0]@);
                            }
                        }
                        if scoped && tt.len() > 0 {
                            let key = stack[n - 1].clone();
                            assert(names(stack@).last() == key@);
                            record_field(&mut fields, key, string_from(&tt));
                        }
                    },
                    None => {},
                }
            },
            XmlEvent::End { name } => {
                if stack.len() == 0 && vec_eq(&to_chars(name.as_str()), &tag) {
                    proof {
                        assert(names(stack@).len() == 0);
                        assert(feature_scan(events@, q as int, end_tag@, names(stack@), fields_view(fields@))
                            == (fields_view(fields@), q + 1));
                    }
                    return (fields, q + 1);
                }
                pop_name(&mut stack);
            },
            XmlEvent::Eof => {
                proof {
                    assert(feature_scan(events@, q as int, end_tag@, names(stack@), fields_view(fields@))
                        == (fields_view(fields@), q as int));
                }
                return (fields, q);
            },
            XmlEvent::Other => {},
        }
        q = q + 1;
    }
    (fields, q)
}


/// The open elements joined by `/`.
pub open spec fn join_path(stack: Seq<Seq<char>>) -> Seq<char>
    decreases stack.len(),
{
    if stack.len() == 0 {
        Seq::empty()
    } else if stack.len() == 1 {
        stack[0]
    } else {
        join_path(stack.drop_last()) + seq!['/'] + stack.last()
    }
}

pub open spec fn attr_views(attrs: Seq<(String, String)>) -> Seq<(Seq<char>, Seq<char>)> {
    attrs.map_values(|a: (String, String)| (a.0@, a.1@))
}

/// Each attribute with a non-blank value recorded under `path@name`, in
/// document order.
pub open spec fn record_attrs(
    fields: FieldsView,
    path: Seq<char>,
    attrs: Seq<(Seq<char>, Seq<char>)>,
) -> FieldsView
    decreases attrs.len(),
{
    if attrs.len() == 0 {
        fields
    } else {
        let v = trim(attrs[0].1);
        let f2 = if v.len() > 0 {
            record(fields, path + seq!['@'] + attrs[0].0, v)
        } else {
            fields
        };
        record_attrs(f2, path, attrs.drop_first())
    }
}

/// The path reader from event `q`: like [`feature_scan`], but every leaf
/// at any depth is keyed by its element path, and attributes by
/// `path@name`.
pub open spec fn path_scan(
    events: Seq<XmlEvent>,
    q: int,
    end_tag: Seq<char>,
    stack: Seq<Seq<char>>,
    fields: FieldsView,
) -> (FieldsView, int)
    decreases events.len() - q,
{
    if q < 0 || q >= events.len() {
        (fields, events.len() as int)
    } else {
        match events[q] {
            XmlEvent::Start { name, attrs } => {
                let s2 = stack.push(name@);
                path_scan(events, q + 1, end_tag, s2, record_attrs(fields, join_path(s2), attr_views(attrs@)))
            },
            XmlEvent::Text { text } => {
                let f2 = match text {
                    Some(t) => if stack.len() > 0 && trim(t@).len() > 0 {
                        record(fields, join_path(stack), trim(t@))
                    } else {
                        fields
                    },
                    None => fields,
                };
                path_scan(events, q + 1, end_tag, stack, f2)
            },
            XmlEvent::End { name } => if stack.len() == 0 && name@ == end_tag {
                (fields, q + 1)
            } else {
                path_scan(
                    events,
                    q + 1,
                    end_tag,
                    if stack.len() > 0 {
                        stack.drop_last()
                    } else {
                        stack
                    },
                    fields,
                )
            },
            XmlEvent::Eof => (fields, q),
            XmlEvent::Other => path_scan(events, q + 1, end_tag, stack, fields),
        }
    }
}

pub proof fn lemma_path_scan_bounds(
    events: Seq<XmlEvent>,
    q: int,
    end_tag: Seq<char>,
    stack: Seq<Seq<char>>,
    fields: FieldsView,
)
    requires
        0 <= q <= events.len(),
    ensures
        q <= path_scan(events, q, end_tag, stack, fields).1 <= events.len(),
    decreases events.len() - q,
{
    if q < events.len() {
        match events[q] {
            XmlEvent::Start { name, attrs } => {
                let s2 = stack.push(name@);
                lemma_path_scan_bounds(
                    events,
                    q + 1,
                    end_tag,
                    s2,
                    record_attrs(fields, join_path(s2), attr_views(attrs@)),
                )
            },
            XmlEvent::Text { text } => {
                let f2 = match text {
                    Some(t) => if stack.len() > 0 && trim(t@).len() > 0 {
                        record(fields, join_path(stack), trim(t@))
                    } else {
                        fields
                    },
                    None => fields,
                };
                lemma_path_scan_bounds(events, q + 1, end_tag, stack, f2)
            },
            XmlEvent::End { name } => if !(stack.len() == 0 && name@ == end_tag) {
                lemma_path_scan_bounds(
                    events,
                    q + 1,
                    end_tag,
                    if stack.len() > 0 {
                        stack.drop_last()
                    } else {
                        stack
                    },
                    fields,
                )
            },
            XmlEvent::Eof => {},
            XmlEvent::Other => lemma_path_scan_bounds(events, q + 1, end_tag, stack, fields),
        }
    }
}

fn join_names(stack: &Vec<String>) -> (r: Vec<char>)
    ensures
        r@ == join_path(names(stack@)),
{
    let ghost ns = names(stack@);
    let mut r: Vec<char> = Vec::new();
    let mut i: usize = 0;
    assert(ns.take(0) =~= Seq::<Seq<char>>::empty());
    while i < stack.len()
        invariant
            0 <= i <= stack@.len(),
            ns == names(stack@),
            r@ == join_path(ns.take(i as int)),
        decreases stack.len() - i,
    {
        assert(ns.take(i + 1).drop_last() =~= ns.take(i as int));
        assert(ns.take(i + 1).last() == stack@[i as int]@);
        if i > 0 {
            r.push('/');
        }
        let w = to_chars(stack[i].as_str());
        push_all(&mut r, &w);
        proof {
            if i == 0 {
                assert(r@ =~= join_path(ns.take(1)));
            } else {
                assert(r@ =~= join_path(ns.take(i + 1)));
            }
        }
        i = i + 1;
    }
    assert(ns.take(stack@.len() as int) =~= ns);
    r
}

fn record_attributes(fields: &mut Fields, path: &Vec<char>, attrs: &Vec<(String, String)>)
    ensures
        fields_view(final(fields)@) == record_attrs(fields_view(old(fields)@), path@, attr_views(attrs@)),
{
    let ghost av = attr_views(attrs@);
    let ghost target = record_attrs(fields_view(fields@), path@, av);
    let mut i: usize = 0;
    assert(av.skip(0) =~= av);
    while i < attrs.len()
        invariant
            0 <= i <= attrs@.len(),
            av == attr_views(attrs@),
            target == record_attrs(fields_view(fields@), path@, av.skip(i as int)),
        decreases attrs.len() - i,
    {
        assert(av.skip(i as int).drop_first() =~= av.skip(i + 1));
        assert(av.skip(i as int)[0] == (attrs@[i as int].0@, attrs@[i as int].1@));
        let v = trimmed_chars(attrs[i].1.as_str());
        if v.len() > 0 {
            let mut key = path.clone();
            key.push('@');
            let nm = to_chars(attrs[i].0.as_str());
            push_all(&mut key, &nm);
            assert(key@ =~= path@ + seq!['@'] + attrs@[i as int].0@);
            record_field(fields, string_from(&key), string_from(&v));
        }
        i = i + 1;
    }
    assert(av.skip(attrs@.len() as int) =~= Seq::<(Seq<char>, Seq<char>)>::empty());
}

/// Reads from event `p` (just after a feature's start tag) up to and
/// including its matching end tag, keying every leaf by its element path
/// within the feature and every attribute by `path@name`, first value
/// winning; returns the fields and the position after the feature.
pub fn read_feature_paths(events: &[XmlEvent], p: usize, end_tag: &str) -> (r: (Fields, usize))
    requires
        p <= events@.len(),
    ensures
        (fields_view(r.0@), r.1 as int) == path_scan(events@, p as int, end_tag@, Seq::empty(), Seq::empty()),
{
    let tag = to_chars(end_tag);
    let mut fields: Fields = Vec::new();
    let mut stack: Vec<String> = Vec::new();
    let mut q = p;
    let ghost total = path_scan(events@, p as int, end_tag@, Seq::empty(), Seq::empty());
    proof {
        assert(names(stack@) =~= Seq::<Seq<char>>::empty());
        assert(fields_view(fields@) =~= Seq::<(Seq<char>, Seq<char>)>::empty());
    }
    while q < events.len()
        invariant
            p <= q <= events@.len(),
            tag@ == end_tag@,
            path_scan(events@, q as int, end_tag@, names(stack@), fields_view(fields@)) == total,
            total == path_scan(events@, p as int, end_tag@, Seq::empty(), Seq::empty()),
        decreases events.len() - q,
    {
        match &events[q] {
            XmlEvent::Start { name, attrs } => {
                push_name(&mut stack, name);
                let path = join_names(&stack);
                record_attributes(&mut fields, &path, attrs);
            },
            XmlEvent::Text { text } => {
                match text {
                    Some(t) => {
                        let tt = trimmed_chars(t.as_str());
                        if stack.len() > 0 && tt.len() > 0 {
                            let path = join_names(&stack);
                            record_field(&mut fields, string_from(&path), string_from(&tt));
                        }
                    },
                    None => {},
                }
            },
            XmlEvent::End { name } => {
                if stack.len() == 0 && vec_eq(&to_chars(name.as_str()), &tag) {
                    proof {
                        assert(names(stack@).len() == 0);
                        assert(path_scan(events@, q as int, end_tag@, names(stack@), fields_view(fields@))
                            == (fields_view(fields@), q + 1));
                    }
                    return (fields, q + 1);
                }
                pop_name(&mut stack);
            },
            XmlEvent::Eof => {
                proof {
                    assert(path_scan(events@, q as int, end_tag@, names(stack@), fields_view(fields@))
                        == (fields_view(fields@), q as int));
                }
                return (fields, q);
            },
            XmlEvent::Other => {},
        }
        q = q + 1;
    }
    (fields, q)
}


/// The value of the first attribute named `name`.
pub open spec fn attr_value(attrs: Seq<(Seq<char>, Seq<char>)>, name: Seq<char>) -> Option<Seq<char>>
    decreases attrs.len(),
{
    if attrs.len() == 0 {
        None
    } else if attrs[0].0 == name {
        Some(attrs[0].1)
    } else {
        attr_value(attrs.drop_first(), name)
    }
}

fn find_attr(attrs: &Vec<(String, String)>, name: &str) -> (r: Option<usize>)
    ensures
        match r {
            Some(i) => i < attrs@.len() && attr_value(attr_views(attrs@), name@) == Some(
                attrs@[i as int].1@,
            ),
            None => attr_value(attr_views(attrs@), name@) is None,
        },
{
    let ghost av = attr_views(attrs@);
    let mut i: usize = 0;
    assert(av.skip(0) =~= av);
    while i < attrs.len()
        invariant
            0 <= i <= attrs@.len(),
            av == attr_views(attrs@),
            attr_value(av, name@) == attr_value(av.skip(i as int), name@),
        decreases attrs.len() - i,
    {
        assert(av.skip(i as int).drop_first() =~= av.skip(i + 1));
        assert(av.skip(i as int)[0] == (attrs@[i as int].0@, attrs@[i as int].1@));
        if str_eq(attrs[i].0.as_str(), name) {
            return Some(i);
        }
        i = i + 1;
    }
    assert(av.skip(attrs@.len() as int) =~= Seq::<(Seq<char>, Seq<char>)>::empty());
    None
}

/// A border as read: the linked airspace's `mid` (when an `AseUid`
/// carried one), its vertices, and its circle.
pub type BorderScan = (Option<Seq<char>>, Seq<FieldsView>, Option<FieldsView>);

/// The border reader from event `q`, `depth` elements deep below the
/// `Abd`: each `<Avx>` is read as a vertex and a `<Circle>` as the circle
/// (a later one replacing an earlier), the first `AseUid` with a `mid`
/// names the airspace; returns what was read and the position after the
/// `Abd`'s end tag (or of the end of the events).
pub open spec fn abd_scan(events: Seq<XmlEvent>, q: int, depth: nat, acc: BorderScan) -> (
    BorderScan,
    int,
)
    decreases events.len() - q,
{
    if q < 0 || q >= events.len() {
        (acc, events.len() as int)
    } else {
        match events[q] {
            XmlEvent::Start { name, attrs } => if name@ == "Avx"@ {
                let (f, q2) = feature_scan(events, q + 1, "Avx"@, Seq::empty(), Seq::empty());
                proof {
                    lemma_feature_scan_bounds(events, q + 1, "Avx"@, Seq::empty(), Seq::empty());
                }
                abd_scan(events, q2, depth, (acc.0, acc.1.push(f), acc.2))
            } else if name@ == "Circle"@ {
                let (f, q2) = feature_scan(events, q + 1, "Circle"@, Seq::empty(), Seq::empty());
                proof {
                    lemma_feature_scan_bounds(events, q + 1, "Circle"@, Seq::empty(), Seq::empty());
                }
                abd_scan(events, q2, depth, (acc.0, acc.1, Some(f)))
            } else {
                let id = if name@ == "AseUid"@ && acc.0 is None {
                    match attr_value(attr_views(attrs@), "mid"@) {
                        Some(v) => Some(trim(v)),
                        None => None,
                    }
                } else {
                    acc.0
                };
                abd_scan(events, q + 1, depth + 1, (id, acc.1, acc.2))
            },
            XmlEvent::End { name } => if depth == 0 && name@ == "Abd"@ {
                (acc, q + 1)
            } else {
                abd_scan(
                    events,
                    q + 1,
                    if depth > 0 {
                        (depth - 1) as nat
                    } else {
                        0
                    },
                    acc,
                )
            },
            XmlEvent::Eof => (acc, q),
            _ => abd_scan(events, q + 1, depth, acc),
        }
    }
}

pub proof fn lemma_abd_scan_bounds(events: Seq<XmlEvent>, q: int, depth: nat, acc: BorderScan)
    requires
        0 <= q <= events.len(),
    ensures
        q <= abd_scan(events, q, depth, acc).1 <= events.len(),
    decreases events.len() - q,
{
    if q < events.len() {
        match events[q] {
            XmlEvent::Start { name, attrs } => if name@ == "Avx"@ {
                let (f, q2) = feature_scan(events, q + 1, "Avx"@, Seq::empty(), Seq::empty());
                lemma_feature_scan_bounds(events, q + 1, "Avx"@, Seq::empty(), Seq::empty());
                lemma_abd_scan_bounds(events, q2, depth, (acc.0, acc.1.push(f), acc.2));
            } else if name@ == "Circle"@ {
                let (f, q2) = feature_scan(events, q + 1, "Circle"@, Seq::empty(), Seq::empty());
                lemma_feature_scan_bounds(events, q + 1, "Circle"@, Seq::empty(), Seq::empty());
                lemma_abd_scan_bounds(events, q2, depth, (acc.0, acc.1, Some(f)));
            } else {
                let id = if name@ == "AseUid"@ && acc.0 is None {
                    match attr_value(attr_views(attrs@), "mid"@) {
                        Some(v) => Some(trim(v)),
                        None => None,
                    }
                } else {
                    acc.0
                };
                lemma_abd_scan_bounds(events, q + 1, depth + 1, (id, acc.1, acc.2));
            },
            XmlEvent::End { name } => if !(depth == 0 && name@ == "Abd"@) {
                lemma_abd_scan_bounds(
                    events,
                    q + 1,
                    if depth > 0 {
                        (depth - 1) as nat
                    } else {
                        0
                    },
                    acc,
                );
            },
            XmlEvent::Eof => {},
            _ => lemma_abd_scan_bounds(events, q + 1, depth, acc),
        }
    }
}

pub open spec fn opt_fields_view(c: Option<Fields>) -> Option<FieldsView> {
    match c {
        Some(f) => Some(fields_view(f@)),
        None => None,
    }
}

/// The border as the library keeps it: a missing airspace link reads as
/// the empty id.
pub open spec fn border_raw_matches(b: AbdRaw, s: BorderScan) -> bool {
    &&& b.airspace_id@ == (match s.0 {
        Some(id) => id,
        None => Seq::empty(),
    })
    &&& vertex_views(b.vertices@) == s.1
    &&& opt_fields_view(b.circle) == s.2
}

/// Reads an `<Abd>` (airspace border) from event `p`, just after its start
/// tag: the linked airspace id (the `mid` of the first `AseUid` that has
/// one) and the border geometry, a list of `<Avx>` vertices or a
/// `<Circle>`, each read as a flat field map; returns the border and the
/// position after the `Abd`.
pub fn read_abd(events: &[XmlEvent], p: usize) -> (r: (AbdRaw, usize))
    requires
        p <= events@.len(),
    ensures
        border_raw_matches(r.0, abd_scan(events@, p as int, 0, (None, Seq::empty(), None)).0),
        r.1 == abd_scan(events@, p as int, 0, (None, Seq::empty(), None)).1,
{
    let ghost total = abd_scan(events@, p as int, 0, (None, Seq::empty(), None));
    let mut airspace_id: Option<String> = None;
    let mut vertices: Vec<Fields> = Vec::new();
    let mut circle: Option<Fields> = None;
    let mut depth: usize = 0;
    let mut q = p;
    proof {
        assert(vertex_views(vertices@) =~= Seq::<FieldsView>::empty());
    }
    while q < events.len()
        invariant
            p <= q <= events@.len(),
            depth <= q,
            total == abd_scan(events@, p as int, 0, (None, Seq::empty(), None)),
            total == abd_scan(
                events@,
                q as int,
                depth as nat,
                (opt_view(airspace_id), vertex_views(vertices@), opt_fields_view(circle)),
            ),
        decreases events.len() - q,
    {
        let ghost acc = (opt_view(airspace_id), vertex_views(vertices@), opt_fields_view(circle));
        match &events[q] {
            XmlEvent::Start { name, attrs } => {
                if str_eq(name.as_str(), "Avx") {
                    let (f, q2) = read_feature(events, q + 1, "Avx");
                    proof {
                        lemma_feature_scan_bounds(events@, q + 1, "Avx"@, Seq::empty(), Seq::empty());
                    }
                    let ghost before = vertex_views(vertices@);
                    vertices.push(f);
                    assert(vertex_views(vertices@) =~= before.push(fields_view(f@)));
                    q = q2;
                    continue;
                } else if str_eq(name.as_str(), "Circle") {
                    let (f, q2) = read_feature(events, q + 1, "Circle");
                    proof {
                        lemma_feature_scan_bounds(events@, q + 1, "Circle"@, Seq::empty(), Seq::empty());
                    }
                    circle = Some(f);
                    q = q2;
                    continue;
                } else {
                    if str_eq(name.as_str(), "AseUid") && airspace_id.is_none() {
                        airspace_id = match find_attr(attrs, "mid") {
                            Some(i) => Some(string_from(&trimmed_chars(attrs[i].1.as_str()))),
                            None => None,
                        };
                    }
                    depth = depth + 1;
                }
            },
            XmlEvent::End { name } => {
                if depth == 0 && str_eq(name.as_str(), "Abd") {
                    let r = AbdRaw {
                        airspace_id: match airspace_id {
                            Some(id) => id,
                            None => String::new(),
                        },
                        vertices,
                        circle,
                    };
                    return (r, q + 1);
                }
                if depth > 0 {
                    depth = depth - 1;
                }
            },
            XmlEvent::Eof => {
                let r = AbdRaw {
                    airspace_id: match airspace_id {
                        Some(id) => id,
                        None => String::new(),
                    },
                    vertices,
                    circle,
                };
                return (r, q);
            },
            _ => {},
        }
        q = q + 1;
    }
    let r = AbdRaw {
        airspace_id: match airspace_id {
            Some(id) => id,
            None => String::new(),
        },
        vertices,
        circle,
    };
    (r, q)
}


/// The part of `s` before its first `c` (all of it without one).
pub open spec fn before_char(s: Seq<char>, c: char) -> Seq<char>
    decreases s.len(),
{
    if s.len() == 0 || s[0] == c {
        Seq::empty()
    } else {
        seq![s[0]] + before_char(s.drop_first(), c)
    }
}

/// The root's AIRAC date: the date part of its `effective` attribute,
/// when that is not blank.
pub open spec fn effective_of(attrs: Seq<(Seq<char>, Seq<char>)>) -> Option<Seq<char>> {
    match attr_value(attrs, "effective"@) {
        Some(v) => if trim(before_char(v, 'T')).len() > 0 {
            Some(trim(before_char(v, 'T')))
        } else {
            None
        },
        None => None,
    }
}

/// The navaid feature tags.
pub open spec fn is_navaid_tag(t: Seq<char>) -> bool {
    t == "Vor"@ || t == "Ndb"@ || t == "Dme"@ || t == "Tcn"@
}

/// What a pass over a snapshot reads, feature kind by feature kind, in
/// document order.
pub struct ScanView {
    pub effective: Option<Seq<char>>,
    pub airports: Seq<FieldsView>,
    pub navaids: Seq<(Seq<char>, FieldsView)>,
    pub waypoints: Seq<FieldsView>,
    pub runways: Seq<FieldsView>,
    pub runway_directions: Seq<FieldsView>,
    pub routes: Seq<FieldsView>,
    pub route_segments: Seq<FieldsView>,
    pub airspaces: Seq<FieldsView>,
    pub borders: Seq<BorderScan>,
}

pub open spec fn empty_scan() -> ScanView {
    ScanView {
        effective: None,
        airports: Seq::empty(),
        navaids: Seq::empty(),
        waypoints: Seq::empty(),
        runways: Seq::empty(),
        runway_directions: Seq::empty(),
        routes: Seq::empty(),
        route_segments: Seq::empty(),
        airspaces: Seq::empty(),
        borders: Seq::empty(),
    }
}

/// The features a pass over `events` from `q` reads, added to `acc`. The
/// root's start tag sets the AIRAC date; a handled feature's start tag
/// reads the feature through its end tag; any other event is stepped
/// over, so features nested in unhandled elements are still found.
pub open spec fn snapshot_scan(events: Seq<XmlEvent>, q: int, acc: ScanView) -> ScanView
    decreases events.len() - q,
{
    if q < 0 || q >= events.len() {
        acc
    } else {
        match events[q] {
            XmlEvent::Start { name, attrs } => {
                let t = name@;
                if t == "AIXM-Snapshot"@ {
                    snapshot_scan(
                        events,
                        q + 1,
                        ScanView { effective: effective_of(attr_views(attrs@)), ..acc },
                    )
                } else if t == "Ahp"@ || is_navaid_tag(t) || t == "Dpn"@ {
                    let (f, q2) = feature_scan(events, q + 1, t, Seq::empty(), Seq::empty());
                    proof {
                        lemma_feature_scan_bounds(events, q + 1, t, Seq::empty(), Seq::empty());
                    }
                    let acc2 = if t == "Ahp"@ {
                        ScanView { airports: acc.airports.push(f), ..acc }
                    } else if t == "Dpn"@ {
                        ScanView { waypoints: acc.waypoints.push(f), ..acc }
                    } else {
                        ScanView { navaids: acc.navaids.push((t, f)), ..acc }
                    };
                    snapshot_scan(events, q2, acc2)
                } else if t == "Rwy"@ || t == "Rdn"@ || t == "Rte"@ || t == "Rsg"@ || t == "Ase"@ {
                    let (f, q2) = path_scan(events, q + 1, t, Seq::empty(), Seq::empty());
                    proof {
                        lemma_path_scan_bounds(events, q + 1, t, Seq::empty(), Seq::empty());
                    }
                    let acc2 = if t == "Rwy"@ {
                        ScanView { runways: acc.runways.push(f), ..acc }
                    } else if t == "Rdn"@ {
                        ScanView { runway_directions: acc.runway_directions.push(f), ..acc }
                    } else if t == "Rte"@ {
                        ScanView { routes: acc.routes.push(f), ..acc }
                    } else if t == "Rsg"@ {
                        ScanView { route_segments: acc.route_segments.push(f), ..acc }
                    } else {
                        ScanView { airspaces: acc.airspaces.push(f), ..acc }
                    };
                    snapshot_scan(events, q2, acc2)
                } else if t == "Abd"@ {
                    let (b, q2) = abd_scan(events, q + 1, 0, (None, Seq::empty(), None));
                    proof {
                        lemma_abd_scan_bounds(events, q + 1, 0, (None, Seq::empty(), None));
                    }
                    snapshot_scan(events, q2, ScanView { borders: acc.borders.push(b), ..acc })
                } else {
                    snapshot_scan(events, q + 1, acc)
                }
            },
            XmlEvent::Eof => acc,
            _ => snapshot_scan(events, q + 1, acc),
        }
    }
}

/// The features of a snapshot as read, before conversion.
pub struct SnapshotFeatures {
    pub effective: Option<String>,
    pub airports: Vec<Fields>,
    pub navaids: Vec<(String, Fields)>,
    pub waypoints: Vec<Fields>,
    pub runways: Vec<Fields>,
    pub runway_directions: Vec<Fields>,
    pub routes: Vec<Fields>,
    pub route_segments: Vec<Fields>,
    pub airspaces: Vec<Fields>,
    pub borders: Vec<AbdRaw>,
}

pub open spec fn tagged_views(s: Seq<(String, Fields)>) -> Seq<(Seq<char>, FieldsView)> {
    s.map_values(|p: (String, Fields)| (p.0@, fields_view(p.1@)))
}

/// The features hold what the scan read.
pub open spec fn features_match(f: SnapshotFeatures, v: ScanView) -> bool {
    &&& opt_view(f.effective) == v.effective
    &&& vertex_views(f.airports@) == v.airports
    &&& tagged_views(f.navaids@) == v.navaids
    &&& vertex_views(f.waypoints@) == v.waypoints
    &&& vertex_views(f.runways@) == v.runways
    &&& vertex_views(f.runway_directions@) == v.runway_directions
    &&& vertex_views(f.routes@) == v.routes
    &&& vertex_views(f.route_segments@) == v.route_segments
    &&& vertex_views(f.airspaces@) == v.airspaces
    &&& f.borders@.len() == v.borders.len()
    &&& forall|i: int| 0 <= i < v.borders.len() ==> border_raw_matches(#[trigger] f.borders@[i], v.borders[i])
}

fn push_fields(list: &mut Vec<Fields>, f: Fields)
    ensures
        vertex_views(final(list)@) == vertex_views(old(list)@).push(fields_view(f@)),
{
    let ghost before = vertex_views(list@);
    list.push(f);
    assert(vertex_views(list@) =~= before.push(fields_view(f@)));
}

fn effective_date(attrs: &Vec<(String, String)>) -> (r: Option<String>)
    ensures
        opt_view(r) == effective_of(attr_views(attrs@)),
{
    match find_attr(attrs, "effective") {
        Some(i) => {
            let v = to_chars(attrs[i].1.as_str());
            let mut head: Vec<char> = Vec::new();
            let mut k: usize = 0;
            assert(v@.skip(0) =~= v@);
            assert(v@.take(0) + before_char(v@, 'T') =~= before_char(v@, 'T'));
            while k < v.len() && v[k] != 'T'
                invariant
                    0 <= k <= v@.len(),
                    head@ == v@.take(k as int),
                    forall|j: int| 0 <= j < k ==> v@[j] != 'T',
                    before_char(v@, 'T') == v@.take(k as int) + before_char(v@.skip(k as int), 'T'),
                decreases v.len() - k,
            {
                assert(v@.skip(k as int).drop_first() =~= v@.skip(k + 1));
                assert(v@.take(k + 1) =~= v@.take(k as int) + seq![v@[k as int]]);
                head.push(v[k]);
                k = k + 1;
            }
            proof {
                if k < v@.len() {
                    assert(v@.skip(k as int)[0] == 'T');
                } else {
                    assert(v@.skip(k as int) =~= Seq::<char>::empty());
                }
                assert(before_char(v@, 'T') =~= head@);
            }
            let t = string_from(&head);
            let tt = trimmed_chars(t.as_str());
            if tt.len() > 0 {
                Some(string_from(&tt))
            } else {
                None
            }
        },
        None => None,
    }
}


/// Reads the handled features of a snapshot from its events, in document
/// order: `Ahp`, `Vor`/`Ndb`/`Dme`/`Tcn` and `Dpn` as flat field maps,
/// `Rwy`, `Rdn`, `Rte`, `Rsg` and `Ase` as path-keyed maps, `Abd` as
/// borders, and the root's AIRAC date (the last root's, should there be
/// several).
pub fn scan_snapshot(events: &[XmlEvent]) -> (r: SnapshotFeatures)
    ensures
        features_match(r, snapshot_scan(events@, 0, empty_scan())),
{
    let ghost total = snapshot_scan(events@, 0, empty_scan());
    let mut feat = SnapshotFeatures {
        effective: None,
        airports: Vec::new(),
        navaids: Vec::new(),
        waypoints: Vec::new(),
        runways: Vec::new(),
        runway_directions: Vec::new(),
        routes: Vec::new(),
        route_segments: Vec::new(),
        airspaces: Vec::new(),
        borders: Vec::new(),
    };
    let ghost mut cur = empty_scan();
    proof {
        assert(vertex_views(feat.airports@) =~= Seq::<FieldsView>::empty());
        assert(tagged_views(feat.navaids@) =~= Seq::<(Seq<char>, FieldsView)>::empty());
        assert(vertex_views(feat.waypoints@) =~= Seq::<FieldsView>::empty());
        assert(vertex_views(feat.runways@) =~= Seq::<FieldsView>::empty());
        assert(vertex_views(feat.runway_directions@) =~= Seq::<FieldsView>::empty());
        assert(vertex_views(feat.routes@) =~= Seq::<FieldsView>::empty());
        assert(vertex_views(feat.route_segments@) =~= Seq::<FieldsView>::empty());
        assert(vertex_views(feat.airspaces@) =~= Seq::<FieldsView>::empty());
    }
    let mut q: usize = 0;
    while q < events.len()
        invariant
            0 <= q <= events@.len(),
            total == snapshot_scan(events@, 0, empty_scan()),
            total == snapshot_scan(events@, q as int, cur),
            features_match(feat, cur),
        decreases events.len() - q,
    {
        match &events[q] {
            XmlEvent::Start { name, attrs } => {
                let t = name.as_str();
                if str_eq(t, "AIXM-Snapshot") {
                    feat.effective = effective_date(attrs);
                    proof {
                        cur = ScanView { effective: effective_of(attr_views(attrs@)), ..cur };
                    }
                } else if str_eq(t, "Ahp") || str_eq(t, "Vor") || str_eq(t, "Ndb") || str_eq(t, "Dme")
                    || str_eq(t, "Tcn") || str_eq(t, "Dpn") {
                    let (f, q2) = read_feature(events, q + 1, t);
                    proof {
                        lemma_feature_scan_bounds(events@, q + 1, t@, Seq::empty(), Seq::empty());
                    }
                    let ghost fv = fields_view(f@);
                    if str_eq(t, "Ahp") {
                        push_fields(&mut feat.airports, f);
                        proof {
                            cur = ScanView { airports: cur.airports.push(fv), ..cur };
                        }
                    } else if str_eq(t, "Dpn") {
                        push_fields(&mut feat.waypoints, f);
                        proof {
                            cur = ScanView { waypoints: cur.waypoints.push(fv), ..cur };
                        }
                    } else {
                        let ghost before = tagged_views(feat.navaids@);
                        feat.navaids.push((name.clone(), f));
                        proof {
                            assert(tagged_views(feat.navaids@) =~= before.push((t@, fv)));
                            cur = ScanView { navaids: cur.navaids.push((t@, fv)), ..cur };
                        }
                    }
                    q = q2;
                    continue;
                } else if str_eq(t, "Rwy") || str_eq(t, "Rdn") || str_eq(t, "Rte") || str_eq(t, "Rsg")
                    || str_eq(t, "Ase") {
                    let (f, q2) = read_feature_paths(events, q + 1, t);
                    proof {
                        lemma_path_scan_bounds(events@, q + 1, t@, Seq::empty(), Seq::empty());
                    }
                    let ghost fv = fields_view(f@);
                    if str_eq(t, "Rwy") {
                        push_fields(&mut feat.runways, f);
                        proof {
                            cur = ScanView { runways: cur.runways.push(fv), ..cur };
                        }
                    } else if str_eq(t, "Rdn") {
                        push_fields(&mut feat.runway_directions, f);
                        proof {
                            cur = ScanView { runway_directions: cur.runway_directions.push(fv), ..cur };
                        }
                    } else if str_eq(t, "Rte") {
                        push_fields(&mut feat.routes, f);
                        proof {
                            cur = ScanView { routes: cur.routes.push(fv), ..cur };
                        }
                    } else if str_eq(t, "Rsg") {
                        push_fields(&mut feat.route_segments, f);
                        proof {
                            cur = ScanView { route_segments: cur.route_segments.push(fv), ..cur };
                        }
                    } else {
                        push_fields(&mut feat.airspaces, f);
                        proof {
                            cur = ScanView { airspaces: cur.airspaces.push(fv), ..cur };
                        }
                    }
                    q = q2;
                    continue;
                } else if str_eq(t, "Abd") {
                    let (b, q2) = read_abd(events, q + 1);
                    proof {
                        lemma_abd_scan_bounds(events@, q + 1, 0, (None, Seq::empty(), None));
                    }
                    let ghost bs = abd_scan(events@, q + 1, 0, (None, Seq::empty(), None)).0;
                    let ghost before = feat.borders@;
                    feat.borders.push(b);
                    proof {
                        cur = ScanView { borders: cur.borders.push(bs), ..cur };
                        assert forall|i: int| 0 <= i < cur.borders.len() implies border_raw_matches(
                            #[trigger] feat.borders@[i],
                            cur.borders[i],
                        ) by {
                            if i < before.len() {
                                assert(feat.borders@[i] == before[i]);
                            }
                        }
                    }
                    q = q2;
                    continue;
                }
            },
            XmlEvent::Eof => {
                return feat;
            },
            _ => {},
        }
        q = q + 1;
    }
    feat
}


pub open spec fn airport_results(fs: Seq<FieldsView>, res: Seq<Option<Airport>>) -> bool {
    &&& res.len() == fs.len()
    &&& forall|i: int| 0 <= i < fs.len() ==> airport_fields_outcome(fs[i], #[trigger] res[i])
}

/// Airports from `Ahp` field maps.
pub open spec fn airports_read(fs: Seq<FieldsView>, out: Seq<Airport>) -> bool {
    exists|res: Seq<Option<Airport>>| #[trigger] airport_results(fs, res) && out == somes(res)
}

fn read_airports(list: &Vec<Fields>) -> (r: Vec<Airport>)
    ensures
        airports_read(vertex_views(list@), r@),
{
    let ghost fs = vertex_views(list@);
    let mut out: Vec<Airport> = Vec::new();
    let ghost mut res: Seq<Option<Airport>> = Seq::empty();
    let mut k: usize = 0;
    while k < list.len()
        invariant
            0 <= k <= list@.len(),
            fs == vertex_views(list@),
            res.len() == k,
            forall|i: int| 0 <= i < k ==> airport_fields_outcome(fs[i], #[trigger] res[i]),
            out@ == somes(res),
        decreases list.len() - k,
    {
        let c = airport_from_fields(&list[k]);
        let ghost before = res;
        proof {
            res = res.push(c);
            assert(res.drop_last() =~= before);
        }
        match c {
            Some(a) => out.push(a),
            None => {},
        }
        k = k + 1;
    }
    assert(airport_results(fs, res));
    out
}

pub open spec fn waypoint_results(fs: Seq<FieldsView>, region: Seq<char>, res: Seq<Option<Waypoint>>) -> bool {
    &&& res.len() == fs.len()
    &&& forall|i: int| 0 <= i < fs.len() ==> waypoint_fields_outcome(fs[i], region, #[trigger] res[i])
}

/// Waypoints from `Dpn` field maps.
pub open spec fn waypoints_read(fs: Seq<FieldsView>, region: Seq<char>, out: Seq<Waypoint>) -> bool {
    exists|res: Seq<Option<Waypoint>>| #[trigger] waypoint_results(fs, region, res) && out == somes(res)
}

fn read_waypoints(list: &Vec<Fields>, region: &str) -> (r: Vec<Waypoint>)
    ensures
        waypoints_read(vertex_views(list@), region@, r@),
{
    let ghost fs = vertex_views(list@);
    let mut out: Vec<Waypoint> = Vec::new();
    let ghost mut res: Seq<Option<Waypoint>> = Seq::empty();
    let mut k: usize = 0;
    while k < list.len()
        invariant
            0 <= k <= list@.len(),
            fs == vertex_views(list@),
            res.len() == k,
            forall|i: int| 0 <= i < k ==> waypoint_fields_outcome(fs[i], region@, #[trigger] res[i]),
            out@ == somes(res),
        decreases list.len() - k,
    {
        let c = waypoint_from_fields(&list[k], region);
        let ghost before = res;
        proof {
            res = res.push(c);
            assert(res.drop_last() =~= before);
        }
        match c {
            Some(a) => out.push(a),
            None => {},
        }
        k = k + 1;
    }
    assert(waypoint_results(fs, region@, res));
    out
}

pub open spec fn rwy_results(fs: Seq<FieldsView>, res: Seq<Option<RwyRaw>>) -> bool {
    &&& res.len() == fs.len()
    &&& forall|i: int| 0 <= i < fs.len() ==> rwy_outcome(fs[i], #[trigger] res[i])
}

/// Runways as read from `Rwy` path maps.
pub open spec fn rwys_read(fs: Seq<FieldsView>, out: Seq<RwyRaw>) -> bool {
    exists|res: Seq<Option<RwyRaw>>| #[trigger] rwy_results(fs, res) && out == somes(res)
}

fn read_rwys(list: &Vec<Fields>) -> (r: Vec<RwyRaw>)
    ensures
        rwys_read(vertex_views(list@), r@),
{
    let ghost fs = vertex_views(list@);
    let mut out: Vec<RwyRaw> = Vec::new();
    let ghost mut res: Seq<Option<RwyRaw>> = Seq::empty();
    let mut k: usize = 0;
    while k < list.len()
        invariant
            0 <= k <= list@.len(),
            fs == vertex_views(list@),
            res.len() == k,
            forall|i: int| 0 <= i < k ==> rwy_outcome(fs[i], #[trigger] res[i]),
            out@ == somes(res),
        decreases list.len() - k,
    {
        let c = rwy_raw_from_paths(&list[k]);
        let ghost before = res;
        proof {
            res = res.push(c);
            assert(res.drop_last() =~= before);
        }
        match c {
            Some(a) => out.push(a),
            None => {},
        }
        k = k + 1;
    }
    assert(rwy_results(fs, res));
    out
}

pub open spec fn rdn_results(fs: Seq<FieldsView>, res: Seq<Option<RdnRaw>>) -> bool {
    &&& res.len() == fs.len()
    &&& forall|i: int| 0 <= i < fs.len() ==> rdn_outcome(fs[i], #[trigger] res[i])
}

/// Runway directions as read from `Rdn` path maps.
pub open spec fn rdns_read(fs: Seq<FieldsView>, out: Seq<RdnRaw>) -> bool {
    exists|res: Seq<Option<RdnRaw>>| #[trigger] rdn_results(fs, res) && out == somes(res)
}

fn read_rdns(list: &Vec<Fields>) -> (r: Vec<RdnRaw>)
    ensures
        rdns_read(vertex_views(list@), r@),
{
    let ghost fs = vertex_views(list@);
    let mut out: Vec<RdnRaw> = Vec::new();
    let ghost mut res: Seq<Option<RdnRaw>> = Seq::empty();
    let mut k: usize = 0;
    while k < list.len()
        invariant
            0 <= k <= list@.len(),
            fs == vertex_views(list@),
            res.len() == k,
            forall|i: int| 0 <= i < k ==> rdn_outcome(fs[i], #[trigger] res[i]),
            out@ == somes(res),
        decreases list.len() - k,
    {
        let c = rdn_raw_from_paths(&list[k]);
        let ghost before = res;
        proof {
            res = res.push(c);
            assert(res.drop_last() =~= before);
        }
        match c {
            Some(a) => out.push(a),
            None => {},
        }
        k = k + 1;
    }
    assert(rdn_results(fs, res));
    out
}

pub open spec fn rte_results(fs: Seq<FieldsView>, res: Seq<Option<RteRaw>>) -> bool {
    &&& res.len() == fs.len()
    &&& forall|i: int| 0 <= i < fs.len() ==> rte_outcome(fs[i], #[trigger] res[i])
}

/// Routes as read from `Rte` path maps.
pub open spec fn rtes_read(fs: Seq<FieldsView>, out: Seq<RteRaw>) -> bool {
    exists|res: Seq<Option<RteRaw>>| #[trigger] rte_results(fs, res) && out == somes(res)
}

fn read_rtes(list: &Vec<Fields>) -> (r: Vec<RteRaw>)
    ensures
        rtes_read(vertex_views(list@), r@),
{
    let ghost fs = vertex_views(list@);
    let mut out: Vec<RteRaw> = Vec::new();
    let ghost mut res: Seq<Option<RteRaw>> = Seq::empty();
    let mut k: usize = 0;
    while k < list.len()
        invariant
            0 <= k <= list@.len(),
            fs == vertex_views(list@),
            res.len() == k,
            forall|i: int| 0 <= i < k ==> rte_outcome(fs[i], #[trigger] res[i]),
            out@ == somes(res),
        decreases list.len() - k,
    {
        let c = rte_raw_from_paths(&list[k]);
        let ghost before = res;
        proof {
            res = res.push(c);
            assert(res.drop_last() =~= before);
        }
        match c {
            Some(a) => out.push(a),
            None => {},
        }
        k = k + 1;
    }
    assert(rte_results(fs, res));
    out
}

pub open spec fn rsg_results(fs: Seq<FieldsView>, res: Seq<Option<RsgRaw>>) -> bool {
    &&& res.len() == fs.len()
    &&& forall|i: int| 0 <= i < fs.len() ==> rsg_outcome(fs[i], #[trigger] res[i])
}

/// Route segments as read from `Rsg` path maps.
pub open spec fn rsgs_read(fs: Seq<FieldsView>, out: Seq<RsgRaw>) -> bool {
    exists|res: Seq<Option<RsgRaw>>| #[trigger] rsg_results(fs, res) && out == somes(res)
}

fn read_rsgs(list: &Vec<Fields>) -> (r: Vec<RsgRaw>)
    ensures
        rsgs_read(vertex_views(list@), r@),
{
    let ghost fs = vertex_views(list@);
    let mut out: Vec<RsgRaw> = Vec::new();
    let ghost mut res: Seq<Option<RsgRaw>> = Seq::empty();
    let mut k: usize = 0;
    while k < list.len()
        invariant
            0 <= k <= list@.len(),
            fs == vertex_views(list@),
            res.len() == k,
            forall|i: int| 0 <= i < k ==> rsg_outcome(fs[i], #[trigger] res[i]),
            out@ == somes(res),
        decreases list.len() - k,
    {
        let c = rsg_raw_from_paths(&list[k]);
        let ghost before = res;
        proof {
            res = res.push(c);
            assert(res.drop_last() =~= before);
        }
        match c {
            Some(a) => out.push(a),
            None => {},
        }
        k = k + 1;
    }
    assert(rsg_results(fs, res));
    out
}

pub open spec fn ase_results(fs: Seq<FieldsView>, res: Seq<Option<AseRaw>>) -> bool {
    &&& res.len() == fs.len()
    &&& forall|i: int| 0 <= i < fs.len() ==> ase_outcome(fs[i], #[trigger] res[i])
}

/// Airspaces as read from `Ase` path maps.
pub open spec fn ases_read(fs: Seq<FieldsView>, out: Seq<AseRaw>) -> bool {
    exists|res: Seq<Option<AseRaw>>| #[trigger] ase_results(fs, res) && out == somes(res)
}

fn read_ases(list: &Vec<Fields>) -> (r: Vec<AseRaw>)
    ensures
        ases_read(vertex_views(list@), r@),
{
    let ghost fs = vertex_views(list@);
    let mut out: Vec<AseRaw> = Vec::new();
    let ghost mut res: Seq<Option<AseRaw>> = Seq::empty();
    let mut k: usize = 0;
    while k < list.len()
        invariant
            0 <= k <= list@.len(),
            fs == vertex_views(list@),
            res.len() == k,
            forall|i: int| 0 <= i < k ==> ase_outcome(fs[i], #[trigger] res[i]),
            out@ == somes(res),
        decreases list.len() - k,
    {
        let c = ase_from_paths(&list[k]);
        let ghost before = res;
        proof {
            res = res.push(c);
            assert(res.drop_last() =~= before);
        }
        match c {
            Some(a) => out.push(a),
            None => {},
        }
        k = k + 1;
    }
    assert(ase_results(fs, res));
    out
}

pub open spec fn navaid_results(
    ns: Seq<(Seq<char>, FieldsView)>,
    region: Seq<char>,
    res: Seq<Option<Navaid>>,
) -> bool {
    &&& res.len() == ns.len()
    &&& forall|i: int|
        0 <= i < ns.len() ==> navaid_fields_outcome(ns[i].0, ns[i].1, region, #[trigger] res[i])
}

/// Navaids from `Vor`/`Ndb`/`Dme`/`Tcn` field maps, each with its tag.
pub open spec fn navaids_read(ns: Seq<(Seq<char>, FieldsView)>, region: Seq<char>, out: Seq<Navaid>) -> bool {
    exists|res: Seq<Option<Navaid>>| #[trigger] navaid_results(ns, region, res) && out == somes(res)
}

fn read_navaids(list: &Vec<(String, Fields)>, region: &str) -> (r: Vec<Navaid>)
    ensures
        navaids_read(tagged_views(list@), region@, r@),
{
    let ghost ns = tagged_views(list@);
    let mut out: Vec<Navaid> = Vec::new();
    let ghost mut res: Seq<Option<Navaid>> = Seq::empty();
    let mut k: usize = 0;
    while k < list.len()
        invariant
            0 <= k <= list@.len(),
            ns == tagged_views(list@),
            res.len() == k,
            forall|i: int|
                0 <= i < k ==> navaid_fields_outcome(ns[i].0, ns[i].1, region@, #[trigger] res[i]),
            out@ == somes(res),
        decreases list.len() - k,
    {
        let c = navaid_from_fields(list[k].0.as_str(), &list[k].1, region);
        let ghost before = res;
        proof {
            res = res.push(c);
            assert(res.drop_last() =~= before);
        }
        match c {
            Some(a) => out.push(a),
            None => {},
        }
        k = k + 1;
    }
    assert(navaid_results(ns, region@, res));
    out
}

/// What one snapshot converts to. Airspace borders stay as read (points,
/// arcs, circles); expanding them into rings is left to the caller.
pub struct AixmData {
    pub airports: Vec<Airport>,
    pub navaids: Vec<Navaid>,
    pub waypoints: Vec<Waypoint>,
    pub runways: Vec<Runway>,
    pub airways: Vec<Airway>,
    pub airway_legs: Vec<AirwayLeg>,
    pub airspaces: Vec<AixmAirspace>,
    /// The AIRAC date of the snapshot's root (`effective`, date part).
    pub effective: Option<String>,
}

pub open spec fn runway_inputs(rf: Seq<FieldsView>, df: Seq<FieldsView>, rwys: Seq<RwyRaw>, rdns: Seq<RdnRaw>) -> bool {
    rwys_read(rf, rwys) && rdns_read(df, rdns)
}

pub open spec fn route_inputs(tf: Seq<FieldsView>, sf: Seq<FieldsView>, rtes: Seq<RteRaw>, rsgs: Seq<RsgRaw>) -> bool {
    rtes_read(tf, rtes) && rsgs_read(sf, rsgs)
}

/// `d` is what the features `feat` convert to, navaids and waypoints
/// stamped with `region`.
pub open spec fn converted(feat: SnapshotFeatures, region: Seq<char>, d: AixmData) -> bool {
    &&& opt_view(d.effective) == opt_view(feat.effective)
    &&& airports_read(vertex_views(feat.airports@), d.airports@)
    &&& navaids_read(tagged_views(feat.navaids@), region, d.navaids@)
    &&& waypoints_read(vertex_views(feat.waypoints@), region, d.waypoints@)
    &&& exists|rwys: Seq<RwyRaw>, rdns: Seq<RdnRaw>|
        #[trigger] runway_inputs(vertex_views(feat.runways@), vertex_views(feat.runway_directions@), rwys, rdns)
            && runways_assembled(rwys, rdns, d.runways@)
    &&& exists|rtes: Seq<RteRaw>, rsgs: Seq<RsgRaw>|
        #[trigger] route_inputs(vertex_views(feat.routes@), vertex_views(feat.route_segments@), rtes, rsgs)
            && airways_assembled(rtes, rsgs, d.airways@, d.airway_legs@)
    &&& exists|ases: Seq<AseRaw>|
        #[trigger] ases_read(vertex_views(feat.airspaces@), ases)
            && airspaces_assembled(ases, feat.borders@, d.airspaces@)
}

/// Converts the features of a snapshot: airports, navaids and waypoints
/// one by one (those that convert, in order), runways joined to their
/// directions, airways chained from their segments, airspaces joined to
/// their borders.
pub fn convert_features(feat: &SnapshotFeatures, region: &str) -> (r: AixmData)
    ensures
        converted(*feat, region@, r),
{
    let airports = read_airports(&feat.airports);
    let navaids = read_navaids(&feat.navaids, region);
    let waypoints = read_waypoints(&feat.waypoints, region);
    let rwys = read_rwys(&feat.runways);
    let rdns = read_rdns(&feat.runway_directions);
    let runways = assemble_runways(rwys.as_slice(), rdns.as_slice());
    assert(runway_inputs(vertex_views(feat.runways@), vertex_views(feat.runway_directions@), rwys@, rdns@));
    let rtes = read_rtes(&feat.routes);
    let rsgs = read_rsgs(&feat.route_segments);
    let (airways, airway_legs) = assemble_airways(rtes.as_slice(), rsgs.as_slice());
    assert(route_inputs(vertex_views(feat.routes@), vertex_views(feat.route_segments@), rtes@, rsgs@));
    let ases = read_ases(&feat.airspaces);
    let airspaces = assemble_airspaces(ases.as_slice(), feat.borders.as_slice());
    assert(ases_read(vertex_views(feat.airspaces@), ases@));
    let effective = match &feat.effective {
        Some(e) => Some(e.clone()),
        None => None,
    };
    AixmData { airports, navaids, waypoints, runways, airways, airway_legs, airspaces, effective }
}

/// `d` is what the snapshot whose events are `events` converts to.
pub open spec fn parsed_from(events: Seq<XmlEvent>, region: Seq<char>, d: AixmData) -> bool {
    exists|feat: SnapshotFeatures|
        #[trigger] features_match(feat, snapshot_scan(events, 0, empty_scan())) && converted(feat, region, d)
}

/// Parses the events of an AIXM 4.5 snapshot: reads the handled features
/// in one pass, then converts and joins them. `region` is the dataset's
/// ICAO region, stamped onto navaids and waypoints.
pub fn parse_events(events: &[XmlEvent], region: &str) -> (r: AixmData)
    ensures
        parsed_from(events@, region@, r),
{
    let feat = scan_snapshot(events);
    let r = convert_features(&feat, region);
    assert(features_match(feat, snapshot_scan(events@, 0, empty_scan())));
    r
}


#[verifier::external_type_specification]
#[verifier::external_body]
pub struct ExXmlError(quick_xml::Error);

/// Why a snapshot could not be read.
#[derive(Debug)]
pub enum AixmError {
    /// The XML reader refused the document.
    Xml(quick_xml::Error),
}

/// The events a default `quick_xml::Reader` over the bytes `xml` yields
/// through `read_event`, converted as [`read_events`] converts them, up
/// to (not including) the first `Eof`; `None` when the reader reports an
/// error before that. A function of the bytes alone.
pub uninterp spec fn xml_events(xml: Seq<u8>) -> Option<Seq<XmlEvent>>;

/// Trusted: reads `xml` with `quick_xml::Reader::from_reader` and
/// `read_event` until the first `Eof`, stopping at the reader's first
/// error. Each event is converted: start and end tags by local name
/// (bytes read lossily as UTF-8), a start tag's well-formed attributes by
/// local name with their raw values, text unescaped (`None` when that
/// fails), everything else as `Other`. The contract claims only that the
/// outcome is the one named by [`xml_events`].
#[verifier::external_body]
fn read_events(xml: &[u8]) -> (r: Result<Vec<XmlEvent>, quick_xml::Error>)
    ensures
        r is Ok <==> xml_events(xml@) is Some,
        r matches Ok(v) ==> xml_events(xml@) == Some(v@),
{
    let mut reader = Reader::from_reader(xml);
    let mut events = vec![];
    let s = |n: LocalName| String::from_utf8_lossy(n.as_ref()).into_owned();
    loop {
        let ev = match reader.read_event()? {
            Event::Start(e) => Start { name: s(e.local_name()), attrs: e.attributes().flatten().map(|a| (s(a.key.local_name()), String::from_utf8_lossy(&a.value).into_owned())).collect() },
            Event::End(e) => End { name: s(e.local_name()) },
            Event::Text(e) => Text { text: e.unescape().ok().map(Into::into) },
            Event::Eof => break,
            _ => Other,
        };
        events.push(ev)
    }
    Ok(events)
}

/// Parses an AIXM 4.5 snapshot. `region` is the dataset's ICAO region
/// (`LF` for France), stamped onto navaids and waypoints since AIXM
/// carries none per feature. The document's events are read to its end,
/// then [`parse_events`] does the rest on them and the closing `Eof`; a
/// reader error anywhere fails the whole document.
pub fn parse_snapshot(xml: &[u8], region: &str) -> (r: Result<AixmData, AixmError>)
    ensures
        match r {
            Ok(d) => xml_events(xml@) matches Some(ev) && parsed_from(ev.push(XmlEvent::Eof), region@, d),
            Err(_) => xml_events(xml@) is None,
        },
{
    match read_events(xml) {
        Ok(events) => {
            let mut events = events;
            events.push(XmlEvent::Eof);
            let d = parse_events(events.as_slice(), region);
            Ok(d)
        },
        Err(e) => Err(AixmError::Xml(e)),
    }
}

} // verus!
