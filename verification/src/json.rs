//! An output collaborator that builds a JSON document from a record, as a
//! `serde_json` value.
//!
//! An element becomes a member of its parent under its name. An element
//! without attributes and without children is its text, or null. The
//! attributes of an element form an object of their own: a member
//! `#attributes` of the element, or, where attributes are kept apart, a
//! member of the parent under the element's name followed by `_attributes`.
//! Text beside other members is the member `#text`.

use vstd::prelude::*;
use vstd::string::StringExecFns;
use crate::model::{Attribute, AttributeModel, Call, CallModel};
use crate::render::value_text;
use crate::settings::ParserSettings;
use crate::value::BinXmlValue;
use crate::visitor::{BinXmlOutput, Recorder};
use crate::xml::{XmlElement, dummy_event};

verus! {

/// A JSON value of `serde_json`.
#[verifier::external_type_specification]
#[verifier::external_body]
pub struct ExJsonValue(serde_json::Value);

/// The members of a JSON object of `serde_json`.
#[verifier::external_type_specification]
#[verifier::external_body]
#[verifier::reject_recursive_types(K)]
#[verifier::reject_recursive_types(V)]
pub struct ExJsonMap<K, V>(serde_json::Map<K, V>);

/// What a JSON value holds. A number is held as the text that stands for
/// it. This library builds null, strings and objects only.
pub enum JsonModel {
    Null,
    Bool(bool),
    Number(Seq<char>),
    Text(Seq<char>),
    Array(Seq<JsonModel>),
    Object(Map<Seq<char>, JsonModel>),
}

/// What a `serde_json` value holds.
pub uninterp spec fn json_of(v: serde_json::Value) -> JsonModel;

/// The members that a `serde_json` map holds, by key.
pub uninterp spec fn members_of(m: serde_json::Map<String, serde_json::Value>) -> Map<
    Seq<char>,
    JsonModel,
>;

/// The text that `serde_json` prints for a value, indented.
pub uninterp spec fn pretty_text(j: JsonModel) -> Seq<char>;

/// The members of a JSON object, as `serde_json` holds them.
pub type JsonMembers = serde_json::Map<String, serde_json::Value>;

/// The map holds no member.
pub open spec fn no_members(m: Map<Seq<char>, JsonModel>) -> bool {
    forall|k: Seq<char>| !m.contains_key(k)
}

/// `Value::Null` of `serde_json` is the JSON null.
#[verifier::external_body]
fn json_null() -> (v: serde_json::Value)
    ensures
        json_of(v) == JsonModel::Null,
{
    serde_json::Value::Null
}

/// `Value::String` of `serde_json` is the JSON string with the given text.
#[verifier::external_body]
fn json_string(s: String) -> (v: serde_json::Value)
    ensures
        json_of(v) == JsonModel::Text(s@),
{
    serde_json::Value::String(s)
}

/// `Value::Object` of `serde_json` is the JSON object with the members of
/// the given map.
#[verifier::external_body]
fn json_object(m: serde_json::Map<String, serde_json::Value>) -> (v: serde_json::Value)
    ensures
        json_of(v) == JsonModel::Object(members_of(m)),
{
    serde_json::Value::Object(m)
}

/// `Map::new` of `serde_json` makes a map without members.
#[verifier::external_body]
fn new_members() -> (m: JsonMembers)
    ensures
        no_members(members_of(m)),
{
    serde_json::Map::new()
}

/// `Map::insert` of `serde_json` puts the value under the key, in place of
/// the value that the key had, if it had one.
#[verifier::external_body]
fn insert_member(
    m: &mut serde_json::Map<String, serde_json::Value>,
    key: String,
    value: serde_json::Value,
)
    ensures
        members_of(*final(m)) == members_of(*old(m)).insert(key@, json_of(value)),
{
    m.insert(key, value);
}

/// `Map::is_empty` of `serde_json` says whether the map holds no member.
#[verifier::external_body]
fn has_no_members(m: &serde_json::Map<String, serde_json::Value>) -> (r: bool)
    ensures
        r == no_members(members_of(*m)),
{
    m.is_empty()
}

/// `serde_json::to_string_pretty` prints a value as indented text. Printing
/// fails only where a `Serialize` impl fails or a map has a key that is no
/// string; a `Value` is written into a vector of bytes, variant by variant,
/// and its maps have string keys, so for a `Value` there is always a text.
#[verifier::external_body]
pub(crate) fn to_pretty(v: &serde_json::Value) -> (r: Option<String>)
    ensures
        r is Some,
        r matches Some(s) ==> s@ == pretty_text(json_of(*v)),
{
    serde_json::to_string_pretty(v).ok()
}

/// An element that is open while a document is built: its name, the members
/// gathered so far, and its text.
pub struct Frame {
    name: String,
    members: serde_json::Map<String, serde_json::Value>,
    text: Option<String>,
}

/// What a [`Frame`] holds.
pub struct FrameModel {
    pub name: Seq<char>,
    pub members: Map<Seq<char>, JsonModel>,
    pub text: Option<Seq<char>>,
}

impl View for Frame {
    type V = FrameModel;

    closed spec fn view(&self) -> FrameModel {
        FrameModel {
            name: self.name@,
            members: members_of(self.members),
            text: match self.text {
                Some(t) => Some(t@),
                None => None,
            },
        }
    }
}

impl DeepView for Frame {
    type V = FrameModel;

    open spec fn deep_view(&self) -> FrameModel {
        self@
    }
}

/// The members that the first `n` attributes give: each attribute with a
/// value, under its name, as the text of its value.
pub open spec fn attrs_json(attrs: Seq<AttributeModel>, n: int) -> Map<Seq<char>, JsonModel>
    decreases n,
{
    if n <= 0 {
        Map::empty()
    } else if attrs[n - 1].value is Null {
        attrs_json(attrs, n - 1)
    } else {
        attrs_json(attrs, n - 1).insert(
            attrs[n - 1].name,
            JsonModel::Text(value_text(attrs[n - 1].value)),
        )
    }
}

/// The frame with one more member.
pub open spec fn with_member(f: FrameModel, key: Seq<char>, value: JsonModel) -> FrameModel {
    FrameModel { name: f.name, members: f.members.insert(key, value), text: f.text }
}

/// The value that an element has when it closes.
pub open spec fn frame_value(f: FrameModel) -> JsonModel {
    if no_members(f.members) {
        match f.text {
            Some(t) => JsonModel::Text(t),
            None => JsonModel::Null,
        }
    } else {
        match f.text {
            Some(t) => JsonModel::Object(f.members.insert("#text"@, JsonModel::Text(t))),
            None => JsonModel::Object(f.members),
        }
    }
}

/// A frame for an element that has just been opened.
pub open spec fn fresh(name: Seq<char>) -> FrameModel {
    FrameModel { name: name, members: Map::empty(), text: None }
}

/// The open elements after one more call, innermost last. The first frame
/// stands for the document.
pub open spec fn json_step(stack: Seq<FrameModel>, separate: bool, c: CallModel) -> Seq<
    FrameModel,
> {
    match c {
        CallModel::OpenStartElement { name, attributes } => {
            let given = attrs_json(attributes, attributes.len() as int);
            if no_members(given) {
                stack.push(fresh(name))
            } else if separate {
                stack.drop_last().push(
                    with_member(stack.last(), name + "_attributes"@, JsonModel::Object(given)),
                ).push(fresh(name))
            } else {
                stack.push(with_member(fresh(name), "#attributes"@, JsonModel::Object(given)))
            }
        },
        CallModel::Characters(t) => stack.drop_last().push(
            FrameModel { name: stack.last().name, members: stack.last().members, text: Some(t) },
        ),
        CallModel::CloseElement => if stack.len() > 1 {
            stack.drop_last().drop_last().push(
                with_member(
                    stack[stack.len() - 2],
                    stack.last().name,
                    frame_value(stack.last()),
                ),
            )
        } else {
            stack
        },
        _ => stack,
    }
}

/// The open elements after the first `n` calls. The document's frame has the
/// name of the placeholder element.
pub open spec fn json_fold(calls: Seq<CallModel>, separate: bool, n: int) -> Seq<FrameModel>
    decreases n,
{
    if n <= 0 {
        seq![fresh("Dummy"@)]
    } else {
        json_step(json_fold(calls, separate, n - 1), separate, calls[n - 1])
    }
}

/// The JSON document of the calls: the object of the members of the
/// document's frame, if every element that was opened has been closed.
pub open spec fn json_doc(calls: Seq<CallModel>, separate: bool) -> Option<JsonModel> {
    let stack = json_fold(calls, separate, calls.len() as int);
    if stack.len() == 1 {
        Some(JsonModel::Object(stack[0].members))
    } else {
        None
    }
}

fn attributes_object(attrs: &Vec<Attribute>) -> (m: JsonMembers)
    ensures
        members_of(m) == attrs_json(attrs.deep_view(), attrs.len() as int),
{
    let ghost all = attrs.deep_view();
    let mut m = new_members();
    let mut i: usize = 0;
    assert(members_of(m) =~= Map::<Seq<char>, JsonModel>::empty());
    while i < attrs.len()
        invariant
            i <= attrs.len(),
            all == attrs.deep_view(),
            members_of(m) == attrs_json(all, i as int),
        decreases attrs.len() - i,
    {
        let a: &Attribute = &attrs[i];
        assert(all[i as int] == a@);
        match &a.value {
            BinXmlValue::Null => {},
            v => {
                insert_member(&mut m, a.name.clone(), json_string(v.render()));
            },
        }
        i = i + 1;
    }
    m
}

fn fresh_frame(name: &String) -> (f: Frame)
    ensures
        f@ == fresh(name@),
{
    let f = Frame { name: name.clone(), members: new_members(), text: None };
    assert(f@.members =~= Map::<Seq<char>, JsonModel>::empty());
    f
}

fn value_of(f: Frame) -> (v: serde_json::Value)
    ensures
        json_of(v) == frame_value(f@),
{
    let Frame { name: _, members, text } = f;
    let mut members = members;
    if has_no_members(&members) {
        match text {
            Some(t) => json_string(t),
            None => json_null(),
        }
    } else {
        match text {
            Some(t) => {
                insert_member(&mut members, "#text".to_owned(), json_string(t));
                json_object(members)
            },
            None => json_object(members),
        }
    }
}

/// Builds the JSON document of the calls. There is none where an element
/// was left open.
pub fn build_json(calls: &Vec<Call>, separate: bool) -> (r: Option<serde_json::Value>)
    ensures
        match r {
            Some(v) => json_doc(calls.deep_view(), separate) == Some(json_of(v)),
            None => json_doc(calls.deep_view(), separate) is None,
        },
{
    let ghost all = calls.deep_view();
    let mut stack: Vec<Frame> = Vec::new();
    let document: XmlElement = dummy_event();
    stack.push(fresh_frame(&document.name));
    assert(stack.deep_view() =~= seq![fresh("Dummy"@)]);
    let mut i: usize = 0;
    while i < calls.len()
        invariant
            i <= calls.len(),
            all == calls.deep_view(),
            stack.len() >= 1,
            stack.deep_view() == json_fold(all, separate, i as int),
        decreases calls.len() - i,
    {
        assert(all[i as int] == calls[i as int]@);
        let ghost before = stack.deep_view();
        assert(before.last() == stack[stack.len() - 1]@);
        match &calls[i] {
            Call::OpenStartElement { name, attributes } => {
                let given = attributes_object(attributes);
                if has_no_members(&given) {
                    stack.push(fresh_frame(name));
                    assert(stack.deep_view() =~= before.push(fresh(name@)));
                } else if separate {
                    let mut parent: Frame = stack.pop().unwrap();
                    let ghost p = parent@;
                    let key: String = name.clone().concat("_attributes");
                    insert_member(&mut parent.members, key, json_object(given));
                    assert(parent@ == with_member(
                        p,
                        name@ + "_attributes"@,
                        JsonModel::Object(attrs_json(attributes.deep_view(), attributes.len() as int)),
                    ));
                    stack.push(parent);
                    stack.push(fresh_frame(name));
                    assert(stack.deep_view() =~= before.drop_last().push(
                        with_member(
                            before.last(),
                            name@ + "_attributes"@,
                            JsonModel::Object(
                                attrs_json(attributes.deep_view(), attributes.len() as int),
                            ),
                        ),
                    ).push(fresh(name@)));
                } else {
                    let mut f: Frame = fresh_frame(name);
                    insert_member(&mut f.members, "#attributes".to_owned(), json_object(given));
                    let ghost m = f@;
                    stack.push(f);
                    assert(stack.deep_view() =~= before.push(m));
                }
            },
            Call::Characters(t) => {
                let mut top: Frame = stack.pop().unwrap();
                top.text = Some(t.clone());
                let ghost m = top@;
                stack.push(top);
                assert(stack.deep_view() =~= before.drop_last().push(m));
            },
            Call::CloseElement => {
                if stack.len() > 1 {
                    let top: Frame = stack.pop().unwrap();
                    let mut parent: Frame = stack.pop().unwrap();
                    let ghost t = top@;
                    let ghost p = parent@;
                    assert(t == before.last());
                    assert(p == before[before.len() - 2]);
                    let key: String = top.name.clone();
                    insert_member(&mut parent.members, key, value_of(top));
                    let ghost m = parent@;
                    stack.push(parent);
                    assert(stack.deep_view() =~= before.drop_last().drop_last().push(m));
                }
            },
            _ => {},
        }
        i = i + 1;
    }
    if stack.len() == 1 {
        let root: Frame = stack.pop().unwrap();
        Some(json_object(root.members))
    } else {
        None
    }
}

/// An output collaborator that keeps what it receives and builds the JSON
/// document of it when asked.
pub struct JsonOutput {
    recorder: Recorder,
    separate: bool,
}

impl JsonOutput {
    /// An output that has received nothing. The settings say whether
    /// attributes are kept apart from their element.
    pub fn new(settings: &ParserSettings) -> (r: Self)
        ensures
            r.trace() == Seq::<CallModel>::empty(),
            r.separate() == settings.separate_attributes_in_output,
    {
        JsonOutput { recorder: Recorder::new(), separate: settings.separate_attributes_in_output }
    }

    /// Whether attributes are kept apart from their element.
    pub closed spec fn separate(&self) -> bool {
        self.separate
    }

    /// The JSON document of what was received. There is none where an
    /// element was left open.
    pub fn into_value(self) -> (r: Option<serde_json::Value>)
        ensures
            match r {
                Some(v) => json_doc(self.trace(), self.separate()) == Some(json_of(v)),
                None => json_doc(self.trace(), self.separate()) is None,
            },
    {
        build_json(&self.recorder.calls, self.separate)
    }
}

impl BinXmlOutput for JsonOutput {
    closed spec fn trace(&self) -> Seq<CallModel> {
        self.recorder.trace()
    }

    fn visit_start_of_stream(&mut self) {
        self.recorder.visit_start_of_stream();
    }

    fn visit_open_start_element(&mut self, name: &String, attributes: &Vec<Attribute>) {
        self.recorder.visit_open_start_element(name, attributes);
    }

    fn visit_characters(&mut self, value: &String) {
        self.recorder.visit_characters(value);
    }

    fn visit_close_element(&mut self) {
        self.recorder.visit_close_element();
    }

    fn visit_end_of_stream(&mut self) {
        self.recorder.visit_end_of_stream();
    }
}

} // verus!
