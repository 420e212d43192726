//! XML as text gives it: start tags read by a generic XML parser, as raw
//! bytes, and their conversion to elements.

use vstd::prelude::*;
use vstd::slice::slice_to_vec;
use vstd::utf8::{valid_utf8, decode_utf8};
use crate::model::{Attribute, AttributeModel};
use crate::value::{Scalar, ScalarModel, BinXmlValue, ValueModel};

verus! {

/// An element's start: its name and its attributes.
#[derive(Debug, PartialEq, Eq)]
pub struct XmlElement {
    pub name: String,
    pub attributes: Vec<Attribute>,
}

/// What an [`XmlElement`] holds.
pub struct XmlElementModel {
    pub name: Seq<char>,
    pub attributes: Seq<AttributeModel>,
}

impl View for XmlElement {
    type V = XmlElementModel;

    open spec fn view(&self) -> XmlElementModel {
        XmlElementModel { name: self.name@, attributes: self.attributes.deep_view() }
    }
}

/// One attribute of a start tag, as bytes.
#[derive(Debug, PartialEq, Eq)]
pub struct RawAttribute {
    pub key: Vec<u8>,
    pub value: Vec<u8>,
}

impl DeepView for RawAttribute {
    type V = (Seq<u8>, Seq<u8>);

    open spec fn deep_view(&self) -> (Seq<u8>, Seq<u8>) {
        (self.key@, self.value@)
    }
}

/// A start tag whose attributes have been read, as bytes.
#[derive(Debug, PartialEq, Eq)]
pub struct StartTag {
    pub name: Vec<u8>,
    pub attributes: Vec<RawAttribute>,
}

/// What a [`StartTag`] holds.
pub struct StartTagModel {
    pub name: Seq<u8>,
    pub attributes: Seq<(Seq<u8>, Seq<u8>)>,
}

impl View for StartTag {
    type V = StartTagModel;

    open spec fn view(&self) -> StartTagModel {
        StartTagModel { name: self.name@, attributes: self.attributes.deep_view() }
    }
}

/// `String::from_utf8` of std returns the string that the bytes encode, and
/// an error, here `None`, where the bytes are not valid UTF-8.
#[verifier::external_body]
fn string_from_utf8(bytes: Vec<u8>) -> (r: Option<String>)
    ensures
        match r {
            Some(s) => valid_utf8(bytes@) && s@ == decode_utf8(bytes@),
            None => !valid_utf8(bytes@),
        },
{
    String::from_utf8(bytes).ok()
}

/// The string that the bytes encode in UTF-8, if they are valid.
pub fn try_bytes_to_string(bytes: &[u8]) -> (r: Option<String>)
    ensures
        match r {
            Some(s) => valid_utf8(bytes@) && s@ == decode_utf8(bytes@),
            None => !valid_utf8(bytes@),
        },
{
    string_from_utf8(slice_to_vec(bytes))
}

/// The string that the bytes encode in UTF-8.
pub fn bytes_to_string(bytes: &[u8]) -> (r: String)
    requires
        valid_utf8(bytes@),
    ensures
        r@ == decode_utf8(bytes@),
{
    try_bytes_to_string(bytes).unwrap()
}

/// A placeholder element: the name `Dummy` and no attributes.
pub fn dummy_event() -> (r: XmlElement)
    ensures
        r@ == (XmlElementModel { name: "Dummy"@, attributes: Seq::empty() }),
{
    let r = XmlElement { name: "Dummy".to_owned(), attributes: Vec::new() };
    assert(r.attributes.deep_view() =~= Seq::<AttributeModel>::empty());
    r
}

/// The attribute that a key and a value of a start tag stand for. The value
/// is taken as a string, whatever it holds.
pub open spec fn attribute_of(raw: (Seq<u8>, Seq<u8>)) -> AttributeModel {
    AttributeModel {
        name: decode_utf8(raw.0),
        value: ValueModel::Scalar(ScalarModel::Text(decode_utf8(raw.1))),
    }
}

/// The name, every key and every value of the tag are valid UTF-8.
pub open spec fn valid_tag(tag: StartTagModel) -> bool {
    &&& valid_utf8(tag.name)
    &&& forall|i: int|
        0 <= i < tag.attributes.len() ==> valid_utf8((#[trigger] tag.attributes[i]).0)
            && valid_utf8(tag.attributes[i].1)
}

/// The element that a start tag stands for: its name, and its attributes in
/// order, all as strings.
pub open spec fn element_of(tag: StartTagModel) -> XmlElementModel {
    XmlElementModel {
        name: decode_utf8(tag.name),
        attributes: Seq::new(tag.attributes.len(), |i: int| attribute_of(tag.attributes[i])),
    }
}

/// The element that a start tag stands for once its attributes are read, if
/// all its text is valid UTF-8.
pub fn try_tag_to_element(tag: &StartTag) -> (r: Option<XmlElement>)
    ensures
        match r {
            Some(e) => valid_tag(tag@) && e@ == element_of(tag@),
            None => !valid_tag(tag@),
        },
{
    let name: String = match try_bytes_to_string(tag.name.as_slice()) {
        Some(s) => s,
        None => {
            return None;
        },
    };
    let ghost raw = tag.attributes.deep_view();
    let mut attrs: Vec<Attribute> = Vec::new();
    let mut i: usize = 0;
    while i < tag.attributes.len()
        invariant
            i <= tag.attributes.len(),
            raw == tag.attributes.deep_view(),
            attrs.len() == i,
            forall|k: int| 0 <= k < i ==> valid_utf8(raw[k].0) && valid_utf8(raw[k].1),
            forall|k: int| 0 <= k < i ==> attrs[k]@ == attribute_of(raw[k]),
        decreases tag.attributes.len() - i,
    {
        let a: &RawAttribute = &tag.attributes[i];
        assert(raw[i as int] == (a.key@, a.value@));
        let key: String = match try_bytes_to_string(a.key.as_slice()) {
            Some(s) => s,
            None => {
                assert(!valid_utf8(tag@.attributes[i as int].0));
                return None;
            },
        };
        let value: String = match try_bytes_to_string(a.value.as_slice()) {
            Some(s) => s,
            None => {
                assert(!valid_utf8(tag@.attributes[i as int].1));
                return None;
            },
        };
        attrs.push(Attribute { name: key, value: BinXmlValue::Scalar(Scalar::Text(value)) });
        i = i + 1;
    }
    let e = XmlElement { name, attributes: attrs };
    assert(e@.attributes =~= element_of(tag@).attributes);
    Some(e)
}

} // verus!
