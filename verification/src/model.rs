//! The token tree of a template and the visitor calls of a record.
//!
//! A decoded token stream is a flat list of nodes: an element's start with its
//! attributes, character content, a placeholder, an element's end. Binding a
//! substitution array to a template replaces every placeholder by a value.
//! A list without placeholders turns one for one into visitor calls.

use vstd::prelude::*;
use crate::err::TokenError;
use crate::render::value_text;
use crate::value::{
    BinXmlValue, ValueModel, Scalar, ScalarModel, value_tag, TYPE_NULL, TYPE_UINT8, TYPE_UINT16,
    TYPE_UINT32, TYPE_UINT64, TYPE_INT8, TYPE_INT16, TYPE_INT32, TYPE_INT64, TYPE_HEX32,
    TYPE_HEX64,
};

verus! {

/// A substitution placeholder of a template: the ordinal of the value that
/// fills it, the type it declares, and whether it is optional.
#[derive(Debug, Clone, Copy, PartialEq, Eq, Structural)]
pub struct Placeholder {
    pub index: u16,
    pub ty: u8,
    pub optional: bool,
}

/// The value of an attribute in a template: given, or to be substituted.
#[derive(Debug, PartialEq, Eq)]
pub enum Slot {
    Literal(BinXmlValue),
    Sub(Placeholder),
}

/// What a [`Slot`] holds.
pub enum SlotModel {
    Literal(ValueModel),
    Sub(Placeholder),
}

impl View for Slot {
    type V = SlotModel;

    open spec fn view(&self) -> SlotModel {
        match *self {
            Slot::Literal(v) => SlotModel::Literal(v@),
            Slot::Sub(p) => SlotModel::Sub(p),
        }
    }
}

/// An attribute of an element in a template.
#[derive(Debug, PartialEq, Eq)]
pub struct NodeAttr {
    pub name: String,
    pub value: Slot,
}

/// What a [`NodeAttr`] holds.
pub struct NodeAttrModel {
    pub name: Seq<char>,
    pub value: SlotModel,
}

impl View for NodeAttr {
    type V = NodeAttrModel;

    open spec fn view(&self) -> NodeAttrModel {
        NodeAttrModel { name: self.name@, value: self.value@ }
    }
}

impl DeepView for NodeAttr {
    type V = NodeAttrModel;

    open spec fn deep_view(&self) -> NodeAttrModel {
        self@
    }
}

/// One token of a decoded stream.
#[derive(Debug, PartialEq, Eq)]
pub enum Node {
    /// The start of an element, with its attributes.
    Open { name: String, attributes: Vec<NodeAttr> },
    /// Character content.
    Chars(String),
    /// A placeholder in content position.
    Sub(Placeholder),
    /// The end of the innermost open element.
    Close,
}

/// What a [`Node`] holds.
pub enum NodeModel {
    Open { name: Seq<char>, attributes: Seq<NodeAttrModel> },
    Chars(Seq<char>),
    Sub(Placeholder),
    Close,
}

impl View for Node {
    type V = NodeModel;

    open spec fn view(&self) -> NodeModel {
        match *self {
            Node::Open { name, attributes } => NodeModel::Open {
                name: name@,
                attributes: attributes.deep_view(),
            },
            Node::Chars(t) => NodeModel::Chars(t@),
            Node::Sub(p) => NodeModel::Sub(p),
            Node::Close => NodeModel::Close,
        }
    }
}

impl DeepView for Node {
    type V = NodeModel;

    open spec fn deep_view(&self) -> NodeModel {
        self@
    }
}

/// An attribute as a visitor receives it: the value keeps its type.
#[derive(Debug, PartialEq, Eq)]
pub struct Attribute {
    pub name: String,
    pub value: BinXmlValue,
}

/// What an [`Attribute`] holds.
pub struct AttributeModel {
    pub name: Seq<char>,
    pub value: ValueModel,
}

impl View for Attribute {
    type V = AttributeModel;

    open spec fn view(&self) -> AttributeModel {
        AttributeModel { name: self.name@, value: self.value@ }
    }
}

impl DeepView for Attribute {
    type V = AttributeModel;

    open spec fn deep_view(&self) -> AttributeModel {
        self@
    }
}

impl Clone for Attribute {
    fn clone(&self) -> (r: Self)
        ensures
            r@ == self@,
    {
        Attribute { name: self.name.clone(), value: self.value.clone() }
    }
}

/// Copies a list of attributes.
pub fn clone_attributes(items: &Vec<Attribute>) -> (r: Vec<Attribute>)
    ensures
        r.deep_view() == items.deep_view(),
{
    let mut out: Vec<Attribute> = Vec::new();
    let mut i: usize = 0;
    while i < items.len()
        invariant
            i <= items.len(),
            out.len() == i,
            forall|k: int| 0 <= k < i ==> out[k]@ == items[k]@,
        decreases items.len() - i,
    {
        out.push(items[i].clone());
        i = i + 1;
    }
    assert(out.deep_view() =~= items.deep_view());
    out
}

/// One call on a visitor.
#[derive(Debug, PartialEq, Eq)]
pub enum Call {
    StartOfStream,
    OpenStartElement { name: String, attributes: Vec<Attribute> },
    Characters(String),
    CloseElement,
    EndOfStream,
}

/// What a [`Call`] holds.
pub enum CallModel {
    StartOfStream,
    OpenStartElement { name: Seq<char>, attributes: Seq<AttributeModel> },
    Characters(Seq<char>),
    CloseElement,
    EndOfStream,
}

impl View for Call {
    type V = CallModel;

    open spec fn view(&self) -> CallModel {
        match *self {
            Call::StartOfStream => CallModel::StartOfStream,
            Call::OpenStartElement { name, attributes } => CallModel::OpenStartElement {
                name: name@,
                attributes: attributes.deep_view(),
            },
            Call::Characters(t) => CallModel::Characters(t@),
            Call::CloseElement => CallModel::CloseElement,
            Call::EndOfStream => CallModel::EndOfStream,
        }
    }
}

impl Clone for Call {
    fn clone(&self) -> (r: Self)
        ensures
            r@ == self@,
    {
        match self {
            Call::StartOfStream => Call::StartOfStream,
            Call::OpenStartElement { name, attributes } => Call::OpenStartElement {
                name: name.clone(),
                attributes: clone_attributes(attributes),
            },
            Call::Characters(t) => Call::Characters(t.clone()),
            Call::CloseElement => Call::CloseElement,
            Call::EndOfStream => Call::EndOfStream,
        }
    }
}

impl DeepView for Call {
    type V = CallModel;

    open spec fn deep_view(&self) -> CallModel {
        self@
    }
}

/// An executable result agrees with the model's: the same error, or a value
/// whose deep view is the model's value.
pub open spec fn agrees_deep<T: DeepView>(
    r: Result<T, TokenError>,
    m: Result<T::V, TokenError>,
) -> bool {
    match r {
        Ok(v) => m == Ok::<T::V, TokenError>(v.deep_view()),
        Err(e) => m == Err::<T::V, TokenError>(e),
    }
}

// ---------------------------------------------------------------------------
// Coercion
// ---------------------------------------------------------------------------

/// The number that an unsigned integer value holds.
pub open spec fn unsigned_of(v: ValueModel) -> Option<int> {
    match v {
        ValueModel::Scalar(ScalarModel::UInt8(x)) => Some(x as int),
        ValueModel::Scalar(ScalarModel::UInt16(x)) => Some(x as int),
        ValueModel::Scalar(ScalarModel::UInt32(x)) => Some(x as int),
        ValueModel::Scalar(ScalarModel::UInt64(x)) => Some(x as int),
        _ => None,
    }
}

/// The number that a signed integer value holds.
pub open spec fn signed_of(v: ValueModel) -> Option<int> {
    match v {
        ValueModel::Scalar(ScalarModel::Int8(x)) => Some(x as int),
        ValueModel::Scalar(ScalarModel::Int16(x)) => Some(x as int),
        ValueModel::Scalar(ScalarModel::Int32(x)) => Some(x as int),
        ValueModel::Scalar(ScalarModel::Int64(x)) => Some(x as int),
        _ => None,
    }
}

/// The number `x` as a value of the unsigned or hexadecimal type `ty`, where
/// it fits that type.
pub open spec fn unsigned_as(ty: u8, x: int) -> Option<ValueModel> {
    if ty == TYPE_UINT8 && 0 <= x <= u8::MAX {
        Some(ValueModel::Scalar(ScalarModel::UInt8(x as u8)))
    } else if ty == TYPE_UINT16 && 0 <= x <= u16::MAX {
        Some(ValueModel::Scalar(ScalarModel::UInt16(x as u16)))
    } else if ty == TYPE_UINT32 && 0 <= x <= u32::MAX {
        Some(ValueModel::Scalar(ScalarModel::UInt32(x as u32)))
    } else if ty == TYPE_UINT64 && 0 <= x <= u64::MAX {
        Some(ValueModel::Scalar(ScalarModel::UInt64(x as u64)))
    } else if ty == TYPE_HEX32 && 0 <= x <= u32::MAX {
        Some(ValueModel::Scalar(ScalarModel::HexInt32(x as u32)))
    } else if ty == TYPE_HEX64 && 0 <= x <= u64::MAX {
        Some(ValueModel::Scalar(ScalarModel::HexInt64(x as u64)))
    } else {
        None
    }
}

/// The number `x` as a value of the signed type `ty`, where it fits that
/// type.
pub open spec fn signed_as(ty: u8, x: int) -> Option<ValueModel> {
    if ty == TYPE_INT8 && i8::MIN <= x <= i8::MAX {
        Some(ValueModel::Scalar(ScalarModel::Int8(x as i8)))
    } else if ty == TYPE_INT16 && i16::MIN <= x <= i16::MAX {
        Some(ValueModel::Scalar(ScalarModel::Int16(x as i16)))
    } else if ty == TYPE_INT32 && i32::MIN <= x <= i32::MAX {
        Some(ValueModel::Scalar(ScalarModel::Int32(x as i32)))
    } else if ty == TYPE_INT64 && i64::MIN <= x <= i64::MAX {
        Some(ValueModel::Scalar(ScalarModel::Int64(x as i64)))
    } else {
        None
    }
}

/// The value that fills a placeholder, given the value supplied for it.
///
/// - A value of the declared type fills it as it is.
/// - A placeholder that declares the null type accepts a value of any type.
/// - A null value fills an optional placeholder, and stays null.
/// - An unsigned integer fills a placeholder of another unsigned or of a
///   hexadecimal type, and a signed integer one of another signed type,
///   where the number fits the declared type.
/// - Anything else is a type mismatch.
pub open spec fn coerce(p: Placeholder, v: ValueModel) -> Result<ValueModel, TokenError> {
    if value_tag(v) == p.ty || p.ty == TYPE_NULL {
        Ok(v)
    } else if v is Null {
        if p.optional {
            Ok(v)
        } else {
            Err(TokenError::TypeMismatch)
        }
    } else if unsigned_of(v) is Some && unsigned_as(p.ty, unsigned_of(v).unwrap()) is Some {
        Ok(unsigned_as(p.ty, unsigned_of(v).unwrap()).unwrap())
    } else if signed_of(v) is Some && signed_as(p.ty, signed_of(v).unwrap()) is Some {
        Ok(signed_as(p.ty, signed_of(v).unwrap()).unwrap())
    } else {
        Err(TokenError::TypeMismatch)
    }
}

/// The value that a placeholder takes from a substitution array.
pub open spec fn lookup(p: Placeholder, subs: Seq<ValueModel>) -> Result<ValueModel, TokenError> {
    if p.index >= subs.len() {
        Err(TokenError::MissingSubstitution)
    } else {
        coerce(p, subs[p.index as int])
    }
}

// ---------------------------------------------------------------------------
// Binding
// ---------------------------------------------------------------------------

/// The value of an attribute slot once the substitution array is bound.
pub open spec fn bind_slot(s: SlotModel, subs: Seq<ValueModel>) -> Result<ValueModel, TokenError> {
    match s {
        SlotModel::Literal(v) => Ok(v),
        SlotModel::Sub(p) => lookup(p, subs),
    }
}

/// Binds the attributes from index `i` on, in order, and appends them to
/// `acc`. The first attribute that cannot be bound gives the error.
pub open spec fn bind_attrs_from(
    attrs: Seq<NodeAttrModel>,
    subs: Seq<ValueModel>,
    i: int,
    acc: Seq<NodeAttrModel>,
) -> Result<Seq<NodeAttrModel>, TokenError>
    decreases attrs.len() - i,
{
    if i < 0 || i >= attrs.len() {
        Ok(acc)
    } else {
        match bind_slot(attrs[i].value, subs) {
            Err(e) => Err(e),
            Ok(v) => bind_attrs_from(
                attrs,
                subs,
                i + 1,
                acc.push(NodeAttrModel { name: attrs[i].name, value: SlotModel::Literal(v) }),
            ),
        }
    }
}

/// A node once the substitution array is bound: a placeholder in content
/// position becomes the text of its value, a placeholder in an attribute
/// becomes its value, everything else stays.
pub open spec fn bind_node(n: NodeModel, subs: Seq<ValueModel>) -> Result<NodeModel, TokenError> {
    match n {
        NodeModel::Open { name, attributes } => match bind_attrs_from(
            attributes,
            subs,
            0,
            Seq::empty(),
        ) {
            Ok(bound) => Ok(NodeModel::Open { name: name, attributes: bound }),
            Err(e) => Err(e),
        },
        NodeModel::Chars(t) => Ok(NodeModel::Chars(t)),
        NodeModel::Sub(p) => match lookup(p, subs) {
            Ok(v) => Ok(NodeModel::Chars(value_text(v))),
            Err(e) => Err(e),
        },
        NodeModel::Close => Ok(NodeModel::Close),
    }
}

/// Binds the nodes from index `i` on, in order, and appends them to `acc`.
pub open spec fn bind_from(
    nodes: Seq<NodeModel>,
    subs: Seq<ValueModel>,
    i: int,
    acc: Seq<NodeModel>,
) -> Result<Seq<NodeModel>, TokenError>
    decreases nodes.len() - i,
{
    if i < 0 || i >= nodes.len() {
        Ok(acc)
    } else {
        match bind_node(nodes[i], subs) {
            Err(e) => Err(e),
            Ok(n) => bind_from(nodes, subs, i + 1, acc.push(n)),
        }
    }
}

/// A template's nodes with the substitution array bound: node for node, in
/// order. The first node that cannot be bound gives the error.
pub open spec fn bind(nodes: Seq<NodeModel>, subs: Seq<ValueModel>) -> Result<
    Seq<NodeModel>,
    TokenError,
> {
    bind_from(nodes, subs, 0, Seq::empty())
}

// ---------------------------------------------------------------------------
// Emission
// ---------------------------------------------------------------------------

/// The attributes from index `i` on as a visitor receives them, appended to
/// `acc`. A placeholder that was never bound is an error.
pub open spec fn emit_attrs_from(
    attrs: Seq<NodeAttrModel>,
    i: int,
    acc: Seq<AttributeModel>,
) -> Result<Seq<AttributeModel>, TokenError>
    decreases attrs.len() - i,
{
    if i < 0 || i >= attrs.len() {
        Ok(acc)
    } else {
        match attrs[i].value {
            SlotModel::Sub(_) => Err(TokenError::UnboundSubstitution),
            SlotModel::Literal(v) => emit_attrs_from(
                attrs,
                i + 1,
                acc.push(AttributeModel { name: attrs[i].name, value: v }),
            ),
        }
    }
}

/// The visitor call that a node stands for.
pub open spec fn emit_node(n: NodeModel) -> Result<CallModel, TokenError> {
    match n {
        NodeModel::Open { name, attributes } => match emit_attrs_from(
            attributes,
            0,
            Seq::empty(),
        ) {
            Ok(attrs) => Ok(CallModel::OpenStartElement { name: name, attributes: attrs }),
            Err(e) => Err(e),
        },
        NodeModel::Chars(t) => Ok(CallModel::Characters(t)),
        NodeModel::Sub(_) => Err(TokenError::UnboundSubstitution),
        NodeModel::Close => Ok(CallModel::CloseElement),
    }
}

/// The visitor calls of the nodes from index `i` on, appended to `acc`.
pub open spec fn emit_from(nodes: Seq<NodeModel>, i: int, acc: Seq<CallModel>) -> Result<
    Seq<CallModel>,
    TokenError,
>
    decreases nodes.len() - i,
{
    if i < 0 || i >= nodes.len() {
        Ok(acc)
    } else {
        match emit_node(nodes[i]) {
            Err(e) => Err(e),
            Ok(c) => emit_from(nodes, i + 1, acc.push(c)),
        }
    }
}

/// The visitor calls of one record: the calls of its nodes between the start
/// and the end of the stream.
pub open spec fn document(nodes: Seq<NodeModel>) -> Result<Seq<CallModel>, TokenError> {
    match emit_from(nodes, 0, seq![CallModel::StartOfStream]) {
        Ok(calls) => Ok(calls.push(CallModel::EndOfStream)),
        Err(e) => Err(e),
    }
}

} // verus!
