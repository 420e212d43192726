//! Template instantiation: binding a substitution array to a template's
//! nodes, and turning bound nodes into visitor calls.

use vstd::prelude::*;
use crate::err::TokenError;
use crate::model::{
    Placeholder, Slot, NodeAttr, NodeAttrModel, Node, NodeModel, Attribute, AttributeModel, Call,
    CallModel, agrees_deep, unsigned_of, signed_of, unsigned_as, signed_as, coerce, lookup,
    bind_attrs_from, bind_node, bind_from, bind, emit_attrs_from, emit_node, emit_from, document,
};
use crate::value::{
    BinXmlValue, Scalar, agrees, TYPE_NULL, TYPE_UINT8, TYPE_UINT16, TYPE_UINT32, TYPE_UINT64,
    TYPE_INT8, TYPE_INT16, TYPE_INT32, TYPE_INT64, TYPE_HEX32, TYPE_HEX64,
};

verus! {

fn unsigned_value(v: &BinXmlValue) -> (r: Option<u64>)
    ensures
        match r {
            Some(x) => unsigned_of(v@) == Some(x as int),
            None => unsigned_of(v@) is None,
        },
{
    match v {
        BinXmlValue::Scalar(Scalar::UInt8(x)) => Some(*x as u64),
        BinXmlValue::Scalar(Scalar::UInt16(x)) => Some(*x as u64),
        BinXmlValue::Scalar(Scalar::UInt32(x)) => Some(*x as u64),
        BinXmlValue::Scalar(Scalar::UInt64(x)) => Some(*x),
        _ => None,
    }
}

fn signed_value(v: &BinXmlValue) -> (r: Option<i64>)
    ensures
        match r {
            Some(x) => signed_of(v@) == Some(x as int),
            None => signed_of(v@) is None,
        },
{
    match v {
        BinXmlValue::Scalar(Scalar::Int8(x)) => Some(*x as i64),
        BinXmlValue::Scalar(Scalar::Int16(x)) => Some(*x as i64),
        BinXmlValue::Scalar(Scalar::Int32(x)) => Some(*x as i64),
        BinXmlValue::Scalar(Scalar::Int64(x)) => Some(*x),
        _ => None,
    }
}

fn make_unsigned(ty: u8, x: u64) -> (r: Option<BinXmlValue>)
    ensures
        match r {
            Some(v) => unsigned_as(ty, x as int) == Some(v@),
            None => unsigned_as(ty, x as int) is None,
        },
{
    if ty == TYPE_UINT8 && x <= 0xFF {
        Some(BinXmlValue::Scalar(Scalar::UInt8(x as u8)))
    } else if ty == TYPE_UINT16 && x <= 0xFFFF {
        Some(BinXmlValue::Scalar(Scalar::UInt16(x as u16)))
    } else if ty == TYPE_UINT32 && x <= 0xFFFF_FFFF {
        Some(BinXmlValue::Scalar(Scalar::UInt32(x as u32)))
    } else if ty == TYPE_UINT64 {
        Some(BinXmlValue::Scalar(Scalar::UInt64(x)))
    } else if ty == TYPE_HEX32 && x <= 0xFFFF_FFFF {
        Some(BinXmlValue::Scalar(Scalar::HexInt32(x as u32)))
    } else if ty == TYPE_HEX64 {
        Some(BinXmlValue::Scalar(Scalar::HexInt64(x)))
    } else {
        None
    }
}

fn make_signed(ty: u8, x: i64) -> (r: Option<BinXmlValue>)
    ensures
        match r {
            Some(v) => signed_as(ty, x as int) == Some(v@),
            None => signed_as(ty, x as int) is None,
        },
{
    if ty == TYPE_INT8 && -0x80 <= x && x <= 0x7F {
        Some(BinXmlValue::Scalar(Scalar::Int8(x as i8)))
    } else if ty == TYPE_INT16 && -0x8000 <= x && x <= 0x7FFF {
        Some(BinXmlValue::Scalar(Scalar::Int16(x as i16)))
    } else if ty == TYPE_INT32 && -0x8000_0000 <= x && x <= 0x7FFF_FFFF {
        Some(BinXmlValue::Scalar(Scalar::Int32(x as i32)))
    } else if ty == TYPE_INT64 {
        Some(BinXmlValue::Scalar(Scalar::Int64(x)))
    } else {
        None
    }
}

/// Coerces a supplied value to the type that a placeholder declares.
pub fn coerce_value(p: Placeholder, v: &BinXmlValue) -> (r: Result<BinXmlValue, TokenError>)
    ensures
        agrees(r, coerce(p, v@)),
{
    if v.type_tag() == p.ty || p.ty == TYPE_NULL {
        return Ok(v.clone());
    }
    if let BinXmlValue::Null = v {
        return if p.optional {
            Ok(BinXmlValue::Null)
        } else {
            Err(TokenError::TypeMismatch)
        };
    }
    if let Some(x) = unsigned_value(v) {
        if let Some(w) = make_unsigned(p.ty, x) {
            return Ok(w);
        }
    }
    if let Some(x) = signed_value(v) {
        if let Some(w) = make_signed(p.ty, x) {
            return Ok(w);
        }
    }
    Err(TokenError::TypeMismatch)
}

/// Takes the value for a placeholder out of a substitution array.
pub fn lookup_value(p: Placeholder, subs: &Vec<BinXmlValue>) -> (r: Result<BinXmlValue, TokenError>)
    ensures
        agrees(r, lookup(p, subs.deep_view())),
{
    if p.index as usize >= subs.len() {
        Err(TokenError::MissingSubstitution)
    } else {
        coerce_value(p, &subs[p.index as usize])
    }
}

fn bind_attributes(attrs: &Vec<NodeAttr>, subs: &Vec<BinXmlValue>) -> (r: Result<
    Vec<NodeAttr>,
    TokenError,
>)
    ensures
        agrees_deep(r, bind_attrs_from(attrs.deep_view(), subs.deep_view(), 0, Seq::empty())),
{
    let ghost all = attrs.deep_view();
    let ghost vals = subs.deep_view();
    let mut out: Vec<NodeAttr> = Vec::new();
    let mut i: usize = 0;
    assert(out.deep_view() =~= Seq::<NodeAttrModel>::empty());
    while i < attrs.len()
        invariant
            i <= attrs.len(),
            all == attrs.deep_view(),
            vals == subs.deep_view(),
            bind_attrs_from(all, vals, i as int, out.deep_view()) == bind_attrs_from(
                all,
                vals,
                0,
                Seq::empty(),
            ),
        decreases attrs.len() - i,
    {
        let a: &NodeAttr = &attrs[i];
        assert(all[i as int] == a@);
        let v: BinXmlValue = match &a.value {
            Slot::Literal(v) => v.clone(),
            Slot::Sub(p) => match lookup_value(*p, subs) {
                Ok(v) => v,
                Err(e) => {
                    return Err(e);
                },
            },
        };
        let ghost before = out.deep_view();
        let b = NodeAttr { name: a.name.clone(), value: Slot::Literal(v) };
        out.push(b);
        assert(out.deep_view() =~= before.push(b@));
        i = i + 1;
    }
    Ok(out)
}

/// Binds a substitution array to one node.
pub fn bind_one(n: &Node, subs: &Vec<BinXmlValue>) -> (r: Result<Node, TokenError>)
    ensures
        agrees(r, bind_node(n@, subs.deep_view())),
{
    match n {
        Node::Open { name, attributes } => match bind_attributes(attributes, subs) {
            Ok(bound) => Ok(Node::Open { name: name.clone(), attributes: bound }),
            Err(e) => Err(e),
        },
        Node::Chars(t) => Ok(Node::Chars(t.clone())),
        Node::Sub(p) => match lookup_value(*p, subs) {
            Ok(v) => Ok(Node::Chars(v.render())),
            Err(e) => Err(e),
        },
        Node::Close => Ok(Node::Close),
    }
}

/// Instantiates a template: binds a substitution array to its nodes.
pub fn bind_nodes(nodes: &Vec<Node>, subs: &Vec<BinXmlValue>) -> (r: Result<Vec<Node>, TokenError>)
    ensures
        agrees_deep(r, bind(nodes.deep_view(), subs.deep_view())),
{
    let ghost all = nodes.deep_view();
    let ghost vals = subs.deep_view();
    let mut out: Vec<Node> = Vec::new();
    let mut i: usize = 0;
    assert(out.deep_view() =~= Seq::<NodeModel>::empty());
    while i < nodes.len()
        invariant
            i <= nodes.len(),
            all == nodes.deep_view(),
            vals == subs.deep_view(),
            bind_from(all, vals, i as int, out.deep_view()) == bind(all, vals),
        decreases nodes.len() - i,
    {
        assert(all[i as int] == nodes[i as int]@);
        match bind_one(&nodes[i], subs) {
            Ok(n) => {
                let ghost before = out.deep_view();
                let ghost m = n@;
                out.push(n);
                assert(out.deep_view() =~= before.push(m));
            },
            Err(e) => {
                return Err(e);
            },
        }
        i = i + 1;
    }
    Ok(out)
}

fn emit_attributes(attrs: &Vec<NodeAttr>) -> (r: Result<Vec<Attribute>, TokenError>)
    ensures
        agrees_deep(r, emit_attrs_from(attrs.deep_view(), 0, Seq::empty())),
{
    let ghost all = attrs.deep_view();
    let mut out: Vec<Attribute> = Vec::new();
    let mut i: usize = 0;
    assert(out.deep_view() =~= Seq::<AttributeModel>::empty());
    while i < attrs.len()
        invariant
            i <= attrs.len(),
            all == attrs.deep_view(),
            emit_attrs_from(all, i as int, out.deep_view()) == emit_attrs_from(
                all,
                0,
                Seq::empty(),
            ),
        decreases attrs.len() - i,
    {
        let a: &NodeAttr = &attrs[i];
        assert(all[i as int] == a@);
        match &a.value {
            Slot::Sub(_) => {
                return Err(TokenError::UnboundSubstitution);
            },
            Slot::Literal(v) => {
                let ghost before = out.deep_view();
                let b = Attribute { name: a.name.clone(), value: v.clone() };
                out.push(b);
                assert(out.deep_view() =~= before.push(b@));
            },
        }
        i = i + 1;
    }
    Ok(out)
}

/// The visitor call that one node stands for.
pub fn emit_one(n: &Node) -> (r: Result<Call, TokenError>)
    ensures
        agrees(r, emit_node(n@)),
{
    match n {
        Node::Open { name, attributes } => match emit_attributes(attributes) {
            Ok(attrs) => Ok(Call::OpenStartElement { name: name.clone(), attributes: attrs }),
            Err(e) => Err(e),
        },
        Node::Chars(t) => Ok(Call::Characters(t.clone())),
        Node::Sub(_) => Err(TokenError::UnboundSubstitution),
        Node::Close => Ok(Call::CloseElement),
    }
}

/// The visitor calls of one record, from the start of the stream to its end.
pub fn emit_document(nodes: &Vec<Node>) -> (r: Result<Vec<Call>, TokenError>)
    ensures
        agrees_deep(r, document(nodes.deep_view())),
{
    let ghost all = nodes.deep_view();
    let mut out: Vec<Call> = Vec::new();
    out.push(Call::StartOfStream);
    let mut i: usize = 0;
    assert(out.deep_view() =~= seq![CallModel::StartOfStream]);
    while i < nodes.len()
        invariant
            i <= nodes.len(),
            all == nodes.deep_view(),
            emit_from(all, i as int, out.deep_view()) == emit_from(
                all,
                0,
                seq![CallModel::StartOfStream],
            ),
        decreases nodes.len() - i,
    {
        assert(all[i as int] == nodes[i as int]@);
        match emit_one(&nodes[i]) {
            Ok(c) => {
                let ghost before = out.deep_view();
                let ghost m = c@;
                out.push(c);
                assert(out.deep_view() =~= before.push(m));
            },
            Err(e) => {
                return Err(e);
            },
        }
        i = i + 1;
    }
    let ghost before = out.deep_view();
    out.push(Call::EndOfStream);
    assert(out.deep_view() =~= before.push(CallModel::EndOfStream));
    Ok(out)
}

} // verus!
