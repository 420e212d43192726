//! The BinXml token decoder.
//!
//! One loop walks the token stream and keeps the depth of nesting in a
//! counter, so that deep nesting costs no stack. The only recursion is from a
//! template instance into the definition of a template that is not cached
//! yet, and the set of definitions being resolved bounds it.

use vstd::prelude::*;
use std::sync::Arc;
use crate::err::TokenError;
use crate::grammar::{
    Env, Step, TemplateModel, kind, token_fault, name_ref, value_token, substitution, attribute,
    attributes_from, open_element, cdata, pi_data, values_from, unresolved,
    lemma_unresolved_shrinks, template_at, instance, instance_with, plain_step, step, run,
    fragment, lemma_template_at, lemma_instance, lemma_step, lemma_run, TOKEN_EOF,
    TOKEN_OPEN_START, TOKEN_CLOSE_START, TOKEN_CLOSE_EMPTY, TOKEN_END_ELEMENT, TOKEN_VALUE,
    TOKEN_ATTRIBUTE, TOKEN_CDATA, TOKEN_COMMENT, TOKEN_STRING_REF, TOKEN_PI_TARGET, TOKEN_PI_DATA,
    TOKEN_TEMPLATE_INSTANCE, TOKEN_NORMAL_SUB, TOKEN_OPTIONAL_SUB, TOKEN_FRAGMENT_HEADER,
    TEMPLATE_HEADER,
};
use crate::instantiate::bind_nodes;
use crate::model::{Placeholder, Slot, NodeAttr, NodeAttrModel, Node, NodeModel, bind};
use crate::nesting::{
    depth_after, peak, single_root, open_prefix, fits, lemma_extend, lemma_closed_prefix,
    lemma_root_fits, lemma_bind_single_root,
};
use crate::reader::{
    in_bounds, u32_at, has_bytes, read_u8, read_u16, read_u32, lemma_buf_len, lemma_le_ranges,
};
use crate::string_cache::{StringCache, CachedString, bump};
use crate::shared::share;
use crate::template_cache::{Template, TemplateCache, disjoint};
use crate::text::{decode_utf16};
use crate::value::{
    BinXmlValue, Scalar, ValueModel, decode_value, width_of, read_units, read_guid, Guid,
    TYPE_NULL, TYPE_STRING,
};

verus! {

/// What one token adds, as the decoder holds it.
pub struct Piece {
    pub nodes: Vec<Node>,
    pub next: usize,
    pub depth: usize,
}

impl View for Piece {
    type V = Step;

    open spec fn view(&self) -> Step {
        Step { nodes: self.nodes.deep_view(), next: self.next as int, depth: self.depth as nat }
    }
}

fn kind_of(tag: u8) -> (k: u8)
    ensures
        k == kind(tag),
{
    tag % 64
}

fn fault_of(tag: u8) -> (e: TokenError)
    ensures
        e == token_fault(tag),
{
    let k: u8 = kind_of(tag);
    if k <= 0x0F {
        TokenError::UnexpectedToken
    } else {
        TokenError::UnknownToken
    }
}

/// Reads a name reference.
pub fn read_name(buf: &[u8], pos: usize, strings: &mut StringCache) -> (r: Result<
    (String, usize),
    TokenError,
>)
    requires
        old(strings).wf(buf@),
    ensures
        final(strings).wf(buf@),
        final(strings).extends(old(strings)),
        r is Ok ==> u32_at(buf@, pos as int) is Some && final(strings)@.contains_key(
            u32_at(buf@, pos as int).unwrap(),
        ),
        u32_at(buf@, pos as int) is Some && old(strings)@.contains_key(
            u32_at(buf@, pos as int).unwrap(),
        ) ==> final(strings)@ == old(strings)@ && final(strings).decodes() == old(
            strings,
        ).decodes(),
        match r {
            Ok((name, next)) => name_ref(buf@, pos as int) == Ok::<(Seq<char>, int), TokenError>(
                (name@, next as int),
            ) && next <= buf@.len(),
            Err(e) => name_ref(buf@, pos as int) == Err::<(Seq<char>, int), TokenError>(e),
        },
{
    proof {
        lemma_buf_len(buf);
        lemma_le_ranges(buf@, pos as int);
    }
    let off: u32 = match read_u32(buf, pos) {
        Some(o) => o,
        None => {
            return Err(TokenError::UnexpectedEof);
        },
    };
    let entry: Arc<CachedString> = match strings.resolve(buf, off) {
        Ok(e) => e,
        Err(e) => {
            return Err(e);
        },
    };
    proof {
        lemma_le_ranges(buf@, off + 6);
    }
    let next: usize = if off as usize == pos + 4 {
        pos + 4 + entry.size
    } else {
        pos + 4
    };
    Ok((entry.text.clone(), next))
}

/// Reads a value token.
pub fn read_value_token(buf: &[u8], pos: usize) -> (r: Result<(BinXmlValue, usize), TokenError>)
    requires
        in_bounds(buf@, pos as int, 1),
    ensures
        match r {
            Ok((v, next)) => value_token(buf@, pos as int) == Ok::<(ValueModel, int), TokenError>(
                (v@, next as int),
            ) && next <= buf@.len(),
            Err(e) => value_token(buf@, pos as int) == Err::<(ValueModel, int), TokenError>(e),
        },
{
    proof {
        reveal(value_token);
        lemma_buf_len(buf);
    }
    let ty: u8 = match read_u8(buf, pos + 1) {
        Some(t) => t,
        None => {
            return Err(TokenError::UnexpectedEof);
        },
    };
    if ty == TYPE_NULL {
        return Ok((BinXmlValue::Null, pos + 2));
    }
    let w: usize = width_of(ty);
    if w > 0 {
        match decode_value(buf, pos + 2, w, ty) {
            Ok(v) => Ok((v, pos + 2 + w)),
            Err(e) => Err(e),
        }
    } else {
        let n: u16 = match read_u16(buf, pos + 2) {
            Some(n) => n,
            None => {
                return Err(TokenError::UnexpectedEof);
            },
        };
        let len: usize = if ty == TYPE_STRING {
            2 * (n as usize)
        } else {
            n as usize
        };
        match decode_value(buf, pos + 4, len, ty) {
            Ok(v) => Ok((v, pos + 4 + len)),
            Err(e) => Err(e),
        }
    }
}

/// Reads a substitution token.
pub fn read_substitution(buf: &[u8], pos: usize) -> (r: Result<(Placeholder, usize), TokenError>)
    requires
        in_bounds(buf@, pos as int, 1),
    ensures
        match r {
            Ok((p, next)) => substitution(buf@, pos as int) == Ok::<(Placeholder, int), TokenError>(
                (p, next as int),
            ) && next <= buf@.len(),
            Err(e) => substitution(buf@, pos as int) == Err::<(Placeholder, int), TokenError>(e),
        },
{
    proof {
        lemma_buf_len(buf);
    }
    let tag: u8 = buf[pos];
    let index: u16 = match read_u16(buf, pos + 1) {
        Some(i) => i,
        None => {
            return Err(TokenError::UnexpectedEof);
        },
    };
    let ty: u8 = match read_u8(buf, pos + 3) {
        Some(t) => t,
        None => {
            return Err(TokenError::UnexpectedEof);
        },
    };
    Ok((Placeholder { index, ty, optional: kind_of(tag) == TOKEN_OPTIONAL_SUB }, pos + 4))
}

/// Reads an attribute token.
pub fn read_attribute(buf: &[u8], pos: usize, strings: &mut StringCache) -> (r: Result<
    (NodeAttr, usize),
    TokenError,
>)
    requires
        old(strings).wf(buf@),
        in_bounds(buf@, pos as int, 1),
    ensures
        final(strings).wf(buf@),
        final(strings).extends(old(strings)),
        match r {
            Ok((a, next)) => attribute(buf@, pos as int) == Ok::<(NodeAttrModel, int), TokenError>(
                (a@, next as int),
            ) && next <= buf@.len(),
            Err(e) => attribute(buf@, pos as int) == Err::<(NodeAttrModel, int), TokenError>(e),
        },
{
    proof {
        reveal(attribute);
        lemma_buf_len(buf);
    }
    let (name, p) = match read_name(buf, pos + 1, strings) {
        Ok(x) => x,
        Err(e) => {
            return Err(e);
        },
    };
    let tag: u8 = match read_u8(buf, p) {
        Some(t) => t,
        None => {
            return Err(TokenError::UnexpectedEof);
        },
    };
    let k: u8 = kind_of(tag);
    if k == TOKEN_VALUE {
        match read_value_token(buf, p) {
            Ok((v, q)) => Ok((NodeAttr { name, value: Slot::Literal(v) }, q)),
            Err(e) => Err(e),
        }
    } else if k == TOKEN_NORMAL_SUB || k == TOKEN_OPTIONAL_SUB {
        match read_substitution(buf, p) {
            Ok((ph, q)) => Ok((NodeAttr { name, value: Slot::Sub(ph) }, q)),
            Err(e) => Err(e),
        }
    } else if k == TOKEN_STRING_REF {
        match read_name(buf, p + 1, strings) {
            Ok((t, q)) => Ok(
                (NodeAttr { name, value: Slot::Literal(BinXmlValue::Scalar(Scalar::Text(t))) }, q),
            ),
            Err(e) => Err(e),
        }
    } else {
        Err(fault_of(tag))
    }
}

/// Reads a run of attribute tokens.
pub fn read_attributes(buf: &[u8], pos: usize, strings: &mut StringCache) -> (r: Result<
    (Vec<NodeAttr>, usize),
    TokenError,
>)
    requires
        old(strings).wf(buf@),
    ensures
        final(strings).wf(buf@),
        final(strings).extends(old(strings)),
        match r {
            Ok((attrs, next)) => attributes_from(buf@, pos as int, Seq::empty()) == Ok::<
                (Seq<NodeAttrModel>, int),
                TokenError,
            >((attrs.deep_view(), next as int)) && next <= buf@.len(),
            Err(e) => attributes_from(buf@, pos as int, Seq::empty()) == Err::<
                (Seq<NodeAttrModel>, int),
                TokenError,
            >(e),
        },
{
    let mut acc: Vec<NodeAttr> = Vec::new();
    let mut p: usize = pos;
    assert(acc.deep_view() =~= Seq::<NodeAttrModel>::empty());
    loop
        invariant
            strings.wf(buf@),
            strings.extends(old(strings)),
            attributes_from(buf@, p as int, acc.deep_view()) == attributes_from(
                buf@,
                pos as int,
                Seq::empty(),
            ),
        decreases buf@.len() - p,
    {
        let tag: u8 = match read_u8(buf, p) {
            Some(t) => t,
            None => {
                return Err(TokenError::UnexpectedEof);
            },
        };
        if kind_of(tag) != TOKEN_ATTRIBUTE {
            return Ok((acc, p));
        }
        match read_attribute(buf, p, strings) {
            Err(e) => {
                return Err(e);
            },
            Ok((a, q)) => {
                if q <= p || q > buf.len() {
                    return Err(TokenError::UnexpectedEof);
                }
                let ghost before = acc.deep_view();
                let ghost m = a@;
                acc.push(a);
                assert(acc.deep_view() =~= before.push(m));
                p = q;
            },
        }
    }
}

/// Reads the start of an element: its name, its attributes, and whether it
/// is closed at once.
pub fn read_open(buf: &[u8], pos: usize, strings: &mut StringCache) -> (r: Result<
    (Node, bool, usize),
    TokenError,
>)
    requires
        old(strings).wf(buf@),
        in_bounds(buf@, pos as int, 1),
    ensures
        final(strings).wf(buf@),
        final(strings).extends(old(strings)),
        match r {
            Ok((node, empty, next)) => open_element(buf@, pos as int) == Ok::<
                ((NodeModel, bool), int),
                TokenError,
            >(((node@, empty), next as int)) && next <= buf@.len() && node is Open,
            Err(e) => open_element(buf@, pos as int) == Err::<((NodeModel, bool), int), TokenError>(
                e,
            ),
        },
{
    proof {
        reveal(open_element);
        lemma_buf_len(buf);
    }
    let tag: u8 = buf[pos];
    if read_u16(buf, pos + 1).is_none() {
        return Err(TokenError::UnexpectedEof);
    }
    if read_u32(buf, pos + 3).is_none() {
        return Err(TokenError::UnexpectedEof);
    }
    let (name, p) = match read_name(buf, pos + 7, strings) {
        Ok(x) => x,
        Err(e) => {
            return Err(e);
        },
    };
    let (attrs, q) = if (tag / 64) % 2 == 1 {
        if read_u32(buf, p).is_none() {
            return Err(TokenError::UnexpectedEof);
        }
        match read_attributes(buf, p + 4, strings) {
            Ok(x) => x,
            Err(e) => {
                return Err(e);
            },
        }
    } else {
        let none: Vec<NodeAttr> = Vec::new();
        assert(none.deep_view() =~= Seq::<NodeAttrModel>::empty());
        (none, p)
    };
    let close: u8 = match read_u8(buf, q) {
        Some(t) => t,
        None => {
            return Err(TokenError::UnexpectedEof);
        },
    };
    let k: u8 = kind_of(close);
    if k == TOKEN_CLOSE_START {
        Ok((Node::Open { name, attributes: attrs }, false, q + 1))
    } else if k == TOKEN_CLOSE_EMPTY {
        Ok((Node::Open { name, attributes: attrs }, true, q + 1))
    } else {
        Err(fault_of(close))
    }
}

/// Reads a CDATA token.
pub fn read_cdata(buf: &[u8], pos: usize) -> (r: Result<(String, usize), TokenError>)
    requires
        in_bounds(buf@, pos as int, 1),
    ensures
        match r {
            Ok((t, next)) => cdata(buf@, pos as int) == Ok::<(Seq<char>, int), TokenError>(
                (t@, next as int),
            ) && next <= buf@.len(),
            Err(e) => cdata(buf@, pos as int) == Err::<(Seq<char>, int), TokenError>(e),
        },
{
    proof {
        reveal(cdata);
        lemma_buf_len(buf);
    }
    let n: usize = match read_u16(buf, pos + 1) {
        Some(n) => n as usize,
        None => {
            return Err(TokenError::UnexpectedEof);
        },
    };
    if !has_bytes(buf, pos + 3, 2 * n) {
        return Err(TokenError::UnexpectedEof);
    }
    let units: Vec<u16> = read_units(buf, pos + 3, n);
    match decode_utf16(&units) {
        Some(t) => Ok((t, pos + 3 + 2 * n)),
        None => Err(TokenError::MalformedString),
    }
}

/// Skips the data of a processing instruction, or a comment.
pub fn skip_pi_data(buf: &[u8], pos: usize) -> (r: Result<usize, TokenError>)
    requires
        in_bounds(buf@, pos as int, 1),
    ensures
        match r {
            Ok(next) => pi_data(buf@, pos as int) == Ok::<int, TokenError>(next as int) && next
                <= buf@.len(),
            Err(e) => pi_data(buf@, pos as int) == Err::<int, TokenError>(e),
        },
{
    proof {
        lemma_buf_len(buf);
    }
    let n: usize = match read_u16(buf, pos + 1) {
        Some(n) => n as usize,
        None => {
            return Err(TokenError::UnexpectedEof);
        },
    };
    if !has_bytes(buf, pos + 3, 2 * n) {
        return Err(TokenError::UnexpectedEof);
    }
    Ok(pos + 3 + 2 * n)
}

/// Reads the substitution values of a template instance: `count`
/// descriptors at `desc`, and the values' bytes behind them.
pub fn read_values(buf: &[u8], desc: usize, count: usize) -> (r: Result<
    (Vec<BinXmlValue>, usize),
    TokenError,
>)
    requires
        in_bounds(buf@, desc as int, 4 * count),
    ensures
        match r {
            Ok((subs, end)) => values_from(
                buf@,
                desc as int,
                count as int,
                0,
                desc + 4 * count,
                Seq::empty(),
            ) == Ok::<(Seq<ValueModel>, int), TokenError>((subs.deep_view(), end as int)) && end
                <= buf@.len(),
            Err(e) => values_from(
                buf@,
                desc as int,
                count as int,
                0,
                desc + 4 * count,
                Seq::empty(),
            ) == Err::<(Seq<ValueModel>, int), TokenError>(e),
        },
{
    proof {
        lemma_buf_len(buf);
    }
    let mut acc: Vec<BinXmlValue> = Vec::new();
    let mut k: usize = 0;
    let mut data: usize = desc + 4 * count;
    assert(acc.deep_view() =~= Seq::<ValueModel>::empty());
    while k < count
        invariant
            k <= count,
            in_bounds(buf@, desc as int, 4 * count),
            desc + 4 * count <= data <= buf@.len() <= usize::MAX,
            values_from(buf@, desc as int, count as int, k as int, data as int, acc.deep_view())
                == values_from(
                buf@,
                desc as int,
                count as int,
                0,
                desc + 4 * count,
                Seq::empty(),
            ),
        decreases count - k,
    {
        let size: usize = read_u16(buf, desc + 4 * k).unwrap() as usize;
        let ty: u8 = read_u8(buf, desc + 4 * k + 2).unwrap();
        match decode_value(buf, data, size, ty) {
            Err(e) => {
                return Err(e);
            },
            Ok(v) => {
                let ghost before = acc.deep_view();
                let ghost m = v@;
                acc.push(v);
                assert(acc.deep_view() =~= before.push(m));
                data = data + size;
            },
        }
        k = k + 1;
    }
    Ok((acc, data))
}

/// Decodes a token other than a template instance.
pub fn decode_plain(
    buf: &[u8],
    pos: usize,
    depth: usize,
    max_depth: usize,
    strings: &mut StringCache,
) -> (r: Result<Piece, TokenError>)
    requires
        old(strings).wf(buf@),
        in_bounds(buf@, pos as int, 1),
        kind(buf@[pos as int]) != TOKEN_TEMPLATE_INSTANCE,
    ensures
        final(strings).wf(buf@),
        final(strings).extends(old(strings)),
        match r {
            Ok(s) => plain_step(
                buf@,
                max_depth as nat,
                pos as int,
                depth as nat,
                buf@[pos as int],
            ) == Ok::<Step, TokenError>(s@) && fits(s@.nodes, depth as int, s.depth as int)
                && s.next <= buf@.len(),
            Err(e) => plain_step(
                buf@,
                max_depth as nat,
                pos as int,
                depth as nat,
                buf@[pos as int],
            ) == Err::<Step, TokenError>(e),
        },
{
    proof {
        reveal(plain_step);
        lemma_buf_len(buf);
        reveal_with_fuel(depth_after, 3);
    }
    let tag: u8 = buf[pos];
    let k: u8 = kind_of(tag);
    if k == TOKEN_OPEN_START {
        if depth >= max_depth {
            return Err(TokenError::ExcessiveNesting);
        }
        match read_open(buf, pos, strings) {
            Err(e) => Err(e),
            Ok((node, empty, p)) => {
                let mut nodes: Vec<Node> = Vec::new();
                let ghost m = node@;
                nodes.push(node);
                if empty {
                    nodes.push(Node::Close);
                    assert(nodes.deep_view() =~= seq![m, NodeModel::Close]);
                    Ok(Piece { nodes, next: p, depth })
                } else {
                    assert(nodes.deep_view() =~= seq![m]);
                    Ok(Piece { nodes, next: p, depth: depth + 1 })
                }
            },
        }
    } else if depth == 0 {
        if k == TOKEN_FRAGMENT_HEADER {
            if has_bytes(buf, pos, 4) {
                let nodes: Vec<Node> = Vec::new();
                assert(nodes.deep_view() =~= Seq::<NodeModel>::empty());
                Ok(Piece { nodes, next: pos + 4, depth: 0 })
            } else {
                Err(TokenError::UnexpectedEof)
            }
        } else {
            Err(fault_of(tag))
        }
    } else if k == TOKEN_END_ELEMENT {
        let mut nodes: Vec<Node> = Vec::new();
        nodes.push(Node::Close);
        assert(nodes.deep_view() =~= seq![NodeModel::Close]);
        Ok(Piece { nodes, next: pos + 1, depth: depth - 1 })
    } else if k == TOKEN_VALUE {
        match read_value_token(buf, pos) {
            Err(e) => Err(e),
            Ok((v, p)) => {
                let mut nodes: Vec<Node> = Vec::new();
                let n = Node::Chars(v.render());
                nodes.push(n);
                assert(nodes.deep_view() =~= seq![n@]);
                Ok(Piece { nodes, next: p, depth })
            },
        }
    } else if k == TOKEN_NORMAL_SUB || k == TOKEN_OPTIONAL_SUB {
        match read_substitution(buf, pos) {
            Err(e) => Err(e),
            Ok((ph, p)) => {
                let mut nodes: Vec<Node> = Vec::new();
                nodes.push(Node::Sub(ph));
                assert(nodes.deep_view() =~= seq![NodeModel::Sub(ph)]);
                Ok(Piece { nodes, next: p, depth })
            },
        }
    } else if k == TOKEN_CDATA {
        match read_cdata(buf, pos) {
            Err(e) => Err(e),
            Ok((t, p)) => {
                let mut nodes: Vec<Node> = Vec::new();
                let n = Node::Chars(t);
                nodes.push(n);
                assert(nodes.deep_view() =~= seq![n@]);
                Ok(Piece { nodes, next: p, depth })
            },
        }
    } else if k == TOKEN_STRING_REF {
        match read_name(buf, pos + 1, strings) {
            Err(e) => Err(e),
            Ok((t, p)) => {
                let mut nodes: Vec<Node> = Vec::new();
                let n = Node::Chars(t);
                nodes.push(n);
                assert(nodes.deep_view() =~= seq![n@]);
                Ok(Piece { nodes, next: p, depth })
            },
        }
    } else if k == TOKEN_PI_TARGET {
        match read_name(buf, pos + 1, strings) {
            Err(e) => Err(e),
            Ok((_, p)) => {
                let nodes: Vec<Node> = Vec::new();
                assert(nodes.deep_view() =~= Seq::<NodeModel>::empty());
                Ok(Piece { nodes, next: p, depth })
            },
        }
    } else if k == TOKEN_PI_DATA || k == TOKEN_COMMENT {
        match skip_pi_data(buf, pos) {
            Err(e) => Err(e),
            Ok(p) => {
                let nodes: Vec<Node> = Vec::new();
                assert(nodes.deep_view() =~= Seq::<NodeModel>::empty());
                Ok(Piece { nodes, next: p, depth })
            },
        }
    } else {
        Err(fault_of(tag))
    }
}

/// Decodes what follows the template reference of the instance at `pos`:
/// reads the substitution values and binds them to the template `t`, whose
/// definition stands at offset `off`.
pub fn finish_instance(buf: &[u8], pos: usize, off: u32, t: &Template) -> (r: Result<
    (Vec<Node>, usize),
    TokenError,
>)
    requires
        in_bounds(buf@, pos as int, 10),
        in_bounds(buf@, off + 24, t.size as int),
    ensures
        match r {
            Ok((nodes, next)) => instance_with(buf@, pos as int, off, t@) == Ok::<
                (Seq<NodeModel>, int),
                TokenError,
            >((nodes.deep_view(), next as int)) && next <= buf@.len() && bind(
                t@.nodes,
                instance_subs(buf@, pos as int, off, t@),
            ) == Ok::<Seq<NodeModel>, TokenError>(nodes.deep_view()),
            Err(e) => instance_with(buf@, pos as int, off, t@) == Err::<
                (Seq<NodeModel>, int),
                TokenError,
            >(e),
        },
{
    proof {
        reveal(instance_with);
        lemma_buf_len(buf);
    }
    let p: usize = if off as usize == pos + 10 {
        pos + 10 + TEMPLATE_HEADER + t.size as usize
    } else {
        pos + 10
    };
    let count: u32 = match read_u32(buf, p) {
        Some(c) => c,
        None => {
            return Err(TokenError::UnexpectedEof);
        },
    };
    proof {
        lemma_le_ranges(buf@, p as int);
    }
    if (buf.len() - (p + 4)) as u64 / 4 < count as u64 {
        return Err(TokenError::UnexpectedEof);
    }
    let (subs, end) = match read_values(buf, p + 4, count as usize) {
        Ok(x) => x,
        Err(e) => {
            return Err(e);
        },
    };
    match bind_nodes(&t.nodes, &subs) {
        Err(e) => Err(e),
        Ok(nodes) => Ok((nodes, end)),
    }
}

/// The substitution values of the instance at `pos`, where they can be read.
pub open spec fn instance_subs(buf: Seq<u8>, pos: int, off: u32, t: TemplateModel) -> Seq<
    ValueModel,
> {
    let p = if off == pos + 10 {
        pos + 10 + 24 + t.size
    } else {
        pos + 10
    };
    match u32_at(buf, p) {
        None => Seq::empty(),
        Some(count) => match values_from(
            buf,
            p + 4,
            count as int,
            0,
            p + 4 + 4 * count,
            Seq::empty(),
        ) {
            Ok((subs, _)) => subs,
            Err(_) => Seq::empty(),
        },
    }
}

/// Whatever is being resolved, as long as no offset of `dom` is, the token
/// at `pos` gives `s`.
pub open spec fn stable_step(env: Env, pos: int, depth: nat, dom: Set<u32>, s: Step) -> bool {
    forall|r: Set<u32>|
        disjoint(r, dom) ==> #[trigger] step(env, pos, depth, r) == Ok::<Step, TokenError>(s)
}

/// Whatever is being resolved, as long as no offset of `dom` is, the token
/// stream from `pos` on gives `res`.
pub open spec fn stable_run(
    env: Env,
    pos: int,
    depth: nat,
    acc: Seq<NodeModel>,
    dom: Set<u32>,
    res: (Seq<NodeModel>, int),
) -> bool {
    forall|r: Set<u32>|
        disjoint(r, dom) ==> #[trigger] run(env, pos, depth, r, acc) == Ok::<
            (Seq<NodeModel>, int),
            TokenError,
        >(res)
}

/// A set that shares nothing with a set shares nothing with its subsets.
pub proof fn lemma_disjoint_subset(r: Set<u32>, small: Set<u32>, big: Set<u32>)
    requires
        disjoint(r, big),
        small.subset_of(big),
    ensures
        disjoint(r, small),
{
    assert forall|o: u32| !(r.contains(o) && small.contains(o)) by {
        if small.contains(o) {
            assert(big.contains(o));
        }
    }
}

/// What extends a cache that extends another extends that other.
pub proof fn lemma_extends_trans(a: &TemplateCache, b: &TemplateCache, c: &TemplateCache)
    requires
        b.extends(a),
        c.extends(b),
    ensures
        c.extends(a),
{
    assert forall|k: u32| #[trigger] a@.contains_key(k) implies c@.contains_key(k) && c@[k]
        == a@[k] by {
        assert(b@.contains_key(k));
    }
}

/// The greatest depth to which the elements of one whole element nest.
pub fn nesting_peak(nodes: &Vec<Node>) -> (r: usize)
    requires
        single_root(nodes.deep_view()),
    ensures
        r == peak(nodes.deep_view(), nodes.len() as int),
{
    let ghost all = nodes.deep_view();
    let mut depth: usize = 0;
    let mut best: usize = 0;
    let mut i: usize = 0;
    while i < nodes.len()
        invariant
            i <= nodes.len(),
            all == nodes.deep_view(),
            single_root(all),
            depth == depth_after(all, i as int),
            best == peak(all, i as int),
            depth <= i,
        decreases nodes.len() - i,
    {
        assert(all[i as int] == nodes[i as int]@);
        assert(depth_after(all, i + 1) >= 0);
        match &nodes[i] {
            Node::Open { .. } => {
                depth = depth + 1;
            },
            Node::Close => {
                depth = depth - 1;
            },
            _ => {},
        }
        if depth > best {
            best = depth;
        }
        i = i + 1;
    }
    best
}

/// Resolves the template definition at `off`, whatever else is being
/// resolved.
pub fn resolve_in(
    buf: &[u8],
    strings: &mut StringCache,
    templates: &mut TemplateCache,
    off: u32,
) -> (r: Result<Arc<Template>, TokenError>)
    requires
        old(strings).wf(buf@),
        old(templates).wf(buf@),
    ensures
        final(strings).wf(buf@),
        final(strings).extends(old(strings)),
        final(templates).wf(buf@),
        final(templates).extends(old(templates)),
        match r {
            Ok(t) => template_at(old(templates).env(buf@), off, old(templates).resolving()) == Ok::<
                TemplateModel,
                TokenError,
            >(t@) && final(templates)@.contains_key(off) && final(templates)@[off] == t@
                && in_bounds(buf@, off + 24, t.size as int),
            Err(e) => template_at(old(templates).env(buf@), off, old(templates).resolving())
                == Err::<TemplateModel, TokenError>(e),
        },
        old(templates)@.contains_key(off) ==> r is Ok && final(templates)@ == old(templates)@
            && final(templates).parses() == old(templates).parses(),
        !old(templates)@.contains_key(off) && !old(templates).resolving().contains(off)
            ==> final(templates).parses() >= bump(old(templates).parses()),
    decreases unresolved(buf@.len(), old(templates).resolving()).len(), 0int, 0int,
{
    let ghost env = templates.env(buf@);
    let ghost resolving = templates.resolving();
    proof {
        lemma_buf_len(buf);
        lemma_le_ranges(buf@, off as int);
        lemma_le_ranges(buf@, off + 20);
        lemma_template_at(env, off, resolving);
    }
    if templates.is_resolving(off) {
        return Err(TokenError::CyclicTemplate);
    }
    match templates.get(off) {
        Some(t) => {
            return Ok(t);
        },
        None => {},
    }
    templates.count_parse();
    let start: usize = off as usize;
    if !has_bytes(buf, start, TEMPLATE_HEADER) {
        return Err(TokenError::MalformedTemplate);
    }
    let next: u32 = read_u32(buf, start).unwrap();
    let guid: Guid = read_guid(buf, start + 4);
    let size: u32 = read_u32(buf, start + 20).unwrap();
    if !has_bytes(buf, start + TEMPLATE_HEADER, size as usize) {
        return Err(TokenError::MalformedTemplate);
    }
    templates.begin(off);
    proof {
        lemma_unresolved_shrinks(buf@.len(), resolving, off);
    }
    let body = decode_run(buf, start + TEMPLATE_HEADER, strings, templates);
    let ghost dom = templates@.dom();
    let ghost mid = templates@;
    templates.end(off);
    proof {
        assert(templates.resolving() =~= resolving);
        assert(!dom.contains(off));
        assert(disjoint(resolving, dom));
    }
    match body {
        Err(e) => Err(e),
        Ok((nodes, end)) => {
            if end > start + TEMPLATE_HEADER + size as usize {
                return Err(TokenError::MalformedTemplate);
            }
            let depth: usize = nesting_peak(&nodes);
            let t: Arc<Template> = Arc::new(Template { next, guid, size, nodes, depth });
            let kept: Arc<Template> = share(&t);
            templates.store(off, kept);
            proof {
                let now = templates@;
                assert(now.dom() =~= dom.insert(off));
                assert(disjoint(resolving.insert(off), dom));
                assert forall|o: u32, r: Set<u32>|
                    now.contains_key(o) && disjoint(r, now.dom()) implies #[trigger] template_at(
                    env,
                    o,
                    r,
                ) == Ok::<TemplateModel, TokenError>(now[o]) by {
                    lemma_disjoint_subset(r, dom, now.dom());
                    if o == off {
                        assert(!r.contains(off));
                        assert(disjoint(r.insert(off), dom));
                        lemma_template_at(env, off, r);
                    } else {
                        assert(mid.contains_key(o));
                    }
                }
                assert forall|o: u32| #[trigger] now.contains_key(o) implies single_root(
                    now[o].nodes,
                ) by {
                    if o != off {
                        assert(mid.contains_key(o));
                    }
                }
                assert(disjoint(resolving, now.dom()));
            }
            Ok(t)
        },
    }
}

/// Decodes the token at `pos`, met at nesting depth `depth`. A template
/// instance is resolved through the cache, its substitution values are read
/// from behind the reference, and they are bound to the template's nodes.
pub fn decode_step(
    buf: &[u8],
    pos: usize,
    depth: usize,
    strings: &mut StringCache,
    templates: &mut TemplateCache,
) -> (r: Result<Piece, TokenError>)
    requires
        old(strings).wf(buf@),
        old(templates).wf(buf@),
        in_bounds(buf@, pos as int, 1),
    ensures
        final(strings).wf(buf@),
        final(strings).extends(old(strings)),
        final(templates).wf(buf@),
        final(templates).extends(old(templates)),
        match r {
            Ok(s) => stable_step(
                old(templates).env(buf@),
                pos as int,
                depth as nat,
                final(templates)@.dom(),
                s@,
            ) && fits(s@.nodes, depth as int, s.depth as int) && s.next <= buf@.len(),
            Err(e) => step(
                old(templates).env(buf@),
                pos as int,
                depth as nat,
                old(templates).resolving(),
            ) == Err::<Step, TokenError>(e),
        },
    decreases unresolved(buf@.len(), old(templates).resolving()).len(), buf@.len() - pos, 1int,
{
    let ghost env = templates.env(buf@);
    let ghost resolving = templates.resolving();
    proof {
        lemma_buf_len(buf);
        lemma_step(env, pos as int, depth as nat, resolving);
        lemma_instance(env, pos as int, depth as nat, resolving);
    }
    let tag: u8 = buf[pos];
    if kind_of(tag) != TOKEN_TEMPLATE_INSTANCE {
        let r = decode_plain(buf, pos, depth, templates.max_depth(), strings);
        proof {
            if r is Ok {
                assert forall|r2: Set<u32>|
                    disjoint(r2, templates@.dom()) implies #[trigger] step(
                    env,
                    pos as int,
                    depth as nat,
                    r2,
                ) == Ok::<Step, TokenError>(r.unwrap()@) by {
                    lemma_step(env, pos as int, depth as nat, r2);
                }
            }
        }
        return r;
    }
    if read_u8(buf, pos + 1).is_none() {
        return Err(TokenError::UnexpectedEof);
    }
    if read_u32(buf, pos + 2).is_none() {
        return Err(TokenError::UnexpectedEof);
    }
    let off: u32 = match read_u32(buf, pos + 6) {
        Some(o) => o,
        None => {
            return Err(TokenError::UnexpectedEof);
        },
    };
    let t: Arc<Template> = match resolve_in(buf, strings, templates, off) {
        Ok(t) => t,
        Err(e) => {
            return Err(e);
        },
    };
    let limit: usize = templates.max_depth();
    if depth > limit || t.depth > limit - depth {
        return Err(TokenError::ExcessiveNesting);
    }
    match finish_instance(buf, pos, off, &t) {
        Err(e) => Err(e),
        Ok((nodes, next)) => {
            let piece = Piece { nodes, next, depth };
            proof {
                lemma_bind_single_root(t@.nodes, instance_subs(buf@, pos as int, off, t@));
                lemma_root_fits(piece@.nodes, depth as int);
                assert forall|r2: Set<u32>|
                    disjoint(r2, templates@.dom()) implies #[trigger] step(
                    env,
                    pos as int,
                    depth as nat,
                    r2,
                ) == Ok::<Step, TokenError>(piece@) by {
                    lemma_step(env, pos as int, depth as nat, r2);
                    lemma_instance(env, pos as int, depth as nat, r2);
                    assert(template_at(env, off, r2) == Ok::<TemplateModel, TokenError>(t@));
                }
            }
            Ok(piece)
        },
    }
}

/// Decodes the token stream that starts at `pos`, whatever is being
/// resolved: the nodes of its one root element, and the position behind its
/// end-of-stream token.
pub fn decode_run(
    buf: &[u8],
    pos: usize,
    strings: &mut StringCache,
    templates: &mut TemplateCache,
) -> (r: Result<(Vec<Node>, usize), TokenError>)
    requires
        old(strings).wf(buf@),
        old(templates).wf(buf@),
    ensures
        final(strings).wf(buf@),
        final(strings).extends(old(strings)),
        final(templates).wf(buf@),
        final(templates).extends(old(templates)),
        match r {
            Ok((nodes, end)) => stable_run(
                old(templates).env(buf@),
                pos as int,
                0,
                Seq::empty(),
                final(templates)@.dom(),
                (nodes.deep_view(), end as int),
            ) && single_root(nodes.deep_view()) && end <= buf@.len(),
            Err(e) => run(
                old(templates).env(buf@),
                pos as int,
                0,
                old(templates).resolving(),
                Seq::empty(),
            ) == Err::<(Seq<NodeModel>, int), TokenError>(e),
        },
    decreases unresolved(buf@.len(), old(templates).resolving()).len(), buf@.len() - pos, 2int,
{
    let ghost env = templates.env(buf@);
    let ghost resolving = templates.resolving();
    let mut acc: Vec<Node> = Vec::new();
    let mut p: usize = pos;
    let mut depth: usize = 0;
    proof {
        lemma_buf_len(buf);
        assert(acc.deep_view() =~= Seq::<NodeModel>::empty());
    }
    loop
        invariant
            strings.wf(buf@),
            strings.extends(old(strings)),
            templates.wf(buf@),
            templates.extends(old(templates)),
            env == old(templates).env(buf@),
            resolving == old(templates).resolving(),
            buf@.len() <= usize::MAX,
            pos <= p,
            open_prefix(acc.deep_view(), depth as int),
            forall|r: Set<u32>|
                disjoint(r, templates@.dom()) ==> #[trigger] run(
                    env,
                    pos as int,
                    0,
                    r,
                    Seq::empty(),
                ) == run(env, p as int, depth as nat, r, acc.deep_view()),
        decreases buf@.len() - p,
    {
        let ghost before = acc.deep_view();
        let ghost dom0 = templates@.dom();
        let ghost snap = *templates;
        proof {
            assert(disjoint(resolving, dom0));
            lemma_run(env, p as int, depth as nat, resolving, before);
        }
        let tag: u8 = match read_u8(buf, p) {
            Some(t) => t,
            None => {
                return Err(TokenError::UnexpectedEof);
            },
        };
        if depth == 0 && acc.len() > 0 {
            if kind_of(tag) == TOKEN_EOF {
                proof {
                    lemma_closed_prefix(before);
                    assert forall|r: Set<u32>| disjoint(r, dom0) implies #[trigger] run(
                        env,
                        pos as int,
                        0,
                        r,
                        Seq::empty(),
                    ) == Ok::<(Seq<NodeModel>, int), TokenError>((before, p + 1)) by {
                        lemma_run(env, p as int, 0, r, before);
                    }
                }
                return Ok((acc, p + 1));
            } else {
                return Err(fault_of(tag));
            }
        }
        let stepped = decode_step(buf, p, depth, strings, templates);
        proof {
            lemma_extends_trans(old(templates), &snap, templates);
        }
        match stepped {
            Err(e) => {
                return Err(e);
            },
            Ok(s) => {
                let ghost piece = s@;
                proof {
                    assert(step(env, p as int, depth as nat, resolving) == Ok::<Step, TokenError>(
                        piece,
                    ));
                }
                if s.next <= p || s.next > buf.len() {
                    return Err(TokenError::UnexpectedEof);
                }
                let next: usize = s.next;
                let deeper: usize = s.depth;
                let mut nodes: Vec<Node> = s.nodes;
                acc.append(&mut nodes);
                proof {
                    assert(acc.deep_view() =~= before + piece.nodes);
                    lemma_extend(before, depth as int, piece.nodes, piece.depth as int);
                    assert forall|r: Set<u32>| disjoint(r, templates@.dom()) implies #[trigger] run(
                        env,
                        pos as int,
                        0,
                        r,
                        Seq::empty(),
                    ) == run(env, piece.next, piece.depth, r, acc.deep_view()) by {
                        lemma_disjoint_subset(r, dom0, templates@.dom());
                        lemma_run(env, p as int, depth as nat, r, before);
                    }
                }
                p = next;
                depth = deeper;
            },
        }
    }
}

/// Decodes the token stream that starts at `pos`, outside any template: the
/// nodes of its one root element, and the position behind its end-of-stream
/// token.
pub fn decode_fragment(
    buf: &[u8],
    pos: usize,
    strings: &mut StringCache,
    templates: &mut TemplateCache,
) -> (r: Result<(Vec<Node>, usize), TokenError>)
    requires
        old(strings).wf(buf@),
        old(templates).wf(buf@),
        old(templates).idle(),
    ensures
        final(strings).wf(buf@),
        final(strings).extends(old(strings)),
        final(templates).wf(buf@),
        final(templates).idle(),
        final(templates).extends(old(templates)),
        match r {
            Ok((nodes, end)) => fragment(old(templates).env(buf@), pos as int) == Ok::<
                (Seq<NodeModel>, int),
                TokenError,
            >((nodes.deep_view(), end as int)) && single_root(nodes.deep_view()) && end
                <= buf@.len(),
            Err(e) => fragment(old(templates).env(buf@), pos as int) == Err::<
                (Seq<NodeModel>, int),
                TokenError,
            >(e),
        },
{
    assert(templates.resolving() =~= Set::<u32>::empty());
    let r = decode_run(buf, pos, strings, templates);
    proof {
        assert(disjoint(Set::<u32>::empty(), templates@.dom()));
    }
    r
}

impl TemplateCache {
    /// The template whose definition stands at `offset`.
    ///
    /// Where the cache holds it, the cached handle is returned, nothing is
    /// parsed and the cache does not change. Otherwise the definition is
    /// parsed from the buffer, once, with every template that it refers to,
    /// and kept; that raises the count of parses, which never falls. A definition that refers to itself, directly or through
    /// other definitions, is a cycle.
    pub fn resolve(&mut self, buf: &[u8], strings: &mut StringCache, offset: u32) -> (r: Result<
        Arc<Template>,
        TokenError,
    >)
        requires
            old(strings).wf(buf@),
            old(self).wf(buf@),
            old(self).idle(),
        ensures
            final(strings).wf(buf@),
            final(strings).extends(old(strings)),
        final(strings).extends(old(strings)),
            final(self).wf(buf@),
            final(self).idle(),
            final(self).extends(old(self)),
            match r {
                Ok(t) => template_at(old(self).env(buf@), offset, Set::empty()) == Ok::<
                    TemplateModel,
                    TokenError,
                >(t@) && final(self)@.contains_key(offset) && final(self)@[offset] == t@,
                Err(e) => template_at(old(self).env(buf@), offset, Set::empty()) == Err::<
                    TemplateModel,
                    TokenError,
                >(e),
            },
            old(self)@.contains_key(offset) ==> r is Ok && final(self)@ == old(self)@,
            old(self)@.contains_key(offset) ==> final(self).parses() == old(self).parses(),
            !old(self)@.contains_key(offset) ==> final(self).parses() >= bump(old(self).parses()),
    {
        assert(self.resolving() =~= Set::<u32>::empty());
        resolve_in(buf, strings, self, offset)
    }
}

} // verus!
