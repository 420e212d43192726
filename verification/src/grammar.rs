//! The BinXml token grammar, as functions of the chunk's bytes.
//!
//! Every token starts with a tag byte: the low six bits give the kind, the
//! next bit says that more data follows (an element has attributes). A token
//! stream holds one root element, given in place or by a template instance,
//! and ends with an end-of-stream token. Inside an element, processing
//! instructions and comments are recognized and passed over. Names and template definitions are
//! referred to by their offset in the chunk, and stand in line where the
//! offset is that of the next byte.

use vstd::prelude::*;
use crate::err::TokenError;
use crate::model::{Placeholder, SlotModel, NodeAttrModel, NodeModel, bind};
use crate::nesting::peak;
use crate::reader::{in_bounds, le_u32, u8_at, u16_at, u32_at};
use crate::render::value_text;
use crate::string_cache::string_at;
use crate::text::utf16_decode;
use crate::value::{
    Guid, ScalarModel, ValueModel, value_at, fixed_width, units_at, guid_at, TYPE_NULL,
    TYPE_STRING,
};

verus! {

/// The end of a token stream.
pub const TOKEN_EOF: u8 = 0x00;
/// The start of an element.
pub const TOKEN_OPEN_START: u8 = 0x01;
/// The end of a start tag whose element has content.
pub const TOKEN_CLOSE_START: u8 = 0x02;
/// The end of a start tag whose element is empty.
pub const TOKEN_CLOSE_EMPTY: u8 = 0x03;
/// The end of an element.
pub const TOKEN_END_ELEMENT: u8 = 0x04;
/// A typed value.
pub const TOKEN_VALUE: u8 = 0x05;
/// An attribute.
pub const TOKEN_ATTRIBUTE: u8 = 0x06;
/// A CDATA section.
pub const TOKEN_CDATA: u8 = 0x07;
/// A comment.
pub const TOKEN_COMMENT: u8 = 0x08;
/// A string given by reference into the string table.
pub const TOKEN_STRING_REF: u8 = 0x09;
/// The target of a processing instruction.
pub const TOKEN_PI_TARGET: u8 = 0x0A;
/// The data of a processing instruction.
pub const TOKEN_PI_DATA: u8 = 0x0B;
/// An instance of a template.
pub const TOKEN_TEMPLATE_INSTANCE: u8 = 0x0C;
/// A placeholder that must be filled.
pub const TOKEN_NORMAL_SUB: u8 = 0x0D;
/// A placeholder that a null value may fill.
pub const TOKEN_OPTIONAL_SUB: u8 = 0x0E;
/// The header of a fragment.
pub const TOKEN_FRAGMENT_HEADER: u8 = 0x0F;

/// The number of bytes of a template definition in front of its body: the
/// offset of the next definition, a GUID, and the size of the body.
pub const TEMPLATE_HEADER: usize = 24;

/// What a decode depends on besides the position: the chunk's bytes and the
/// greatest depth to which elements may nest.
pub struct Env {
    pub buf: Seq<u8>,
    pub max_depth: nat,
}

/// The kind of a token: the low six bits of its tag.
pub open spec fn kind(tag: u8) -> u8 {
    (tag % 64) as u8
}

/// The tag's flag that more data follows.
pub open spec fn has_more(tag: u8) -> bool {
    (tag / 64) % 2 == 1
}

/// The kinds that the grammar knows.
pub open spec fn recognized(k: u8) -> bool {
    k <= 0x0F
}

/// The fault of a token that cannot stand where it was found: unknown if its
/// kind is outside the recognized set, unexpected otherwise.
pub open spec fn token_fault(tag: u8) -> TokenError {
    if recognized(kind(tag)) {
        TokenError::UnexpectedToken
    } else {
        TokenError::UnknownToken
    }
}

/// A name reference at `pos`: the offset of a string entry. Where the entry
/// stands in line, right behind the offset, the stream goes on behind it.
pub open spec fn name_ref(buf: Seq<u8>, pos: int) -> Result<(Seq<char>, int), TokenError> {
    match u32_at(buf, pos) {
        None => Err(TokenError::UnexpectedEof),
        Some(off) => match string_at(buf, off as int) {
            Err(e) => Err(e),
            Ok(entry) => Ok(
                (
                    entry.text,
                    if off == pos + 4 {
                        pos + 4 + entry.size
                    } else {
                        pos + 4
                    },
                ),
            ),
        },
    }
}

/// A value token at `pos`: the tag, a type, and the value. A value of fixed
/// width follows its type directly and the null type has no bytes. Every
/// other value follows a 16-bit length, counted in code units for a string
/// and in bytes otherwise.
#[verifier::opaque]
pub open spec fn value_token(buf: Seq<u8>, pos: int) -> Result<(ValueModel, int), TokenError> {
    match u8_at(buf, pos + 1) {
        None => Err(TokenError::UnexpectedEof),
        Some(ty) => if ty == TYPE_NULL {
            Ok((ValueModel::Null, pos + 2))
        } else if fixed_width(ty) > 0 {
            match value_at(buf, pos + 2, fixed_width(ty), ty) {
                Ok(v) => Ok((v, pos + 2 + fixed_width(ty))),
                Err(e) => Err(e),
            }
        } else {
            match u16_at(buf, pos + 2) {
                None => Err(TokenError::UnexpectedEof),
                Some(n) => {
                    let len = if ty == TYPE_STRING {
                        2 * n
                    } else {
                        n as int
                    };
                    match value_at(buf, pos + 4, len, ty) {
                        Ok(v) => Ok((v, pos + 4 + len)),
                        Err(e) => Err(e),
                    }
                },
            }
        },
    }
}

/// A substitution token at `pos`: the tag, the ordinal, the declared type.
pub open spec fn substitution(buf: Seq<u8>, pos: int) -> Result<(Placeholder, int), TokenError> {
    match (u8_at(buf, pos), u16_at(buf, pos + 1), u8_at(buf, pos + 3)) {
        (Some(tag), Some(index), Some(ty)) => Ok(
            (
                Placeholder { index: index, ty: ty, optional: kind(tag) == TOKEN_OPTIONAL_SUB },
                pos + 4,
            ),
        ),
        _ => Err(TokenError::UnexpectedEof),
    }
}

/// An attribute token at `pos`: the tag, a name reference, and the value: a
/// value token, a substitution token, or a string reference token, which is
/// a tag and a reference into the string table like that of a name.
#[verifier::opaque]
pub open spec fn attribute(buf: Seq<u8>, pos: int) -> Result<(NodeAttrModel, int), TokenError> {
    match name_ref(buf, pos + 1) {
        Err(e) => Err(e),
        Ok((name, p)) => match u8_at(buf, p) {
            None => Err(TokenError::UnexpectedEof),
            Some(tag) => if kind(tag) == TOKEN_VALUE {
                match value_token(buf, p) {
                    Ok((v, q)) => Ok(
                        (NodeAttrModel { name: name, value: SlotModel::Literal(v) }, q),
                    ),
                    Err(e) => Err(e),
                }
            } else if kind(tag) == TOKEN_NORMAL_SUB || kind(tag) == TOKEN_OPTIONAL_SUB {
                match substitution(buf, p) {
                    Ok((ph, q)) => Ok((NodeAttrModel { name: name, value: SlotModel::Sub(ph) }, q)),
                    Err(e) => Err(e),
                }
            } else if kind(tag) == TOKEN_STRING_REF {
                match name_ref(buf, p + 1) {
                    Ok((t, q)) => Ok(
                        (
                            NodeAttrModel {
                                name: name,
                                value: SlotModel::Literal(
                                    ValueModel::Scalar(ScalarModel::Text(t)),
                                ),
                            },
                            q,
                        ),
                    ),
                    Err(e) => Err(e),
                }
            } else {
                Err(token_fault(tag))
            },
        },
    }
}

/// The run of attribute tokens that starts at `pos`, appended to `acc`. It
/// ends in front of the first token of another kind. Every attribute moves
/// the position forward and stays inside the chunk.
pub open spec fn attributes_from(buf: Seq<u8>, pos: int, acc: Seq<NodeAttrModel>) -> Result<
    (Seq<NodeAttrModel>, int),
    TokenError,
>
    decreases buf.len() - pos,
{
    match u8_at(buf, pos) {
        None => Err(TokenError::UnexpectedEof),
        Some(tag) => if kind(tag) != TOKEN_ATTRIBUTE {
            Ok((acc, pos))
        } else {
            match attribute(buf, pos) {
                Err(e) => Err(e),
                Ok((a, p)) => if p <= pos || p > buf.len() {
                    Err(TokenError::UnexpectedEof)
                } else {
                    attributes_from(buf, p, acc.push(a))
                },
            }
        },
    }
}

/// The start of an element at `pos`: the tag, a dependency id, the size of
/// the element's data, a name reference, then, if the tag says that more
/// follows, the size of the attribute list and the attributes, and last the
/// token that closes the start tag. The flag in the result says that this
/// token closed the whole element, which then is empty.
#[verifier::opaque]
pub open spec fn open_element(buf: Seq<u8>, pos: int) -> Result<
    ((NodeModel, bool), int),
    TokenError,
> {
    match (u8_at(buf, pos), u16_at(buf, pos + 1), u32_at(buf, pos + 3)) {
        (Some(tag), Some(_), Some(_)) => match name_ref(buf, pos + 7) {
            Err(e) => Err(e),
            Ok((name, p)) => match (if has_more(tag) {
                match u32_at(buf, p) {
                    None => Err(TokenError::UnexpectedEof),
                    Some(_) => attributes_from(buf, p + 4, Seq::empty()),
                }
            } else {
                Ok((Seq::empty(), p))
            }) {
                Err(e) => Err(e),
                Ok((attrs, q)) => match u8_at(buf, q) {
                    None => Err(TokenError::UnexpectedEof),
                    Some(close) => if kind(close) == TOKEN_CLOSE_START {
                        Ok(((NodeModel::Open { name: name, attributes: attrs }, false), q + 1))
                    } else if kind(close) == TOKEN_CLOSE_EMPTY {
                        Ok(((NodeModel::Open { name: name, attributes: attrs }, true), q + 1))
                    } else {
                        Err(token_fault(close))
                    },
                },
            },
        },
        _ => Err(TokenError::UnexpectedEof),
    }
}

/// A CDATA token at `pos`: the tag, a count of code units, the code units.
#[verifier::opaque]
pub open spec fn cdata(buf: Seq<u8>, pos: int) -> Result<(Seq<char>, int), TokenError> {
    match u16_at(buf, pos + 1) {
        None => Err(TokenError::UnexpectedEof),
        Some(n) => if !in_bounds(buf, pos + 3, 2 * n) {
            Err(TokenError::UnexpectedEof)
        } else {
            match utf16_decode(units_at(buf, pos + 3, n as int)) {
                Some(t) => Ok((t, pos + 3 + 2 * n)),
                None => Err(TokenError::MalformedString),
            }
        },
    }
}

/// The position behind the target of a processing instruction at `pos`: the
/// tag and a name reference.
pub open spec fn pi_target(buf: Seq<u8>, pos: int) -> Result<int, TokenError> {
    match name_ref(buf, pos + 1) {
        Ok((_, p)) => Ok(p),
        Err(e) => Err(e),
    }
}

/// The position behind the data of a processing instruction, or behind a
/// comment, at `pos`: the tag, a count of code units, the code units.
pub open spec fn pi_data(buf: Seq<u8>, pos: int) -> Result<int, TokenError> {
    match u16_at(buf, pos + 1) {
        None => Err(TokenError::UnexpectedEof),
        Some(n) => if !in_bounds(buf, pos + 3, 2 * n) {
            Err(TokenError::UnexpectedEof)
        } else {
            Ok(pos + 3 + 2 * n)
        },
    }
}

/// The substitution values of a template instance from the `k`-th on,
/// appended to `acc`. The descriptors stand at `desc`, four bytes each: a
/// byte length and a type. The `k`-th value's bytes start at `data`.
pub open spec fn values_from(
    buf: Seq<u8>,
    desc: int,
    count: int,
    k: int,
    data: int,
    acc: Seq<ValueModel>,
) -> Result<(Seq<ValueModel>, int), TokenError>
    decreases count - k,
{
    if k < 0 || k >= count {
        Ok((acc, data))
    } else {
        match (u16_at(buf, desc + 4 * k), u8_at(buf, desc + 4 * k + 2)) {
            (Some(size), Some(ty)) => match value_at(buf, data, size as int, ty) {
                Err(e) => Err(e),
                Ok(v) => values_from(buf, desc, count, k + 1, data + size, acc.push(v)),
            },
            _ => Err(TokenError::UnexpectedEof),
        }
    }
}

/// A parsed template definition.
pub struct TemplateModel {
    /// The offset of the next definition in the same bucket.
    pub next: u32,
    /// The GUID of the template. Its first field is the template's id.
    pub guid: Guid,
    /// The declared size of the body in bytes.
    pub size: u32,
    /// The body's tokens.
    pub nodes: Seq<NodeModel>,
    /// The greatest depth to which the body's elements nest.
    pub depth: nat,
}

/// The offsets of the chunk that are not being resolved.
pub open spec fn unresolved(len: nat, resolving: Set<u32>) -> Set<int> {
    Set::new(|o: int| 0 <= o < len && !resolving.contains(o as u32))
}

/// Resolving one more offset leaves fewer offsets that are not being
/// resolved.
pub proof fn lemma_unresolved_shrinks(len: nat, resolving: Set<u32>, off: u32)
    requires
        off < len,
        !resolving.contains(off),
    ensures
        unresolved(len, resolving.insert(off)).len() < unresolved(len, resolving).len(),
{
    let a = unresolved(len, resolving);
    let b = unresolved(len, resolving.insert(off));
    let all = vstd::set_lib::set_int_range(0, len as int);
    vstd::set_lib::lemma_int_range(0, len as int);
    assert(a.subset_of(all));
    vstd::set_lib::lemma_len_subset(a, all);
    assert(a.contains(off as int));
    assert(b.subset_of(a.remove(off as int)));
    vstd::set_lib::lemma_len_subset(b, a.remove(off as int));
}

/// What one token adds: nodes, the position behind it, and the depth of
/// nesting after it.
pub struct Step {
    pub nodes: Seq<NodeModel>,
    pub next: int,
    pub depth: nat,
}

/// The template definition at offset `off`, while the definitions at the
/// offsets in `resolving` are being resolved.
///
/// A definition that is being resolved cannot be resolved again: that is a
/// cycle. The body is a token stream of its own, which must end within the
/// declared size.
#[verifier::opaque]
pub open spec fn template_at(env: Env, off: u32, resolving: Set<u32>) -> Result<
    TemplateModel,
    TokenError,
>
    decreases unresolved(env.buf.len(), resolving).len(), 0int, 0int,
{
    if resolving.contains(off) {
        Err(TokenError::CyclicTemplate)
    } else if !in_bounds(env.buf, off as int, 24) {
        Err(TokenError::MalformedTemplate)
    } else if !in_bounds(env.buf, off + 24, le_u32(env.buf, off + 20)) {
        Err(TokenError::MalformedTemplate)
    } else {
        proof {
            lemma_unresolved_shrinks(env.buf.len(), resolving, off);
        }
        match run(env, off + 24, 0, resolving.insert(off), Seq::empty()) {
            Err(e) => Err(e),
            Ok((nodes, end)) => if end > off + 24 + le_u32(env.buf, off + 20) {
                Err(TokenError::MalformedTemplate)
            } else {
                Ok(
                    TemplateModel {
                        next: le_u32(env.buf, off as int) as u32,
                        guid: guid_at(env.buf, off + 4),
                        size: le_u32(env.buf, off + 20) as u32,
                        nodes: nodes,
                        depth: peak(nodes, nodes.len() as int) as nat,
                    },
                )
            },
        }
    }
}

/// What follows the template reference of the instance at `pos`, where the
/// reference is to the definition `t` at offset `off`: the number of
/// substitution values, their descriptors, and their bytes. The definition
/// stands in line, and is passed over, where `off` is the offset of the byte
/// behind the reference. The result is the template's nodes with the values
/// bound.
#[verifier::opaque]
pub open spec fn instance_with(buf: Seq<u8>, pos: int, off: u32, t: TemplateModel) -> Result<
    (Seq<NodeModel>, int),
    TokenError,
> {
    let p = if off == pos + 10 {
        pos + 10 + 24 + t.size
    } else {
        pos + 10
    };
    match u32_at(buf, p) {
        None => Err(TokenError::UnexpectedEof),
        Some(count) => if !in_bounds(buf, p + 4, 4 * count) {
            Err(TokenError::UnexpectedEof)
        } else {
            match values_from(buf, p + 4, count as int, 0, p + 4 + 4 * count, Seq::empty()) {
                Err(e) => Err(e),
                Ok((subs, end)) => match bind(t.nodes, subs) {
                    Err(e) => Err(e),
                    Ok(nodes) => Ok((nodes, end)),
                },
            }
        },
    }
}

/// A template instance at `pos`, met at nesting depth `depth`: the tag, one
/// byte, the template's id, the offset of its definition, and what follows.
/// The template's elements count towards the depth of nesting: an instance
/// that would nest deeper than the maximum is refused.
#[verifier::opaque]
pub open spec fn instance(env: Env, pos: int, depth: nat, resolving: Set<u32>) -> Result<
    (Seq<NodeModel>, int),
    TokenError,
>
    decreases unresolved(env.buf.len(), resolving).len(), env.buf.len() - pos, 0int,
{
    match (u8_at(env.buf, pos + 1), u32_at(env.buf, pos + 2), u32_at(env.buf, pos + 6)) {
        (Some(_), Some(_), Some(off)) => match template_at(env, off, resolving) {
            Err(e) => Err(e),
            Ok(t) => if depth + t.depth > env.max_depth {
                Err(TokenError::ExcessiveNesting)
            } else {
                instance_with(env.buf, pos, off, t)
            },
        },
        _ => Err(TokenError::UnexpectedEof),
    }
}

/// A token other than a template instance: the token with tag `tag` at
/// `pos`, met at nesting depth `depth`.
///
/// Outside any element only a fragment header and the start of an element
/// may stand. An element may start only while the depth is below the
/// maximum. Inside an element a value, a CDATA section and a string
/// reference are character content, a substitution is a placeholder, and a
/// processing instruction and a comment are passed over.
#[verifier::opaque]
pub open spec fn plain_step(buf: Seq<u8>, max_depth: nat, pos: int, depth: nat, tag: u8) -> Result<
    Step,
    TokenError,
> {
    let k = kind(tag);
    if k == TOKEN_OPEN_START {
        if depth >= max_depth {
            Err(TokenError::ExcessiveNesting)
        } else {
            match open_element(buf, pos) {
                Err(e) => Err(e),
                Ok(((node, empty), p)) => if empty {
                    Ok(Step { nodes: seq![node, NodeModel::Close], next: p, depth: depth })
                } else {
                    Ok(Step { nodes: seq![node], next: p, depth: depth + 1 })
                },
            }
        }
    } else if depth == 0 {
        if k == TOKEN_FRAGMENT_HEADER {
            if in_bounds(buf, pos, 4) {
                Ok(Step { nodes: Seq::empty(), next: pos + 4, depth: 0 })
            } else {
                Err(TokenError::UnexpectedEof)
            }
        } else {
            Err(token_fault(tag))
        }
    } else if k == TOKEN_END_ELEMENT {
        Ok(Step { nodes: seq![NodeModel::Close], next: pos + 1, depth: (depth - 1) as nat })
    } else if k == TOKEN_VALUE {
        match value_token(buf, pos) {
            Err(e) => Err(e),
            Ok((v, p)) => Ok(
                Step { nodes: seq![NodeModel::Chars(value_text(v))], next: p, depth: depth },
            ),
        }
    } else if k == TOKEN_NORMAL_SUB || k == TOKEN_OPTIONAL_SUB {
        match substitution(buf, pos) {
            Err(e) => Err(e),
            Ok((ph, p)) => Ok(Step { nodes: seq![NodeModel::Sub(ph)], next: p, depth: depth }),
        }
    } else if k == TOKEN_CDATA {
        match cdata(buf, pos) {
            Err(e) => Err(e),
            Ok((t, p)) => Ok(Step { nodes: seq![NodeModel::Chars(t)], next: p, depth: depth }),
        }
    } else if k == TOKEN_STRING_REF {
        match name_ref(buf, pos + 1) {
            Err(e) => Err(e),
            Ok((t, p)) => Ok(Step { nodes: seq![NodeModel::Chars(t)], next: p, depth: depth }),
        }
    } else if k == TOKEN_PI_TARGET {
        match pi_target(buf, pos) {
            Err(e) => Err(e),
            Ok(p) => Ok(Step { nodes: Seq::empty(), next: p, depth: depth }),
        }
    } else if k == TOKEN_PI_DATA || k == TOKEN_COMMENT {
        match pi_data(buf, pos) {
            Err(e) => Err(e),
            Ok(p) => Ok(Step { nodes: Seq::empty(), next: p, depth: depth }),
        }
    } else {
        Err(token_fault(tag))
    }
}

/// The token at `pos`, met at nesting depth `depth`: a template instance,
/// which gives one whole element, or another token.
#[verifier::opaque]
pub open spec fn step(env: Env, pos: int, depth: nat, resolving: Set<u32>) -> Result<
    Step,
    TokenError,
>
    decreases unresolved(env.buf.len(), resolving).len(), env.buf.len() - pos, 1int,
{
    match u8_at(env.buf, pos) {
        None => Err(TokenError::UnexpectedEof),
        Some(tag) => if kind(tag) == TOKEN_TEMPLATE_INSTANCE {
            match instance(env, pos, depth, resolving) {
                Err(e) => Err(e),
                Ok((nodes, p)) => Ok(Step { nodes: nodes, next: p, depth: depth }),
            }
        } else {
            plain_step(env.buf, env.max_depth, pos, depth, tag)
        },
    }
}

/// The token stream from `pos` on, at nesting depth `depth`, with the nodes
/// decoded so far in `acc`: the nodes of the whole stream and the position
/// behind its end-of-stream token.
///
/// Once the root element is closed only the end of the stream may follow.
/// Every token moves the position forward and stays inside the chunk.
#[verifier::opaque]
pub open spec fn run(
    env: Env,
    pos: int,
    depth: nat,
    resolving: Set<u32>,
    acc: Seq<NodeModel>,
) -> Result<(Seq<NodeModel>, int), TokenError>
    decreases unresolved(env.buf.len(), resolving).len(), env.buf.len() - pos, 2int,
{
    match u8_at(env.buf, pos) {
        None => Err(TokenError::UnexpectedEof),
        Some(tag) => if depth == 0 && acc.len() > 0 {
            if kind(tag) == TOKEN_EOF {
                Ok((acc, pos + 1))
            } else {
                Err(token_fault(tag))
            }
        } else {
            match step(env, pos, depth, resolving) {
                Err(e) => Err(e),
                Ok(s) => if s.next <= pos || s.next > env.buf.len() {
                    Err(TokenError::UnexpectedEof)
                } else {
                    run(env, s.next, s.depth, resolving, acc + s.nodes)
                },
            }
        },
    }
}

/// How `template_at` goes, case by case.
pub proof fn lemma_template_at(env: Env, off: u32, resolving: Set<u32>)
    ensures
        resolving.contains(off) ==> template_at(env, off, resolving) == Err::<
            TemplateModel,
            TokenError,
        >(TokenError::CyclicTemplate),
        !resolving.contains(off) && !(in_bounds(env.buf, off as int, 24) && in_bounds(
            env.buf,
            off + 24,
            le_u32(env.buf, off + 20),
        )) ==> template_at(env, off, resolving) == Err::<TemplateModel, TokenError>(
            TokenError::MalformedTemplate,
        ),
        !resolving.contains(off) && in_bounds(env.buf, off as int, 24) && in_bounds(
            env.buf,
            off + 24,
            le_u32(env.buf, off + 20),
        ) ==> template_at(env, off, resolving) == (match run(
            env,
            off + 24,
            0,
            resolving.insert(off),
            Seq::empty(),
        ) {
            Err(e) => Err::<TemplateModel, TokenError>(e),
            Ok((nodes, end)) => if end > off + 24 + le_u32(env.buf, off + 20) {
                Err(TokenError::MalformedTemplate)
            } else {
                Ok(
                    TemplateModel {
                        next: le_u32(env.buf, off as int) as u32,
                        guid: guid_at(env.buf, off + 4),
                        size: le_u32(env.buf, off + 20) as u32,
                        nodes: nodes,
                        depth: peak(nodes, nodes.len() as int) as nat,
                    },
                )
            },
        }),
{
    reveal_with_fuel(template_at, 2);
    reveal_with_fuel(instance, 2);
    reveal_with_fuel(step, 2);
    reveal_with_fuel(run, 2);
}

/// How `instance` goes, case by case.
pub proof fn lemma_instance(env: Env, pos: int, depth: nat, resolving: Set<u32>)
    ensures
        u8_at(env.buf, pos + 1) is None || u32_at(env.buf, pos + 2) is None || u32_at(
            env.buf,
            pos + 6,
        ) is None ==> instance(env, pos, depth, resolving) == Err::<
            (Seq<NodeModel>, int),
            TokenError,
        >(TokenError::UnexpectedEof),
        u8_at(env.buf, pos + 1) is Some && u32_at(env.buf, pos + 2) is Some && u32_at(
            env.buf,
            pos + 6,
        ) is Some ==> instance(env, pos, depth, resolving) == (match template_at(
            env,
            u32_at(env.buf, pos + 6).unwrap(),
            resolving,
        ) {
            Err(e) => Err::<(Seq<NodeModel>, int), TokenError>(e),
            Ok(t) => if depth + t.depth > env.max_depth {
                Err(TokenError::ExcessiveNesting)
            } else {
                instance_with(env.buf, pos, u32_at(env.buf, pos + 6).unwrap(), t)
            },
        }),
{
    reveal_with_fuel(template_at, 2);
    reveal_with_fuel(instance, 2);
    reveal_with_fuel(step, 2);
    reveal_with_fuel(run, 2);
}

/// How `step` goes, case by case.
pub proof fn lemma_step(env: Env, pos: int, depth: nat, resolving: Set<u32>)
    ensures
        u8_at(env.buf, pos) is None ==> step(env, pos, depth, resolving) == Err::<Step, TokenError>(
            TokenError::UnexpectedEof,
        ),
        u8_at(env.buf, pos) is Some && kind(u8_at(env.buf, pos).unwrap())
            != TOKEN_TEMPLATE_INSTANCE ==> step(env, pos, depth, resolving) == plain_step(
            env.buf,
            env.max_depth,
            pos,
            depth,
            u8_at(env.buf, pos).unwrap(),
        ),
        u8_at(env.buf, pos) is Some && kind(u8_at(env.buf, pos).unwrap())
            == TOKEN_TEMPLATE_INSTANCE ==> step(env, pos, depth, resolving) == (match instance(
            env,
            pos,
            depth,
            resolving,
        ) {
            Err(e) => Err::<Step, TokenError>(e),
            Ok((nodes, p)) => Ok(Step { nodes: nodes, next: p, depth: depth }),
        }),
{
    reveal_with_fuel(template_at, 2);
    reveal_with_fuel(instance, 2);
    reveal_with_fuel(step, 2);
    reveal_with_fuel(run, 2);
}

/// How `run` goes, case by case.
pub proof fn lemma_run(env: Env, pos: int, depth: nat, resolving: Set<u32>, acc: Seq<NodeModel>)
    ensures
        u8_at(env.buf, pos) is None ==> run(env, pos, depth, resolving, acc) == Err::<
            (Seq<NodeModel>, int),
            TokenError,
        >(TokenError::UnexpectedEof),
        u8_at(env.buf, pos) is Some && depth == 0 && acc.len() > 0 ==> run(
            env,
            pos,
            depth,
            resolving,
            acc,
        ) == (if kind(u8_at(env.buf, pos).unwrap()) == TOKEN_EOF {
            Ok::<(Seq<NodeModel>, int), TokenError>((acc, pos + 1))
        } else {
            Err(token_fault(u8_at(env.buf, pos).unwrap()))
        }),
        u8_at(env.buf, pos) is Some && !(depth == 0 && acc.len() > 0) ==> run(
            env,
            pos,
            depth,
            resolving,
            acc,
        ) == (match step(env, pos, depth, resolving) {
            Err(e) => Err::<(Seq<NodeModel>, int), TokenError>(e),
            Ok(s) => if s.next <= pos || s.next > env.buf.len() {
                Err(TokenError::UnexpectedEof)
            } else {
                run(env, s.next, s.depth, resolving, acc + s.nodes)
            },
        }),
{
    reveal_with_fuel(template_at, 2);
    reveal_with_fuel(instance, 2);
    reveal_with_fuel(step, 2);
    reveal_with_fuel(run, 2);
}

/// The nodes of the token stream that starts at `pos`, outside any template.
pub open spec fn fragment(env: Env, pos: int) -> Result<(Seq<NodeModel>, int), TokenError> {
    run(env, pos, 0, Set::empty(), Seq::empty())
}

} // verus!
