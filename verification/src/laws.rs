//! What holds of the decoder as a whole, proved from the definitions.

use vstd::prelude::*;
use crate::chunk::{chunk_magic, chunk_open, chunk_records, records_end};
use crate::err::{ChunkError, EvtxError, RecordError, TokenError};
use crate::json::{json_doc, json_fold};
use crate::grammar::{
    Env, TemplateModel, kind, unresolved, lemma_unresolved_shrinks, template_at, instance,
    instance_with, plain_step, step, run, fragment, open_element, lemma_template_at,
    lemma_instance, lemma_step, lemma_run, TOKEN_TEMPLATE_INSTANCE, TOKEN_FRAGMENT_HEADER,
};
use crate::model::{
    CallModel, NodeModel, NodeAttrModel, SlotModel, bind, bind_node, bind_attrs_from, bind_slot,
};
use crate::nesting::{
    depth_after, call_depth, single_root, open_prefix, fits, well_nested, bounded, within,
    calls_bounded, lemma_extend, lemma_closed_prefix, lemma_root_fits, lemma_bind_single_root,
    lemma_bind_from, lemma_bind_peak, lemma_peak_bounds, lemma_document_well_nested,
    lemma_extend_bounded, lemma_document_bounded,
};
use crate::parser::{
    chunk_bytes, chunk_count, chunks_from, file_header_at, file_records, lemma_entries_concat,
};
use crate::reader::{in_bounds, le_u32, u8_at, u32_at};
use crate::record::{
    Entry, RecordModel, RecordResult, entries_view, payload_calls, record_header_at, records_from,
};
use crate::reorder::{answered, complete, in_order, part_of};
use crate::settings::ParserSettings;
use crate::value::ValueModel;
use crate::xml_output::xml_fold;

verus! {

// ---------------------------------------------------------------------------
// Every decoded record is one well-nested root element
// ---------------------------------------------------------------------------

/// A token other than a template instance fits the depth at which it
/// stands.
pub proof fn lemma_plain_fits(buf: Seq<u8>, max_depth: nat, pos: int, depth: nat, tag: u8)
    requires
        plain_step(buf, max_depth, pos, depth, tag) is Ok,
    ensures
        fits(
            plain_step(buf, max_depth, pos, depth, tag).unwrap().nodes,
            depth as int,
            plain_step(buf, max_depth, pos, depth, tag).unwrap().depth as int,
        ),
{
    reveal(plain_step);
    reveal(open_element);
    reveal_with_fuel(depth_after, 3);
}

/// A template's nodes are one whole element.
pub proof fn lemma_template_shape(env: Env, off: u32, resolving: Set<u32>)
    requires
        template_at(env, off, resolving) is Ok,
    ensures
        single_root(template_at(env, off, resolving).unwrap().nodes),
    decreases unresolved(env.buf.len(), resolving).len(), 0int, 0int,
{
    lemma_template_at(env, off, resolving);
    lemma_unresolved_shrinks(env.buf.len(), resolving, off);
    lemma_run_shape(env, off + 24, 0, resolving.insert(off), Seq::empty());
}

/// A template instance gives one whole element.
pub proof fn lemma_instance_shape(env: Env, pos: int, depth: nat, resolving: Set<u32>)
    requires
        instance(env, pos, depth, resolving) is Ok,
    ensures
        single_root(instance(env, pos, depth, resolving).unwrap().0),
    decreases unresolved(env.buf.len(), resolving).len(), env.buf.len() - pos, 0int,
{
    lemma_instance(env, pos, depth, resolving);
    let off = u32_at(env.buf, pos + 6).unwrap();
    lemma_template_shape(env, off, resolving);
    let t = template_at(env, off, resolving).unwrap();
    reveal(instance_with);
    let p = if off == pos + 10 {
        pos + 10 + 24 + t.size
    } else {
        pos + 10
    };
    let count = u32_at(env.buf, p).unwrap();
    let subs = crate::grammar::values_from(
        env.buf,
        p + 4,
        count as int,
        0,
        p + 4 + 4 * count,
        Seq::empty(),
    ).unwrap().0;
    lemma_bind_single_root(t.nodes, subs);
}

/// Every token fits the depth at which it stands.
pub proof fn lemma_step_shape(env: Env, pos: int, depth: nat, resolving: Set<u32>)
    requires
        step(env, pos, depth, resolving) is Ok,
    ensures
        fits(
            step(env, pos, depth, resolving).unwrap().nodes,
            depth as int,
            step(env, pos, depth, resolving).unwrap().depth as int,
        ),
    decreases unresolved(env.buf.len(), resolving).len(), env.buf.len() - pos, 1int,
{
    lemma_step(env, pos, depth, resolving);
    let tag = u8_at(env.buf, pos).unwrap();
    if kind(tag) == TOKEN_TEMPLATE_INSTANCE {
        lemma_instance_shape(env, pos, depth, resolving);
        lemma_root_fits(instance(env, pos, depth, resolving).unwrap().0, depth as int);
    } else {
        lemma_plain_fits(env.buf, env.max_depth, pos, depth, tag);
    }
}

/// A token stream that continues the beginning of one element gives one
/// whole element.
pub proof fn lemma_run_shape(
    env: Env,
    pos: int,
    depth: nat,
    resolving: Set<u32>,
    acc: Seq<NodeModel>,
)
    requires
        open_prefix(acc, depth as int),
        run(env, pos, depth, resolving, acc) is Ok,
    ensures
        single_root(run(env, pos, depth, resolving, acc).unwrap().0),
    decreases unresolved(env.buf.len(), resolving).len(), env.buf.len() - pos, 2int,
{
    lemma_run(env, pos, depth, resolving, acc);
    if depth == 0 && acc.len() > 0 {
        lemma_closed_prefix(acc);
    } else {
        lemma_step_shape(env, pos, depth, resolving);
        let s = step(env, pos, depth, resolving).unwrap();
        lemma_extend(acc, depth as int, s.nodes, s.depth as int);
        lemma_run_shape(env, s.next, s.depth, resolving, acc + s.nodes);
    }
}

/// The visitor calls of every record that decodes are well nested: the
/// start of the stream, exactly one root element in which every element that
/// is opened is closed, and the end of the stream.
pub proof fn lemma_payload_well_nested(env: Env, pos: int, size: int)
    requires
        payload_calls(env, pos, size) is Ok,
    ensures
        well_nested(payload_calls(env, pos, size).unwrap()),
{
    lemma_run_shape(env, pos + 24, 0, Set::empty(), Seq::empty());
    lemma_document_well_nested(fragment(env, pos + 24).unwrap().0);
}

/// Every record among the entries of a chunk's record region is well
/// nested.
pub proof fn lemma_records_well_nested(env: Env, chunk: u64, pos: int, end: int, i: int)
    requires
        0 <= i < records_from(env, chunk, pos, end).len(),
        records_from(env, chunk, pos, end)[i] is Ok,
    ensures
        well_nested(records_from(env, chunk, pos, end)[i].unwrap().calls),
    decreases end - pos,
{
    if pos < end {
        match record_header_at(env.buf, pos, end) {
            Err(_) => {},
            Ok(h) => {
                if i == 0 {
                    lemma_payload_well_nested(env, pos, h.size as int);
                } else {
                    lemma_records_well_nested(env, chunk, pos + h.size, end, i - 1);
                }
            },
        }
    }
}

/// Every record among the entries of the chunks from `i` up to `n` is well
/// nested.
pub proof fn lemma_chunks_well_nested(
    file: Seq<u8>,
    validate: bool,
    max_depth: nat,
    i: int,
    n: int,
    k: int,
)
    requires
        0 <= i,
        0 <= k < chunks_from(file, validate, max_depth, i, n).len(),
        chunks_from(file, validate, max_depth, i, n)[k] is Ok,
    ensures
        well_nested(chunks_from(file, validate, max_depth, i, n)[k].unwrap().calls),
    decreases n - i,
{
    if i < n {
        let buf = chunk_bytes(file, i);
        let first = chunk_records(buf, i as u64, validate, max_depth);
        if k < first.len() {
            match chunk_open(buf, i as u64, validate) {
                Err(_) => {},
                Ok(h) => {
                    lemma_records_well_nested(
                        Env { buf: buf, max_depth: max_depth },
                        i as u64,
                        512,
                        records_end(buf, h.free_space_offset),
                        k,
                    );
                },
            }
        } else {
            lemma_chunks_well_nested(file, validate, max_depth, i + 1, n, k - first.len());
        }
    }
}

/// Every record that a file gives is well nested: its visitor calls are the
/// start of the stream, exactly one root element in which every element
/// that is opened is closed in the order of nesting, and the end of the
/// stream.
pub proof fn lemma_file_records_well_nested(file: Seq<u8>, settings: ParserSettings, k: int)
    requires
        0 <= k < file_records(file, settings).len(),
        file_records(file, settings)[k] is Ok,
    ensures
        well_nested(file_records(file, settings)[k].unwrap().calls),
{
    if file_header_at(file, settings.validate_checksums) is Ok {
        lemma_chunks_well_nested(
            file,
            settings.validate_checksums,
            settings.max_nesting_depth as nat,
            0,
            chunk_count(file.len() as int),
            k,
        );
    }
}

// ---------------------------------------------------------------------------
// No record nests deeper than the limit
// ---------------------------------------------------------------------------

/// A token stays within the depth limit: an element starts only below the
/// limit, and a template instance only where its own depth fits.
pub proof fn lemma_step_within(env: Env, pos: int, depth: nat, resolving: Set<u32>)
    requires
        step(env, pos, depth, resolving) is Ok,
        depth <= env.max_depth,
    ensures
        within(step(env, pos, depth, resolving).unwrap().nodes, depth as int, env.max_depth as int),
{
    lemma_step(env, pos, depth, resolving);
    let tag = u8_at(env.buf, pos).unwrap();
    let piece = step(env, pos, depth, resolving).unwrap().nodes;
    if kind(tag) == TOKEN_TEMPLATE_INSTANCE {
        lemma_instance(env, pos, depth, resolving);
        let off = u32_at(env.buf, pos + 6).unwrap();
        let t = template_at(env, off, resolving).unwrap();
        lemma_template_at(env, off, resolving);
        reveal(instance_with);
        let p = if off == pos + 10 {
            pos + 10 + 24 + t.size
        } else {
            pos + 10
        };
        let count = u32_at(env.buf, p).unwrap();
        let subs = crate::grammar::values_from(
            env.buf,
            p + 4,
            count as int,
            0,
            p + 4 + 4 * count,
            Seq::empty(),
        ).unwrap().0;
        lemma_bind_from(t.nodes, subs, 0, Seq::empty());
        lemma_bind_peak(t.nodes, subs, t.nodes.len() as int);
        lemma_peak_bounds(t.nodes, t.nodes.len() as int, 0);
        assert forall|k: int| 0 <= k <= piece.len() implies depth + #[trigger] depth_after(
            piece,
            k,
        ) <= env.max_depth by {
            lemma_peak_bounds(piece, piece.len() as int, k);
        }
    } else {
        reveal(plain_step);
        reveal(open_element);
        reveal_with_fuel(depth_after, 3);
    }
}

/// A token stream that continues a bounded prefix stays bounded.
pub proof fn lemma_run_bounded(
    env: Env,
    pos: int,
    depth: nat,
    resolving: Set<u32>,
    acc: Seq<NodeModel>,
)
    requires
        open_prefix(acc, depth as int),
        bounded(acc, env.max_depth as int),
        run(env, pos, depth, resolving, acc) is Ok,
    ensures
        bounded(run(env, pos, depth, resolving, acc).unwrap().0, env.max_depth as int),
    decreases env.buf.len() - pos,
{
    lemma_run(env, pos, depth, resolving, acc);
    if !(depth == 0 && acc.len() > 0) {
        let s = step(env, pos, depth, resolving).unwrap();
        assert(depth_after(acc, acc.len() as int) <= env.max_depth);
        lemma_step_shape(env, pos, depth, resolving);
        lemma_step_within(env, pos, depth, resolving);
        lemma_extend(acc, depth as int, s.nodes, s.depth as int);
        lemma_extend_bounded(acc, s.nodes, env.max_depth as int);
        lemma_run_bounded(env, s.next, s.depth, resolving, acc + s.nodes);
    }
}

/// No record that decodes nests deeper than the depth limit.
pub proof fn lemma_payload_bounded(env: Env, pos: int, size: int)
    requires
        payload_calls(env, pos, size) is Ok,
    ensures
        calls_bounded(payload_calls(env, pos, size).unwrap(), env.max_depth as int),
{
    lemma_run_bounded(env, pos + 24, 0, Set::empty(), Seq::empty());
    lemma_document_bounded(fragment(env, pos + 24).unwrap().0, env.max_depth as int);
}

/// No record among the entries of a chunk's record region nests deeper than
/// the depth limit.
pub proof fn lemma_records_bounded(env: Env, chunk: u64, pos: int, end: int, i: int)
    requires
        0 <= i < records_from(env, chunk, pos, end).len(),
        records_from(env, chunk, pos, end)[i] is Ok,
    ensures
        calls_bounded(records_from(env, chunk, pos, end)[i].unwrap().calls, env.max_depth as int),
    decreases end - pos,
{
    if pos < end {
        match record_header_at(env.buf, pos, end) {
            Err(_) => {},
            Ok(h) => {
                if i == 0 {
                    lemma_payload_bounded(env, pos, h.size as int);
                } else {
                    lemma_records_bounded(env, chunk, pos + h.size, end, i - 1);
                }
            },
        }
    }
}

/// No record among the entries of the chunks from `i` up to `n` nests
/// deeper than the depth limit.
pub proof fn lemma_chunks_bounded(
    file: Seq<u8>,
    validate: bool,
    max_depth: nat,
    i: int,
    n: int,
    k: int,
)
    requires
        0 <= i,
        0 <= k < chunks_from(file, validate, max_depth, i, n).len(),
        chunks_from(file, validate, max_depth, i, n)[k] is Ok,
    ensures
        calls_bounded(
            chunks_from(file, validate, max_depth, i, n)[k].unwrap().calls,
            max_depth as int,
        ),
    decreases n - i,
{
    if i < n {
        let buf = chunk_bytes(file, i);
        let first = chunk_records(buf, i as u64, validate, max_depth);
        if k < first.len() {
            match chunk_open(buf, i as u64, validate) {
                Err(_) => {},
                Ok(h) => {
                    lemma_records_bounded(
                        Env { buf: buf, max_depth: max_depth },
                        i as u64,
                        512,
                        records_end(buf, h.free_space_offset),
                        k,
                    );
                },
            }
        } else {
            lemma_chunks_bounded(file, validate, max_depth, i + 1, n, k - first.len());
        }
    }
}

/// No record that a file gives nests deeper than the configured maximum,
/// template instances included.
pub proof fn lemma_file_records_bounded(file: Seq<u8>, settings: ParserSettings, k: int)
    requires
        0 <= k < file_records(file, settings).len(),
        file_records(file, settings)[k] is Ok,
    ensures
        calls_bounded(
            file_records(file, settings)[k].unwrap().calls,
            settings.max_nesting_depth as int,
        ),
{
    if file_header_at(file, settings.validate_checksums) is Ok {
        lemma_chunks_bounded(
            file,
            settings.validate_checksums,
            settings.max_nesting_depth as nat,
            0,
            chunk_count(file.len() as int),
            k,
        );
    }
}

// ---------------------------------------------------------------------------
// Template cycles
// ---------------------------------------------------------------------------

/// A definition that is being resolved cannot be resolved again: the
/// reference is a cycle.
pub proof fn lemma_resolving_is_cyclic(env: Env, off: u32, resolving: Set<u32>)
    requires
        resolving.contains(off),
    ensures
        template_at(env, off, resolving) == Err::<TemplateModel, TokenError>(
            TokenError::CyclicTemplate,
        ),
{
    lemma_template_at(env, off, resolving);
}

/// The token at `pos` is a template instance whose reference can be read
/// and names the definition at `off`.
pub open spec fn refers_to(buf: Seq<u8>, pos: int, off: u32) -> bool {
    &&& u8_at(buf, pos) is Some
    &&& kind(u8_at(buf, pos).unwrap()) == TOKEN_TEMPLATE_INSTANCE
    &&& u8_at(buf, pos + 1) is Some
    &&& u32_at(buf, pos + 2) is Some
    &&& u32_at(buf, pos + 6) == Some(off)
}

/// A template whose body starts with an instance of the template itself is
/// cyclic, whatever else is being resolved.
pub proof fn lemma_self_reference_is_cyclic(env: Env, off: u32, resolving: Set<u32>)
    requires
        in_bounds(env.buf, off as int, 24),
        in_bounds(env.buf, off + 24, le_u32(env.buf, off + 20)),
        refers_to(env.buf, off + 24, off),
    ensures
        template_at(env, off, resolving) == Err::<TemplateModel, TokenError>(
            TokenError::CyclicTemplate,
        ),
{
    lemma_template_at(env, off, resolving);
    if !resolving.contains(off) {
        let inner = resolving.insert(off);
        lemma_run(env, off + 24, 0, inner, Seq::empty());
        lemma_step(env, off + 24, 0, inner);
        lemma_instance(env, off + 24, 0, inner);
        lemma_template_at(env, off, inner);
    }
}

/// The same, where a fragment header stands in front of the instance.
pub proof fn lemma_self_reference_after_header_is_cyclic(env: Env, off: u32, resolving: Set<u32>)
    requires
        in_bounds(env.buf, off as int, 24),
        in_bounds(env.buf, off + 24, le_u32(env.buf, off + 20)),
        in_bounds(env.buf, off + 24, 4),
        kind(env.buf[off + 24]) == TOKEN_FRAGMENT_HEADER,
        refers_to(env.buf, off + 28, off),
    ensures
        template_at(env, off, resolving) == Err::<TemplateModel, TokenError>(
            TokenError::CyclicTemplate,
        ),
{
    lemma_template_at(env, off, resolving);
    if !resolving.contains(off) {
        let inner = resolving.insert(off);
        lemma_run(env, off + 24, 0, inner, Seq::empty());
        lemma_step(env, off + 24, 0, inner);
        reveal(plain_step);
        assert(Seq::<NodeModel>::empty() + Seq::<NodeModel>::empty() =~= Seq::<NodeModel>::empty());
        lemma_run(env, off + 28, 0, inner, Seq::empty());
        lemma_step(env, off + 28, 0, inner);
        lemma_instance(env, off + 28, 0, inner);
        lemma_template_at(env, off, inner);
    }
}

// ---------------------------------------------------------------------------
// Record framing
// ---------------------------------------------------------------------------

/// A record whose two size fields disagree gives one error entry, and no
/// entry of the chunk follows it.
pub proof fn lemma_size_mismatch_ends_chunk(env: Env, chunk: u64, pos: int, end: int)
    requires
        pos < end,
        record_header_at(env.buf, pos, end) == Err::<crate::record::EvtxRecordHeader, RecordError>(
            RecordError::SizeMismatch,
        ),
    ensures
        records_from(env, chunk, pos, end) == seq![
            Err::<RecordModel, EvtxError>(
                EvtxError::Record(chunk, pos as u32, RecordError::SizeMismatch),
            ),
        ],
{
}

/// An error of the record framing is the last entry of its chunk's record
/// region.
pub proof fn lemma_framing_error_is_last(env: Env, chunk: u64, pos: int, end: int, i: int)
    requires
        0 <= i < records_from(env, chunk, pos, end).len(),
        records_from(env, chunk, pos, end)[i] is Err,
        records_from(env, chunk, pos, end)[i]->Err_0 is Record,
    ensures
        i == records_from(env, chunk, pos, end).len() - 1,
    decreases end - pos,
{
    if pos < end {
        match record_header_at(env.buf, pos, end) {
            Err(_) => {},
            Ok(h) => {
                if i > 0 {
                    lemma_framing_error_is_last(env, chunk, pos + h.size, end, i - 1);
                }
            },
        }
    }
}

/// The entries of a record region are records, errors of the record
/// framing and errors of tokens, and nothing else.
pub proof fn lemma_record_entries(env: Env, chunk: u64, pos: int, end: int, i: int)
    requires
        0 <= i < records_from(env, chunk, pos, end).len(),
        records_from(env, chunk, pos, end)[i] is Err,
    ensures
        records_from(env, chunk, pos, end)[i]->Err_0 is Record || records_from(
            env,
            chunk,
            pos,
            end,
        )[i]->Err_0 is Token,
    decreases end - pos,
{
    if pos < end {
        match record_header_at(env.buf, pos, end) {
            Err(_) => {},
            Ok(h) => {
                if i > 0 {
                    lemma_record_entries(env, chunk, pos + h.size, end, i - 1);
                }
            },
        }
    }
}

/// An error after which the rest of a chunk cannot be read is the last entry
/// of its chunk.
pub proof fn lemma_abandoning_error_is_last(
    buf: Seq<u8>,
    chunk: u64,
    validate: bool,
    max_depth: nat,
    i: int,
)
    requires
        0 <= i < chunk_records(buf, chunk, validate, max_depth).len(),
        chunk_records(buf, chunk, validate, max_depth)[i] is Err,
        chunk_records(buf, chunk, validate, max_depth)[i]->Err_0.abandons_chunk(),
    ensures
        i == chunk_records(buf, chunk, validate, max_depth).len() - 1,
{
    match chunk_open(buf, chunk, validate) {
        Err(_) => {},
        Ok(h) => {
            let env = Env { buf: buf, max_depth: max_depth };
            let end = records_end(buf, h.free_space_offset);
            lemma_record_entries(env, chunk, 512, end, i);
            lemma_framing_error_is_last(env, chunk, 512, end, i);
        },
    }
}

/// The entries of the chunks of a file hold no error of the file header.
pub proof fn lemma_chunk_entries(
    file: Seq<u8>,
    validate: bool,
    max_depth: nat,
    i: int,
    n: int,
    k: int,
)
    requires
        0 <= k < chunks_from(file, validate, max_depth, i, n).len(),
        chunks_from(file, validate, max_depth, i, n)[k] is Err,
    ensures
        !chunks_from(file, validate, max_depth, i, n)[k]->Err_0.abandons_file(),
    decreases n - i,
{
    if i < n {
        let buf = chunk_bytes(file, i);
        let first = chunk_records(buf, i as u64, validate, max_depth);
        if k < first.len() {
            match chunk_open(buf, i as u64, validate) {
                Err(_) => {},
                Ok(h) => {
                    lemma_record_entries(
                        Env { buf: buf, max_depth: max_depth },
                        i as u64,
                        512,
                        records_end(buf, h.free_space_offset),
                        k,
                    );
                },
            }
        } else {
            lemma_chunk_entries(file, validate, max_depth, i + 1, n, k - first.len());
        }
    }
}

/// An error after which nothing of the file can be read is the only entry
/// of the file.
pub proof fn lemma_file_error_is_alone(file: Seq<u8>, settings: ParserSettings, k: int)
    requires
        0 <= k < file_records(file, settings).len(),
        file_records(file, settings)[k] is Err,
        file_records(file, settings)[k]->Err_0.abandons_file(),
    ensures
        file_records(file, settings).len() == 1,
{
    if file_header_at(file, settings.validate_checksums) is Ok {
        lemma_chunk_entries(
            file,
            settings.validate_checksums,
            settings.max_nesting_depth as nat,
            0,
            chunk_count(file.len() as int),
            k,
        );
    }
}

// ---------------------------------------------------------------------------
// Chunks
// ---------------------------------------------------------------------------

/// A chunk with a bad magic gives one error entry.
pub proof fn lemma_bad_magic_is_one_entry(buf: Seq<u8>, chunk: u64, validate: bool, max_depth: nat)
    requires
        512 <= buf.len() <= 65536,
        !chunk_magic(buf),
    ensures
        chunk_records(buf, chunk, validate, max_depth) == seq![
            Err::<RecordModel, EvtxError>(EvtxError::ChunkHeader(chunk, ChunkError::BadMagic)),
        ],
{
}

/// The entries of a file from a chunk on are that chunk's entries and then
/// those of the chunks behind it: whatever a chunk gives, be it one error,
/// the chunks behind it are decoded.
pub proof fn lemma_chunk_then_rest(file: Seq<u8>, validate: bool, max_depth: nat, i: int, n: int)
    requires
        i < n,
    ensures
        chunks_from(file, validate, max_depth, i, n) == chunk_records(
            chunk_bytes(file, i),
            i as u64,
            validate,
            max_depth,
        ) + chunks_from(file, validate, max_depth, i + 1, n),
{
}

/// What the chunks from `i` on give depends on their own bytes only: two
/// files that hold the same bytes in these chunks give the same entries for
/// them, whatever stands in the chunks in front.
pub proof fn lemma_chunks_independent(
    a: Seq<u8>,
    b: Seq<u8>,
    validate: bool,
    max_depth: nat,
    i: int,
    n: int,
)
    requires
        forall|j: int| i <= j < n ==> chunk_bytes(a, j) == chunk_bytes(b, j),
    ensures
        chunks_from(a, validate, max_depth, i, n) == chunks_from(b, validate, max_depth, i, n),
    decreases n - i,
{
    if i < n {
        lemma_chunks_independent(a, b, validate, max_depth, i + 1, n);
    }
}

/// Chunks decoded in any order of completion give the entries of the file:
/// where the arrivals hold, each under its chunk's index, what the chunks of
/// a file decode to, putting them in the order of their indices gives what
/// decoding the chunks one after the other gives.
pub proof fn lemma_any_completion_order(
    file: Seq<u8>,
    validate: bool,
    max_depth: nat,
    arrivals: Seq<(usize, Vec<RecordResult>)>,
    i: int,
)
    requires
        0 <= i <= arrivals.len(),
        complete(arrivals),
        forall|k: int|
            0 <= k < arrivals.len() ==> entries_view((#[trigger] arrivals[k]).1@) == chunk_records(
                chunk_bytes(file, arrivals[k].0 as int),
                arrivals[k].0 as u64,
                validate,
                max_depth,
            ),
    ensures
        entries_view(in_order(arrivals, i, arrivals.len() as int)) == chunks_from(
            file,
            validate,
            max_depth,
            i,
            arrivals.len() as int,
        ),
    decreases arrivals.len() - i,
{
    let n = arrivals.len() as int;
    if i < n {
        lemma_any_completion_order(file, validate, max_depth, arrivals, i + 1);
        assert(answered(arrivals, i));
        let k = choose|k: int| 0 <= k < arrivals.len() && (#[trigger] arrivals[k]).0 == i;
        let first = part_of(arrivals, i);
        assert(first == arrivals[k].1@);
        lemma_entries_concat(first, in_order(arrivals, i + 1, n));
    } else {
        assert(entries_view(Seq::<RecordResult>::empty()) =~= Seq::<Entry>::empty());
    }
}

/// The records of a chunk come in the order in which they stand in the
/// chunk: of two records among the entries, the later one stands at the
/// greater offset.
pub proof fn lemma_records_in_offset_order(env: Env, chunk: u64, pos: int, end: int, i: int, j: int)
    requires
        0 <= pos,
        end <= u32::MAX,
        0 <= i < j < records_from(env, chunk, pos, end).len(),
        records_from(env, chunk, pos, end)[i] is Ok,
        records_from(env, chunk, pos, end)[j] is Ok,
    ensures
        records_from(env, chunk, pos, end)[i].unwrap().offset < records_from(
            env,
            chunk,
            pos,
            end,
        )[j].unwrap().offset,
    decreases end - pos,
{
    if pos < end {
        match record_header_at(env.buf, pos, end) {
            Err(_) => {},
            Ok(h) => {
                if i == 0 {
                    lemma_record_offsets(env, chunk, pos + h.size, end, j - 1);
                } else {
                    lemma_records_in_offset_order(env, chunk, pos + h.size, end, i - 1, j - 1);
                }
            },
        }
    }
}

/// A record among the entries of a record region stands inside the region,
/// at the offset that the entry names, in the chunk that the entry names.
pub proof fn lemma_record_offsets(env: Env, chunk: u64, pos: int, end: int, i: int)
    requires
        0 <= pos,
        end <= u32::MAX,
        0 <= i < records_from(env, chunk, pos, end).len(),
        records_from(env, chunk, pos, end)[i] is Ok,
    ensures
        pos <= records_from(env, chunk, pos, end)[i].unwrap().offset < end,
        records_from(env, chunk, pos, end)[i].unwrap().chunk == chunk,
    decreases end - pos,
{
    if pos < end {
        match record_header_at(env.buf, pos, end) {
            Err(_) => {},
            Ok(h) => {
                if i > 0 {
                    lemma_record_offsets(env, chunk, pos + h.size, end, i - 1);
                }
            },
        }
    }
}

/// The entries of a file do not depend on the degree of parallelism.
pub proof fn lemma_thread_count_irrelevant(file: Seq<u8>, a: ParserSettings, b: ParserSettings)
    requires
        a.validate_checksums == b.validate_checksums,
        a.max_nesting_depth == b.max_nesting_depth,
    ensures
        file_records(file, a) == file_records(file, b),
{
}

// ---------------------------------------------------------------------------
// Instantiation
// ---------------------------------------------------------------------------

/// The node holds no placeholder.
pub open spec fn literal(n: NodeModel) -> bool {
    match n {
        NodeModel::Open { attributes, .. } => forall|k: int|
            0 <= k < attributes.len() ==> (#[trigger] attributes[k]).value is Literal,
        NodeModel::Sub(_) => false,
        _ => true,
    }
}

/// Every placeholder of the node takes the same value, or fails in the same
/// way, from both substitution arrays.
pub open spec fn same_values(n: NodeModel, a: Seq<ValueModel>, b: Seq<ValueModel>) -> bool {
    match n {
        NodeModel::Open { attributes, .. } => forall|k: int|
            0 <= k < attributes.len() ==> bind_slot((#[trigger] attributes[k]).value, a)
                == bind_slot(attributes[k].value, b),
        NodeModel::Sub(p) => crate::model::lookup(p, a) == crate::model::lookup(p, b),
        _ => true,
    }
}

/// The two nodes are of one kind, and where they start an element, they
/// start the same element with attributes of the same names.
pub open spec fn same_shape(a: NodeModel, b: NodeModel) -> bool {
    match (a, b) {
        (
            NodeModel::Open { name: n1, attributes: a1 },
            NodeModel::Open { name: n2, attributes: a2 },
        ) => n1 == n2 && a1.len() == a2.len() && forall|k: int|
            0 <= k < a1.len() ==> (#[trigger] a1[k]).name == a2[k].name,
        (NodeModel::Chars(_), NodeModel::Chars(_)) => true,
        (NodeModel::Close, NodeModel::Close) => true,
        _ => false,
    }
}

/// What `bind_attrs_from` returns: the accumulated attributes, then each
/// remaining attribute under its name with its slot bound.
pub proof fn lemma_bind_attrs_from(
    attrs: Seq<NodeAttrModel>,
    subs: Seq<ValueModel>,
    i: int,
    acc: Seq<NodeAttrModel>,
)
    requires
        0 <= i <= attrs.len(),
        bind_attrs_from(attrs, subs, i, acc) is Ok,
    ensures
        bind_attrs_from(attrs, subs, i, acc).unwrap().len() == acc.len() + attrs.len() - i,
        forall|j: int|
            0 <= j < acc.len() ==> #[trigger] bind_attrs_from(attrs, subs, i, acc).unwrap()[j]
                == acc[j],
        forall|j: int|
            i <= j < attrs.len() ==> bind_slot(attrs[j].value, subs) is Ok && (
            #[trigger] bind_attrs_from(attrs, subs, i, acc).unwrap()[acc.len() + j - i])
                == (NodeAttrModel {
                name: attrs[j].name,
                value: SlotModel::Literal(bind_slot(attrs[j].value, subs).unwrap()),
            }),
    decreases attrs.len() - i,
{
    if i < attrs.len() {
        let v = bind_slot(attrs[i].value, subs).unwrap();
        let acc2 = acc.push(NodeAttrModel { name: attrs[i].name, value: SlotModel::Literal(v) });
        lemma_bind_attrs_from(attrs, subs, i + 1, acc2);
        let out = bind_attrs_from(attrs, subs, i, acc).unwrap();
        assert(out == bind_attrs_from(attrs, subs, i + 1, acc2).unwrap());
        assert forall|j: int| 0 <= j < acc.len() implies #[trigger] out[j] == acc[j] by {
            assert(acc2[j] == acc[j]);
        }
        assert forall|j: int| i <= j < attrs.len() implies bind_slot(attrs[j].value, subs) is Ok
            && (#[trigger] out[acc.len() + j - i]) == (NodeAttrModel {
            name: attrs[j].name,
            value: SlotModel::Literal(bind_slot(attrs[j].value, subs).unwrap()),
        }) by {
            if j == i {
                assert(out[acc.len() as int] == acc2[acc.len() as int]);
            } else {
                assert(out[acc2.len() + j - (i + 1)] == out[acc.len() + j - i]);
            }
        }
    }
}

/// Binding keeps the kind of a node, the name of an element and the names
/// of its attributes, whatever the substitution array holds.
pub proof fn lemma_bind_node_shape(n: NodeModel, a: Seq<ValueModel>, b: Seq<ValueModel>)
    requires
        bind_node(n, a) is Ok,
        bind_node(n, b) is Ok,
    ensures
        same_shape(bind_node(n, a).unwrap(), bind_node(n, b).unwrap()),
        same_values(n, a, b) ==> bind_node(n, a) == bind_node(n, b),
        literal(n) ==> bind_node(n, a).unwrap() == n,
{
    match n {
        NodeModel::Open { name, attributes } => {
            lemma_bind_attrs_from(attributes, a, 0, Seq::empty());
            lemma_bind_attrs_from(attributes, b, 0, Seq::empty());
            let x = bind_attrs_from(attributes, a, 0, Seq::empty()).unwrap();
            let y = bind_attrs_from(attributes, b, 0, Seq::empty()).unwrap();
            assert forall|k: int| 0 <= k < x.len() implies (#[trigger] x[k]).name == y[k].name by {
                assert(x[0 + k - 0] == x[k]);
                assert(y[0 + k - 0] == y[k]);
            }
            if same_values(n, a, b) {
                assert forall|k: int| 0 <= k < x.len() implies x[k] == y[k] by {
                    assert(x[0 + k - 0] == x[k]);
                    assert(y[0 + k - 0] == y[k]);
                    assert(bind_slot(attributes[k].value, a) == bind_slot(attributes[k].value, b));
                }
                assert(x =~= y);
            }
            if literal(n) {
                assert forall|k: int| 0 <= k < x.len() implies x[k] == attributes[k] by {
                    assert(x[0 + k - 0] == x[k]);
                    assert(attributes[k].value is Literal);
                }
                assert(x =~= attributes);
            }
        },
        _ => {},
    }
}

/// Two instantiations of one template differ only in the substituted
/// values: they have the template's length; node for node they are of the
/// same kind, with the same element and attribute names; a node of the
/// template without placeholder stands unchanged in both; and a node whose
/// placeholders take the same values from both arrays is the same in both.
pub proof fn lemma_instantiations_differ_only_in_values(
    nodes: Seq<NodeModel>,
    a: Seq<ValueModel>,
    b: Seq<ValueModel>,
)
    requires
        bind(nodes, a) is Ok,
        bind(nodes, b) is Ok,
    ensures
        bind(nodes, a).unwrap().len() == nodes.len(),
        bind(nodes, b).unwrap().len() == nodes.len(),
        forall|i: int|
            0 <= i < nodes.len() ==> same_shape(
                #[trigger] bind(nodes, a).unwrap()[i],
                bind(nodes, b).unwrap()[i],
            ),
        forall|i: int|
            0 <= i < nodes.len() && literal(nodes[i]) ==> (#[trigger] bind(nodes, a).unwrap()[i])
                == nodes[i] && bind(nodes, b).unwrap()[i] == nodes[i],
        forall|i: int|
            0 <= i < nodes.len() && same_values(nodes[i], a, b) ==> (#[trigger] bind(
                nodes,
                a,
            ).unwrap()[i]) == bind(nodes, b).unwrap()[i],
{
    lemma_bind_from(nodes, a, 0, Seq::empty());
    lemma_bind_from(nodes, b, 0, Seq::empty());
    let x = bind(nodes, a).unwrap();
    let y = bind(nodes, b).unwrap();
    assert forall|i: int| 0 <= i < nodes.len() implies same_shape(#[trigger] x[i], y[i]) && (
    literal(nodes[i]) ==> x[i] == nodes[i] && y[i] == nodes[i]) && (same_values(nodes[i], a, b)
        ==> x[i] == y[i]) by {
        assert(x[0 + i - 0] == x[i]);
        assert(y[0 + i - 0] == y[i]);
        lemma_bind_node_shape(nodes[i], a, b);
        lemma_bind_node_shape(nodes[i], b, a);
    }
}

// ---------------------------------------------------------------------------
// Output
// ---------------------------------------------------------------------------

/// While no prefix of the calls closes more than is open, the XML text has
/// as many elements open as the calls have.
pub proof fn lemma_xml_open_elements(calls: Seq<CallModel>, n: int)
    requires
        0 <= n <= calls.len(),
        forall|k: int| 0 <= k <= n ==> #[trigger] call_depth(calls, k) >= 0,
    ensures
        xml_fold(calls, n).open.len() == call_depth(calls, n),
    decreases n,
{
    if n > 0 {
        lemma_xml_open_elements(calls, n - 1);
        assert(call_depth(calls, n - 1) >= 0);
        assert(call_depth(calls, n) >= 0);
    }
}

/// While no prefix of the calls closes more than is open, the JSON document
/// has a frame for each open element, and one for the document.
pub proof fn lemma_json_open_elements(calls: Seq<CallModel>, separate: bool, n: int)
    requires
        0 <= n <= calls.len(),
        forall|k: int| 0 <= k <= n ==> #[trigger] call_depth(calls, k) >= 0,
    ensures
        json_fold(calls, separate, n).len() == 1 + call_depth(calls, n),
    decreases n,
{
    if n > 0 {
        lemma_json_open_elements(calls, separate, n - 1);
        assert(call_depth(calls, n - 1) >= 0);
        assert(call_depth(calls, n) >= 0);
    }
}

/// In well-nested calls no prefix closes more than is open, and at the end
/// nothing is open.
pub proof fn lemma_well_nested_depths(calls: Seq<CallModel>)
    requires
        well_nested(calls),
    ensures
        forall|k: int| 0 <= k <= calls.len() ==> #[trigger] call_depth(calls, k) >= 0,
        call_depth(calls, calls.len() as int) == 0,
{
    reveal_with_fuel(call_depth, 2);
    assert(call_depth(calls, 1) == 0);
    assert(call_depth(calls, calls.len() as int) == call_depth(calls, calls.len() - 1));
    assert forall|k: int| 0 <= k <= calls.len() implies #[trigger] call_depth(calls, k) >= 0 by {
        if 1 < k < calls.len() - 1 {
            assert(call_depth(calls, k) > 0);
        }
    }
}

/// The XML text of a record that decodes leaves no element open, and the
/// record has a JSON document.
pub proof fn lemma_record_renders(calls: Seq<CallModel>, separate: bool)
    requires
        well_nested(calls),
    ensures
        xml_fold(calls, calls.len() as int).open.len() == 0,
        json_doc(calls, separate) is Some,
{
    lemma_well_nested_depths(calls);
    lemma_xml_open_elements(calls, calls.len() as int);
    lemma_json_open_elements(calls, separate, calls.len() as int);
}

} // verus!
