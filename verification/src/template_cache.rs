//! The per-chunk template cache.
//!
//! A template definition is parsed once and kept under its offset. Templates
//! are immutable once cached, so instantiating one again costs no parsing.
//! While a definition is being resolved its offset stands in a second set;
//! a reference to such an offset is a cycle.

use vstd::prelude::*;
use std::collections::HashMap;
use std::collections::HashSet;
use std::sync::Arc;
use crate::err::TokenError;
use crate::grammar::{Env, TemplateModel, template_at};
use crate::model::Node;
use crate::nesting::single_root;
use crate::shared::share;
use crate::string_cache::bump;
use crate::value::Guid;

verus! {

broadcast use vstd::std_specs::hash::group_hash_axioms;

/// A parsed template definition, as the cache shares it.
#[derive(Debug, PartialEq, Eq)]
pub struct Template {
    /// The offset of the next definition in the same bucket, 0 at the end.
    pub next: u32,
    /// The GUID of the template. Its first field is the template's id.
    pub guid: Guid,
    /// The declared size of the body in bytes.
    pub size: u32,
    /// The body's tokens.
    pub nodes: Vec<Node>,
    /// The greatest depth to which the body's elements nest.
    pub depth: usize,
}

impl View for Template {
    type V = TemplateModel;

    open spec fn view(&self) -> TemplateModel {
        TemplateModel {
            next: self.next,
            guid: self.guid,
            size: self.size,
            nodes: self.nodes.deep_view(),
            depth: self.depth as nat,
        }
    }
}

/// No offset is in both sets.
pub open spec fn disjoint(a: Set<u32>, b: Set<u32>) -> bool {
    forall|o: u32| !(a.contains(o) && b.contains(o))
}

/// The templates parsed so far in one chunk, by offset.
pub struct TemplateCache {
    entries: HashMap<u32, Arc<Template>>,
    resolving: HashSet<u32>,
    parses: u64,
    max_depth: usize,
}

impl View for TemplateCache {
    type V = Map<u32, TemplateModel>;

    /// The cached templates, by offset.
    closed spec fn view(&self) -> Map<u32, TemplateModel> {
        self.entries@.map_values(|t: Arc<Template>| t@)
    }
}

impl TemplateCache {
    /// The offsets whose definitions are being resolved.
    pub closed spec fn resolving(&self) -> Set<u32> {
        self.resolving@
    }

    /// How often a definition was parsed from the buffer.
    pub closed spec fn parses(&self) -> u64 {
        self.parses
    }

    /// The greatest depth to which elements may nest.
    pub closed spec fn depth_limit(&self) -> nat {
        self.max_depth as nat
    }

    /// What a decode with this cache depends on.
    pub open spec fn env(&self, buf: Seq<u8>) -> Env {
        Env { buf: buf, max_depth: self.depth_limit() }
    }

    /// No definition is being resolved.
    pub open spec fn idle(&self) -> bool {
        forall|o: u32| !self.resolving().contains(o)
    }

    /// The cache is sound for the chunk `buf`: no cached offset is being
    /// resolved; every cached template is the definition at its offset,
    /// whatever else is being resolved, as long as no cached offset is; and
    /// every cached template is one whole element.
    pub open spec fn wf(&self, buf: Seq<u8>) -> bool {
        &&& disjoint(self.resolving(), self@.dom())
        &&& forall|off: u32, r: Set<u32>|
            self@.contains_key(off) && disjoint(r, self@.dom()) ==> #[trigger] template_at(
                self.env(buf),
                off,
                r,
            ) == Ok::<TemplateModel, TokenError>(self@[off])
        &&& forall|off: u32| #[trigger] self@.contains_key(off) ==> single_root(self@[off].nodes)
    }

    /// This cache holds what `before` held, resolves what it resolved, has
    /// its depth limit, and has parsed no less often. A cache only grows.
    pub open spec fn extends(&self, before: &Self) -> bool {
        &&& forall|k: u32| #[trigger]
            before@.contains_key(k) ==> self@.contains_key(k) && self@[k] == before@[k]
        &&& self.resolving() == before.resolving()
        &&& self.depth_limit() == before.depth_limit()
        &&& before.parses() <= self.parses()
    }

    /// An empty cache for decoding with the given depth limit.
    pub fn new(max_depth: usize) -> (r: Self)
        ensures
            r@ == Map::<u32, TemplateModel>::empty(),
            r.idle(),
            r.parses() == 0,
            r.depth_limit() == max_depth,
            forall|buf: Seq<u8>| r.wf(buf),
    {
        let r = TemplateCache {
            entries: HashMap::new(),
            resolving: HashSet::new(),
            parses: 0,
            max_depth,
        };
        assert(r@ =~= Map::<u32, TemplateModel>::empty());
        r
    }

    /// The number of cached templates.
    pub fn len(&self) -> (n: usize)
        ensures
            n == self@.len(),
    {
        assert(self@.dom() =~= self.entries@.dom());
        self.entries.len()
    }

    /// How often a definition was parsed from the buffer.
    pub fn parse_count(&self) -> (n: u64)
        ensures
            n == self.parses(),
    {
        self.parses
    }

    /// The greatest depth to which elements may nest.
    pub fn max_depth(&self) -> (d: usize)
        ensures
            d == self.depth_limit(),
    {
        self.max_depth
    }

    /// Is the template at `offset` cached?
    pub fn contains(&self, offset: u32) -> (r: bool)
        ensures
            r == self@.contains_key(offset),
    {
        self.entries.contains_key(&offset)
    }

    /// The cached template at `offset`, if there is one.
    pub fn get(&self, offset: u32) -> (r: Option<Arc<Template>>)
        ensures
            match r {
                Some(t) => self@.contains_key(offset) && self@[offset] == t@,
                None => !self@.contains_key(offset),
            },
    {
        match self.entries.get(&offset) {
            Some(t) => {
                assert(self.entries@.contains_key(offset) && self.entries@[offset] == *t);
                assert(self@.contains_key(offset) && self@[offset] == t@);
                Some(share(t))
            },
            None => None,
        }
    }

    /// Is the definition at `offset` being resolved?
    pub(crate) fn is_resolving(&self, offset: u32) -> (r: bool)
        ensures
            r == self.resolving().contains(offset),
    {
        self.resolving.contains(&offset)
    }

    /// Counts one parse of a definition.
    pub(crate) fn count_parse(&mut self)
        ensures
            final(self).resolving() == old(self).resolving(),
            final(self)@ == old(self)@,
            final(self).parses() == bump(old(self).parses()),
            final(self).depth_limit() == old(self).depth_limit(),
    {
        if self.parses < u64::MAX {
            self.parses = self.parses + 1;
        }
    }

    /// Marks the definition at `offset` as being resolved.
    pub(crate) fn begin(&mut self, offset: u32)
        ensures
            final(self).resolving() == old(self).resolving().insert(offset),
            final(self)@ == old(self)@,
            final(self).parses() == old(self).parses(),
            final(self).depth_limit() == old(self).depth_limit(),
    {
        self.resolving.insert(offset);
    }

    /// Takes the mark from the definition at `offset`.
    pub(crate) fn end(&mut self, offset: u32)
        ensures
            final(self).resolving() == old(self).resolving().remove(offset),
            final(self)@ == old(self)@,
            final(self).parses() == old(self).parses(),
            final(self).depth_limit() == old(self).depth_limit(),
    {
        self.resolving.remove(&offset);
    }

    /// Keeps a parsed template under its offset.
    pub(crate) fn store(&mut self, offset: u32, t: Arc<Template>)
        ensures
            final(self)@ == old(self)@.insert(offset, t@),
            final(self).resolving() == old(self).resolving(),
            final(self).parses() == old(self).parses(),
            final(self).depth_limit() == old(self).depth_limit(),
    {
        self.entries.insert(offset, t);
        assert(self@ =~= old(self)@.insert(offset, t@));
    }
}

} // verus!
