//! The visitor capability: what an output collaborator implements to receive
//! a record, in one forward pass.

use vstd::prelude::*;
use crate::model::{Attribute, Call, CallModel, clone_attributes};
use crate::record::EvtxRecord;

verus! {

/// A receiver of visitor calls. Each operation adds the call it stands for
/// to the receiver's trace, and changes nothing else of the trace.
pub trait BinXmlOutput {
    /// The calls received so far, in order.
    spec fn trace(&self) -> Seq<CallModel>;

    fn visit_start_of_stream(&mut self)
        ensures
            final(self).trace() == old(self).trace().push(CallModel::StartOfStream),
    ;

    fn visit_open_start_element(&mut self, name: &String, attributes: &Vec<Attribute>)
        ensures
            final(self).trace() == old(self).trace().push(
                CallModel::OpenStartElement { name: name@, attributes: attributes.deep_view() },
            ),
    ;

    fn visit_characters(&mut self, value: &String)
        ensures
            final(self).trace() == old(self).trace().push(CallModel::Characters(value@)),
    ;

    fn visit_close_element(&mut self)
        ensures
            final(self).trace() == old(self).trace().push(CallModel::CloseElement),
    ;

    fn visit_end_of_stream(&mut self)
        ensures
            final(self).trace() == old(self).trace().push(CallModel::EndOfStream),
    ;
}

/// A receiver that keeps every call it gets.
pub struct Recorder {
    pub calls: Vec<Call>,
}

impl Recorder {
    /// A recorder that has received nothing.
    pub fn new() -> (r: Self)
        ensures
            r.trace() == Seq::<CallModel>::empty(),
    {
        let r = Recorder { calls: Vec::new() };
        assert(r.calls.deep_view() =~= Seq::<CallModel>::empty());
        r
    }

    fn record(&mut self, c: Call)
        ensures
            final(self).trace() == old(self).trace().push(c@),
    {
        self.calls.push(c);
        assert(self.calls.deep_view() =~= old(self).calls.deep_view().push(c@));
    }
}

impl BinXmlOutput for Recorder {
    open spec fn trace(&self) -> Seq<CallModel> {
        self.calls.deep_view()
    }

    fn visit_start_of_stream(&mut self) {
        self.record(Call::StartOfStream);
    }

    fn visit_open_start_element(&mut self, name: &String, attributes: &Vec<Attribute>) {
        self.record(
            Call::OpenStartElement { name: name.clone(), attributes: clone_attributes(attributes) },
        );
    }

    fn visit_characters(&mut self, value: &String) {
        self.record(Call::Characters(value.clone()));
    }

    fn visit_close_element(&mut self) {
        self.record(Call::CloseElement);
    }

    fn visit_end_of_stream(&mut self) {
        self.record(Call::EndOfStream);
    }
}

/// Makes the calls on a receiver, in order.
pub fn replay<V: BinXmlOutput>(calls: &Vec<Call>, output: &mut V)
    ensures
        final(output).trace() == old(output).trace() + calls.deep_view(),
{
    let ghost all = calls.deep_view();
    let mut i: usize = 0;
    assert(old(output).trace() + all.take(0) =~= old(output).trace());
    while i < calls.len()
        invariant
            i <= calls.len(),
            all == calls.deep_view(),
            output.trace() == old(output).trace() + all.take(i as int),
        decreases calls.len() - i,
    {
        assert(all[i as int] == calls[i as int]@);
        match &calls[i] {
            Call::StartOfStream => output.visit_start_of_stream(),
            Call::OpenStartElement { name, attributes } => output.visit_open_start_element(
                name,
                attributes,
            ),
            Call::Characters(t) => output.visit_characters(t),
            Call::CloseElement => output.visit_close_element(),
            Call::EndOfStream => output.visit_end_of_stream(),
        }
        assert(old(output).trace() + all.take(i + 1) =~= (old(output).trace() + all.take(
            i as int,
        )).push(all[i as int]));
        i = i + 1;
    }
    assert(all.take(calls.len() as int) =~= all);
}

impl EvtxRecord {
    /// Hands the record to a receiver: makes its calls, in order.
    pub fn accept<V: BinXmlOutput>(&self, output: &mut V)
        ensures
            final(output).trace() == old(output).trace() + self@.calls,
    {
        replay(&self.calls, output);
    }
}

} // verus!
