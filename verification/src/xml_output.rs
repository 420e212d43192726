//! An output collaborator that renders a record as XML text.

use vstd::prelude::*;
use vstd::std_specs::iter::IteratorSpec;
use vstd::string::StringExecFns;
use crate::model::{Attribute, AttributeModel, Call, CallModel};
use crate::render::value_text;
use crate::value::BinXmlValue;
use crate::visitor::{BinXmlOutput, Recorder};

verus! {

broadcast use vstd::string::group_string_axioms;

/// What stands in XML text for a character of content.
pub open spec fn escape_char(c: char) -> Seq<char> {
    if c == '&' {
        seq!['&', 'a', 'm', 'p', ';']
    } else if c == '<' {
        seq!['&', 'l', 't', ';']
    } else if c == '>' {
        seq!['&', 'g', 't', ';']
    } else if c == '"' {
        seq!['&', 'q', 'u', 'o', 't', ';']
    } else if c == '\'' {
        seq!['&', 'a', 'p', 'o', 's', ';']
    } else {
        seq![c]
    }
}

/// The text with the five characters that XML reserves escaped.
pub open spec fn escaped(t: Seq<char>) -> Seq<char>
    decreases t.len(),
{
    if t.len() == 0 {
        Seq::empty()
    } else {
        escaped(t.drop_last()) + escape_char(t.last())
    }
}

/// An attribute in a start tag: a space, the name, and the escaped text of
/// the value in double quotes. An attribute without value is left out.
pub open spec fn attr_text(a: AttributeModel) -> Seq<char> {
    if a.value is Null {
        Seq::empty()
    } else {
        seq![' '] + a.name + seq!['=', '"'] + escaped(value_text(a.value)) + seq!['"']
    }
}

/// The attributes of a start tag, in order.
pub open spec fn attrs_text(attrs: Seq<AttributeModel>) -> Seq<char>
    decreases attrs.len(),
{
    if attrs.len() == 0 {
        Seq::empty()
    } else {
        attrs_text(attrs.drop_last()) + attr_text(attrs.last())
    }
}

/// The text written so far, and the names of the elements that are open.
pub struct XmlState {
    pub text: Seq<char>,
    pub open: Seq<Seq<char>>,
}

/// The state after one more call. A start writes the start tag, characters
/// write escaped text, and a close writes the end tag of the innermost open
/// element, if there is one.
pub open spec fn xml_step(st: XmlState, c: CallModel) -> XmlState {
    match c {
        CallModel::OpenStartElement { name, attributes } => XmlState {
            text: st.text + seq!['<'] + name + attrs_text(attributes) + seq!['>'],
            open: st.open.push(name),
        },
        CallModel::Characters(t) => XmlState { text: st.text + escaped(t), open: st.open },
        CallModel::CloseElement => if st.open.len() > 0 {
            XmlState {
                text: st.text + seq!['<', '/'] + st.open.last() + seq!['>'],
                open: st.open.drop_last(),
            }
        } else {
            st
        },
        _ => st,
    }
}

/// The state after the first `n` calls.
pub open spec fn xml_fold(calls: Seq<CallModel>, n: int) -> XmlState
    decreases n,
{
    if n <= 0 {
        XmlState { text: Seq::empty(), open: Seq::empty() }
    } else {
        xml_step(xml_fold(calls, n - 1), calls[n - 1])
    }
}

/// The XML text of the calls.
pub open spec fn xml_text(calls: Seq<CallModel>) -> Seq<char> {
    xml_fold(calls, calls.len() as int).text
}

/// Appends the text with the reserved characters escaped.
pub fn push_escaped(out: &mut String, t: &str)
    ensures
        final(out)@ == old(out)@ + escaped(t@),
{
    let mut it = t.chars();
    let ghost mut done: Seq<char> = Seq::empty();
    assert(old(out)@ + escaped(done) =~= old(out)@);
    assert(done + it.remaining() =~= t@);
    loop
        invariant
            done + it.remaining() == t@,
            out@ == old(out)@ + escaped(done),
            it.obeys_prophetic_iter_laws(),
            it.decrease() is Some,
        decreases it.decrease()->0,
    {
        let ghost before = it;
        match it.next() {
            None => {
                assert(done =~= t@);
                return ;
            },
            Some(c) => {
                if c == '&' {
                    out.append("&amp;");
                } else if c == '<' {
                    out.append("&lt;");
                } else if c == '>' {
                    out.append("&gt;");
                } else if c == '"' {
                    out.append("&quot;");
                } else if c == '\'' {
                    out.append("&apos;");
                } else {
                    out.push(c);
                }
                proof {
                    reveal_strlit("&amp;");
                    reveal_strlit("&lt;");
                    reveal_strlit("&gt;");
                    reveal_strlit("&quot;");
                    reveal_strlit("&apos;");
                    assert("&amp;"@ =~= seq!['&', 'a', 'm', 'p', ';']);
                    assert("&lt;"@ =~= seq!['&', 'l', 't', ';']);
                    assert("&gt;"@ =~= seq!['&', 'g', 't', ';']);
                    assert("&quot;"@ =~= seq!['&', 'q', 'u', 'o', 't', ';']);
                    assert("&apos;"@ =~= seq!['&', 'a', 'p', 'o', 's', ';']);
                    let next = done.push(c);
                    assert(next.drop_last() =~= done);
                    assert(out@ =~= old(out)@ + escaped(next));
                    assert(next + before.remaining().drop_first() =~= done + before.remaining());
                    done = next;
                }
            },
        }
    }
}

fn push_attributes(out: &mut String, attrs: &Vec<Attribute>)
    ensures
        final(out)@ == old(out)@ + attrs_text(attrs.deep_view()),
{
    let ghost all = attrs.deep_view();
    let mut i: usize = 0;
    assert(all.take(0) =~= Seq::<AttributeModel>::empty());
    assert(old(out)@ + attrs_text(all.take(0)) =~= old(out)@);
    while i < attrs.len()
        invariant
            i <= attrs.len(),
            all == attrs.deep_view(),
            out@ == old(out)@ + attrs_text(all.take(i as int)),
        decreases attrs.len() - i,
    {
        let a: &Attribute = &attrs[i];
        assert(all[i as int] == a@);
        let ghost before = out@;
        match &a.value {
            BinXmlValue::Null => {},
            v => {
                out.push(' ');
                out.append(a.name.as_str());
                out.push('=');
                out.push('"');
                let text: String = v.render();
                push_escaped(out, text.as_str());
                out.push('"');
            },
        }
        proof {
            assert(out@ =~= before + attr_text(a@));
            assert(all.take(i + 1).drop_last() =~= all.take(i as int));
            assert(all.take(i + 1).last() == a@);
            assert(out@ =~= old(out)@ + attrs_text(all.take(i + 1)));
        }
        i = i + 1;
    }
    assert(all.take(attrs.len() as int) =~= all);
}

/// Renders the calls as XML text.
pub fn render_xml(calls: &Vec<Call>) -> (r: String)
    ensures
        r@ == xml_text(calls.deep_view()),
{
    let ghost all = calls.deep_view();
    let mut out: String = String::new();
    let mut open: Vec<String> = Vec::new();
    let mut i: usize = 0;
    assert(open.deep_view() =~= Seq::<Seq<char>>::empty());
    while i < calls.len()
        invariant
            i <= calls.len(),
            all == calls.deep_view(),
            out@ == xml_fold(all, i as int).text,
            open.deep_view() == xml_fold(all, i as int).open,
        decreases calls.len() - i,
    {
        assert(all[i as int] == calls[i as int]@);
        let ghost st = xml_fold(all, i as int);
        let ghost names = open.deep_view();
        match &calls[i] {
            Call::OpenStartElement { name, attributes } => {
                out.push('<');
                out.append(name.as_str());
                push_attributes(&mut out, attributes);
                out.push('>');
                open.push(name.clone());
                assert(out@ =~= st.text + seq!['<'] + name@ + attrs_text(attributes.deep_view())
                    + seq!['>']);
                assert(open.deep_view() =~= names.push(name@));
            },
            Call::Characters(t) => {
                push_escaped(&mut out, t.as_str());
            },
            Call::CloseElement => {
                match open.pop() {
                    Some(name) => {
                        assert(names.last() == name@);
                        out.push('<');
                        out.push('/');
                        out.append(name.as_str());
                        out.push('>');
                        assert(out@ =~= st.text + seq!['<', '/'] + name@ + seq!['>']);
                        assert(open.deep_view() =~= names.drop_last());
                    },
                    None => {
                        assert(names.len() == 0);
                    },
                }
            },
            _ => {},
        }
        i = i + 1;
    }
    out
}

/// An output collaborator that keeps what it receives and renders it as XML
/// text when asked.
pub struct XmlOutput {
    recorder: Recorder,
}

impl XmlOutput {
    /// An output that has received nothing.
    pub fn new() -> (r: Self)
        ensures
            r.trace() == Seq::<CallModel>::empty(),
    {
        XmlOutput { recorder: Recorder::new() }
    }

    /// The XML text of what was received.
    pub fn into_string(self) -> (r: String)
        ensures
            r@ == xml_text(self.trace()),
    {
        render_xml(&self.recorder.calls)
    }
}

impl BinXmlOutput for XmlOutput {
    closed spec fn trace(&self) -> Seq<CallModel> {
        self.recorder.trace()
    }

    fn visit_start_of_stream(&mut self) {
        self.recorder.visit_start_of_stream();
    }

    fn visit_open_start_element(&mut self, name: &String, attributes: &Vec<Attribute>) {
        self.recorder.visit_open_start_element(name, attributes);
    }

    fn visit_characters(&mut self, value: &String) {
        self.recorder.visit_characters(value);
    }

    fn visit_close_element(&mut self) {
        self.recorder.visit_close_element();
    }

    fn visit_end_of_stream(&mut self) {
        self.recorder.visit_end_of_stream();
    }
}

} // verus!
