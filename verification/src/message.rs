//! The message aggregate: a request or response kind, the header mapping,
//! and an optional body framed by `content-length`, together with the
//! serializer that renders it to wire bytes.

use vstd::prelude::*;
use vstd::string::{StringExecFns, StrSliceExecFns};
use crate::code::ResponseCode;
use crate::headers::{lemma_headers_view, Headers};
use crate::method::Method;
use crate::model::{
    content_length_key, distinct_keys, head_chars, header_line_chars, header_lines_chars,
    first_line_chars, headers_map_of, key_index, lemma_header_lines_snoc, serialize_spec,
    KindView, MessageView,
};
use crate::text::{dec_str, lower};

verus! {

/// Exactly one of the two message shapes: a request naming a verb and a
/// path, or a response naming a status code.
pub enum MessageKind {
    Request { method: Method, path: String },
    Response { code: ResponseCode },
}

impl View for MessageKind {
    type V = KindView;

    open spec fn view(&self) -> KindView {
        match self {
            MessageKind::Request { method, path } => KindView::Request {
                method: *method,
                path: path@,
            },
            MessageKind::Response { code } => KindView::Response { code: code.0 as nat },
        }
    }
}

/// A message: kind, header mapping, optional body.
///
/// The kind and the headers are open for direct use; the body is changed
/// only through [`Message::set_content`], which keeps the `content-length`
/// header equal to the body's exact byte length.
pub struct Message {
    pub kind: MessageKind,
    pub headers: Headers,
    content: Option<Vec<u8>>,
}

impl View for Message {
    type V = MessageView;

    closed spec fn view(&self) -> MessageView {
        MessageView { kind: self.kind@, headers: self.headers@, body: self.body_view() }
    }
}

impl Message {
    /// The stored body bytes, if any.
    pub closed spec fn body_view(&self) -> Option<Seq<u8>> {
        match self.content {
            Some(b) => Some(b@),
            None => None,
        }
    }

    /// The header entries in storage order — what serialization emits.
    pub closed spec fn hseq(&self) -> Seq<(Seq<char>, Seq<char>)> {
        self.headers.seq()
    }

    /// Well-formedness of the header storage: keys pairwise distinct and
    /// lowercased.  [`lemma_message_invariants`] spells it out.
    pub closed spec fn headers_wf(&self) -> bool {
        self.headers.wf()
    }

    /// The invariant the mutation API maintains: well-formed headers, and a
    /// `content-length` entry holding the body's exact rendered length
    /// present exactly when a body is present.  Direct header manipulation
    /// can break it; that is then the caller's responsibility.
    /// [`lemma_message_invariants`] spells it out.
    pub closed spec fn wf(&self) -> bool {
        &&& self.headers.wf()
        &&& match self.body_view() {
            Some(b) => self.headers@.contains_key(content_length_key())
                && self.headers@[content_length_key()] == dec_str(b.len()),
            None => !self.headers@.contains_key(content_length_key()),
        }
    }

    /// An empty request: no headers, no body.
    pub fn new_request(method: Method, path: &str) -> (m: Message)
        ensures
            m.wf(),
            m@.kind == (KindView::Request { method, path: path@ }),
            m@.headers == Map::<Seq<char>, Seq<char>>::empty(),
            m@.body == None::<Seq<u8>>,
            m.headers_wf(),
            m.hseq() == Seq::<(Seq<char>, Seq<char>)>::empty(),
    {
        Message {
            kind: MessageKind::Request { method, path: String::from_str(path) },
            headers: Headers::new(),
            content: None,
        }
    }

    /// An empty response: no headers, no body.
    pub fn new_response(code: ResponseCode) -> (m: Message)
        ensures
            m.wf(),
            m@.kind == (KindView::Response { code: code.0 as nat }),
            m@.headers == Map::<Seq<char>, Seq<char>>::empty(),
            m@.body == None::<Seq<u8>>,
            m.headers_wf(),
            m.hseq() == Seq::<(Seq<char>, Seq<char>)>::empty(),
    {
        Message { kind: MessageKind::Response { code }, headers: Headers::new(), content: None }
    }

    /// Sets a header outright: the key is lowercased, any prior value for
    /// it is replaced and returned.  This is the caller-facing insertion,
    /// distinct from the comma-folding done only while parsing.
    pub fn set_header(&mut self, header: &str, value: &str) -> (prev: Option<String>)
        requires
            old(self).headers_wf(),
        ensures
            final(self).headers_wf(),
            final(self)@.kind == old(self)@.kind,
            final(self)@.body == old(self)@.body,
            final(self)@.headers == old(self)@.headers.insert(lower(header@), value@),
            prev is Some <==> old(self)@.headers.contains_key(lower(header@)),
            prev matches Some(p) ==> p@ == old(self)@.headers[lower(header@)],
            lower(header@) != content_length_key() && old(self).wf() ==> final(self).wf(),
            match key_index(old(self).hseq(), lower(header@)) {
                Some(j) => final(self).hseq() == old(self).hseq().update(
                    j,
                    (lower(header@), value@),
                ),
                None => final(self).hseq() == old(self).hseq().push(
                    (lower(header@), value@),
                ),
            },
    {
        self.headers.set(header, value)
    }

    /// Removes a header by its case-insensitive key, returning the value
    /// it had.
    pub fn remove_header(&mut self, header: &str) -> (prev: Option<String>)
        requires
            old(self).headers_wf(),
        ensures
            final(self).headers_wf(),
            final(self)@.kind == old(self)@.kind,
            final(self)@.body == old(self)@.body,
            final(self)@.headers == old(self)@.headers.remove(lower(header@)),
            prev is Some <==> old(self)@.headers.contains_key(lower(header@)),
            prev matches Some(p) ==> p@ == old(self)@.headers[lower(header@)],
            lower(header@) != content_length_key() && old(self).wf() ==> final(self).wf(),
    {
        self.headers.remove(header)
    }

    /// Replaces the body.  Setting bytes writes their exact length into the
    /// `content-length` header; clearing the body removes that header.
    /// This is the only header the codec manages by itself.
    pub fn set_content(&mut self, content: Option<Vec<u8>>)
        requires
            old(self).headers_wf(),
        ensures
            final(self).wf(),
            final(self).headers_wf(),
            final(self)@.kind == old(self)@.kind,
            match content {
                Some(b) => final(self)@.body == Some(b@) && final(self)@.headers == old(
                    self,
                )@.headers.insert(content_length_key(), dec_str(b@.len())),
                None => final(self)@.body == None::<Seq<u8>> && final(self)@.headers == old(
                    self,
                )@.headers.remove(content_length_key()),
            },
    {
        proof {
            reveal_strlit("content-length");
            assert("content-length"@ =~= content_length_key());
            assert(lower("content-length"@) =~= content_length_key());
        }
        match &content {
            Some(b) => {
                let rendered = crate::text_exec::dec_render(b.len());
                self.headers.set("content-length", rendered.as_str());
            },
            None => {
                self.headers.remove("content-length");
            },
        }
        self.content = content;
    }

    /// Read access to the stored body bytes; the headers are untouched.
    pub fn get_content(&self) -> (r: Option<&Vec<u8>>)
        ensures
            match r {
                Some(b) => self@.body == Some(b@),
                None => self@.body == None::<Seq<u8>>,
            },
    {
        match &self.content {
            Some(b) => Some(b),
            None => None,
        }
    }

    /// In-place mutation of the stored body bytes, without touching the
    /// headers: overwrites the byte at `i`.  Only the bytes can change this
    /// way, never the body's length, so the `content-length` bookkeeping
    /// stays intact.  `false` when there is no body or `i` is out of range.
    pub fn get_content_mut(&mut self, i: usize, b: u8) -> (ok: bool)
        ensures
            final(self)@.kind == old(self)@.kind,
            final(self)@.headers == old(self)@.headers,
            final(self).hseq() == old(self).hseq(),
            final(self).headers_wf() == old(self).headers_wf(),
            old(self).wf() ==> final(self).wf(),
            match old(self)@.body {
                Some(bytes) => {
                    &&& (ok <==> i < bytes.len())
                    &&& (ok ==> final(self)@.body == Some(bytes.update(i as int, b)))
                    &&& (!ok ==> final(self)@.body == old(self)@.body)
                },
                None => !ok && final(self)@.body == old(self)@.body,
            },
    {
        match &mut self.content {
            Some(v) => {
                if i < v.len() {
                    let ghost bytes = v@;
                    let _replaced = v.remove(i);
                    v.insert(i, b);
                    proof {
                        assert(v@ =~= bytes.update(i as int, b));
                    }
                    true
                } else {
                    false
                }
            },
            None => false,
        }
    }

    /// Renders the message to wire bytes: the first line, one line per
    /// header in storage order, a blank line, then the body bytes followed
    /// by one closing CR LF when a body is present.  Total: it never fails,
    /// whatever the message holds.
    pub fn serialize(&self) -> (r: Vec<u8>)
        ensures
            r@ == serialize_spec(self@.kind, self.hseq(), self@.body),
    {
        proof {
            reveal_strlit(" ");
            reveal_strlit(" HTTP/1.1");
            reveal_strlit("HTTP/1.1 ");
            reveal_strlit("\r\n");
            reveal_strlit(": ");
            assert("\r\n"@ =~= seq!['\r', '\n']);
            assert(": "@ =~= seq![':', ' ']);
            assert(" "@ =~= seq![' ']);
        }
        let mut s = String::new();
        match &self.kind {
            MessageKind::Request { method, path } => {
                s.append(method.as_str());
                s.append(" ");
                s.append(path.as_str());
                s.append(" HTTP/1.1");
                proof {
                    assert(" HTTP/1.1"@ =~= seq![' '] + crate::model::http_token());
                    assert(s@ =~= first_line_chars(self.kind@));
                }
            },
            MessageKind::Response { code } => {
                s.append("HTTP/1.1 ");
                let rendered = crate::text_exec::dec_render(code.0);
                s.append(rendered.as_str());
                s.append(" ");
                let name = code.get_name();
                s.append(name.as_str());
                proof {
                    assert("HTTP/1.1 "@ =~= crate::model::http_token() + seq![' ']);
                    assert(s@ =~= first_line_chars(self.kind@));
                }
            },
        }
        s.append("\r\n");
        let ghost intro = first_line_chars(self.kind@) + seq!['\r', '\n'];
        assert(s@ =~= intro);
        let ghost hs = self.headers.seq();
        let n = self.headers.len();
        let mut i: usize = 0;
        proof {
            assert(hs.take(0) =~= Seq::<(Seq<char>, Seq<char>)>::empty());
        }
        while i < n
            invariant
                i <= n,
                n == hs.len(),
                hs == self.headers.seq(),
                s@ == intro + header_lines_chars(hs.take(i as int)),
            decreases n - i,
        {
            proof {
                reveal_strlit(": ");
                reveal_strlit("\r\n");
                assert("\r\n"@ =~= seq!['\r', '\n']);
                assert(": "@ =~= seq![':', ' ']);
            }
            s.append(self.headers.key_at(i).as_str());
            s.append(": ");
            s.append(self.headers.value_at(i).as_str());
            s.append("\r\n");
            proof {
                lemma_header_lines_snoc(hs, i as int);
                assert(s@ =~= intro + header_lines_chars(hs.take(i as int + 1)));
            }
            i += 1;
        }
        proof {
            assert(hs.take(n as int) =~= hs);
        }
        s.append("\r\n");
        proof {
            reveal_strlit("\r\n");
            assert("\r\n"@ =~= seq!['\r', '\n']);
            assert(s@ =~= head_chars(self.kind@, hs));
        }
        let mut bytes = s.as_str().as_bytes_vec();
        match &self.content {
            Some(b) => {
                bytes.extend_from_slice(b.as_slice());
                bytes.push(0x0d);
                bytes.push(0x0a);
                proof {
                    assert(bytes@ =~= serialize_spec(self@.kind, hs, self@.body));
                }
            },
            None => {
                proof {
                    assert(bytes@ =~= serialize_spec(self@.kind, hs, self@.body));
                }
            },
        }
        bytes
    }

    /// Builds a message from already-validated parts; the parser's
    /// assembly step.
    pub(crate) fn assemble(kind: MessageKind, headers: Headers, content: Option<Vec<u8>>) -> (m:
        Message)
        ensures
            m@.kind == kind@,
            m@.headers == headers@,
            m@.body == (match content {
                Some(b) => Some(b@),
                None => None::<Seq<u8>>,
            }),
            m.hseq() == headers.seq(),
            m.headers_wf() == headers.wf(),
    {
        Message { kind, headers, content }
    }
}

/// Spells out, over the public model, what the closed well-formedness
/// predicates and the message view mean.
pub proof fn lemma_message_invariants(m: Message)
    ensures
        m@.headers == headers_map_of(m.hseq()),
        m.headers_wf() <==> (distinct_keys(m.hseq()) && (forall|i: int|
            0 <= i < m.hseq().len() ==> lower((#[trigger] m.hseq()[i]).0) == m.hseq()[i].0)),
        m.wf() <==> (m.headers_wf() && match m@.body {
            Some(b) => m@.headers.contains_key(content_length_key())
                && m@.headers[content_length_key()] == dec_str(b.len()),
            None => !m@.headers.contains_key(content_length_key()),
        }),
{
    lemma_headers_view(m.headers);
}

} // verus!
