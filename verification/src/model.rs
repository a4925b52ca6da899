//! The mathematical model of the wire format: what parsing a byte sequence
//! yields, and what bytes a message serializes to.  The executable parser
//! and serializer are verified against these functions, and the round-trip
//! between them is proved over them.

use vstd::prelude::*;
use vstd::utf8::{decode_utf8, encode_utf8, valid_utf8};
use crate::code::reason_phrase;
use crate::error::ParsingError;
use crate::method::{method_of, method_token, Method};
use crate::text::{
    dec_num, dec_str, lemma_split_line_len, lower, skip_ws, split_colon, split_line,
    split_spaces, trim_value,
};

verus! {

/// The protocol token both message shapes carry.
pub open spec fn http_token() -> Seq<char> {
    seq!['H', 'T', 'T', 'P', '/', '1', '.', '1']
}

/// The lowercased header key that frames a body.
pub open spec fn content_length_key() -> Seq<char> {
    seq!['c', 'o', 'n', 't', 'e', 'n', 't', '-', 'l', 'e', 'n', 'g', 't', 'h']
}

/// Mathematical form of a message kind.
#[verifier::ext_equal]
pub enum KindView {
    Request { method: Method, path: Seq<char> },
    Response { code: nat },
}

/// Mathematical form of a whole message: its kind, its header mapping
/// (keys lowercased), and its optional body bytes.
#[verifier::ext_equal]
pub struct MessageView {
    pub kind: KindView,
    pub headers: Map<Seq<char>, Seq<char>>,
    pub body: Option<Seq<u8>>,
}

// ---------------------------------------------------------------------------
// Parsing
// ---------------------------------------------------------------------------

/// Reads the decoded first line as a request line or a status line.
///
/// A line whose first token is exactly `HTTP/1.1` is a status line; its
/// second token must read strictly as a code, and anything after it is
/// ignored.  Any other line is a request line: verb, path, then exactly
/// the protocol token and nothing more.
pub open spec fn parse_first_line(line: Seq<char>) -> Result<KindView, ParsingError> {
    let toks = split_spaces(line);
    if toks[0] == http_token() {
        if toks.len() < 2 {
            Err(ParsingError::IndecipherableRequestLine)
        } else {
            match dec_num(toks[1]) {
                Some(code) => Ok(KindView::Response { code }),
                None => Err(ParsingError::IndecipherableRequestLine),
            }
        }
    } else {
        match method_of(toks[0]) {
            None => Err(ParsingError::UnknownMethod),
            Some(method) => if toks.len() < 2 {
                Err(ParsingError::IndecipherableRequestLine)
            } else if toks.len() < 3 || toks[2] != http_token() {
                Err(ParsingError::UnsupportedProtocol)
            } else if toks.len() > 3 {
                Err(ParsingError::IndecipherableRequestLine)
            } else {
                Ok(KindView::Request { method, path: toks[1] })
            },
        }
    }
}

/// Folds one parsed header line into the mapping: a fresh key is inserted;
/// a repeated key has the new value appended after a comma and a space.
pub open spec fn fold_header(
    m: Map<Seq<char>, Seq<char>>,
    key: Seq<char>,
    value: Seq<char>,
) -> Map<Seq<char>, Seq<char>> {
    if m.contains_key(key) {
        m.insert(key, m[key] + seq![',', ' '] + value)
    } else {
        m.insert(key, value)
    }
}

/// Reads header lines until the empty line, folding duplicate keys; yields
/// the accumulated mapping and the unread remainder of the stream.  Keys
/// are lowercased; values lose only their leading spaces and tabs.
pub open spec fn parse_headers(data: Seq<u8>, acc: Map<Seq<char>, Seq<char>>) -> Result<
    (Map<Seq<char>, Seq<char>>, Seq<u8>),
    ParsingError,
>
    decreases data.len(),
    via parse_headers_decreases
{
    match split_line(data) {
        None => Err(ParsingError::IllegalHeader),
        Some(p) => if p.0.len() == 0 {
            Ok((acc, p.1))
        } else if !valid_utf8(p.0) {
            Err(ParsingError::IllegalHeader)
        } else {
            match split_colon(decode_utf8(p.0)) {
                None => Err(ParsingError::IllegalHeader),
                Some(kv) => parse_headers(p.1, fold_header(acc, lower(kv.0), trim_value(kv.1))),
            }
        },
    }
}

#[via_fn]
proof fn parse_headers_decreases(data: Seq<u8>, acc: Map<Seq<char>, Seq<char>>) {
    lemma_split_line_len(data);
}

/// Frames the body after the headers: present exactly when `content-length`
/// is, its value read strictly, and satisfied only when enough bytes
/// remain; anything past the declared length is left unread.
pub open spec fn parse_body(headers: Map<Seq<char>, Seq<char>>, rest: Seq<u8>) -> Result<
    Option<Seq<u8>>,
    ParsingError,
> {
    if headers.contains_key(content_length_key()) {
        match dec_num(headers[content_length_key()]) {
            None => Err(ParsingError::UnparseableContentLength),
            Some(n) => if rest.len() < n {
                Err(ParsingError::ContentTooShort)
            } else {
                Ok(Some(rest.take(n as int)))
            },
        }
    } else {
        Ok(None)
    }
}

/// The whole parse, from raw bytes to a message view or the error that
/// aborts it: skip leading whitespace, read the CR-LF-terminated first
/// line as UTF-8, read the header lines, then frame the body.
pub open spec fn parse_spec(data: Seq<u8>) -> Result<MessageView, ParsingError> {
    let s = skip_ws(data);
    match split_line(s) {
        None => Err(ParsingError::IndecipherableRequestLine),
        Some(p) => if !valid_utf8(p.0) {
            Err(ParsingError::IndecipherableRequestLine)
        } else {
            match parse_first_line(decode_utf8(p.0)) {
                Err(e) => Err(e),
                Ok(kind) => match parse_headers(p.1, Map::empty()) {
                    Err(e) => Err(e),
                    Ok(hr) => match parse_body(hr.0, hr.1) {
                        Err(e) => Err(e),
                        Ok(body) => Ok(MessageView { kind, headers: hr.0, body }),
                    },
                },
            }
        },
    }
}

// ---------------------------------------------------------------------------
// Serialization
// ---------------------------------------------------------------------------

/// The first line of a serialized message, without its CR LF.
pub open spec fn first_line_chars(k: KindView) -> Seq<char> {
    match k {
        KindView::Request { method, path } => method_token(method) + seq![' '] + path + seq![' ']
            + http_token(),
        KindView::Response { code } => http_token() + seq![' '] + dec_str(code) + seq![' ']
            + reason_phrase(code),
    }
}

/// One serialized header line, without its CR LF.
pub open spec fn header_line_chars(k: Seq<char>, v: Seq<char>) -> Seq<char> {
    k + seq![':', ' '] + v
}

/// All header lines in storage order, each followed by CR LF.
pub open spec fn header_lines_chars(hs: Seq<(Seq<char>, Seq<char>)>) -> Seq<char>
    decreases hs.len(),
{
    if hs.len() == 0 {
        Seq::<char>::empty()
    } else {
        header_line_chars(hs[0].0, hs[0].1) + seq!['\r', '\n'] + header_lines_chars(
            hs.drop_first(),
        )
    }
}

/// The textual head of a message: first line, header lines, blank line.
pub open spec fn head_chars(k: KindView, hs: Seq<(Seq<char>, Seq<char>)>) -> Seq<char> {
    first_line_chars(k) + seq!['\r', '\n'] + header_lines_chars(hs) + seq!['\r', '\n']
}

/// The full wire form: the UTF-8-encoded head, then the raw body bytes
/// followed by one closing CR LF when a body is present.
pub open spec fn serialize_spec(
    k: KindView,
    hs: Seq<(Seq<char>, Seq<char>)>,
    body: Option<Seq<u8>>,
) -> Seq<u8> {
    encode_utf8(head_chars(k, hs)) + match body {
        Some(b) => b + seq![0x0du8, 0x0au8],
        None => Seq::<u8>::empty(),
    }
}

/// Peeling the last header entry off the rendered lines.
pub proof fn lemma_header_lines_snoc(hs: Seq<(Seq<char>, Seq<char>)>, i: int)
    requires
        0 <= i < hs.len(),
    ensures
        header_lines_chars(hs.take(i + 1)) == header_lines_chars(hs.take(i)) + header_line_chars(
            hs[i].0,
            hs[i].1,
        ) + seq!['\r', '\n'],
    decreases i,
{
    if i == 0 {
        let t = hs.take(1);
        assert(t[0] == hs[0]);
        assert(t.drop_first() =~= Seq::<(Seq<char>, Seq<char>)>::empty());
        assert(hs.take(0) =~= Seq::<(Seq<char>, Seq<char>)>::empty());
        assert(header_lines_chars(Seq::<(Seq<char>, Seq<char>)>::empty())
            == Seq::<char>::empty());
        assert(header_lines_chars(t) == header_line_chars(hs[0].0, hs[0].1) + seq!['\r', '\n']
            + Seq::<char>::empty());
        assert(header_line_chars(hs[0].0, hs[0].1) + seq!['\r', '\n'] + Seq::<char>::empty() =~= (
        Seq::<char>::empty() + header_line_chars(hs[0].0, hs[0].1)) + seq!['\r', '\n']);
    } else {
        let rest = hs.drop_first();
        lemma_header_lines_snoc(rest, i - 1);
        assert(hs.take(i + 1).drop_first() =~= rest.take(i));
        assert(hs.take(i).drop_first() =~= rest.take(i - 1));
        assert(hs.take(i + 1)[0] == hs[0]);
        assert(hs.take(i)[0] == hs[0]);
        assert(rest[i - 1] == hs[i]);
        let line0 = header_line_chars(hs[0].0, hs[0].1) + seq!['\r', '\n'];
        assert(header_lines_chars(hs.take(i + 1)) == line0 + header_lines_chars(rest.take(i)));
        assert(header_lines_chars(hs.take(i)) == line0 + header_lines_chars(rest.take(i - 1)));
        assert(line0 + (header_lines_chars(rest.take(i - 1)) + header_line_chars(
            hs[i].0,
            hs[i].1,
        ) + seq!['\r', '\n']) =~= (line0 + header_lines_chars(rest.take(i - 1)))
            + header_line_chars(hs[i].0, hs[i].1) + seq!['\r', '\n']);
    }
}

// ---------------------------------------------------------------------------
// Header sequences and the mapping they denote
// ---------------------------------------------------------------------------

/// Pairwise-distinct keys.
pub open spec fn distinct_keys(hs: Seq<(Seq<char>, Seq<char>)>) -> bool {
    forall|i: int, j: int| 0 <= i < j < hs.len() ==> hs[i].0 != hs[j].0
}

/// The mapping denoted by a sequence of entries; on a duplicate key the
/// earliest entry wins, though the library never stores duplicates.
pub open spec fn headers_map_of(hs: Seq<(Seq<char>, Seq<char>)>) -> Map<Seq<char>, Seq<char>>
    decreases hs.len(),
{
    if hs.len() == 0 {
        Map::<Seq<char>, Seq<char>>::empty()
    } else {
        headers_map_of(hs.drop_first()).insert(hs[0].0, hs[0].1)
    }
}

/// Index of the entry carrying key `k`, if any.
pub open spec fn key_index(hs: Seq<(Seq<char>, Seq<char>)>, k: Seq<char>) -> Option<int>
    decreases hs.len(),
{
    if hs.len() == 0 {
        None
    } else if hs[0].0 == k {
        Some(0int)
    } else {
        match key_index(hs.drop_first(), k) {
            None => None,
            Some(i) => Some(i + 1),
        }
    }
}

pub proof fn lemma_key_index(hs: Seq<(Seq<char>, Seq<char>)>, k: Seq<char>)
    ensures
        match key_index(hs, k) {
            Some(i) => 0 <= i < hs.len() && hs[i].0 == k && (forall|j: int|
                0 <= j < i ==> (#[trigger] hs[j]).0 != k),
            None => forall|j: int| 0 <= j < hs.len() ==> (#[trigger] hs[j]).0 != k,
        },
    decreases hs.len(),
{
    if hs.len() == 0 {
    } else if hs[0].0 == k {
    } else {
        let rest = hs.drop_first();
        lemma_key_index(rest, k);
        match key_index(rest, k) {
            Some(i) => {
                assert forall|j: int| 0 <= j < i + 1 implies (#[trigger] hs[j]).0 != k by {
                    if j > 0 {
                        assert(hs[j] == rest[j - 1]);
                    }
                }
            },
            None => {
                assert forall|j: int| 0 <= j < hs.len() implies (#[trigger] hs[j]).0 != k by {
                    if j > 0 {
                        assert(hs[j] == rest[j - 1]);
                    }
                }
            },
        }
    }
}

/// What the denoted mapping contains and returns, given distinct keys.
pub proof fn lemma_headers_map_of(hs: Seq<(Seq<char>, Seq<char>)>)
    ensures
        forall|k: Seq<char>|
            #[trigger] headers_map_of(hs).contains_key(k) <==> key_index(hs, k) is Some,
        forall|i: int|
            0 <= i < hs.len() && (forall|j: int| 0 <= j < i ==> (#[trigger] hs[j]).0 != hs[i].0)
                ==> headers_map_of(hs)[(#[trigger] hs[i]).0] == hs[i].1,
    decreases hs.len(),
{
    if hs.len() > 0 {
        let rest = hs.drop_first();
        lemma_headers_map_of(rest);
        assert forall|k: Seq<char>|
            #[trigger] headers_map_of(hs).contains_key(k) <==> key_index(hs, k) is Some by {
            if k != hs[0].0 {
                assert(headers_map_of(hs).contains_key(k) == headers_map_of(rest).contains_key(
                    k,
                ));
            }
        }
        assert forall|i: int|
            0 <= i < hs.len() && (forall|j: int|
                0 <= j < i ==> (#[trigger] hs[j]).0 != hs[i].0) implies headers_map_of(hs)[(
        #[trigger] hs[i]).0] == hs[i].1 by {
            if i == 0 {
            } else {
                assert(hs[0].0 != hs[i].0);
                assert(rest[i - 1] == hs[i]);
                assert forall|j: int| 0 <= j < i - 1 implies (#[trigger] rest[j]).0 != rest[i
                    - 1].0 by {
                    assert(rest[j] == hs[j + 1]);
                }
                assert(headers_map_of(rest)[rest[i - 1].0] == rest[i - 1].1);
                assert(headers_map_of(hs)[hs[i].0] == headers_map_of(rest)[hs[i].0]);
            }
        }
    }
}

} // verus!
