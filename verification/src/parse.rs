//! The parser: one forward pass over a byte sequence, producing a complete
//! [`Message`] or the first structural error met, exactly as
//! [`parse_spec`] describes.

use vstd::prelude::*;
use vstd::slice::{slice_index_get, slice_subrange, slice_to_vec};
use vstd::string::{StrSliceExecFns, StringExecFns};
use crate::code::ResponseCode;
use crate::error::ParsingError;
use crate::headers::Headers;
use crate::message::{Message, MessageKind};
use crate::method::Method;
use crate::model::{
    content_length_key, http_token, parse_body, parse_first_line, parse_headers, parse_spec,
    MessageView,
};
use crate::text::{
    lemma_find_first_at, lemma_find_first_none, lower, split_line, split_spaces, trim_value,
};
use crate::encoding::bytes_to_string;
use crate::text_exec::{
    dec_parse, eq_str, find_byte, find_char, skip_ws_index, tokenize, trim_value_index,
};

verus! {

/// Where a CR sits with LF right behind it, the line split peels the bytes
/// before the CR off the stream; any other CR placement refuses the line.
proof fn lemma_line_at(data: Seq<u8>, pos: int, k: int)
    requires
        0 <= pos <= k < data.len(),
        data[k] == 0x0du8,
        forall|t: int| pos <= t < k ==> data[t] != 0x0du8,
    ensures
        k + 1 < data.len() && data[k + 1] == 0x0au8 ==> split_line(data.skip(pos)) == Some(
            (data.subrange(pos, k), data.skip(k + 2)),
        ),
        !(k + 1 < data.len() && data[k + 1] == 0x0au8) ==> split_line(data.skip(pos))
            == None::<(Seq<u8>, Seq<u8>)>,
{
    let cur = data.skip(pos);
    assert forall|t: int| 0 <= t < k - pos implies cur[t] != 0x0du8 by {
        assert(cur[t] == data[pos + t]);
    }
    assert(cur[k - pos] == data[k]);
    lemma_find_first_at(cur, 0x0du8, k - pos);
    if k + 1 < data.len() && data[k + 1] == 0x0au8 {
        assert(cur[k - pos + 1] == data[k + 1]);
        assert(cur.take(k - pos) =~= data.subrange(pos, k));
        assert(cur.skip(k - pos + 2) =~= data.skip(k + 2));
    } else {
        if k - pos + 1 < cur.len() {
            assert(cur[k - pos + 1] == data[k + 1]);
        }
    }
}

/// With no CR left in the stream, no line can be split off.
proof fn lemma_line_none(data: Seq<u8>, pos: int)
    requires
        0 <= pos <= data.len(),
        forall|t: int| pos <= t < data.len() ==> data[t] != 0x0du8,
    ensures
        split_line(data.skip(pos)) == None::<(Seq<u8>, Seq<u8>)>,
{
    let cur = data.skip(pos);
    assert forall|t: int| 0 <= t < cur.len() implies cur[t] != 0x0du8 by {
        assert(cur[t] == data[pos + t]);
    }
    lemma_find_first_none(cur, 0x0du8);
}

impl Message {
    /// Parses one complete message out of the bytes: leading whitespace,
    /// a CR-LF-terminated first line, header lines up to the empty line,
    /// then a `content-length`-framed body.  The first structural
    /// violation aborts the whole parse with its error; bytes past the
    /// declared body length are left unread.
    pub fn parse(data: &[u8]) -> (r: Result<Message, ParsingError>)
        ensures
            match r {
                Ok(m) => parse_spec(data@) matches Ok(v) && m@ =~~= v && m.headers_wf(),
                Err(e) => parse_spec(data@) == Err::<MessageView, ParsingError>(e),
            },
    {
        let n = data.len();
        let start = skip_ws_index(data);

        // ---- first line ----
        let j = match find_byte(data, start, 0x0d) {
            Some(j) => j,
            None => {
                proof {
                    lemma_line_none(data@, start as int);
                }
                return Err(ParsingError::IndecipherableRequestLine);
            },
        };
        proof {
            lemma_line_at(data@, start as int, j as int);
        }
        if j + 1 >= n || *slice_index_get(data, j + 1) != 0x0a {
            return Err(ParsingError::IndecipherableRequestLine);
        }
        let ghost hb0 = data@.skip(j as int + 2);
        let line = match bytes_to_string(slice_subrange(data, start, j)) {
            Some(line) => line,
            None => {
                return Err(ParsingError::IndecipherableRequestLine);
            },
        };
        let toks = tokenize(line.as_str());
        let ghost stoks = split_spaces(line@);
        proof {
            reveal_strlit("HTTP/1.1");
            assert("HTTP/1.1"@ =~= http_token());
            assert(stoks[0] == toks@[0]@);
        }
        let kind: MessageKind;
        if eq_str(toks[0].as_str(), "HTTP/1.1") {
            if toks.len() < 2 {
                return Err(ParsingError::IndecipherableRequestLine);
            }
            proof {
                assert(stoks[1] == toks@[1]@);
            }
            let code = match dec_parse(toks[1].as_str()) {
                Some(code) => code,
                None => {
                    return Err(ParsingError::IndecipherableRequestLine);
                },
            };
            kind = MessageKind::Response { code: ResponseCode(code) };
            proof {
                assert(parse_first_line(line@) == Ok::<_, ParsingError>(kind@));
            }
        } else {
            let method = match Method::from_str(toks[0].as_str()) {
                Ok(m) => m,
                Err(e) => {
                    return Err(e);
                },
            };
            if toks.len() < 2 {
                return Err(ParsingError::IndecipherableRequestLine);
            }
            proof {
                assert(stoks[1] == toks@[1]@);
            }
            let path = toks[1].clone();
            if toks.len() < 3 {
                return Err(ParsingError::UnsupportedProtocol);
            }
            proof {
                assert(stoks[2] == toks@[2]@);
            }
            if !eq_str(toks[2].as_str(), "HTTP/1.1") {
                return Err(ParsingError::UnsupportedProtocol);
            }
            if toks.len() > 3 {
                return Err(ParsingError::IndecipherableRequestLine);
            }
            kind = MessageKind::Request { method, path };
            proof {
                assert(parse_first_line(line@) == Ok::<_, ParsingError>(kind@));
            }
        }

        // ---- header lines ----
        proof {
            assert(parse_spec(data@) == (match parse_headers(
                hb0,
                Map::<Seq<char>, Seq<char>>::empty(),
            ) {
                Ok(hr) => match parse_body(hr.0, hr.1) {
                    Ok(body) => Ok(MessageView { kind: kind@, headers: hr.0, body }),
                    Err(e) => Err(e),
                },
                Err(e) => Err::<MessageView, ParsingError>(e),
            }));
        }
        let mut hdrs = Headers::new();
        let mut pos: usize = j + 2;
        loop
            invariant_except_break
                parse_headers(hb0, Map::<Seq<char>, Seq<char>>::empty()) == parse_headers(
                    data@.skip(pos as int),
                    hdrs@,
                ),
            invariant
                pos <= n,
                n == data@.len(),
                hdrs.wf(),
                parse_spec(data@) == (match parse_headers(
                    hb0,
                    Map::<Seq<char>, Seq<char>>::empty(),
                ) {
                    Ok(hr) => match parse_body(hr.0, hr.1) {
                        Ok(body) => Ok(MessageView { kind: kind@, headers: hr.0, body }),
                        Err(e) => Err(e),
                    },
                    Err(e) => Err::<MessageView, ParsingError>(e),
                }),
            ensures
                pos <= n,
                n == data@.len(),
                hdrs.wf(),
                parse_spec(data@) == (match parse_headers(
                    hb0,
                    Map::<Seq<char>, Seq<char>>::empty(),
                ) {
                    Ok(hr) => match parse_body(hr.0, hr.1) {
                        Ok(body) => Ok(MessageView { kind: kind@, headers: hr.0, body }),
                        Err(e) => Err(e),
                    },
                    Err(e) => Err::<MessageView, ParsingError>(e),
                }),
                parse_headers(hb0, Map::<Seq<char>, Seq<char>>::empty()) == Ok::<
                    (Map<Seq<char>, Seq<char>>, Seq<u8>),
                    ParsingError,
                >((hdrs@, data@.skip(pos as int))),
            decreases n - pos,
        {
            let ghost cur = data@.skip(pos as int);
            let k = match find_byte(data, pos, 0x0d) {
                Some(k) => k,
                None => {
                    proof {
                        lemma_line_none(data@, pos as int);
                    }
                    return Err(ParsingError::IllegalHeader);
                },
            };
            proof {
                lemma_line_at(data@, pos as int, k as int);
            }
            if k + 1 >= n || *slice_index_get(data, k + 1) != 0x0a {
                return Err(ParsingError::IllegalHeader);
            }
            if k == pos {
                // the empty line ends the header section
                proof {
                    assert(data@.subrange(pos as int, k as int) =~= Seq::<u8>::empty());
                }
                pos = k + 2;
                break;
            }
            let hline = match bytes_to_string(slice_subrange(data, pos, k)) {
                Some(hline) => hline,
                None => {
                    return Err(ParsingError::IllegalHeader);
                },
            };
            let ci = match find_char(hline.as_str(), ':') {
                Some(ci) => ci,
                None => {
                    proof {
                        lemma_find_first_none(hline@, ':');
                    }
                    return Err(ParsingError::IllegalHeader);
                },
            };
            proof {
                lemma_find_first_at(hline@, ':', ci as int);
            }
            let hn = hline.as_str().unicode_len();
            let key = hline.as_str().substring_char(0, ci);
            let after = hline.as_str().substring_char(ci + 1, hn);
            proof {
                assert(hline@.take(ci as int) =~= key@);
                assert(hline@.skip(ci as int + 1) =~= after@);
            }
            let ti = trim_value_index(after);
            let value = after.substring_char(ti, after.unicode_len());
            proof {
                assert(value@ =~= trim_value(after@));
            }
            let ghost acc0 = hdrs@;
            hdrs.fold_insert(key, value);
            pos = k + 2;
            proof {
                assert(parse_headers(cur, acc0) == parse_headers(data@.skip(pos as int), hdrs@));
            }
        }

        // ---- body ----
        proof {
            reveal_strlit("content-length");
            assert("content-length"@ =~= content_length_key());
            assert(lower("content-length"@) =~= content_length_key());
        }
        let ghost rest = data@.skip(pos as int);
        let content: Option<Vec<u8>> = match hdrs.get("content-length") {
            Some(v) => {
                let clen = match dec_parse(v.as_str()) {
                    Some(clen) => clen,
                    None => {
                        return Err(ParsingError::UnparseableContentLength);
                    },
                };
                if clen > n - pos {
                    return Err(ParsingError::ContentTooShort);
                }
                let body = slice_to_vec(slice_subrange(data, pos, pos + clen));
                proof {
                    assert(body@ =~= rest.take(clen as int));
                }
                Some(body)
            },
            None => None,
        };
        let m = Message::assemble(kind, hdrs, content);
        proof {
            assert(m@ =~~= parse_spec(data@)->Ok_0);
        }
        Ok(m)
    }
}

} // verus!
