//! The properties the codec guarantees across calls, chief among them the
//! round trip: parsing a serialized message reproduces its kind, its
//! header mapping and its body.

use vstd::prelude::*;
use vstd::utf8::{
    decode_utf8, encode_scalar, encode_utf8, encode_utf8_decode_utf8, encode_utf8_valid_utf8,
    valid_utf8,
};
use crate::code::{lemma_reason_phrase_no_cr, reason_phrase};
use crate::encoding::{lemma_encode_no_ascii_byte, lemma_encode_scalar_ascii, lemma_encode_utf8_concat};
use crate::error::ParsingError;
use crate::method::{lemma_method_token_round_trip, method_token, Method};
use crate::model::{
    content_length_key, distinct_keys, first_line_chars, fold_header, head_chars,
    header_line_chars, header_lines_chars, headers_map_of, http_token, key_index,
    lemma_headers_map_of, lemma_key_index, parse_body, parse_first_line, parse_headers,
    parse_spec, serialize_spec, KindView, MessageView,
};
use crate::text::{
    dec_num, dec_str, is_digit, is_value_pad, lemma_dec_str_digits, lemma_dec_val_of_dec_str,
    lemma_split_colon_at, lemma_split_line_at, lemma_split_spaces_step, lemma_split_spaces_whole,
    lower, skip_ws, split_line, split_spaces, trim_value,
};

verus! {

/// The character does not occur in the sequence.
pub open spec fn absent(s: Seq<char>, c: char) -> bool {
    forall|i: int| 0 <= i < s.len() ==> s[i] != c
}

proof fn lemma_absent_concat(a: Seq<char>, b: Seq<char>, c: char)
    requires
        absent(a, c),
        absent(b, c),
    ensures
        absent(a + b, c),
{
    assert forall|i: int| 0 <= i < (a + b).len() implies (a + b)[i] != c by {
        if i < a.len() {
            assert((a + b)[i] == a[i]);
        } else {
            assert((a + b)[i] == b[i - a.len()]);
        }
    }
}

proof fn lemma_encode_crlf()
    ensures
        encode_utf8(seq!['\r', '\n']) == seq![0x0du8, 0x0au8],
{
    let s = seq!['\r', '\n'];
    lemma_encode_scalar_ascii('\r');
    lemma_encode_scalar_ascii('\n');
    assert(s.drop_first() =~= seq!['\n']);
    assert(seq!['\n'].drop_first() =~= Seq::<char>::empty());
    assert(encode_utf8(Seq::<char>::empty()) =~= Seq::<u8>::empty());
    assert(encode_utf8(seq!['\n']) =~= seq![0x0au8]);
    assert(encode_utf8(s) =~= seq![0x0du8, 0x0au8]);
}

proof fn lemma_encode_nonempty(s: Seq<char>)
    requires
        s.len() > 0,
    ensures
        encode_utf8(s).len() > 0,
{
    assert(encode_scalar(s[0] as u32).len() > 0);
}

/// One CR-LF-terminated line of safe text peels off the byte stream
/// exactly, and decodes back to its characters.
proof fn lemma_wire_line(line: Seq<char>, rest: Seq<u8>)
    requires
        absent(line, '\r'),
    ensures
        split_line(encode_utf8(line) + seq![0x0du8, 0x0au8] + rest) == Some(
            (encode_utf8(line), rest),
        ),
        valid_utf8(encode_utf8(line)),
        decode_utf8(encode_utf8(line)) == line,
{
    lemma_encode_no_ascii_byte(line, '\r', 0x0du8);
    lemma_split_line_at(encode_utf8(line), rest);
    encode_utf8_valid_utf8(line);
    encode_utf8_decode_utf8(line);
}

proof fn lemma_http_token_shape()
    ensures
        absent(http_token(), '\r'),
        absent(http_token(), ' '),
        http_token().len() == 8,
{
}

proof fn lemma_method_token_shape(m: Method)
    ensures
        absent(method_token(m), '\r'),
        absent(method_token(m), ' '),
        1 <= method_token(m).len() <= 7,
        0x41 <= method_token(m)[0] as u32 <= 0x5a,
        method_token(m) != http_token(),
{
    assert(method_token(m).len() != http_token().len());
}

proof fn lemma_dec_str_shape(n: nat)
    ensures
        absent(dec_str(n), '\r'),
        absent(dec_str(n), ' '),
{
    lemma_dec_str_digits(n);
    assert forall|i: int| 0 <= i < dec_str(n).len() implies dec_str(n)[i] != '\r' && dec_str(
        n,
    )[i] != ' ' by {
        assert(is_digit(dec_str(n)[i]));
    }
}

/// Reading the serialized header section folds exactly the written
/// entries, in order, into the accumulator, and hands the stream after
/// the blank line back untouched.
proof fn lemma_parse_headers_round(
    hs: Seq<(Seq<char>, Seq<char>)>,
    acc: Map<Seq<char>, Seq<char>>,
    tail: Seq<u8>,
)
    requires
        distinct_keys(hs),
        forall|i: int| 0 <= i < hs.len() ==> lower((#[trigger] hs[i]).0) == hs[i].0,
        forall|i: int| 0 <= i < hs.len() ==> absent((#[trigger] hs[i]).0, '\r'),
        forall|i: int| 0 <= i < hs.len() ==> absent((#[trigger] hs[i]).0, ':'),
        forall|i: int| 0 <= i < hs.len() ==> absent((#[trigger] hs[i]).1, '\r'),
        forall|i: int|
            0 <= i < hs.len() ==> ((#[trigger] hs[i]).1.len() > 0 ==> !is_value_pad(hs[i].1[0])),
        forall|i: int| 0 <= i < hs.len() ==> !acc.contains_key((#[trigger] hs[i]).0),
    ensures
        parse_headers(encode_utf8(header_lines_chars(hs) + seq!['\r', '\n']) + tail, acc) == Ok::<
            (Map<Seq<char>, Seq<char>>, Seq<u8>),
            ParsingError,
        >((acc.union_prefer_right(headers_map_of(hs)), tail)),
    decreases hs.len(),
{
    lemma_encode_crlf();
    if hs.len() == 0 {
        assert(header_lines_chars(hs) + seq!['\r', '\n'] =~= seq!['\r', '\n']);
        assert(encode_utf8(seq!['\r', '\n']) + tail =~= Seq::<u8>::empty() + seq![
            0x0du8,
            0x0au8,
        ] + tail);
        assert(forall|j: int|
            0 <= j < Seq::<u8>::empty().len() ==> Seq::<u8>::empty()[j] != 0x0du8);
        lemma_split_line_at(Seq::<u8>::empty(), tail);
        assert(acc.union_prefer_right(headers_map_of(hs)) =~= acc);
    } else {
        let k0 = hs[0].0;
        let v0 = hs[0].1;
        let rest = hs.drop_first();
        let line0 = header_line_chars(k0, v0);
        let restchars = header_lines_chars(rest) + seq!['\r', '\n'];

        // the byte stream decomposes as the first line, CR LF, the rest
        assert(header_lines_chars(hs) + seq!['\r', '\n'] =~= line0 + seq!['\r', '\n']
            + restchars);
        lemma_encode_utf8_concat(line0 + seq!['\r', '\n'], restchars);
        lemma_encode_utf8_concat(line0, seq!['\r', '\n']);
        let bytes = encode_utf8(header_lines_chars(hs) + seq!['\r', '\n']) + tail;
        assert(bytes =~= encode_utf8(line0) + seq![0x0du8, 0x0au8] + (encode_utf8(restchars)
            + tail));

        // the first line splits off and reads as its entry
        assert(absent(line0, '\r')) by {
            assert(absent(k0, '\r'));
            assert(absent(v0, '\r'));
            assert(seq![':', ' '][0] != '\r');
            assert(seq![':', ' '][1] != '\r');
            assert(absent(seq![':', ' '], '\r'));
            lemma_absent_concat(k0, seq![':', ' '], '\r');
            lemma_absent_concat(k0 + seq![':', ' '], v0, '\r');
        }
        lemma_wire_line(line0, encode_utf8(restchars) + tail);
        lemma_encode_nonempty(line0);
        assert(absent(k0, ':'));
        assert(line0 =~= k0 + seq![':'] + (seq![' '] + v0));
        lemma_split_colon_at(k0, seq![' '] + v0);
        assert(trim_value(seq![' '] + v0) == v0) by {
            assert(is_value_pad((seq![' '] + v0)[0]));
            assert((seq![' '] + v0).drop_first() =~= v0);
            crate::text::lemma_trim_value_clean(v0);
        }
        assert(lower(k0) == k0);
        assert(!acc.contains_key(k0));
        assert(fold_header(acc, k0, v0) == acc.insert(k0, v0));

        // the remaining lines fold in behind it
        let acc2 = acc.insert(k0, v0);
        assert(distinct_keys(rest) && forall|i: int|
            0 <= i < rest.len() ==> (#[trigger] rest[i]) == hs[i + 1]) by {
            assert forall|a: int, b: int| 0 <= a < b < rest.len() implies (#[trigger] rest[a]).0
                != (#[trigger] rest[b]).0 by {
                assert(rest[a] == hs[a + 1]);
                assert(rest[b] == hs[b + 1]);
            }
        }
        assert forall|i: int| 0 <= i < rest.len() implies !acc2.contains_key(
            (#[trigger] rest[i]).0,
        ) by {
            assert(rest[i] == hs[i + 1]);
            assert(hs[0].0 != hs[i + 1].0);
        }
        lemma_parse_headers_round(rest, acc2, tail);

        assert(parse_headers(bytes, acc) == Ok::<(Map<Seq<char>, Seq<char>>, Seq<u8>),
            ParsingError,
        >((acc2.union_prefer_right(headers_map_of(rest)), tail)));

        // the two accumulation orders agree
        lemma_headers_map_of(hs);
        lemma_headers_map_of(rest);
        assert(acc2.union_prefer_right(headers_map_of(rest)) =~= acc.union_prefer_right(
            headers_map_of(hs),
        )) by {
            lemma_key_index(hs, k0);
            assert forall|x: Seq<char>|
                #[trigger] headers_map_of(hs).contains_key(x) implies (x == k0
                || headers_map_of(rest).contains_key(x)) by {
                lemma_key_index(hs, x);
                lemma_key_index(rest, x);
                if x != k0 {
                    let i = key_index(hs, x)->0;
                    assert(hs[i].0 == x);
                    assert(rest[i - 1] == hs[i]);
                    match key_index(rest, x) {
                        Some(_) => {},
                        None => {
                            assert(rest[i - 1].0 != x);
                        },
                    }
                }
            }
            assert forall|x: Seq<char>|
                #[trigger] headers_map_of(rest).contains_key(x) implies headers_map_of(
                hs,
            ).contains_key(x) && x != k0 by {
                lemma_key_index(rest, x);
                lemma_key_index(hs, x);
                let i = key_index(rest, x)->0;
                assert(rest[i] == hs[i + 1]);
                assert(hs[i + 1].0 == x);
                assert(hs[0].0 != hs[i + 1].0);
                match key_index(hs, x) {
                    Some(_) => {},
                    None => {
                        assert(hs[i + 1].0 != x);
                    },
                }
            }
            assert(headers_map_of(hs) == headers_map_of(rest).insert(k0, v0));
            assert forall|x: Seq<char>|
                headers_map_of(rest).contains_key(x) implies #[trigger] headers_map_of(rest)[x]
                == headers_map_of(hs)[x] by {
                assert(x != k0);
            }
        }
    }
}

/// Entries whose text cannot break the wire framing: no carriage return
/// anywhere, no colon in the key, no leading space or tab in the value.
pub open spec fn wire_safe_entry(k: Seq<char>, v: Seq<char>) -> bool {
    &&& absent(k, '\r')
    &&& absent(k, ':')
    &&& absent(v, '\r')
    &&& (v.len() > 0 ==> !is_value_pad(v[0]))
}

/// A kind whose first line reads back identically: a request path free of
/// carriage returns and spaces; a response code a machine word can hold.
pub open spec fn wire_safe_kind(k: KindView) -> bool {
    match k {
        KindView::Request { method, path } => absent(path, '\r') && absent(path, ' '),
        KindView::Response { code } => code <= usize::MAX as nat,
    }
}

/// Everything the round trip asks of a message: a wire-safe kind; header
/// entries with distinct, lowercased, wire-safe keys and wire-safe values;
/// and a `content-length` entry reading as exactly the body's length,
/// present exactly when a body is — what the mutation API maintains.
pub open spec fn wire_wf(
    k: KindView,
    hs: Seq<(Seq<char>, Seq<char>)>,
    body: Option<Seq<u8>>,
) -> bool {
    &&& wire_safe_kind(k)
    &&& distinct_keys(hs)
    &&& (forall|i: int| 0 <= i < hs.len() ==> lower((#[trigger] hs[i]).0) == hs[i].0)
    &&& (forall|i: int| 0 <= i < hs.len() ==> wire_safe_entry((#[trigger] hs[i]).0, hs[i].1))
    &&& match body {
        Some(b) => headers_map_of(hs).contains_key(content_length_key()) && dec_num(
            headers_map_of(hs)[content_length_key()],
        ) == Some(b.len()),
        None => !headers_map_of(hs).contains_key(content_length_key()),
    }
}

/// The round trip: parsing a serialized message succeeds and reproduces
/// its kind, its header mapping — key for key and value for value, order
/// aside — and its body bytes, the serializer's trailing CR LF after the
/// body notwithstanding.
pub proof fn lemma_round_trip(k: KindView, hs: Seq<(Seq<char>, Seq<char>)>, body: Option<Seq<u8>>)
    requires
        wire_wf(k, hs, body),
    ensures
        parse_spec(serialize_spec(k, hs, body)) == Ok::<MessageView, ParsingError>(
            MessageView { kind: k, headers: headers_map_of(hs), body },
        ),
{
    let fl = first_line_chars(k);
    let restchars = header_lines_chars(hs) + seq!['\r', '\n'];
    let tailb = match body {
        Some(b) => b + seq![0x0du8, 0x0au8],
        None => Seq::<u8>::empty(),
    };
    let wire = serialize_spec(k, hs, body);
    lemma_encode_crlf();
    lemma_http_token_shape();

    // the first line is free of carriage returns and starts with a capital
    assert(absent(fl, '\r') && fl.len() > 0 && 0x41 <= fl[0] as u32 <= 0x5a) by {
        match k {
            KindView::Request { method, path } => {
                lemma_method_token_shape(method);
                lemma_absent_concat(method_token(method), seq![' '], '\r');
                lemma_absent_concat(method_token(method) + seq![' '], path, '\r');
                lemma_absent_concat(method_token(method) + seq![' '] + path, seq![' '], '\r');
                lemma_absent_concat(
                    method_token(method) + seq![' '] + path + seq![' '],
                    http_token(),
                    '\r',
                );
                assert(fl[0] == method_token(method)[0]);
            },
            KindView::Response { code } => {
                lemma_dec_str_shape(code);
                lemma_reason_phrase_no_cr(code);
                assert(absent(reason_phrase(code), '\r'));
                lemma_absent_concat(http_token(), seq![' '], '\r');
                lemma_absent_concat(http_token() + seq![' '], dec_str(code), '\r');
                lemma_absent_concat(http_token() + seq![' '] + dec_str(code), seq![' '], '\r');
                lemma_absent_concat(
                    http_token() + seq![' '] + dec_str(code) + seq![' '],
                    reason_phrase(code),
                    '\r',
                );
                assert(fl[0] == http_token()[0]);
                assert(('H' as u32) == 72);
            },
        }
    }

    // the wire decomposes as first line, CR LF, header section, body
    assert(head_chars(k, hs) =~= fl + seq!['\r', '\n'] + restchars);
    lemma_encode_utf8_concat(fl + seq!['\r', '\n'], restchars);
    lemma_encode_utf8_concat(fl, seq!['\r', '\n']);
    assert(wire =~= encode_utf8(fl) + seq![0x0du8, 0x0au8] + (encode_utf8(restchars) + tailb));

    // no leading whitespace is skipped
    assert(skip_ws(wire) == wire) by {
        assert(encode_utf8(fl) == encode_scalar(fl[0] as u32) + encode_utf8(fl.drop_first()));
        lemma_encode_scalar_ascii(fl[0]);
        assert(encode_utf8(fl)[0] == (fl[0] as u32) as u8);
        assert(wire[0] == encode_utf8(fl)[0]);
        assert(!crate::text::is_ws_byte(wire[0]));
    }

    // the first line splits off and decodes back
    lemma_wire_line(fl, encode_utf8(restchars) + tailb);
    assert(split_line(skip_ws(wire)) == Some(
        (encode_utf8(fl), encode_utf8(restchars) + tailb),
    ));

    // the decoded first line reads back as the kind
    assert(parse_first_line(fl) == Ok::<KindView, ParsingError>(k)) by {
        match k {
            KindView::Request { method, path } => {
                lemma_method_token_shape(method);
                let mt = method_token(method);
                assert(fl =~= mt + seq![' '] + (path + seq![' '] + http_token()));
                lemma_split_spaces_step(mt, path + seq![' '] + http_token());
                lemma_split_spaces_step(path, http_token());
                lemma_split_spaces_whole(http_token());
                let toks = split_spaces(fl);
                assert(toks =~= seq![mt, path, http_token()]);
                assert(toks[0] != http_token());
                lemma_method_token_round_trip(method);
            },
            KindView::Response { code } => {
                lemma_dec_str_shape(code);
                assert(fl =~= http_token() + seq![' '] + (dec_str(code) + seq![' ']
                    + reason_phrase(code)));
                lemma_split_spaces_step(http_token(), dec_str(code) + seq![' '] + reason_phrase(
                    code,
                ));
                lemma_split_spaces_step(dec_str(code), reason_phrase(code));
                let toks = split_spaces(fl);
                assert(toks[0] == http_token());
                assert(toks[1] == dec_str(code));
                assert(toks.len() >= 2);
                lemma_dec_str_digits(code);
                lemma_dec_val_of_dec_str(code);
                assert(dec_num(dec_str(code)) == Some(code));
            },
        }
    }

    // the header section folds back to exactly the stored entries
    assert forall|i: int| 0 <= i < hs.len() implies absent((#[trigger] hs[i]).0, '\r') && absent(
        hs[i].0,
        ':',
    ) && absent(hs[i].1, '\r') && (hs[i].1.len() > 0 ==> !is_value_pad(hs[i].1[0])) by {
        assert(wire_safe_entry(hs[i].0, hs[i].1));
    }
    lemma_parse_headers_round(hs, Map::<Seq<char>, Seq<char>>::empty(), tailb);
    let hmap = headers_map_of(hs);
    assert(Map::<Seq<char>, Seq<char>>::empty().union_prefer_right(hmap) =~= hmap);

    // the body frames back to exactly the stored bytes
    assert(parse_body(hmap, tailb) == Ok::<Option<Seq<u8>>, ParsingError>(body)) by {
        match body {
            Some(b) => {
                assert(tailb.len() == b.len() + 2);
                assert(tailb.take(b.len() as int) =~= b);
            },
            None => {},
        }
    }

    assert(parse_spec(wire) matches Ok(v) && v =~~= MessageView {
        kind: k,
        headers: hmap,
        body,
    });
}

/// Header folding: two header lines whose keys agree case-insensitively
/// end up as one entry under the lowercased key, the second value appended
/// to the first after a comma and a space.
pub proof fn lemma_header_folding(
    k1: Seq<char>,
    v1: Seq<char>,
    k2: Seq<char>,
    v2: Seq<char>,
    tail: Seq<u8>,
)
    requires
        lower(k1) == lower(k2),
        absent(k1, '\r'),
        absent(k1, ':'),
        absent(k2, '\r'),
        absent(k2, ':'),
        absent(v1, '\r'),
        absent(v2, '\r'),
        v1.len() > 0 ==> !is_value_pad(v1[0]),
        v2.len() > 0 ==> !is_value_pad(v2[0]),
    ensures
        parse_headers(
            encode_utf8(
                header_line_chars(k1, v1) + seq!['\r', '\n'] + header_line_chars(k2, v2) + seq![
                    '\r',
                    '\n',
                ] + seq!['\r', '\n'],
            ) + tail,
            Map::<Seq<char>, Seq<char>>::empty(),
        ) == Ok::<(Map<Seq<char>, Seq<char>>, Seq<u8>), ParsingError>(
            (
                Map::<Seq<char>, Seq<char>>::empty().insert(
                    lower(k1),
                    v1 + seq![',', ' '] + v2,
                ),
                tail,
            ),
        ),
{
    lemma_encode_crlf();
    let line1 = header_line_chars(k1, v1);
    let line2 = header_line_chars(k2, v2);
    let all = line1 + seq!['\r', '\n'] + line2 + seq!['\r', '\n'] + seq!['\r', '\n'];
    assert(absent(line1, '\r')) by {
        assert(absent(seq![':', ' '], '\r'));
        lemma_absent_concat(k1, seq![':', ' '], '\r');
        lemma_absent_concat(k1 + seq![':', ' '], v1, '\r');
    }
    assert(absent(line2, '\r')) by {
        assert(absent(seq![':', ' '], '\r'));
        lemma_absent_concat(k2, seq![':', ' '], '\r');
        lemma_absent_concat(k2 + seq![':', ' '], v2, '\r');
    }
    assert(all =~= line1 + seq!['\r', '\n'] + (line2 + seq!['\r', '\n'] + seq!['\r', '\n']));
    lemma_encode_utf8_concat(line1 + seq!['\r', '\n'], line2 + seq!['\r', '\n'] + seq![
        '\r',
        '\n',
    ]);
    lemma_encode_utf8_concat(line1, seq!['\r', '\n']);
    let bytes2 = encode_utf8(line2 + seq!['\r', '\n'] + seq!['\r', '\n']) + tail;
    assert(encode_utf8(all) + tail =~= encode_utf8(line1) + seq![0x0du8, 0x0au8] + bytes2);
    lemma_wire_line(line1, bytes2);
    lemma_encode_nonempty(line1);
    assert(line1 =~= k1 + seq![':'] + (seq![' '] + v1));
    lemma_split_colon_at(k1, seq![' '] + v1);
    assert(trim_value(seq![' '] + v1) == v1) by {
        assert(is_value_pad((seq![' '] + v1)[0]));
        assert((seq![' '] + v1).drop_first() =~= v1);
        crate::text::lemma_trim_value_clean(v1);
    }
    let acc1 = Map::<Seq<char>, Seq<char>>::empty().insert(lower(k1), v1);
    assert(fold_header(Map::<Seq<char>, Seq<char>>::empty(), lower(k1), v1) =~= acc1);
    assert(parse_headers(encode_utf8(all) + tail, Map::<Seq<char>, Seq<char>>::empty())
        == parse_headers(bytes2, fold_header(Map::<Seq<char>, Seq<char>>::empty(), lower(k1), v1)));

    assert(line2 + seq!['\r', '\n'] + seq!['\r', '\n'] =~= line2 + seq!['\r', '\n'] + seq![
        '\r',
        '\n',
    ]);
    lemma_encode_utf8_concat(line2 + seq!['\r', '\n'], seq!['\r', '\n']);
    lemma_encode_utf8_concat(line2, seq!['\r', '\n']);
    let bytes3 = encode_utf8(seq!['\r', '\n']) + tail;
    assert(bytes2 =~= encode_utf8(line2) + seq![0x0du8, 0x0au8] + bytes3);
    lemma_wire_line(line2, bytes3);
    lemma_encode_nonempty(line2);
    assert(line2 =~= k2 + seq![':'] + (seq![' '] + v2));
    lemma_split_colon_at(k2, seq![' '] + v2);
    assert(trim_value(seq![' '] + v2) == v2) by {
        assert(is_value_pad((seq![' '] + v2)[0]));
        assert((seq![' '] + v2).drop_first() =~= v2);
        crate::text::lemma_trim_value_clean(v2);
    }
    assert(acc1.contains_key(lower(k2)));
    let acc2 = acc1.insert(lower(k1), v1 + seq![',', ' '] + v2);
    assert(acc1[lower(k2)] == v1);
    assert(fold_header(acc1, lower(k2), v2) =~= acc2);
    assert(parse_headers(bytes2, acc1) == parse_headers(bytes3, fold_header(acc1, lower(k2), v2)));

    assert(bytes3 =~= Seq::<u8>::empty() + seq![0x0du8, 0x0au8] + tail);
    assert(forall|j: int| 0 <= j < Seq::<u8>::empty().len() ==> Seq::<u8>::empty()[j] != 0x0du8);
    lemma_split_line_at(Seq::<u8>::empty(), tail);
    assert(parse_headers(bytes3, acc2) == Ok::<(Map<Seq<char>, Seq<char>>, Seq<u8>),
        ParsingError,
    >((acc2, tail)));
    assert(acc2 =~= Map::<Seq<char>, Seq<char>>::empty().insert(
        lower(k1),
        v1 + seq![',', ' '] + v2,
    ));
}

/// The round trip at the message level: for a wire-safe message, parsing
/// the serialized bytes gives back exactly the message's view.
pub proof fn lemma_message_round_trip(m: crate::message::Message)
    requires
        wire_wf(m@.kind, m.hseq(), m@.body),
    ensures
        parse_spec(serialize_spec(m@.kind, m.hseq(), m@.body)) == Ok::<MessageView, ParsingError>(
            m@,
        ),
{
    lemma_round_trip(m@.kind, m.hseq(), m@.body);
    crate::message::lemma_message_invariants(m);
    assert(m@ =~~= MessageView {
        kind: m@.kind,
        headers: headers_map_of(m.hseq()),
        body: m@.body,
    });
}

/// Without a `content-length` header the parsed message has no body, no
/// matter what bytes trail the header section.
pub proof fn lemma_no_content_length_no_body(data: Seq<u8>)
    ensures
        parse_spec(data) matches Ok(v) && !v.headers.contains_key(content_length_key())
            ==> parse_spec(data)->Ok_0.body is None,
{
}

/// A carriage return in the first line without a line feed right behind it
/// makes the whole first line indecipherable, wherever it sits.
pub proof fn lemma_bare_cr_first_line(data: Seq<u8>, i: int)
    requires
        0 <= i < skip_ws(data).len(),
        skip_ws(data)[i] == 0x0du8,
        forall|j: int| 0 <= j < i ==> skip_ws(data)[j] != 0x0du8,
        !(i + 1 < skip_ws(data).len() && skip_ws(data)[i + 1] == 0x0au8),
    ensures
        parse_spec(data) == Err::<MessageView, ParsingError>(
            ParsingError::IndecipherableRequestLine,
        ),
{
    crate::text::lemma_find_first_at(skip_ws(data), 0x0du8, i);
}

/// A carriage return in a header line without a line feed right behind it
/// makes that header illegal, wherever it sits in the line.
pub proof fn lemma_bare_cr_header(data: Seq<u8>, acc: Map<Seq<char>, Seq<char>>, i: int)
    requires
        0 <= i < data.len(),
        data[i] == 0x0du8,
        forall|j: int| 0 <= j < i ==> data[j] != 0x0du8,
        !(i + 1 < data.len() && data[i + 1] == 0x0au8),
    ensures
        parse_headers(data, acc) == Err::<(Map<Seq<char>, Seq<char>>, Seq<u8>), ParsingError>(
            ParsingError::IllegalHeader,
        ),
{
    crate::text::lemma_find_first_at(data, 0x0du8, i);
}

} // verus!
