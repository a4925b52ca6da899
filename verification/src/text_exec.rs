//! Executable counterparts of the text model: byte scanning, tokenizing,
//! lowercasing, and decimal parsing and rendering, each verified against
//! the specifications in [`crate::text`].

use vstd::prelude::*;
use vstd::slice::slice_index_get;
use vstd::string::{StrSliceExecFns, StringExecFns};
use vstd::utf8::{encode_utf8_decode_utf8, encode_utf8_valid_utf8};
use crate::encoding::{bytes_to_string, lemma_lower_bytes, lower_byte};
use crate::text::{
    all_digits, dec_num, dec_str, dec_val, digit_char, digit_val, is_digit, is_value_pad,
    is_ws_byte, lemma_dec_val_prefix_le, lemma_dec_val_snoc, lemma_digit_char_val,
    lemma_skip_ws_prefix, lower, lower_char, skip_ws, split_spaces, trim_value,
    lemma_find_first_at, lemma_find_first_none, lemma_split_spaces_step,
    lemma_split_spaces_whole,
};

verus! {

/// Index of the first non-whitespace byte: everything before it is the
/// whitespace prefix that [`skip_ws`] discards.
pub(crate) fn skip_ws_index(data: &[u8]) -> (i: usize)
    ensures
        i <= data@.len(),
        skip_ws(data@) == data@.skip(i as int),
{
    let n = data.len();
    let mut i: usize = 0;
    while i < n
        invariant
            i <= n,
            n == data@.len(),
            forall|j: int| 0 <= j < i ==> is_ws_byte(data@[j]),
        decreases n - i,
    {
        let b = *slice_index_get(data, i);
        if !(b == 0x20 || b == 0x09 || b == 0x0a || b == 0x0c || b == 0x0d) {
            proof {
                lemma_skip_ws_prefix(data@, i as int);
                assert(!is_ws_byte(data@.skip(i as int)[0]));
            }
            return i;
        }
        i += 1;
    }
    proof {
        lemma_skip_ws_prefix(data@, i as int);
        assert(data@.skip(i as int) =~= Seq::<u8>::empty());
    }
    i
}

/// First occurrence of byte `x` at or after `from`.
pub(crate) fn find_byte(data: &[u8], from: usize, x: u8) -> (r: Option<usize>)
    requires
        from <= data@.len(),
    ensures
        match r {
            Some(j) => from <= j < data@.len() && data@[j as int] == x && (forall|k: int|
                from <= k < j ==> data@[k] != x),
            None => forall|k: int| from <= k < data@.len() ==> data@[k] != x,
        },
{
    let n = data.len();
    let mut i: usize = from;
    while i < n
        invariant
            from <= i <= n,
            n == data@.len(),
            forall|k: int| from <= k < i ==> data@[k] != x,
        decreases n - i,
    {
        if *slice_index_get(data, i) == x {
            return Some(i);
        }
        i += 1;
    }
    None
}

/// First occurrence of character `c` in the string.
pub(crate) fn find_char(s: &str, c: char) -> (r: Option<usize>)
    ensures
        match r {
            Some(j) => j < s@.len() && s@[j as int] == c && (forall|k: int|
                0 <= k < j ==> s@[k] != c),
            None => forall|k: int| 0 <= k < s@.len() ==> s@[k] != c,
        },
{
    let n = s.unicode_len();
    let mut i: usize = 0;
    while i < n
        invariant
            i <= n,
            n == s@.len(),
            forall|k: int| 0 <= k < i ==> s@[k] != c,
        decreases n - i,
    {
        if s.get_char(i) == c {
            return Some(i);
        }
        i += 1;
    }
    None
}

/// Character-for-character string equality.
pub(crate) fn eq_str(a: &str, b: &str) -> (r: bool)
    ensures
        r == (a@ == b@),
{
    let na = a.unicode_len();
    let nb = b.unicode_len();
    if na != nb {
        return false;
    }
    let mut i: usize = 0;
    while i < na
        invariant
            i <= na,
            na == a@.len(),
            na == b@.len(),
            forall|j: int| 0 <= j < i ==> a@[j] == b@[j],
        decreases na - i,
    {
        if a.get_char(i) != b.get_char(i) {
            return false;
        }
        i += 1;
    }
    proof {
        assert(a@ =~= b@);
    }
    true
}

/// ASCII-lowercases a string, working on the UTF-8 bytes; characters
/// outside `A`..`Z` pass through untouched.
pub(crate) fn lower_string(s: &str) -> (r: String)
    ensures
        r@ == lower(s@),
{
    let bs = s.as_bytes();
    let n = bs.len();
    let mut out: Vec<u8> = Vec::new();
    let mut i: usize = 0;
    while i < n
        invariant
            i <= n,
            n == bs@.len(),
            out@.len() == i,
            forall|j: int| 0 <= j < i ==> out@[j] == lower_byte(bs@[j]),
        decreases n - i,
    {
        let b = *slice_index_get(bs, i);
        let lb = if 0x41 <= b && b <= 0x5a {
            b + 0x20
        } else {
            b
        };
        out.push(lb);
        i += 1;
    }
    proof {
        lemma_lower_bytes(s@);
        assert(out@ =~= Seq::new(
            vstd::utf8::encode_utf8(s@).len(),
            |j: int| lower_byte(vstd::utf8::encode_utf8(s@)[j]),
        ));
        encode_utf8_valid_utf8(lower(s@));
        encode_utf8_decode_utf8(lower(s@));
    }
    match bytes_to_string(out.as_slice()) {
        Some(t) => t,
        None => vstd::pervasive::unreached(),
    }
}

/// Splits a string on single spaces, as the first line of a message is
/// split into its tokens.
pub(crate) fn tokenize(s: &str) -> (r: Vec<String>)
    ensures
        r.deep_view() == split_spaces(s@),
        r.len() >= 1,
{
    let n = s.unicode_len();
    let mut toks: Vec<String> = Vec::new();
    let mut pos: usize = 0;
    proof {
        assert(s@.skip(0) =~= s@);
        assert(toks.deep_view() =~~= Seq::<Seq<char>>::empty());
        assert(Seq::<Seq<char>>::empty() + split_spaces(s@) =~~= split_spaces(s@));
    }
    loop
        invariant
            pos <= n,
            n == s@.len(),
            split_spaces(s@) =~~= toks.deep_view() + split_spaces(s@.skip(pos as int)),
        decreases n - pos,
    {
        // scan for the next space
        let mut j: usize = pos;
        let mut found: bool = false;
        while j < n && !found
            invariant
                pos <= j <= n,
                n == s@.len(),
                found ==> j < n && s@[j as int] == ' ',
                forall|k: int| pos <= k < j ==> s@[k] != ' ',
            decreases n - j, (if found { 0int } else { 1int }),
        {
            if s.get_char(j) == ' ' {
                found = true;
            } else {
                j += 1;
            }
        }
        let ghost rem = s@.skip(pos as int);
        let ghost prev_dv = toks.deep_view();
        if found {
            let tok = String::from_str(s.substring_char(pos, j));
            proof {
                assert forall|k: int| 0 <= k < j - pos implies #[trigger] rem.take(j - pos)[k]
                    != ' ' by {
                    assert(0 <= k < rem.len());
                    assert(rem[k] == s@[pos + k]);
                    assert(rem.take(j - pos)[k] == rem[k]);
                    assert(s@[pos + k] != ' ');
                }
                lemma_split_spaces_step(rem.take(j - pos), rem.skip(j - pos + 1));
                assert(rem.take(j - pos) + seq![' '] + rem.skip(j - pos + 1) =~= rem);
                assert(tok@ == rem.take(j - pos)) by {
                    assert(rem.take(j - pos) =~= s@.subrange(pos as int, j as int));
                }
                assert(rem.skip(j - pos + 1) =~= s@.skip(j as int + 1));
            }
            toks.push(tok);
            pos = j + 1;
            proof {
                assert(toks.deep_view() =~~= prev_dv + seq![tok@]);
                assert(prev_dv + (seq![tok@] + split_spaces(s@.skip(pos as int))) =~~= (prev_dv
                    + seq![tok@]) + split_spaces(s@.skip(pos as int)));
            }
        } else {
            let tok = String::from_str(s.substring_char(pos, n));
            proof {
                assert forall|k: int| 0 <= k < rem.len() implies rem[k] != ' ' by {
                    assert(rem[k] == s@[pos + k]);
                }
                lemma_split_spaces_whole(rem);
                assert(rem =~= s@.subrange(pos as int, n as int));
            }
            toks.push(tok);
            proof {
                assert(toks.deep_view() =~~= prev_dv + seq![tok@]);
                assert(split_spaces(s@) =~~= toks.deep_view());
            }
            return toks;
        }
    }
}

/// Index where the leading space-or-tab padding of a header value ends.
pub(crate) fn trim_value_index(s: &str) -> (i: usize)
    ensures
        i <= s@.len(),
        trim_value(s@) == s@.skip(i as int),
{
    let n = s.unicode_len();
    let mut i: usize = 0;
    while i < n
        invariant
            i <= n,
            n == s@.len(),
            forall|j: int| 0 <= j < i ==> is_value_pad(s@[j]),
        decreases n - i,
    {
        let c = s.get_char(i);
        if !(c == ' ' || c == '\t') {
            proof {
                lemma_trim_value_prefix(s@, i as int);
                assert(!is_value_pad(s@.skip(i as int)[0]));
            }
            return i;
        }
        i += 1;
    }
    proof {
        lemma_trim_value_prefix(s@, i as int);
        assert(s@.skip(i as int) =~= Seq::<char>::empty());
    }
    i
}

proof fn lemma_trim_value_prefix(s: Seq<char>, i: int)
    requires
        0 <= i <= s.len(),
        forall|j: int| 0 <= j < i ==> is_value_pad(s[j]),
    ensures
        trim_value(s) == trim_value(s.skip(i)),
    decreases i,
{
    if i > 0 {
        assert(is_value_pad(s[0]));
        assert(s.drop_first() =~= s.skip(1));
        assert forall|j: int| 0 <= j < i - 1 implies is_value_pad(s.skip(1)[j]) by {
            assert(s.skip(1)[j] == s[j + 1]);
        }
        lemma_trim_value_prefix(s.skip(1), i - 1);
        assert(s.skip(1).skip(i - 1) =~= s.skip(i));
    } else {
        assert(s.skip(0) =~= s);
    }
}

/// Reads a token as a non-negative integer: digits only, value within
/// `usize`.  Exactly the strict reading [`dec_num`] describes.
pub(crate) fn dec_parse(s: &str) -> (r: Option<usize>)
    ensures
        match r {
            Some(n) => dec_num(s@) == Some(n as nat),
            None => dec_num(s@) is None,
        },
{
    let n = s.unicode_len();
    if n == 0 {
        return None;
    }
    let mut acc: usize = 0;
    let mut i: usize = 0;
    while i < n
        invariant
            i <= n,
            n == s@.len(),
            acc as nat == dec_val(s@.take(i as int)),
            forall|j: int| 0 <= j < i ==> is_digit(s@[j]),
        decreases n - i,
    {
        let c = s.get_char(i);
        if c < '0' || c > '9' {
            proof {
                assert(!is_digit(s@[i as int]));
                assert(!all_digits(s@));
            }
            return None;
        }
        let d: usize = ((c as u32) - 48) as usize;
        proof {
            assert(is_digit(s@[i as int]));
            assert(digit_val(s@[i as int]) == d as nat);
        }
        let step = match acc.checked_mul(10) {
            Some(t) => t.checked_add(d),
            None => None,
        };
        match step {
            Some(next) => {
                proof {
                    lemma_dec_val_snoc(s@.take(i as int), s@[i as int]);
                    assert(s@.take(i as int) + seq![s@[i as int]] =~= s@.take(i as int + 1));
                }
                acc = next;
            },
            None => {
                proof {
                    lemma_dec_val_snoc(s@.take(i as int), s@[i as int]);
                    assert(s@.take(i as int) + seq![s@[i as int]] =~= s@.take(i as int + 1));
                    assert(dec_val(s@.take(i as int + 1)) > usize::MAX as nat);
                    lemma_dec_val_prefix_le(s@, i as int + 1);
                }
                return None;
            },
        }
        i += 1;
    }
    proof {
        assert(s@.take(n as int) =~= s@);
        assert(all_digits(s@));
    }
    Some(acc)
}

/// One decimal digit as a string slice.
fn digit_literal(d: usize) -> (r: &'static str)
    requires
        d < 10,
    ensures
        r@ == seq![digit_char(d as nat)],
{
    proof {
        lemma_digit_char_val(d as nat);
        reveal_strlit("0");
        reveal_strlit("1");
        reveal_strlit("2");
        reveal_strlit("3");
        reveal_strlit("4");
        reveal_strlit("5");
        reveal_strlit("6");
        reveal_strlit("7");
        reveal_strlit("8");
        reveal_strlit("9");
    }
    match d {
        0 => "0",
        1 => "1",
        2 => "2",
        3 => "3",
        4 => "4",
        5 => "5",
        6 => "6",
        7 => "7",
        8 => "8",
        _ => "9",
    }
}

/// Renders a number in canonical decimal, exactly [`dec_str`].
pub(crate) fn dec_render(n: usize) -> (r: String)
    ensures
        r@ == dec_str(n as nat),
{
    let mut cur = String::new();
    let mut m: usize = n;
    loop
        invariant
            dec_str(n as nat) =~= dec_str(m as nat) + cur@,
        decreases m,
    {
        let d = m % 10;
        proof {
            assert(d < 10);
        }
        let ghost prev = cur@;
        cur = String::from_str(digit_literal(d)).concat(cur.as_str());
        proof {
            assert(cur@ == seq![digit_char(d as nat)] + prev);
            if m >= 10 {
                assert(dec_str(m as nat) == dec_str((m as nat) / 10) + seq![
                    digit_char((m as nat) % 10),
                ]);
                assert(dec_str((m as nat) / 10) + (seq![digit_char((m as nat) % 10)] + prev)
                    =~= dec_str(m as nat) + prev);
            } else {
                assert((m as nat) % 10 == m as nat);
                assert(dec_str(m as nat) == seq![digit_char(m as nat)]);
                assert(Seq::<char>::empty() + cur@ =~= cur@);
                assert(dec_str(n as nat) =~= cur@);
            }
        }
        let next = m / 10;
        if next == 0 {
            proof {
                assert(m < 10);
                assert(dec_str(n as nat) =~= cur@);
            }
            return cur;
        }
        m = next;
    }
}

} // verus!
