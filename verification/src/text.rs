//! Byte- and character-level text primitives shared by the parser, the
//! serializer and their specifications: line framing on CR LF, splitting,
//! ASCII lowercasing, and decimal numerals.

use vstd::prelude::*;

verus! {

// ---------------------------------------------------------------------------
// Byte-level framing
// ---------------------------------------------------------------------------

/// ASCII whitespace, as skipped in front of the first line of a message.
pub open spec fn is_ws_byte(b: u8) -> bool {
    b == 0x20 || b == 0x09 || b == 0x0a || b == 0x0c || b == 0x0d
}

/// The byte sequence with its maximal whitespace prefix removed.
pub open spec fn skip_ws(s: Seq<u8>) -> Seq<u8>
    decreases s.len(),
{
    if s.len() > 0 && is_ws_byte(s[0]) {
        skip_ws(s.drop_first())
    } else {
        s
    }
}

pub proof fn lemma_skip_ws_prefix(s: Seq<u8>, i: int)
    requires
        0 <= i <= s.len(),
        forall|j: int| 0 <= j < i ==> is_ws_byte(s[j]),
    ensures
        skip_ws(s) == skip_ws(s.skip(i)),
    decreases i,
{
    if i > 0 {
        assert(is_ws_byte(s[0]));
        assert(s.drop_first() =~= s.skip(1));
        assert forall|j: int| 0 <= j < i - 1 implies is_ws_byte(s.skip(1)[j]) by {
            assert(s.skip(1)[j] == s[j + 1]);
        }
        lemma_skip_ws_prefix(s.skip(1), i - 1);
        assert(s.skip(1).skip(i - 1) =~= s.skip(i));
    } else {
        assert(s.skip(0) =~= s);
    }
}

/// Index of the first occurrence of `x`, if any.
pub open spec fn find_first<T>(s: Seq<T>, x: T) -> Option<int>
    decreases s.len(),
{
    if s.len() == 0 {
        None
    } else if s[0] == x {
        Some(0int)
    } else {
        match find_first(s.drop_first(), x) {
            None => None,
            Some(i) => Some(i + 1),
        }
    }
}

pub proof fn lemma_find_first<T>(s: Seq<T>, x: T)
    ensures
        match find_first(s, x) {
            Some(i) => 0 <= i < s.len() && s[i] == x && (forall|j: int|
                0 <= j < i ==> s[j] != x),
            None => forall|j: int| 0 <= j < s.len() ==> s[j] != x,
        },
    decreases s.len(),
{
    if s.len() == 0 {
    } else if s[0] == x {
    } else {
        let rest = s.drop_first();
        lemma_find_first(rest, x);
        match find_first(rest, x) {
            Some(i) => {
                assert forall|j: int| 0 <= j < i + 1 implies s[j] != x by {
                    if j > 0 {
                        assert(s[j] == rest[j - 1]);
                    }
                }
            },
            None => {
                assert forall|j: int| 0 <= j < s.len() implies s[j] != x by {
                    if j > 0 {
                        assert(s[j] == rest[j - 1]);
                    }
                }
            },
        }
    }
}

pub proof fn lemma_find_first_at<T>(s: Seq<T>, x: T, i: int)
    requires
        0 <= i < s.len(),
        s[i] == x,
        forall|j: int| 0 <= j < i ==> s[j] != x,
    ensures
        find_first(s, x) == Some(i),
{
    lemma_find_first(s, x);
    match find_first(s, x) {
        Some(k) => {
            if k < i {
                assert(s[k] != x);
            } else if k > i {
                assert(s[i] != x);
            }
        },
        None => {
            assert(s[i] != x);
        },
    }
}

pub proof fn lemma_find_first_none<T>(s: Seq<T>, x: T)
    requires
        forall|j: int| 0 <= j < s.len() ==> s[j] != x,
    ensures
        find_first(s, x) == None::<int>,
{
    lemma_find_first(s, x);
    match find_first(s, x) {
        Some(k) => {
            assert(s[k] != x);
        },
        None => {},
    }
}

/// Splits off one CR-LF-terminated line: the bytes before the first CR,
/// and the bytes after the LF that must immediately follow it.  `None`
/// when there is no CR, the CR is the last byte, or it is not followed
/// by LF — the cases the parser rejects as a bad line terminator.
pub open spec fn split_line(s: Seq<u8>) -> Option<(Seq<u8>, Seq<u8>)> {
    match find_first(s, 0x0du8) {
        None => None,
        Some(i) => if i + 1 < s.len() && s[i + 1] == 0x0au8 {
            Some((s.take(i), s.skip(i + 2)))
        } else {
            None
        },
    }
}

pub proof fn lemma_split_line_len(s: Seq<u8>)
    ensures
        match split_line(s) {
            Some(p) => p.1.len() < s.len() && p.0.len() + 2 + p.1.len() == s.len(),
            None => true,
        },
{
    lemma_find_first(s, 0x0du8);
}

/// The line split of `line ++ [CR, LF] ++ rest` when `line` holds no CR.
pub proof fn lemma_split_line_at(line: Seq<u8>, rest: Seq<u8>)
    requires
        forall|j: int| 0 <= j < line.len() ==> line[j] != 0x0du8,
    ensures
        split_line(line + seq![0x0du8, 0x0au8] + rest) == Some((line, rest)),
{
    let s = line + seq![0x0du8, 0x0au8] + rest;
    assert(s[line.len() as int] == 0x0du8);
    assert forall|j: int| 0 <= j < line.len() implies s[j] != 0x0du8 by {
        assert(s[j] == line[j]);
    }
    lemma_find_first_at(s, 0x0du8, line.len() as int);
    assert(s[line.len() as int + 1] == 0x0au8);
    assert(s.take(line.len() as int) =~= line);
    assert(s.skip(line.len() as int + 2) =~= rest);
}

// ---------------------------------------------------------------------------
// Character-level splitting
// ---------------------------------------------------------------------------

/// Splits on single spaces, exactly as `str::split(' ')` does: the empty
/// sequence yields one empty token, and consecutive spaces yield empty
/// tokens in between.
pub open spec fn split_spaces(s: Seq<char>) -> Seq<Seq<char>>
    decreases s.len(),
    via split_spaces_decreases
{
    match find_first(s, ' ') {
        None => seq![s],
        Some(i) => seq![s.take(i)] + split_spaces(s.skip(i + 1)),
    }
}

#[via_fn]
proof fn split_spaces_decreases(s: Seq<char>) {
    lemma_find_first(s, ' ');
}

pub proof fn lemma_split_spaces_whole(s: Seq<char>)
    requires
        forall|j: int| 0 <= j < s.len() ==> s[j] != ' ',
    ensures
        split_spaces(s) == seq![s],
{
    lemma_find_first_none(s, ' ');
}

/// Splitting `tok ++ [' '] ++ rest` when `tok` holds no space peels off
/// exactly `tok`.
pub proof fn lemma_split_spaces_step(tok: Seq<char>, rest: Seq<char>)
    requires
        forall|j: int| 0 <= j < tok.len() ==> tok[j] != ' ',
    ensures
        split_spaces(tok + seq![' '] + rest) == seq![tok] + split_spaces(rest),
{
    let s = tok + seq![' '] + rest;
    assert(s[tok.len() as int] == ' ');
    assert forall|j: int| 0 <= j < tok.len() implies s[j] != ' ' by {
        assert(s[j] == tok[j]);
    }
    lemma_find_first_at(s, ' ', tok.len() as int);
    assert(s.take(tok.len() as int) =~= tok);
    assert(s.skip(tok.len() as int + 1) =~= rest);
}

/// Splits a header line at its first colon: key before, value after.
pub open spec fn split_colon(s: Seq<char>) -> Option<(Seq<char>, Seq<char>)> {
    match find_first(s, ':') {
        None => None,
        Some(i) => Some((s.take(i), s.skip(i + 1))),
    }
}

pub proof fn lemma_split_colon_at(key: Seq<char>, after: Seq<char>)
    requires
        forall|j: int| 0 <= j < key.len() ==> key[j] != ':',
    ensures
        split_colon(key + seq![':'] + after) == Some((key, after)),
{
    let s = key + seq![':'] + after;
    assert(s[key.len() as int] == ':');
    assert forall|j: int| 0 <= j < key.len() implies s[j] != ':' by {
        assert(s[j] == key[j]);
    }
    lemma_find_first_at(s, ':', key.len() as int);
    assert(s.take(key.len() as int) =~= key);
    assert(s.skip(key.len() as int + 1) =~= after);
}

/// Space or horizontal tab: the only characters trimmed from the front of
/// a header value.
pub open spec fn is_value_pad(c: char) -> bool {
    c == ' ' || c == '\t'
}

/// A header value with its leading spaces and tabs removed; trailing
/// whitespace is kept verbatim.
pub open spec fn trim_value(s: Seq<char>) -> Seq<char>
    decreases s.len(),
{
    if s.len() > 0 && is_value_pad(s[0]) {
        trim_value(s.drop_first())
    } else {
        s
    }
}

pub proof fn lemma_trim_value_clean(s: Seq<char>)
    requires
        s.len() > 0 ==> !is_value_pad(s[0]),
    ensures
        trim_value(s) == s,
{
}

// ---------------------------------------------------------------------------
// ASCII lowercasing
// ---------------------------------------------------------------------------

/// True of the ASCII capitals `A` through `Z`.
pub open spec fn is_ascii_upper(c: char) -> bool {
    0x41 <= (c as u32) && (c as u32) <= 0x5a
}

/// ASCII-lowercases one character; anything outside `A`..`Z` is unchanged.
pub open spec fn lower_char(c: char) -> char {
    if is_ascii_upper(c) {
        ((c as u32) + 32) as char
    } else {
        c
    }
}

/// ASCII-lowercases a character sequence.
pub open spec fn lower(s: Seq<char>) -> Seq<char> {
    Seq::new(s.len(), |i: int| lower_char(s[i]))
}

pub proof fn lemma_lower_concat(a: Seq<char>, b: Seq<char>)
    ensures
        lower(a + b) == lower(a) + lower(b),
{
    assert(lower(a + b) =~= lower(a) + lower(b));
}

/// Lowercasing is idempotent.
pub proof fn lemma_lower_idempotent(s: Seq<char>)
    ensures
        lower(lower(s)) == lower(s),
{
    assert(lower(lower(s)) =~= lower(s));
}

// ---------------------------------------------------------------------------
// Decimal numerals
// ---------------------------------------------------------------------------

pub open spec fn is_digit(c: char) -> bool {
    '0' <= c && c <= '9'
}

pub open spec fn digit_val(c: char) -> nat
    recommends
        is_digit(c),
{
    (c as u32 - 48) as nat
}

pub open spec fn all_digits(s: Seq<char>) -> bool {
    forall|i: int| 0 <= i < s.len() ==> is_digit(s[i])
}

/// Numeric value of a digit string, most significant digit first.
pub open spec fn dec_val(s: Seq<char>) -> nat
    recommends
        all_digits(s),
    decreases s.len(),
{
    if s.len() == 0 {
        0
    } else {
        dec_val(s.drop_last()) * 10 + digit_val(s.last())
    }
}

/// The strict reading of a token as a non-negative machine integer:
/// at least one character, digits only, and a value that fits in `usize`.
/// Anything else — signs, whitespace, other characters, overflow — is `None`.
pub open spec fn dec_num(s: Seq<char>) -> Option<nat> {
    if s.len() > 0 && all_digits(s) && dec_val(s) <= usize::MAX as nat {
        Some(dec_val(s))
    } else {
        None
    }
}

pub open spec fn digit_char(d: nat) -> char
    recommends
        d < 10,
{
    ((48 + d) as u32) as char
}

/// Canonical decimal rendering of a number, without leading zeros.
pub open spec fn dec_str(n: nat) -> Seq<char>
    decreases n,
    via dec_str_decreases
{
    if n < 10 {
        seq![digit_char(n)]
    } else {
        dec_str(n / 10) + seq![digit_char(n % 10)]
    }
}

#[via_fn]
proof fn dec_str_decreases(n: nat) {
    if n >= 10 {
        assert(n / 10 < n) by (nonlinear_arith)
            requires
                n >= 10,
        ;
    }
}

pub proof fn lemma_dec_str_digits(n: nat)
    ensures
        dec_str(n).len() >= 1,
        all_digits(dec_str(n)),
        forall|j: int| 0 <= j < dec_str(n).len() ==> is_digit(#[trigger] dec_str(n)[j]),
    decreases n,
{
    if n < 10 {
        lemma_digit_char_val(n);
        assert(is_digit(dec_str(n)[0]));
    } else {
        assert(n / 10 < n) by (nonlinear_arith)
            requires
                n >= 10,
        ;
        lemma_dec_str_digits(n / 10);
        assert(n % 10 < 10) by (nonlinear_arith);
        lemma_digit_char_val(n % 10);
        assert forall|j: int| 0 <= j < dec_str(n).len() implies is_digit(
            #[trigger] dec_str(n)[j],
        ) by {
            if j < dec_str(n / 10).len() {
                assert(dec_str(n)[j] == dec_str(n / 10)[j]);
            } else {
                assert(dec_str(n)[j] == digit_char(n % 10));
            }
        }
    }
}

pub proof fn lemma_digit_char_val(d: nat)
    requires
        d < 10,
    ensures
        is_digit(digit_char(d)),
        digit_val(digit_char(d)) == d,
{
    if d == 0 {
        assert(digit_char(0) == '0');
    } else if d == 1 {
        assert(digit_char(1) == '1');
    } else if d == 2 {
        assert(digit_char(2) == '2');
    } else if d == 3 {
        assert(digit_char(3) == '3');
    } else if d == 4 {
        assert(digit_char(4) == '4');
    } else if d == 5 {
        assert(digit_char(5) == '5');
    } else if d == 6 {
        assert(digit_char(6) == '6');
    } else if d == 7 {
        assert(digit_char(7) == '7');
    } else if d == 8 {
        assert(digit_char(8) == '8');
    } else {
        assert(digit_char(9) == '9');
    }
}

/// Rendering and reading back are inverse: the parser accepts exactly the
/// number the serializer wrote.
pub proof fn lemma_dec_val_of_dec_str(n: nat)
    ensures
        dec_val(dec_str(n)) == n,
    decreases n,
{
    if n < 10 {
        lemma_digit_char_val(n);
        lemma_dec_val_snoc(Seq::<char>::empty(), digit_char(n));
        assert(Seq::<char>::empty() + seq![digit_char(n)] =~= dec_str(n));
        assert(dec_val(Seq::<char>::empty()) == 0);
    } else {
        assert(n / 10 < n) by (nonlinear_arith)
            requires
                n >= 10,
        ;
        lemma_dec_val_of_dec_str(n / 10);
        assert(n % 10 < 10) by (nonlinear_arith);
        lemma_digit_char_val(n % 10);
        lemma_dec_val_snoc(dec_str(n / 10), digit_char(n % 10));
        assert(dec_val(dec_str(n)) == (n / 10) * 10 + n % 10);
        assert((n / 10) * 10 + n % 10 == n) by (nonlinear_arith);
    }
}

/// Appending one digit multiplies the value by ten and adds the digit.
pub proof fn lemma_dec_val_snoc(s: Seq<char>, c: char)
    ensures
        dec_val(s + seq![c]) == dec_val(s) * 10 + digit_val(c),
{
    assert((s + seq![c]).drop_last() =~= s);
    assert((s + seq![c]).last() == c);
}

/// A digit string's value only grows as more digits are appended.
pub proof fn lemma_dec_val_prefix_le(s: Seq<char>, i: int)
    requires
        0 <= i <= s.len(),
    ensures
        dec_val(s.take(i)) <= dec_val(s),
    decreases s.len() - i,
{
    if i < s.len() {
        let t = s.take(i + 1);
        assert(t.drop_last() =~= s.take(i));
        assert(dec_val(t) == dec_val(s.take(i)) * 10 + digit_val(s[i]));
        assert(dec_val(s.take(i)) * 10 >= dec_val(s.take(i))) by (nonlinear_arith);
        lemma_dec_val_prefix_le(s, i + 1);
    } else {
        assert(s.take(i) =~= s);
    }
}

} // verus!
