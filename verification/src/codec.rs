//! Textual codecs: the word codec between 64-hex-char strings and words of
//! four field elements, and the decimal codec for unsigned 64-bit values.
//!
//! A word's canonical textual form is a 64-character hex string: 32 bytes,
//! big-endian, 8 bytes per element, most significant element first.

use vstd::prelude::*;
use vstd::string::*;

use crate::errors::ParseError;
use crate::field::{is_felt, Word, FIELD_MODULUS};

verus! {

// ---------------------------------------------------------------------------
// Hex digits
// ---------------------------------------------------------------------------

/// The character is one of `0-9`, `a-f` or `A-F`.
pub open spec fn is_hex_digit(c: char) -> bool {
    ('0' <= c && c <= '9') || ('a' <= c && c <= 'f') || ('A' <= c && c <= 'F')
}

/// The numeric value of a hex digit; zero for any other character.
pub open spec fn hex_digit_value(c: char) -> int {
    if '0' <= c && c <= '9' {
        c as int - '0' as int
    } else if 'a' <= c && c <= 'f' {
        10 + c as int - 'a' as int
    } else if 'A' <= c && c <= 'F' {
        10 + c as int - 'A' as int
    } else {
        0
    }
}

/// The lower-case hex digit for a value below 16.
pub open spec fn hex_char(v: int) -> char {
    if v == 0 {
        '0'
    } else if v == 1 {
        '1'
    } else if v == 2 {
        '2'
    } else if v == 3 {
        '3'
    } else if v == 4 {
        '4'
    } else if v == 5 {
        '5'
    } else if v == 6 {
        '6'
    } else if v == 7 {
        '7'
    } else if v == 8 {
        '8'
    } else if v == 9 {
        '9'
    } else if v == 10 {
        'a'
    } else if v == 11 {
        'b'
    } else if v == 12 {
        'c'
    } else if v == 13 {
        'd'
    } else if v == 14 {
        'e'
    } else {
        'f'
    }
}

/// Every character of the sequence is a hex digit.
pub open spec fn all_hex(s: Seq<char>) -> bool {
    forall|i: int| 0 <= i < s.len() ==> is_hex_digit(#[trigger] s[i])
}

/// The value of a big-endian hex digit string.
pub open spec fn hex_val(s: Seq<char>) -> int
    decreases s.len(),
{
    if s.len() == 0 {
        0
    } else {
        16 * hex_val(s.drop_last()) + hex_digit_value(s.last())
    }
}

/// `16^n`.
pub open spec fn pow16(n: nat) -> int
    decreases n,
{
    if n == 0 {
        1
    } else {
        16 * pow16((n - 1) as nat)
    }
}

/// The `n`-digit big-endian lower-case hex rendering of `v`.
pub open spec fn hex_str_of(v: int, n: nat) -> Seq<char>
    decreases n,
{
    if n == 0 {
        Seq::empty()
    } else {
        hex_str_of(v / 16, (n - 1) as nat).push(hex_char(v % 16))
    }
}

/// Each hex digit replaced by its lower-case form.
pub open spec fn normalize_hex(s: Seq<char>) -> Seq<char> {
    s.map_values(|c: char| hex_char(hex_digit_value(c)))
}

proof fn lemma_hex_val_nonneg(s: Seq<char>)
    ensures
        hex_val(s) >= 0,
    decreases s.len(),
{
    if s.len() > 0 {
        lemma_hex_val_nonneg(s.drop_last());
    }
}

proof fn lemma_hex_val_bound(s: Seq<char>)
    ensures
        0 <= hex_val(s) < pow16(s.len()),
    decreases s.len(),
{
    if s.len() == 0 {
    } else {
        lemma_hex_val_bound(s.drop_last());
        assert(hex_digit_value(s.last()) <= 15);
    }
}

proof fn lemma_pow16_16()
    ensures
        pow16(15) == 0x1000_0000_0000_0000,
        pow16(16) == 0x1_0000_0000_0000_0000,
{
    reveal_with_fuel(pow16, 17);
}

/// Decoding a hex digit string and re-rendering it with as many digits
/// yields the same string with each digit lower-cased.
pub proof fn lemma_hex_round_trip(s: Seq<char>)
    requires
        all_hex(s),
    ensures
        hex_str_of(hex_val(s), s.len()) =~= normalize_hex(s),
    decreases s.len(),
{
    if s.len() == 0 {
    } else {
        let p = s.drop_last();
        assert(all_hex(p)) by {
            assert(forall|i: int| 0 <= i < p.len() ==> p[i] == s[i]);
        }
        lemma_hex_round_trip(p);
        lemma_hex_val_nonneg(p);
        let h = hex_val(p);
        let d = hex_digit_value(s.last());
        assert(is_hex_digit(s.last()));
        assert(0 <= d < 16);
        assert((16 * h + d) / 16 == h && (16 * h + d) % 16 == d) by (nonlinear_arith)
            requires
                h >= 0 && 0 <= d < 16,
        ;
        assert(hex_str_of(hex_val(s), s.len()) == hex_str_of(h, p.len()).push(hex_char(d)));
        assert(normalize_hex(s) =~= normalize_hex(p).push(hex_char(d)));
    }
}

// ---------------------------------------------------------------------------
// Word codec
// ---------------------------------------------------------------------------

/// The string has the canonical word shape: 64 hex digits.
pub open spec fn word_hex_ok(s: Seq<char>) -> bool {
    s.len() == 64 && all_hex(s)
}

/// The value of the `j`-th 16-digit group of a canonical word string.
pub open spec fn word_elem(s: Seq<char>, j: int) -> int {
    hex_val(s.subrange(16 * j, 16 * j + 16))
}

/// Every 8-byte group of the string is a canonical field element.
pub open spec fn word_in_field(s: Seq<char>) -> bool {
    forall|j: int| 0 <= j < 4 ==> word_elem(s, j) < FIELD_MODULUS
}

/// The four element values encoded by a canonical word string.
pub open spec fn word_elems(s: Seq<char>) -> Seq<u64> {
    Seq::new(4, |j: int| word_elem(s, j) as u64)
}

/// The canonical lower-case hex rendering of four element values.
pub open spec fn spec_encode_word(e: Seq<u64>) -> Seq<char> {
    hex_str_of(e[0] as int, 16) + hex_str_of(e[1] as int, 16) + hex_str_of(e[2] as int, 16)
        + hex_str_of(e[3] as int, 16)
}

/// The numeric value of a hex digit, or `None` for any other character.
fn hex_digit_val_exec(c: char) -> (r: Option<u8>)
    ensures
        r is Some <==> is_hex_digit(c),
        r is Some ==> r.unwrap() as int == hex_digit_value(c),
{
    if '0' <= c && c <= '9' {
        Some(c as u8 - 48)
    } else if 'a' <= c && c <= 'f' {
        Some(c as u8 - 97 + 10)
    } else if 'A' <= c && c <= 'F' {
        Some(c as u8 - 65 + 10)
    } else {
        None
    }
}

/// Reads the 16-hex-digit group starting at `off`.
fn decode_element(s: &str, off: usize) -> (r: u64)
    requires
        off + 16 <= s@.len(),
        s@.len() <= usize::MAX,
        all_hex(s@.subrange(off as int, off as int + 16)),
    ensures
        r as int == hex_val(s@.subrange(off as int, off as int + 16)),
{
    let ghost group = s@.subrange(off as int, off as int + 16);
    let mut val: u64 = 0;
    let mut j: usize = 0;
    while j < 16
        invariant
            j <= 16,
            off + 16 <= s@.len(),
            s@.len() <= usize::MAX,
            all_hex(group),
            group == s@.subrange(off as int, off as int + 16),
            val as int == hex_val(group.subrange(0, j as int)),
        decreases 16 - j,
    {
        let c = s.get_char(off + j);
        assert(c == group[j as int]);
        let d = hex_digit_val_exec(c).unwrap();
        proof {
            let pref = group.subrange(0, j as int);
            let next = group.subrange(0, j as int + 1);
            assert(next.drop_last() =~= pref);
            assert(next.last() == group[j as int]);
            lemma_hex_val_bound(pref);
            lemma_pow16_16();
            assert(pow16(pref.len()) <= pow16(15)) by {
                lemma_pow16_monotone(pref.len(), 15);
            }
        }
        val = val * 16 + d as u64;
        j += 1;
    }
    proof {
        assert(group.subrange(0, 16) =~= group);
    }
    val
}

proof fn lemma_pow16_monotone(a: nat, b: nat)
    requires
        a <= b,
    ensures
        pow16(a) <= pow16(b),
    decreases b,
{
    if a < b {
        lemma_pow16_monotone(a, (b - 1) as nat);
        assert(pow16((b - 1) as nat) >= 1) by {
            lemma_pow16_pos((b - 1) as nat);
        }
    }
}

proof fn lemma_pow16_pos(n: nat)
    ensures
        pow16(n) >= 1,
    decreases n,
{
    if n > 0 {
        lemma_pow16_pos((n - 1) as nat);
    }
}

/// Reads the `j`-th element group of a canonical word string and checks
/// that it is a canonical field element.
fn decode_group(s: &str, j: usize) -> (r: Result<u64, ParseError>)
    requires
        s@.len() == 64,
        all_hex(s@),
        j < 4,
    ensures
        match r {
            Ok(e) => e as int == word_elem(s@, j as int) && is_felt(e),
            Err(err) => err == ParseError::FieldOverflow && !word_in_field(s@),
        },
{
    proof {
        assert(all_hex(s@.subrange(16 * j as int, 16 * j as int + 16))) by {
            assert(forall|i2: int|
                0 <= i2 < 16 ==> #[trigger] s@.subrange(16 * j as int, 16 * j as int + 16)[i2]
                    == s@[16 * j as int + i2]);
        }
    }
    let e = decode_element(s, 16 * j);
    if e >= FIELD_MODULUS {
        assert(word_elem(s@, j as int) >= FIELD_MODULUS);
        return Err(ParseError::FieldOverflow);
    }
    Ok(e)
}

/// Decodes a canonical 64-hex-char string into a word.
///
/// Fails with `InvalidHexLength` unless the string is exactly 64 hex
/// digits, and with `FieldOverflow` if any 8-byte group, read as a
/// big-endian unsigned integer, is not a canonical field element.
pub fn decode_word(s: &str) -> (r: Result<Word, ParseError>)
    ensures
        match r {
            Ok(w) => word_hex_ok(s@) && word_in_field(s@) && w.wf() && w.elements@
                =~= word_elems(s@),
            Err(e) => !(word_hex_ok(s@) && word_in_field(s@)) && ((e
                == ParseError::InvalidHexLength) <==> !word_hex_ok(s@)) && (word_hex_ok(s@)
                ==> e == ParseError::FieldOverflow),
        },
{
    let n = s.unicode_len();
    if n != 64 {
        return Err(ParseError::InvalidHexLength);
    }
    let mut i: usize = 0;
    while i < 64
        invariant
            i <= 64,
            s@.len() == 64,
            forall|k: int| 0 <= k < i ==> is_hex_digit(#[trigger] s@[k]),
        decreases 64 - i,
    {
        let c = s.get_char(i);
        if hex_digit_val_exec(c).is_none() {
            return Err(ParseError::InvalidHexLength);
        }
        i += 1;
    }
    assert(all_hex(s@));
    let e0 = decode_group(s, 0)?;
    let e1 = decode_group(s, 1)?;
    let e2 = decode_group(s, 2)?;
    let e3 = decode_group(s, 3)?;
    let w = Word { elements: [e0, e1, e2, e3] };
    proof {
        assert(w.elements@ =~= word_elems(s@));
        assert(w.wf());
    }
    Ok(w)
}

/// Appends the lower-case hex digit for `d`.
fn append_hex_digit(out: &mut String, d: u64)
    requires
        d < 16,
    ensures
        final(out)@ == old(out)@ + seq![hex_char(d as int)],
{
    proof {
        reveal_strlit("0");
        reveal_strlit("1");
        reveal_strlit("2");
        reveal_strlit("3");
        reveal_strlit("4");
        reveal_strlit("5");
        reveal_strlit("6");
        reveal_strlit("7");
        reveal_strlit("8");
        reveal_strlit("9");
        reveal_strlit("a");
        reveal_strlit("b");
        reveal_strlit("c");
        reveal_strlit("d");
        reveal_strlit("e");
        reveal_strlit("f");
    }
    if d == 0 {
        out.append("0");
    } else if d == 1 {
        out.append("1");
    } else if d == 2 {
        out.append("2");
    } else if d == 3 {
        out.append("3");
    } else if d == 4 {
        out.append("4");
    } else if d == 5 {
        out.append("5");
    } else if d == 6 {
        out.append("6");
    } else if d == 7 {
        out.append("7");
    } else if d == 8 {
        out.append("8");
    } else if d == 9 {
        out.append("9");
    } else if d == 10 {
        out.append("a");
    } else if d == 11 {
        out.append("b");
    } else if d == 12 {
        out.append("c");
    } else if d == 13 {
        out.append("d");
    } else if d == 14 {
        out.append("e");
    } else {
        out.append("f");
    }
    proof {
        assert(out@ =~= old(out)@ + seq![hex_char(d as int)]);
    }
}

/// The `j`-th digit of the `n`-digit rendering is the `(n-1-j)`-th base-16
/// digit of the value, counting from the least significant.
proof fn lemma_hex_str_of_index(v: int, n: nat, j: int)
    requires
        v >= 0,
        0 <= j < n,
    ensures
        hex_str_of(v, n).len() == n,
        hex_str_of(v, n)[j] == hex_char((v / pow16((n - 1 - j) as nat)) % 16),
    decreases n,
{
    lemma_hex_str_of_len(v, n);
    if j == n - 1 {
        assert(pow16(0) == 1);
        assert(v / 1 == v);
    } else {
        lemma_hex_str_of_len(v / 16, (n - 1) as nat);
        assert(v / 16 >= 0) by (nonlinear_arith)
            requires
                v >= 0,
        ;
        lemma_hex_str_of_index(v / 16, (n - 1) as nat, j);
        let k = (n - 1 - j - 1) as nat;
        assert((v / 16) / pow16(k) == v / pow16((k + 1) as nat)) by {
            lemma_pow16_pos(k);
            vstd::arithmetic::div_mod::lemma_div_denominator(v, 16, pow16(k));
            assert(pow16((k + 1) as nat) == 16 * pow16(k));
        }
    }
}

proof fn lemma_hex_str_of_len(v: int, n: nat)
    ensures
        hex_str_of(v, n).len() == n,
    decreases n,
{
    if n > 0 {
        lemma_hex_str_of_len(v / 16, (n - 1) as nat);
    }
}

/// Appends the 16-digit lower-case hex rendering of one element.
fn encode_element(out: &mut String, v: u64)
    ensures
        final(out)@ == old(out)@ + hex_str_of(v as int, 16),
{
    let ghost base = out@;
    let mut p: u64 = 0x1000_0000_0000_0000;
    let mut j: usize = 0;
    proof {
        lemma_pow16_16();
    }
    while j < 16
        invariant
            j <= 16,
            j < 16 ==> p as int == pow16((15 - j) as nat),
            out@ =~= base + Seq::new(j as nat, |i: int| hex_char((v as int / pow16((15 - i) as nat)) % 16)),
        decreases 16 - j,
    {
        proof {
            lemma_pow16_pos((15 - j) as nat);
        }
        let d = (v / p) % 16;
        append_hex_digit(out, d);
        proof {
            assert(out@ =~= base + Seq::new(
                (j + 1) as nat,
                |i: int| hex_char((v as int / pow16((15 - i) as nat)) % 16),
            ));
            if j + 1 < 16 {
                assert(pow16((15 - (j + 1)) as nat) * 16 == pow16((15 - j) as nat));
                lemma_pow16_pos((15 - (j + 1)) as nat);
                lemma_pow16_monotone((15 - (j + 1)) as nat, 14);
            }
        }
        if j + 1 < 16 {
            p = p / 16;
            proof {
                assert(p as int == pow16((15 - (j + 1)) as nat)) by {
                    assert(pow16((15 - j) as nat) == 16 * pow16((15 - (j + 1)) as nat));
                    assert((16 * pow16((15 - (j + 1)) as nat)) / 16 == pow16(
                        (15 - (j + 1)) as nat,
                    )) by (nonlinear_arith);
                }
            }
        }
        j += 1;
    }
    proof {
        let digits = Seq::new(16nat, |i: int| hex_char((v as int / pow16((15 - i) as nat)) % 16));
        assert(digits =~= hex_str_of(v as int, 16)) by {
            lemma_hex_str_of_len(v as int, 16);
            assert(forall|i: int| 0 <= i < 16 ==> hex_str_of(v as int, 16)[i] == #[trigger] digits[i])
                by {
                assert forall|i: int| 0 <= i < 16 implies hex_str_of(v as int, 16)[i]
                    == #[trigger] digits[i] by {
                    lemma_hex_str_of_index(v as int, 16, i);
                }
            }
        }
    }
}

/// Renders a word as its canonical 64-character lower-case hex string.
pub fn encode_word(w: &Word) -> (r: String)
    ensures
        r@ == spec_encode_word(w.elements@),
        r@.len() == 64,
{
    let mut out = String::new();
    encode_element(&mut out, w.elements[0]);
    encode_element(&mut out, w.elements[1]);
    encode_element(&mut out, w.elements[2]);
    encode_element(&mut out, w.elements[3]);
    proof {
        lemma_hex_str_of_len(w.elements@[0] as int, 16);
        lemma_hex_str_of_len(w.elements@[1] as int, 16);
        lemma_hex_str_of_len(w.elements@[2] as int, 16);
        lemma_hex_str_of_len(w.elements@[3] as int, 16);
        assert(out@ =~= spec_encode_word(w.elements@));
    }
    out
}

/// Decoding a canonical word string and re-encoding the word returns the
/// original string, with each hex digit lower-cased.
pub proof fn lemma_word_round_trip(s: Seq<char>)
    requires
        word_hex_ok(s),
        word_in_field(s),
    ensures
        spec_encode_word(word_elems(s)) =~= normalize_hex(s),
{
    let g0 = s.subrange(0, 16);
    let g1 = s.subrange(16, 32);
    let g2 = s.subrange(32, 48);
    let g3 = s.subrange(48, 64);
    assert(all_hex(g0) && all_hex(g1) && all_hex(g2) && all_hex(g3)) by {
        assert(forall|i: int| 0 <= i < 16 ==> g0[i] == s[i]);
        assert(forall|i: int| 0 <= i < 16 ==> g1[i] == s[16 + i]);
        assert(forall|i: int| 0 <= i < 16 ==> g2[i] == s[32 + i]);
        assert(forall|i: int| 0 <= i < 16 ==> g3[i] == s[48 + i]);
    }
    lemma_hex_round_trip(g0);
    lemma_hex_round_trip(g1);
    lemma_hex_round_trip(g2);
    lemma_hex_round_trip(g3);
    lemma_hex_val_bound(g0);
    lemma_hex_val_bound(g1);
    lemma_hex_val_bound(g2);
    lemma_hex_val_bound(g3);
    lemma_pow16_16();
    let e = word_elems(s);
    assert(g0 =~= s.subrange(16int * 0, 16int * 0 + 16));
    assert(g1 =~= s.subrange(16int * 1, 16int * 1 + 16));
    assert(g2 =~= s.subrange(16int * 2, 16int * 2 + 16));
    assert(g3 =~= s.subrange(16int * 3, 16int * 3 + 16));
    assert(e[0] as int == hex_val(g0) && e[1] as int == hex_val(g1) && e[2] as int == hex_val(g2)
        && e[3] as int == hex_val(g3));
    assert(spec_encode_word(e) =~= normalize_hex(g0) + normalize_hex(g1) + normalize_hex(g2)
        + normalize_hex(g3));
    assert(normalize_hex(g0) + normalize_hex(g1) + normalize_hex(g2) + normalize_hex(g3)
        =~= normalize_hex(s));
}

/// The value of the `j`-th byte of a hex string.
pub open spec fn hex_byte(s: Seq<char>, j: int) -> int {
    16 * hex_digit_value(s[2 * j]) + hex_digit_value(s[2 * j + 1])
}

/// The bytes of an even-length hex string.
pub open spec fn hex_bytes(s: Seq<char>) -> Seq<u8> {
    Seq::new((s.len() / 2) as nat, |j: int| hex_byte(s, j) as u8)
}

/// Decodes a 64-hex-char string into its 32 raw bytes.
///
/// Unlike `decode_word` this applies no field check: the result is an
/// opaque 32-byte key, not a word.
pub fn decode_hex_key(s: &str) -> (r: Result<Vec<u8>, ParseError>)
    ensures
        match r {
            Ok(b) => word_hex_ok(s@) && b@ =~= hex_bytes(s@) && b@.len() == 32,
            Err(e) => !word_hex_ok(s@) && e == ParseError::InvalidHexLength,
        },
{
    let n = s.unicode_len();
    if n != 64 {
        return Err(ParseError::InvalidHexLength);
    }
    let mut out: Vec<u8> = Vec::new();
    let mut j: usize = 0;
    while j < 32
        invariant
            j <= 32,
            s@.len() == 64,
            out@.len() == j,
            forall|k: int| 0 <= k < 2 * j ==> is_hex_digit(#[trigger] s@[k]),
            forall|k: int| 0 <= k < j ==> #[trigger] out@[k] as int == hex_byte(s@, k),
        decreases 32 - j,
    {
        let c0 = s.get_char(2 * j);
        let c1 = s.get_char(2 * j + 1);
        let d0 = match hex_digit_val_exec(c0) {
            Some(d) => d,
            None => {
                return Err(ParseError::InvalidHexLength);
            },
        };
        let d1 = match hex_digit_val_exec(c1) {
            Some(d) => d,
            None => {
                return Err(ParseError::InvalidHexLength);
            },
        };
        out.push(d0 * 16 + d1);
        j += 1;
    }
    proof {
        assert(all_hex(s@));
        assert(out@ =~= hex_bytes(s@));
    }
    Ok(out)
}

// ---------------------------------------------------------------------------
// Decimal codec
// ---------------------------------------------------------------------------

/// The character is one of `0-9`.
pub open spec fn is_dec_digit(c: char) -> bool {
    '0' <= c && c <= '9'
}

/// The numeric value of a decimal digit; zero for any other character.
pub open spec fn dec_digit_value(c: char) -> int {
    if is_dec_digit(c) {
        c as int - '0' as int
    } else {
        0
    }
}

/// The value of a big-endian decimal digit string.
pub open spec fn dec_val(s: Seq<char>) -> int
    decreases s.len(),
{
    if s.len() == 0 {
        0
    } else {
        10 * dec_val(s.drop_last()) + dec_digit_value(s.last())
    }
}

/// The sequence is non-empty and all decimal digits.
pub open spec fn dec_digits(s: Seq<char>) -> bool {
    s.len() > 0 && forall|i: int| 0 <= i < s.len() ==> is_dec_digit(#[trigger] s[i])
}

/// The digits of the string, with one optional leading `+` removed.
pub open spec fn u64_str_body(s: Seq<char>) -> Seq<char> {
    if s.len() > 0 && s[0] == '+' {
        s.subrange(1, s.len() as int)
    } else {
        s
    }
}

/// The string parses as an unsigned 64-bit decimal integer.
pub open spec fn valid_u64_str(s: Seq<char>) -> bool {
    dec_digits(u64_str_body(s)) && dec_val(u64_str_body(s)) <= u64::MAX
}

/// A digit string's value is never negative.
pub proof fn lemma_dec_val_nonneg(s: Seq<char>)
    ensures
        dec_val(s) >= 0,
    decreases s.len(),
{
    if s.len() > 0 {
        lemma_dec_val_nonneg(s.drop_last());
    }
}

/// A prefix of a digit string never has a larger value than the whole.
proof fn lemma_dec_val_prefix(s: Seq<char>, k: int)
    requires
        0 <= k <= s.len(),
    ensures
        dec_val(s.subrange(0, k)) <= dec_val(s),
    decreases s.len(),
{
    if k == s.len() {
        assert(s.subrange(0, k) =~= s);
    } else {
        let p = s.drop_last();
        assert(s.subrange(0, k) =~= p.subrange(0, k));
        lemma_dec_val_prefix(p, k);
        lemma_dec_val_nonneg(p);
        assert(dec_digit_value(s.last()) >= 0);
    }
}

/// Parses a string as an unsigned 64-bit decimal integer, as the standard
/// decimal grammar reads it: an optional leading `+`, then one or more
/// digits, and a value that fits in 64 bits.
pub fn parse_u64(s: &str) -> (r: Result<u64, ParseError>)
    ensures
        match r {
            Ok(v) => valid_u64_str(s@) && v as int == dec_val(u64_str_body(s@)),
            Err(e) => !valid_u64_str(s@) && e == ParseError::NumberFormatError,
        },
{
    let n = s.unicode_len();
    let start: usize = if n > 0 && s.get_char(0) == '+' {
        1
    } else {
        0
    };
    let ghost body = u64_str_body(s@);
    proof {
        assert(body =~= s@.subrange(start as int, s@.len() as int));
    }
    if n == start {
        return Err(ParseError::NumberFormatError);
    }
    let mut val: u64 = 0;
    let mut i: usize = start;
    while i < n
        invariant
            start <= i <= n,
            n == s@.len(),
            start < n,
            body == u64_str_body(s@),
            body == s@.subrange(start as int, s@.len() as int),
            forall|k: int| start <= k < i ==> is_dec_digit(#[trigger] s@[k]),
            val as int == dec_val(s@.subrange(start as int, i as int)),
        decreases n - i,
    {
        let c = s.get_char(i);
        if !('0' <= c && c <= '9') {
            proof {
                let k: int = i as int - start as int;
                assert(0 <= k < body.len());
                assert(body[k] == s@[i as int]);
                assert(!is_dec_digit(body[k]));
                assert(!dec_digits(body));
            }
            return Err(ParseError::NumberFormatError);
        }
        let d = c as u8 - 48;
        let ghost pref = s@.subrange(start as int, i as int);
        let ghost next = s@.subrange(start as int, i as int + 1);
        proof {
            assert(next.drop_last() =~= pref);
            assert(next.last() == s@[i as int]);
        }
        if val > (u64::MAX - d as u64) / 10 {
            proof {
                assert(10 * val as int + d as int > u64::MAX) by (nonlinear_arith)
                    requires
                        val as int > ((u64::MAX - d as u64) as int) / 10,
                        0 <= d < 10,
                ;
                assert(dec_val(next) > u64::MAX);
                lemma_dec_val_prefix(body, i as int + 1 - start as int);
                assert(body.subrange(0, i as int + 1 - start as int) =~= next);
                assert(dec_val(body) > u64::MAX);
                assert(!valid_u64_str(s@));
            }
            return Err(ParseError::NumberFormatError);
        }
        proof {
            assert(10 * val as int + d as int <= u64::MAX) by (nonlinear_arith)
                requires
                    val as int <= ((u64::MAX - d as u64) as int) / 10,
                    0 <= d < 10,
            ;
        }
        val = val * 10 + d as u64;
        i += 1;
    }
    proof {
        assert(s@.subrange(start as int, n as int) =~= body);
        assert(dec_digits(body)) by {
            assert(forall|k: int|
                0 <= k < body.len() ==> body[k] == s@[start as int + k] && is_dec_digit(
                    #[trigger] body[k],
                ));
        }
    }
    Ok(val)
}

/// The decimal digit character for a value below 10.
pub open spec fn dec_char(v: int) -> char {
    hex_char(v)
}

/// The shortest decimal rendering of `v`: no leading zeros, at least one
/// digit.
pub open spec fn dec_str_of(v: nat) -> Seq<char>
    decreases v,
{
    if v < 10 {
        seq![dec_char(v as int)]
    } else {
        dec_str_of(v / 10).push(dec_char((v % 10) as int))
    }
}

/// Appends the digit character for `d`.
fn append_dec_digit(out: &mut String, d: u64)
    requires
        d < 10,
    ensures
        final(out)@ == old(out)@ + seq![dec_char(d as int)],
{
    append_hex_digit(out, d);
}

/// Appends the shortest decimal rendering of `v`.
pub fn append_u64_dec(out: &mut String, v: u64)
    ensures
        final(out)@ == old(out)@ + dec_str_of(v as nat),
    decreases v,
{
    if v < 10 {
        append_dec_digit(out, v);
    } else {
        proof {
            assert(v as nat / 10 < v as nat) by (nonlinear_arith)
                requires
                    v >= 10,
            ;
        }
        append_u64_dec(out, v / 10);
        append_dec_digit(out, v % 10);
        proof {
            assert(out@ =~= old(out)@ + dec_str_of(v as nat));
        }
    }
}

/// The shortest decimal rendering of `v` as a string.
pub fn u64_to_string(v: u64) -> (r: String)
    ensures
        r@ == dec_str_of(v as nat),
{
    let mut out = String::new();
    append_u64_dec(&mut out, v);
    proof {
        assert(out@ =~= dec_str_of(v as nat));
    }
    out
}

} // verus!
