//! Length-prefixed text instruction codec: `LEN.VALUE,LEN.VALUE,...;`.

use vstd::prelude::*;
use vstd::string::StringExecFns;
use vstd::string::StrSliceExecFns;
use vstd::utf8::{encode_utf8, is_ascii_chars};

verus! {

/// The elements of one instruction.
pub type Elements = Vec<String>;

/// Errors during decoding.
#[derive(Clone, Copy, Debug, PartialEq, Eq, Structural)]
pub enum DecodeError {
    /// Invalid instruction format.
    InvalidFormat,
    /// Instruction is too long for the current decode policy.
    InstructionTooLong,
    /// Element is too long for the current decode policy.
    ElementTooLong,
    /// Invalid element size.
    ElementSizeInvalid,
}

pub type DecodeResult<T> = Result<T, DecodeError>;

impl DecodeError {
    /// A human-readable description of the error.
    pub fn message(&self) -> (r: String)
        ensures
            r@ == match self {
                DecodeError::InvalidFormat => "Invalid Guacamole instruction while decoding"@,
                DecodeError::InstructionTooLong => "Instruction too long for current decode policy"@,
                DecodeError::ElementTooLong => "Element too long for current decode policy"@,
                DecodeError::ElementSizeInvalid => "Element size is invalid"@,
            },
    {
        let s = match self {
            DecodeError::InvalidFormat => "Invalid Guacamole instruction while decoding",
            DecodeError::InstructionTooLong => "Instruction too long for current decode policy",
            DecodeError::ElementTooLong => "Element too long for current decode policy",
            DecodeError::ElementSizeInvalid => "Element size is invalid",
        };
        String::from_str(s)
    }
}

/// Size limits for decoding, fixed at compile time.
pub struct StaticDecodePolicy<const INST_SIZE: usize, const ELEM_SIZE: usize>();

impl<const INST_SIZE: usize, const ELEM_SIZE: usize> StaticDecodePolicy<INST_SIZE, ELEM_SIZE> {
    /// Largest accepted instruction, in bytes.
    pub fn max_instruction_size(&self) -> (r: usize)
        ensures
            r == INST_SIZE,
    {
        INST_SIZE
    }

    /// Element sizes must stay below this bound.
    pub fn max_element_size(&self) -> (r: usize)
        ensures
            r == ELEM_SIZE,
    {
        ELEM_SIZE
    }
}

/// Largest accepted instruction of the default policy, in bytes.
pub const MAX_INSTRUCTION_SIZE: usize = 12288;

/// Bound on element sizes of the default policy.
pub const MAX_ELEMENT_SIZE: usize = 4096;

/// The default decode policy.
pub type DefaultDecodePolicy = StaticDecodePolicy<MAX_INSTRUCTION_SIZE, MAX_ELEMENT_SIZE>;

/// Number of bytes of the UTF-8 encoding of `s`, as `str::len` reports it.
pub open spec fn utf8_len(s: Seq<char>) -> int {
    (encode_utf8(s).len() as usize) as int
}

pub open spec fn is_digit(c: char) -> bool {
    '0' <= c && c <= '9'
}

pub open spec fn digit_value(c: char) -> nat {
    (c as u32 - '0' as u32) as nat
}

/// The character of a decimal digit.
pub open spec fn digit_char(d: nat) -> char {
    ((d + 48) as u8) as char
}

/// Value of a string of decimal digits (0 for the empty string).
pub open spec fn decimal_value(s: Seq<char>) -> nat
    decreases s.len(),
{
    if s.len() == 0 {
        0
    } else {
        decimal_value(s.drop_last()) * 10 + digit_value(s.last())
    }
}

/// Decimal representation of `n`, without leading zeros.
pub open spec fn decimal_digits(n: nat) -> Seq<char>
    decreases n,
{
    if n < 10 {
        seq![digit_char(n)]
    } else {
        decimal_digits(n / 10) + seq![digit_char(n % 10)]
    }
}

/// First position at or after `p` that does not hold a digit.
pub open spec fn digits_end(s: Seq<char>, p: int) -> int
    decreases s.len() - p,
{
    if 0 <= p < s.len() && is_digit(s[p]) {
        digits_end(s, p + 1)
    } else {
        p
    }
}

/// Decodes the elements that start at position `p` of instruction `s`, whose
/// encoding takes `blen` bytes.
pub open spec fn parse_from(s: Seq<char>, blen: int, p: int) -> Result<Seq<Seq<char>>, DecodeError>
    decreases s.len() - p,
    via parse_from_decreases
{
    if !(0 <= p < s.len()) {
        Err(DecodeError::InvalidFormat)
    } else {
        let e = digits_end(s, p);
        if e >= s.len() || s[e] != '.' {
            Err(DecodeError::InvalidFormat)
        } else {
            let n = decimal_value(s.subrange(p, e));
            let start = e + 1;
            if n >= MAX_ELEMENT_SIZE {
                Err(DecodeError::ElementTooLong)
            } else if n >= blen {
                Err(DecodeError::ElementSizeInvalid)
            } else if start + n > s.len() - 1 {
                Err(DecodeError::InvalidFormat)
            } else {
                let elem = s.subrange(start, start + n);
                let sep = s[start + n];
                if sep == ';' {
                    Ok(seq![elem])
                } else if sep == ',' {
                    match parse_from(s, blen, start + n + 1) {
                        Ok(rest) => Ok(seq![elem] + rest),
                        Err(err) => Err(err),
                    }
                } else {
                    Err(DecodeError::InvalidFormat)
                }
            }
        }
    }
}

/// The digit scan never moves backwards.
pub proof fn lemma_digits_end(s: Seq<char>, p: int)
    ensures
        p <= digits_end(s, p),
        0 <= p <= s.len() ==> digits_end(s, p) <= s.len(),
        forall|k: int| p <= k < digits_end(s, p) ==> is_digit(#[trigger] s[k]),
    decreases s.len() - p,
{
    if 0 <= p < s.len() && is_digit(s[p]) {
        lemma_digits_end(s, p + 1);
    }
}

#[via_fn]
proof fn parse_from_decreases(s: Seq<char>, blen: int, p: int) {
    lemma_digits_end(s, p);
}

/// What decoding the instruction `s` gives.
pub open spec fn decoded(s: Seq<char>) -> Result<Seq<Seq<char>>, DecodeError> {
    if utf8_len(s) > MAX_INSTRUCTION_SIZE {
        Err(DecodeError::InstructionTooLong)
    } else {
        parse_from(s, utf8_len(s), 0)
    }
}

/// The character sequences of a sequence of strings.
pub open spec fn strings_view(v: Seq<String>) -> Seq<Seq<char>> {
    v.map_values(|e: String| e@)
}

/// One encoded element: its byte length in decimal, a dot, and the element.
pub open spec fn encoded_element(e: Seq<char>) -> Seq<char> {
    decimal_digits(utf8_len(e) as nat) + seq!['.'] + e
}

/// The encoded elements joined by commas.
pub open spec fn joined(es: Seq<Seq<char>>) -> Seq<char>
    decreases es.len(),
{
    if es.len() == 0 {
        Seq::empty()
    } else if es.len() == 1 {
        encoded_element(es[0])
    } else {
        joined(es.drop_last()) + seq![','] + encoded_element(es.last())
    }
}

/// The instruction that encodes `es`.
pub open spec fn encoded(es: Seq<Seq<char>>) -> Seq<char> {
    joined(es) + seq![';']
}

/// A digit character reads back as its value.
proof fn lemma_digit_char(d: nat)
    requires
        d < 10,
    ensures
        is_digit(digit_char(d)),
        digit_value(digit_char(d)) == d,
        digit_char(d) != '.',
        '\0' <= digit_char(d) <= '\u{7f}',
{
    let b = (d + 48) as u8;
    assert(b == d + 48);
}

/// The decimal representation of `n` is a non-empty run of digits that reads back as `n`.
pub proof fn lemma_decimal_digits(n: nat)
    ensures
        decimal_digits(n).len() > 0,
        forall|i: int| 0 <= i < decimal_digits(n).len() ==> is_digit(#[trigger] decimal_digits(n)[i]),
        decimal_value(decimal_digits(n)) == n,
    decreases n,
{
    if n < 10 {
        lemma_digit_char(n);
        assert(seq![digit_char(n)].drop_last() =~= Seq::<char>::empty());
        assert(decimal_value(seq![digit_char(n)]) == decimal_value(Seq::<char>::empty()) * 10 + digit_value(digit_char(n)));
    } else {
        lemma_decimal_digits(n / 10);
        lemma_digit_char(n % 10);
        let ds = decimal_digits(n / 10) + seq![digit_char(n % 10)];
        assert(ds.drop_last() =~= decimal_digits(n / 10));
        assert(ds.last() == digit_char(n % 10));
        assert(decimal_value(ds) == decimal_value(decimal_digits(n / 10)) * 10 + digit_value(digit_char(n % 10)));
        assert((n / 10) * 10 + n % 10 == n);
    }
}

/// The digit scan stops right after a run of `k` digits.
proof fn lemma_digits_end_run(s: Seq<char>, p: int, k: int)
    requires
        0 <= p,
        0 <= k,
        p + k < s.len(),
        forall|i: int| p <= i < p + k ==> is_digit(#[trigger] s[i]),
        !is_digit(s[p + k]),
    ensures
        digits_end(s, p) == p + k,
    decreases k,
{
    if k > 0 {
        lemma_digits_end_run(s, p + 1, k - 1);
    }
}

/// The first element of a joined sequence comes first, then a comma and the rest.
proof fn lemma_joined_first(es: Seq<Seq<char>>)
    requires
        es.len() >= 2,
    ensures
        joined(es) == encoded_element(es[0]) + seq![','] + joined(es.drop_first()),
    decreases es.len(),
{
    if es.len() == 2 {
        assert(es.drop_last().len() == 1);
        assert(es.drop_first().len() == 1);
        assert(es.drop_first()[0] == es.last());
        assert(es.drop_last()[0] == es[0]);
        assert(joined(es.drop_last()) == encoded_element(es[0]));
        assert(joined(es.drop_first()) == encoded_element(es[1]));
    } else {
        lemma_joined_first(es.drop_last());
        assert(es.drop_last().drop_first() =~= es.drop_first().drop_last());
        assert(es.drop_first().last() == es.last());
        assert(es.drop_last()[0] == es[0]);
        let a = encoded_element(es[0]);
        let j = joined(es.drop_last().drop_first());
        let l = encoded_element(es.last());
        assert(joined(es.drop_first()) == j + seq![','] + l);
        assert((a + seq![','] + j) + seq![','] + l =~= a + seq![','] + (j + seq![','] + l));
    }
}

/// Parsing an encoded instruction that follows `pre` gives back its elements,
/// when each element's byte length is its character length and below the
/// limits.
proof fn lemma_parse_encoded(pre: Seq<char>, es: Seq<Seq<char>>, blen: int)
    requires
        es.len() > 0,
        blen == pre.len() + encoded(es).len(),
        forall|i: int|
            0 <= i < es.len() ==> utf8_len(#[trigger] es[i]) == es[i].len() && es[i].len() < MAX_ELEMENT_SIZE,
    ensures
        parse_from(pre + encoded(es), blen, pre.len() as int) == Ok::<Seq<Seq<char>>, DecodeError>(es),
    decreases es.len(),
{
    let e0 = es[0];
    let n = e0.len();
    let ds = decimal_digits(n as nat);
    lemma_decimal_digits(n as nat);
    let rest = if es.len() == 1 {
        seq![';']
    } else {
        seq![','] + encoded(es.drop_first())
    };
    if es.len() >= 2 {
        lemma_joined_first(es);
        assert(encoded(es) =~= encoded_element(e0) + rest);
    } else {
        assert(encoded(es) =~= encoded_element(e0) + rest);
    }
    let s = pre + encoded(es);
    let p = pre.len() as int;
    assert(s =~= pre + ds + seq!['.'] + e0 + rest);
    assert forall|i: int| p <= i < p + ds.len() implies is_digit(#[trigger] s[i]) by {
        assert(s[i] == ds[i - p]);
    }
    lemma_digits_end_run(s, p, ds.len() as int);
    let e = p + ds.len();
    assert(s.subrange(p, e) =~= ds);
    let start = e + 1;
    assert(s.subrange(start, start + n) =~= e0);
    assert(s[start + n] == rest[0]);
    if es.len() >= 2 {
        let pre2 = pre + ds + seq!['.'] + e0 + seq![','];
        assert(s =~= pre2 + encoded(es.drop_first()));
        assert forall|i: int| 0 <= i < es.drop_first().len() implies utf8_len(#[trigger] es.drop_first()[i])
            == es.drop_first()[i].len() && es.drop_first()[i].len() < MAX_ELEMENT_SIZE by {
            assert(es.drop_first()[i] == es[i + 1]);
        }
        lemma_parse_encoded(pre2, es.drop_first(), blen);
        assert(pre2.len() == start + n + 1);
        assert(seq![e0] + es.drop_first() =~= es);
    } else {
        assert(seq![e0] =~= es);
    }
}

/// An instruction encoding ASCII elements is ASCII.
proof fn lemma_joined_ascii(es: Seq<Seq<char>>)
    requires
        forall|i: int| 0 <= i < es.len() ==> is_ascii_chars(#[trigger] es[i]),
    ensures
        is_ascii_chars(joined(es)),
    decreases es.len(),
{
    if es.len() > 0 {
        let e = es.last();
        assert(is_ascii_chars(es[es.len() - 1]));
        let ds = decimal_digits(utf8_len(e) as nat);
        lemma_decimal_digits(utf8_len(e) as nat);
        let ee = encoded_element(e);
        assert forall|i: int| 0 <= i < ee.len() implies '\0' <= #[trigger] ee[i] <= '\u{7f}' by {
            if i < ds.len() {
                assert(ee[i] == ds[i]);
                assert(is_digit(ds[i]));
            } else if i > ds.len() {
                assert(ee[i] == e[i - ds.len() - 1]);
            }
        }
        if es.len() > 1 {
            let p = es.drop_last();
            assert forall|i: int| 0 <= i < p.len() implies is_ascii_chars(#[trigger] p[i]) by {
                assert(p[i] == es[i]);
            }
            lemma_joined_ascii(p);
            let j = joined(p);
            let all = j + seq![','] + ee;
            assert forall|i: int| 0 <= i < all.len() implies '\0' <= #[trigger] all[i] <= '\u{7f}' by {
                if i < j.len() {
                    assert(all[i] == j[i]);
                } else if i > j.len() {
                    assert(all[i] == ee[i - j.len() - 1]);
                }
            }
        }
    }
}

/// Decoding an encoded instruction gives back its elements, when there is
/// at least one, every element is ASCII and shorter than the element limit,
/// and the instruction fits the instruction limit. (Sizes are written in
/// bytes but read in characters, so the two agree on ASCII only.)
pub proof fn lemma_decode_encoded(es: Seq<Seq<char>>)
    requires
        es.len() > 0,
        forall|i: int| 0 <= i < es.len() ==> is_ascii_chars(#[trigger] es[i]) && es[i].len() < MAX_ELEMENT_SIZE,
        encoded(es).len() <= MAX_INSTRUCTION_SIZE,
    ensures
        decoded(encoded(es)) == Ok::<Seq<Seq<char>>, DecodeError>(es),
{
    broadcast use vstd::utf8::is_ascii_chars_encode_utf8;

    let s = encoded(es);
    lemma_joined_ascii(es);
    assert forall|i: int| 0 <= i < s.len() implies '\0' <= #[trigger] s[i] <= '\u{7f}' by {
        if i < joined(es).len() {
            assert(s[i] == joined(es)[i]);
        }
    }
    assert(is_ascii_chars(s));
    assert(utf8_len(s) == s.len());
    assert forall|i: int| 0 <= i < es.len() implies utf8_len(#[trigger] es[i]) == es[i].len() && es[i].len()
        < MAX_ELEMENT_SIZE by {
        assert(is_ascii_chars(es[i]));
    }
    lemma_parse_encoded(Seq::empty(), es, s.len() as int);
    assert(Seq::<char>::empty() + s =~= s);
}

/// Relies on `String::push`, which appends one character to the string.
#[verifier::external_body]
fn push_char(s: &mut String, c: char)
    ensures
        final(s)@ == old(s)@.push(c),
{
    s.push(c);
}

/// Appends the decimal representation of `n`.
fn push_decimal(s: &mut String, n: usize)
    ensures
        final(s)@ == old(s)@ + decimal_digits(n as nat),
    decreases n,
{
    if n >= 10 {
        push_decimal(s, n / 10);
    }
    let d: u8 = (n % 10) as u8;
    push_char(s, (d + 48) as char);
    assert(decimal_digits(n as nat) == if n < 10 {
        seq![digit_char(n as nat)]
    } else {
        decimal_digits((n / 10) as nat) + seq![digit_char((n % 10) as nat)]
    });
}

/// Encodes elements into an instruction.
pub fn encode_instruction(elements: &Elements) -> (r: String)
    ensures
        r@ == encoded(strings_view(elements@)),
{
    let ghost es = strings_view(elements@);
    let mut out = String::new();
    let mut i: usize = 0;
    while i < elements.len()
        invariant
            es == strings_view(elements@),
            i <= elements@.len(),
            out@ == joined(es.take(i as int)),
        decreases elements@.len() - i,
    {
        let e = &elements[i];
        assert(es[i as int] == e@);
        if i > 0 {
            push_char(&mut out, ',');
        }
        let n = e.as_str().len();
        push_decimal(&mut out, n);
        push_char(&mut out, '.');
        let ghost before = out@;
        out.append(e.as_str());
        proof {
            assert(n == utf8_len(e@));
            let t = es.take(i + 1);
            assert(t.drop_last() =~= es.take(i as int));
            assert(t.last() == e@);
            if i == 0 {
                assert(t.len() == 1);
                assert(out@ =~= encoded_element(e@));
            } else {
                assert(out@ =~= joined(es.take(i as int)) + seq![','] + encoded_element(e@));
            }
        }
        i = i + 1;
    }
    assert(es.take(i as int) =~= es);
    push_char(&mut out, ';');
    out
}

/// `prefix` followed by what `rest` decodes to.
pub open spec fn prepend(
    prefix: Seq<Seq<char>>,
    rest: Result<Seq<Seq<char>>, DecodeError>,
) -> Result<Seq<Seq<char>>, DecodeError> {
    match rest {
        Ok(r) => Ok(prefix + r),
        Err(e) => Err(e),
    }
}

/// The characters of `s`.
fn chars_of(s: &str) -> (r: Vec<char>)
    ensures
        r@ == s@,
{
    broadcast use vstd::string::group_string_axioms;

    let mut v: Vec<char> = Vec::new();
    for c in it: s.chars()
        invariant
            v@ == it.seq().take(it.index() as int),
    {
        v.push(c);
    }
    v
}

/// A string holding `chars[from..to]`.
fn string_of(chars: &Vec<char>, from: usize, to: usize) -> (r: String)
    requires
        from <= to <= chars@.len(),
    ensures
        r@ == chars@.subrange(from as int, to as int),
{
    let mut out = String::new();
    let mut i = from;
    while i < to
        invariant
            from <= i <= to <= chars@.len(),
            out@ == chars@.subrange(from as int, i as int),
        decreases to - i,
    {
        push_char(&mut out, chars[i]);
        assert(chars@.subrange(from as int, i + 1) =~= chars@.subrange(from as int, i as int).push(chars@[i as int]));
        i = i + 1;
    }
    out
}

/// Decodes an instruction to its elements.
pub fn decode_instruction(element_string: &String) -> (r: DecodeResult<Elements>)
    ensures
        match r {
            Ok(v) => decoded(element_string@) == Ok::<Seq<Seq<char>>, DecodeError>(strings_view(v@)),
            Err(e) => decoded(element_string@) == Err::<Seq<Seq<char>>, DecodeError>(e),
        },
{
    let policy = DefaultDecodePolicy {};
    let blen = element_string.as_str().len();
    if policy.max_instruction_size() < blen {
        return Err(DecodeError::InstructionTooLong);
    }
    let ghost s = element_string@;
    let chars = chars_of(element_string.as_str());
    let len = chars.len();
    let mut vec: Elements = Vec::new();
    let mut pos: usize = 0;
    assert(strings_view(vec@) =~= Seq::<Seq<char>>::empty());
    loop
        invariant
            s == element_string@,
            chars@ == s,
            len == s.len(),
            blen == utf8_len(s),
            blen <= MAX_INSTRUCTION_SIZE,
            pos <= len,
            decoded(s) == prepend(strings_view(vec@), parse_from(s, blen as int, pos as int)),
        decreases len - pos,
    {
        if pos >= len {
            assert(parse_from(s, blen as int, pos as int) == Err::<Seq<Seq<char>>, DecodeError>(
                DecodeError::InvalidFormat,
            ));
            return Err(DecodeError::InvalidFormat);
        }
        let ghost here = parse_from(s, blen as int, pos as int);
        let mut q = pos;
        let mut size: usize = 0;
        while q < len && chars[q] >= '0' && chars[q] <= '9'
            invariant
                chars@ == s,
                len == s.len(),
                pos <= q <= len,
                digits_end(s, pos as int) == digits_end(s, q as int),
                size == if decimal_value(s.subrange(pos as int, q as int)) < MAX_ELEMENT_SIZE {
                    decimal_value(s.subrange(pos as int, q as int))
                } else {
                    MAX_ELEMENT_SIZE as nat
                },
            decreases len - q,
        {
            let d = (chars[q] as u32 - '0' as u32) as usize;
            assert(s.subrange(pos as int, q + 1).drop_last() =~= s.subrange(pos as int, q as int));
            size = size * 10 + d;
            if size > MAX_ELEMENT_SIZE {
                size = MAX_ELEMENT_SIZE;
            }
            q = q + 1;
        }
        assert(digits_end(s, q as int) == q);
        proof {
            lemma_digits_end(s, pos as int);
        }
        if q >= len || chars[q] != '.' {
            assert(here == Err::<Seq<Seq<char>>, DecodeError>(DecodeError::InvalidFormat));
            return Err(DecodeError::InvalidFormat);
        }
        let start = q + 1;
        if size >= policy.max_element_size() {
            return Err(DecodeError::ElementTooLong);
        }
        if size >= blen {
            return Err(DecodeError::ElementSizeInvalid);
        }
        if size >= len - start {
            return Err(DecodeError::InvalidFormat);
        }
        let element = string_of(&chars, start, start + size);
        let ghost prev = strings_view(vec@);
        let ghost elem = element@;
        vec.push(element);
        assert(strings_view(vec@) =~= prev + seq![element@]);
        let sep = chars[start + size];
        if sep == ';' {
            return Ok(vec);
        } else if sep == ',' {
            pos = start + size + 1;
            proof {
                let nxt = parse_from(s, blen as int, pos as int);
                assert(here == match nxt {
                    Ok(rest) => Ok(seq![elem] + rest),
                    Err(e) => Err(e),
                });
                match nxt {
                    Ok(rest) => {
                        assert(prev + (seq![elem] + rest) =~= (prev + seq![elem]) + rest);
                    },
                    Err(_) => {},
                }
            }
        } else {
            return Err(DecodeError::InvalidFormat);
        }
    }
}

} // verus!
