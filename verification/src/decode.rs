//! Decoding token text into typed values: the decimal model, the parse
//! capability, and its implementations for the integer widths and for
//! verbatim text.

use vstd::prelude::*;

verus! {

/// Whether `c` is a decimal digit.
pub open spec fn is_digit(c: char) -> bool {
    ('0' as u32) <= (c as u32) && (c as u32) <= ('9' as u32)
}

/// The numeric value of the digit `c`.
pub open spec fn digit_val(c: char) -> int {
    (c as u32) - ('0' as u32)
}

/// Whether `s` is a non-empty run of decimal digits.
pub open spec fn is_dec_digits(s: Seq<char>) -> bool {
    s.len() > 0 && forall|i: int| 0 <= i < s.len() ==> is_digit(s[i])
}

/// The number that the digit run `s` denotes, most significant digit first.
pub open spec fn dec_val(s: Seq<char>) -> int
    decreases s.len(),
{
    if s.len() == 0 {
        0
    } else {
        dec_val(s.drop_last()) * 10 + digit_val(s.last())
    }
}

/// Whether `s` is an optionally negated non-empty run of decimal digits.
pub open spec fn is_int_text(s: Seq<char>) -> bool {
    if s.len() > 0 && s[0] == '-' {
        is_dec_digits(s.subrange(1, s.len() as int))
    } else {
        is_dec_digits(s)
    }
}

/// The integer that the text `s` denotes.
pub open spec fn int_text_val(s: Seq<char>) -> int {
    if s.len() > 0 && s[0] == '-' {
        -dec_val(s.subrange(1, s.len() as int))
    } else {
        dec_val(s)
    }
}

/// A digit run denotes a non-negative number.
pub proof fn lemma_dec_val_nonneg(s: Seq<char>)
    requires
        forall|i: int| 0 <= i < s.len() ==> is_digit(s[i]),
    ensures
        dec_val(s) >= 0,
    decreases s.len(),
{
    if s.len() > 0 {
        lemma_dec_val_nonneg(s.drop_last());
    }
}

/// Reading one more digit multiplies the value so far by ten and adds it.
pub proof fn lemma_dec_val_step(s: Seq<char>, i: int)
    requires
        0 <= i < s.len(),
    ensures
        dec_val(s.subrange(0, i + 1)) == dec_val(s.subrange(0, i)) * 10 + digit_val(s[i]),
{
    assert(s.subrange(0, i + 1).drop_last() =~= s.subrange(0, i));
    assert(s.subrange(0, i + 1).last() == s[i]);
}

/// A prefix of a digit run never denotes more than the whole run.
pub proof fn lemma_dec_val_prefix_le(s: Seq<char>, i: int)
    requires
        0 <= i <= s.len(),
        forall|k: int| 0 <= k < s.len() ==> is_digit(s[k]),
    ensures
        0 <= dec_val(s.subrange(0, i)) <= dec_val(s),
    decreases s.len() - i,
{
    assert(forall|k: int| 0 <= k < i ==> is_digit(s.subrange(0, i)[k]));
    lemma_dec_val_nonneg(s.subrange(0, i));
    if i == s.len() {
        assert(s.subrange(0, i) =~= s);
    } else {
        lemma_dec_val_step(s, i);
        lemma_dec_val_prefix_le(s, i + 1);
    }
}

/// The number that the digit run `s` denotes, as executable code.
pub fn parse_dec_u128(s: &str) -> (r: u128)
    requires
        is_dec_digits(s@),
        dec_val(s@) <= u128::MAX,
    ensures
        r as int == dec_val(s@),
{
    let len = s.unicode_len();
    let mut acc: u128 = 0;
    let mut i: usize = 0;
    proof {
        assert(s@.subrange(0, 0) =~= Seq::<char>::empty());
    }
    while i < len
        invariant
            0 <= i <= len,
            len == s@.len(),
            is_dec_digits(s@),
            dec_val(s@) <= u128::MAX,
            acc as int == dec_val(s@.subrange(0, i as int)),
        decreases len - i,
    {
        let c = s.get_char(i);
        proof {
            lemma_dec_val_step(s@, i as int);
            lemma_dec_val_prefix_le(s@, i + 1);
        }
        let d = (c as u32) - ('0' as u32);
        acc = acc * 10 + (d as u128);
        i = i + 1;
    }
    proof {
        assert(s@.subrange(0, len as int) =~= s@);
    }
    acc
}

/// The integer that the text `s` denotes, as executable code.
pub fn parse_dec_i128(s: &str) -> (r: i128)
    requires
        is_int_text(s@),
        i128::MIN <= int_text_val(s@) <= i128::MAX,
    ensures
        r as int == int_text_val(s@),
{
    let len = s.unicode_len();
    let c0 = s.get_char(0);
    if c0 == '-' {
        let rest = s.substring_char(1, len);
        proof {
            lemma_dec_val_nonneg(rest@);
        }
        let m = parse_dec_u128(rest);
        if m > i128::MAX as u128 {
            i128::MIN
        } else {
            -(m as i128)
        }
    } else {
        let m = parse_dec_u128(s);
        m as i128
    }
}

/// The digit character denoting `d`.
pub open spec fn dec_digit_char(d: int) -> char {
    if d == 0 {
        '0'
    } else if d == 1 {
        '1'
    } else if d == 2 {
        '2'
    } else if d == 3 {
        '3'
    } else if d == 4 {
        '4'
    } else if d == 5 {
        '5'
    } else if d == 6 {
        '6'
    } else if d == 7 {
        '7'
    } else if d == 8 {
        '8'
    } else {
        '9'
    }
}

/// The decimal digit run denoting the non-negative number `n`.
pub open spec fn dec_digits_of(n: int) -> Seq<char>
    decreases n,
{
    if n < 10 {
        seq![dec_digit_char(n)]
    } else {
        dec_digits_of(n / 10).push(dec_digit_char(n % 10))
    }
}

/// The decimal text denoting the integer `n`, with a leading minus sign
/// when `n` is negative.
pub open spec fn int_text_of(n: int) -> Seq<char> {
    if n < 0 {
        seq!['-'] + dec_digits_of(-n)
    } else {
        dec_digits_of(n)
    }
}

/// The digit run of a non-negative number denotes that number.
pub proof fn lemma_dec_digits_of(n: int)
    requires
        n >= 0,
    ensures
        is_dec_digits(dec_digits_of(n)),
        dec_val(dec_digits_of(n)) == n,
    decreases n,
{
    if n < 10 {
        let d = dec_digit_char(n);
        assert(digit_val(d) == n && is_digit(d));
        assert(seq![d].drop_last() =~= Seq::<char>::empty());
        assert(dec_val(Seq::<char>::empty()) == 0);
        assert(dec_val(seq![d]) == digit_val(d));
    } else {
        lemma_dec_digits_of(n / 10);
        let a = dec_digits_of(n / 10);
        let d = dec_digit_char(n % 10);
        assert(digit_val(d) == n % 10 && is_digit(d));
        assert(a.push(d).drop_last() =~= a);
        assert(a.push(d).last() == d);
        assert(dec_val(a.push(d)) == dec_val(a) * 10 + digit_val(d));
        assert(forall|i: int| 0 <= i < a.push(d).len() ==> is_digit(a.push(d)[i])) by {
            assert(forall|i: int| 0 <= i < a.len() ==> a.push(d)[i] == a[i]);
        }
    }
}

/// Decimal round trip: the decimal text of any integer is well-formed
/// integer text and decodes back to that integer exactly.
pub proof fn lemma_decimal_round_trip(n: int)
    ensures
        is_int_text(int_text_of(n)),
        int_text_val(int_text_of(n)) == n,
{
    if n >= 0 {
        lemma_dec_digits_of(n);
        assert(int_text_of(n)[0] != '-');
    } else {
        lemma_dec_digits_of(-n);
        let t = seq!['-'] + dec_digits_of(-n);
        assert(t[0] == '-');
        assert(t.subrange(1, t.len() as int) =~= dec_digits_of(-n));
    }
}

/// The decimal text of an integer holds no whitespace and no space
/// character: it is one whole line and one whole token.
pub proof fn lemma_int_text_plain(n: int)
    ensures
        forall|i: int|
            0 <= i < int_text_of(n).len() ==> !crate::text::is_space(#[trigger] int_text_of(n)[i])
                && int_text_of(n)[i] != ' ' && int_text_of(n)[i] != '\n',
{
    let m = if n < 0 {
        -n
    } else {
        n
    };
    lemma_dec_digits_of(m);
    assert(forall|i: int|
        0 <= i < int_text_of(n).len() ==> int_text_of(n)[i] == '-' || is_digit(
            #[trigger] int_text_of(n)[i],
        )) by {
        if n < 0 {
            assert(forall|i: int|
                1 <= i < int_text_of(n).len() ==> int_text_of(n)[i] == dec_digits_of(m)[i - 1]);
        }
    }
}

/// The capability of decoding a token's text into a value.
///
/// `parses` says which token texts decode at all; `decoded` says which
/// value a text decodes to. Decoding a text that does not parse is a
/// caller error, ruled out by the precondition of `fparse`.
pub trait FastParse: Sized {
    /// Whether the token text `s` decodes into a value of this type.
    spec fn parses(s: Seq<char>) -> bool;

    /// Whether `v` is the value that the token text `s` decodes to.
    spec fn decoded(s: Seq<char>, v: Self) -> bool;

    /// Decodes the token text `s`.
    fn fparse(s: &str) -> (r: Self)
        requires
            Self::parses(s@),
        ensures
            Self::decoded(s@, r),
    ;
}

impl FastParse for u8 {
    open spec fn parses(s: Seq<char>) -> bool {
        is_dec_digits(s) && dec_val(s) <= u8::MAX
    }

    open spec fn decoded(s: Seq<char>, v: u8) -> bool {
        v as int == dec_val(s)
    }

    fn fparse(s: &str) -> (r: u8) {
        parse_dec_u128(s) as u8
    }
}

impl FastParse for u16 {
    open spec fn parses(s: Seq<char>) -> bool {
        is_dec_digits(s) && dec_val(s) <= u16::MAX
    }

    open spec fn decoded(s: Seq<char>, v: u16) -> bool {
        v as int == dec_val(s)
    }

    fn fparse(s: &str) -> (r: u16) {
        parse_dec_u128(s) as u16
    }
}

impl FastParse for u32 {
    open spec fn parses(s: Seq<char>) -> bool {
        is_dec_digits(s) && dec_val(s) <= u32::MAX
    }

    open spec fn decoded(s: Seq<char>, v: u32) -> bool {
        v as int == dec_val(s)
    }

    fn fparse(s: &str) -> (r: u32) {
        parse_dec_u128(s) as u32
    }
}

impl FastParse for u64 {
    open spec fn parses(s: Seq<char>) -> bool {
        is_dec_digits(s) && dec_val(s) <= u64::MAX
    }

    open spec fn decoded(s: Seq<char>, v: u64) -> bool {
        v as int == dec_val(s)
    }

    fn fparse(s: &str) -> (r: u64) {
        parse_dec_u128(s) as u64
    }
}

impl FastParse for u128 {
    open spec fn parses(s: Seq<char>) -> bool {
        is_dec_digits(s) && dec_val(s) <= u128::MAX
    }

    open spec fn decoded(s: Seq<char>, v: u128) -> bool {
        v as int == dec_val(s)
    }

    fn fparse(s: &str) -> (r: u128) {
        parse_dec_u128(s)
    }
}

impl FastParse for usize {
    open spec fn parses(s: Seq<char>) -> bool {
        is_dec_digits(s) && dec_val(s) <= usize::MAX
    }

    open spec fn decoded(s: Seq<char>, v: usize) -> bool {
        v as int == dec_val(s)
    }

    fn fparse(s: &str) -> (r: usize) {
        parse_dec_u128(s) as usize
    }
}

impl FastParse for i8 {
    open spec fn parses(s: Seq<char>) -> bool {
        is_int_text(s) && i8::MIN <= int_text_val(s) <= i8::MAX
    }

    open spec fn decoded(s: Seq<char>, v: i8) -> bool {
        v as int == int_text_val(s)
    }

    fn fparse(s: &str) -> (r: i8) {
        parse_dec_i128(s) as i8
    }
}

impl FastParse for i16 {
    open spec fn parses(s: Seq<char>) -> bool {
        is_int_text(s) && i16::MIN <= int_text_val(s) <= i16::MAX
    }

    open spec fn decoded(s: Seq<char>, v: i16) -> bool {
        v as int == int_text_val(s)
    }

    fn fparse(s: &str) -> (r: i16) {
        parse_dec_i128(s) as i16
    }
}

impl FastParse for i32 {
    open spec fn parses(s: Seq<char>) -> bool {
        is_int_text(s) && i32::MIN <= int_text_val(s) <= i32::MAX
    }

    open spec fn decoded(s: Seq<char>, v: i32) -> bool {
        v as int == int_text_val(s)
    }

    fn fparse(s: &str) -> (r: i32) {
        parse_dec_i128(s) as i32
    }
}

impl FastParse for i64 {
    open spec fn parses(s: Seq<char>) -> bool {
        is_int_text(s) && i64::MIN <= int_text_val(s) <= i64::MAX
    }

    open spec fn decoded(s: Seq<char>, v: i64) -> bool {
        v as int == int_text_val(s)
    }

    fn fparse(s: &str) -> (r: i64) {
        parse_dec_i128(s) as i64
    }
}

impl FastParse for i128 {
    open spec fn parses(s: Seq<char>) -> bool {
        is_int_text(s) && i128::MIN <= int_text_val(s) <= i128::MAX
    }

    open spec fn decoded(s: Seq<char>, v: i128) -> bool {
        v as int == int_text_val(s)
    }

    fn fparse(s: &str) -> (r: i128) {
        parse_dec_i128(s)
    }
}

impl FastParse for isize {
    open spec fn parses(s: Seq<char>) -> bool {
        is_int_text(s) && isize::MIN <= int_text_val(s) <= isize::MAX
    }

    open spec fn decoded(s: Seq<char>, v: isize) -> bool {
        v as int == int_text_val(s)
    }

    fn fparse(s: &str) -> (r: isize) {
        parse_dec_i128(s) as isize
    }
}

/// A token's text kept verbatim: the identity decode, for callers that
/// want the token as text.
pub struct Str(pub String);

impl View for Str {
    type V = Seq<char>;

    open spec fn view(&self) -> Seq<char> {
        self.0@
    }
}

impl Str {
    /// The wrapped text.
    pub fn as_str(&self) -> (r: &str)
        ensures
            r@ == self@,
    {
        self.0.as_str()
    }
}

impl FastParse for Str {
    open spec fn parses(s: Seq<char>) -> bool {
        true
    }

    open spec fn decoded(s: Seq<char>, v: Str) -> bool {
        v@ == s
    }

    fn fparse(s: &str) -> (r: Str) {
        Str(s.to_owned())
    }
}

} // verus!
