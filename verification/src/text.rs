//! Source text as a sequence of characters, with the UTF-8 byte offsets that
//! spans are measured in, and the few character and string operations of std
//! that the lexers need.
use vstd::prelude::*;
use vstd::utf8::encode_utf8;
use vstd::utf8::encode_scalar;
use vstd::utf8::char_is_scalar;
use vstd::std_specs::iter::IteratorSpec;

verus! {

/// Number of bytes that the UTF-8 encoding of `c` takes.
pub open spec fn utf8_width(c: char) -> nat {
    if (c as u32) < 0x80 {
        1
    } else if (c as u32) < 0x800 {
        2
    } else if (c as u32) < 0x10000 {
        3
    } else {
        4
    }
}

/// Byte offset, in the UTF-8 encoding of `s`, of the character at index `i`:
/// the total width of the first `i` characters.
pub open spec fn byte_offset(s: Seq<char>, i: int) -> int
    decreases i,
{
    if i <= 0 {
        0
    } else {
        byte_offset(s, i - 1) + utf8_width(s[i - 1])
    }
}

/// Byte length of the UTF-8 encoding of `s`.
pub open spec fn byte_len(s: Seq<char>) -> int {
    byte_offset(s, s.len() as int)
}

/// Offsets grow with the index, by the width of each character.
pub proof fn lemma_byte_offset_step(s: Seq<char>, i: int)
    requires
        0 <= i < s.len(),
    ensures
        byte_offset(s, i + 1) == byte_offset(s, i) + utf8_width(s[i]),
        byte_offset(s, i) >= i,
{
    lemma_byte_offset_at_least_index(s, i);
}

/// The offset of index `i` is at least `i`.
pub proof fn lemma_byte_offset_at_least_index(s: Seq<char>, i: int)
    requires
        0 <= i <= s.len(),
    ensures
        byte_offset(s, i) >= i,
    decreases i,
{
    if i > 0 {
        lemma_byte_offset_at_least_index(s, i - 1);
    }
}

/// Offsets never decrease.
pub proof fn lemma_byte_offset_mono(s: Seq<char>, i: int, j: int)
    requires
        0 <= i <= j <= s.len(),
    ensures
        byte_offset(s, i) <= byte_offset(s, j),
        byte_offset(s, j) - byte_offset(s, i) >= j - i,
    decreases j - i,
{
    if i < j {
        lemma_byte_offset_mono(s, i, j - 1);
    }
}

proof fn lemma_byte_offset_drop_first(s: Seq<char>, i: int)
    requires
        1 <= i <= s.len(),
    ensures
        byte_offset(s, i) == utf8_width(s[0]) + byte_offset(s.drop_first(), i - 1),
    decreases i,
{
    assert(byte_offset(s, 0) == 0);
    assert(byte_offset(s.drop_first(), 0) == 0);
    if i > 1 {
        lemma_byte_offset_drop_first(s, i - 1);
        assert(s.drop_first()[i - 2] == s[i - 1]);
    }
}

proof fn lemma_encode_scalar_len(c: char)
    ensures
        encode_scalar(c as u32).len() == utf8_width(c),
{
    broadcast use char_is_scalar;

}

/// The UTF-8 encoding of `s` is `byte_len(s)` bytes long.
pub proof fn lemma_encode_utf8_len(s: Seq<char>)
    ensures
        encode_utf8(s).len() == byte_len(s),
    decreases s.len(),
{
    if s.len() > 0 {
        lemma_encode_utf8_len(s.drop_first());
        lemma_encode_scalar_len(s[0]);
        lemma_byte_offset_drop_first(s, s.len() as int);
    }
}

/// Exec counterpart of `utf8_width`.
pub fn char_width(c: char) -> (w: usize)
    ensures
        w == utf8_width(c),
{
    let v = c as u32;
    if v < 0x80 {
        1
    } else if v < 0x800 {
        2
    } else if v < 0x10000 {
        3
    } else {
        4
    }
}

/// The characters of `source`, in order. The UTF-8 encoding of `source`
/// fits in memory, so its byte length fits in a `usize`.
pub fn chars_of(source: &str) -> (v: Vec<char>)
    ensures
        v@ == source@,
        byte_len(v@) <= usize::MAX,
{
    broadcast use vstd::string::group_string_axioms;
    broadcast use vstd::string::next_postcondition;

    let bytes = source.as_bytes();
    let n = bytes.len();
    proof {
        lemma_encode_utf8_len(source@);
    }
    let mut it = source.chars();
    let mut v: Vec<char> = Vec::new();
    loop
        invariant
            v@ + it.remaining() == source@,
            it.decrease() is Some,
        ensures
            v@ == source@,
        decreases it.decrease()->0,
    {
        match it.next() {
            Some(c) => {
                v.push(c);
                assert(v@ + it.remaining() =~= source@);
            },
            None => {
                assert(v@ =~= source@);
                break ;
            },
        }
    }
    assert(byte_len(v@) == n);
    v
}

/// Whether a character beyond ASCII has the Unicode `Alphabetic` property
/// (std's `char::is_alphabetic`).
pub uninterp spec fn non_ascii_alphabetic(c: char) -> bool;

/// Whether a character beyond ASCII has a Unicode general category of a
/// number, `Nd`, `Nl` or `No` (std's `char::is_numeric`).
pub uninterp spec fn non_ascii_numeric(c: char) -> bool;

/// Whether the character is a Unicode letter (std's `char::is_alphabetic`):
/// in ASCII, exactly the letters `a`-`z` and `A`-`Z`.
pub open spec fn unicode_alphabetic(c: char) -> bool {
    if (c as u32) < 0x80 {
        ('a' <= c && c <= 'z') || ('A' <= c && c <= 'Z')
    } else {
        non_ascii_alphabetic(c)
    }
}

/// Whether the character is a Unicode number (std's `char::is_numeric`): in
/// ASCII, exactly the digits `0`-`9`.
pub open spec fn unicode_numeric(c: char) -> bool {
    if (c as u32) < 0x80 {
        '0' <= c && c <= '9'
    } else {
        non_ascii_numeric(c)
    }
}

/// Whether the character is a Unicode letter or number (std's
/// `char::is_alphanumeric`).
pub open spec fn unicode_alphanumeric(c: char) -> bool {
    unicode_alphabetic(c) || unicode_numeric(c)
}

/// Whether the character has the Unicode `White_Space` property, the
/// twenty-five code points U+0009 to U+000D, U+0020, U+0085, U+00A0, U+1680,
/// U+2000 to U+200A, U+2028, U+2029, U+202F, U+205F and U+3000 (what std's
/// `char::is_whitespace` tests).
pub open spec fn unicode_white_space(c: char) -> bool {
    let v = c as u32;
    ||| 0x09 <= v && v <= 0x0D
    ||| v == 0x20
    ||| v == 0x85
    ||| v == 0xA0
    ||| v == 0x1680
    ||| 0x2000 <= v && v <= 0x200A
    ||| v == 0x2028
    ||| v == 0x2029
    ||| v == 0x202F
    ||| v == 0x205F
    ||| v == 0x3000
}

/// Calls std's `char::is_alphabetic`. Trusted: the result is the character's
/// Unicode `Alphabetic` property, which in ASCII holds of the letters alone;
/// beyond ASCII it is named `non_ascii_alphabetic`, and this contract does
/// not spell out which characters it holds of.
#[verifier::external_body]
pub(crate) fn is_alphabetic(c: char) -> (r: bool)
    ensures
        r == (if (c as u32) < 0x80 {
            ('a' <= c && c <= 'z') || ('A' <= c && c <= 'Z')
        } else {
            non_ascii_alphabetic(c)
        }),
{
    c.is_alphabetic()
}

/// Calls std's `char::is_alphanumeric`. Trusted: as documented, the result
/// is whether the character satisfies `char::is_alphabetic` or
/// `char::is_numeric`. In ASCII these hold of the letters and of the digits
/// `0`-`9`; beyond ASCII they are named `non_ascii_alphabetic` and
/// `non_ascii_numeric`, and this contract does not spell out which characters
/// they hold of.
#[verifier::external_body]
pub(crate) fn is_alphanumeric(c: char) -> (r: bool)
    ensures
        r == (if (c as u32) < 0x80 {
            ('a' <= c && c <= 'z') || ('A' <= c && c <= 'Z') || ('0' <= c && c <= '9')
        } else {
            non_ascii_alphabetic(c) || non_ascii_numeric(c)
        }),
{
    c.is_alphanumeric()
}

/// Whether the character is white space: the Unicode `White_Space` property,
/// as std's `char::is_whitespace` tests it.
pub fn is_whitespace(c: char) -> (r: bool)
    ensures
        r == unicode_white_space(c),
{
    let v = c as u32;
    (0x09 <= v && v <= 0x0D) || v == 0x20 || v == 0x85 || v == 0xA0 || v == 0x1680 || (0x2000
        <= v && v <= 0x200A) || v == 0x2028 || v == 0x2029 || v == 0x202F || v == 0x205F || v
        == 0x3000
}

/// Whether `code` is a Unicode scalar value, i.e. the code of some `char`.
pub open spec fn is_scalar_value(code: u32) -> bool {
    code < 0xD800 || (0xE000 <= code && code <= 0x10FFFF)
}

/// Calls std's `char::from_u32`. Trusted: as documented, it gives the
/// character with code `code` exactly when `code` is a Unicode scalar value,
/// and `None` otherwise.
#[verifier::external_body]
pub(crate) fn char_from_u32(code: u32) -> (r: Option<char>)
    ensures
        r is Some <==> is_scalar_value(code),
        r matches Some(c) ==> c as u32 == code,
{
    char::from_u32(code)
}

/// Calls std's `String::push`. Trusted: as documented, it appends `c` to the
/// end of the string.
#[verifier::external_body]
pub(crate) fn push_char(s: &mut String, c: char)
    ensures
        final(s)@ == old(s)@.push(c),
{
    s.push(c)
}

/// A string holding the characters `v[from..to]`.
pub fn string_from_chars(v: &Vec<char>, from: usize, to: usize) -> (r: String)
    requires
        from <= to <= v.len(),
    ensures
        r@ == v@.subrange(from as int, to as int),
{
    let mut r = String::new();
    let mut i = from;
    while i < to
        invariant
            from <= i <= to <= v.len(),
            r@ == v@.subrange(from as int, i as int),
        decreases to - i,
    {
        push_char(&mut r, v[i]);
        i = i + 1;
        assert(r@ =~= v@.subrange(from as int, i as int));
    }
    r
}

/// A string holding the characters of `v`, except the underscores.
pub fn string_without_underscores(v: &Vec<char>, from: usize, to: usize) -> (r: String)
    requires
        from <= to <= v.len(),
    ensures
        r@ == without_underscores(v@.subrange(from as int, to as int)),
{
    let mut r = String::new();
    let mut i = from;
    while i < to
        invariant
            from <= i <= to <= v.len(),
            r@ == without_underscores(v@.subrange(from as int, i as int)),
        decreases to - i,
    {
        proof {
            lemma_without_underscores_push(v@.subrange(from as int, i as int), v@[i as int]);
            assert(v@.subrange(from as int, i + 1) =~= v@.subrange(from as int, i as int).push(
                v@[i as int],
            ));
        }
        if v[i] != '_' {
            push_char(&mut r, v[i]);
        }
        i = i + 1;
    }
    r
}

/// The characters `v[from..to]` except the underscores.
pub fn chars_without_underscores(v: &Vec<char>, from: usize, to: usize) -> (r: Vec<char>)
    requires
        from <= to <= v.len(),
    ensures
        r@ == without_underscores(v@.subrange(from as int, to as int)),
{
    let mut r: Vec<char> = Vec::new();
    let mut i = from;
    while i < to
        invariant
            from <= i <= to <= v.len(),
            r@ == without_underscores(v@.subrange(from as int, i as int)),
        decreases to - i,
    {
        proof {
            lemma_without_underscores_push(v@.subrange(from as int, i as int), v@[i as int]);
            assert(v@.subrange(from as int, i + 1) =~= v@.subrange(from as int, i as int).push(
                v@[i as int],
            ));
        }
        if v[i] != '_' {
            r.push(v[i]);
        }
        i = i + 1;
    }
    r
}

/// `s` with its underscores removed.
pub open spec fn without_underscores(s: Seq<char>) -> Seq<char>
    decreases s.len(),
{
    if s.len() == 0 {
        s
    } else if s.last() == '_' {
        without_underscores(s.drop_last())
    } else {
        without_underscores(s.drop_last()).push(s.last())
    }
}

pub proof fn lemma_without_underscores_push(s: Seq<char>, c: char)
    ensures
        without_underscores(s.push(c)) == if c == '_' {
            without_underscores(s)
        } else {
            without_underscores(s).push(c)
        },
{
    assert(s.push(c).drop_last() =~= s);
}


/// The character of the decimal digit `d`.
pub open spec fn digit_char(d: int) -> char {
    if d == 0 {
        '0'
    } else if d == 1 {
        '1'
    } else if d == 2 {
        '2'
    } else if d == 3 {
        '3'
    } else if d == 4 {
        '4'
    } else if d == 5 {
        '5'
    } else if d == 6 {
        '6'
    } else if d == 7 {
        '7'
    } else if d == 8 {
        '8'
    } else {
        '9'
    }
}

/// The decimal digits of `n`, most significant first, with no leading zero
/// (`0` is the one digit `0`).
pub open spec fn decimal_digits(n: nat) -> Seq<char>
    decreases n,
{
    if n < 10 {
        seq![digit_char(n as int)]
    } else {
        decimal_digits(n / 10).push(digit_char((n % 10) as int))
    }
}

/// `n` in decimal, with a `-` before it when it is negative: what `{}`
/// prints of an integer.
pub open spec fn signed_decimal(n: int) -> Seq<char> {
    if n < 0 {
        seq!['-'] + decimal_digits((-n) as nat)
    } else {
        decimal_digits(n as nat)
    }
}

/// `d` filled up with zeros in front to at least `width` characters.
pub open spec fn zero_filled(d: Seq<char>, width: nat) -> Seq<char> {
    if d.len() < width {
        Seq::new((width - d.len()) as nat, |i: int| '0') + d
    } else {
        d
    }
}

/// `n` in decimal, filled up with zeros in front to at least `width`
/// characters: what `{:0width}` prints of an unsigned integer.
pub open spec fn zero_padded(n: nat, width: nat) -> Seq<char> {
    zero_filled(decimal_digits(n), width)
}

/// The character of the hexadecimal digit `d`, in upper case.
pub open spec fn hex_char(d: int) -> char {
    if d < 10 {
        digit_char(d)
    } else if d == 10 {
        'A'
    } else if d == 11 {
        'B'
    } else if d == 12 {
        'C'
    } else if d == 13 {
        'D'
    } else if d == 14 {
        'E'
    } else {
        'F'
    }
}

/// The hexadecimal digits of `n`, in upper case, most significant first.
pub open spec fn hex_digits(n: nat) -> Seq<char>
    decreases n,
{
    if n < 16 {
        seq![hex_char(n as int)]
    } else {
        hex_digits(n / 16).push(hex_char((n % 16) as int))
    }
}

/// The character of the digit `d` (below sixteen) in bases up to sixteen:
/// `0`-`9`, then `a`-`f`, or `A`-`F` when `upper`.
pub open spec fn radix_char(d: int, upper: bool) -> char {
    if d < 10 || upper {
        hex_char(d)
    } else if d == 10 {
        'a'
    } else if d == 11 {
        'b'
    } else if d == 12 {
        'c'
    } else if d == 13 {
        'd'
    } else if d == 14 {
        'e'
    } else {
        'f'
    }
}

/// The digits of `n` in base `radix`, most significant first, with no
/// leading zero; letters in upper case when `upper`.
pub open spec fn radix_digits(n: nat, radix: nat, upper: bool) -> Seq<char>
    decreases n,
{
    if radix < 2 || n < radix {
        seq![radix_char(n as int, upper)]
    } else {
        proof {
            vstd::arithmetic::div_mod::lemma_div_decreases(n as int, radix as int);
        }
        radix_digits(n / radix, radix, upper).push(radix_char((n % radix) as int, upper))
    }
}

/// `n` in upper-case hexadecimal, filled up with zeros in front to at least
/// `width` characters: what `{:0widthX}` prints of an unsigned integer.
pub open spec fn hex_padded(n: nat, width: nat) -> Seq<char> {
    zero_filled(hex_digits(n), width)
}

fn digit_of(d: u64) -> (c: char)
    requires
        d < 10,
    ensures
        c == digit_char(d as int),
{
    if d == 0 {
        '0'
    } else if d == 1 {
        '1'
    } else if d == 2 {
        '2'
    } else if d == 3 {
        '3'
    } else if d == 4 {
        '4'
    } else if d == 5 {
        '5'
    } else if d == 6 {
        '6'
    } else if d == 7 {
        '7'
    } else if d == 8 {
        '8'
    } else {
        '9'
    }
}

/// The decimal digits of `n`.
fn decimal_chars(n: u64) -> (r: Vec<char>)
    ensures
        r@ == decimal_digits(n as nat),
{
    let mut r: Vec<char> = Vec::new();
    r.push(digit_of(n % 10));
    let mut m: u64 = n / 10;
    assert(r@ =~= seq![digit_char((n % 10) as int)]);
    while m > 0
        invariant
            decimal_digits(n as nat) == (if m == 0 {
                Seq::<char>::empty()
            } else {
                decimal_digits(m as nat)
            }) + r@,
        decreases m,
    {
        let ghost old_r = r@;
        r.insert(0, digit_of(m % 10));
        proof {
            assert(r@ =~= seq![digit_char((m % 10) as int)] + old_r);
            let p = if m / 10 == 0 {
                Seq::<char>::empty()
            } else {
                decimal_digits((m / 10) as nat)
            };
            assert(decimal_digits(m as nat) =~= p.push(digit_char((m % 10) as int)));
            assert(p.push(digit_char((m % 10) as int)) + old_r =~= p + r@);
        }
        m = m / 10;
    }
    assert(Seq::<char>::empty() + r@ =~= r@);
    r
}

fn hex_of(d: u64) -> (c: char)
    requires
        d < 16,
    ensures
        c == hex_char(d as int),
{
    if d < 10 {
        digit_of(d)
    } else if d == 10 {
        'A'
    } else if d == 11 {
        'B'
    } else if d == 12 {
        'C'
    } else if d == 13 {
        'D'
    } else if d == 14 {
        'E'
    } else {
        'F'
    }
}

/// The upper-case hexadecimal digits of `n`.
fn hex_chars(n: u64) -> (r: Vec<char>)
    ensures
        r@ == hex_digits(n as nat),
{
    let mut r: Vec<char> = Vec::new();
    r.push(hex_of(n % 16));
    let mut m: u64 = n / 16;
    assert(r@ =~= seq![hex_char((n % 16) as int)]);
    while m > 0
        invariant
            hex_digits(n as nat) == (if m == 0 {
                Seq::<char>::empty()
            } else {
                hex_digits(m as nat)
            }) + r@,
        decreases m,
    {
        let ghost old_r = r@;
        r.insert(0, hex_of(m % 16));
        proof {
            assert(r@ =~= seq![hex_char((m % 16) as int)] + old_r);
            let p = if m / 16 == 0 {
                Seq::<char>::empty()
            } else {
                hex_digits((m / 16) as nat)
            };
            assert(hex_digits(m as nat) =~= p.push(hex_char((m % 16) as int)));
            assert(p.push(hex_char((m % 16) as int)) + old_r =~= p + r@);
        }
        m = m / 16;
    }
    assert(Seq::<char>::empty() + r@ =~= r@);
    r
}

/// Appends the characters of `v` to `out`.
fn push_chars(out: &mut String, v: &Vec<char>)
    ensures
        final(out)@ == old(out)@ + v@,
{
    let mut i: usize = 0;
    while i < v.len()
        invariant
            i <= v.len(),
            out@ == old(out)@ + v@.take(i as int),
        decreases v.len() - i,
    {
        push_char(out, v[i]);
        assert(v@.take(i + 1) =~= v@.take(i as int).push(v@[i as int]));
        i = i + 1;
    }
    assert(v@.take(v.len() as int) =~= v@);
}

/// Appends `n` in decimal to `out`, as `{}` prints it.
pub fn push_signed_decimal(out: &mut String, n: i64)
    ensures
        final(out)@ == old(out)@ + signed_decimal(n as int),
{
    let magnitude: u64 = if n < 0 {
        (0i128 - n as i128) as u64
    } else {
        n as u64
    };
    let digits = decimal_chars(magnitude);
    if n < 0 {
        push_char(out, '-');
    }
    push_chars(out, &digits);
    assert(old(out)@ + signed_decimal(n as int) =~= if n < 0 {
        old(out)@.push('-') + digits@
    } else {
        old(out)@ + digits@
    });
}

/// Appends `digits`, filled up with zeros in front to `width` characters,
/// to `out`.
fn push_filled(out: &mut String, digits: &Vec<char>, width: usize)
    ensures
        final(out)@ == old(out)@ + zero_filled(digits@, width as nat),
{
    let mut k: usize = digits.len();
    let ghost start = out@;
    while k < width
        invariant
            digits.len() <= k <= width || (k == digits.len() && k >= width),
            out@ == start + Seq::new((k - digits.len()) as nat, |i: int| '0'),
        decreases width - k,
    {
        push_char(out, '0');
        assert(Seq::new((k + 1 - digits.len()) as nat, |i: int| '0') =~= Seq::new(
            (k - digits.len()) as nat,
            |i: int| '0',
        ).push('0'));
        k = k + 1;
    }
    push_chars(out, digits);
    proof {
        if digits.len() < width {
            assert(k == width);
        } else {
            assert(Seq::new((k - digits.len()) as nat, |i: int| '0') =~= Seq::<char>::empty());
        }
        assert(out@ =~= start + zero_filled(digits@, width as nat));
    }
}

/// Appends `n` in decimal, filled up with zeros to `width` characters, to
/// `out`, as `{:0width}` prints it.
pub fn push_zero_padded(out: &mut String, n: u32, width: usize)
    ensures
        final(out)@ == old(out)@ + zero_padded(n as nat, width as nat),
{
    let digits = decimal_chars(n as u64);
    push_filled(out, &digits, width);
}

/// Appends `n` in upper-case hexadecimal, filled up with zeros to `width`
/// characters, to `out`, as `{:0widthX}` prints it.
pub fn push_hex_padded(out: &mut String, n: u32, width: usize)
    ensures
        final(out)@ == old(out)@ + hex_padded(n as nat, width as nat),
{
    let digits = hex_chars(n as u64);
    push_filled(out, &digits, width);
}

} // verus!
