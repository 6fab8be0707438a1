//! The numbers of the data files and of the SNES protocol, read and written as text:
//! hexadecimal values written with a two-character prefix (`0x3`), decimal coordinates, and
//! coordinate ranges (`3664-3665`).
use vstd::prelude::*;

verus! {

/// A text that is not a number of the expected type.
#[derive(Debug, PartialEq, Eq)]
pub enum NumberError {
    /// Empty, a character that is not a digit, or a value too large for the type.
    NotANumber,
}

/// The value of a digit in the given radix: `0`-`9`, then the letters in either case.
pub open spec fn digit_value(c: char, radix: int) -> Option<int> {
    let code = c as u32;
    let v: int = if 48 <= code <= 57 {
        code - 48
    } else if 97 <= code <= 122 {
        code - 87
    } else if 65 <= code <= 90 {
        code - 55
    } else {
        radix
    };
    if v < radix {
        Some(v)
    } else {
        None
    }
}

/// The value of a string of digits, most significant first; none when a character is not a
/// digit. The empty string is zero.
pub open spec fn digits_value(s: Seq<char>, radix: int) -> Option<int>
    decreases s.len(),
{
    if s.len() == 0 {
        Some(0)
    } else {
        match digits_value(s.drop_last(), radix) {
            Some(v) => match digit_value(s.last(), radix) {
                Some(d) => Some(v * radix + d),
                None => None,
            },
            None => None,
        }
    }
}

/// What `from_str_radix` reads for an unsigned type: an optional `+`, then one or more digits.
pub open spec fn radix_value(s: Seq<char>, radix: int) -> Option<int> {
    if s.len() == 0 {
        None
    } else if s[0] == '+' {
        if s.len() == 1 {
            None
        } else {
            digits_value(s.drop_first(), radix)
        }
    } else {
        digits_value(s, radix)
    }
}

/// The number that `s` is in the given radix, when it is one no greater than `max`.
pub open spec fn parsed(s: Seq<char>, radix: int, max: int) -> Option<int> {
    match radix_value(s, radix) {
        Some(v) => if v <= max {
            Some(v)
        } else {
            None
        },
        None => None,
    }
}

/// The number of bytes that UTF-8 takes for the character.
pub open spec fn utf8_len(c: char) -> int {
    let code = c as u32;
    if code < 0x80 {
        1
    } else if code < 0x800 {
        2
    } else if code < 0x10000 {
        3
    } else {
        4
    }
}

/// What is left of `s` after its first two bytes; none when they do not end on a character
/// boundary (slicing there would panic).
pub open spec fn after_two_bytes(s: Seq<char>) -> Option<Seq<char>> {
    if s.len() >= 1 && utf8_len(s[0]) == 2 {
        Some(s.drop_first())
    } else if s.len() >= 2 && utf8_len(s[0]) == 1 && utf8_len(s[1]) == 1 {
        Some(s.skip(2))
    } else {
        None
    }
}

proof fn lemma_digits_nonneg(s: Seq<char>, radix: int)
    requires
        radix >= 1,
    ensures
        digits_value(s, radix) matches Some(v) ==> v >= 0,
    decreases s.len(),
{
    if s.len() > 0 {
        lemma_digits_nonneg(s.drop_last(), radix);
        if let Some(v) = digits_value(s.drop_last(), radix) {
            assert(v * radix >= 0) by (nonlinear_arith)
                requires
                    v >= 0,
                    radix >= 1,
            ;
        }
    }
}

/// Appending digits never makes the value smaller.
proof fn lemma_digits_grow(q: Seq<char>, k: int, radix: int)
    requires
        radix >= 1,
        0 <= k <= q.len(),
        digits_value(q.take(k), radix) is Some,
    ensures
        digits_value(q, radix) matches Some(v) ==> v >= digits_value(q.take(k), radix)->0,
    decreases q.len(),
{
    if k == q.len() {
        assert(q.take(k) =~= q);
    } else {
        assert(q.drop_last().take(k) =~= q.take(k));
        lemma_digits_grow(q.drop_last(), k, radix);
        lemma_digits_nonneg(q.drop_last(), radix);
        if let Some(v) = digits_value(q.drop_last(), radix) {
            assert(v * radix >= v) by (nonlinear_arith)
                requires
                    v >= 0,
                    radix >= 1,
            ;
        }
    }
}

/// The value of a digit, when the character is one.
fn digit_of(c: char, radix: u32) -> (r: Option<u32>)
    requires
        radix <= 36,
    ensures
        match digit_value(c, radix as int) {
            Some(v) => r == Some(v as u32),
            None => r is None,
        },
{
    let code = c as u32;
    let v: u32 = if code >= 48 && code <= 57 {
        code - 48
    } else if code >= 97 && code <= 122 {
        code - 87
    } else if code >= 65 && code <= 90 {
        code - 55
    } else {
        radix
    };
    if v < radix {
        Some(v)
    } else {
        None
    }
}

/// Reads the characters `from..to` of `s` as a number in the given radix no greater than `max`.
fn parse_range(s: &str, from: usize, to: usize, radix: u32, max: u64) -> (r: Option<u64>)
    requires
        2 <= radix <= 36,
        from <= to <= s@.len(),
    ensures
        match parsed(s@.subrange(from as int, to as int), radix as int, max as int) {
            Some(v) => r matches Some(x) && x == v,
            None => r is None,
        },
{
    let ghost t = s@.subrange(from as int, to as int);
    if from == to {
        return None;
    }
    let mut i = from;
    if s.get_char(i) == '+' {
        if i + 1 == to {
            return None;
        }
        i = i + 1;
    }
    let ghost start = i;
    let ghost digits = s@.subrange(start as int, to as int);
    proof {
        if start > from {
            assert(t.drop_first() =~= digits);
        } else {
            assert(t =~= digits);
        }
        assert(radix_value(t, radix as int) == digits_value(digits, radix as int));
    }
    let mut acc: u64 = 0;
    while i < to
        invariant
            start <= i <= to <= s@.len(),
            2 <= radix <= 36,
            digits == s@.subrange(start as int, to as int),
            t == s@.subrange(from as int, to as int),
            radix_value(t, radix as int) == digits_value(digits, radix as int),
            digits_value(digits.take(i - start), radix as int) == Some(acc as int),
            acc <= max,
        decreases to - i,
    {
        proof {
            assert(digits.take(i - start + 1).drop_last() =~= digits.take(i - start));
            assert(digits.take(i - start + 1).last() == s@[i as int]);
        }
        let c = s.get_char(i);
        let d = match digit_of(c, radix) {
            Some(d) => d,
            None => {
                proof {
                    assert(digit_value(s@[i as int], radix as int) is None);
                    assert(digits_value(digits.take(i - start + 1), radix as int) is None);
                    lemma_none_propagates(digits, i - start + 1, radix as int);
                }
                return None;
            },
        };
        assert(acc as u128 * radix as u128 <= 0xffff_ffff_ffff_ffffu128 * 36) by (nonlinear_arith)
            requires
                acc <= 0xffff_ffff_ffff_ffffu64,
                radix <= 36,
        ;
        let next: u128 = acc as u128 * radix as u128 + d as u128;
        if next > max as u128 {
            proof {
                lemma_digits_grow(digits, i - start + 1, radix as int);
            }
            return None;
        }
        acc = next as u64;
        i = i + 1;
    }
    assert(digits.take(to - start) =~= digits);
    Some(acc)
}

/// A string with a prefix that is not a number is not one.
proof fn lemma_none_propagates(q: Seq<char>, k: int, radix: int)
    requires
        0 <= k <= q.len(),
        digits_value(q.take(k), radix) is None,
    ensures
        digits_value(q, radix) is None,
    decreases q.len(),
{
    if k == q.len() {
        assert(q.take(k) =~= q);
    } else {
        assert(q.drop_last().take(k) =~= q.take(k));
        lemma_none_propagates(q.drop_last(), k, radix);
    }
}

/// Where the text after the first two bytes starts, as a character index.
fn after_two_bytes_start(s: &str) -> (r: Option<usize>)
    ensures
        match after_two_bytes(s@) {
            Some(t) => r matches Some(k) && k <= s@.len() && t == s@.skip(k as int),
            None => r is None,
        },
{
    let n = s.unicode_len();
    if n >= 1 {
        let c0 = s.get_char(0) as u32;
        if c0 >= 0x80 && c0 < 0x800 {
            return Some(1);
        }
        if n >= 2 && c0 < 0x80 && (s.get_char(1) as u32) < 0x80 {
            return Some(2);
        }
    }
    None
}

/// Reads the text after the two-character prefix as a hexadecimal number no greater than
/// `max`.
fn parse_prefixed_hex(s: &str, max: u64) -> (r: Option<u64>)
    requires
        after_two_bytes(s@) is Some,
    ensures
        match parsed(after_two_bytes(s@)->0, 16, max as int) {
            Some(v) => r matches Some(x) && x == v,
            None => r is None,
        },
{
    match after_two_bytes_start(s) {
        Some(k) => {
            assert(s@.subrange(k as int, s@.len() as int) =~= s@.skip(k as int));
            parse_range(s, k, s.unicode_len(), 16, max)
        },
        None => None,
    }
}

/// The number after the two-character prefix, when it is a hexadecimal one no greater than
/// `max`.
pub open spec fn prefixed_hex(s: Seq<char>, max: int) -> Option<int> {
    match after_two_bytes(s) {
        Some(t) => parsed(t, 16, max),
        None => None,
    }
}

/// Reads a `u32` written in hexadecimal after a two-character prefix, such as `0x7fc0`.
pub fn hex_deserialize(s: &str) -> (r: Result<u32, NumberError>)
    requires
        after_two_bytes(s@) is Some,
    ensures
        match prefixed_hex(s@, u32::MAX as int) {
            Some(v) => r matches Ok(x) && x == v,
            None => r == Err::<u32, NumberError>(NumberError::NotANumber),
        },
{
    match parse_prefixed_hex(s, u32::MAX as u64) {
        Some(v) => Ok(v as u32),
        None => Err(NumberError::NotANumber),
    }
}

/// Reads a `u16` written in hexadecimal after a two-character prefix.
pub fn hex_16bit_deserialize(s: &str) -> (r: Result<u16, NumberError>)
    requires
        after_two_bytes(s@) is Some,
    ensures
        match prefixed_hex(s@, u16::MAX as int) {
            Some(v) => r matches Ok(x) && x == v,
            None => r == Err::<u16, NumberError>(NumberError::NotANumber),
        },
{
    match parse_prefixed_hex(s, u16::MAX as u64) {
        Some(v) => Ok(v as u16),
        None => Err(NumberError::NotANumber),
    }
}

/// Reads an optional `u16` written in hexadecimal after a two-character prefix; nothing reads
/// as nothing.
pub fn hex_16bit_option_deserialize(s: Option<&str>) -> (r: Result<Option<u16>, NumberError>)
    requires
        s matches Some(t) ==> after_two_bytes(t@) is Some,
    ensures
        match s {
            Some(t) => match prefixed_hex(t@, u16::MAX as int) {
                Some(v) => r matches Ok(Some(x)) && x == v,
                None => r == Err::<Option<u16>, NumberError>(NumberError::NotANumber),
            },
            None => r == Ok::<Option<u16>, NumberError>(None),
        },
{
    match s {
        Some(t) => match hex_16bit_deserialize(t) {
            Ok(v) => Ok(Some(v)),
            Err(e) => Err(e),
        },
        None => Ok(None),
    }
}

/// Reads a list of `u16` written in hexadecimal after a two-character prefix; every one of
/// them must be such a number.
pub fn hex_16bit_array_deserialize(strings: &Vec<String>) -> (r: Vec<u16>)
    requires
        forall|i: int| 0 <= i < strings@.len() ==> #[trigger] prefixed_hex(strings@[i]@, u16::MAX as int) is Some,
    ensures
        r@.len() == strings@.len(),
        forall|i: int| 0 <= i < strings@.len() ==> #[trigger] r@[i] == prefixed_hex(strings@[i]@, u16::MAX as int)->0,
{
    let mut r: Vec<u16> = Vec::new();
    let mut i: usize = 0;
    while i < strings.len()
        invariant
            i <= strings@.len(),
            r@.len() == i,
            forall|i: int| 0 <= i < strings@.len() ==> #[trigger] prefixed_hex(strings@[i]@, u16::MAX as int) is Some,
            forall|j: int| 0 <= j < i ==> #[trigger] r@[j] == prefixed_hex(strings@[j]@, u16::MAX as int)->0,
        decreases strings@.len() - i,
    {
        assert(prefixed_hex(strings@[i as int]@, u16::MAX as int) is Some);
        match parse_prefixed_hex(strings[i].as_str(), u16::MAX as u64) {
            Some(v) => r.push(v as u16),
            None => {
                proof {
                    assert(false);
                }
            },
        }
        i = i + 1;
    }
    r
}

/// Reads a `u8` written in hexadecimal after a two-character prefix.
pub fn hex_byte_deserialize(s: &str) -> (r: Result<u8, NumberError>)
    requires
        after_two_bytes(s@) is Some,
    ensures
        match prefixed_hex(s@, u8::MAX as int) {
            Some(v) => r matches Ok(x) && x == v,
            None => r == Err::<u8, NumberError>(NumberError::NotANumber),
        },
{
    match parse_prefixed_hex(s, u8::MAX as u64) {
        Some(v) => Ok(v as u8),
        None => Err(NumberError::NotANumber),
    }
}

/// Reads a `usize` written in hexadecimal after a two-character prefix.
pub fn hex_usize_deserialize(s: &str) -> (r: Result<usize, NumberError>)
    requires
        after_two_bytes(s@) is Some,
    ensures
        match prefixed_hex(s@, usize::MAX as int) {
            Some(v) => r matches Ok(x) && x == v,
            None => r == Err::<usize, NumberError>(NumberError::NotANumber),
        },
{
    match parse_prefixed_hex(s, usize::MAX as u64) {
        Some(v) => Ok(v as usize),
        None => Err(NumberError::NotANumber),
    }
}

/// Reads a coordinate: a `u16` written in decimal.
pub fn coordinate_deserialize(s: &str) -> (r: Result<u16, NumberError>)
    ensures
        match parsed(s@, 10, u16::MAX as int) {
            Some(v) => r matches Ok(x) && x == v,
            None => r == Err::<u16, NumberError>(NumberError::NotANumber),
        },
{
    assert(s@.subrange(0, s@.len() as int) =~= s@);
    match parse_range(s, 0, s.unicode_len(), 10, u16::MAX as u64) {
        Some(v) => Ok(v as u16),
        None => Err(NumberError::NotANumber),
    }
}

/// The pieces of `s` between the separators, in order, empty ones included.
pub open spec fn split_on(s: Seq<char>, sep: char) -> Seq<Seq<char>>
    decreases s.len(),
{
    if s.len() == 0 {
        seq![Seq::empty()]
    } else {
        let prev = split_on(s.drop_last(), sep);
        if s.last() == sep {
            prev.push(Seq::empty())
        } else {
            prev.update(prev.len() - 1, prev.last().push(s.last()))
        }
    }
}

/// The pieces that are decimal `u16` numbers, read, in order.
pub open spec fn coordinate_values(pieces: Seq<Seq<char>>) -> Seq<u16>
    decreases pieces.len(),
{
    if pieces.len() == 0 {
        Seq::empty()
    } else {
        match parsed(pieces.last(), 10, u16::MAX as int) {
            Some(v) => coordinate_values(pieces.drop_last()).push(v as u16),
            None => coordinate_values(pieces.drop_last()),
        }
    }
}

proof fn lemma_split_nonempty(s: Seq<char>, sep: char)
    ensures
        split_on(s, sep).len() >= 1,
    decreases s.len(),
{
    if s.len() > 0 {
        lemma_split_nonempty(s.drop_last(), sep);
    }
}

/// The numbers of a range written `min-max`, read in decimal; the pieces between the dashes
/// that are not numbers are passed over. With one number, the range holds only it; with more,
/// the first two are the bounds. At least one piece must be a number.
pub fn coordinate_range_deserialize(s: &str) -> (r: (u16, u16))
    requires
        coordinate_values(split_on(s@, '-')).len() >= 1,
    ensures
        ({
            let vals = coordinate_values(split_on(s@, '-'));
            r == if vals.len() == 1 {
                (vals[0], vals[0])
            } else {
                (vals[0], vals[1])
            }
        }),
{
    let n = s.unicode_len();
    let ghost all = split_on(s@, '-');
    let ghost mut done: Seq<Seq<char>> = Seq::empty();
    let mut vals: Vec<u16> = Vec::new();
    let mut start: usize = 0;
    let mut i: usize = 0;
    proof {
        assert(s@.take(0) =~= Seq::<char>::empty());
        assert(s@.subrange(0, 0) =~= Seq::<char>::empty());
        assert(split_on(s@.take(0), '-') =~~= done.push(s@.subrange(0, 0)));
    }
    while i < n
        invariant
            n == s@.len(),
            start <= i <= n,
            split_on(s@.take(i as int), '-') == done.push(s@.subrange(start as int, i as int)),
            vals@ == coordinate_values(done),
        decreases n - i,
    {
        proof {
            assert(s@.take(i + 1).drop_last() =~= s@.take(i as int));
            assert(s@.take(i + 1).last() == s@[i as int]);
        }
        if s.get_char(i) == '-' {
            let piece = parse_range(s, start, i, 10, u16::MAX as u64);
            proof {
                let p = s@.subrange(start as int, i as int);
                assert(done.push(p).drop_last() =~= done);
            }
            match piece {
                Some(v) => vals.push(v as u16),
                None => {},
            }
            proof {
                let p = s@.subrange(start as int, i as int);
                done = done.push(p);
                assert(s@[i as int] == '-');
                assert(s@.subrange(i + 1, i + 1) =~= Seq::<char>::empty());
                assert(split_on(s@.take(i + 1), '-') =~~= done.push(s@.subrange(i + 1, i + 1)));
            }
            start = i + 1;
        } else {
            proof {
                let p = s@.subrange(start as int, i as int);
                assert(p.push(s@[i as int]) =~= s@.subrange(start as int, i + 1));
                assert(split_on(s@.take(i + 1), '-') =~= done.push(s@.subrange(start as int, i + 1)));
            }
        }
        i = i + 1;
    }
    let last = parse_range(s, start, n, 10, u16::MAX as u64);
    proof {
        assert(s@.take(n as int) =~= s@);
        let p = s@.subrange(start as int, n as int);
        assert(done.push(p).drop_last() =~= done);
    }
    match last {
        Some(v) => vals.push(v as u16),
        None => {},
    }
    assert(vals@ == coordinate_values(all));
    if vals.len() == 1 {
        (vals[0], vals[0])
    } else {
        (vals[0], vals[1])
    }
}

/// The character of a digit, in upper case past 9.
pub open spec fn digit_char(d: int) -> char {
    if d < 10 {
        (48 + d) as char
    } else {
        (55 + d) as char
    }
}

pub proof fn lemma_div_smaller(n: nat, radix: nat)
    requires
        2 <= radix <= n,
    ensures
        n / radix < n,
{
    assert(n / radix < n) by (nonlinear_arith)
        requires
            2 <= radix <= n,
    ;
}

/// `n` written in the given radix, most significant digit first, without leading zeros.
pub open spec fn radix_text(n: nat, radix: nat) -> Seq<char>
    decreases n,
{
    if radix < 2 || n < radix {
        seq![digit_char(n as int)]
    } else {
        proof {
            lemma_div_smaller(n, radix);
        }
        radix_text(n / radix, radix).push(digit_char((n % radix) as int))
    }
}

/// The text of one digit.
fn digit_text(d: u128) -> (t: &'static str)
    requires
        d < 16,
    ensures
        t@ == seq![digit_char(d as int)],
{
    proof {
        reveal_strlit("0");
        reveal_strlit("1");
        reveal_strlit("2");
        reveal_strlit("3");
        reveal_strlit("4");
        reveal_strlit("5");
        reveal_strlit("6");
        reveal_strlit("7");
        reveal_strlit("8");
        reveal_strlit("9");
        reveal_strlit("A");
        reveal_strlit("B");
        reveal_strlit("C");
        reveal_strlit("D");
        reveal_strlit("E");
        reveal_strlit("F");
    }
    let t = if d == 0 {
        "0"
    } else if d == 1 {
        "1"
    } else if d == 2 {
        "2"
    } else if d == 3 {
        "3"
    } else if d == 4 {
        "4"
    } else if d == 5 {
        "5"
    } else if d == 6 {
        "6"
    } else if d == 7 {
        "7"
    } else if d == 8 {
        "8"
    } else if d == 9 {
        "9"
    } else if d == 10 {
        "A"
    } else if d == 11 {
        "B"
    } else if d == 12 {
        "C"
    } else if d == 13 {
        "D"
    } else if d == 14 {
        "E"
    } else {
        "F"
    };
    assert(t@ =~= seq![digit_char(d as int)]);
    t
}

/// Appends `n` written in the given radix.
pub fn append_radix(out: &mut String, n: u128, radix: u128)
    requires
        2 <= radix <= 16,
    ensures
        final(out)@ == old(out)@ + radix_text(n as nat, radix as nat),
    decreases n,
{
    if n >= radix {
        proof {
            lemma_div_smaller(n as nat, radix as nat);
        }
        append_radix(out, n / radix, radix);
    }
    proof {
        if n < radix {
            assert(n % radix == n) by (nonlinear_arith)
                requires
                    n < radix,
            ;
        }
    }
    out.append(digit_text(n % radix));
    assert(out@ =~= old(out)@ + radix_text(n as nat, radix as nat));
}

/// `n` in upper-case hexadecimal, as `{:X}` writes it.
pub fn upper_hex(n: u128) -> (s: String)
    ensures
        s@ == radix_text(n as nat, 16),
{
    let mut s = String::new();
    append_radix(&mut s, n, 16);
    assert(s@ =~= radix_text(n as nat, 16));
    s
}

/// `n` in decimal, as `{}` writes it.
pub fn decimal(n: u128) -> (s: String)
    ensures
        s@ == radix_text(n as nat, 10),
{
    let mut s = String::new();
    append_radix(&mut s, n, 10);
    assert(s@ =~= radix_text(n as nat, 10));
    s
}

/// A value written in upper-case hexadecimal.
pub fn hex_serialize(x: &u16) -> (s: String)
    ensures
        s@ == radix_text(*x as nat, 16),
{
    upper_hex(*x as u128)
}

/// An optional value written in upper-case hexadecimal; nothing stays nothing.
pub fn hex_serialize_option(x: &Option<u16>) -> (s: Option<String>)
    ensures
        match *x {
            Some(v) => s matches Some(t) && t@ == radix_text(v as nat, 16),
            None => s is None,
        },
{
    match x {
        Some(v) => Some(hex_serialize(v)),
        None => None,
    }
}

/// A digit's character reads back as the digit.
proof fn lemma_digit_char(d: int, radix: int)
    requires
        0 <= d < radix <= 16,
    ensures
        digit_value(digit_char(d), radix) == Some(d),
{
}

/// The digits of `n` read back as `n`, and they are not empty.
proof fn lemma_radix_text_value(n: nat, radix: nat)
    requires
        2 <= radix <= 16,
    ensures
        radix_text(n, radix).len() >= 1,
        digits_value(radix_text(n, radix), radix as int) == Some(n as int),
    decreases n,
{
    if n < radix {
        lemma_digit_char(n as int, radix as int);
        let t = radix_text(n, radix);
        assert(t.drop_last() =~= Seq::<char>::empty());
        assert(digits_value(t.drop_last(), radix as int) == Some(0int));
        assert(t.last() == digit_char(n as int));
        assert(0 * (radix as int) + n == n);
    } else {
        lemma_div_smaller(n, radix);
        lemma_radix_text_value(n / radix, radix);
        let t = radix_text(n, radix);
        assert(t.drop_last() =~= radix_text(n / radix, radix));
        assert(t.last() == digit_char((n % radix) as int));
        assert(0 <= n % radix < radix) by (nonlinear_arith)
            requires
                radix >= 2,
        ;
        lemma_digit_char((n % radix) as int, radix as int);
        assert((n / radix) * radix + n % radix == n) by (nonlinear_arith)
            requires
                radix >= 2,
        ;
    }
}

/// Writing a number in a radix and reading it back in the same radix gives the number, when
/// it fits the type read into (`max`).
pub proof fn law_radix_roundtrip(n: nat, radix: nat, max: int)
    requires
        2 <= radix <= 16,
        n <= max,
    ensures
        parsed(radix_text(n, radix), radix as int, max) == Some(n as int),
{
    lemma_radix_text_value(n, radix);
    let t = radix_text(n, radix);
    let first = t[0];
    if n < radix {
        assert(first == digit_char(n as int));
    } else {
        lemma_radix_text_first(n, radix);
    }
}

/// The first character of a number's digits is a digit.
proof fn lemma_radix_text_first(n: nat, radix: nat)
    requires
        2 <= radix <= 16,
    ensures
        radix_text(n, radix)[0] != '+',
    decreases n,
{
    if n >= radix {
        lemma_div_smaller(n, radix);
        lemma_radix_text_first(n / radix, radix);
        lemma_radix_text_value(n / radix, radix);
        assert(radix_text(n, radix)[0] == radix_text(n / radix, radix)[0]);
    }
}

/// A value written with `hex_serialize` behind a `0x` prefix reads back with
/// `hex_16bit_deserialize`.
pub proof fn law_hex_roundtrip(x: u16)
    ensures
        prefixed_hex("0x"@ + radix_text(x as nat, 16), u16::MAX as int) == Some(x as int),
{
    reveal_strlit("0x");
    let t = radix_text(x as nat, 16);
    let s = "0x"@ + t;
    assert(s.skip(2) =~= t);
    law_radix_roundtrip(x as nat, 16, u16::MAX as int);
}

} // verus!
