//! Text helpers: building, comparing and scanning strings by their characters.

use vstd::arithmetic::div_mod::lemma_div_denominator;
use vstd::arithmetic::power::{lemma_pow_positive, pow};
use vstd::prelude::*;
use vstd::string::*;

verus! {

/// `std::string::String::push` appends one character to the end of the string.
pub assume_specification[ String::push ](s: &mut String, c: char)
    ensures
        final(s)@ == old(s)@.push(c),
;

/// The characters of `s`, in order.
pub fn chars_of(s: &str) -> (r: Vec<char>)
    ensures
        r@ == s@,
{
    let mut out: Vec<char> = Vec::new();
    for c in it: s.chars()
        invariant
            it.seq() == s@,
            out@ == s@.take(it.index() as int),
    {
        proof {
            assert(s@.take(it.index() as int + 1) == s@.take(it.index() as int).push(s@[it.index() as int]));
        }
        out.push(c);
    }
    proof {
        assert(s@.take(s@.len() as int) == s@);
    }
    out
}

/// The string made of the given characters.
pub fn string_of(chars: &Vec<char>) -> (r: String)
    ensures
        r@ == chars@,
{
    let mut out = String::new();
    let mut i: usize = 0;
    while i < chars.len()
        invariant
            i <= chars.len(),
            out@ == chars@.take(i as int),
        decreases chars.len() - i,
    {
        proof {
            assert(chars@.take(i as int + 1) == chars@.take(i as int).push(chars@[i as int]));
        }
        out.push(chars[i]);
        i = i + 1;
    }
    proof {
        assert(chars@.take(chars@.len() as int) == chars@);
    }
    out
}

/// Whether `whole` begins with `prefix`.
pub open spec fn has_prefix(whole: Seq<char>, prefix: Seq<char>) -> bool {
    prefix.len() <= whole.len() && whole.take(prefix.len() as int) == prefix
}

/// Whether `whole` begins with `prefix`.
pub fn starts_with(whole: &str, prefix: &str) -> (r: bool)
    ensures
        r == has_prefix(whole@, prefix@),
{
    let w = chars_of(whole);
    let p = chars_of(prefix);
    if p.len() > w.len() {
        return false;
    }
    let mut i: usize = 0;
    while i < p.len()
        invariant
            i <= p.len() <= w.len(),
            w@ == whole@,
            p@ == prefix@,
            forall|j: int| 0 <= j < i ==> w@[j] == p@[j],
        decreases p.len() - i,
    {
        if w[i] != p[i] {
            proof {
                assert(whole@.take(prefix@.len() as int)[i as int] != prefix@[i as int]);
            }
            return false;
        }
        i = i + 1;
    }
    proof {
        assert(whole@.take(prefix@.len() as int) =~= prefix@);
    }
    true
}

/// The decimal digit character of `d`.
pub open spec fn digit_char(d: nat) -> char {
    if d == 0 { '0' }
    else if d == 1 { '1' }
    else if d == 2 { '2' }
    else if d == 3 { '3' }
    else if d == 4 { '4' }
    else if d == 5 { '5' }
    else if d == 6 { '6' }
    else if d == 7 { '7' }
    else if d == 8 { '8' }
    else if d == 9 { '9' }
    else if d == 10 { 'a' }
    else if d == 11 { 'b' }
    else if d == 12 { 'c' }
    else if d == 13 { 'd' }
    else if d == 14 { 'e' }
    else { 'f' }
}

/// The digit character of `d`, for a digit below sixteen.
pub fn digit(d: u64) -> (r: char)
    requires
        d < 16,
    ensures
        r == digit_char(d as nat),
{
    if d == 0 { '0' }
    else if d == 1 { '1' }
    else if d == 2 { '2' }
    else if d == 3 { '3' }
    else if d == 4 { '4' }
    else if d == 5 { '5' }
    else if d == 6 { '6' }
    else if d == 7 { '7' }
    else if d == 8 { '8' }
    else if d == 9 { '9' }
    else if d == 10 { 'a' }
    else if d == 11 { 'b' }
    else if d == 12 { 'c' }
    else if d == 13 { 'd' }
    else if d == 14 { 'e' }
    else { 'f' }
}

/// `n` written in decimal, without leading zeros.
pub open spec fn decimal(n: nat) -> Seq<char>
    decreases n,
{
    if n < 10 {
        seq![digit_char(n)]
    } else {
        decimal(n / 10).push(digit_char(n % 10))
    }
}

/// `n` written in lower-case hexadecimal with exactly `width` digits, the
/// higher digits dropped.
pub open spec fn hex_padded(n: nat, width: nat) -> Seq<char>
    decreases width,
{
    if width == 0 {
        Seq::empty()
    } else {
        hex_padded(n / 16, (width - 1) as nat).push(digit_char(n % 16))
    }
}

/// `n` written in decimal.
pub fn decimal_string(n: u64) -> (r: String)
    ensures
        r@ == decimal(n as nat),
    decreases n,
{
    if n < 10 {
        let mut out = String::new();
        out.push(digit(n));
        assert(out@ =~= decimal(n as nat));
        out
    } else {
        let mut out = decimal_string(n / 10);
        out.push(digit(n % 10));
        out
    }
}

/// `n` written as eight lower-case hexadecimal digits.
pub fn hex8_string(n: u32) -> (r: String)
    ensures
        r@ == hex_padded(n as nat, 8),
{
    hex_string(n as u64, 8)
}

fn hex_string(n: u64, width: u32) -> (r: String)
    ensures
        r@ == hex_padded(n as nat, width as nat),
    decreases width,
{
    if width == 0 {
        let out = String::new();
        assert(out@ =~= hex_padded(n as nat, 0));
        out
    } else {
        let mut out = hex_string(n / 16, width - 1);
        out.push(digit(n % 16));
        out
    }
}

/// The texts that a list of strings holds.
pub open spec fn lines(list: Seq<String>) -> Seq<Seq<char>> {
    Seq::new(list.len(), |i: int| list[i]@)
}

/// Two strings joined.
pub fn concat2(a: &str, b: &str) -> (r: String)
    ensures
        r@ == a@ + b@,
{
    let mut out = a.to_owned();
    out.append(b);
    out
}

/// Three strings joined.
pub fn concat3(a: &str, b: &str, c: &str) -> (r: String)
    ensures
        r@ == a@ + b@ + c@,
{
    let mut out = a.to_owned();
    out.append(b);
    out.append(c);
    out
}

/// The text without the characters `c` at its end.
pub open spec fn trim_end(s: Seq<char>, c: char) -> Seq<char>
    decreases s.len(),
{
    if s.len() > 0 && s.last() == c {
        trim_end(s.drop_last(), c)
    } else {
        s
    }
}

/// The text without the characters `c` at its end.
pub fn trim_end_of(s: &str, c: char) -> (r: String)
    ensures
        r@ == trim_end(s@, c),
{
    let mut chars = chars_of(s);
    while chars.len() > 0 && chars[chars.len() - 1] == c
        invariant
            trim_end(chars@, c) == trim_end(s@, c),
        decreases chars.len(),
    {
        proof {
            assert(chars@.drop_last() =~= chars@.take(chars@.len() - 1));
        }
        let _ = chars.pop();
    }
    string_of(&chars)
}

/// The text behind its last character `c`; all of it where there is none.
pub open spec fn after_last(s: Seq<char>, c: char) -> Seq<char>
    decreases s.len(),
{
    if s.len() == 0 || s.last() == c {
        Seq::empty()
    } else {
        after_last(s.drop_last(), c).push(s.last())
    }
}

/// The text behind its last character `c`; all of it where there is none.
pub fn text_after_last(s: &str, c: char) -> (r: String)
    ensures
        r@ == after_last(s@, c),
{
    let chars = chars_of(s);
    let mut i: usize = chars.len();
    proof {
        assert(chars@.take(i as int) =~= chars@);
        assert(chars@.skip(i as int) =~= Seq::<char>::empty());
        assert(after_last(s@, c) =~= after_last(chars@.take(i as int), c) + chars@.skip(i as int));
    }
    while i > 0 && chars[i - 1] != c
        invariant
            i <= chars.len(),
            chars@ == s@,
            after_last(s@, c) == after_last(chars@.take(i as int), c) + chars@.skip(i as int),
        decreases i,
    {
        proof {
            let head = chars@.take(i as int);
            assert(head.last() == chars@[i - 1]);
            assert(head.drop_last() =~= chars@.take(i as int - 1));
            assert(after_last(head.drop_last(), c).push(head.last()) + chars@.skip(i as int)
                =~= after_last(head.drop_last(), c) + chars@.skip(i as int - 1));
        }
        i = i - 1;
    }
    let mut out: Vec<char> = Vec::new();
    let mut j: usize = i;
    proof {
        if i > 0 {
            assert(chars@.take(i as int).last() == c);
        }
        assert(after_last(chars@.take(i as int), c) =~= Seq::<char>::empty());
        assert(after_last(s@, c) =~= chars@.skip(i as int));
    }
    while j < chars.len()
        invariant
            i <= j <= chars.len(),
            out@ == chars@.subrange(i as int, j as int),
        decreases chars.len() - j,
    {
        assert(chars@.subrange(i as int, j as int + 1) =~= chars@.subrange(
            i as int,
            j as int,
        ).push(chars@[j as int]));
        out.push(chars[j]);
        j = j + 1;
    }
    assert(chars@.subrange(i as int, chars@.len() as int) =~= chars@.skip(i as int));
    string_of(&out)
}

/// Whether a character is white space: the Unicode property `White_Space`.
pub open spec fn white_space(c: char) -> bool {
    ||| '\u{9}' <= c <= '\u{d}'
    ||| c == ' '
    ||| c == '\u{85}'
    ||| c == '\u{a0}'
    ||| c == '\u{1680}'
    ||| '\u{2000}' <= c <= '\u{200a}'
    ||| c == '\u{2028}'
    ||| c == '\u{2029}'
    ||| c == '\u{202f}'
    ||| c == '\u{205f}'
    ||| c == '\u{3000}'
}

/// Whether the character is white space.
fn is_white_space(c: char) -> (r: bool)
    ensures
        r == white_space(c),
{
    ('\u{9}' <= c && c <= '\u{d}') || c == ' ' || c == '\u{85}' || c == '\u{a0}' || c == '\u{1680}'
        || ('\u{2000}' <= c && c <= '\u{200a}') || c == '\u{2028}' || c == '\u{2029}' || c
        == '\u{202f}' || c == '\u{205f}' || c == '\u{3000}'
}

/// The text without the white space at its end.
pub open spec fn trim_right(s: Seq<char>) -> Seq<char>
    decreases s.len(),
{
    if s.len() > 0 && white_space(s.last()) {
        trim_right(s.drop_last())
    } else {
        s
    }
}

/// The text without the white space at its beginning.
pub open spec fn trim_left(s: Seq<char>) -> Seq<char>
    decreases s.len(),
{
    if s.len() > 0 && white_space(s[0]) {
        trim_left(s.drop_first())
    } else {
        s
    }
}

/// The number that a row of decimal digits stands for; `None` where there is no
/// digit, or anything else.
pub open spec fn digits_value(s: Seq<char>) -> Option<nat>
    decreases s.len(),
{
    if s.len() == 0 {
        None
    } else if !('0' <= s.last() <= '9') {
        None
    } else {
        let d = (s.last() as nat - '0' as nat) as nat;
        if s.len() == 1 {
            Some(d)
        } else {
            match digits_value(s.drop_last()) {
                None => None,
                Some(n) => Some(n * 10 + d),
            }
        }
    }
}

/// The number that a text stands for: decimal digits, with or without a plus
/// sign before them.
pub open spec fn number_value(s: Seq<char>) -> Option<nat> {
    if s.len() > 0 && s[0] == '+' {
        digits_value(s.drop_first())
    } else {
        digits_value(s)
    }
}

/// The number that a text stands for, white space around it left out; `None`
/// where it stands for none, or for one that is too large.
pub open spec fn limit_value(s: Seq<char>) -> Option<nat> {
    match number_value(trim_right(trim_left(s))) {
        Some(n) if n <= usize::MAX => Some(n),
        _ => None,
    }
}

fn digits(chars: &Vec<char>, from: usize) -> (r: Option<usize>)
    requires
        from <= chars@.len(),
    ensures
        r is Some ==> digits_value(chars@.skip(from as int)) == Some(r->0 as nat),
        r is None ==> match digits_value(chars@.skip(from as int)) {
            Some(n) => n > usize::MAX,
            None => true,
        },
{
    let ghost all = chars@.skip(from as int);
    if from == chars.len() {
        return None;
    }
    let mut i: usize = from;
    let mut value: usize = 0;
    while i < chars.len()
        invariant
            from <= i <= chars.len(),
            from < chars.len(),
            all == chars@.skip(from as int),
            i == from ==> value == 0,
            i > from ==> digits_value(all.take(i - from)) == Some(value as nat),
        decreases chars.len() - i,
    {
        let c = chars[i];
        proof {
            assert(all.take(i - from + 1).drop_last() =~= all.take(i - from));
            assert(all.take(i - from + 1).last() == c);
        }
        if c < '0' || c > '9' {
            proof {
                digits_stop(all, i - from + 1);
            }
            return None;
        }
        let d: usize = (c as u32 - '0' as u32) as usize;
        match value.checked_mul(10) {
            None => {
                proof {
                    digits_grow(all, i - from + 1);
                }
                return None;
            },
            Some(shifted) => match shifted.checked_add(d) {
                None => {
                    proof {
                        digits_grow(all, i - from + 1);
                    }
                    return None;
                },
                Some(v) => {
                    value = v;
                },
            },
        }
        i = i + 1;
    }
    proof {
        assert(all.take(all.len() as int) =~= all);
    }
    Some(value)
}

proof fn digits_stop(s: Seq<char>, n: int)
    requires
        0 < n <= s.len(),
        digits_value(s.take(n)) is None,
    ensures
        digits_value(s) is None,
    decreases s.len(),
{
    if n == s.len() {
        assert(s.take(n) =~= s);
    } else {
        assert(s.drop_last().take(n) =~= s.take(n));
        digits_stop(s.drop_last(), n);
    }
}

proof fn digits_grow(s: Seq<char>, n: int)
    requires
        0 < n <= s.len(),
        digits_value(s.take(n)) is Some,
    ensures
        digits_value(s) matches Some(v) ==> v >= digits_value(s.take(n))->0,
    decreases s.len(),
{
    if n == s.len() {
        assert(s.take(n) =~= s);
    } else {
        assert(s.drop_last().take(n) =~= s.take(n));
        digits_grow(s.drop_last(), n);
    }
}

/// The number that a text stands for, white space around it left out.
pub fn parse_limit_text(s: &str) -> (r: Option<usize>)
    ensures
        r == (match limit_value(s@) {
            Some(n) => Some(n as usize),
            None => None,
        }),
{
    let all = chars_of(s);
    let mut from: usize = 0;
    proof {
        assert(all@.skip(0) =~= all@);
    }
    while from < all.len() && is_white_space(all[from])
        invariant
            from <= all.len(),
            all@ == s@,
            trim_left(all@.skip(from as int)) == trim_left(s@),
        decreases all.len() - from,
    {
        proof {
            assert(all@.skip(from as int).drop_first() =~= all@.skip(from as int + 1));
        }
        from = from + 1;
    }
    let mut chars: Vec<char> = Vec::new();
    let mut i: usize = from;
    while i < all.len()
        invariant
            from <= i <= all.len(),
            chars@ == all@.subrange(from as int, i as int),
        decreases all.len() - i,
    {
        assert(all@.subrange(from as int, i as int + 1) =~= all@.subrange(
            from as int,
            i as int,
        ).push(all@[i as int]));
        chars.push(all[i]);
        i = i + 1;
    }
    let ghost left = chars@;
    proof {
        assert(left =~= all@.skip(from as int));
        assert(left == trim_left(s@));
    }
    while chars.len() > 0 && is_white_space(chars[chars.len() - 1])
        invariant
            trim_right(chars@) == trim_right(left),
        decreases chars.len(),
    {
        proof {
            assert(chars@.drop_last() =~= chars@.take(chars@.len() - 1));
        }
        let _ = chars.pop();
    }
    proof {
        assert(chars@ == trim_right(left));
        assert(chars@.skip(0) =~= chars@);
        assert(chars@.len() > 0 ==> chars@.skip(1) =~= chars@.drop_first());
    }
    if chars.len() > 0 && chars[0] == '+' {
        digits(&chars, 1)
    } else {
        digits(&chars, 0)
    }
}

/// Digit characters below sixteen are all different, and none is a dot.
pub proof fn digit_char_injective(a: nat, b: nat)
    requires
        a < 16,
        b < 16,
        digit_char(a) == digit_char(b),
    ensures
        a == b,
{
}

/// A decimal numeral holds no dot.
pub proof fn decimal_has_no_dot(n: nat)
    ensures
        !decimal(n).contains('.'),
        decimal(n).len() >= 1,
    decreases n,
{
    if n >= 10 {
        decimal_has_no_dot(n / 10);
    }
    assert forall|i: int| 0 <= i < decimal(n).len() implies decimal(n)[i] != '.' by {
        if n >= 10 && i < decimal(n / 10).len() {
            assert(decimal(n)[i] == decimal(n / 10)[i]);
        }
    }
}

/// Different numbers have different decimal numerals.
pub proof fn decimal_injective(a: nat, b: nat)
    requires
        decimal(a) == decimal(b),
    ensures
        a == b,
    decreases a,
{
    decimal_has_no_dot(a / 10);
    decimal_has_no_dot(b / 10);
    assert(decimal(a).last() == decimal(b).last());
    if a >= 10 && b >= 10 {
        assert(decimal(a).drop_last() =~= decimal(a / 10));
        assert(decimal(b).drop_last() =~= decimal(b / 10));
        assert(decimal(a).last() == digit_char(a % 10));
        assert(decimal(b).last() == digit_char(b % 10));
        digit_char_injective(a % 10, b % 10);
        decimal_injective(a / 10, b / 10);
    } else if a < 10 && b < 10 {
        assert(decimal(a)[0] == digit_char(a));
        assert(decimal(b)[0] == digit_char(b));
        digit_char_injective(a, b);
    } else if a < 10 {
        assert(decimal(a).len() == 1);
        assert(decimal(b).len() >= 2);
    } else {
        assert(decimal(b).len() == 1);
        assert(decimal(a).len() >= 2);
    }
}

/// A padded hexadecimal numeral has its width, and holds no dot.
pub proof fn hex_padded_shape(n: nat, width: nat)
    ensures
        hex_padded(n, width).len() == width,
        !hex_padded(n, width).contains('.'),
    decreases width,
{
    if width > 0 {
        hex_padded_shape(n / 16, (width - 1) as nat);
        let shorter = hex_padded(n / 16, (width - 1) as nat);
        assert forall|i: int| 0 <= i < width implies hex_padded(n, width)[i] != '.' by {
            if i < shorter.len() {
                assert(hex_padded(n, width)[i] == shorter[i]);
            }
        }
    }
}

/// The bound of the numbers that fit in `width` hexadecimal digits.
pub open spec fn hex_bound(width: nat) -> nat
    decreases width,
{
    if width == 0 { 1 } else { 16 * hex_bound((width - 1) as nat) }
}

/// Numbers that fit the width have different padded numerals.
pub proof fn hex_padded_injective(a: nat, b: nat, width: nat)
    requires
        hex_padded(a, width) == hex_padded(b, width),
        a < hex_bound(width),
        b < hex_bound(width),
    ensures
        a == b,
    decreases width,
{
    if width > 0 {
        let w = (width - 1) as nat;
        hex_padded_shape(a / 16, w);
        hex_padded_shape(b / 16, w);
        assert(hex_padded(a, width).last() == hex_padded(b, width).last());
        assert(hex_padded(a, width).drop_last() =~= hex_padded(a / 16, w));
        assert(hex_padded(b, width).drop_last() =~= hex_padded(b / 16, w));
        assert(hex_padded(a, width).last() == digit_char(a % 16));
        assert(hex_padded(b, width).last() == digit_char(b % 16));
        digit_char_injective(a % 16, b % 16);
        hex_padded_injective(a / 16, b / 16, w);
    }
}

proof fn decimal_reads_back(n: nat)
    ensures
        digits_value(decimal(n)) == Some(n),
        decimal(n)[0] != '+',
    decreases n,
{
    decimal_has_no_dot(n);
    if n >= 10 {
        decimal_reads_back(n / 10);
        decimal_has_no_dot(n / 10);
        assert(decimal(n).drop_last() =~= decimal(n / 10));
        assert(decimal(n)[0] == decimal(n / 10)[0]);
        assert(decimal(n).last() == digit_char(n % 10));
        assert((n / 10) * 10 + n % 10 == n);
    } else {
        assert(decimal(n).last() == digit_char(n));
    }
}

/// A number that was written in decimal is read back as itself.
pub proof fn a_written_number_reads_back(n: nat)
    ensures
        number_value(decimal(n)) == Some(n),
{
    decimal_reads_back(n);
}

/// Two dot-free heads, each followed by a dot and a tail, join to the same
/// text only where the heads and the tails are the same.
pub proof fn split_at_dot(a: Seq<char>, x: Seq<char>, b: Seq<char>, y: Seq<char>)
    requires
        !a.contains('.'),
        !b.contains('.'),
        a + seq!['.'] + x == b + seq!['.'] + y,
    ensures
        a == b,
        x == y,
{
    let l = a + seq!['.'] + x;
    let r = b + seq!['.'] + y;
    assert(l[a.len() as int] == '.');
    assert(r[b.len() as int] == '.');
    if a.len() < b.len() {
        assert(r[a.len() as int] == b[a.len() as int]);
    }
    if b.len() < a.len() {
        assert(l[b.len() as int] == a[b.len() as int]);
    }
    assert forall|i: int| 0 <= i < a.len() implies a[i] == b[i] by {
        assert(l[i] == a[i]);
        assert(r[i] == b[i]);
    }
    assert(a =~= b);
    assert(l.len() == r.len());
    assert(x.len() == y.len());
    assert forall|i: int| 0 <= i < x.len() implies x[i] == y[i] by {
        assert(l[a.len() + 1 + i] == x[i]);
        assert(r[a.len() + 1 + i] == y[i]);
    }
    assert(x =~= y);
}

/// The digit characters: the ten digits from `0` on, then the six letters from `a`
/// on.
pub proof fn digit_characters_in_numbers(d: nat)
    requires
        d < 16,
    ensures
        digit_char(d) as int == (if d < 10 {
            48 + d
        } else {
            87 + d
        }),
{
}

pub(crate) proof fn places_shift(n: nat, base: nat, i: nat)
    requires
        base > 1,
    ensures
        (n / base) as int / pow(base as int, i) == n as int / pow(base as int, i + 1),
        pow(base as int, i) > 0,
        pow(base as int, i + 1) == base * pow(base as int, i),
{
    lemma_pow_positive(base as int, i);
    reveal_with_fuel(pow, 2);
    lemma_div_denominator(n as int, base as int, pow(base as int, i));
}

/// The digit of a decimal numeral that stands `i` places before its end counts the
/// powers of ten, and a numeral is as long as its number needs.
pub proof fn decimal_digits_count_powers_of_ten(n: nat, i: nat)
    ensures
        i < decimal(n).len() ==> decimal(n)[decimal(n).len() - 1 - i] as int - 48 == (n as int
            / pow(10, i)) % 10,
        n < pow(10, decimal(n).len()),
        decimal(n).len() > 1 ==> n >= pow(10, (decimal(n).len() - 1) as nat),
        decimal(n).len() >= 1,
    decreases n,
{
    reveal_with_fuel(pow, 2);
    if n < 10 {
        digit_characters_in_numbers(n);
    } else {
        let shorter = decimal(n / 10);
        digit_characters_in_numbers(n % 10);
        if i > 0 {
            decimal_digits_count_powers_of_ten(n / 10, (i - 1) as nat);
            places_shift(n, 10, (i - 1) as nat);
        } else {
            decimal_digits_count_powers_of_ten(n / 10, 0);
        }
        let l = shorter.len();
        assert(pow(10, l + 1) == 10 * pow(10, l));
        if l > 1 {
            assert(pow(10, l) == 10 * pow(10, (l - 1) as nat));
        }
    }
}

/// The digit of a padded hexadecimal numeral that stands `i` places before its end
/// counts the powers of sixteen.
pub proof fn hex_digits_count_powers_of_sixteen(n: nat, width: nat, i: nat)
    requires
        i < width,
    ensures
        hex_padded(n, width).len() == width,
        ({
            let place = (n as int / pow(16, i)) % 16;
            hex_padded(n, width)[width - 1 - i] as int == (if place < 10 {
                48 + place
            } else {
                87 + place
            })
        }),
    decreases width,
{
    reveal_with_fuel(pow, 2);
    hex_padded_shape(n, width);
    digit_characters_in_numbers(n % 16);
    if i > 0 {
        hex_padded_shape(n / 16, (width - 1) as nat);
        hex_digits_count_powers_of_sixteen(n / 16, (width - 1) as nat, (i - 1) as nat);
        places_shift(n, 16, (i - 1) as nat);
    } else {
        hex_padded_shape(n / 16, (width - 1) as nat);
    }
}

/// A text stands for a number exactly if it is made of digits, and of one at least;
/// a digit more at its end counts one, and what stood there counts ten times.
pub proof fn rows_of_digits_are_numbers(s: Seq<char>)
    ensures
        digits_value(s) is Some <==> s.len() > 0 && forall|i: int|
            0 <= i < s.len() ==> 48 <= #[trigger] s[i] as int <= 57,
        forall|c: char| #![trigger s.push(c)]
            digits_value(s) is Some && 48 <= c as int <= 57 ==> digits_value(s.push(c)) == Some(
                (digits_value(s)->0 * 10 + (c as int - 48)) as nat,
            ),
    decreases s.len(),
{
    assert forall|c: char| #![trigger s.push(c)]
        digits_value(s) is Some && 48 <= c as int <= 57 implies digits_value(s.push(c)) == Some(
        (digits_value(s)->0 * 10 + (c as int - 48)) as nat,
    ) by {
        assert(s.push(c).drop_last() =~= s);
    }
    if s.len() > 0 {
        let shorter = s.drop_last();
        rows_of_digits_are_numbers(shorter);
        if forall|i: int| 0 <= i < s.len() ==> 48 <= #[trigger] s[i] as int <= 57 {
            assert(48 <= s[s.len() - 1] as int <= 57);
            assert forall|i: int| 0 <= i < shorter.len() implies 48 <= #[trigger] shorter[i] as int
                <= 57 by {
                assert(shorter[i] == s[i]);
            }
        }
        if digits_value(s) is Some {
            assert forall|i: int| 0 <= i < s.len() implies 48 <= #[trigger] s[i] as int <= 57 by {
                if i < shorter.len() {
                    assert(shorter[i] == s[i]);
                }
            }
        }
    }
}

/// The white space, by its code points.
pub proof fn white_space_in_numbers(c: char)
    ensures
        white_space(c) <==> {
            let n = c as int;
            9 <= n <= 13 || n == 32 || n == 0x85 || n == 0xa0 || n == 0x1680 || 0x2000 <= n <= 0x200a
                || n == 0x2028 || n == 0x2029 || n == 0x202f || n == 0x205f || n == 0x3000
        },
{
}

/// Trimming takes away the characters at the end, all of them, and nothing else.
pub proof fn trimming_takes_the_end(s: Seq<char>, c: char)
    ensures
        ({
            let r = trim_end(s, c);
            &&& r.len() <= s.len()
            &&& r == s.take(r.len() as int)
            &&& forall|i: int| r.len() <= i < s.len() ==> #[trigger] s[i] == c
            &&& r.len() > 0 ==> r.last() != c
        }),
    decreases s.len(),
{
    if s.len() > 0 && s.last() == c {
        trimming_takes_the_end(s.drop_last(), c);
        let r = trim_end(s, c);
        assert(s.drop_last().take(r.len() as int) =~= s.take(r.len() as int));
        assert forall|i: int| r.len() <= i < s.len() implies #[trigger] s[i] == c by {
            if i < s.len() - 1 {
                assert(s.drop_last()[i] == s[i]);
            }
        }
    } else {
        assert(s.take(s.len() as int) =~= s);
    }
}

/// What stands behind the last character `c`: it holds none, and before it stands
/// one, or nothing.
pub proof fn what_stands_behind_the_last(s: Seq<char>, c: char)
    ensures
        ({
            let r = after_last(s, c);
            &&& r.len() <= s.len()
            &&& r == s.skip(s.len() - r.len())
            &&& forall|i: int| 0 <= i < r.len() ==> #[trigger] r[i] != c
            &&& r.len() < s.len() ==> s[s.len() - r.len() - 1] == c
        }),
    decreases s.len(),
{
    if s.len() == 0 || s.last() == c {
        assert(s.skip(s.len() as int) =~= Seq::<char>::empty());
    } else {
        what_stands_behind_the_last(s.drop_last(), c);
        let r = after_last(s, c);
        assert(r =~= s.skip(s.len() - r.len()));
    }
}

/// White space is taken away on both sides, all of it, and nothing else.
pub proof fn white_space_is_taken_from_both_sides(s: Seq<char>)
    ensures
        ({
            let l = trim_left(s);
            &&& l.len() <= s.len()
            &&& l == s.skip(s.len() - l.len())
            &&& forall|i: int| 0 <= i < s.len() - l.len() ==> white_space(#[trigger] s[i])
            &&& l.len() > 0 ==> !white_space(l[0])
        }),
        ({
            let r = trim_right(s);
            &&& r.len() <= s.len()
            &&& r == s.take(r.len() as int)
            &&& forall|i: int| r.len() <= i < s.len() ==> white_space(#[trigger] s[i])
            &&& r.len() > 0 ==> !white_space(r.last())
        }),
    decreases s.len(),
{
    if s.len() > 0 {
        white_space_is_taken_from_both_sides(s.drop_first());
        white_space_is_taken_from_both_sides(s.drop_last());
    }
    let l = trim_left(s);
    if s.len() > 0 && white_space(s[0]) {
        assert(s.drop_first().skip(s.len() - 1 - l.len()) =~= s.skip(s.len() - l.len()));
        assert forall|i: int| 0 <= i < s.len() - l.len() implies white_space(#[trigger] s[i]) by {
            if i > 0 {
                assert(s.drop_first()[i - 1] == s[i]);
            }
        }
    } else {
        assert(s.skip(0) =~= s);
    }
    let r = trim_right(s);
    if s.len() > 0 && white_space(s.last()) {
        assert(s.drop_last().take(r.len() as int) =~= s.take(r.len() as int));
        assert forall|i: int| r.len() <= i < s.len() implies white_space(#[trigger] s[i]) by {
            if i < s.len() - 1 {
                assert(s.drop_last()[i] == s[i]);
            }
        }
    } else {
        assert(s.take(s.len() as int) =~= s);
    }
}

proof fn trimming_keeps_what_is_trim(s: Seq<char>, left: Seq<char>, right: Seq<char>)
    requires
        s.len() > 0,
        !white_space(s[0]),
        !white_space(s.last()),
        forall|i: int| 0 <= i < left.len() ==> white_space(#[trigger] left[i]),
        forall|i: int| 0 <= i < right.len() ==> white_space(#[trigger] right[i]),
    ensures
        trim_right(trim_left(left + s + right)) == s,
    decreases left.len() + right.len(),
{
    let all = left + s + right;
    if left.len() > 0 {
        assert(all[0] == left[0]);
        assert(all.drop_first() =~= left.drop_first() + s + right);
        assert forall|i: int| 0 <= i < left.drop_first().len() implies white_space(
            #[trigger] left.drop_first()[i],
        ) by {
            assert(left.drop_first()[i] == left[i + 1]);
        }
        trimming_keeps_what_is_trim(s, left.drop_first(), right);
    } else {
        assert(all[0] == s[0]);
        assert(trim_left(all) == all);
        if right.len() > 0 {
            let shorter = left + s + right.drop_last();
            assert(all.last() == right.last());
            assert(white_space(right[right.len() - 1]));
            assert(all.drop_last() =~= shorter);
            assert forall|i: int| 0 <= i < right.drop_last().len() implies white_space(
                #[trigger] right.drop_last()[i],
            ) by {
                assert(right.drop_last()[i] == right[i]);
            }
            trimming_keeps_what_is_trim(s, left, right.drop_last());
            assert(shorter[0] == s[0]);
            assert(trim_left(shorter) == shorter);
        } else {
            assert(all =~= s);
        }
    }
}

/// A limit is read from its decimal numeral, with a plus sign before it or without,
/// and with any white space around it; one that is too large is none.
pub proof fn limits_are_read_from_their_numerals(n: nat, left: Seq<char>, right: Seq<char>)
    requires
        forall|i: int| 0 <= i < left.len() ==> white_space(#[trigger] left[i]),
        forall|i: int| 0 <= i < right.len() ==> white_space(#[trigger] right[i]),
    ensures
        ({
            let read = if n <= usize::MAX {
                Some(n)
            } else {
                None
            };
            &&& limit_value(left + decimal(n) + right) == read
            &&& limit_value(left + (seq!['+'] + decimal(n)) + right) == read
        }),
{
    decimal_reads_back(n);
    decimal_has_no_dot(n);
    rows_of_digits_are_numbers(decimal(n));
    let plain = decimal(n);
    let signed = seq!['+'] + decimal(n);
    assert(48 <= plain[0] as int <= 57);
    assert(48 <= plain[plain.len() - 1] as int <= 57);
    assert(signed.last() == plain.last());
    assert(signed[0] == '+');
    trimming_keeps_what_is_trim(plain, left, right);
    trimming_keeps_what_is_trim(signed, left, right);
    assert(signed.drop_first() =~= plain);
}

/// What is no row of digits, with or without a plus sign before it, is no limit:
/// neither an empty text, nor white space, nor a sign alone, nor one with anything
/// else in it.
pub proof fn other_texts_are_no_limits(s: Seq<char>)
    requires
        limit_value(s) is Some,
    ensures
        limit_value(s)->0 <= usize::MAX,
        exists|i: int| 0 <= i < s.len() && 48 <= #[trigger] s[i] as int <= 57,
        forall|i: int|
            0 <= i < s.len() ==> white_space(#[trigger] s[i]) || s[i] == '+' || 48 <= s[i] as int
                <= 57,
{
    let l = trim_left(s);
    let r = trim_right(l);
    trimmed_texts_are_part(s);
    signed_rows_of_digits(r);
    let skipped = s.len() - l.len();
    assert(48 <= s[skipped + (r.len() - 1)] as int <= 57);
    assert forall|i: int| 0 <= i < s.len() implies white_space(#[trigger] s[i]) || s[i] == '+' || 48
        <= s[i] as int <= 57 by {
        if skipped <= i < skipped + r.len() {
            assert(r[i - skipped] == s[skipped + (i - skipped)]);
        }
    }
}

proof fn trimmed_texts_are_part(s: Seq<char>)
    ensures
        ({
            let l = trim_left(s);
            let r = trim_right(l);
            let skipped = s.len() - l.len();
            &&& 0 <= skipped
            &&& skipped + r.len() <= s.len()
            &&& forall|j: int| 0 <= j < r.len() ==> r[j] == #[trigger] s[skipped + j]
            &&& forall|i: int|
                0 <= i < skipped || skipped + r.len() <= i < s.len() ==> white_space(#[trigger] s[i])
        }),
{
    let l = trim_left(s);
    let r = trim_right(l);
    let skipped = s.len() - l.len();
    white_space_is_taken_from_both_sides(s);
    white_space_is_taken_from_both_sides(l);
    assert forall|i: int|
        0 <= i < skipped || skipped + r.len() <= i < s.len() implies white_space(#[trigger] s[i]) by {
        if skipped <= i {
            assert(l[i - skipped] == s[i]);
        }
    }
}

proof fn signed_rows_of_digits(r: Seq<char>)
    requires
        number_value(r) is Some,
    ensures
        r.len() > 0,
        48 <= r[r.len() - 1] as int <= 57,
        forall|j: int| 0 <= j < r.len() ==> #[trigger] r[j] == '+' || 48 <= r[j] as int <= 57,
{
    if r.len() > 0 && r[0] == '+' {
        let d = r.drop_first();
        rows_of_digits_are_numbers(d);
        assert(48 <= d[d.len() - 1] as int <= 57);
        assert forall|j: int| 0 <= j < r.len() implies #[trigger] r[j] == '+' || 48 <= r[j] as int
            <= 57 by {
            if j > 0 {
                assert(d[j - 1] == r[j]);
            }
        }
    } else {
        rows_of_digits_are_numbers(r);
        assert(48 <= r[r.len() - 1] as int <= 57);
    }
}

/// A text begins with a prefix exactly if it is the prefix and something behind it.
pub proof fn prefixes_stand_before_the_rest(whole: Seq<char>, prefix: Seq<char>)
    ensures
        has_prefix(whole, prefix) <==> exists|rest: Seq<char>| whole == #[trigger] (prefix + rest),
{
    if has_prefix(whole, prefix) {
        let rest = whole.skip(prefix.len() as int);
        assert(whole =~= whole.take(prefix.len() as int) + rest);
        assert(whole == prefix + rest);
    }
    if exists|rest: Seq<char>| whole == #[trigger] (prefix + rest) {
        let rest = choose|rest: Seq<char>| whole == #[trigger] (prefix + rest);
        assert((prefix + rest).take(prefix.len() as int) =~= prefix);
    }
}

} // verus!
