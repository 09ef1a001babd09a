//! Numbers and their texts: integer literals, binary, hexadecimal and decimal digits, and
//! branch offsets.

use crate::constants::WORD_SIZE;
use crate::strings::chars_of;
use vstd::prelude::*;
use vstd::string::StringExecFns;

verus! {

/// The value of `c` as a digit in base `radix`, which is 10 or 16.
pub open spec fn digit_value(c: char, radix: int) -> Option<int> {
    if '0' <= c && c <= '9' {
        Some(c as int - '0' as int)
    } else if radix == 16 && 'a' <= c && c <= 'f' {
        Some(c as int - 'a' as int + 10)
    } else if radix == 16 && 'A' <= c && c <= 'F' {
        Some(c as int - 'A' as int + 10)
    } else {
        None
    }
}

/// Whether `s` is a non-empty run of digits of base `radix`.
pub open spec fn is_numeral(s: Seq<char>, radix: int) -> bool {
    s.len() > 0 && forall|i: int| 0 <= i < s.len() ==> (#[trigger] digit_value(s[i], radix)) is Some
}

/// The number that the digits `s` write in base `radix`, most significant digit first.
pub open spec fn numeral_value(s: Seq<char>, radix: int) -> int
    decreases s.len(),
{
    if s.len() == 0 {
        0
    } else {
        numeral_value(s.drop_last(), radix) * radix + digit_value(s.last(), radix).unwrap_or(0)
    }
}

/// The integer that `s` writes: an optional `-`, then either decimal digits or `0x` and
/// hexadecimal digits. `None` where `s` has another shape or the value is no `i32`.
pub open spec fn integer_literal(s: Seq<char>) -> Option<int> {
    let negative = s.len() > 0 && s[0] == '-';
    let body = if negative { s.drop_first() } else { s };
    let hexadecimal = body.len() >= 2 && body[0] == '0' && body[1] == 'x';
    let digits = if hexadecimal { body.skip(2) } else { body };
    let radix = if hexadecimal { 16int } else { 10int };
    let magnitude = numeral_value(digits, radix);
    let value = if negative { -magnitude } else { magnitude };
    if is_numeral(digits, radix) && i32::MIN <= value <= i32::MAX {
        Some(value)
    } else {
        None
    }
}

/// Whether `address` is an address of the machine.
pub open spec fn is_machine_address(address: int) -> bool {
    i32::MIN <= address <= i32::MAX
}

/// Machine integers as integers.
pub open spec fn as_ints(values: Seq<i32>) -> Seq<int> {
    Seq::new(values.len(), |i: int| values[i] as int)
}

/// A numeral is worth at least as much as each of its prefixes.
proof fn lemma_numeral_value_grows(s: Seq<char>, radix: int, k: int)
    requires
        radix == 10 || radix == 16,
        0 <= k <= s.len(),
    ensures
        0 <= numeral_value(s.take(k), radix) <= numeral_value(s, radix),
    decreases s.len() - k,
{
    lemma_numeral_value_nonnegative(s.take(k), radix);
    if k == s.len() {
        assert(s.take(k) =~= s);
    } else {
        lemma_numeral_value_grows(s, radix, k + 1);
        assert(s.take(k + 1).drop_last() =~= s.take(k));
    }
}

/// A numeral is never negative.
proof fn lemma_numeral_value_nonnegative(s: Seq<char>, radix: int)
    requires
        radix == 10 || radix == 16,
    ensures
        0 <= numeral_value(s, radix),
    decreases s.len(),
{
    if s.len() > 0 {
        lemma_numeral_value_nonnegative(s.drop_last(), radix);
    }
}

/// The value of the digit `c` in base `radix`.
fn digit_of(c: char, radix: u32) -> (r: Option<i64>)
    requires
        radix == 10 || radix == 16,
    ensures
        r matches Some(d) ==> digit_value(c, radix as int) == Some(d as int) && 0 <= d < radix,
        r is None ==> digit_value(c, radix as int) is None,
{
    if '0' <= c && c <= '9' {
        Some((c as u32 - '0' as u32) as i64)
    } else if radix == 16 && 'a' <= c && c <= 'f' {
        Some((c as u32 - 'a' as u32 + 10) as i64)
    } else if radix == 16 && 'A' <= c && c <= 'F' {
        Some((c as u32 - 'A' as u32 + 10) as i64)
    } else {
        None
    }
}

/// Reads the digits of `chars` from `start` on, in base `radix`, as long as the value stays
/// within `0x8000_0000`.
fn parse_magnitude(chars: &Vec<char>, start: usize, radix: u32) -> (r: Option<i64>)
    requires
        start <= chars.len(),
        radix == 10 || radix == 16,
    ensures
        r matches Some(m) ==> {
            &&& is_numeral(chars@.skip(start as int), radix as int)
            &&& m == numeral_value(chars@.skip(start as int), radix as int)
            &&& 0 <= m <= 0x8000_0000
        },
        r is None ==> {
            ||| !is_numeral(chars@.skip(start as int), radix as int)
            ||| numeral_value(chars@.skip(start as int), radix as int) > 0x8000_0000
        },
{
    let n = chars.len();
    let ghost digits = chars@.skip(start as int);
    if start == n {
        return None;
    }
    let mut magnitude: i64 = 0;
    let mut i: usize = start;
    proof {
        assert(digits.take(0) =~= Seq::<char>::empty());
    }
    while i < n
        invariant
            start <= i <= n,
            n == chars@.len(),
            radix == 10 || radix == 16,
            digits == chars@.skip(start as int),
            forall|j: int|
                0 <= j < i - start ==> (#[trigger] digit_value(digits[j], radix as int)) is Some,
            magnitude == numeral_value(digits.take(i - start), radix as int),
            0 <= magnitude <= 0x8000_0000,
        decreases n - i,
    {
        proof {
            assert(digits.take(i - start + 1).drop_last() =~= digits.take(i - start));
            assert(digits.take(i - start + 1).last() == digits[i - start]);
        }
        match digit_of(chars[i], radix) {
            None => {
                assert(digit_value(digits[i - start], radix as int) is None);
                return None;
            },
            Some(d) => {
                let next = if radix == 16 {
                    magnitude * 16 + d
                } else {
                    magnitude * 10 + d
                };
                assert(next == numeral_value(digits.take(i - start + 1), radix as int));
                if next > 0x8000_0000 {
                    proof {
                        lemma_numeral_value_grows(digits, radix as int, i - start + 1);
                    }
                    return None;
                }
                magnitude = next;
            },
        }
        i += 1;
    }
    proof {
        assert(digits.take(n - start) =~= digits);
    }
    Some(magnitude)
}

/// Reads `text` as a signed decimal or `0x`-prefixed hexadecimal integer.
pub fn convert_string_to_int(text: &str) -> (r: Option<i32>)
    ensures
        r matches Some(v) ==> integer_literal(text@) == Some(v as int),
        r is None ==> integer_literal(text@) is None,
{
    let chars = chars_of(text);
    let n = chars.len();
    let negative = n > 0 && chars[0] == '-';
    let body_start: usize = if negative { 1 } else { 0 };
    let hexadecimal = n - body_start >= 2 && chars[body_start] == '0' && chars[body_start + 1]
        == 'x';
    let start: usize = if hexadecimal { body_start + 2 } else { body_start };
    let radix: u32 = if hexadecimal { 16 } else { 10 };
    proof {
        let body = if negative { text@.drop_first() } else { text@ };
        let digits = if hexadecimal { body.skip(2) } else { body };
        assert(body =~= text@.skip(body_start as int));
        assert(digits =~= text@.skip(start as int));
    }
    match parse_magnitude(&chars, start, radix) {
        None => None,
        Some(magnitude) => {
            if negative {
                Some((-magnitude) as i32)
            } else if magnitude < 0x8000_0000 {
                Some(magnitude as i32)
            } else {
                None
            }
        },
    }
}

/// The character that writes the lowest bit of `value`.
pub open spec fn bit_char(value: int) -> char {
    if value % 2 == 1 {
        '1'
    } else {
        '0'
    }
}

/// The lowest `width` bits of `value` in two's complement, highest of them first.
pub open spec fn binary_digits(value: int, width: nat) -> Seq<char>
    decreases width,
{
    if width == 0 {
        Seq::<char>::empty()
    } else {
        binary_digits(value / 2, (width - 1) as nat).push(bit_char(value))
    }
}

/// The lowest `width` bits of `value`, lowest first.
spec fn binary_digits_reversed(value: int, width: nat) -> Seq<char>
    decreases width,
{
    if width == 0 {
        Seq::<char>::empty()
    } else {
        seq![bit_char(value)] + binary_digits_reversed(value / 2, (width - 1) as nat)
    }
}

/// The binary text is the bits in reverse of their order from the lowest up.
proof fn lemma_binary_digits_reversed(value: int, width: nat)
    ensures
        binary_digits_reversed(value, width).len() == width,
        binary_digits(value, width) == binary_digits_reversed(value, width).reverse(),
    decreases width,
{
    if width > 0 {
        lemma_binary_digits_reversed(value / 2, (width - 1) as nat);
        let rest = binary_digits_reversed(value / 2, (width - 1) as nat);
        assert((seq![bit_char(value)] + rest).reverse() =~= rest.reverse().push(bit_char(value)));
    } else {
        assert(binary_digits_reversed(value, width).reverse() =~= Seq::<char>::empty());
    }
}

/// The number of characters in the binary text of a value.
pub proof fn lemma_binary_digits_len(value: int, width: nat)
    ensures
        binary_digits(value, width).len() == width,
    decreases width,
{
    if width > 0 {
        lemma_binary_digits_len(value / 2, (width - 1) as nat);
    }
}

/// Writes the lowest `width` bits of `value` in two's complement, highest first.
pub fn convert_int_to_binary(value: i32, width: usize) -> (r: String)
    ensures
        r@ == binary_digits(value as int, width as nat),
{
    let mut bits: Vec<bool> = Vec::new();
    let mut rest: i64 = value as i64;
    let mut i: usize = 0;
    while i < width
        invariant
            i <= width,
            bits@.len() == i,
            i32::MIN <= rest <= i32::MAX,
            binary_digits_reversed(value as int, width as nat) == Seq::new(
                i as nat,
                |k: int| if bits@[k] { '1' } else { '0' },
            ) + binary_digits_reversed(rest as int, (width - i) as nat),
        decreases width - i,
    {
        let ghost before = Seq::new(i as nat, |k: int| if bits@[k] { '1' } else { '0' });
        let odd = if rest >= 0 { rest % 2 == 1 } else { (-rest) % 2 == 1 };
        let half = if rest >= 0 { rest / 2 } else { -((1 - rest) / 2) };
        assert(odd == (rest as int % 2 == 1));
        assert(half == rest as int / 2);
        bits.push(odd);
        proof {
            let after = Seq::new((i + 1) as nat, |k: int| if bits@[k] { '1' } else { '0' });
            assert(after =~= before + seq![bit_char(rest as int)]);
            assert(before + (seq![bit_char(rest as int)] + binary_digits_reversed(
                half as int,
                (width - i - 1) as nat,
            )) =~= after + binary_digits_reversed(half as int, (width - i - 1) as nat));
        }
        rest = half;
        i += 1;
    }
    let ghost reversed = Seq::new(width as nat, |k: int| if bits@[k] { '1' } else { '0' });
    proof {
        lemma_binary_digits_reversed(value as int, width as nat);
        assert(binary_digits_reversed(value as int, width as nat) =~= reversed);
        reveal_strlit("0");
        reveal_strlit("1");
    }
    let mut text = String::new();
    let mut j: usize = 0;
    while j < width
        invariant
            j <= width,
            bits@.len() == width,
            reversed == Seq::new(width as nat, |k: int| if bits@[k] { '1' } else { '0' }),
            text@ == reversed.reverse().take(j as int),
            "0"@ == seq!['0'],
            "1"@ == seq!['1'],
        decreases width - j,
    {
        let bit = bits[width - 1 - j];
        if bit {
            text.append("1");
        } else {
            text.append("0");
        }
        assert(text@ =~= reversed.reverse().take(j + 1));
        j += 1;
    }
    assert(text@ =~= reversed.reverse());
    text
}

/// The digit that writes `value`, which is below sixteen: `0` to `9`, then `a` to `f`.
pub open spec fn digit_char(value: int) -> char {
    "0123456789abcdef"@[value]
}

/// The number that the bits `bits` write, highest first. Every character but `1` counts as
/// a zero bit.
pub open spec fn binary_value(bits: Seq<char>) -> int
    decreases bits.len(),
{
    if bits.len() == 0 {
        0
    } else {
        2 * binary_value(bits.drop_last()) + if bits.last() == '1' { 1int } else { 0int }
    }
}

/// The hexadecimal text of the binary text `bits`: one digit for every four bits, counted
/// from the end, and one for what is left at the front.
pub open spec fn hex_digits(bits: Seq<char>) -> Seq<char>
    decreases bits.len(),
{
    if bits.len() == 0 {
        Seq::<char>::empty()
    } else if bits.len() <= 4 {
        seq![digit_char(binary_value(bits))]
    } else {
        hex_digits(bits.take(bits.len() - 4)).push(
            digit_char(binary_value(bits.skip(bits.len() - 4))),
        )
    }
}

/// The hexadecimal text has one digit for every four bits, and one for a rest.
pub proof fn lemma_hex_digits_len(bits: Seq<char>)
    ensures
        hex_digits(bits).len() == (bits.len() + 3) / 4,
    decreases bits.len(),
{
    if bits.len() > 4 {
        lemma_hex_digits_len(bits.take(bits.len() - 4));
    }
}

/// Up to four bits make one digit.
pub proof fn lemma_hex_digits_of_group(group: Seq<char>)
    requires
        0 < group.len() <= 4,
    ensures
        hex_digits(group) == seq![digit_char(binary_value(group))],
{
}

/// Four more bits at the end make one more digit at the end.
pub proof fn lemma_hex_digits_with_group(bits: Seq<char>, group: Seq<char>)
    requires
        bits.len() > 0,
        group.len() == 4,
    ensures
        hex_digits(bits + group) == hex_digits(bits).push(digit_char(binary_value(group))),
{
    let all = bits + group;
    assert(all.take(all.len() - 4) =~= bits);
    assert(all.skip(all.len() - 4) =~= group);
}

/// Up to four bits write a number below sixteen.
proof fn lemma_binary_value_bound(bits: Seq<char>)
    requires
        bits.len() <= 4,
    ensures
        0 <= binary_value(bits) < 16,
{
    reveal_with_fuel(binary_value, 5);
}

/// The text of one digit.
fn digit_text(value: usize) -> (r: &'static str)
    requires
        value < 16,
    ensures
        r@ == seq![digit_char(value as int)],
{
    let digits = "0123456789abcdef";
    proof {
        reveal_strlit("0123456789abcdef");
    }
    let r = digits.substring_char(value, value + 1);
    assert(r@ =~= seq![digit_char(value as int)]);
    r
}

/// Writes the binary text `text` in hexadecimal, four bits to a digit.
pub fn convert_string_to_hex(text: &str) -> (r: String)
    ensures
        r@ == hex_digits(text@),
{
    let chars = chars_of(text);
    let n = chars.len();
    let mut hex = String::new();
    if n == 0 {
        return hex;
    }
    let mut start: usize = 0;
    let mut end: usize = (n - 1) % 4 + 1;
    proof {
        assert(text@.take(0) =~= Seq::<char>::empty());
    }
    while start < n
        invariant
            start <= n,
            start < n ==> start < end <= n && end - start <= 4 && (n - end) % 4 == 0,
            start > 0 ==> end == start + 4 || start == n,
            n == chars@.len(),
            chars@ == text@,
            hex@ == hex_digits(text@.take(start as int)),
        decreases n - start,
    {
        let mut value: usize = 0;
        let mut i: usize = start;
        proof {
            assert(text@.subrange(start as int, start as int) =~= Seq::<char>::empty());
        }
        while i < end
            invariant
                start <= i <= end <= n,
                end - start <= 4,
                n == chars@.len(),
                chars@ == text@,
                value == binary_value(text@.subrange(start as int, i as int)),
                0 <= value < 16,
            decreases end - i,
        {
            proof {
                assert(text@.subrange(start as int, i + 1).drop_last() =~= text@.subrange(
                    start as int,
                    i as int,
                ));
                lemma_binary_value_bound(text@.subrange(start as int, i + 1));
            }
            value = 2 * value + if chars[i] == '1' { 1 } else { 0 };
            i += 1;
        }
        proof {
            let group = text@.take(end as int);
            assert(group.skip(start as int) =~= text@.subrange(start as int, end as int));
            assert(group.take(start as int) =~= text@.take(start as int));
            if start == 0 {
                assert(group =~= text@.subrange(0, end as int));
                assert(hex@ =~= Seq::<char>::empty());
            }
        }
        let ghost before = hex@;
        hex.append(digit_text(value));
        assert(hex@ =~= before.push(digit_char(value as int)));
        start = end;
        end = if n - start >= 4 { start + 4 } else { n };
    }
    assert(text@.take(n as int) =~= text@);
    hex
}

/// Two to the power `n`.
pub open spec fn two_to(n: nat) -> int
    decreases n,
{
    if n == 0 {
        1
    } else {
        2 * two_to((n - 1) as nat)
    }
}

/// The number that `bits` write in two's complement: the highest bit counts negative.
pub open spec fn signed_value(bits: Seq<char>) -> int {
    if bits.len() > 0 && binary_value(bits) >= two_to((bits.len() - 1) as nat) {
        binary_value(bits) - two_to(bits.len())
    } else {
        binary_value(bits)
    }
}

/// A power of two is positive.
proof fn lemma_two_to_positive(n: nat)
    ensures
        two_to(n) > 0,
    decreases n,
{
    if n > 0 {
        lemma_two_to_positive((n - 1) as nat);
    }
}

/// Halving a number and its modulus: the remainder by `2 * m` is twice the remainder of
/// the half by `m`, plus the lowest bit.
proof fn lemma_mod_double(v: int, m: int)
    requires
        m > 0,
    ensures
        v % (2 * m) == 2 * ((v / 2) % m) + v % 2,
{
    let half = v / 2;
    let q = half / m;
    let r = half % m;
    vstd::arithmetic::div_mod::lemma_fundamental_div_mod(half, m);
    assert(half == m * q + r);
    assert(0 <= r < m) by {
        vstd::arithmetic::div_mod::lemma_mod_bound(half, m);
    }
    assert(q * (2 * m) == 2 * (m * q)) by (nonlinear_arith);
    assert(v == q * (2 * m) + (2 * r + v % 2));
    vstd::arithmetic::div_mod::lemma_fundamental_div_mod_converse(v, 2 * m, q, 2 * r + v % 2);
}

/// The binary text of a value writes the value's remainder by two to the width.
pub proof fn lemma_binary_value_of_digits(value: int, width: nat)
    ensures
        binary_value(binary_digits(value, width)) == value % two_to(width),
    decreases width,
{
    if width > 0 {
        let shorter = binary_digits(value / 2, (width - 1) as nat);
        let bits = binary_digits(value, width);
        lemma_binary_value_of_digits(value / 2, (width - 1) as nat);
        lemma_two_to_positive((width - 1) as nat);
        lemma_mod_double(value, two_to((width - 1) as nat));
        assert(bits.drop_last() =~= shorter);
        assert(bits.last() == bit_char(value));
    }
}

/// Cutting a value to `width` bits loses nothing where the value fits `width` bits in two's
/// complement: read back as a signed number, the bits give the value again.
pub proof fn lemma_twos_complement_round_trip(value: int, width: nat)
    requires
        width >= 1,
        -two_to((width - 1) as nat) <= value < two_to((width - 1) as nat),
    ensures
        signed_value(binary_digits(value, width)) == value,
{
    let half = two_to((width - 1) as nat);
    let full = two_to(width);
    lemma_binary_value_of_digits(value, width);
    lemma_binary_digits_len(value, width);
    lemma_two_to_positive((width - 1) as nat);
    assert(full == 2 * half);
    if value >= 0 {
        vstd::arithmetic::div_mod::lemma_fundamental_div_mod_converse(value, full, 0, value);
    } else {
        vstd::arithmetic::div_mod::lemma_fundamental_div_mod_converse(
            value,
            full,
            -1,
            value + full,
        );
    }
}

/// The digits that write `value` in decimal.
pub open spec fn decimal_digits(value: nat) -> Seq<char>
    decreases value,
{
    if value < 10 {
        seq![digit_char(value as int)]
    } else {
        decimal_digits(value / 10).push(digit_char(value as int % 10))
    }
}

/// The decimal text of `value`, with a leading `-` where it is negative.
pub open spec fn decimal_text(value: int) -> Seq<char> {
    if value < 0 {
        seq!['-'] + decimal_digits((-value) as nat)
    } else {
        decimal_digits(value as nat)
    }
}

/// Appends the decimal digits of `value` to `text`.
fn append_decimal_digits(text: &mut String, value: u64)
    ensures
        final(text)@ == old(text)@ + decimal_digits(value as nat),
    decreases value,
{
    if value >= 10 {
        append_decimal_digits(text, value / 10);
    }
    text.append(digit_text((value % 10) as usize));
    proof {
        if value >= 10 {
            assert(text@ =~= old(text)@ + decimal_digits(value as nat / 10).push(
                digit_char(value as int % 10),
            ));
        } else {
            assert(text@ =~= old(text)@ + seq![digit_char(value as int)]);
        }
    }
}

/// Writes `value` in decimal.
pub fn convert_int_to_decimal(value: i64) -> (r: String)
    ensures
        r@ == decimal_text(value as int),
{
    let mut text = String::new();
    if value < 0 {
        proof {
            reveal_strlit("-");
        }
        text.append("-");
        assert(text@ =~= seq!['-']);
        let magnitude: u64 = (-(value + 1)) as u64 + 1;
        append_decimal_digits(&mut text, magnitude);
    } else {
        append_decimal_digits(&mut text, value as u64);
        assert(text@ =~= decimal_digits(value as nat));
    }
    text
}

/// The offset that a branch at `current` holds to reach `target`: the distance in words,
/// less the one word by which the machine has moved on when it takes the branch.
pub open spec fn address_difference(current: int, target: int) -> int {
    (target - current) / (WORD_SIZE as int) - 1
}

/// The address that a branch at `current` with the offset `offset` leads to.
pub open spec fn branch_target(current: int, offset: int) -> int {
    current + (offset + 1) * (WORD_SIZE as int)
}

/// A branch offset that fits sixteen bits in two's complement survives its encoding: the
/// sixteen bits, read back as a signed number and applied to the address of the branch, give
/// the target again.
pub proof fn lemma_branch_offset_round_trip(current: int, target: int)
    requires
        current % (WORD_SIZE as int) == 0,
        target % (WORD_SIZE as int) == 0,
        -0x8000 <= address_difference(current, target) < 0x8000,
    ensures
        branch_target(
            current,
            signed_value(binary_digits(address_difference(current, target), 16)),
        ) == target,
{
    assert(two_to(15) == 0x8000) by {
        reveal_with_fuel(two_to, 16);
    }
    lemma_twos_complement_round_trip(address_difference(current, target), 16);
}

/// The offset of a branch at `current` to `target`, where it is a machine integer.
pub open spec fn branch_offset(current: int, target: int) -> Option<int> {
    let difference = address_difference(current, target);
    if i32::MIN <= difference <= i32::MAX {
        Some(difference)
    } else {
        None
    }
}

/// Computes the branch offset from `current` to `target`, or `None` where the offset is no
/// machine integer.
pub fn get_address_difference(current: i32, target: i32) -> (difference: Option<i32>)
    ensures
        difference matches Some(d) ==> branch_offset(current as int, target as int) == Some(
            d as int,
        ),
        difference is None ==> branch_offset(current as int, target as int) is None,
{
    let distance: i64 = target as i64 - current as i64;
    let words: i64 = if distance >= 0 {
        distance / (WORD_SIZE as i64)
    } else {
        -((-distance + (WORD_SIZE as i64 - 1)) / (WORD_SIZE as i64))
    };
    let offset: i64 = words - 1;
    if offset < i32::MIN as i64 || offset > i32::MAX as i64 {
        None
    } else {
        Some(offset as i32)
    }
}

} // verus!
