//! Characters, decimal and hexadecimal numerals, and path joining.
use vstd::prelude::*;
use vstd::string::*;

verus! {

/// `String::push` appends one character.
pub assume_specification[ String::push ](s: &mut String, c: char)
    ensures
        final(s)@ == old(s)@.push(c),
;

/// The characters of `text`, in order.
pub fn chars_of(text: &str) -> (chars: Vec<char>)
    ensures
        chars@ == text@,
{
    let mut chars: Vec<char> = Vec::new();
    for c in iter: text.chars()
        invariant
            iter.seq() == text@,
            chars@ == text@.take(iter.index() as int),
    {
        chars.push(c);
    }
    assert(text@.take(text@.len() as int) =~= text@);
    chars
}

/// The string made of `chars[from..to]`.
pub fn string_of(chars: &[char], from: usize, to: usize) -> (text: String)
    requires
        from <= to <= chars@.len(),
    ensures
        text@ == chars@.subrange(from as int, to as int),
{
    let mut text = String::new();
    let mut i: usize = from;
    while i < to
        invariant
            from <= i <= to <= chars@.len(),
            text@ == chars@.subrange(from as int, i as int),
        decreases to - i,
    {
        text.push(chars[i]);
        assert(chars@.subrange(from as int, i + 1) =~= chars@.subrange(from as int, i as int).push(
            chars@[i as int],
        ));
        i = i + 1;
    }
    text
}

/// The string that holds the one character `c`.
pub fn one_char(c: char) -> (text: String)
    ensures
        text@ == seq![c],
{
    let mut text = String::new();
    text.push(c);
    assert(text@ =~= seq![c]);
    text
}

/// Concatenation of two strings.
pub fn concat2(a: &str, b: &str) -> (text: String)
    ensures
        text@ == a@ + b@,
{
    let mut text = a.to_owned();
    text.append(b);
    text
}

/// Concatenation of three strings.
pub fn concat3(a: &str, b: &str, c: &str) -> (text: String)
    ensures
        text@ == a@ + b@ + c@,
{
    let mut text = concat2(a, b);
    text.append(c);
    text
}

/// The digit for a value below sixteen; letters are lower case.
pub open spec fn digit_char(value: int) -> char {
    if value == 0 { '0' }
    else if value == 1 { '1' }
    else if value == 2 { '2' }
    else if value == 3 { '3' }
    else if value == 4 { '4' }
    else if value == 5 { '5' }
    else if value == 6 { '6' }
    else if value == 7 { '7' }
    else if value == 8 { '8' }
    else if value == 9 { '9' }
    else if value == 10 { 'a' }
    else if value == 11 { 'b' }
    else if value == 12 { 'c' }
    else if value == 13 { 'd' }
    else if value == 14 { 'e' }
    else { 'f' }
}

/// Computes `digit_char`.
pub fn digit(value: u8) -> (c: char)
    requires
        value < 16,
    ensures
        c == digit_char(value as int),
{
    if value == 0 { '0' }
    else if value == 1 { '1' }
    else if value == 2 { '2' }
    else if value == 3 { '3' }
    else if value == 4 { '4' }
    else if value == 5 { '5' }
    else if value == 6 { '6' }
    else if value == 7 { '7' }
    else if value == 8 { '8' }
    else if value == 9 { '9' }
    else if value == 10 { 'a' }
    else if value == 11 { 'b' }
    else if value == 12 { 'c' }
    else if value == 13 { 'd' }
    else if value == 14 { 'e' }
    else { 'f' }
}

/// The value of a decimal digit character.
pub open spec fn digit_value(c: char) -> int {
    c as int - '0' as int
}

/// The decimal numeral of `n`, without leading zeros.
pub open spec fn decimal_spec(n: nat) -> Seq<char>
    decreases n,
{
    if n < 10 {
        seq![digit_char(n as int)]
    } else {
        decimal_spec(n / 10).push(digit_char((n % 10) as int))
    }
}

/// The number that a string of decimal digits stands for.
pub open spec fn decimal_value(digits: Seq<char>) -> int
    decreases digits.len(),
{
    if digits.len() == 0 {
        0
    } else {
        10 * decimal_value(digits.drop_last()) + digit_value(digits.last())
    }
}

/// Computes the decimal numeral of `n`.
pub fn decimal(n: u64) -> (text: String)
    ensures
        text@ == decimal_spec(n as nat),
    decreases n,
{
    if n < 10 {
        one_char(digit(n as u8))
    } else {
        let mut text = decimal(n / 10);
        text.push(digit((n % 10) as u8));
        text
    }
}

/// The decimal numeral of a number that may be negative.
pub open spec fn signed_decimal_spec(n: int) -> Seq<char> {
    if n < 0 {
        seq!['-'] + decimal_spec((-n) as nat)
    } else {
        decimal_spec(n as nat)
    }
}

/// Computes the decimal numeral of `n`.
pub fn signed_decimal(n: i64) -> (text: String)
    ensures
        text@ == signed_decimal_spec(n as int),
{
    if n < 0 {
        let mut text = one_char('-');
        let magnitude: u64 = (-(n + 1)) as u64 + 1;
        text.append(decimal(magnitude).as_str());
        text
    } else {
        decimal(n as u64)
    }
}

/// `n` copies of the character `c`.
pub open spec fn repeated(c: char, n: nat) -> Seq<char> {
    Seq::new(n, |i: int| c)
}

/// The decimal numeral of `n`, filled with zeros on the left to `width`.
pub open spec fn zero_padded_spec(n: nat, width: nat) -> Seq<char> {
    let digits = decimal_spec(n);
    if digits.len() >= width {
        digits
    } else {
        repeated('0', (width - digits.len()) as nat) + digits
    }
}

/// Computes the zero-padded decimal numeral of `n`.
pub fn zero_padded(n: u64, width: usize) -> (text: String)
    ensures
        text@ == zero_padded_spec(n as nat, width as nat),
{
    let digits = decimal(n);
    let length: usize = digits.as_str().unicode_len();
    if length >= width {
        return digits;
    }
    let mut text = String::new();
    let missing: usize = width - length;
    let mut i: usize = 0;
    while i < missing
        invariant
            i <= missing,
            text@ == repeated('0', i as nat),
        decreases missing - i,
    {
        text.push('0');
        i = i + 1;
        assert(repeated('0', i as nat) =~= repeated('0', (i - 1) as nat).push('0'));
    }
    assert(text@ == repeated('0', missing as nat));
    text.append(digits.as_str());
    text
}

/// The lower-case hexadecimal digits of `bytes`, two per byte.
pub open spec fn hex_spec(bytes: Seq<u8>) -> Seq<char>
    decreases bytes.len(),
{
    if bytes.len() == 0 {
        Seq::empty()
    } else {
        hex_spec(bytes.drop_last()).push(digit_char(bytes.last() as int / 16)).push(
            digit_char(bytes.last() as int % 16),
        )
    }
}

/// Computes `hex_spec`.
pub fn hex(bytes: &[u8]) -> (text: String)
    ensures
        text@ == hex_spec(bytes@),
{
    let mut text = String::new();
    let mut i: usize = 0;
    assert(bytes@.take(0) =~= Seq::<u8>::empty());
    while i < bytes.len()
        invariant
            i <= bytes@.len(),
            text@ == hex_spec(bytes@.take(i as int)),
        decreases bytes@.len() - i,
    {
        let byte: u8 = bytes[i];
        text.push(digit(byte / 16));
        text.push(digit(byte % 16));
        assert(bytes@.take(i + 1).drop_last() =~= bytes@.take(i as int));
        i = i + 1;
    }
    assert(bytes@.take(i as int) =~= bytes@);
    text
}

/// Joining a name to a directory: an absolute name replaces the directory, and
/// a separator is put between them unless the directory is empty or ends in one.
pub open spec fn joined(base: Seq<char>, name: Seq<char>) -> Seq<char> {
    if name.len() > 0 && name[0] == '/' {
        name
    } else if base.len() == 0 || base.last() == '/' {
        base + name
    } else {
        base.push('/') + name
    }
}

/// Computes `joined`.
pub fn join_path(base: &str, name: &str) -> (path: String)
    ensures
        path@ == joined(base@, name@),
{
    if name.unicode_len() > 0 && name.get_char(0) == '/' {
        return name.to_owned();
    }
    let length: usize = base.unicode_len();
    let mut path = base.to_owned();
    if length > 0 && base.get_char(length - 1) != '/' {
        path.push('/');
    }
    path.append(name);
    path
}

/// A decimal numeral reads back as the number it was written for.
pub proof fn lemma_decimal_reads_back(n: nat)
    ensures
        decimal_value(decimal_spec(n)) == n,
        decimal_spec(n).len() > 0,
    decreases n,
{
    if n < 10 {
        let s = seq![digit_char(n as int)];
        assert(s.drop_last() =~= Seq::<char>::empty());
        assert(decimal_value(s.drop_last()) == 0);
    } else {
        lemma_decimal_reads_back(n / 10);
        let s = decimal_spec(n);
        assert(s.drop_last() =~= decimal_spec(n / 10));
        assert(digit_value(digit_char((n % 10) as int)) == n % 10);
    }
}

/// Leading zeros do not change the value of a numeral.
pub proof fn lemma_leading_zeros(n: nat, digits: Seq<char>)
    ensures
        decimal_value(repeated('0', n) + digits) == decimal_value(digits),
    decreases digits.len() + n,
{
    let s = repeated('0', n) + digits;
    if digits.len() > 0 {
        lemma_leading_zeros(n, digits.drop_last());
        assert(s.drop_last() =~= repeated('0', n) + digits.drop_last());
    } else if n > 0 {
        lemma_leading_zeros((n - 1) as nat, digits);
        assert(s.drop_last() =~= repeated('0', (n - 1) as nat) + digits);
    } else {
        assert(s =~= digits);
    }
}

/// Two numbers with the same zero-padded numeral are equal.
pub proof fn lemma_zero_padded_injective(a: nat, b: nat, width: nat)
    requires
        zero_padded_spec(a, width) == zero_padded_spec(b, width),
    ensures
        a == b,
{
    lemma_decimal_reads_back(a);
    lemma_decimal_reads_back(b);
    if decimal_spec(a).len() < width {
        lemma_leading_zeros((width - decimal_spec(a).len()) as nat, decimal_spec(a));
    }
    if decimal_spec(b).len() < width {
        lemma_leading_zeros((width - decimal_spec(b).len()) as nat, decimal_spec(b));
    }
}

/// A decimal numeral holds digits only, does not begin with a zero unless it is
/// zero, and reads back as its number.
pub proof fn law_decimal_numeral(n: nat)
    ensures
        decimal_value(decimal_spec(n)) == n,
        decimal_spec(n).len() > 0,
        forall|i: int|
            0 <= i < decimal_spec(n).len() ==> '0' <= #[trigger] decimal_spec(n)[i] <= '9',
        n > 0 ==> decimal_spec(n)[0] != '0',
    decreases n,
{
    lemma_decimal_reads_back(n);
    if n >= 10 {
        law_decimal_numeral(n / 10);
        let shorter = decimal_spec(n / 10);
        assert forall|i: int| 0 <= i < decimal_spec(n).len() implies '0'
            <= #[trigger] decimal_spec(n)[i] <= '9' by {
            if i < shorter.len() {
                assert(decimal_spec(n)[i] == shorter[i]);
            }
        }
    }
}

/// A number below zero is written as a minus sign and the numeral of its
/// opposite, and any other as its numeral.
pub proof fn law_signed_decimal_numeral(n: int)
    ensures
        n >= 0 ==> decimal_value(signed_decimal_spec(n)) == n && signed_decimal_spec(n)[0] != '-',
        n < 0 ==> signed_decimal_spec(n)[0] == '-' && decimal_value(signed_decimal_spec(n).skip(1))
            == -n,
{
    if n < 0 {
        law_decimal_numeral((-n) as nat);
        assert(signed_decimal_spec(n).skip(1) =~= decimal_spec((-n) as nat));
    } else {
        law_decimal_numeral(n as nat);
    }
}

/// A padded numeral is at least as wide as asked for, holds digits only, reads
/// back as its number, and is the plain numeral where that is wide enough.
pub proof fn law_padded_numeral(n: nat, width: nat)
    ensures
        decimal_value(zero_padded_spec(n, width)) == n,
        zero_padded_spec(n, width).len() >= width,
        decimal_spec(n).len() >= width ==> zero_padded_spec(n, width) == decimal_spec(n),
        decimal_spec(n).len() <= width ==> zero_padded_spec(n, width).len() == width,
        forall|i: int|
            0 <= i < zero_padded_spec(n, width).len() ==> '0' <= #[trigger] zero_padded_spec(
                n,
                width,
            )[i] <= '9',
{
    law_decimal_numeral(n);
    if decimal_spec(n).len() < width {
        lemma_leading_zeros((width - decimal_spec(n).len()) as nat, decimal_spec(n));
    }
}

/// The numeral of a hexadecimal digit.
spec fn is_hex_digit(c: char, value: int) -> bool {
    if value < 10 {
        c as int == '0' as int + value
    } else {
        c as int == 'a' as int + value - 10
    }
}

proof fn lemma_hex_digits(bytes: Seq<u8>)
    ensures
        hex_spec(bytes).len() == 2 * bytes.len(),
        forall|i: int|
            0 <= i < bytes.len() ==> is_hex_digit(
                hex_spec(bytes)[2 * i],
                (#[trigger] bytes[i]) as int / 16,
            ) && is_hex_digit(hex_spec(bytes)[2 * i + 1], bytes[i] as int % 16),
    decreases bytes.len(),
{
    if bytes.len() > 0 {
        let shorter = bytes.drop_last();
        lemma_hex_digits(shorter);
        assert forall|i: int| 0 <= i < bytes.len() implies is_hex_digit(
            hex_spec(bytes)[2 * i],
            (#[trigger] bytes[i]) as int / 16,
        ) && is_hex_digit(hex_spec(bytes)[2 * i + 1], bytes[i] as int % 16) by {
            if i < shorter.len() {
                assert(shorter[i] == bytes[i]);
                assert(hex_spec(bytes)[2 * i] == hex_spec(shorter)[2 * i]);
                assert(hex_spec(bytes)[2 * i + 1] == hex_spec(shorter)[2 * i + 1]);
            }
        }
    }
}

/// Byte `i` is written as two hexadecimal digits in lower case, the high one
/// first.
pub proof fn law_hexadecimal_digits(bytes: Seq<u8>, i: int)
    requires
        0 <= i < bytes.len(),
    ensures
        hex_spec(bytes).len() == 2 * bytes.len(),
        ({
            let high = bytes[i] as int / 16;
            let low = bytes[i] as int % 16;
            &&& high < 10 ==> hex_spec(bytes)[2 * i] as int == '0' as int + high
            &&& high >= 10 ==> hex_spec(bytes)[2 * i] as int == 'a' as int + high - 10
            &&& low < 10 ==> hex_spec(bytes)[2 * i + 1] as int == '0' as int + low
            &&& low >= 10 ==> hex_spec(bytes)[2 * i + 1] as int == 'a' as int + low - 10
        }),
{
    lemma_hex_digits(bytes);
    assert(is_hex_digit(hex_spec(bytes)[2 * i], bytes[i] as int / 16));
}

/// A relative name goes behind its directory and one separator; an absolute
/// name stands alone. Either way the path ends in the name.
pub proof fn law_path_ends_in_its_name(base: Seq<char>, name: Seq<char>)
    ensures
        joined(base, name).len() >= name.len(),
        joined(base, name).skip(joined(base, name).len() - name.len()) == name,
        name.len() > 0 && name[0] == '/' ==> joined(base, name) == name,
        (name.len() == 0 || name[0] != '/') && base.len() > 0 && base.last() != '/' ==> joined(
            base,
            name,
        ) == base + seq!['/'] + name,
        (name.len() == 0 || name[0] != '/') && (base.len() == 0 || base.last() == '/') ==> joined(
            base,
            name,
        ) == base + name,
{
    assert(joined(base, name).skip(joined(base, name).len() - name.len()) =~= name);
    assert(base.push('/') + name =~= base + seq!['/'] + name);
}

} // verus!
