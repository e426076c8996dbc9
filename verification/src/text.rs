//! Text primitives: string equality, decimal integers, and comma-separated lists.
use vstd::prelude::*;
use vstd::string::*;
use vstd::utf8::*;

verus! {

/// Whether two string slices hold the same characters.
pub fn str_eq(a: &str, b: &str) -> (r: bool)
    ensures
        r == (a@ == b@),
{
    let x = a.as_bytes();
    let y = b.as_bytes();
    proof {
        encode_utf8_decode_utf8(a@);
        encode_utf8_decode_utf8(b@);
    }
    if x.len() != y.len() {
        return false;
    }
    let mut i: usize = 0;
    while i < x.len()
        invariant
            i <= x.len(),
            x.len() == y.len(),
            x@ == a.spec_bytes(),
            y@ == b.spec_bytes(),
            forall|j: int| 0 <= j < i ==> x@[j] == y@[j],
        decreases x.len() - i,
    {
        if x[i] != y[i] {
            return false;
        }
        i += 1;
    }
    assert(x@ =~= y@);
    true
}

/// The character of a decimal digit.
pub open spec fn digit_char(d: nat) -> char {
    ('0' as u32 + d) as char
}

/// A natural number in decimal, without leading zeros.
pub open spec fn decimal_nat(n: nat) -> Seq<char>
    decreases n,
{
    if n < 10 {
        seq![digit_char(n)]
    } else {
        decimal_nat(n / 10).push(digit_char(n % 10))
    }
}

/// An integer in decimal: digits without leading zeros, after a minus sign where it is negative.
pub open spec fn decimal(v: int) -> Seq<char> {
    if v < 0 {
        seq!['-'] + decimal_nat((-v) as nat)
    } else {
        decimal_nat(v as nat)
    }
}

pub open spec fn is_digit(c: char) -> bool {
    '0' <= c <= '9'
}

pub open spec fn all_digits(s: Seq<char>) -> bool {
    forall|i: int| 0 <= i < s.len() ==> is_digit(#[trigger] s[i])
}

/// The number that a sequence of decimal digits denotes.
pub open spec fn digits_value(s: Seq<char>) -> int
    decreases s.len(),
{
    if s.len() == 0 {
        0
    } else {
        10 * digits_value(s.drop_last()) + (s.last() as int - '0' as int)
    }
}

pub open spec fn has_sign(s: Seq<char>) -> bool {
    s.len() > 0 && (s[0] == '-' || s[0] == '+')
}

/// The digits of a numeral, behind its sign where it has one.
pub open spec fn numeral_digits(s: Seq<char>) -> Seq<char> {
    if has_sign(s) {
        s.skip(1)
    } else {
        s
    }
}

/// An optional sign followed by at least one digit and by nothing else.
pub open spec fn is_numeral(s: Seq<char>) -> bool {
    numeral_digits(s).len() > 0 && all_digits(numeral_digits(s))
}

/// The integer that a numeral denotes.
pub open spec fn numeral_value(s: Seq<char>) -> int {
    if s.len() > 0 && s[0] == '-' {
        -digits_value(numeral_digits(s))
    } else {
        digits_value(numeral_digits(s))
    }
}

/// What a text reads as: the integer of a numeral that fits in 64 bits, and nothing otherwise.
pub open spec fn parsed_i64(s: Seq<char>) -> Option<i64> {
    if is_numeral(s) && i64::MIN <= numeral_value(s) <= i64::MAX {
        Some(numeral_value(s) as i64)
    } else {
        None
    }
}

fn digit_str(d: u64) -> (r: &'static str)
    requires
        d < 10,
    ensures
        r@ == seq![digit_char(d as nat)],
{
    proof {
        reveal_strlit("0");
        reveal_strlit("1");
        reveal_strlit("2");
        reveal_strlit("3");
        reveal_strlit("4");
        reveal_strlit("5");
        reveal_strlit("6");
        reveal_strlit("7");
        reveal_strlit("8");
        reveal_strlit("9");
    }
    let r = match d {
        0 => "0",
        1 => "1",
        2 => "2",
        3 => "3",
        4 => "4",
        5 => "5",
        6 => "6",
        7 => "7",
        8 => "8",
        _ => "9",
    };
    assert(r@ =~= seq![digit_char(d as nat)]);
    r
}

/// Renders an unsigned integer in decimal.
pub fn u64_to_string(n: u64) -> (r: String)
    ensures
        r@ == decimal(n as int),
    decreases n,
{
    if n < 10 {
        String::from_str(digit_str(n))
    } else {
        let mut r = u64_to_string(n / 10);
        r.append(digit_str(n % 10));
        assert(r@ =~= decimal(n as int));
        r
    }
}

/// Renders a signed integer in decimal.
pub fn i64_to_string(v: i64) -> (r: String)
    ensures
        r@ == decimal(v as int),
{
    if v < 0 {
        proof {
            reveal_strlit("-");
        }
        let mut r = String::from_str("-");
        // The magnitude of `i64::MIN` does not fit in an `i64`.
        let magnitude: u64 = (-(v + 1)) as u64 + 1;
        let digits = u64_to_string(magnitude);
        r.append(digits.as_str());
        assert(r@ =~= decimal(v as int));
        r
    } else {
        u64_to_string(v as u64)
    }
}

/// Reads a signed 64-bit integer: an optional sign, then digits only. Anything else, and a
/// number out of range, is no integer.
pub fn parse_i64(s: &str) -> (r: Option<i64>)
    ensures
        r == parsed_i64(s@),
{
    let mut negative = false;
    let mut first = true;
    let mut any_digit = false;
    let mut huge = false;
    let mut value: i128 = 0;
    let ghost digits = numeral_digits(s@);
    let ghost shift: int = if has_sign(s@) { 1 } else { 0 };
    for c in it: s.chars()
        invariant
            it.seq() == s@,
            digits == numeral_digits(s@),
            shift == if has_sign(s@) { 1int } else { 0int },
            first == (it.index() == 0),
            negative == (it.index() > 0 && s@[0] == '-'),
            any_digit == (it.index() > shift),
            it.index() >= shift ==> all_digits(digits.take(it.index() - shift)),
            it.index() < shift ==> value == 0 && !huge,
            !huge && it.index() >= shift ==> value == digits_value(digits.take(it.index() - shift)),
            huge ==> digits_value(digits.take(it.index() - shift)) > 0x8000_0000_0000_0000,
            0 <= value <= 0x8000_0000_0000_0000,
    {
        let ghost i = it.index();
        if first && (c == '-' || c == '+') {
            negative = c == '-';
            first = false;
            assert(digits.take(0) =~= Seq::empty());
        } else if '0' <= c && c <= '9' {
            first = false;
            any_digit = true;
            let ghost k = i - shift;
            assert(digits[k] == c);
            assert(digits.take(k + 1).drop_last() =~= digits.take(k));
            assert(digits.take(k + 1).last() == c);
            let next: i128 = 10 * value + (c as u32 as i128 - 48);
            if next > 0x8000_0000_0000_0000 {
                huge = true;
            }
            if !huge {
                value = next;
            }
        } else {
            assert(digits[i - shift] == c);
            return None;
        }
    }
    assert(digits.take(digits.len() as int) =~= digits);
    if !any_digit || huge {
        return None;
    }
    if negative {
        Some((-value) as i64)
    } else if value <= i64::MAX as i128 {
        Some(value as i64)
    } else {
        None
    }
}

proof fn lemma_decimal_nat(n: nat)
    ensures
        decimal_nat(n).len() > 0,
        all_digits(decimal_nat(n)),
        digits_value(decimal_nat(n)) == n,
    decreases n,
{
    if n < 10 {
        assert(decimal_nat(n).drop_last() =~= Seq::<char>::empty());
        assert(digits_value(decimal_nat(n).drop_last()) == 0);
    } else {
        lemma_decimal_nat(n / 10);
        assert(decimal_nat(n).drop_last() =~= decimal_nat(n / 10));
    }
}

/// Reading a rendered integer gives that integer back.
pub proof fn decimal_reads_back(v: i64)
    ensures
        parsed_i64(decimal(v as int)) == Some(v),
{
    let s = decimal(v as int);
    if v < 0 {
        lemma_decimal_nat((-v) as nat);
        assert(s.skip(1) =~= decimal_nat((-v) as nat));
    } else {
        lemma_decimal_nat(v as nat);
        assert(is_digit(s[0]));
    }
}

/// Two integers with the same rendering are the same integer.
pub proof fn decimal_is_injective(a: i64, b: i64)
    requires
        decimal(a as int) == decimal(b as int),
    ensures
        a == b,
{
    decimal_reads_back(a);
    decimal_reads_back(b);
}

/// The parts in order, with a comma between each two of them.
pub open spec fn comma_joined(parts: Seq<Seq<char>>) -> Seq<char>
    decreases parts.len(),
{
    if parts.len() == 0 {
        Seq::empty()
    } else {
        let before = parts.drop_last();
        let separator = if before.len() == 0 {
            Seq::empty()
        } else {
            seq![',']
        };
        comma_joined(before) + separator + parts.last()
    }
}

/// The pieces of a text between its commas; a text without a comma is its own single piece.
pub open spec fn comma_split(s: Seq<char>) -> Seq<Seq<char>>
    decreases s.len(),
{
    if s.len() == 0 {
        seq![Seq::empty()]
    } else {
        let before = comma_split(s.drop_last());
        if s.last() == ',' {
            before.push(Seq::empty())
        } else {
            before.drop_last().push(before.last().push(s.last()))
        }
    }
}

/// The view of a string that may be missing.
pub open spec fn optional_text(text: Option<String>) -> Option<Seq<char>> {
    match text {
        Some(text) => Some(text@),
        None => None,
    }
}

/// The views of a list of strings.
pub open spec fn strings_view(v: Seq<String>) -> Seq<Seq<char>> {
    v.map_values(|s: String| s@)
}

/// Joins strings with commas.
pub fn join_commas(parts: &Vec<String>) -> (r: String)
    ensures
        r@ == comma_joined(strings_view(parts@)),
{
    proof {
        reveal_strlit(",");
    }
    let ghost views = strings_view(parts@);
    let mut r = String::new();
    let mut i: usize = 0;
    assert(views.take(0) =~= Seq::empty());
    while i < parts.len()
        invariant
            i <= parts.len(),
            views == strings_view(parts@),
            r@ == comma_joined(views.take(i as int)),
            ","@ =~= seq![','],
        decreases parts.len() - i,
    {
        proof {
            assert(views.take(i + 1).drop_last() =~= views.take(i as int));
            assert(views.take(i + 1).last() == parts@[i as int]@);
        }
        if i > 0 {
            r.append(",");
        }
        r.append(parts[i].as_str());
        assert(r@ =~= comma_joined(views.take(i + 1)));
        i += 1;
    }
    assert(views.take(views.len() as int) =~= views);
    r
}

/// Splits a text at its commas.
pub fn split_commas(s: &str) -> (r: Vec<String>)
    ensures
        strings_view(r@) == comma_split(s@),
{
    let mut r: Vec<String> = Vec::new();
    let mut start: usize = 0;
    let mut i: usize = 0;
    let total = s.unicode_len();
    assert(s@.take(0) =~= Seq::empty());
    assert(s@.subrange(0, 0) =~= Seq::empty());
    assert(strings_view(r@) =~= Seq::empty());
    assert(strings_view(r@).push(s@.subrange(0, 0)) =~= comma_split(s@.take(0)));
    for c in it: s.chars()
        invariant
            it.seq() == s@,
            i == it.index(),
            total == s@.len(),
            start <= i <= total,
            strings_view(r@).push(s@.subrange(start as int, i as int)) == comma_split(s@.take(i as int)),
    {
        proof {
            assert(s@.take(i + 1).drop_last() =~= s@.take(i as int));
            assert(s@.take(i + 1).last() == c);
            assert(s@.subrange(start as int, i + 1) =~= s@.subrange(start as int, i as int).push(c));
            assert(s@.subrange(i + 1, i + 1) =~= Seq::empty());
            let before = strings_view(r@);
            assert(before.push(s@.subrange(start as int, i as int)).drop_last() =~= before);
        }
        if c == ',' {
            let ghost before = r@;
            let piece = String::from_str(s.substring_char(start, i));
            r.push(piece);
            start = i + 1;
            assert(strings_view(r@) =~= strings_view(before).push(piece@));
        }
        i += 1;
    }
    assert(s@.take(s@.len() as int) =~= s@);
    let ghost before = r@;
    let piece = String::from_str(s.substring_char(start, total));
    r.push(piece);
    assert(strings_view(r@) =~= strings_view(before).push(piece@));
    r
}

/// Joining the pieces of a text restores it.
pub proof fn split_then_join(s: Seq<char>)
    ensures
        comma_split(s).len() > 0,
        comma_joined(comma_split(s)) == s,
    decreases s.len(),
{
    reveal_with_fuel(comma_joined, 2);
    if s.len() == 0 {
        assert(comma_split(s).drop_last() =~= Seq::empty());
        assert(comma_joined(comma_split(s)) =~= s);
    } else {
        let before = comma_split(s.drop_last());
        split_then_join(s.drop_last());
        if s.last() == ',' {
            assert(comma_split(s).drop_last() =~= before);
            assert(comma_joined(comma_split(s)) =~= comma_joined(before).push(','));
        } else {
            assert(comma_split(s).drop_last() =~= before.drop_last());
            assert(comma_joined(comma_split(s)) =~= comma_joined(before).push(s.last()));
        }
        assert(s =~= s.drop_last().push(s.last()));
    }
}

proof fn lemma_split_after_comma_free(s: Seq<char>, tail: Seq<char>)
    requires
        !tail.contains(','),
    ensures
        comma_split(s + tail).len() > 0,
        comma_split(s).len() > 0,
        comma_split(s + tail) == comma_split(s).drop_last().push(comma_split(s).last() + tail),
    decreases tail.len(),
{
    split_then_join(s);
    split_then_join(s + tail);
    if tail.len() == 0 {
        assert(s + tail =~= s);
        assert(comma_split(s).last() + tail =~= comma_split(s).last());
        assert(comma_split(s) =~= comma_split(s).drop_last().push(comma_split(s).last()));
    } else {
        assert((s + tail).drop_last() =~= s + tail.drop_last());
        assert(!tail.drop_last().contains(',')) by {
            if tail.drop_last().contains(',') {
                let k = choose|k: int| 0 <= k < tail.drop_last().len() && tail.drop_last()[k] == ',';
                assert(tail[k] == ',');
            }
        }
        lemma_split_after_comma_free(s, tail.drop_last());
        assert(tail[tail.len() - 1] != ',');
        assert(comma_split(s).last() + tail =~= (comma_split(s).last() + tail.drop_last()).push(tail.last()));
        let before = comma_split(s + tail.drop_last());
        assert(before.drop_last() =~= comma_split(s).drop_last());
    }
}

/// Splitting a joined list of comma-free parts gives the parts back.
pub proof fn join_then_split(parts: Seq<Seq<char>>)
    requires
        parts.len() > 0,
        forall|i: int| 0 <= i < parts.len() ==> !(#[trigger] parts[i]).contains(','),
    ensures
        comma_split(comma_joined(parts)) == parts,
    decreases parts.len(),
{
    reveal_with_fuel(comma_joined, 2);
    let before = parts.drop_last();
    assert(!parts[parts.len() - 1].contains(','));
    if before.len() == 0 {
        let empty = Seq::<char>::empty();
        assert(comma_joined(parts) =~= empty + parts.last());
        lemma_split_after_comma_free(empty, parts.last());
        assert(empty + parts.last() =~= parts.last());
        assert(comma_split(comma_joined(parts)) =~= parts);
    } else {
        assert forall|i: int| 0 <= i < before.len() implies !(#[trigger] before[i]).contains(',') by {
            assert(before[i] == parts[i]);
        }
        join_then_split(before);
        let with_comma = comma_joined(before) + seq![','];
        assert(with_comma.drop_last() =~= comma_joined(before));
        assert(comma_split(with_comma) == before.push(Seq::empty()));
        lemma_split_after_comma_free(with_comma, parts.last());
        assert(Seq::<char>::empty() + parts.last() =~= parts.last());
        assert(comma_split(with_comma).drop_last() =~= before);
        assert(comma_split(comma_joined(parts)) =~= parts);
    }
}

/// Decimal rendering, digit by digit: a digit is its own character, one more digit goes behind the
/// others, and a negative number has a minus sign before its magnitude.
pub proof fn decimal_goes_digit_by_digit(n: nat, d: nat)
    requires
        d < 10,
    ensures
        decimal(d as int).len() == 1,
        decimal(d as int)[0] as int == '0' as int + d,
        n > 0 ==> decimal((10 * n + d) as int) == decimal(n as int) + decimal(d as int),
        n > 0 ==> decimal(-(n as int)) == seq!['-'] + decimal(n as int),
{
    if n > 0 {
        let v: nat = 10 * n + d;
        assert(v / 10 == n && v % 10 == d);
        assert(decimal(v as int) =~= decimal(n as int) + decimal(d as int));
    }
}

/// Only numerals are read: digits, with one sign before them at most.
pub proof fn only_numerals_are_read(s: Seq<char>)
    requires
        parsed_i64(s) is Some,
    ensures
        s.len() > 0,
        forall|i: int| 1 <= i < s.len() ==> '0' <= #[trigger] s[i] <= '9',
        s[0] == '-' || s[0] == '+' || '0' <= s[0] <= '9',
        s[0] == '-' || s[0] == '+' ==> s.len() > 1,
{
    let digits = numeral_digits(s);
    assert forall|i: int| 1 <= i < s.len() implies '0' <= #[trigger] s[i] <= '9' by {
        if has_sign(s) {
            assert(digits[i - 1] == s[i]);
        } else {
            assert(digits[i] == s[i]);
        }
        assert(all_digits(digits));
    }
    if !has_sign(s) {
        assert(is_digit(digits[0]));
    }
}

/// Reading goes digit by digit: a single digit is its own value, and one more digit behind a number
/// makes ten times that number and the digit, where the outcome fits in 64 bits; where it does not,
/// nothing is read. A plus sign before digits changes nothing, and a minus sign negates.
pub proof fn numbers_are_read_digit_by_digit(s: Seq<char>, c: char)
    requires
        '0' <= c <= '9',
    ensures
        parsed_i64(seq![c]) == Some((c as int - '0' as int) as i64),
        parsed_i64(s) matches Some(v) ==> s[0] != '-' ==> parsed_i64(s.push(c)) == (if 10 * v + (
        c as int - '0' as int) <= i64::MAX {
            Some((10 * v + (c as int - '0' as int)) as i64)
        } else {
            None
        }),
        parsed_i64(s) matches Some(v) ==> s[0] == '-' ==> parsed_i64(s.push(c)) == (if 10 * v - (
        c as int - '0' as int) >= i64::MIN {
            Some((10 * v - (c as int - '0' as int)) as i64)
        } else {
            None
        }),
        parsed_i64(seq!['+', c]) == Some((c as int - '0' as int) as i64),
        parsed_i64(seq!['-', c]) == Some(('0' as int - c as int) as i64),
        parsed_i64(s) is None && s.len() > 1 && '0' <= s[1] <= '9' ==> parsed_i64(s.push(c)) is None,
{
    let one = seq![c];
    assert(one.drop_last() =~= Seq::empty());
    assert(digits_value(one.drop_last()) == 0);
    assert(digits_value(one) == c as int - '0' as int);
    assert(all_digits(one));
    assert(seq!['+', c].skip(1) =~= one);
    assert(seq!['-', c].skip(1) =~= one);
    if parsed_i64(s) is Some {
        only_numerals_are_read(s);
        let digits = numeral_digits(s);
        let more = numeral_digits(s.push(c));
        assert(more =~= digits.push(c));
        assert(more.drop_last() =~= digits);
        assert forall|i: int| 0 <= i < more.len() implies is_digit(#[trigger] more[i]) by {
            if i < digits.len() {
                assert(more[i] == digits[i]);
            }
        }
        lemma_digits_value_is_not_negative(digits);
    } else if s.len() > 1 && '0' <= s[1] <= '9' && is_numeral(s.push(c)) {
        let digits = numeral_digits(s);
        let more = numeral_digits(s.push(c));
        assert(more =~= digits.push(c));
        assert(more.drop_last() =~= digits);
        assert forall|i: int| 0 <= i < digits.len() implies is_digit(#[trigger] digits[i]) by {
            assert(more[i] == digits[i]);
        }
        lemma_digits_value_is_not_negative(digits);
    }
}

proof fn lemma_digits_value_is_not_negative(s: Seq<char>)
    requires
        all_digits(s),
    ensures
        digits_value(s) >= 0,
    decreases s.len(),
{
    if s.len() > 0 {
        let before = s.drop_last();
        assert forall|i: int| 0 <= i < before.len() implies is_digit(#[trigger] before[i]) by {
            assert(before[i] == s[i]);
        }
        lemma_digits_value_is_not_negative(before);
        assert(is_digit(s[s.len() - 1]));
    }
}

/// Joining goes part by part: nothing joins to nothing, one part to itself, and one more part goes
/// behind a comma.
pub proof fn lists_are_joined_part_by_part(parts: Seq<Seq<char>>, part: Seq<char>)
    ensures
        comma_joined(Seq::empty()).len() == 0,
        comma_joined(seq![part]) == part,
        parts.len() > 0 ==> comma_joined(parts.push(part)) == comma_joined(parts) + seq![','] + part,
{
    reveal_with_fuel(comma_joined, 2);
    assert(seq![part].drop_last() =~= Seq::empty());
    assert(comma_joined(seq![part]) =~= part);
    assert(parts.push(part).drop_last() =~= parts);
}

/// No piece of a text holds a comma, and there is one piece more than there are commas.
pub proof fn pieces_hold_no_commas(s: Seq<char>)
    ensures
        forall|i: int| 0 <= i < comma_split(s).len() ==> !(#[trigger] comma_split(s)[i]).contains(','),
        comma_split(s).len() == 1 + s.filter(|c: char| c == ',').len(),
    decreases s.len(),
{
    reveal(Seq::filter);
    if s.len() > 0 {
        let before = comma_split(s.drop_last());
        pieces_hold_no_commas(s.drop_last());
        assert forall|i: int| 0 <= i < comma_split(s).len() implies !(
        #[trigger] comma_split(s)[i]).contains(',') by {
            if i < before.len() - 1 {
                assert(comma_split(s)[i] == before[i]);
            } else if s.last() == ',' && i == before.len() - 1 {
                assert(comma_split(s)[i] == before[i]);
            } else if s.last() != ',' {
                let last = before[before.len() - 1];
                assert(comma_split(s)[i] == last.push(s.last()));
                if last.push(s.last()).contains(',') {
                    let k = choose|k: int|
                        0 <= k < last.push(s.last()).len() && last.push(s.last())[k] == ',';
                    assert(last[k] == ',');
                }
            }
        }
    }
}

/// The views of strings are those of the strings, in order, and that of a missing one is missing.
pub proof fn the_views_of_strings_are_theirs(list: Seq<String>, text: Option<String>)
    ensures
        strings_view(list).len() == list.len(),
        forall|i: int| 0 <= i < list.len() ==> #[trigger] strings_view(list)[i] == list[i]@,
        text matches Some(held) ==> optional_text(text) == Some(held@),
        text is None ==> optional_text(text) is None,
{
}

} // verus!
