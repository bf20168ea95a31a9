//! Text primitives: trimming, comparison, decimal digits.
use vstd::prelude::*;

verus! {

/// The characters with the Unicode property `White_Space`.
pub open spec fn is_white_space(c: char) -> bool {
    ||| '\u{0009}' <= c <= '\u{000d}'
    ||| c == '\u{0020}'
    ||| c == '\u{0085}'
    ||| c == '\u{00a0}'
    ||| c == '\u{1680}'
    ||| '\u{2000}' <= c <= '\u{200a}'
    ||| c == '\u{2028}'
    ||| c == '\u{2029}'
    ||| c == '\u{202f}'
    ||| c == '\u{205f}'
    ||| c == '\u{3000}'
}

/// `s` without its leading white space.
pub open spec fn trim_start(s: Seq<char>) -> Seq<char>
    decreases s.len(),
{
    if s.len() > 0 && is_white_space(s[0]) {
        trim_start(s.drop_first())
    } else {
        s
    }
}

/// `s` without its trailing white space.
pub open spec fn trim_end(s: Seq<char>) -> Seq<char>
    decreases s.len(),
{
    if s.len() > 0 && is_white_space(s.last()) {
        trim_end(s.drop_last())
    } else {
        s
    }
}

/// `s` without the white space at its two ends.
pub open spec fn trimmed(s: Seq<char>) -> Seq<char> {
    trim_end(trim_start(s))
}

/// The contents of a list of strings.
pub open spec fn texts(list: Seq<String>) -> Seq<Seq<char>> {
    list.map_values(|s: String| s@)
}

/// The content of an optional string.
pub open spec fn text_option(value: Option<String>) -> Option<Seq<char>> {
    match value {
        Some(text) => Some(text@),
        None => None,
    }
}

/// A character outside `A..=Z` as it is; one inside it as its lower case letter.
pub open spec fn ascii_lower(c: char) -> char {
    if 'A' <= c <= 'Z' {
        (c as u32 + 32) as char
    } else {
        c
    }
}

/// Whether two texts are equal up to the case of ASCII letters.
pub open spec fn same_ignoring_ascii_case(a: Seq<char>, b: Seq<char>) -> bool {
    &&& a.len() == b.len()
    &&& forall|i: int| 0 <= i < a.len() ==> ascii_lower(#[trigger] a[i]) == ascii_lower(b[i])
}

/// The character of the digit `d`.
pub open spec fn digit_char(d: int) -> char {
    if d == 0 {
        '0'
    } else if d == 1 {
        '1'
    } else if d == 2 {
        '2'
    } else if d == 3 {
        '3'
    } else if d == 4 {
        '4'
    } else if d == 5 {
        '5'
    } else if d == 6 {
        '6'
    } else if d == 7 {
        '7'
    } else if d == 8 {
        '8'
    } else {
        '9'
    }
}

/// Decimal notation of `n`, without leading zeros.
pub open spec fn decimal(n: nat) -> Seq<char>
    decreases n,
{
    if n < 10 {
        seq![digit_char(n as int)]
    } else {
        decimal(n / 10).push(digit_char((n % 10) as int))
    }
}

/// `s` filled up with zeros on the left to `width` characters.
pub open spec fn zero_filled(s: Seq<char>, width: nat) -> Seq<char> {
    if s.len() >= width {
        s
    } else {
        Seq::new((width - s.len()) as nat, |i: int| '0') + s
    }
}

/// Decimal notation of an integer, with a sign where it is negative.
pub open spec fn signed_decimal(n: int) -> Seq<char> {
    if n >= 0 {
        decimal(n as nat)
    } else {
        seq!['-'] + decimal((-n) as nat)
    }
}

/// Decimal notation of an integer filled up with zeros to `width` characters, the sign included.
pub open spec fn signed_zero_filled(n: int, width: nat) -> Seq<char> {
    if n >= 0 {
        zero_filled(decimal(n as nat), width)
    } else {
        seq!['-'] + zero_filled(decimal((-n) as nat), if width == 0 { 0 } else { (width - 1) as nat })
    }
}

pub open spec fn is_digit(c: char) -> bool {
    '0' <= c <= '9'
}

/// Whether every character is a decimal digit.
pub open spec fn all_digits(s: Seq<char>) -> bool {
    forall|i: int| 0 <= i < s.len() ==> is_digit(#[trigger] s[i])
}

/// The number that a sequence of decimal digits denotes.
pub open spec fn digits_value(s: Seq<char>) -> int
    decreases s.len(),
{
    if s.len() == 0 {
        0
    } else {
        digits_value(s.drop_last()) * 10 + (s.last() as int - '0' as int)
    }
}

/// The items of `list`, joined by commas.
pub open spec fn comma_joined(list: Seq<Seq<char>>) -> Seq<char>
    decreases list.len(),
{
    if list.len() == 0 {
        Seq::empty()
    } else if list.len() == 1 {
        list[0]
    } else {
        comma_joined(list.drop_last()) + seq![',', ' '] + list.last()
    }
}

fn white_space(c: char) -> (r: bool)
    ensures
        r == is_white_space(c),
{
    ('\u{0009}' <= c && c <= '\u{000d}') || c == '\u{0020}' || c == '\u{0085}' || c == '\u{00a0}' || c
        == '\u{1680}' || ('\u{2000}' <= c && c <= '\u{200a}') || c == '\u{2028}' || c == '\u{2029}' || c
        == '\u{202f}' || c == '\u{205f}' || c == '\u{3000}'
}

/// `s` without the white space at its two ends.
pub fn trim(s: &str) -> (r: &str)
    ensures
        r@ == trimmed(s@),
{
    let len: usize = s.unicode_len();
    let mut from: usize = 0;
    assert(s@.subrange(0, len as int) =~= s@);
    while from < len && white_space(s.get_char(from))
        invariant
            len == s@.len(),
            from <= len,
            trim_start(s@) == trim_start(s@.subrange(from as int, len as int)),
        decreases len - from,
    {
        proof {
            let rest = s@.subrange(from as int, len as int);
            assert(rest.drop_first() =~= s@.subrange(from + 1, len as int));
        }
        from = from + 1;
    }
    let mut to: usize = len;
    while to > from && white_space(s.get_char(to - 1))
        invariant
            len == s@.len(),
            from <= to <= len,
            trim_end(s@.subrange(from as int, len as int)) == trim_end(
                s@.subrange(from as int, to as int),
            ),
        decreases to,
    {
        proof {
            let rest = s@.subrange(from as int, to as int);
            assert(rest.drop_last() =~= s@.subrange(from as int, to - 1));
        }
        to = to - 1;
    }
    s.substring_char(from, to)
}

/// Whether two texts are the same.
pub fn same(a: &str, b: &str) -> (r: bool)
    ensures
        r == (a@ == b@),
{
    a.to_owned() == b.to_owned()
}

fn lower(c: char) -> (r: u32)
    ensures
        r == ascii_lower(c) as u32,
{
    if 'A' <= c && c <= 'Z' {
        c as u32 + 32
    } else {
        c as u32
    }
}

/// Whether two texts are equal up to the case of ASCII letters.
pub fn same_ignoring_case(a: &str, b: &str) -> (r: bool)
    ensures
        r == same_ignoring_ascii_case(a@, b@),
{
    let len: usize = a.unicode_len();
    if len != b.unicode_len() {
        return false;
    }
    let mut i: usize = 0;
    while i < len
        invariant
            len == a@.len(),
            len == b@.len(),
            i <= len,
            forall|j: int| 0 <= j < i ==> ascii_lower(#[trigger] a@[j]) == ascii_lower(b@[j]),
        decreases len - i,
    {
        if lower(a.get_char(i)) != lower(b.get_char(i)) {
            assert(ascii_lower(a@[i as int]) != ascii_lower(b@[i as int]));
            return false;
        }
        i = i + 1;
    }
    true
}

fn digit_text(d: u64) -> (r: &'static str)
    requires
        d < 10,
    ensures
        r@ == seq![digit_char(d as int)],
{
    proof {
        reveal_strlit("0");
        reveal_strlit("1");
        reveal_strlit("2");
        reveal_strlit("3");
        reveal_strlit("4");
        reveal_strlit("5");
        reveal_strlit("6");
        reveal_strlit("7");
        reveal_strlit("8");
        reveal_strlit("9");
    }
    if d == 0 {
        "0"
    } else if d == 1 {
        "1"
    } else if d == 2 {
        "2"
    } else if d == 3 {
        "3"
    } else if d == 4 {
        "4"
    } else if d == 5 {
        "5"
    } else if d == 6 {
        "6"
    } else if d == 7 {
        "7"
    } else if d == 8 {
        "8"
    } else {
        "9"
    }
}

/// Decimal notation of `n`.
pub fn decimal_text(n: u64) -> (r: String)
    ensures
        r@ == decimal(n as nat),
    decreases n,
{
    if n < 10 {
        digit_text(n).to_owned()
    } else {
        let mut text: String = decimal_text(n / 10);
        text.append(digit_text(n % 10));
        proof {
            assert(text@ =~= decimal((n / 10) as nat).push(digit_char((n % 10) as int)));
        }
        text
    }
}

/// Decimal notation of `n`, filled up with zeros on the left to `width` characters.
pub fn zero_filled_text(n: u64, width: usize) -> (r: String)
    ensures
        r@ == zero_filled(decimal(n as nat), width as nat),
{
    let digits: String = decimal_text(n);
    let len: usize = digits.as_str().unicode_len();
    if len >= width {
        return digits;
    }
    let mut text: String = String::new();
    let mut filled: usize = 0;
    proof {
        reveal_strlit("0");
    }
    while filled < width - len
        invariant
            len < width,
            filled <= width - len,
            text@ == Seq::new(filled as nat, |i: int| '0'),
            "0"@ == seq!['0'],
        decreases width - len - filled,
    {
        text.append("0");
        filled = filled + 1;
        assert(text@ =~= Seq::new(filled as nat, |i: int| '0'));
    }
    text.append(digits.as_str());
    text
}

fn magnitude(n: i64) -> (r: u64)
    requires
        n < 0,
    ensures
        r == -n,
{
    if n == i64::MIN {
        9223372036854775808u64
    } else {
        (-n) as u64
    }
}

/// Decimal notation of `n`, with a sign where it is negative.
pub fn signed_decimal_text(n: i64) -> (r: String)
    ensures
        r@ == signed_decimal(n as int),
{
    if n >= 0 {
        decimal_text(n as u64)
    } else {
        proof {
            reveal_strlit("-");
        }
        let mut text: String = "-".to_owned();
        text.append(decimal_text(magnitude(n)).as_str());
        assert(text@ =~= seq!['-'] + decimal((-n) as nat));
        text
    }
}

/// Decimal notation of `n`, filled up with zeros to `width` characters, the sign included.
pub fn signed_zero_filled_text(n: i64, width: usize) -> (r: String)
    ensures
        r@ == signed_zero_filled(n as int, width as nat),
{
    if n >= 0 {
        zero_filled_text(n as u64, width)
    } else {
        proof {
            reveal_strlit("-");
        }
        let inner: usize = if width == 0 {
            0
        } else {
            width - 1
        };
        let mut text: String = "-".to_owned();
        text.append(zero_filled_text(magnitude(n), inner).as_str());
        assert(text@ =~= signed_zero_filled(n as int, width as nat));
        text
    }
}

/// The number that the characters `from..to` of `s` denote, where all of them are decimal digits.
pub fn digits_number(s: &str, from: usize, to: usize) -> (r: Option<u32>)
    requires
        from <= to <= s@.len(),
        to - from <= 9,
    ensures
        match r {
            Some(n) => all_digits(s@.subrange(from as int, to as int)) && n == digits_value(
                s@.subrange(from as int, to as int),
            ),
            None => !all_digits(s@.subrange(from as int, to as int)),
        },
{
    let mut value: u32 = 0;
    let mut i: usize = from;
    proof {
        lemma_pow10_bounds();
    }
    while i < to
        invariant
            from <= i <= to <= s@.len(),
            to - from <= 9,
            all_digits(s@.subrange(from as int, i as int)),
            value == digits_value(s@.subrange(from as int, i as int)),
            value < pow10((i - from) as nat),
            forall|k: nat| k <= 9 ==> #[trigger] pow10(k) <= 1_000_000_000,
        decreases to - i,
    {
        let c: char = s.get_char(i);
        if !('0' <= c && c <= '9') {
            assert(!is_digit(s@.subrange(from as int, to as int)[i - from]));
            return None;
        }
        proof {
            let head = s@.subrange(from as int, i as int);
            let next = s@.subrange(from as int, i + 1);
            assert(next.drop_last() =~= head);
            assert(next.last() == c);
            assert forall|j: int| 0 <= j < next.len() implies is_digit(#[trigger] next[j]) by {
                if j < head.len() {
                    assert(next[j] == head[j]);
                }
            }
            assert(pow10((i + 1 - from) as nat) == 10 * pow10((i - from) as nat));
        }
        value = value * 10 + (c as u32 - '0' as u32);
        i = i + 1;
    }
    Some(value)
}

spec fn pow10(k: nat) -> int
    decreases k,
{
    if k == 0 {
        1
    } else {
        10 * pow10((k - 1) as nat)
    }
}

proof fn lemma_pow10_bounds()
    ensures
        forall|k: nat| k <= 9 ==> #[trigger] pow10(k) <= 1_000_000_000,
{
    assert forall|k: nat| k <= 9 implies #[trigger] pow10(k) <= 1_000_000_000 by {
        reveal_with_fuel(pow10, 11);
    }
}

/// Digits denote a number that has no more digits.
pub proof fn lemma_digits_value_bounds(s: Seq<char>)
    requires
        all_digits(s),
    ensures
        digits_value(s) >= 0,
        s.len() <= 2 ==> digits_value(s) < 100,
        s.len() <= 4 ==> digits_value(s) < 10_000,
    decreases s.len(),
{
    if s.len() > 0 {
        let head = s.drop_last();
        assert forall|i: int| 0 <= i < head.len() implies is_digit(#[trigger] head[i]) by {
            assert(is_digit(s[i]));
        }
        assert(is_digit(s[s.len() - 1]));
        lemma_digits_value_bounds(head);
        lemma_digits_value_pow10(head);
        if s.len() <= 4 {
            assert(pow10(0) == 1 && pow10(1) == 10 && pow10(2) == 100 && pow10(3) == 1000) by {
                reveal_with_fuel(pow10, 5);
            }
        }
    }
}

proof fn lemma_digits_value_pow10(s: Seq<char>)
    requires
        all_digits(s),
    ensures
        0 <= digits_value(s) < pow10(s.len()),
    decreases s.len(),
{
    if s.len() > 0 {
        let head = s.drop_last();
        assert forall|i: int| 0 <= i < head.len() implies is_digit(#[trigger] head[i]) by {
            assert(is_digit(s[i]));
        }
        assert(is_digit(s[s.len() - 1]));
        lemma_digits_value_pow10(head);
    }
}

/// A text with no white space at its ends stays as it is.
pub proof fn lemma_trimmed_of_trimmed(s: Seq<char>)
    requires
        s.len() > 0,
        !is_white_space(s[0]),
        !is_white_space(s.last()),
    ensures
        trimmed(s) == s,
{
}

proof fn lemma_trim_start(s: Seq<char>)
    ensures
        trim_start(s).len() > 0 ==> !is_white_space(trim_start(s)[0]),
    decreases s.len(),
{
    if s.len() > 0 && is_white_space(s[0]) {
        lemma_trim_start(s.drop_first());
    }
}

proof fn lemma_trim_end(s: Seq<char>)
    ensures
        trim_end(s).is_prefix_of(s),
        trim_end(s).len() > 0 ==> !is_white_space(trim_end(s).last()),
    decreases s.len(),
{
    if s.len() > 0 && is_white_space(s.last()) {
        lemma_trim_end(s.drop_last());
    }
}

/// Trimming twice changes nothing: what is trimmed has no white space at its two ends.
pub proof fn law_trimming_twice_changes_nothing(s: Seq<char>)
    ensures
        trimmed(trimmed(s)) == trimmed(s),
        trimmed(s).len() > 0 ==> !is_white_space(trimmed(s)[0]) && !is_white_space(trimmed(s).last()),
{
    let start = trim_start(s);
    lemma_trim_start(s);
    lemma_trim_end(start);
    if trimmed(s).len() > 0 {
        assert(trimmed(s)[0] == start[0]);
        lemma_trimmed_of_trimmed(trimmed(s));
    }
}

/// Two digits denote the number whose decimal notation they fill up.
pub proof fn lemma_two_digits(n: nat)
    requires
        n < 100,
    ensures
        zero_filled(decimal(n), 2).len() == 2,
        all_digits(zero_filled(decimal(n), 2)),
        digits_value(zero_filled(decimal(n), 2)) == n,
{
    reveal_with_fuel(decimal, 3);
    reveal_with_fuel(digits_value, 3);
    let two = zero_filled(decimal(n), 2);
    if n < 10 {
        assert(two =~= seq!['0', digit_char(n as int)]);
    } else {
        assert(two =~= seq![digit_char((n / 10) as int), digit_char((n % 10) as int)]);
    }
    lemma_digit_char((n / 10) as int);
    lemma_digit_char((n % 10) as int);
    assert(two.drop_last().drop_last() =~= Seq::empty());
    assert(two.drop_last().last() == two[0]);
    assert(digits_value(two) == (two[0] as int - '0' as int) * 10 + (two[1] as int - '0' as int));
}

proof fn lemma_digit_char(d: int)
    requires
        0 <= d <= 9,
    ensures
        is_digit(digit_char(d)),
        digit_char(d) as int - '0' as int == d,
{
}

/// Two texts, one after the other.
pub fn joined2(a: &str, b: &str) -> (r: String)
    ensures
        r@ == a@ + b@,
{
    let mut text: String = a.to_owned();
    text.append(b);
    text
}

/// Three texts, one after the other.
pub fn joined3(a: &str, b: &str, c: &str) -> (r: String)
    ensures
        r@ == a@ + b@ + c@,
{
    let mut text: String = joined2(a, b);
    text.append(c);
    text
}

/// Five texts, one after the other.
pub fn joined5(a: &str, b: &str, c: &str, d: &str, e: &str) -> (r: String)
    ensures
        r@ == a@ + b@ + c@ + d@ + e@,
{
    let mut text: String = joined3(a, b, c);
    text.append(d);
    text.append(e);
    text
}

/// A digit denotes its own value, and a digit behind others makes ten times their number and itself.
pub proof fn law_digits_denote_their_number(s: Seq<char>, d: int)
    requires
        0 <= d <= 9,
    ensures
        is_digit(digit_char(d)),
        digit_char(d) as int == 48 + d,
        digits_value(seq![digit_char(d)]) == d,
        digits_value(s.push(digit_char(d))) == 10 * digits_value(s) + d,
{
    assert(seq![digit_char(d)].drop_last() =~= Seq::empty());
    assert(digits_value(Seq::<char>::empty()) == 0);
    assert(s.push(digit_char(d)).drop_last() =~= s);
}

/// Only the ten decimal digits are digits.
pub proof fn law_digits_are_ten(c: char)
    ensures
        is_digit(c) <==> 48 <= c as int <= 57,
{
}

/// Decimal notation denotes the number that it writes, with digits alone and no zero in front.
pub proof fn law_decimal_denotes_its_number(n: nat)
    ensures
        decimal(n).len() >= 1,
        all_digits(decimal(n)),
        digits_value(decimal(n)) == n,
        n >= 10 ==> decimal(n).len() >= 2,
        n > 0 ==> decimal(n)[0] != '0',
    decreases n,
{
    if n < 10 {
        law_digits_denote_their_number(Seq::empty(), n as int);
    } else {
        law_decimal_denotes_its_number(n / 10);
        law_digits_denote_their_number(decimal(n / 10), (n % 10) as int);
        let head = decimal(n / 10);
        let whole = decimal(n);
        assert forall|i: int| 0 <= i < whole.len() implies is_digit(#[trigger] whole[i]) by {
            if i < head.len() {
                assert(whole[i] == head[i]);
            }
        }
        assert(whole[0] == head[0]);
    }
}

/// Filling up puts zeros in front until the width is reached, and changes nothing else.
pub proof fn law_filling_up_puts_zeros_in_front(s: Seq<char>, width: nat)
    ensures
        zero_filled(s, width).len() == if s.len() < width {
            width
        } else {
            s.len()
        },
        zero_filled(s, width).skip(zero_filled(s, width).len() - s.len()) == s,
        forall|i: int|
            0 <= i < zero_filled(s, width).len() - s.len() ==> #[trigger] zero_filled(s, width)[i]
                == '0',
{
    assert(zero_filled(s, width).skip(zero_filled(s, width).len() - s.len()) =~= s);
}

proof fn lemma_zeros_in_front(zeros: Seq<char>, s: Seq<char>)
    requires
        forall|i: int| 0 <= i < zeros.len() ==> #[trigger] zeros[i] == '0',
    ensures
        digits_value(zeros) == 0,
        digits_value(zeros + s) == digits_value(s),
    decreases zeros.len() + s.len(),
{
    if s.len() > 0 {
        lemma_zeros_in_front(zeros, s.drop_last());
        assert((zeros + s).drop_last() =~= zeros + s.drop_last());
    } else {
        assert(zeros + s =~= zeros);
        if zeros.len() > 0 {
            lemma_zeros_in_front(zeros.drop_last(), s);
            assert(zeros.drop_last() + s =~= zeros.drop_last());
        }
    }
}

/// A number filled up with zeros is still that number, in digits alone.
pub proof fn law_filled_number_denotes_its_number(n: nat, width: nat)
    ensures
        all_digits(zero_filled(decimal(n), width)),
        digits_value(zero_filled(decimal(n), width)) == n,
{
    law_decimal_denotes_its_number(n);
    let s = decimal(n);
    if s.len() < width {
        let zeros = Seq::new((width - s.len()) as nat, |i: int| '0');
        lemma_zeros_in_front(zeros, s);
        let whole = zeros + s;
        assert forall|i: int| 0 <= i < whole.len() implies is_digit(#[trigger] whole[i]) by {
            if i >= zeros.len() {
                assert(whole[i] == s[i - zeros.len()]);
            }
        }
    }
}

proof fn lemma_decimal_len(n: nat, k: nat)
    requires
        1 <= k,
        n < pow10(k),
    ensures
        decimal(n).len() <= k,
    decreases k,
{
    reveal_with_fuel(pow10, 2);
    if n >= 10 {
        assert(k >= 2) by {
            if k == 1 {
                assert(pow10(0) == 1);
                assert(pow10(1) == 10);
            }
        }
        assert(pow10(k) == 10 * pow10((k - 1) as nat));
        lemma_decimal_len(n / 10, (k - 1) as nat);
    }
}

/// A number below ten thousand takes four characters when it is filled up to four, and one below a
/// hundred takes two when it is filled up to two.
pub proof fn law_filled_number_has_its_width(n: nat)
    ensures
        n < 10_000 ==> zero_filled(decimal(n), 4).len() == 4,
        n < 100 ==> zero_filled(decimal(n), 2).len() == 2,
{
    reveal_with_fuel(pow10, 6);
    assert(pow10(4) == 10_000);
    if n < 10_000 {
        lemma_decimal_len(n, 4);
    }
    if n < 100 {
        lemma_two_digits(n);
    }
}

/// Digits that write the same number in the same width are the same digits.
pub proof fn law_digits_are_told_by_number_and_width(a: Seq<char>, b: Seq<char>)
    requires
        all_digits(a),
        all_digits(b),
        a.len() == b.len(),
        digits_value(a) == digits_value(b),
    ensures
        a == b,
    decreases a.len(),
{
    if a.len() > 0 {
        let n = a.len() - 1;
        assert(is_digit(a[n]) && is_digit(b[n]));
        assert forall|i: int| 0 <= i < n implies is_digit(#[trigger] a.drop_last()[i]) by {
            assert(is_digit(a[i]));
        }
        assert forall|i: int| 0 <= i < n implies is_digit(#[trigger] b.drop_last()[i]) by {
            assert(is_digit(b[i]));
        }
        let x = digits_value(a.drop_last());
        let y = digits_value(b.drop_last());
        let c = a.last() as int - 48;
        let d = b.last() as int - 48;
        assert(10 * x + c == 10 * y + d && 0 <= c < 10 && 0 <= d < 10);
        assert(x == y && c == d);
        law_digits_are_told_by_number_and_width(a.drop_last(), b.drop_last());
        assert(a =~= a.drop_last().push(a.last()));
        assert(b =~= b.drop_last().push(b.last()));
    } else {
        assert(a =~= b);
    }
}

/// A negative number is written as a minus sign and the number without its sign; the sign counts for
/// the width.
pub proof fn law_sign_comes_first(n: nat, width: nat)
    requires
        n > 0,
    ensures
        signed_decimal(n as int) == decimal(n),
        signed_decimal(-(n as int)) == seq!['-'] + decimal(n),
        signed_zero_filled(n as int, width) == zero_filled(decimal(n), width),
        width > 0 ==> signed_zero_filled(-(n as int), width) == seq!['-'] + zero_filled(
            decimal(n),
            (width - 1) as nat,
        ),
{
}

/// The white space of Unicode, by code point.
pub proof fn law_white_space_by_code_point(c: char)
    ensures
        is_white_space(c) <==> {
            let code = c as int;
            ||| 0x9 <= code <= 0xd
            ||| code == 0x20
            ||| code == 0x85
            ||| code == 0xa0
            ||| code == 0x1680
            ||| 0x2000 <= code <= 0x200a
            ||| code == 0x2028
            ||| code == 0x2029
            ||| code == 0x202f
            ||| code == 0x205f
            ||| code == 0x3000
        },
{
}

proof fn lemma_trim_start_cuts(s: Seq<char>) -> (from: int)
    ensures
        0 <= from <= s.len(),
        trim_start(s) == s.skip(from),
        forall|i: int| 0 <= i < from ==> is_white_space(#[trigger] s[i]),
    decreases s.len(),
{
    if s.len() > 0 && is_white_space(s[0]) {
        let rest = lemma_trim_start_cuts(s.drop_first());
        assert(s.drop_first().skip(rest) =~= s.skip(rest + 1));
        assert forall|i: int| 0 <= i < rest + 1 implies is_white_space(#[trigger] s[i]) by {
            if i > 0 {
                assert(is_white_space(s.drop_first()[i - 1]));
            }
        }
        rest + 1
    } else {
        assert(s.skip(0) =~= s);
        0
    }
}

proof fn lemma_trim_end_cuts(s: Seq<char>) -> (to: int)
    ensures
        0 <= to <= s.len(),
        trim_end(s) == s.take(to),
        forall|i: int| to <= i < s.len() ==> is_white_space(#[trigger] s[i]),
    decreases s.len(),
{
    if s.len() > 0 && is_white_space(s.last()) {
        let to = lemma_trim_end_cuts(s.drop_last());
        assert(s.drop_last().take(to) =~= s.take(to));
        assert forall|i: int| to <= i < s.len() implies is_white_space(#[trigger] s[i]) by {
            if i < s.len() - 1 {
                assert(is_white_space(s.drop_last()[i]));
            }
        }
        to
    } else {
        assert(s.take(s.len() as int) =~= s);
        s.len() as int
    }
}

/// Trimming cuts white space off the two ends and nothing else: what is left is one piece of the text,
/// everything before and behind it is white space, and it neither begins nor ends with any.
pub proof fn law_trimming_cuts_only_white_space(s: Seq<char>)
    ensures
        exists|from: int, to: int|
            {
                &&& 0 <= from <= to <= s.len()
                &&& trimmed(s) == #[trigger] s.subrange(from, to)
                &&& forall|i: int| 0 <= i < from ==> is_white_space(#[trigger] s[i])
                &&& forall|i: int| to <= i < s.len() ==> is_white_space(#[trigger] s[i])
            },
        trimmed(s).len() > 0 ==> !is_white_space(trimmed(s)[0]) && !is_white_space(trimmed(s).last()),
{
    law_trimming_twice_changes_nothing(s);
    let from = lemma_trim_start_cuts(s);
    let start = s.skip(from);
    let to = lemma_trim_end_cuts(start);
    assert(trimmed(s) =~= s.subrange(from, from + to));
    assert forall|i: int| from + to <= i < s.len() implies is_white_space(#[trigger] s[i]) by {
        assert(is_white_space(start[i - from]));
    }
}

/// Case is ignored for the 26 letters of ASCII, whose two cases lie 32 apart, and for nothing else.
pub proof fn law_case_is_ignored_for_ascii_letters(a: char, b: char)
    ensures
        ascii_lower(a) == ascii_lower(b) <==> {
            ||| a == b
            ||| 65 <= a as int <= 90 && b as int == a as int + 32
            ||| 65 <= b as int <= 90 && a as int == b as int + 32
        },
{
}

/// The first item of a joined list comes first, and a comma and a space stand before the others.
pub proof fn law_joined_list_begins_with_its_first(list: Seq<Seq<char>>)
    requires
        list.len() > 0,
    ensures
        list.len() == 1 ==> comma_joined(list) == list[0],
        list.len() > 1 ==> comma_joined(list) == list[0] + seq![',', ' '] + comma_joined(
            list.drop_first(),
        ),
    decreases list.len(),
{
    if list.len() == 2 {
        assert(list.drop_last() =~= seq![list[0]]);
        assert(list.drop_first() =~= seq![list[1]]);
        assert(comma_joined(seq![list[0]]) == list[0]);
        assert(comma_joined(seq![list[1]]) == list[1]);
    } else if list.len() > 2 {
        law_joined_list_begins_with_its_first(list.drop_last());
        assert(list.drop_last().drop_first() =~= list.drop_first().drop_last());
        assert(comma_joined(list) =~= list[0] + seq![',', ' '] + comma_joined(list.drop_first()));
    }
}

} // verus!
