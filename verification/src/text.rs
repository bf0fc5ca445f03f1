//! Text helpers shared by the parser and the code generator: character
//! classes, decimal numbers, joining and trimming of lines.

use vstd::prelude::*;

verus! {

/// Whether a character has the Unicode `White_Space` property: the result of
/// `char::is_whitespace`.
pub uninterp spec fn char_is_whitespace(c: char) -> bool;

/// Whether a character has the Unicode `Alphabetic` property: the result of
/// `char::is_alphabetic`.
pub uninterp spec fn char_is_alphabetic(c: char) -> bool;

/// Whether a character is in one of the Unicode number categories: the
/// result of `char::is_numeric`.
pub uninterp spec fn char_is_numeric(c: char) -> bool;

/// `char::is_whitespace` of std: its result depends on the character alone
/// and is named [`char_is_whitespace`].
pub assume_specification[ char::is_whitespace ](c: char) -> (b: bool)
    ensures
        b == char_is_whitespace(c),
;

/// `char::is_alphabetic` of std: its result depends on the character alone
/// and is named [`char_is_alphabetic`].
pub assume_specification[ char::is_alphabetic ](c: char) -> (b: bool)
    ensures
        b == char_is_alphabetic(c),
;

/// `char::is_numeric` of std: its result depends on the character alone and
/// is named [`char_is_numeric`].
pub assume_specification[ char::is_numeric ](c: char) -> (b: bool)
    ensures
        b == char_is_numeric(c),
;

/// The character of a decimal digit.
pub open spec fn digit(d: int) -> char
    recommends
        0 <= d < 10,
{
    if d == 0 {
        '0'
    } else if d == 1 {
        '1'
    } else if d == 2 {
        '2'
    } else if d == 3 {
        '3'
    } else if d == 4 {
        '4'
    } else if d == 5 {
        '5'
    } else if d == 6 {
        '6'
    } else if d == 7 {
        '7'
    } else if d == 8 {
        '8'
    } else {
        '9'
    }
}

/// The decimal digits of a natural number, most significant first, without
/// leading zeros.
pub open spec fn digits(n: nat) -> Seq<char>
    decreases n,
{
    if n < 10 {
        seq![digit(n as int)]
    } else {
        digits(n / 10).push(digit((n % 10) as int))
    }
}

/// An integer in decimal, with a minus sign in front when it is negative.
pub open spec fn decimal(v: int) -> Seq<char> {
    if v < 0 {
        seq!['-'] + digits((-v) as nat)
    } else {
        digits(v as nat)
    }
}

fn digit_text(d: u64) -> (s: &'static str)
    requires
        d < 10,
    ensures
        s@ == seq![digit(d as int)],
{
    proof {
        reveal_strlit("0");
        reveal_strlit("1");
        reveal_strlit("2");
        reveal_strlit("3");
        reveal_strlit("4");
        reveal_strlit("5");
        reveal_strlit("6");
        reveal_strlit("7");
        reveal_strlit("8");
        reveal_strlit("9");
    }
    let s = if d == 0 {
        "0"
    } else if d == 1 {
        "1"
    } else if d == 2 {
        "2"
    } else if d == 3 {
        "3"
    } else if d == 4 {
        "4"
    } else if d == 5 {
        "5"
    } else if d == 6 {
        "6"
    } else if d == 7 {
        "7"
    } else if d == 8 {
        "8"
    } else {
        "9"
    };
    assert(s@ =~= seq![digit(d as int)]);
    s
}

fn digits_string(n: u64) -> (s: String)
    ensures
        s@ == digits(n as nat),
    decreases n,
{
    if n < 10 {
        String::from_str(digit_text(n))
    } else {
        let mut s = digits_string(n / 10);
        s.append(digit_text(n % 10));
        assert(s@ =~= digits(n as nat));
        s
    }
}

/// The decimal text of an integer.
pub fn decimal_string(v: i64) -> (s: String)
    ensures
        s@ == decimal(v as int),
{
    if v < 0 {
        let magnitude: u64 = if v == i64::MIN {
            9223372036854775808u64
        } else {
            (-v) as u64
        };
        proof {
            reveal_strlit("-");
        }
        let mut s = String::from_str("-");
        let d = digits_string(magnitude);
        s.append(d.as_str());
        assert(s@ =~= decimal(v as int));
        s
    } else {
        digits_string(v as u64)
    }
}

/// The values of a vector of strings.
pub open spec fn texts(v: Seq<String>) -> Seq<Seq<char>> {
    v.map_values(|s: String| s@)
}

/// The lines joined into one text with a line feed between each two.
pub open spec fn joined(lines: Seq<Seq<char>>) -> Seq<char>
    decreases lines.len(),
{
    if lines.len() == 0 {
        Seq::empty()
    } else if lines.len() == 1 {
        lines[0]
    } else {
        joined(lines.drop_last()) + seq!['\n'] + lines.last()
    }
}

/// The number of whitespace characters that the text starts with.
pub open spec fn leading_whitespace(text: Seq<char>) -> nat
    decreases text.len(),
{
    if text.len() > 0 && char_is_whitespace(text[0]) {
        1 + leading_whitespace(text.skip(1))
    } else {
        0
    }
}

/// The text without the whitespace that it starts with.
pub open spec fn trimmed_start(text: Seq<char>) -> Seq<char> {
    text.skip(leading_whitespace(text) as int)
}

/// Trimming leaves no more than there was.
pub proof fn lemma_leading_whitespace_bound(text: Seq<char>)
    ensures
        leading_whitespace(text) <= text.len(),
        trimmed_start(text).len() <= text.len(),
    decreases text.len(),
{
    if text.len() > 0 && char_is_whitespace(text[0]) {
        lemma_leading_whitespace_bound(text.skip(1));
    }
}

/// Counting on from `k` leading whitespace characters: the count of the
/// whole is `k` plus the count of what follows them.
proof fn lemma_leading_whitespace_step(text: Seq<char>, k: nat)
    requires
        k <= text.len(),
        forall|i: int| 0 <= i < k ==> char_is_whitespace(#[trigger] text[i]),
    ensures
        leading_whitespace(text) == k + leading_whitespace(text.skip(k as int)),
    decreases k,
{
    if k == 0 {
        assert(text.skip(0) =~= text);
    } else {
        let tail = text.skip(1);
        assert forall|i: int| 0 <= i < k - 1 implies char_is_whitespace(#[trigger] tail[i]) by {
            assert(tail[i] == text[i + 1]);
        }
        lemma_leading_whitespace_step(tail, (k - 1) as nat);
        assert(tail.skip((k - 1) as int) =~= text.skip(k as int));
        assert(char_is_whitespace(text[0]));
    }
}

/// The lines as one text, as [`joined`] gives it.
pub fn join_lines(lines: &Vec<String>) -> (text: String)
    ensures
        text@ == joined(texts(lines@)),
{
    let ghost views = texts(lines@);
    let mut text = String::new();
    proof {
        reveal_strlit("\n");
    }
    let mut i: usize = 0;
    while i < lines.len()
        invariant
            i <= lines.len(),
            views == texts(lines@),
            text@ == joined(views.take(i as int)),
            "\n"@ == seq!['\n'],
        decreases lines.len() - i,
    {
        if i > 0 {
            text.append("\n");
        }
        text.append(lines[i].as_str());
        proof {
            let next = views.take(i + 1);
            assert(next.drop_last() =~= views.take(i as int));
            assert(next.last() == lines[i as int]@);
            if i == 0 {
                assert(text@ =~= next[0]);
            }
        }
        i += 1;
    }
    assert(views.take(lines.len() as int) =~= views);
    text
}

/// The text without the whitespace that it starts with.
pub fn trim_start(text: &str) -> (r: &str)
    ensures
        r@ == trimmed_start(text@),
{
    let n: usize = text.unicode_len();
    let mut k: usize = 0;
    while k < n && text.get_char(k).is_whitespace()
        invariant
            k <= n,
            n == text@.len(),
            forall|i: int| 0 <= i < k ==> char_is_whitespace(#[trigger] text@[i]),
        decreases n - k,
    {
        k += 1;
    }
    proof {
        lemma_leading_whitespace_step(text@, k as nat);
        let tail = text@.skip(k as int);
        if k < n {
            assert(tail[0] == text@[k as int]);
        }
        assert(leading_whitespace(tail) == 0);
    }
    text.substring_char(k, n)
}

/// Whether two string slices hold the same characters.
pub fn same_text(a: &str, b: &str) -> (r: bool)
    ensures
        r == (a@ == b@),
{
    let x = String::from_str(a);
    let y = String::from_str(b);
    x == y
}

/// The value of a decimal digit.
pub open spec fn digit_value(c: char) -> Option<int> {
    if c == '0' {
        Some(0)
    } else if c == '1' {
        Some(1)
    } else if c == '2' {
        Some(2)
    } else if c == '3' {
        Some(3)
    } else if c == '4' {
        Some(4)
    } else if c == '5' {
        Some(5)
    } else if c == '6' {
        Some(6)
    } else if c == '7' {
        Some(7)
    } else if c == '8' {
        Some(8)
    } else if c == '9' {
        Some(9)
    } else {
        None
    }
}

/// Every character of the text is a decimal digit.
pub open spec fn all_digits(text: Seq<char>) -> bool {
    forall|i: int| 0 <= i < text.len() ==> digit_value(#[trigger] text[i]) is Some
}

/// The number that a text of decimal digits stands for.
pub open spec fn digits_value(text: Seq<char>) -> int
    decreases text.len(),
{
    if text.len() == 0 {
        0
    } else {
        digits_value(text.drop_last()) * 10 + digit_value(text.last()).unwrap()
    }
}

/// The digits of a decimal number text: the text without its sign.
pub open spec fn unsigned_part(text: Seq<char>) -> Seq<char> {
    if text.len() > 0 && (text[0] == '-' || text[0] == '+') {
        text.skip(1)
    } else {
        text
    }
}

/// The 32-bit integer that a text stands for: an optional sign and at least
/// one decimal digit, nothing else, with a value that fits.
pub open spec fn decimal_i32(text: Seq<char>) -> Option<i32> {
    let body = unsigned_part(text);
    let value = if text.len() > 0 && text[0] == '-' {
        -digits_value(body)
    } else {
        digits_value(body)
    };
    if body.len() > 0 && all_digits(body) && i32::MIN <= value <= i32::MAX {
        Some(value as i32)
    } else {
        None
    }
}

/// The value of digits is at least the value of any of their prefixes.
proof fn lemma_digits_value_grows(text: Seq<char>, k: int)
    requires
        all_digits(text),
        0 <= k <= text.len(),
    ensures
        0 <= digits_value(text.take(k)) <= digits_value(text),
    decreases text.len() - k,
{
    lemma_digits_value_nonnegative(text.take(k));
    if k == text.len() {
        assert(text.take(k) =~= text);
    } else {
        lemma_digits_value_grows(text, k + 1);
        let longer = text.take(k + 1);
        assert(longer.drop_last() =~= text.take(k));
        assert(longer.last() == text[k]);
    }
}

proof fn lemma_digits_value_nonnegative(text: Seq<char>)
    requires
        all_digits(text),
    ensures
        0 <= digits_value(text),
    decreases text.len(),
{
    if text.len() > 0 {
        lemma_digits_value_nonnegative(text.drop_last());
        assert(text.last() == text[text.len() - 1]);
    }
}

fn digit_of(c: char) -> (r: Option<i64>)
    ensures
        match r {
            Some(d) => digit_value(c) == Some(d as int) && 0 <= d <= 9,
            None => digit_value(c) is None,
        },
{
    if c == '0' {
        Some(0)
    } else if c == '1' {
        Some(1)
    } else if c == '2' {
        Some(2)
    } else if c == '3' {
        Some(3)
    } else if c == '4' {
        Some(4)
    } else if c == '5' {
        Some(5)
    } else if c == '6' {
        Some(6)
    } else if c == '7' {
        Some(7)
    } else if c == '8' {
        Some(8)
    } else if c == '9' {
        Some(9)
    } else {
        None
    }
}

/// The digits of a number are decimal digits, at least one, and stand for
/// the number.
pub proof fn lemma_digits_round_trip(n: nat)
    ensures
        digits(n).len() >= 1,
        all_digits(digits(n)),
        digits_value(digits(n)) == n,
    decreases n,
{
    if n < 10 {
        assert(digits(n).drop_last() =~= Seq::empty());
        assert(digits_value(digits(n).drop_last()) == 0);
        assert(digits(n).last() == digit(n as int));
    } else {
        lemma_digits_round_trip(n / 10);
        let shorter = digits(n / 10);
        let all = digits(n);
        assert(all.drop_last() =~= shorter);
        assert(all.last() == digit((n % 10) as int));
        assert forall|i: int| 0 <= i < all.len() implies digit_value(#[trigger] all[i]) is Some by {
            if i < shorter.len() {
                assert(all[i] == shorter[i]);
            }
        }
    }
}

/// Reading a number back from its decimal text gives the number: no two
/// numbers have the same decimal text.
pub proof fn lemma_decimal_round_trip(v: int)
    requires
        i32::MIN <= v <= i32::MAX,
    ensures
        decimal_i32(decimal(v)) == Some(v as i32),
{
    let text = decimal(v);
    if v < 0 {
        let magnitude = (-v) as nat;
        lemma_digits_round_trip(magnitude);
        assert(text[0] == '-');
        assert(unsigned_part(text) =~= digits(magnitude));
    } else {
        lemma_digits_round_trip(v as nat);
        let first = digits(v as nat)[0];
        assert(digit_value(first) is Some);
        assert(unsigned_part(text) == text);
    }
}

/// Reads a 32-bit integer in decimal.
pub fn parse_i32(text: &str) -> (r: Option<i32>)
    ensures
        r == decimal_i32(text@),
{
    let given: usize = text.unicode_len();
    if given == 0 {
        return None;
    }
    let first = text.get_char(0);
    let negative = first == '-';
    let start: usize = if first == '-' || first == '+' {
        1
    } else {
        0
    };
    if start == given {
        return None;
    }
    let ghost body = unsigned_part(text@);
    let mut value: i64 = 0;
    let mut i: usize = start;
    while i < given
        invariant
            start <= i <= given,
            given == text@.len(),
            body == text@.skip(start as int),
            body == unsigned_part(text@),
            all_digits(body.take(i - start)),
            value == digits_value(body.take(i - start)),
            0 <= value <= 2147483648,
        decreases given - i,
    {
        let ghost seen = body.take(i - start);
        let ghost longer = body.take(i + 1 - start);
        proof {
            assert(longer.drop_last() =~= seen);
            assert(longer.last() == text@[i as int]);
        }
        match digit_of(text.get_char(i)) {
            Some(d) => {
                value = value * 10 + d;
                proof {
                    assert forall|j: int| 0 <= j < longer.len() implies digit_value(
                        #[trigger] longer[j],
                    ) is Some by {
                        if j < seen.len() {
                            assert(longer[j] == seen[j]);
                        }
                    }
                }
                if value > 2147483648 {
                    proof {
                        if all_digits(body) {
                            lemma_digits_value_grows(body, i + 1 - start);
                            assert(digits_value(body) > 2147483648);
                        }
                    }
                    return None;
                }
            },
            None => {
                assert(digit_value(body[i - start]) is None);
                assert(!all_digits(body));
                return None;
            },
        }
        i += 1;
    }
    assert(body.take(given - start) =~= body);
    if negative {
        Some((-value) as i32)
    } else if value <= 2147483647 {
        Some(value as i32)
    } else {
        None
    }
}

} // verus!
