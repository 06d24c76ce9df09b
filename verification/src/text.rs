//! Numbers as decimal text.
use vstd::prelude::*;
use vstd::string::StringExecFns;

verus! {

/// Text as contracts see it: a sequence of characters.
pub type Text = Seq<char>;

/// The character that stands for a digit.
pub open spec fn digit(d: nat) -> char {
    if d == 0 {
        '0'
    } else if d == 1 {
        '1'
    } else if d == 2 {
        '2'
    } else if d == 3 {
        '3'
    } else if d == 4 {
        '4'
    } else if d == 5 {
        '5'
    } else if d == 6 {
        '6'
    } else if d == 7 {
        '7'
    } else if d == 8 {
        '8'
    } else {
        '9'
    }
}

/// The decimal digits of a number, most significant first, without leading zeros.
pub open spec fn decimal(n: nat) -> Seq<char>
    decreases n,
{
    if n < 10 {
        seq![digit(n)]
    } else {
        decimal(n / 10).push(digit(n % 10))
    }
}

/// A name made of a prefix and a number.
pub open spec fn numbered_name(prefix: Seq<char>, n: nat) -> Seq<char> {
    prefix + decimal(n)
}

/// Different digits are written differently.
pub proof fn lemma_digit_injective(a: nat, b: nat)
    requires
        a < 10,
        b < 10,
        digit(a) == digit(b),
    ensures
        a == b,
{
}

/// Different numbers are written differently.
pub proof fn lemma_decimal_injective(a: nat, b: nat)
    requires
        decimal(a) == decimal(b),
    ensures
        a == b,
    decreases a,
{
    if a < 10 {
        if b >= 10 {
            lemma_decimal_length(b / 10);
            assert(decimal(b).len() >= 2);
        }
        assert(decimal(a)[0] == digit(a));
        assert(decimal(b)[0] == digit(b));
        lemma_digit_injective(a, b);
    } else {
        if b < 10 {
            lemma_decimal_length(a / 10);
            assert(decimal(a).len() >= 2);
        }
        let x = decimal(a / 10);
        let y = decimal(b / 10);
        assert(decimal(a).last() == digit(a % 10));
        assert(decimal(b).last() == digit(b % 10));
        assert(decimal(a).drop_last() =~= x);
        assert(decimal(b).drop_last() =~= y);
        lemma_decimal_injective(a / 10, b / 10);
        lemma_digit_injective(a % 10, b % 10);
    }
}

/// Every number has at least one digit.
pub proof fn lemma_decimal_length(n: nat)
    ensures
        decimal(n).len() >= 1,
    decreases n,
{
    if n >= 10 {
        lemma_decimal_length(n / 10);
    }
}

/// Names made of the same prefix and different numbers are different.
pub proof fn lemma_numbered_names_differ(prefix: Seq<char>, a: nat, b: nat)
    requires
        a != b,
    ensures
        numbered_name(prefix, a) != numbered_name(prefix, b),
{
    if numbered_name(prefix, a) == numbered_name(prefix, b) {
        let x = numbered_name(prefix, a);
        let y = numbered_name(prefix, b);
        assert(x.subrange(prefix.len() as int, x.len() as int) =~= decimal(a));
        assert(y.subrange(prefix.len() as int, y.len() as int) =~= decimal(b));
        lemma_decimal_injective(a, b);
    }
}

/// No digit of a number is a comma.
pub proof fn lemma_decimal_no_comma(n: nat, i: int)
    requires
        0 <= i < decimal(n).len(),
    ensures
        decimal(n)[i] != ',',
    decreases n,
{
    if n >= 10 {
        if i < decimal(n / 10).len() {
            lemma_decimal_no_comma(n / 10, i);
        }
    }
}

/// A name made of a prefix, a number, a comma and a second number.
pub open spec fn indexed_name(prefix: Seq<char>, a: nat, b: nat) -> Seq<char> {
    numbered_name(numbered_name(prefix, a) + ","@, b)
}

/// Names made of the same prefix and different pairs of numbers are different.
pub proof fn lemma_indexed_names_differ(prefix: Seq<char>, a: nat, b: nat, c: nat, d: nat)
    requires
        a != c || b != d,
    ensures
        indexed_name(prefix, a, b) != indexed_name(prefix, c, d),
{
    reveal_strlit(",");
    let x = decimal(a);
    let y = decimal(c);
    let n = prefix.len() as int;
    let left = indexed_name(prefix, a, b);
    let right = indexed_name(prefix, c, d);
    if left == right {
        lemma_decimal_length(a);
        lemma_decimal_length(c);
        assert(left[n + x.len()] == ',');
        assert(right[n + y.len()] == ',');
        if x.len() < y.len() {
            assert(right[n + x.len()] == y[x.len() as int]);
            lemma_decimal_no_comma(c, x.len() as int);
        } else if y.len() < x.len() {
            assert(left[n + y.len()] == x[y.len() as int]);
            lemma_decimal_no_comma(a, y.len() as int);
        } else {
            assert(left.subrange(n, n + x.len()) =~= x);
            assert(right.subrange(n, n + x.len()) =~= y);
            lemma_decimal_injective(a, c);
            assert(a == c);
            lemma_numbered_names_differ(numbered_name(prefix, a) + ","@, b, d);
        }
    }
}

/// Names whose first characters differ are different.
pub proof fn lemma_first_characters_differ(a: Seq<char>, b: Seq<char>, x: Seq<char>, y: Seq<char>)
    requires
        a.len() > 0,
        b.len() > 0,
        a[0] != b[0],
    ensures
        a + x != b + y,
{
    assert((a + x)[0] == a[0]);
    assert((b + y)[0] == b[0]);
}

/// Returns the text of a digit.
fn digit_text(d: usize) -> (text: &'static str)
    requires
        d < 10,
    ensures
        text@ == seq![digit(d as nat)],
{
    proof {
        reveal_strlit("0");
        reveal_strlit("1");
        reveal_strlit("2");
        reveal_strlit("3");
        reveal_strlit("4");
        reveal_strlit("5");
        reveal_strlit("6");
        reveal_strlit("7");
        reveal_strlit("8");
        reveal_strlit("9");
    }
    let text = if d == 0 {
        "0"
    } else if d == 1 {
        "1"
    } else if d == 2 {
        "2"
    } else if d == 3 {
        "3"
    } else if d == 4 {
        "4"
    } else if d == 5 {
        "5"
    } else if d == 6 {
        "6"
    } else if d == 7 {
        "7"
    } else if d == 8 {
        "8"
    } else {
        "9"
    };
    assert(text@ =~= seq![digit(d as nat)]);
    text
}

/// Writes a number in decimal.
pub fn decimal_text(n: u64) -> (text: String)
    ensures
        text@ == decimal(n as nat),
    decreases n,
{
    if n < 10 {
        String::from_str(digit_text(n as usize))
    } else {
        let mut text = decimal_text(n / 10);
        text.append(digit_text((n % 10) as usize));
        assert(text@ =~= decimal((n / 10) as nat).push(digit((n % 10) as nat)));
        text
    }
}

/// Makes a name of a prefix, a number, a comma and a second number.
pub fn indexed(prefix: &str, a: usize, b: usize) -> (name: String)
    ensures
        name@ == indexed_name(prefix@, a as nat, b as nat),
{
    let mut name = numbered(prefix, a);
    name.append(",");
    name.append(decimal_text(b as u64).as_str());
    name
}

/// Makes a name of a prefix and a number.
pub fn numbered(prefix: &str, n: usize) -> (name: String)
    ensures
        name@ == numbered_name(prefix@, n as nat),
{
    let mut name = String::from_str(prefix);
    name.append(decimal_text(n as u64).as_str());
    name
}

/// The digit that a character stands for, if it is one.
pub open spec fn digit_value(c: char) -> Option<nat> {
    if c == '0' {
        Some(0)
    } else if c == '1' {
        Some(1)
    } else if c == '2' {
        Some(2)
    } else if c == '3' {
        Some(3)
    } else if c == '4' {
        Some(4)
    } else if c == '5' {
        Some(5)
    } else if c == '6' {
        Some(6)
    } else if c == '7' {
        Some(7)
    } else if c == '8' {
        Some(8)
    } else if c == '9' {
        Some(9)
    } else {
        None
    }
}

/// The number that a text of decimal digits stands for. A text that is
/// empty or holds anything but digits stands for none.
pub open spec fn number(s: Seq<char>) -> Option<nat>
    decreases s.len(),
{
    if s.len() == 0 {
        None
    } else if s.len() == 1 {
        digit_value(s[0])
    } else {
        match (number(s.drop_last()), digit_value(s.last())) {
            (Some(n), Some(d)) => Some(n * 10 + d),
            _ => None,
        }
    }
}

/// The number up to `limit` that a text stands for: decimal digits, with or
/// without a plus sign before them.
pub open spec fn unsigned(s: Seq<char>, limit: u64) -> Option<u64> {
    let digits = if s.len() > 0 && s[0] == '+' {
        s.skip(1)
    } else {
        s
    };
    match number(digits) {
        Some(n) => if n <= limit {
            Some(n as u64)
        } else {
            None
        },
        None => None,
    }
}

/// The integer that a text stands for: decimal digits, with or without a plus
/// or minus sign before them.
pub open spec fn signed(s: Seq<char>) -> Option<i64> {
    if s.len() > 0 && s[0] == '-' {
        match number(s.skip(1)) {
            Some(n) => if n <= 0x8000_0000_0000_0000 {
                Some((-(n as int)) as i64)
            } else {
                None
            },
            None => None,
        }
    } else {
        match unsigned(s, 0x7fff_ffff_ffff_ffff) {
            Some(n) => Some(n as i64),
            None => None,
        }
    }
}

/// Blank characters: the white space of Unicode. These are the characters
/// U+0009 to U+000D, U+0020, U+0085, U+00A0, U+1680, U+2000 to U+200A, U+2028,
/// U+2029, U+202F, U+205F and U+3000.
pub open spec fn is_space(c: char) -> bool {
    let n = c as u32;
    ||| 0x09 <= n <= 0x0d
    ||| n == 0x20
    ||| n == 0x85
    ||| n == 0xa0
    ||| n == 0x1680
    ||| 0x2000 <= n <= 0x200a
    ||| n == 0x2028
    ||| n == 0x2029
    ||| n == 0x202f
    ||| n == 0x205f
    ||| n == 0x3000
}

/// The first position from `from` up to `to` that holds no blank, or `to`.
pub open spec fn first_non_space(s: Seq<char>, from: int, to: int) -> int
    decreases to - from,
{
    if from >= to {
        to
    } else if is_space(s[from]) {
        first_non_space(s, from + 1, to)
    } else {
        from
    }
}

/// The position after the last one between `from` and `to` that holds no blank, or `from`.
pub open spec fn last_non_space(s: Seq<char>, from: int, to: int) -> int
    decreases to - from,
{
    if to <= from {
        from
    } else if is_space(s[to - 1]) {
        last_non_space(s, from, to - 1)
    } else {
        to
    }
}

/// The first position from `from` up to `to` that holds a comma, if there is one.
pub open spec fn first_comma(s: Seq<char>, from: int, to: int) -> Option<int>
    decreases to - from,
{
    if from >= to {
        None
    } else if s[from] == ',' {
        Some(from)
    } else {
        first_comma(s, from + 1, to)
    }
}

/// The two numbers that a text of the form `(a, b)` stands for. Blanks may
/// stand around the brackets, the numbers and the comma; `a` is no larger
/// than `limit_a` and `b` no larger than `limit_b`.
pub open spec fn pair(s: Seq<char>, limit_a: u64, limit_b: u64) -> Option<(u64, u64)> {
    let a = first_non_space(s, 0, s.len() as int);
    let b = last_non_space(s, a, s.len() as int);
    if b - a >= 2 && s[a] == '(' && s[b - 1] == ')' {
        match first_comma(s, a + 1, b - 1) {
            Some(k) => {
                let left_from = first_non_space(s, a + 1, k);
                let left_to = last_non_space(s, left_from, k);
                let right_from = first_non_space(s, k + 1, b - 1);
                let right_to = last_non_space(s, right_from, b - 1);
                match (
                    unsigned(s.subrange(left_from, left_to), limit_a),
                    unsigned(s.subrange(right_from, right_to), limit_b),
                ) {
                    (Some(x), Some(y)) => Some((x, y)),
                    _ => None,
                }
            },
            None => None,
        }
    } else {
        None
    }
}

/// A digit is read as the number it was written for.
pub proof fn lemma_digit_round_trip(d: nat)
    requires
        d < 10,
    ensures
        digit_value(digit(d)) == Some(d),
        digit(d) != '+',
        digit(d) != '-',
        digit(d) != ',',
        !is_space(digit(d)),
        digit(d) != '(',
        digit(d) != ')',
{
}

/// The digits of a number are read as that number.
pub proof fn lemma_number_of_decimal(n: nat)
    ensures
        number(decimal(n)) == Some(n),
    decreases n,
{
    if n < 10 {
        lemma_digit_round_trip(n);
    } else {
        lemma_number_of_decimal(n / 10);
        lemma_decimal_length(n / 10);
        lemma_digit_round_trip(n % 10);
        let s = decimal(n);
        assert(s.drop_last() =~= decimal(n / 10));
        assert(s.last() == digit(n % 10));
    }
}

/// Every character of the digits of a number is a digit: no sign, no comma,
/// no bracket and no blank.
pub proof fn lemma_decimal_characters(n: nat, i: int)
    requires
        0 <= i < decimal(n).len(),
    ensures
        decimal(n)[i] != '+',
        decimal(n)[i] != '-',
        decimal(n)[i] != ',',
        decimal(n)[i] != '(',
        decimal(n)[i] != ')',
        !is_space(decimal(n)[i]),
    decreases n,
{
    if n < 10 {
        lemma_digit_round_trip(n);
    } else {
        if i < decimal(n / 10).len() {
            lemma_decimal_characters(n / 10, i);
        } else {
            lemma_digit_round_trip(n % 10);
        }
    }
}

/// A number written in decimal is read as that number, if it is within the limit.
pub proof fn lemma_unsigned_of_decimal(n: nat, limit: u64)
    requires
        n <= limit,
    ensures
        unsigned(decimal(n), limit) == Some(n as u64),
{
    lemma_decimal_length(n);
    lemma_decimal_characters(n, 0);
    lemma_number_of_decimal(n);
}

/// Where only blanks are skipped and the first character is none, nothing is skipped.
pub proof fn lemma_no_space_to_skip(s: Seq<char>, from: int, to: int)
    requires
        0 <= from < to <= s.len(),
    ensures
        !is_space(s[from]) ==> first_non_space(s, from, to) == from,
        !is_space(s[to - 1]) ==> last_non_space(s, from, to) == to,
{
}

/// The first comma of a text is found where it stands, if no comma stands before it.
pub proof fn lemma_first_comma_at(s: Seq<char>, from: int, at: int, to: int)
    requires
        0 <= from <= at < to <= s.len(),
        s[at] == ',',
        forall|i: int| from <= i < at ==> s[i] != ',',
    ensures
        first_comma(s, from, to) == Some(at),
    decreases at - from,
{
    if from < at {
        lemma_first_comma_at(s, from + 1, at, to);
    }
}

/// Two numbers written as `(a, b)` are read as those numbers, if they are
/// within the limits.
pub proof fn lemma_pair_round_trip(a: nat, b: nat, limit_a: u64, limit_b: u64)
    requires
        a <= limit_a,
        b <= limit_b,
    ensures
        pair("("@ + decimal(a) + ", "@ + decimal(b) + ")"@, limit_a, limit_b) == Some(
            (a as u64, b as u64),
        ),
{
    reveal_strlit("(");
    reveal_strlit(", ");
    reveal_strlit(")");
    let x = decimal(a);
    let y = decimal(b);
    lemma_decimal_length(a);
    lemma_decimal_length(b);
    let s = "("@ + x + ", "@ + y + ")"@;
    let k = 1 + x.len() as int;
    let n = s.len() as int;
    assert(n == x.len() + y.len() + 4);
    assert(s[0] == '(');
    assert(s[n - 1] == ')');
    assert(s[k] == ',');
    assert(s[k + 1] == ' ');
    assert forall|i: int| 1 <= i < k implies s[i] == x[i - 1] by {}
    assert forall|i: int| k + 2 <= i < n - 1 implies s[i] == y[i - k - 2] by {}
    assert forall|i: int| 1 <= i < k implies s[i] != ',' by {
        lemma_decimal_characters(a, i - 1);
    }
    lemma_no_space_to_skip(s, 0, n);
    lemma_first_comma_at(s, 1, k, n - 1);
    lemma_decimal_characters(a, 0);
    lemma_decimal_characters(a, x.len() - 1);
    lemma_no_space_to_skip(s, 1, k);
    lemma_decimal_characters(b, 0);
    lemma_decimal_characters(b, y.len() - 1);
    assert(first_non_space(s, k + 1, n - 1) == k + 2) by {
        assert(is_space(s[k + 1]));
        lemma_no_space_to_skip(s, k + 2, n - 1);
    }
    lemma_no_space_to_skip(s, k + 2, n - 1);
    assert(s.subrange(1, k) =~= x);
    assert(s.subrange(k + 2, n - 1) =~= y);
    lemma_unsigned_of_decimal(a, limit_a);
    lemma_unsigned_of_decimal(b, limit_b);
}

/// A number does not get smaller when a digit is written after it.
pub proof fn lemma_number_grows(s: Seq<char>, i: int, j: int)
    requires
        0 <= i <= j <= s.len(),
        i >= 1,
        number(s.subrange(0, j)) is Some,
    ensures
        number(s.subrange(0, i)) is Some,
        number(s.subrange(0, i))->Some_0 <= number(s.subrange(0, j))->Some_0,
    decreases j - i,
{
    if i < j {
        assert(s.subrange(0, j).drop_last() =~= s.subrange(0, j - 1));
        lemma_number_grows(s, i, j - 1);
    }
}

/// Returns the digit that a character stands for, if it is one.
fn digit_of(c: char) -> (d: Option<u64>)
    ensures
        match d {
            Some(v) => digit_value(c) == Some(v as nat) && v < 10,
            None => digit_value(c) is None,
        },
{
    if c == '0' {
        Some(0)
    } else if c == '1' {
        Some(1)
    } else if c == '2' {
        Some(2)
    } else if c == '3' {
        Some(3)
    } else if c == '4' {
        Some(4)
    } else if c == '5' {
        Some(5)
    } else if c == '6' {
        Some(6)
    } else if c == '7' {
        Some(7)
    } else if c == '8' {
        Some(8)
    } else if c == '9' {
        Some(9)
    } else {
        None
    }
}

/// Reads the digits between two positions of a text as a number up to `limit`.
fn parse_number(s: &str, from: usize, to: usize, limit: u64) -> (r: Option<u64>)
    requires
        from <= to <= s@.len(),
    ensures
        match r {
            Some(n) => number(s@.subrange(from as int, to as int)) == Some(n as nat) && n <= limit,
            None => number(s@.subrange(from as int, to as int)) is None || number(
                s@.subrange(from as int, to as int),
            )->Some_0 > limit,
        },
{
    if from == to {
        return None;
    }
    let ghost t = s@.subrange(from as int, to as int);
    let mut acc: u64 = 0;
    let mut i: usize = from;
    while i < to
        invariant
            from <= i <= to <= s@.len(),
            t == s@.subrange(from as int, to as int),
            i > from ==> number(t.subrange(0, i - from)) == Some(acc as nat),
            i == from ==> acc == 0,
            acc <= limit,
        decreases to - i,
    {
        let c = s.get_char(i);
        assert(t.subrange(0, i + 1 - from).drop_last() =~= t.subrange(0, i - from));
        assert(t.subrange(0, i + 1 - from).last() == c);
        assert(t.subrange(0, to - from) =~= t);
        match digit_of(c) {
            Some(d) => {
                let next = match acc.checked_mul(10) {
                    Some(tens) => tens.checked_add(d),
                    None => None,
                };
                match next {
                    Some(n) => {
                        if n > limit {
                            proof {
                                if number(t) is Some {
                                    lemma_number_grows(t, i + 1 - from, to - from);
                                }
                            }
                            return None;
                        }
                        acc = n;
                    },
                    None => {
                        proof {
                            if number(t) is Some {
                                lemma_number_grows(t, i + 1 - from, to - from);
                            }
                        }
                        return None;
                    },
                }
            },
            None => {
                proof {
                    if number(t) is Some {
                        lemma_number_grows(t, i + 1 - from, to - from);
                    }
                }
                return None;
            },
        }
        i = i + 1;
    }
    assert(t.subrange(0, to - from) =~= t);
    Some(acc)
}

/// Reads the text between two positions as a number up to `limit`, with or
/// without a plus sign.
pub fn parse_unsigned(s: &str, from: usize, to: usize, limit: u64) -> (r: Option<u64>)
    requires
        from <= to <= s@.len(),
    ensures
        r == unsigned(s@.subrange(from as int, to as int), limit),
{
    let ghost t = s@.subrange(from as int, to as int);
    if from < to && s.get_char(from) == '+' {
        assert(t.skip(1) =~= s@.subrange(from + 1, to as int));
        parse_number(s, from + 1, to, limit)
    } else {
        parse_number(s, from, to, limit)
    }
}

/// Reads the text between two positions as an integer, with or without a sign.
pub fn parse_signed(s: &str, from: usize, to: usize) -> (r: Option<i64>)
    requires
        from <= to <= s@.len(),
    ensures
        r == signed(s@.subrange(from as int, to as int)),
{
    let ghost t = s@.subrange(from as int, to as int);
    if from < to && s.get_char(from) == '-' {
        assert(t.skip(1) =~= s@.subrange(from + 1, to as int));
        match parse_number(s, from + 1, to, 0x8000_0000_0000_0000) {
            Some(n) => {
                if n == 0x8000_0000_0000_0000 {
                    Some(i64::MIN)
                } else {
                    Some(0 - (n as i64))
                }
            },
            None => None,
        }
    } else {
        match parse_unsigned(s, from, to, 0x7fff_ffff_ffff_ffff) {
            Some(n) => Some(n as i64),
            None => None,
        }
    }
}

/// Tells whether a character is a blank.
fn blank(c: char) -> (b: bool)
    ensures
        b == is_space(c),
{
    let n = c as u32;
    (0x09 <= n && n <= 0x0d) || n == 0x20 || n == 0x85 || n == 0xa0 || n == 0x1680 || (0x2000 <= n
        && n <= 0x200a) || n == 0x2028 || n == 0x2029 || n == 0x202f || n == 0x205f || n == 0x3000
}

/// Finds the first position from `from` up to `to` that holds no blank.
fn skip_spaces(s: &str, from: usize, to: usize) -> (at: usize)
    requires
        from <= to <= s@.len(),
    ensures
        at == first_non_space(s@, from as int, to as int),
        from <= at <= to,
{
    let mut i = from;
    while i < to
        invariant
            from <= i <= to <= s@.len(),
            first_non_space(s@, from as int, to as int) == first_non_space(
                s@,
                i as int,
                to as int,
            ),
        decreases to - i,
    {
        if !blank(s.get_char(i)) {
            return i;
        }
        i = i + 1;
    }
    i
}

/// Finds the position after the last one between `from` and `to` that holds no blank.
fn skip_spaces_back(s: &str, from: usize, to: usize) -> (at: usize)
    requires
        from <= to <= s@.len(),
    ensures
        at == last_non_space(s@, from as int, to as int),
        from <= at <= to,
{
    let mut i = to;
    while i > from
        invariant
            from <= i <= to <= s@.len(),
            last_non_space(s@, from as int, to as int) == last_non_space(
                s@,
                from as int,
                i as int,
            ),
        decreases i - from,
    {
        if !blank(s.get_char(i - 1)) {
            return i;
        }
        i = i - 1;
    }
    i
}

/// Finds the first comma from `from` up to `to`.
fn find_comma(s: &str, from: usize, to: usize) -> (at: Option<usize>)
    requires
        from <= to <= s@.len(),
    ensures
        match at {
            Some(k) => first_comma(s@, from as int, to as int) == Some(k as int) && from <= k < to,
            None => first_comma(s@, from as int, to as int) is None,
        },
{
    let mut i = from;
    while i < to
        invariant
            from <= i <= to <= s@.len(),
            first_comma(s@, from as int, to as int) == first_comma(s@, i as int, to as int),
        decreases to - i,
    {
        if s.get_char(i) == ',' {
            return Some(i);
        }
        i = i + 1;
    }
    None
}

/// Reads a text of the form `(a, b)` as two numbers.
pub fn parse_pair(s: &str, limit_a: u64, limit_b: u64) -> (r: Option<(u64, u64)>)
    ensures
        r == pair(s@, limit_a, limit_b),
{
    let n = s.unicode_len();
    let a = skip_spaces(s, 0, n);
    let b = skip_spaces_back(s, a, n);
    if b - a < 2 {
        return None;
    }
    if s.get_char(a) != '(' || s.get_char(b - 1) != ')' {
        return None;
    }
    match find_comma(s, a + 1, b - 1) {
        Some(k) => {
            let left_from = skip_spaces(s, a + 1, k);
            let left_to = skip_spaces_back(s, left_from, k);
            let right_from = skip_spaces(s, k + 1, b - 1);
            let right_to = skip_spaces_back(s, right_from, b - 1);
            match (
                parse_unsigned(s, left_from, left_to, limit_a),
                parse_unsigned(s, right_from, right_to, limit_b),
            ) {
                (Some(x), Some(y)) => Some((x, y)),
                _ => None,
            }
        },
        None => None,
    }
}

} // verus!
