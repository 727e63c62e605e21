//! Plain text with numbers in it.
use vstd::prelude::*;

verus! {

/// One decimal digit.
pub open spec fn digit(d: nat) -> Seq<char> {
    if d == 0 {
        "0"@
    } else if d == 1 {
        "1"@
    } else if d == 2 {
        "2"@
    } else if d == 3 {
        "3"@
    } else if d == 4 {
        "4"@
    } else if d == 5 {
        "5"@
    } else if d == 6 {
        "6"@
    } else if d == 7 {
        "7"@
    } else if d == 8 {
        "8"@
    } else {
        "9"@
    }
}

/// A number in decimal, without leading zeros.
pub open spec fn decimal(n: nat) -> Seq<char>
    decreases n,
{
    if n < 10 {
        digit(n)
    } else {
        decimal(n / 10) + digit(n % 10)
    }
}

/// Appends a digit.
fn push_digit(s: &mut String, d: u64)
    requires
        d < 10,
    ensures
        final(s)@ == old(s)@ + digit(d as nat),
{
    let t: &str = match d {
        0 => "0",
        1 => "1",
        2 => "2",
        3 => "3",
        4 => "4",
        5 => "5",
        6 => "6",
        7 => "7",
        8 => "8",
        _ => "9",
    };
    s.append(t);
}

/// Appends a number in decimal.
pub fn push_decimal(s: &mut String, n: u64)
    ensures
        final(s)@ == old(s)@ + decimal(n as nat),
    decreases n,
{
    if n >= 10 {
        push_decimal(s, n / 10);
        push_digit(s, n % 10);
        proof {
            let a = decimal((n / 10) as nat);
            let b = digit((n % 10) as nat);
            assert((old(s)@ + a) + b =~= old(s)@ + (a + b));
        }
    } else {
        push_digit(s, n);
    }
}

/// The two texts are the same.
pub fn same_text(a: &str, b: &str) -> (r: bool)
    ensures
        r == (a@ == b@),
{
    let x: String = a.to_owned();
    let y: String = b.to_owned();
    x == y
}

/// The second character is the small letter of the first.
pub open spec fn is_small_of(capital: char, small: char) -> bool {
    65 <= capital as int && capital as int <= 90 && small as int == capital as int + 32
}

/// The two characters are the same, but for the case of a letter from `a` to `z`.
pub open spec fn same_letter(a: char, b: char) -> bool {
    a == b || is_small_of(a, b) || is_small_of(b, a)
}

/// The two texts are the same, but for the case of their letters.
pub open spec fn same_word(a: Seq<char>, b: Seq<char>) -> bool {
    &&& a.len() == b.len()
    &&& forall|i: int| 0 <= i < a.len() ==> same_letter(#[trigger] a[i], b[i])
}

fn letters_agree(a: char, b: char) -> (r: bool)
    ensures
        r == same_letter(a, b),
{
    let x: u32 = a as u32;
    let y: u32 = b as u32;
    x == y || (65 <= x && x <= 90 && y == x + 32) || (65 <= y && y <= 90 && x == y + 32)
}

/// The two texts are the same, whatever the case of their letters.
pub fn eq_ignore_case(a: &str, b: &str) -> (r: bool)
    ensures
        r == same_word(a@, b@),
{
    let n: usize = a.unicode_len();
    if b.unicode_len() != n {
        return false;
    }
    let mut i: usize = 0;
    while i < n
        invariant
            i <= n,
            n == a@.len(),
            n == b@.len(),
            forall|j: int| 0 <= j < i ==> same_letter(#[trigger] a@[j], b@[j]),
        decreases n - i,
    {
        if !letters_agree(a.get_char(i), b.get_char(i)) {
            return false;
        }
        i = i + 1;
    }
    true
}

/// White space, as Unicode has it.
pub open spec fn is_white(c: char) -> bool {
    let n = c as int;
    9 <= n <= 13 || n == 0x20 || n == 0x85 || n == 0xa0 || n == 0x1680 || 0x2000 <= n <= 0x200a || n
        == 0x2028 || n == 0x2029 || n == 0x202f || n == 0x205f || n == 0x3000
}

/// The text without the white space it begins with.
pub open spec fn trimmed_front(text: Seq<char>) -> Seq<char>
    decreases text.len(),
{
    if text.len() > 0 && is_white(text[0]) {
        trimmed_front(text.drop_first())
    } else {
        text
    }
}

/// The text without the white space it ends with.
pub open spec fn trimmed_back(text: Seq<char>) -> Seq<char>
    decreases text.len(),
{
    if text.len() > 0 && is_white(text.last()) {
        trimmed_back(text.drop_last())
    } else {
        text
    }
}

/// The text without white space at its ends.
pub open spec fn trimmed(text: Seq<char>) -> Seq<char> {
    trimmed_back(trimmed_front(text))
}

proof fn front_from(text: Seq<char>, a: int)
    requires
        0 <= a <= text.len(),
        forall|i: int| 0 <= i < a ==> is_white(#[trigger] text[i]),
        a < text.len() ==> !is_white(text[a]),
    ensures
        trimmed_front(text) == text.skip(a),
    decreases a,
{
    if a == 0 {
        assert(text.skip(0) =~= text);
    } else {
        let rest = text.drop_first();
        assert(is_white(text[0]));
        assert forall|i: int| 0 <= i < a - 1 implies is_white(#[trigger] rest[i]) by {
            assert(rest[i] == text[i + 1]);
        }
        front_from(rest, a - 1);
        assert(rest.skip(a - 1) =~= text.skip(a));
    }
}

proof fn back_to(text: Seq<char>, b: int)
    requires
        0 <= b <= text.len(),
        forall|i: int| b <= i < text.len() ==> is_white(#[trigger] text[i]),
        b > 0 ==> !is_white(text[b - 1]),
    ensures
        trimmed_back(text) == text.take(b),
    decreases text.len(),
{
    if b == text.len() {
        assert(text.take(b) =~= text);
    } else {
        let rest = text.drop_last();
        assert(is_white(text[text.len() - 1]));
        back_to(rest, b);
        assert(rest.take(b) =~= text.take(b));
    }
}

fn white(c: char) -> (r: bool)
    ensures
        r == is_white(c),
{
    let n: u32 = c as u32;
    (9 <= n && n <= 13) || n == 0x20 || n == 0x85 || n == 0xa0 || n == 0x1680 || (0x2000 <= n && n
        <= 0x200a) || n == 0x2028 || n == 0x2029 || n == 0x202f || n == 0x205f || n == 0x3000
}

/// The text without white space at its ends.
pub fn trim(text: &str) -> (t: &str)
    ensures
        t@ == trimmed(text@),
{
    let n: usize = text.unicode_len();
    let mut a: usize = 0;
    while a < n && white(text.get_char(a))
        invariant
            a <= n,
            n == text@.len(),
            forall|i: int| 0 <= i < a ==> is_white(#[trigger] text@[i]),
        decreases n - a,
    {
        a = a + 1;
    }
    let mut b: usize = n;
    while a < b && white(text.get_char(b - 1))
        invariant
            a <= b <= n,
            n == text@.len(),
            forall|i: int| b <= i < n ==> is_white(#[trigger] text@[i]),
        decreases b,
    {
        b = b - 1;
    }
    proof {
        front_from(text@, a as int);
        let rest = text@.skip(a as int);
        assert forall|i: int| b - a <= i < rest.len() implies is_white(#[trigger] rest[i]) by {
            assert(rest[i] == text@[i + a]);
        }
        back_to(rest, b - a);
        assert(rest.take(b - a) =~= text@.subrange(a as int, b as int));
    }
    text.substring_char(a, b)
}

/// A decimal digit.
pub open spec fn is_digit(c: char) -> bool {
    48 <= c as int && c as int <= 57
}

/// The number that a row of digits stands for.
pub open spec fn value(digits: Seq<char>) -> nat
    decreases digits.len(),
{
    if digits.len() == 0 {
        0
    } else {
        (value(digits.drop_last()) * 10 + (digits.last() as int - 48)) as nat
    }
}

/// The digits of a number: those after its sign, where it has one.
pub open spec fn unsigned(text: Seq<char>) -> Seq<char> {
    if text.len() > 0 && text[0] == '+' {
        text.drop_first()
    } else {
        text
    }
}

/// The number that a text spells in decimal; none if it spells none, or one that is too large.
pub open spec fn spelled(text: Seq<char>) -> Option<u32> {
    let d = unsigned(text);
    if d.len() > 0 && (forall|i: int| 0 <= i < d.len() ==> is_digit(#[trigger] d[i])) && value(d)
        <= u32::MAX {
        Some(value(d) as u32)
    } else {
        None
    }
}

proof fn value_grows(digits: Seq<char>, n: int)
    requires
        0 <= n <= digits.len(),
        forall|i: int| 0 <= i < digits.len() ==> is_digit(#[trigger] digits[i]),
    ensures
        value(digits.take(n)) <= value(digits),
    decreases digits.len(),
{
    if n == digits.len() {
        assert(digits.take(n) =~= digits);
    } else {
        let rest = digits.drop_last();
        value_grows(rest, n);
        assert(rest.take(n) =~= digits.take(n));
        assert(is_digit(digits[digits.len() - 1]));
    }
}

/// Reads a number.
pub fn parse_u32(text: &str) -> (r: Option<u32>)
    ensures
        r == spelled(text@),
{
    let n: usize = text.unicode_len();
    let start: usize = if n > 0 && text.get_char(0) == '+' {
        1
    } else {
        0
    };
    let ghost d = unsigned(text@);
    assert(d =~= text@.skip(start as int));
    if n == start {
        return None;
    }
    let mut i: usize = start;
    let mut v: u64 = 0;
    while i < n
        invariant
            start <= i <= n,
            n == text@.len(),
            d == text@.skip(start as int),
            d == unsigned(text@),
            forall|j: int| 0 <= j < i - start ==> is_digit(#[trigger] d[j]),
            v == value(d.take(i - start)),
            v <= u32::MAX,
        decreases n - i,
    {
        let c: u32 = text.get_char(i) as u32;
        proof {
            assert(d[i - start] == text@[i as int]);
        }
        if c < 48 || c > 57 {
            return None;
        }
        v = v * 10 + (c - 48) as u64;
        proof {
            assert(d.take(i + 1 - start).drop_last() =~= d.take(i - start));
        }
        if v > 0xffff_ffff {
            proof {
                if forall|j: int| 0 <= j < d.len() ==> is_digit(#[trigger] d[j]) {
                    value_grows(d, i + 1 - start);
                }
            }
            return None;
        }
        i = i + 1;
    }
    assert(d.take(n - start) =~= d);
    Some(v as u32)
}

/// A number is written with digits only, as few as it takes, and reads back as itself.
pub proof fn decimals_read_back(n: nat)
    ensures
        value(decimal(n)) == n,
        decimal(n).len() > 0,
        forall|i: int| 0 <= i < decimal(n).len() ==> is_digit(#[trigger] decimal(n)[i]),
        n > 0 ==> decimal(n)[0] != '0',
    decreases n,
{
    digit_reads_back(n % 10);
    if n >= 10 {
        decimals_read_back(n / 10);
        let front = decimal(n / 10);
        let d = digit(n % 10);
        let all = decimal(n);
        assert(all.drop_last() =~= front);
        assert(all.last() == d[0]);
        assert forall|i: int| 0 <= i < all.len() implies is_digit(#[trigger] all[i]) by {
            if i < front.len() {
                assert(all[i] == front[i]);
            }
        }
    } else {
        let d = digit(n);
        assert(d.drop_last() =~= Seq::<char>::empty());
        reveal_with_fuel(value, 2);
    }
}

proof fn digit_reads_back(d: nat)
    requires
        d < 10,
    ensures
        digit(d).len() == 1,
        digit(d)[0] as int == 48 + d,
{
    reveal_strlit("0");
    reveal_strlit("1");
    reveal_strlit("2");
    reveal_strlit("3");
    reveal_strlit("4");
    reveal_strlit("5");
    reveal_strlit("6");
    reveal_strlit("7");
    reveal_strlit("8");
    reveal_strlit("9");
}

/// What is written in decimal is read as the same number, if it fits.
pub proof fn written_numbers_are_read(n: nat)
    ensures
        n <= u32::MAX ==> spelled(decimal(n)) == Some(n as u32),
        n > u32::MAX ==> spelled(decimal(n)) is None,
{
    decimals_read_back(n);
    let d = decimal(n);
    assert(is_digit(d[0]));
    assert(unsigned(d) == d);
}

/// A sign in front changes nothing, and a text without a digit spells no number.
pub proof fn signs_are_passed_over(text: Seq<char>)
    requires
        text.len() > 0,
        is_digit(text[0]),
    ensures
        spelled(seq!['+'] + text) == spelled(text),
        spelled(Seq::<char>::empty()) is None,
        spelled(seq!['+']) is None,
        forall|i: int| 0 <= i < text.len() && !is_digit(#[trigger] text[i]) ==> spelled(text) is None,
{
    assert((seq!['+'] + text).drop_first() =~= text);
    assert(seq!['+'].drop_first() =~= Seq::<char>::empty());
    assert(unsigned(text) == text);
}

/// The first digit counts ten times for each digit after it.
pub proof fn digits_have_their_place(front: Seq<char>, d: char)
    requires
        is_digit(d),
    ensures
        value(front.push(d)) == 10 * value(front) + (d as int - '0' as int),
{
    assert(front.push(d).drop_last() =~= front);
}

/// Trimming takes white space off both ends, all of it and nothing else.
pub proof fn trimming_takes_white_ends(text: Seq<char>) -> (ends: (int, int))
    ensures
        0 <= ends.0 <= ends.1 <= text.len(),
        trimmed(text) == text.subrange(ends.0, ends.1),
        forall|i: int| 0 <= i < ends.0 ==> is_white(#[trigger] text[i]),
        forall|i: int| ends.1 <= i < text.len() ==> is_white(#[trigger] text[i]),
        trimmed(text).len() > 0 ==> !is_white(trimmed(text)[0]) && !is_white(trimmed(text).last()),
{
    let a = front_end(text);
    front_from(text, a);
    let rest = text.skip(a);
    let b = back_end(rest);
    back_to(rest, b);
    assert(rest.take(b) =~= text.subrange(a, a + b));
    assert forall|i: int| a + b <= i < text.len() implies is_white(#[trigger] text[i]) by {
        assert(rest[i - a] == text[i]);
    }
    (a, a + b)
}

proof fn front_end(text: Seq<char>) -> (a: int)
    ensures
        0 <= a <= text.len(),
        forall|i: int| 0 <= i < a ==> is_white(#[trigger] text[i]),
        a < text.len() ==> !is_white(text[a]),
    decreases text.len(),
{
    if text.len() > 0 && is_white(text[0]) {
        let rest = text.drop_first();
        let b = front_end(rest);
        assert forall|i: int| 0 <= i < b + 1 implies is_white(#[trigger] text[i]) by {
            if i > 0 {
                assert(rest[i - 1] == text[i]);
            }
        }
        b + 1
    } else {
        0
    }
}

proof fn back_end(text: Seq<char>) -> (b: int)
    ensures
        0 <= b <= text.len(),
        forall|i: int| b <= i < text.len() ==> is_white(#[trigger] text[i]),
        b > 0 ==> !is_white(text[b - 1]),
    decreases text.len(),
{
    if text.len() > 0 && is_white(text.last()) {
        let rest = text.drop_last();
        let b = back_end(rest);
        assert forall|i: int| b <= i < text.len() implies is_white(#[trigger] text[i]) by {
            if i < rest.len() {
                assert(rest[i] == text[i]);
            }
        }
        b
    } else {
        text.len() as int
    }
}

/// Spaces, tabs and line ends are white; nothing that can be seen in plain text is.
pub proof fn blanks_are_white(c: char)
    ensures
        is_white(' ') && is_white('\t') && is_white('\n') && is_white('\r'),
        33 <= c as int <= 126 ==> !is_white(c),
{
}

/// Two words that differ in the case of letters only are the same either way, and a word is the
/// same as itself.
pub proof fn same_words_are_alike(a: Seq<char>, b: Seq<char>)
    ensures
        same_word(a, a),
        same_word(a, b) <==> same_word(b, a),
        forall|i: int|
            same_word(a, b) && 0 <= i < a.len() && !(65 <= #[trigger] a[i] as int <= 90) && !(97
                <= a[i] as int <= 122) ==> a[i] == b[i],
        forall|i: int|
            same_word(a, b) && 0 <= i < a.len() ==> #[trigger] a[i] as int % 32 == b[i] as int % 32,
{
    if same_word(a, b) {
        assert forall|i: int| 0 <= i < b.len() implies same_letter(#[trigger] b[i], a[i]) by {
            assert(same_letter(a[i], b[i]));
        }
    }
    if same_word(b, a) {
        assert forall|i: int| 0 <= i < a.len() implies same_letter(#[trigger] a[i], b[i]) by {
            assert(same_letter(b[i], a[i]));
        }
    }
}

} // verus!
