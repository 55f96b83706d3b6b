//! Unsigned decimal numbers as text.

use vstd::arithmetic::power::{lemma_pow0, lemma_pow1, lemma_pow_adds, pow};
use vstd::prelude::*;

verus! {

/// Why a text is not an unsigned number.
#[derive(Clone, Copy, Debug, PartialEq, Eq, Structural)]
pub enum NumberError {
    /// There is no text at all.
    Empty,
    /// A character is not a decimal digit, or a sign has no digit after it.
    InvalidDigit,
    /// The number is larger than the largest one allowed.
    PosOverflow,
}

pub open spec fn is_digit(c: char) -> bool {
    '0' <= c && c <= '9'
}

pub open spec fn digit_value(c: char) -> nat {
    (c as int - '0' as int) as nat
}

pub open spec fn digit_char(d: nat) -> char {
    ('0' as int + d) as char
}

pub open spec fn all_digits(s: Seq<char>) -> bool {
    forall|i: int| 0 <= i < s.len() ==> is_digit(#[trigger] s[i])
}

/// The number that a row of digits stands for, the last digit being the units.
pub open spec fn decimal_value(s: Seq<char>) -> nat
    decreases s.len(),
{
    if s.len() == 0 {
        0
    } else {
        decimal_value(s.drop_last()) * 10 + digit_value(s.last())
    }
}

/// The shortest row of digits that stands for `n`.
pub open spec fn decimal_text(n: nat) -> Seq<char>
    decreases n,
{
    if n < 10 {
        seq![digit_char(n)]
    } else {
        decimal_text(n / 10).push(digit_char(n % 10))
    }
}

/// Reads digits from the left. The first character that is no digit, or that
/// takes the number past `max`, decides the error.
pub open spec fn digits_number(s: Seq<char>, max: nat) -> Result<nat, NumberError>
    decreases s.len(),
{
    if s.len() == 0 {
        Ok(0)
    } else {
        match digits_number(s.drop_last(), max) {
            Err(e) => Err(e),
            Ok(v) => if !is_digit(s.last()) {
                Err(NumberError::InvalidDigit)
            } else if v * 10 + digit_value(s.last()) > max {
                Err(NumberError::PosOverflow)
            } else {
                Ok(v * 10 + digit_value(s.last()))
            },
        }
    }
}

/// The digits of a number that may carry a plus sign.
pub open spec fn unsigned_digits(s: Seq<char>) -> Seq<char> {
    if s.len() > 0 && s[0] == '+' {
        s.drop_first()
    } else {
        s
    }
}

/// What a text says as an unsigned number that is at most `max`: an optional
/// plus sign, then at least one digit and nothing else.
pub open spec fn unsigned_number(s: Seq<char>, max: nat) -> Result<nat, NumberError> {
    if s.len() == 0 {
        Err(NumberError::Empty)
    } else if unsigned_digits(s).len() == 0 {
        Err(NumberError::InvalidDigit)
    } else {
        digits_number(unsigned_digits(s), max)
    }
}

proof fn lemma_error_stays(s: Seq<char>, k: int, max: nat)
    requires
        0 <= k <= s.len(),
        digits_number(s.take(k), max) is Err,
    ensures
        digits_number(s, max) == digits_number(s.take(k), max),
    decreases s.len() - k,
{
    if k < s.len() {
        assert(s.take(k + 1).drop_last() =~= s.take(k));
        lemma_error_stays(s, k + 1, max);
    } else {
        assert(s.take(k) =~= s);
    }
}

/// Reading digits succeeds exactly on digits whose number is small enough.
pub proof fn lemma_digits_number(s: Seq<char>, max: nat)
    ensures
        digits_number(s, max) is Ok <==> all_digits(s) && decimal_value(s) <= max,
        digits_number(s, max) is Ok ==> digits_number(s, max) == Ok::<nat, NumberError>(
            decimal_value(s),
        ),
    decreases s.len(),
{
    if s.len() > 0 {
        let t = s.drop_last();
        lemma_digits_number(t, max);
        assert forall|i: int| 0 <= i < t.len() && all_digits(s) implies is_digit(#[trigger] t[i]) by {
            assert(t[i] == s[i]);
        }
        if all_digits(t) && is_digit(s.last()) {
            assert forall|i: int| 0 <= i < s.len() implies is_digit(#[trigger] s[i]) by {
                if i < t.len() {
                    assert(s[i] == t[i]);
                }
            }
        }
    }
}

/// The shortest text of a number is made of digits, stands for that number, and
/// starts with a zero only when it is the single digit zero.
pub proof fn lemma_decimal_text(n: nat)
    ensures
        decimal_text(n).len() > 0,
        all_digits(decimal_text(n)),
        decimal_value(decimal_text(n)) == n,
        n > 0 ==> decimal_text(n)[0] != '0',
        n < 10 ==> decimal_text(n).len() == 1,
    decreases n,
{
    let t = decimal_text(n);
    if n < 10 {
        assert(t.drop_last() =~= Seq::<char>::empty());
        assert(decimal_value(t.drop_last()) == 0);
    } else {
        lemma_decimal_text(n / 10);
        assert(t.drop_last() =~= decimal_text(n / 10));
        assert(t[0] == decimal_text(n / 10)[0]);
    }
}

/// The shortest text of a number is read back as that number.
pub proof fn law_text_is_read_back(n: nat, max: nat)
    requires
        n <= max,
    ensures
        unsigned_number(decimal_text(n), max) == Ok::<nat, NumberError>(n),
{
    lemma_decimal_text(n);
    lemma_digits_number(decimal_text(n), max);
    assert(is_digit(decimal_text(n)[0]));
}

/// A sign in front of the shortest text of a number changes nothing.
pub proof fn law_plus_sign_is_ignored(n: nat, max: nat)
    requires
        n <= max,
    ensures
        unsigned_number(seq!['+'] + decimal_text(n), max) == Ok::<nat, NumberError>(n),
{
    law_text_is_read_back(n, max);
    lemma_decimal_text(n);
    lemma_digits_number(decimal_text(n), max);
    assert((seq!['+'] + decimal_text(n)).drop_first() =~= decimal_text(n));
}

/// Reads an unsigned number that is at most `max`.
pub fn parse_unsigned(text: &str, max: u64) -> (r: Result<u64, NumberError>)
    ensures
        match r {
            Ok(n) => unsigned_number(text@, max as nat) == Ok::<nat, NumberError>(n as nat),
            Err(e) => unsigned_number(text@, max as nat) == Err::<nat, NumberError>(e),
        },
{
    let len = text.unicode_len();
    if len == 0 {
        return Err(NumberError::Empty);
    }
    let signed = text.get_char(0) == '+';
    let body = if signed {
        text.substring_char(1, len)
    } else {
        text
    };
    assert(body@ =~= unsigned_digits(text@));
    if body.is_empty() {
        return Err(NumberError::InvalidDigit);
    }
    let mut value: u64 = 0;
    for c in it: body.chars()
        invariant
            it.seq() == body@,
            value <= max,
            digits_number(body@.take(it.index() as int), max as nat) == Ok::<nat, NumberError>(
                value as nat,
            ),
            body@ == unsigned_digits(text@),
            body@.len() > 0,
            text@.len() > 0,
    {
        let ghost k = it.index() as int;
        proof {
            assert(body@.take(k + 1).drop_last() =~= body@.take(k));
            assert(body@.take(k + 1).last() == c);
        }
        if c < '0' || c > '9' {
            proof {
                lemma_error_stays(body@, k + 1, max as nat);
            }
            return Err(NumberError::InvalidDigit);
        }
        let digit: u64 = (c as u64) - ('0' as u64);
        let room = max / 10;
        if value > room || (value == room && digit > max % 10) {
            proof {
                assert(value * 10 + digit > max);
                lemma_error_stays(body@, k + 1, max as nat);
            }
            return Err(NumberError::PosOverflow);
        }
        value = value * 10 + digit;
    }
    proof {
        assert(body@.take(body@.len() as int) =~= body@);
    }
    Ok(value)
}

fn digit_text(d: u64) -> (r: &'static str)
    requires
        d < 10,
    ensures
        r@ == seq![digit_char(d as nat)],
{
    proof {
        reveal_strlit("0");
        reveal_strlit("1");
        reveal_strlit("2");
        reveal_strlit("3");
        reveal_strlit("4");
        reveal_strlit("5");
        reveal_strlit("6");
        reveal_strlit("7");
        reveal_strlit("8");
        reveal_strlit("9");
    }
    let r = match d {
        0 => "0",
        1 => "1",
        2 => "2",
        3 => "3",
        4 => "4",
        5 => "5",
        6 => "6",
        7 => "7",
        8 => "8",
        _ => "9",
    };
    assert(r@ =~= seq![digit_char(d as nat)]);
    r
}

/// The shortest decimal text of a number.
pub fn decimal(n: u64) -> (r: String)
    ensures
        r@ == decimal_text(n as nat),
    decreases n,
{
    if n < 10 {
        String::from_str(digit_text(n))
    } else {
        let mut r = decimal(n / 10);
        r.append(digit_text(n % 10));
        assert(r@ =~= decimal_text(n as nat));
        r
    }
}

/// A digit is one of the ten characters from 0 to 9, and stands for its number.
pub proof fn law_digits_are_the_ten(c: char)
    ensures
        is_digit(c) <==> (c == '0' || c == '1' || c == '2' || c == '3' || c == '4' || c == '5' || c
            == '6' || c == '7' || c == '8' || c == '9'),
        digit_value('0') == 0 && digit_value('1') == 1 && digit_value('2') == 2,
        digit_value('3') == 3 && digit_value('4') == 4 && digit_value('5') == 5,
        digit_value('6') == 6 && digit_value('7') == 7 && digit_value('8') == 8,
        digit_value('9') == 9,
{
}

/// A digit counts ten times as much as the one behind it: a row of digits is worth its
/// front part, shifted by the length of the rest, and the rest.
pub proof fn law_digits_count_by_their_place(a: Seq<char>, b: Seq<char>)
    ensures
        decimal_value(Seq::empty()) == 0,
        b.len() == 1 ==> decimal_value(b) == digit_value(b[0]),
        decimal_value(a + b) == decimal_value(a) * pow(10, b.len()) + decimal_value(b),
    decreases b.len(),
{
    if b.len() == 0 {
        lemma_pow0(10);
        assert(a + b =~= a);
    } else {
        let c = b.drop_last();
        law_digits_count_by_their_place(a, c);
        assert((a + b).drop_last() =~= a + c);
        lemma_pow1(10);
        lemma_pow_adds(10, c.len(), 1);
        let (x, y, z) = (decimal_value(a) as int, pow(10, c.len()), decimal_value(c) as int);
        assert((x * y + z) * 10 == x * (y * 10) + z * 10) by (nonlinear_arith);
        if b.len() == 1 {
            assert(c =~= Seq::<char>::empty());
        }
    }
}

proof fn lemma_positive(s: Seq<char>)
    requires
        s.len() > 0,
        all_digits(s),
        s[0] != '0',
    ensures
        decimal_value(s) > 0,
    decreases s.len(),
{
    assert(is_digit(s[0]));
    let t = s.drop_last();
    if s.len() > 1 {
        assert forall|i: int| 0 <= i < t.len() implies is_digit(#[trigger] t[i]) by {
            assert(t[i] == s[i]);
        }
        lemma_positive(t);
    }
}

/// A row of digits without a zero in front is the text of the number that it stands for.
pub proof fn law_plain_digits_are_the_text(s: Seq<char>)
    requires
        s.len() > 0,
        all_digits(s),
        s[0] == '0' ==> s.len() == 1,
    ensures
        decimal_text(decimal_value(s)) == s,
    decreases s.len(),
{
    let t = s.drop_last();
    assert(is_digit(s[s.len() - 1]));
    if s.len() == 1 {
        assert(decimal_value(t) == 0);
        assert(decimal_text(decimal_value(s)) =~= s);
    } else {
        assert forall|i: int| 0 <= i < t.len() implies is_digit(#[trigger] t[i]) by {
            assert(t[i] == s[i]);
        }
        law_plain_digits_are_the_text(t);
        lemma_positive(t);
        assert(decimal_text(decimal_value(s)) =~= s);
    }
}

proof fn lemma_overflow(s: Seq<char>, max: nat)
    ensures
        digits_number(s, max) == Err::<nat, NumberError>(NumberError::PosOverflow) <==> exists|
            k: int,
        |
            0 < k <= s.len() && all_digits(#[trigger] s.take(k)) && decimal_value(s.take(k)) > max,
        digits_number(s, max) != Err::<nat, NumberError>(NumberError::Empty),
    decreases s.len(),
{
    if s.len() > 0 {
        let t = s.drop_last();
        let n = s.len() as int;
        lemma_overflow(t, max);
        lemma_digits_number(t, max);
        lemma_digits_number(s, max);
        assert forall|k: int| 0 < k < n implies #[trigger] s.take(k) == t.take(k) by {
            assert(s.take(k) =~= t.take(k));
        }
        assert(s.take(n) =~= s);
        if digits_number(t, max) == Err::<nat, NumberError>(NumberError::PosOverflow) {
            let k = choose|k: int|
                0 < k <= t.len() && all_digits(#[trigger] t.take(k)) && decimal_value(t.take(k))
                    > max;
            assert(s.take(k) == t.take(k));
        }
        if exists|k: int|
            0 < k <= s.len() && all_digits(#[trigger] s.take(k)) && decimal_value(s.take(k))
                > max {
            let k = choose|k: int|
                0 < k <= s.len() && all_digits(#[trigger] s.take(k)) && decimal_value(s.take(k))
                    > max;
            if k < n {
                assert(all_digits(t.take(k)) && decimal_value(t.take(k)) > max);
            } else {
                assert(all_digits(t)) by {
                    assert forall|i: int| 0 <= i < t.len() implies is_digit(#[trigger] t[i]) by {
                        assert(t[i] == s[i]);
                    }
                }
                assert(is_digit(s[n - 1]));
                if digits_number(t, max) is Err {
                    assert(t.take(n - 1) =~= t);
                    assert(n - 1 > 0);
                }
            }
        }
    }
}

/// Which texts are numbers, and why the others are not. A text is a number if it is made
/// of digits, after one plus sign at most, and the number is not too large. Nothing at all
/// is empty; what becomes too large before a character spoils it is too large; everything
/// else has a character that does not belong there.
pub proof fn law_which_texts_are_numbers(s: Seq<char>, d: Seq<char>, max: nat, n: nat)
    requires
        s.len() > 0 && s[0] == '+' ==> d == s.skip(1),
        !(s.len() > 0 && s[0] == '+') ==> d == s,
    ensures
        ({
            let number = d.len() > 0 && all_digits(d) && decimal_value(d) <= max;
            let too_large = exists|k: int|
                0 < k <= d.len() && all_digits(#[trigger] d.take(k)) && decimal_value(d.take(k))
                    > max;
            let r = unsigned_number(s, max);
            &&& r == Ok::<nat, NumberError>(n) <==> number && decimal_value(d) == n
            &&& r is Ok <==> number
            &&& r == Err::<nat, NumberError>(NumberError::Empty) <==> s.len() == 0
            &&& r == Err::<nat, NumberError>(NumberError::PosOverflow) <==> too_large
            &&& r == Err::<nat, NumberError>(NumberError::InvalidDigit) <==> s.len() > 0 && !number
                && !too_large
        }),
{
    assert(unsigned_digits(s) =~= d);
    lemma_digits_number(d, max);
    lemma_overflow(d, max);
    if d.len() == 0 {
        assert(all_digits(d) && decimal_value(d) == 0);
    } else {
        assert(s.len() > 0);
        assert(unsigned_number(s, max) == digits_number(d, max));
    }
}

} // verus!
