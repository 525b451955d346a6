//! Digit parsing and formatting for `YYYYMMDDHHMM` timestamps, and the
//! conversions between `String` and `Vec<char>` that the rest of the
//! library works on.
use vstd::prelude::*;
use vstd::string::StrSliceExecFns;
use crate::clock::CalDate;
use crate::clock::Moment;
use crate::clock::valid_date;
use crate::clock::valid_moment;

verus! {

/// True for the ASCII digits `'0'` through `'9'`.
pub open spec fn is_digit(c: char) -> bool {
    48 <= c as u32 && c as u32 <= 57
}

/// The numeric value of an ASCII digit.
pub open spec fn digit_val(c: char) -> u64
    recommends
        is_digit(c),
{
    (c as u32 - 48) as u64
}

/// The value of the two digits at `i`.
pub open spec fn two_val(s: Seq<char>, i: int) -> u64
    recommends
        0 <= i && i + 2 <= s.len(),
{
    (10 * digit_val(s[i]) + digit_val(s[i + 1])) as u64
}

/// The value of the four digits at `i`.
pub open spec fn four_val(s: Seq<char>, i: int) -> u64
    recommends
        0 <= i && i + 4 <= s.len(),
{
    (1000 * digit_val(s[i]) + 100 * digit_val(s[i + 1]) + 10 * digit_val(s[i + 2]) + digit_val(
        s[i + 3],
    )) as u64
}

/// What a twelve-digit `YYYYMMDDHHMM` text denotes: the moment with those
/// fields, or nothing when the text is not twelve digits or the fields do
/// not name a real calendar moment.
pub open spec fn spec_parse_moment(s: Seq<char>) -> Option<Moment> {
    if s.len() == 12 && (forall|i: int| 0 <= i < 12 ==> is_digit(#[trigger] s[i])) {
        let m = Moment {
            year: four_val(s, 0),
            month: two_val(s, 4),
            day: two_val(s, 6),
            hour: two_val(s, 8),
            minute: two_val(s, 10),
        };
        if valid_moment(m) {
            Some(m)
        } else {
            None
        }
    } else {
        None
    }
}

/// Exec mirror of `digit_val`.
pub fn digit_value(c: char) -> (r: u64)
    requires
        is_digit(c),
    ensures
        r == digit_val(c),
{
    (c as u32 as u64) - 48
}

/// Exec mirror of `is_digit`.
pub fn digit(c: char) -> (r: bool)
    ensures
        r == is_digit(c),
{
    let u = c as u32;
    48 <= u && u <= 57
}

/// Parses a twelve-digit `YYYYMMDDHHMM` text into a valid moment.
pub fn parse_moment(s: &Vec<char>) -> (r: Option<Moment>)
    ensures
        r == spec_parse_moment(s@),
        r is Some ==> valid_moment(r->0),
{
    if s.len() != 12 {
        return None;
    }
    let mut i: usize = 0;
    while i < 12
        invariant
            0 <= i <= 12,
            s@.len() == 12,
            forall|j: int| 0 <= j < i ==> is_digit(#[trigger] s@[j]),
        decreases 12 - i,
    {
        if !digit(s[i]) {
            return None;
        }
        i = i + 1;
    }
    let m = Moment {
        year: 1000 * digit_value(s[0]) + 100 * digit_value(s[1]) + 10 * digit_value(s[2])
            + digit_value(s[3]),
        month: 10 * digit_value(s[4]) + digit_value(s[5]),
        day: 10 * digit_value(s[6]) + digit_value(s[7]),
        hour: 10 * digit_value(s[8]) + digit_value(s[9]),
        minute: 10 * digit_value(s[10]) + digit_value(s[11]),
    };
    if crate::clock::moment_valid(&m) {
        Some(m)
    } else {
        None
    }
}

/// The ASCII digit character for a value below ten.
pub open spec fn digit_char(d: u64) -> char
    recommends
        d <= 9,
{
    if d == 0 {
        '0'
    } else if d == 1 {
        '1'
    } else if d == 2 {
        '2'
    } else if d == 3 {
        '3'
    } else if d == 4 {
        '4'
    } else if d == 5 {
        '5'
    } else if d == 6 {
        '6'
    } else if d == 7 {
        '7'
    } else if d == 8 {
        '8'
    } else {
        '9'
    }
}

/// Exec mirror of `digit_char`.
pub fn char_of_digit(d: u64) -> (r: char)
    requires
        d <= 9,
    ensures
        r == digit_char(d),
{
    if d == 0 {
        '0'
    } else if d == 1 {
        '1'
    } else if d == 2 {
        '2'
    } else if d == 3 {
        '3'
    } else if d == 4 {
        '4'
    } else if d == 5 {
        '5'
    } else if d == 6 {
        '6'
    } else if d == 7 {
        '7'
    } else if d == 8 {
        '8'
    } else {
        '9'
    }
}

/// The two digit characters of a value below one hundred.
pub open spec fn spec_two_digits(n: u64) -> Seq<char>
    recommends
        n <= 99,
{
    seq![digit_char(n / 10), digit_char(n % 10)]
}

/// The four digit characters of a value below ten thousand.
pub open spec fn spec_four_digits(n: u64) -> Seq<char>
    recommends
        n <= 9999,
{
    seq![
        digit_char(n / 1000),
        digit_char(n / 100 % 10),
        digit_char(n / 10 % 10),
        digit_char(n % 10),
    ]
}

/// Writes `n` as exactly two digits, zero-padded.
pub fn two_digits(n: u64) -> (r: Vec<char>)
    requires
        n <= 99,
    ensures
        r@ == spec_two_digits(n),
{
    let mut r: Vec<char> = Vec::new();
    r.push(char_of_digit(n / 10));
    r.push(char_of_digit(n % 10));
    proof {
        assert(r@ =~= spec_two_digits(n));
    }
    r
}

/// Writes `n` as exactly four digits, zero-padded.
pub fn four_digits(n: u64) -> (r: Vec<char>)
    requires
        n <= 9999,
    ensures
        r@ == spec_four_digits(n),
{
    let mut r: Vec<char> = Vec::new();
    r.push(char_of_digit(n / 1000));
    r.push(char_of_digit(n / 100 % 10));
    r.push(char_of_digit(n / 10 % 10));
    r.push(char_of_digit(n % 10));
    proof {
        assert(r@ =~= spec_four_digits(n));
    }
    r
}

/// The eight digit characters `YYYYMMDD` of a date.
pub open spec fn spec_date_digits(d: CalDate) -> Seq<char>
    recommends
        valid_date(d),
        d.year <= 9999,
{
    spec_four_digits(d.year) + spec_two_digits(d.month) + spec_two_digits(d.day)
}

/// Writes a date as its eight-digit `YYYYMMDD` form.
pub fn date_digits(d: &CalDate) -> (r: Vec<char>)
    requires
        valid_date(*d),
        d.year <= 9999,
    ensures
        r@ == spec_date_digits(*d),
{
    let mut r = four_digits(d.year);
    let mut m = two_digits(d.month);
    let mut day = two_digits(d.day);
    r.append(&mut m);
    r.append(&mut day);
    r
}

/// The characters of a string, in order.
pub fn str_chars(s: &str) -> (r: Vec<char>)
    ensures
        r@ == s@,
{
    let n = s.unicode_len();
    let mut r: Vec<char> = Vec::new();
    let mut i: usize = 0;
    while i < n
        invariant
            0 <= i <= n,
            n == s@.len(),
            r@ == s@.take(i as int),
        decreases n - i,
    {
        let c = s.get_char(i);
        r.push(c);
        proof {
            assert(s@.take(i + 1) =~= s@.take(i as int).push(s@[i as int]));
        }
        i = i + 1;
    }
    proof {
        assert(s@.take(n as int) =~= s@);
    }
    r
}

/// Relies on `String::push` of std: appends exactly the given character to
/// the end of the string.
#[verifier::external_body]
fn push_char(s: &mut String, c: char)
    ensures
        final(s)@ == old(s)@.push(c),
{
    s.push(c)
}

/// Builds the string holding exactly these characters, in order.
pub fn string_from_chars(v: &Vec<char>) -> (r: String)
    ensures
        r@ == v@,
{
    let mut r = String::new();
    let mut i: usize = 0;
    while i < v.len()
        invariant
            0 <= i <= v@.len(),
            r@ == v@.take(i as int),
        decreases v@.len() - i,
    {
        push_char(&mut r, v[i]);
        proof {
            assert(v@.take(i + 1) =~= v@.take(i as int).push(v@[i as int]));
        }
        i = i + 1;
    }
    proof {
        assert(v@.take(v@.len() as int) =~= v@);
    }
    r
}

/// Character-sequence equality, decided position by position.
pub fn chars_eq(a: &Vec<char>, b: &Vec<char>) -> (r: bool)
    ensures
        r == (a@ == b@),
{
    if a.len() != b.len() {
        return false;
    }
    let mut i: usize = 0;
    while i < a.len()
        invariant
            0 <= i <= a@.len(),
            a@.len() == b@.len(),
            forall|j: int| 0 <= j < i ==> a@[j] == b@[j],
        decreases a@.len() - i,
    {
        if a[i] != b[i] {
            return false;
        }
        i = i + 1;
    }
    proof {
        assert(a@ =~= b@);
    }
    true
}

} // verus!
