//! Reading shape definitions such as `triangle(0, 5, 10)` from text.
//!
//! A definition is a shape name, an opening bracket, the parameters separated
//! by commas, and a closing bracket. Case and white space do not matter. A
//! parameter is a decimal number: an optional sign, digits, and an optional
//! fraction after a point, of which nine places are kept.

use vstd::prelude::*;
use crate::fixed::{is_degree, Fixed, ONE};
use crate::membership::gaussian::gaussian_degree;
use crate::membership::trapezoidal::trapezoidal_degree;
use crate::membership::triangular::triangular_degree;
use crate::membership::{MembershipFn, MembershipShape};

verus! {

/// `String::push` of the standard library: the character is appended to the
/// end of the string.
pub assume_specification[ String::push ](s: &mut String, c: char)
    ensures
        final(s)@ == old(s)@.push(c),
;

/// Why a shape definition could not be read.
#[derive(Debug, PartialEq, Eq)]
pub enum ParseError {
    /// Nothing but white space was given.
    EmptyInput,
    /// The shape name is not known.
    UnknownFunc { name: String },
    /// The number of parameters does not fit the shape.
    BadArity,
    /// A parameter is not a number.
    NotNumber,
    /// The text is not of the form `name(parameters)` for a known shape.
    BadInput,
}

impl ParseError {
    /// The message that names this error.
    pub open spec fn message(&self) -> Seq<char> {
        match self {
            ParseError::EmptyInput => "input is empty"@,
            ParseError::UnknownFunc { name } => "Unknown Function "@ + name@ + " Specified"@,
            ParseError::BadArity => "Input Shape/Arity is wrong"@,
            ParseError::NotNumber => "Args specified are not numbers"@,
            ParseError::BadInput => "UnknownError, Bad Input"@,
        }
    }

    /// Renders the error as its message.
    pub fn to_string(&self) -> (s: String)
        ensures
            s@ == self.message(),
    {
        match self {
            ParseError::EmptyInput => "input is empty".to_owned(),
            ParseError::UnknownFunc { name } => {
                let mut s = "Unknown Function ".to_owned();
                s.append(name.as_str());
                s.append(" Specified");
                s
            },
            ParseError::BadArity => "Input Shape/Arity is wrong".to_owned(),
            ParseError::NotNumber => "Args specified are not numbers".to_owned(),
            ParseError::BadInput => "UnknownError, Bad Input".to_owned(),
        }
    }
}

/// Whether `c` is white space: a character with the Unicode property
/// `White_Space`.
pub open spec fn is_space(c: char) -> bool {
    let u = c as u32;
    ||| 0x09 <= u <= 0x0d
    ||| u == 0x20
    ||| u == 0x85
    ||| u == 0xa0
    ||| u == 0x1680
    ||| 0x2000 <= u <= 0x200a
    ||| u == 0x2028
    ||| u == 0x2029
    ||| u == 0x202f
    ||| u == 0x205f
    ||| u == 0x3000
}

/// `c` with an ASCII capital letter turned into its small letter.
pub open spec fn lowered(c: char) -> char {
    if 'A' <= c <= 'Z' {
        ((c as u8) + 32) as char
    } else {
        c
    }
}

/// The canonical form of a text: white space left out, ASCII letters small.
pub open spec fn canonical_chars(s: Seq<char>) -> Seq<char>
    decreases s.len(),
{
    if s.len() == 0 {
        Seq::empty()
    } else if is_space(s.last()) {
        canonical_chars(s.drop_last())
    } else {
        canonical_chars(s.drop_last()).push(lowered(s.last()))
    }
}

/// Tells whether `c` is white space.
pub fn char_is_space(c: char) -> (space: bool)
    ensures
        space == is_space(c),
{
    let u: u32 = c as u32;
    (0x09 <= u && u <= 0x0d) || u == 0x20 || u == 0x85 || u == 0xa0 || u == 0x1680 || (0x2000 <= u
        && u <= 0x200a) || u == 0x2028 || u == 0x2029 || u == 0x202f || u == 0x205f || u == 0x3000
}

/// Turns an ASCII capital letter into its small letter.
pub fn char_lowered(c: char) -> (low: char)
    ensures
        low == lowered(c),
{
    if 'A' <= c && c <= 'Z' {
        ((c as u8) + 32) as char
    } else {
        c
    }
}

/// The characters of `s`.
pub fn to_chars(s: &str) -> (chars: Vec<char>)
    ensures
        chars@ == s@,
{
    let mut chars: Vec<char> = Vec::new();
    for c in it: s.chars()
        invariant
            it.seq() == s@,
            chars@ == s@.take(it.index() as int),
    {
        chars.push(c);
        assert(s@.take(it.index() as int + 1) =~= s@.take(it.index() as int).push(c));
    }
    assert(s@.take(s@.len() as int) =~= s@);
    chars
}

/// Brings a text into its canonical form: white space is dropped and ASCII
/// capital letters become small.
pub fn canonical(s: &str) -> (out: String)
    ensures
        out@ == canonical_chars(s@),
{
    let mut out = String::new();
    for c in it: s.chars()
        invariant
            it.seq() == s@,
            out@ == canonical_chars(s@.take(it.index() as int)),
    {
        proof {
            let upto = s@.take(it.index() as int + 1);
            assert(upto.drop_last() =~= s@.take(it.index() as int));
            assert(upto.last() == c);
        }
        if !char_is_space(c) {
            out.push(char_lowered(c));
        }
    }
    assert(s@.take(s@.len() as int) =~= s@);
    out
}

/// Whether `c` is a decimal digit.
pub open spec fn is_digit(c: char) -> bool {
    '0' <= c <= '9'
}

/// The value of the decimal digit `c`.
pub open spec fn digit_of(c: char) -> int {
    (c as u32) - 48
}

/// Whether `s` holds only digits from `from` up to `to`.
pub open spec fn all_digits(s: Seq<char>, from: int, to: int) -> bool {
    forall|i: int| from <= i < to ==> is_digit(#[trigger] s[i])
}

/// The first place at or after `from` where `s` holds `c`, or the length of
/// `s` where it holds none.
pub open spec fn first_of(s: Seq<char>, c: char, from: int) -> int
    decreases s.len() - from,
{
    if from >= s.len() {
        s.len() as int
    } else if s[from] == c {
        from
    } else {
        first_of(s, c, from + 1)
    }
}

/// The number that the digits of `s` from `from` up to `to` spell.
pub open spec fn digits_value(s: Seq<char>, from: int, to: int) -> int
    decreases to - from,
{
    if to <= from {
        0
    } else {
        digits_value(s, from, to - 1) * 10 + digit_of(s[to - 1])
    }
}

/// The digits of `s` from `from` up to `to` read as a fraction, the first
/// digit counting `place`, each further one a tenth of the one before, until
/// the places run out.
pub open spec fn fraction_value(s: Seq<char>, from: int, to: int, place: int) -> int
    decreases to - from,
{
    if to <= from || place <= 0 {
        0
    } else {
        digit_of(s[from]) * place + fraction_value(s, from + 1, to, place / 10)
    }
}

/// The number of characters that the sign of a number takes: one or none.
pub open spec fn sign_length(s: Seq<char>) -> int {
    if s.len() > 0 && (s[0] == '+' || s[0] == '-') {
        1
    } else {
        0
    }
}

/// The fixed-point number that the text `s` spells, if it spells one: an
/// optional sign, digits, and an optional point with digits behind it, with
/// at least one digit in all. Of the fraction nine places count. A number
/// outside the range of [`Fixed`] is none.
pub open spec fn number_value(s: Seq<char>) -> Option<int> {
    let start = sign_length(s);
    let point = first_of(s, '.', start);
    let behind = if point < s.len() { point + 1 } else { s.len() as int };
    if !all_digits(s, start, point) || !all_digits(s, behind, s.len() as int) {
        None
    } else if (point - start) + (s.len() - behind) == 0 {
        None
    } else {
        let magnitude = digits_value(s, start, point) * ONE + fraction_value(
            s,
            behind,
            s.len() as int,
            100_000_000,
        );
        let value = if start == 1 && s[0] == '-' { -magnitude } else { magnitude };
        if i64::MIN <= value <= i64::MAX {
            Some(value)
        } else {
            None
        }
    }
}

/// The numbers that `s` spells from `from` on, separated by commas; none if
/// one of the fields spells no number.
pub open spec fn numbers_from(s: Seq<char>, from: int) -> Option<Seq<int>>
    decreases s.len() - from,
    via numbers_from_ends
{
    if from < 0 || from > s.len() {
        None
    } else {
        let end = first_of(s, ',', from);
        let first = number_value(s.subrange(from, end));
        if end >= s.len() {
            match first {
                Some(x) => Some(seq![x]),
                None => None,
            }
        } else {
            match (first, numbers_from(s, end + 1)) {
                (Some(x), Some(rest)) => Some(seq![x] + rest),
                _ => None,
            }
        }
    }
}

/// The search for the next comma moves on, so that reading the fields ends.
#[via_fn]
proof fn numbers_from_ends(s: Seq<char>, from: int) {
    if 0 <= from <= s.len() {
        lemma_first_of(s, ',', from);
    }
}

/// `first_of` finds a place not before `from` and not past the end; the
/// character is there if the place is in the text, and nowhere before it.
pub proof fn lemma_first_of(s: Seq<char>, c: char, from: int)
    requires
        0 <= from <= s.len(),
    ensures
        from <= first_of(s, c, from) <= s.len(),
        first_of(s, c, from) < s.len() ==> s[first_of(s, c, from)] == c,
        forall|i: int| from <= i < first_of(s, c, from) ==> s[i] != c,
    decreases s.len() - from,
{
    if from < s.len() && s[from] != c {
        lemma_first_of(s, c, from + 1);
    }
}

/// Where `c` does not occur from `from` up to `at`, the search from `from`
/// is the search from `at`.
pub proof fn lemma_first_of_skips(s: Seq<char>, c: char, from: int, at: int)
    requires
        0 <= from <= at <= s.len(),
        forall|i: int| from <= i < at ==> s[i] != c,
    ensures
        first_of(s, c, from) == first_of(s, c, at),
    decreases at - from,
{
    if from < at {
        lemma_first_of_skips(s, c, from + 1, at);
    }
}

/// The value of a run of digits does not shrink when the run grows, and it
/// is never negative.
pub proof fn lemma_digits_value_grows(s: Seq<char>, from: int, mid: int, to: int)
    requires
        0 <= from <= mid <= to <= s.len(),
        all_digits(s, from, to),
    ensures
        0 <= digits_value(s, from, mid) <= digits_value(s, from, to),
    decreases to - mid,
{
    lemma_digits_value_positive(s, from, mid);
    if mid < to {
        lemma_digits_value_grows(s, from, mid, to - 1);
        assert(is_digit(s[to - 1]));
    }
}

/// The value of a run of digits is not negative.
pub proof fn lemma_digits_value_positive(s: Seq<char>, from: int, to: int)
    requires
        0 <= from <= to <= s.len(),
        all_digits(s, from, to),
    ensures
        0 <= digits_value(s, from, to),
    decreases to - from,
{
    if from < to {
        lemma_digits_value_positive(s, from, to - 1);
        assert(is_digit(s[to - 1]));
    }
}

/// A fraction of digits whose first place counts `place` stays below ten
/// times that place.
pub proof fn lemma_fraction_value_bounds(s: Seq<char>, from: int, to: int, place: int)
    requires
        0 <= from <= to <= s.len(),
        all_digits(s, from, to),
        0 <= place,
    ensures
        0 <= fraction_value(s, from, to, place) <= 10 * place,
    decreases to - from,
{
    if from < to && place > 0 {
        lemma_fraction_value_bounds(s, from + 1, to, place / 10);
        assert(is_digit(s[from]));
        assert(digit_of(s[from]) * place <= 9 * place) by (nonlinear_arith)
            requires
                0 <= digit_of(s[from]) <= 9,
                0 <= place,
        {
        }
        assert(digit_of(s[from]) * place >= 0) by (nonlinear_arith)
            requires
                0 <= digit_of(s[from]) <= 9,
                0 <= place,
        {
        }
    }
}

/// Reads the number that `chars` spells from `from` up to `to`.
pub fn parse_number(chars: &Vec<char>, from: usize, to: usize) -> (res: Option<Fixed>)
    requires
        from <= to <= chars@.len(),
    ensures
        res matches Some(x) ==> number_value(chars@.subrange(from as int, to as int)) == Some(
            x as int,
        ),
        res is None ==> number_value(chars@.subrange(from as int, to as int)) is None,
{
    let ghost s = chars@.subrange(from as int, to as int);
    let len: usize = to - from;
    let mut negative: bool = false;
    let mut i: usize = 0;
    if len > 0 {
        let c: char = chars[from];
        assert(c == s[0]);
        if c == '-' {
            negative = true;
            i = 1;
        } else if c == '+' {
            i = 1;
        }
    }
    let start: usize = i;
    let ghost point = first_of(s, '.', start as int);
    let ghost behind = if point < s.len() { point + 1 } else { s.len() as int };
    proof {
        lemma_first_of(s, '.', start as int);
    }
    // The digits before the point.
    let mut whole: u64 = 0;
    while i < len && chars[from + i] != '.'
        invariant
            from <= to <= chars@.len(),
            len == to - from,
            s == chars@.subrange(from as int, to as int),
            len == s.len(),
            start <= i <= len,
            i <= point,
            start == sign_length(s),
            behind == if point < s.len() { point + 1 } else { s.len() as int },
            point == first_of(s, '.', start as int),
            start <= point <= s.len(),
            point < s.len() ==> s[point] == '.',
            forall|j: int| start <= j < point ==> s[j] != '.',
            all_digits(s, start as int, i as int),
            whole == digits_value(s, start as int, i as int),
            whole <= 9_223_372_036,
        decreases len - i,
    {
        let c: char = chars[from + i];
        assert(c == s[i as int]);
        assert(i < point);
        if !('0' <= c && c <= '9') {
            assert(!is_digit(s[i as int]));
            return None;
        }
        let d: u64 = (c as u32 - 48) as u64;
        whole = whole * 10 + d;
        if whole > 9_223_372_036 {
            proof {
                if all_digits(s, start as int, point) && all_digits(s, behind, s.len() as int) {
                    lemma_digits_value_grows(s, start as int, i as int + 1, point);
                    lemma_fraction_value_bounds(s, behind, s.len() as int, 100_000_000);
                    assert(digits_value(s, start as int, point) * ONE >= 9_223_372_037
                        * 1_000_000_000) by (nonlinear_arith)
                        requires
                            digits_value(s, start as int, point) >= 9_223_372_037,
                            ONE == 1_000_000_000,
                    {
                    }
                }
            }
            return None;
        }
        i += 1;
    }
    assert(i == point) by {
        if i < len {
            assert(s[i as int] == '.');
        }
    }
    let whole_digits: usize = i - start;
    if i < len {
        i += 1;
    }
    assert(i == behind);
    let fraction_from: usize = i;
    // The digits behind the point.
    let mut fraction: u64 = 0;
    let mut place: u64 = 100_000_000;
    while i < len
        invariant
            from <= to <= chars@.len(),
            len == to - from,
            s == chars@.subrange(from as int, to as int),
            len == s.len(),
            fraction_from <= i <= len,
            fraction_from == behind,
            start == sign_length(s),
            point == first_of(s, '.', start as int),
            behind == if point < s.len() { point + 1 } else { s.len() as int },
            all_digits(s, behind, i as int),
            0 <= place <= 100_000_000,
            fraction + fraction_value(s, i as int, s.len() as int, place as int) == fraction_value(
                s,
                behind,
                s.len() as int,
                100_000_000,
            ),
            fraction + 10 * place <= 1_000_000_000,
        decreases len - i,
    {
        let c: char = chars[from + i];
        assert(c == s[i as int]);
        if !('0' <= c && c <= '9') {
            assert(!is_digit(s[i as int]));
            return None;
        }
        let d: u64 = (c as u32 - 48) as u64;
        assert(d * place <= 9 * place) by (nonlinear_arith)
            requires
                d <= 9,
                0 <= place,
        {
        }
        fraction = fraction + d * place;
        place = place / 10;
        i += 1;
    }
    if whole_digits + (len - fraction_from) == 0 {
        return None;
    }
    assert(whole * 1_000_000_000 <= 9_223_372_036 * 1_000_000_000) by (nonlinear_arith)
        requires
            whole <= 9_223_372_036,
    {
    }
    let magnitude: i128 = (whole as i128) * 1_000_000_000 + (fraction as i128);
    let value: i128 = if negative { -magnitude } else { magnitude };
    if value < i64::MIN as i128 || value > i64::MAX as i128 {
        return None;
    }
    Some(value as Fixed)
}

/// Reads the comma-separated numbers of `chars` from `from` up to `to`.
pub fn parse_numbers(chars: &Vec<char>, from: usize, to: usize) -> (res: Option<Vec<Fixed>>)
    requires
        from <= to <= chars@.len(),
    ensures
        res matches Some(v) ==> numbers_from(chars@.subrange(from as int, to as int), 0) == Some(
            crate::fixed::ints(v@),
        ),
        res is None ==> numbers_from(chars@.subrange(from as int, to as int), 0) is None,
{
    let ghost s = chars@.subrange(from as int, to as int);
    let len: usize = to - from;
    let mut found: Vec<Fixed> = Vec::new();
    let mut at: usize = 0;
    loop
        invariant_except_break
            from <= to <= chars@.len(),
            len == to - from,
            s == chars@.subrange(from as int, to as int),
            len == s.len(),
            at <= len,
            numbers_from(s, 0) == match numbers_from(s, at as int) {
                Some(rest) => Some(crate::fixed::ints(found@) + rest),
                None => None,
            },
        ensures
            numbers_from(s, 0) == Some(crate::fixed::ints(found@)),
        decreases len - at,
    {
        let mut end: usize = at;
        while end < len && chars[from + end] != ','
            invariant
                from <= to <= chars@.len(),
                len == to - from,
                s == chars@.subrange(from as int, to as int),
                len == s.len(),
                at <= end <= len,
                forall|j: int| at <= j < end ==> s[j] != ',',
            decreases len - end,
        {
            assert(chars@[from + end] == s[end as int]);
            end += 1;
        }
        proof {
            if end < len {
                assert(chars@[from + end] == s[end as int]);
            }
            lemma_first_of(s, ',', end as int);
            lemma_first_of_skips(s, ',', at as int, end as int);
            assert(first_of(s, ',', at as int) == end);
            assert(s.subrange(at as int, end as int) =~= chars@.subrange(
                from + at as int,
                from + end as int,
            ));
        }
        let value: Fixed = match parse_number(chars, from + at, from + end) {
            Some(x) => x,
            None => {
                return None;
            },
        };
        let ghost before = crate::fixed::ints(found@);
        found.push(value);
        assert(crate::fixed::ints(found@) =~= before + seq![value as int]);
        if end >= len {
            break ;
        }
        proof {
            let rest = numbers_from(s, end as int + 1);
            if rest is Some {
                assert(before + (seq![value as int] + rest->0) =~= (before + seq![value as int])
                    + rest->0);
            }
        }
        at = end + 1;
    }
    Some(found)
}

/// A shape definition as it was read, not yet checked against the shape's
/// invariant.
#[derive(Debug, Clone, Copy, PartialEq, Eq, Structural)]
pub enum Membership {
    /// `triangle(l, c, r)`.
    Triangle { l: Fixed, c: Fixed, r: Fixed },
    /// `trapezoid(ll, lb, rb, rl)`.
    Trapezoid { ll: Fixed, lb: Fixed, rb: Fixed, rl: Fixed },
    /// `gaussian(mean, sd)`.
    Gaussian { mean: Fixed, sd: Fixed },
}

/// The shapes that a definition can name.
#[derive(Debug, Clone, Copy, PartialEq, Eq, Structural)]
pub enum ShapeKind {
    /// Named `triangle`, with three parameters.
    Triangle,
    /// Named `trapezoid`, with four parameters.
    Trapezoid,
    /// Named `gaussian`, with two parameters.
    Gaussian,
}

/// Whether the canonical text `s` has the form of a call: the shape name
/// with its opening bracket in front and a closing bracket at the end.
pub open spec fn is_call(s: Seq<char>, opening: Seq<char>) -> bool {
    &&& s.len() > opening.len()
    &&& s.take(opening.len() as int) == opening
    &&& s.last() == ')'
}

/// The parameters of a call, between its brackets.
pub open spec fn call_body(s: Seq<char>, opening: Seq<char>) -> Seq<char> {
    s.subrange(opening.len() as int, s.len() - 1)
}

/// The definition that the parameters `v` make of a shape of the given
/// kind, provided that their number is the one that the shape takes.
pub open spec fn shaped(kind: ShapeKind, v: Seq<int>) -> Result<Membership, ParseError> {
    if kind == ShapeKind::Triangle && v.len() == 3 {
        Ok(Membership::Triangle { l: v[0] as Fixed, c: v[1] as Fixed, r: v[2] as Fixed })
    } else if kind == ShapeKind::Trapezoid && v.len() == 4 {
        Ok(
            Membership::Trapezoid {
                ll: v[0] as Fixed,
                lb: v[1] as Fixed,
                rb: v[2] as Fixed,
                rl: v[3] as Fixed,
            },
        )
    } else if kind == ShapeKind::Gaussian && v.len() == 2 {
        Ok(Membership::Gaussian { mean: v[0] as Fixed, sd: v[1] as Fixed })
    } else {
        Err(ParseError::BadArity)
    }
}

/// What reading the parameters of a call of shape `kind` gives: a field that
/// is no number is told before a wrong number of fields.
pub open spec fn read_call(kind: ShapeKind, body: Seq<char>) -> Result<Membership, ParseError> {
    match numbers_from(body, 0) {
        None => Err(ParseError::NotNumber),
        Some(v) => shaped(kind, v),
    }
}

/// What reading the canonical text `s` gives.
pub open spec fn parsed_canonical(s: Seq<char>) -> Result<Membership, ParseError> {
    if s.len() == 0 {
        Err(ParseError::EmptyInput)
    } else if is_call(s, "triangle("@) {
        read_call(ShapeKind::Triangle, call_body(s, "triangle("@))
    } else if is_call(s, "trapezoid("@) {
        read_call(ShapeKind::Trapezoid, call_body(s, "trapezoid("@))
    } else if is_call(s, "gaussian("@) {
        read_call(ShapeKind::Gaussian, call_body(s, "gaussian("@))
    } else {
        Err(ParseError::BadInput)
    }
}

/// What reading the text `raw` gives: the text is brought into canonical
/// form and then read.
pub open spec fn parsed(raw: Seq<char>) -> Result<Membership, ParseError> {
    parsed_canonical(canonical_chars(raw))
}

/// Tells whether `chars` has the form of a call with the given opening.
pub fn has_call_form(chars: &Vec<char>, opening: &str) -> (call: bool)
    ensures
        call == is_call(chars@, opening@),
{
    let head = to_chars(opening);
    if chars.len() <= head.len() {
        return false;
    }
    let mut i: usize = 0;
    while i < head.len()
        invariant
            i <= head@.len(),
            head@ == opening@,
            head@.len() < chars@.len(),
            forall|j: int| 0 <= j < i ==> chars@[j] == head@[j],
        decreases head@.len() - i,
    {
        if chars[i] != head[i] {
            assert(chars@.take(head@.len() as int)[i as int] != head@[i as int]);
            return false;
        }
        i += 1;
    }
    assert(chars@.take(head@.len() as int) =~= head@);
    chars[chars.len() - 1] == ')'
}

/// Reads the parameters of a call of shape `kind` with an opening of
/// `skip` characters.
pub fn read_parameters(chars: &Vec<char>, skip: usize, kind: ShapeKind) -> (res: Result<
    Membership,
    ParseError,
>)
    requires
        skip < chars@.len(),
    ensures
        res == read_call(kind, chars@.subrange(skip as int, chars@.len() - 1)),
{
    let numbers = match parse_numbers(chars, skip, chars.len() - 1) {
        Some(v) => v,
        None => {
            return Err(ParseError::NotNumber);
        },
    };
    match kind {
        ShapeKind::Triangle if numbers.len() == 3 => Ok(
            Membership::Triangle { l: numbers[0], c: numbers[1], r: numbers[2] },
        ),
        ShapeKind::Trapezoid if numbers.len() == 4 => Ok(
            Membership::Trapezoid {
                ll: numbers[0],
                lb: numbers[1],
                rb: numbers[2],
                rl: numbers[3],
            },
        ),
        ShapeKind::Gaussian if numbers.len() == 2 => Ok(
            Membership::Gaussian { mean: numbers[0], sd: numbers[1] },
        ),
        _ => Err(ParseError::BadArity),
    }
}

impl Membership {
    /// Reads a shape definition. The parameters are not checked against the
    /// invariant of the shape.
    pub fn parse(raw: &str) -> (res: Result<Membership, ParseError>)
        ensures
            res == parsed(raw@),
    {
        let text = canonical(raw);
        let chars = to_chars(text.as_str());
        if chars.len() == 0 {
            return Err(ParseError::EmptyInput);
        }
        if has_call_form(&chars, "triangle(") {
            let skip: usize = "triangle(".unicode_len();
            return read_parameters(&chars, skip, ShapeKind::Triangle);
        }
        if has_call_form(&chars, "trapezoid(") {
            let skip: usize = "trapezoid(".unicode_len();
            return read_parameters(&chars, skip, ShapeKind::Trapezoid);
        }
        if has_call_form(&chars, "gaussian(") {
            let skip: usize = "gaussian(".unicode_len();
            return read_parameters(&chars, skip, ShapeKind::Gaussian);
        }
        Err(ParseError::BadInput)
    }

    /// The degree of `x` under the shape defined, or zero where the
    /// parameters break the invariant of the shape.
    pub open spec fn calculated(&self, x: int) -> int {
        match self {
            Membership::Triangle { l, c, r } => if *l < *c && *c < *r {
                triangular_degree(*l as int, *c as int, *r as int, x)
            } else {
                0
            },
            Membership::Trapezoid { ll, lb, rb, rl } => if *ll < *lb && *lb < *rb && *rb < *rl {
                trapezoidal_degree(*ll as int, *lb as int, *rb as int, *rl as int, x)
            } else {
                0
            },
            Membership::Gaussian { mean, sd } => if *sd > 0 {
                gaussian_degree(*mean as int, *sd as int, x)
            } else {
                0
            },
        }
    }

    /// Evaluates the shape defined at `x`; a definition that breaks the
    /// invariant of its shape evaluates to zero everywhere.
    pub fn calculate(&self, x: Fixed) -> (mu: Fixed)
        ensures
            mu == self.calculated(x as int),
            is_degree(mu as int),
    {
        let shape = match self {
            Membership::Triangle { l, c, r } => MembershipShape::triangle(*l, *c, *r),
            Membership::Trapezoid { ll, lb, rb, rl } => MembershipShape::trapezoid(
                *ll,
                *lb,
                *rb,
                *rl,
            ),
            Membership::Gaussian { mean, sd } => MembershipShape::gaussian(*mean, *sd),
        };
        match shape {
            Ok(s) => s.membership(x),
            Err(_) => 0,
        }
    }
}

impl std::str::FromStr for Membership {
    type Err = ParseError;

    /// Reads a shape definition, as [`Membership::parse`] does.
    fn from_str(raw: &str) -> (res: Result<Membership, ParseError>)
        ensures
            res == parsed(raw@),
    {
        Membership::parse(raw)
    }
}

} // verus!
