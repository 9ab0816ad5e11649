//! The textual form of a board: 81 values separated by commas.
//!
//! Every value may be surrounded by white space, and is an unsigned decimal
//! number, optionally preceded by `+`, that fits in a byte. Whether the values
//! form a Sudoku solution is another matter: see [`crate::board`].

use crate::board::BOARD_SIZE;
use vstd::prelude::*;

verus! {

/// Why a text is not the textual form of a board.
#[derive(Clone, Copy, PartialEq, Eq, Debug, Structural)]
pub enum ParseBoardError {
    /// The text does not hold 81 values.
    WrongCount,
    /// A value is empty.
    Empty,
    /// A value holds a character that is no decimal digit.
    InvalidDigit,
    /// A value does not fit in a byte.
    TooLarge,
}

impl ParseBoardError {
    /// What is said to the user of each error.
    pub open spec fn message_text(self) -> Seq<char> {
        match self {
            ParseBoardError::WrongCount => "expected 81 comma-separated values"@,
            ParseBoardError::Empty => "cannot parse integer from empty string"@,
            ParseBoardError::InvalidDigit => "invalid digit found in string"@,
            ParseBoardError::TooLarge => "number too large to fit in target type"@,
        }
    }

    /// A sentence that says what is wrong.
    pub fn message(&self) -> (text: &'static str)
        ensures
            text@ == self.message_text(),
    {
        match self {
            ParseBoardError::WrongCount => "expected 81 comma-separated values",
            ParseBoardError::Empty => "cannot parse integer from empty string",
            ParseBoardError::InvalidDigit => "invalid digit found in string",
            ParseBoardError::TooLarge => "number too large to fit in target type",
        }
    }
}

/// Unicode white space.
pub open spec fn is_white_space(c: char) -> bool {
    let u = c as u32;
    ||| 0x09 <= u <= 0x0D
    ||| u == 0x20
    ||| u == 0x85
    ||| u == 0xA0
    ||| u == 0x1680
    ||| 0x2000 <= u <= 0x200A
    ||| u == 0x2028
    ||| u == 0x2029
    ||| u == 0x202F
    ||| u == 0x205F
    ||| u == 0x3000
}

/// One of the characters `0` to `9`.
pub open spec fn is_decimal_digit(c: char) -> bool {
    0x30 <= c as u32 <= 0x39
}

/// The number that a decimal digit stands for.
pub open spec fn digit_value(c: char) -> int {
    c as u32 - 0x30
}

/// Length of the first field of `text`: the position of its first comma, or
/// its length when it holds none.
pub open spec fn first_field_len(text: Seq<char>) -> int
    decreases text.len(),
{
    if text.len() == 0 || text[0] == ',' {
        0
    } else {
        1 + first_field_len(text.drop_first())
    }
}

/// The fields of `text`: the stretches between its commas. A text with `n`
/// commas has `n + 1` fields, some of which may be empty.
pub open spec fn fields(text: Seq<char>) -> Seq<Seq<char>>
    decreases text.len(),
    via fields_decreases
{
    let n = first_field_len(text);
    if n >= text.len() {
        seq![text]
    } else {
        seq![text.take(n)] + fields(text.skip(n + 1))
    }
}

#[via_fn]
proof fn fields_decreases(text: Seq<char>) {
    lemma_first_field_len(text);
}

/// `text` without its leading white space.
pub open spec fn trim_start(text: Seq<char>) -> Seq<char>
    decreases text.len(),
{
    if text.len() > 0 && is_white_space(text[0]) {
        trim_start(text.drop_first())
    } else {
        text
    }
}

/// `text` without its trailing white space.
pub open spec fn trim_end(text: Seq<char>) -> Seq<char>
    decreases text.len(),
{
    if text.len() > 0 && is_white_space(text.last()) {
        trim_end(text.drop_last())
    } else {
        text
    }
}

/// `text` without its leading and trailing white space.
pub open spec fn trim(text: Seq<char>) -> Seq<char> {
    trim_end(trim_start(text))
}

/// The number that `digits` spell after the digits that gave `acc`, read from
/// left to right. The first character that is no digit, or at which the number
/// outgrows a byte, decides the error.
pub open spec fn parse_digits(digits: Seq<char>, acc: int) -> Result<u8, ParseBoardError>
    decreases digits.len(),
{
    if digits.len() == 0 {
        Ok(acc as u8)
    } else if !is_decimal_digit(digits[0]) {
        Err(ParseBoardError::InvalidDigit)
    } else if acc * 10 + digit_value(digits[0]) > 255 {
        Err(ParseBoardError::TooLarge)
    } else {
        parse_digits(digits.drop_first(), acc * 10 + digit_value(digits[0]))
    }
}

/// The byte that `text` spells: decimal digits, optionally preceded by `+`.
pub open spec fn parse_value(text: Seq<char>) -> Result<u8, ParseBoardError> {
    if text.len() == 0 {
        Err(ParseBoardError::Empty)
    } else if text.len() == 1 && (text[0] == '+' || text[0] == '-') {
        Err(ParseBoardError::InvalidDigit)
    } else if text[0] == '+' {
        parse_digits(text.drop_first(), 0)
    } else {
        parse_digits(text, 0)
    }
}

/// The values of `fields`, each trimmed; the error of the first field that
/// spells no byte.
pub open spec fn parse_fields(fields: Seq<Seq<char>>) -> Result<Seq<u8>, ParseBoardError>
    decreases fields.len(),
{
    if fields.len() == 0 {
        Ok(Seq::empty())
    } else {
        match parse_fields(fields.drop_last()) {
            Err(e) => Err(e),
            Ok(values) => match parse_value(trim(fields.last())) {
                Err(e) => Err(e),
                Ok(value) => Ok(values.push(value)),
            },
        }
    }
}

/// The board that `text` spells.
pub open spec fn board_of_text(text: Seq<char>) -> Result<Seq<u8>, ParseBoardError> {
    if fields(text).len() != 81 {
        Err(ParseBoardError::WrongCount)
    } else {
        parse_fields(fields(text))
    }
}

/// Every character is a decimal digit.
pub open spec fn all_decimal_digits(text: Seq<char>) -> bool {
    forall|i: int| 0 <= i < text.len() ==> is_decimal_digit(#[trigger] text[i])
}

/// The number that `digits` spell in positional notation.
pub open spec fn decimal_value(digits: Seq<char>) -> int
    decreases digits.len(),
{
    if digits.len() == 0 {
        0
    } else {
        10 * decimal_value(digits.drop_last()) + digit_value(digits.last())
    }
}

/// `text` without the `+` that may lead it.
pub open spec fn unsigned_part(text: Seq<char>) -> Seq<char> {
    if text.len() > 0 && text[0] == '+' {
        text.drop_first()
    } else {
        text
    }
}

/// The number that `digits` spell after the digits that gave `acc`.
spec fn decimal_after(acc: int, digits: Seq<char>) -> int
    decreases digits.len(),
{
    if digits.len() == 0 {
        acc
    } else {
        decimal_after(acc * 10 + digit_value(digits[0]), digits.drop_first())
    }
}

/// A text is all digits when its first character and the rest are.
proof fn lemma_all_decimal_digits(text: Seq<char>)
    requires
        text.len() > 0,
    ensures
        all_decimal_digits(text) <==> is_decimal_digit(text[0]) && all_decimal_digits(
            text.drop_first(),
        ),
{
    let rest = text.drop_first();
    if is_decimal_digit(text[0]) && all_decimal_digits(rest) {
        assert forall|i: int| 0 <= i < text.len() implies is_decimal_digit(#[trigger] text[i]) by {
            if i > 0 {
                assert(rest[i - 1] == text[i]);
            }
        }
    }
    if all_decimal_digits(text) {
        assert forall|i: int| 0 <= i < rest.len() implies is_decimal_digit(#[trigger] rest[i]) by {
            assert(rest[i] == text[i + 1]);
        }
    }
}

/// One more digit multiplies by ten and adds the digit.
proof fn lemma_decimal_after_push(acc: int, digits: Seq<char>, c: char)
    ensures
        decimal_after(acc, digits.push(c)) == 10 * decimal_after(acc, digits) + digit_value(c),
    decreases digits.len(),
{
    let next = acc * 10 + digit_value(digits.push(c)[0]);
    if digits.len() == 0 {
        assert(digits.push(c).drop_first() =~= digits);
        assert(decimal_after(next, digits) == next);
    } else {
        assert(digits.push(c).drop_first() =~= digits.drop_first().push(c));
        lemma_decimal_after_push(next, digits.drop_first(), c);
    }
}

/// Reading from the left gives the number of positional notation.
proof fn lemma_decimal_after_zero(digits: Seq<char>)
    ensures
        decimal_after(0, digits) == decimal_value(digits),
    decreases digits.len(),
{
    if digits.len() > 0 {
        lemma_decimal_after_zero(digits.drop_last());
        lemma_decimal_after_push(0, digits.drop_last(), digits.last());
        assert(digits.drop_last().push(digits.last()) =~= digits);
    }
}

/// Further digits do not make the number smaller.
proof fn lemma_decimal_after_grows(acc: int, digits: Seq<char>)
    requires
        0 <= acc,
        all_decimal_digits(digits),
    ensures
        acc <= decimal_after(acc, digits),
    decreases digits.len(),
{
    if digits.len() > 0 {
        lemma_all_decimal_digits(digits);
        lemma_decimal_after_grows(acc * 10 + digit_value(digits[0]), digits.drop_first());
    }
}

/// Reading succeeds exactly on digits that spell a number up to 255, and
/// gives that number.
proof fn lemma_parse_digits(digits: Seq<char>, acc: int)
    requires
        0 <= acc <= 255,
    ensures
        parse_digits(digits, acc) is Ok <==> all_decimal_digits(digits) && decimal_after(
            acc,
            digits,
        ) <= 255,
        parse_digits(digits, acc) is Ok ==> parse_digits(digits, acc)->Ok_0 == decimal_after(
            acc,
            digits,
        ),
    decreases digits.len(),
{
    if digits.len() > 0 {
        let rest = digits.drop_first();
        let next = acc * 10 + digit_value(digits[0]);
        lemma_all_decimal_digits(digits);
        if is_decimal_digit(digits[0]) {
            if all_decimal_digits(rest) {
                lemma_decimal_after_grows(next, rest);
            }
            if next <= 255 {
                lemma_parse_digits(rest, next);
            }
        }
    }
}

/// A text spells the byte `value` exactly when, after the `+` that may lead
/// it, it consists of one or more decimal digits that spell `value` in
/// positional notation.
pub proof fn lemma_parse_value_ok(text: Seq<char>, value: u8)
    ensures
        parse_value(text) == Ok::<u8, ParseBoardError>(value) <==> unsigned_part(text).len() > 0
            && all_decimal_digits(unsigned_part(text)) && decimal_value(unsigned_part(text))
            == value,
{
    let digits = unsigned_part(text);
    lemma_parse_digits(digits, 0);
    lemma_decimal_after_zero(digits);
}

/// The first field ends within the text, at a comma or at the end, and holds
/// no comma.
pub proof fn lemma_first_field_len(text: Seq<char>)
    ensures
        0 <= first_field_len(text) <= text.len(),
        first_field_len(text) < text.len() ==> text[first_field_len(text)] == ',',
        forall|i: int| 0 <= i < first_field_len(text) ==> text[i] != ',',
    decreases text.len(),
{
    if text.len() > 0 && text[0] != ',' {
        let rest = text.drop_first();
        lemma_first_field_len(rest);
        assert forall|i: int| 0 <= i < first_field_len(text) implies text[i] != ',' by {
            if i > 0 {
                assert(rest[i - 1] != ',');
            }
        }
    }
}

/// A stretch without a comma that ends at a comma, or at the end of the text,
/// is the first field.
proof fn lemma_first_field_found(text: Seq<char>, n: int)
    requires
        0 <= n <= text.len(),
        forall|i: int| 0 <= i < n ==> text[i] != ',',
        n < text.len() ==> text[n] == ',',
    ensures
        first_field_len(text) == n,
    decreases n,
{
    if n > 0 {
        lemma_first_field_found(text.drop_first(), n - 1);
    }
}

/// Whether `c` is Unicode white space.
fn white_space(c: char) -> (b: bool)
    ensures
        b == is_white_space(c),
{
    let u: u32 = c as u32;
    (0x09 <= u && u <= 0x0D) || u == 0x20 || u == 0x85 || u == 0xA0 || u == 0x1680 || (0x2000 <= u
        && u <= 0x200A) || u == 0x2028 || u == 0x2029 || u == 0x202F || u == 0x205F || u == 0x3000
}

/// The characters of `text`, in order.
fn chars_of(text: &str) -> (chars: Vec<char>)
    ensures
        chars@ == text@,
{
    let mut chars: Vec<char> = Vec::new();
    for c in it: text.chars()
        invariant
            chars@ == it.seq().take(it.index()),
            it.seq() == text@,
    {
        chars.push(c);
    }
    chars
}

/// The stretches of `chars` that `bounds` delimits.
spec fn stretches(chars: Seq<char>, bounds: Seq<(usize, usize)>) -> Seq<Seq<char>> {
    Seq::new(bounds.len(), |k: int| chars.subrange(bounds[k].0 as int, bounds[k].1 as int))
}

/// Finds the fields of `chars`: for each, where it starts and where it ends.
fn split_fields(chars: &[char]) -> (bounds: Vec<(usize, usize)>)
    ensures
        stretches(chars@, bounds@) == fields(chars@),
        forall|k: int|
            0 <= k < bounds@.len() ==> (#[trigger] bounds@[k]).0 <= bounds@[k].1 <= chars@.len(),
{
    let len = chars.len();
    let mut bounds: Vec<(usize, usize)> = Vec::new();
    let mut start: usize = 0;
    let mut more = true;
    assert(chars@.skip(0) =~= chars@);
    while more
        invariant
            len == chars@.len(),
            start <= len,
            forall|k: int|
                0 <= k < bounds@.len() ==> (#[trigger] bounds@[k]).0 <= bounds@[k].1 <= len,
            more ==> fields(chars@) == stretches(chars@, bounds@) + fields(
                chars@.skip(start as int),
            ),
            !more ==> fields(chars@) == stretches(chars@, bounds@),
        decreases len - start + (if more { 1int } else { 0int }),
    {
        let mut end: usize = start;
        while end < len && chars[end] != ','
            invariant
                len == chars@.len(),
                start <= end <= len,
                forall|i: int| start <= i < end ==> chars@[i] != ',',
            decreases len - end,
        {
            end += 1;
        }
        let ghost rest = chars@.skip(start as int);
        bounds.push((start, end));
        proof {
            // The stretch found is the first field of what was left.
            lemma_first_field_found(rest, end - start);
            if end < len {
                assert(rest.take(end - start) =~= chars@.subrange(start as int, end as int));
                assert(rest.skip(end - start + 1) =~= chars@.skip(end + 1));
            }
        }
        if end < len {
            start = end + 1;
        } else {
            more = false;
        }
    }
    bounds
}

/// Finds the stretch of `chars[start..end]` that is left when its leading and
/// trailing white space is taken off.
fn trim_bounds(chars: &[char], start: usize, end: usize) -> (trimmed: (usize, usize))
    requires
        start <= end <= chars@.len(),
    ensures
        start <= trimmed.0 <= trimmed.1 <= end,
        chars@.subrange(trimmed.0 as int, trimmed.1 as int) == trim(
            chars@.subrange(start as int, end as int),
        ),
{
    let mut lo: usize = start;
    while lo < end && white_space(chars[lo])
        invariant
            start <= lo <= end <= chars@.len(),
            trim_start(chars@.subrange(start as int, end as int)) == trim_start(
                chars@.subrange(lo as int, end as int),
            ),
        decreases end - lo,
    {
        assert(chars@.subrange(lo as int, end as int).drop_first() =~= chars@.subrange(
            lo + 1,
            end as int,
        ));
        lo += 1;
    }
    let mut hi: usize = end;
    while hi > lo && white_space(chars[hi - 1])
        invariant
            lo <= hi <= end <= chars@.len(),
            trim_end(chars@.subrange(lo as int, end as int)) == trim_end(
                chars@.subrange(lo as int, hi as int),
            ),
        decreases hi - lo,
    {
        assert(chars@.subrange(lo as int, hi as int).drop_last() =~= chars@.subrange(
            lo as int,
            hi - 1,
        ));
        hi -= 1;
    }
    (lo, hi)
}

/// Reads the byte that `chars[lo..hi]` spells.
fn parse_byte(chars: &[char], lo: usize, hi: usize) -> (res: Result<u8, ParseBoardError>)
    requires
        lo <= hi <= chars@.len(),
    ensures
        res == parse_value(chars@.subrange(lo as int, hi as int)),
{
    let ghost text = chars@.subrange(lo as int, hi as int);
    if lo == hi {
        return Err(ParseBoardError::Empty);
    }
    let first = chars[lo];
    if hi - lo == 1 && (first == '+' || first == '-') {
        return Err(ParseBoardError::InvalidDigit);
    }
    let mut i: usize = if first == '+' {
        lo + 1
    } else {
        lo
    };
    assert(text.drop_first() =~= chars@.subrange(lo + 1, hi as int));
    let mut acc: u8 = 0;
    while i < hi
        invariant
            lo <= i <= hi <= chars@.len(),
            text == chars@.subrange(lo as int, hi as int),
            parse_value(text) == parse_digits(chars@.subrange(i as int, hi as int), acc as int),
        decreases hi - i,
    {
        let u: u32 = chars[i] as u32;
        assert(chars@.subrange(i as int, hi as int).drop_first() =~= chars@.subrange(
            i + 1,
            hi as int,
        ));
        if u < 0x30 || u > 0x39 {
            return Err(ParseBoardError::InvalidDigit);
        }
        let next: u32 = acc as u32 * 10 + (u - 0x30);
        if next > 255 {
            return Err(ParseBoardError::TooLarge);
        }
        acc = next as u8;
        i += 1;
    }
    Ok(acc)
}

/// Parses the textual form of a board.
///
/// The text must hold 81 fields, or `WrongCount` is returned whatever the
/// fields hold. Otherwise the fields are read in order, and the first one that
/// spells no byte decides the error.
pub fn parse_board(s: &str) -> (res: Result<[u8; BOARD_SIZE], ParseBoardError>)
    ensures
        match res {
            Ok(board) => board_of_text(s@) == Ok::<Seq<u8>, ParseBoardError>(board@),
            Err(e) => board_of_text(s@) == Err::<Seq<u8>, ParseBoardError>(e),
        },
{
    let chars = chars_of(s);
    let parts = split_fields(chars.as_slice());
    if parts.len() != BOARD_SIZE {
        return Err(ParseBoardError::WrongCount);
    }
    let ghost all = fields(s@);
    let mut out: [u8; BOARD_SIZE] = [0u8; BOARD_SIZE];
    let mut i: usize = 0;
    assert(out@.take(0) =~= Seq::<u8>::empty());
    while i < BOARD_SIZE
        invariant
            i <= 81,
            chars@ == s@,
            all == fields(s@),
            all.len() == 81,
            parts@.len() == 81,
            stretches(chars@, parts@) == all,
            forall|k: int|
                0 <= k < parts@.len() ==> (#[trigger] parts@[k]).0 <= parts@[k].1 <= chars@.len(),
            parse_fields(all.take(i as int)) == Ok::<Seq<u8>, ParseBoardError>(
                out@.take(i as int),
            ),
        decreases 81 - i,
    {
        let (start, end) = parts[i];
        let (lo, hi) = trim_bounds(chars.as_slice(), start, end);
        let parsed = parse_byte(chars.as_slice(), lo, hi);
        proof {
            assert(all.take(i + 1).drop_last() =~= all.take(i as int));
        }
        match parsed {
            Err(e) => {
                proof {
                    lemma_parse_fields_error(all, i + 1);
                }
                return Err(e);
            },
            Ok(value) => {
                let ghost before = out@;
                out[i] = value;
                assert(out@.take(i + 1) =~= before.take(i as int).push(value));
            },
        }
        i += 1;
    }
    assert(all.take(81) =~= all);
    assert(out@.take(81) =~= out@);
    Ok(out)
}

/// An error among the first fields is the error of the whole.
proof fn lemma_parse_fields_error(fields: Seq<Seq<char>>, n: int)
    requires
        0 <= n <= fields.len(),
        parse_fields(fields.take(n)) is Err,
    ensures
        parse_fields(fields) == parse_fields(fields.take(n)),
    decreases fields.len() - n,
{
    if n < fields.len() {
        assert(fields.take(n + 1).drop_last() =~= fields.take(n));
        lemma_parse_fields_error(fields, n + 1);
    } else {
        assert(fields.take(n) =~= fields);
    }
}

} // verus!
