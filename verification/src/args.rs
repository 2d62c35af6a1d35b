//! The command line of a search: a dimension, a name pattern, and two
//! optional triples of integers that say where to look.

use crate::bounds::Bounds;
use crate::points::Point;
use vstd::prelude::*;

verus! {

/// Why a text is no triple of integers.
#[derive(Clone, Copy, Debug, PartialEq, Eq, Structural)]
pub enum TripleError {
    /// The text does not have three parts between its commas.
    Shape,
    /// The part with this index, counted from zero, is no integer that fits in `i64`.
    Number(usize),
}

/// Why a command line is refused.
#[derive(Clone, Copy, Debug, PartialEq, Eq, Structural)]
pub enum ArgumentError {
    /// No dimension path was given.
    MissingDimension,
    /// No name pattern was given.
    MissingPattern,
    /// The reference point is no triple of integers.
    Home(TripleError),
    /// The threshold is no triple of integers.
    Threshold(TripleError),
    /// The box around the reference point leaves the range of `i64`.
    Boundary,
}

/// A command line that has been checked.
#[derive(Debug, PartialEq, Eq)]
pub struct Arguments {
    /// The directory of the dimension to search.
    pub dimension: String,
    /// The wildcard pattern for block names.
    pub pattern: String,
    /// The reference point.
    pub home: Point,
    /// How far from the reference point to look, per axis.
    pub threshold: Point,
    /// The box around the reference point: `home` grown by `threshold`.
    pub boundary: Bounds,
}

/// The parts of a text between its commas. A text without a comma is one
/// part; the empty text is one empty part.
pub open spec fn fields(text: Seq<char>) -> Seq<Seq<char>>
    decreases text.len(),
{
    if text.len() == 0 {
        seq![Seq::empty()]
    } else {
        let before = fields(text.drop_last());
        if text.last() == ',' {
            before.push(Seq::empty())
        } else {
            before.drop_last().push(before.last().push(text.last()))
        }
    }
}

/// Whether a character is one of the digits `0` to `9`.
pub open spec fn is_digit(c: char) -> bool {
    48 <= c as u32 <= 57
}

/// The value of a digit.
pub open spec fn digit_value(c: char) -> int {
    c as u32 - 48
}

/// Whether a text holds digits only.
pub open spec fn all_digits(text: Seq<char>) -> bool {
    forall|i: int| 0 <= i < text.len() ==> is_digit(#[trigger] text[i])
}

/// The number that a text of digits stands for in decimal.
pub open spec fn digits_value(text: Seq<char>) -> int
    decreases text.len(),
{
    if text.len() == 0 {
        0
    } else {
        digits_value(text.drop_last()) * 10 + digit_value(text.last())
    }
}

/// The integer that a text stands for: an optional sign, `+` or `-`, then
/// one digit or more and nothing else; `None` where the text is of another
/// form or the number does not fit in `i64`.
pub open spec fn number_of(text: Seq<char>) -> Option<i64> {
    let negative = text.len() > 0 && text[0] == '-';
    let signed = text.len() > 0 && (text[0] == '-' || text[0] == '+');
    let body = if signed {
        text.skip(1)
    } else {
        text
    };
    let value = if negative {
        -digits_value(body)
    } else {
        digits_value(body)
    };
    if body.len() > 0 && all_digits(body) && i64::MIN <= value <= i64::MAX {
        Some(value as i64)
    } else {
        None
    }
}

/// The triple that a text stands for: three integers with commas between
/// them. The error names the first part that is no integer.
pub open spec fn triple_of(text: Seq<char>) -> Result<Point, TripleError> {
    let parts = fields(text);
    if parts.len() != 3 {
        Err(TripleError::Shape)
    } else {
        match (number_of(parts[0]), number_of(parts[1]), number_of(parts[2])) {
            (Some(x), Some(y), Some(z)) => Ok(Point { x, y, z }),
            (None, _, _) => Err(TripleError::Number(0)),
            (_, None, _) => Err(TripleError::Number(1)),
            (_, _, None) => Err(TripleError::Number(2)),
        }
    }
}

/// The reference point where none is given.
pub open spec fn default_home() -> Point {
    Point { x: 0, y: 8, z: 0 }
}

/// The threshold where none is given.
pub open spec fn default_threshold() -> Point {
    Point { x: 100, y: 8, z: 100 }
}

/// The views of a list of strings.
pub open spec fn texts(args: Seq<String>) -> Seq<Seq<char>> {
    args.map_values(|a: String| a@)
}

/// The characters of a text.
fn characters(text: &str) -> (chars: Vec<char>)
    ensures
        chars@ == text@,
{
    let count = text.unicode_len();
    let mut chars: Vec<char> = Vec::new();
    let mut i: usize = 0;
    while i < count
        invariant
            i <= count,
            count == text@.len(),
            chars@ == text@.take(i as int),
        decreases count - i,
    {
        chars.push(text.get_char(i));
        assert(text@.take(i + 1) =~= text@.take(i as int).push(text@[i as int]));
        i += 1;
    }
    assert(text@.take(count as int) =~= text@);
    chars
}

/// The views of a list of lists of characters.
pub open spec fn parts_of(parts: Seq<Vec<char>>) -> Seq<Seq<char>> {
    parts.map_values(|p: Vec<char>| p@)
}

/// Splits a text at its commas.
pub fn split_fields(text: &str) -> (parts: Vec<Vec<char>>)
    ensures
        parts_of(parts@) == fields(text@),
{
    let chars = characters(text);
    let mut done: Vec<Vec<char>> = Vec::new();
    let mut current: Vec<char> = Vec::new();
    let mut i: usize = 0;
    assert(text@.take(0) =~= Seq::<char>::empty());
    assert(parts_of(done@).push(current@) =~= fields(text@.take(0)));
    while i < chars.len()
        invariant
            i <= chars.len(),
            chars@ == text@,
            parts_of(done@).push(current@) == fields(text@.take(i as int)),
        decreases chars.len() - i,
    {
        let c = chars[i];
        let ghost before = fields(text@.take(i as int));
        proof {
            assert(text@.take(i + 1).drop_last() =~= text@.take(i as int));
            assert(text@.take(i + 1).last() == c);
            assert(before.last() == current@);
            assert(before.drop_last() =~= parts_of(done@));
        }
        if c == ',' {
            let ghost old_done = done@;
            done.push(current);
            current = Vec::new();
            assert(parts_of(done@) =~= parts_of(old_done).push(before.last()));
            assert(parts_of(done@).push(current@) =~= before.push(Seq::empty()));
        } else {
            current.push(c);
        }
        i += 1;
    }
    assert(text@.take(i as int) =~= text@);
    let ghost old_done = done@;
    let ghost last = current@;
    done.push(current);
    assert(parts_of(done@) =~= parts_of(old_done).push(last));
    done
}

/// A text of digits stands for a number that is not negative, and no
/// beginning of it stands for a greater one.
proof fn lemma_digits_value_grows(text: Seq<char>, n: int)
    requires
        all_digits(text),
        0 <= n <= text.len(),
    ensures
        0 <= digits_value(text.take(n)) <= digits_value(text),
    decreases text.len() - n,
{
    lemma_digits_value_positive(text.take(n));
    if n == text.len() {
        assert(text.take(n) =~= text);
    } else {
        lemma_digits_value_grows(text, n + 1);
        assert(text.take(n + 1).drop_last() =~= text.take(n));
        assert(is_digit(text[n]));
        assert(text.take(n + 1).last() == text[n]);
    }
}

/// A text of digits stands for a number that is not negative.
proof fn lemma_digits_value_positive(text: Seq<char>)
    requires
        all_digits(text),
    ensures
        0 <= digits_value(text),
    decreases text.len(),
{
    if text.len() > 0 {
        assert(is_digit(text[text.len() - 1]));
        assert forall|i: int| 0 <= i < text.drop_last().len() implies is_digit(
            #[trigger] text.drop_last()[i],
        ) by {
            assert(text.drop_last()[i] == text[i]);
        }
        lemma_digits_value_positive(text.drop_last());
    }
}

/// Reads an integer: an optional sign, then digits. `None` where the text is
/// of another form or the number does not fit in `i64`.
pub fn parse_number(text: &Vec<char>) -> (number: Option<i64>)
    ensures
        number == number_of(text@),
{
    if text.len() == 0 {
        return None;
    }
    let negative = text[0] == '-';
    let first: usize = if text[0] == '-' || text[0] == '+' {
        1
    } else {
        0
    };
    let ghost body = text@.skip(first as int);
    assert(text@.skip(0) =~= text@);
    if first == text.len() {
        return None;
    }
    let limit: i128 = 0x8000_0000_0000_0000;
    let mut total: i128 = 0;
    let mut i: usize = first;
    assert(body.take(0) =~= Seq::<char>::empty());
    while i < text.len()
        invariant
            first <= i <= text.len(),
            first < text.len(),
            negative == (text@[0] == '-'),
            first == if text@[0] == '-' || text@[0] == '+' {
                1int
            } else {
                0int
            },
            body == text@.skip(first as int),
            body == if first == 1 {
                text@.skip(1)
            } else {
                text@
            },
            limit == 0x8000_0000_0000_0000,
            all_digits(body.take(i - first)),
            total == digits_value(body.take(i - first)),
            0 <= total <= limit,
        decreases text.len() - i,
    {
        let c = text[i];
        let code = c as u32;
        assert(body[i - first] == c);
        if code < 48 || code > 57 {
            assert(!is_digit(body[i - first]));
            return None;
        }
        proof {
            let next = body.take(i - first + 1);
            assert(next.drop_last() =~= body.take(i - first));
            assert(next.last() == c);
            assert forall|k: int| 0 <= k < next.len() implies is_digit(#[trigger] next[k]) by {
                if k < i - first {
                    assert(body.take(i - first)[k] == next[k]);
                }
            }
        }
        total = total * 10 + (code - 48) as i128;
        if total > limit {
            proof {
                if all_digits(body) {
                    lemma_digits_value_grows(body, i - first + 1);
                }
            }
            return None;
        }
        i += 1;
    }
    assert(body.take(i - first) =~= body);
    if negative {
        Some((-total) as i64)
    } else if total == limit {
        None
    } else {
        Some(total as i64)
    }
}

/// Reads a triple of integers with commas between them, such as `0,8,0`.
pub fn parse_triple(text: &str) -> (triple: Result<Point, TripleError>)
    ensures
        triple == triple_of(text@),
{
    let parts = split_fields(text);
    if parts.len() != 3 {
        return Err(TripleError::Shape);
    }
    assert(parts_of(parts@)[0] == parts@[0]@);
    assert(parts_of(parts@)[1] == parts@[1]@);
    assert(parts_of(parts@)[2] == parts@[2]@);
    let x = match parse_number(&parts[0]) {
        Some(x) => x,
        None => {
            return Err(TripleError::Number(0));
        },
    };
    let y = match parse_number(&parts[1]) {
        Some(y) => y,
        None => {
            return Err(TripleError::Number(1));
        },
    };
    let z = match parse_number(&parts[2]) {
        Some(z) => z,
        None => {
            return Err(TripleError::Number(2));
        },
    };
    Ok(Point { x, y, z })
}

/// What a command line asks for, or why it is refused. The first argument
/// is the name of the program; then come the dimension path, the name
/// pattern, and optionally the reference point and the threshold.
pub open spec fn arguments_of(args: Seq<Seq<char>>) -> Result<
    (Seq<char>, Seq<char>, Point, Point, Bounds),
    ArgumentError,
> {
    if args.len() < 2 {
        Err(ArgumentError::MissingDimension)
    } else if args.len() < 3 {
        Err(ArgumentError::MissingPattern)
    } else {
        let home = if args.len() > 3 {
            triple_of(args[3])
        } else {
            Ok(default_home())
        };
        let threshold = if args.len() > 4 {
            triple_of(args[4])
        } else {
            Ok(default_threshold())
        };
        match (home, threshold) {
            (Err(e), _) => Err(ArgumentError::Home(e)),
            (Ok(_), Err(e)) => Err(ArgumentError::Threshold(e)),
            (Ok(home), Ok(threshold)) => {
                let single = Bounds { min: home, max: home };
                if single.can_expand(threshold) {
                    Ok(
                        (
                            args[1],
                            args[2],
                            home,
                            threshold,
                            Bounds {
                                min: Point {
                                    x: (home.x - threshold.x) as i64,
                                    y: (home.y - threshold.y) as i64,
                                    z: (home.z - threshold.z) as i64,
                                },
                                max: Point {
                                    x: (home.x + threshold.x) as i64,
                                    y: (home.y + threshold.y) as i64,
                                    z: (home.z + threshold.z) as i64,
                                },
                            },
                        ),
                    )
                } else {
                    Err(ArgumentError::Boundary)
                }
            },
        }
    }
}

impl Arguments {
    /// The checked command line as plain values.
    pub open spec fn parts(self) -> (Seq<char>, Seq<char>, Point, Point, Bounds) {
        (self.dimension@, self.pattern@, self.home, self.threshold, self.boundary)
    }
}

/// Checks a command line and reads its values.
pub fn parse_arguments(args: &Vec<String>) -> (parsed: Result<Arguments, ArgumentError>)
    ensures
        match parsed {
            Ok(arguments) => arguments_of(texts(args@)) == Ok::<_, ArgumentError>(arguments.parts()),
            Err(e) => arguments_of(texts(args@)) == Err::<
                (Seq<char>, Seq<char>, Point, Point, Bounds),
                _,
            >(e),
        },
{
    if args.len() < 2 {
        return Err(ArgumentError::MissingDimension);
    }
    if args.len() < 3 {
        return Err(ArgumentError::MissingPattern);
    }
    assert(texts(args@)[1] == args@[1]@);
    assert(texts(args@)[2] == args@[2]@);
    let home = if args.len() > 3 {
        assert(texts(args@)[3] == args@[3]@);
        match parse_triple(args[3].as_str()) {
            Ok(home) => home,
            Err(e) => {
                return Err(ArgumentError::Home(e));
            },
        }
    } else {
        Point { x: 0, y: 8, z: 0 }
    };
    let threshold = if args.len() > 4 {
        assert(texts(args@)[4] == args@[4]@);
        match parse_triple(args[4].as_str()) {
            Ok(threshold) => threshold,
            Err(e) => {
                return Err(ArgumentError::Threshold(e));
            },
        }
    } else {
        Point { x: 100, y: 8, z: 100 }
    };
    match Bounds::from_point(&home).checked_expand(&threshold) {
        Some(boundary) => Ok(
            Arguments {
                dimension: args[1].clone(),
                pattern: args[2].clone(),
                home,
                threshold,
                boundary,
            },
        ),
        None => Err(ArgumentError::Boundary),
    }
}

} // verus!
