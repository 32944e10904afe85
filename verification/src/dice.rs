use crate::text::chars_of;
use rand::rngs::ThreadRng;
use rand::Rng;
use vstd::prelude::*;

verus! {

/// The random number generator of the current thread, from the outside
/// crate; opaque here.
#[verifier::external_type_specification]
#[verifier::external_body]
pub struct ExThreadRng(ThreadRng);

/// How a roll compares with the number of faces that was picked.
#[derive(Clone, Copy, Debug, PartialEq, Eq, Structural)]
pub enum Verdict {
    TooSmall,
    TooBig,
    Win,
}

/// `c` is white space, as Unicode's property `White_Space` has it.
pub open spec fn is_whitespace(c: char) -> bool {
    let u = c as u32;
    ||| 0x09 <= u <= 0x0d
    ||| u == 0x20
    ||| u == 0x85
    ||| u == 0xa0
    ||| u == 0x1680
    ||| 0x2000 <= u <= 0x200a
    ||| u == 0x2028
    ||| u == 0x2029
    ||| u == 0x202f
    ||| u == 0x205f
    ||| u == 0x3000
}

/// The position of the first character of `text` at or after `from` that
/// is no white space, or the length of `text` where there is none.
pub open spec fn first_mark(text: Seq<char>, from: int) -> int
    decreases text.len() - from,
{
    if from < 0 || from >= text.len() || !is_whitespace(text[from]) {
        from
    } else {
        first_mark(text, from + 1)
    }
}

/// The position behind the last character of `text` before `upto` that is
/// no white space, or 0 where there is none.
pub open spec fn last_mark(text: Seq<char>, upto: int) -> int
    decreases upto,
{
    if upto <= 0 || upto > text.len() || !is_whitespace(text[upto - 1]) {
        upto
    } else {
        last_mark(text, upto - 1)
    }
}

/// `text` without the white space at its two ends.
pub open spec fn trimmed(text: Seq<char>) -> Seq<char> {
    let from = first_mark(text, 0);
    let upto = last_mark(text, text.len() as int);
    if from < upto {
        text.subrange(from, upto)
    } else {
        Seq::empty()
    }
}

/// `c` is a decimal digit.
pub open spec fn is_digit(c: char) -> bool {
    '0' as u32 <= c as u32 <= '9' as u32
}

/// `digits` holds decimal digits only.
pub open spec fn all_digits(digits: Seq<char>) -> bool {
    forall|i: int| 0 <= i < digits.len() ==> is_digit(#[trigger] digits[i])
}

/// The number that the decimal digits `digits` write.
pub open spec fn number(digits: Seq<char>) -> nat
    decreases digits.len(),
{
    if digits.len() == 0 {
        0
    } else {
        number(digits.drop_last()) * 10 + (digits.last() as u32 - '0' as u32) as nat
    }
}

/// The roll that `line` holds. A roll is written as decimal digits, at
/// least one, with or without one plus sign before them and with any white
/// space around, and is no greater than `u32::MAX`.
pub open spec fn roll_in(line: Seq<char>) -> Option<u32> {
    let word = trimmed(line);
    let digits = if word.len() > 0 && word[0] == '+' {
        word.drop_first()
    } else {
        word
    };
    if digits.len() > 0 && all_digits(digits) && number(digits) <= u32::MAX {
        Some(number(digits) as u32)
    } else {
        None
    }
}

/// The verdict on `roll` where `faces` was picked.
pub open spec fn verdict(roll: u32, faces: u32) -> Verdict {
    if roll < faces {
        Verdict::TooSmall
    } else if roll > faces {
        Verdict::TooBig
    } else {
        Verdict::Win
    }
}

/// `rand::thread_rng`: the generator of the current thread. Nothing is
/// claimed of it. It fails fatally where the system gives it no seed.
#[verifier::external_body]
fn thread_rng() -> ThreadRng {
    rand::thread_rng()
}

/// `Rng::gen_range` on the half-open range from `low` to `high`: some
/// number of that range, a different one from call to call.
#[verifier::external_body]
fn gen_range(rng: &mut ThreadRng, low: u32, high: u32) -> (n: u32)
    requires
        low < high,
    ensures
        low <= n < high,
{
    rng.gen_range(low..high)
}

/// Picks the number of faces at random: one of 1, 2, 3, 4 and 5.
pub fn pick_faces() -> (faces: u32)
    ensures
        1 <= faces <= 5,
{
    let mut rng = thread_rng();
    gen_range(&mut rng, 1, 6)
}

/// Whether `c` is white space.
fn whitespace(c: char) -> (yes: bool)
    ensures
        yes == is_whitespace(c),
{
    let u: u32 = c as u32;
    (0x09 <= u && u <= 0x0d) || u == 0x20 || u == 0x85 || u == 0xa0 || u == 0x1680 || (0x2000 <= u
        && u <= 0x200a) || u == 0x2028 || u == 0x2029 || u == 0x202f || u == 0x205f || u == 0x3000
}

/// A number does not shrink when digits are written behind it.
proof fn lemma_number_grows(digits: Seq<char>, upto: int)
    requires
        0 <= upto <= digits.len(),
        all_digits(digits),
    ensures
        number(digits.take(upto)) <= number(digits),
    decreases digits.len() - upto,
{
    if upto < digits.len() {
        lemma_number_grows(digits, upto + 1);
        assert(digits.take(upto + 1).drop_last() =~= digits.take(upto));
    } else {
        assert(digits.take(upto) =~= digits);
    }
}

/// Reads the roll off the line that the player typed, see [`roll_in`].
pub fn parse_roll(line: &str) -> (roll: Option<u32>)
    ensures
        roll == roll_in(line@),
{
    let text = chars_of(line);
    let mut from: usize = 0;
    while from < text.len() && whitespace(text[from])
        invariant
            from <= text.len(),
            first_mark(text@, from as int) == first_mark(text@, 0),
        decreases text.len() - from,
    {
        from = from + 1;
    }
    let mut upto: usize = text.len();
    while upto > 0 && whitespace(text[upto - 1])
        invariant
            upto <= text.len(),
            last_mark(text@, upto as int) == last_mark(text@, text.len() as int),
        decreases upto,
    {
        upto = upto - 1;
    }
    if from >= upto {
        return None;
    }
    let ghost word = text@.subrange(from as int, upto as int);
    assert(word == trimmed(text@));
    let start: usize = if text[from] == '+' {
        from + 1
    } else {
        from
    };
    let ghost digits = text@.subrange(start as int, upto as int);
    assert(digits =~= if word[0] == '+' {
        word.drop_first()
    } else {
        word
    });
    if start >= upto {
        return None;
    }
    let mut value: u32 = 0;
    let mut at: usize = start;
    assert(digits.take(0) =~= Seq::<char>::empty());
    while at < upto
        invariant
            start <= at <= upto <= text.len(),
            digits == text@.subrange(start as int, upto as int),
            forall|i: int| 0 <= i < at - start ==> is_digit(digits[i]),
            value == number(digits.take(at - start)),
            roll_in(line@) == if all_digits(digits) && number(digits) <= u32::MAX {
                Some(number(digits) as u32)
            } else {
                None
            },
        decreases upto - at,
    {
        let c: char = text[at];
        assert(digits[at - start] == c);
        let code: u32 = c as u32;
        if code < 48 || code > 57 {
            assert(!is_digit(digits[at - start]));
            return None;
        }
        let d: u32 = code - 48;
        proof {
            assert(digits.take(at - start + 1).drop_last() =~= digits.take(at - start));
            assert(digits.take(at - start + 1).last() == c);
        }
        if value > (u32::MAX - d) / 10 {
            proof {
                if all_digits(digits) {
                    lemma_number_grows(digits, at - start + 1);
                }
            }
            return None;
        }
        value = value * 10 + d;
        at = at + 1;
    }
    assert(digits.take(upto - start) =~= digits);
    Some(value)
}

/// Judges `roll` against the number of faces that was picked: equal wins,
/// anything else is too small or too big.
pub fn judge(roll: u32, faces: u32) -> (outcome: Verdict)
    ensures
        outcome == verdict(roll, faces),
{
    if roll < faces {
        Verdict::TooSmall
    } else if roll > faces {
        Verdict::TooBig
    } else {
        Verdict::Win
    }
}

impl Verdict {
    /// What the player is told.
    pub fn message(&self) -> (text: &'static str)
        ensures
            text@ == match *self {
                Verdict::TooSmall => "Too small!"@,
                Verdict::TooBig => "Too big!"@,
                Verdict::Win => "You win!"@,
            },
    {
        match self {
            Verdict::TooSmall => "Too small!",
            Verdict::TooBig => "Too big!",
            Verdict::Win => "You win!",
        }
    }
}

} // verus!
