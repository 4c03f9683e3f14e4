//! Reading a user's answer to "which of these?" and deciding whether a
//! question has to be asked at all.

use vstd::prelude::*;
use vstd::string::*;
use crate::error::Error;

verus! {

/// Whether `c` is white space, as Unicode's `White_Space` property has it.
pub open spec fn is_blank(c: char) -> bool {
    let code = c as u32;
    ||| 0x09 <= code <= 0x0d
    ||| code == 0x20
    ||| code == 0x85
    ||| code == 0xa0
    ||| code == 0x1680
    ||| 0x2000 <= code <= 0x200a
    ||| code == 0x2028
    ||| code == 0x2029
    ||| code == 0x202f
    ||| code == 0x205f
    ||| code == 0x3000
}

/// Whether `c` is one of the ten decimal digits.
pub open spec fn is_digit(c: char) -> bool {
    0x30 <= c as u32 <= 0x39
}

/// How many blanks `s` starts with.
pub open spec fn leading_blanks(s: Seq<char>) -> nat
    decreases s.len(),
{
    if s.len() > 0 && is_blank(s[0]) {
        1 + leading_blanks(s.drop_first())
    } else {
        0
    }
}

/// How many blanks `s` ends with.
pub open spec fn trailing_blanks(s: Seq<char>) -> nat
    decreases s.len(),
{
    if s.len() > 0 && is_blank(s.last()) {
        1 + trailing_blanks(s.drop_last())
    } else {
        0
    }
}

/// `s` without the blanks at its two ends.
pub open spec fn trimmed(s: Seq<char>) -> Seq<char> {
    if leading_blanks(s) == s.len() {
        Seq::empty()
    } else {
        s.subrange(leading_blanks(s) as int, s.len() - trailing_blanks(s))
    }
}

/// The number that the digits of `s` write in base ten.
pub open spec fn decimal(s: Seq<char>) -> nat
    decreases s.len(),
{
    if s.len() == 0 {
        0
    } else {
        decimal(s.drop_last()) * 10 + (s.last() as u32 - 0x30) as nat
    }
}

/// Whether `s` holds decimal digits and nothing else.
pub open spec fn all_digits(s: Seq<char>) -> bool {
    forall|i: int| 0 <= i < s.len() ==> is_digit(#[trigger] s[i])
}

/// The number that `s` writes: one or more digits, after at most one `+`.
/// Anything else writes no number.
pub open spec fn unsigned_number(s: Seq<char>) -> Option<nat> {
    let digits = if s.len() > 0 && s[0] == '+' {
        s.drop_first()
    } else {
        s
    };
    if digits.len() > 0 && all_digits(digits) {
        Some(decimal(digits))
    } else {
        None
    }
}

/// The candidate that the answer `s` selects among `count` candidates,
/// numbered from zero: the number that `s` writes between blanks, if it
/// writes one and that one is below `count`.
pub open spec fn selection(s: Seq<char>, count: nat) -> Option<nat> {
    match unsigned_number(trimmed(s)) {
        Some(index) => if index < count {
            Some(index)
        } else {
            None
        },
        None => None,
    }
}

proof fn lemma_leading_blanks(s: Seq<char>, start: int)
    requires
        0 <= start <= s.len(),
        forall|i: int| 0 <= i < start ==> is_blank(#[trigger] s[i]),
        start == s.len() || !is_blank(s[start]),
    ensures
        leading_blanks(s) == start,
    decreases start,
{
    if start > 0 {
        let rest = s.drop_first();
        assert forall|i: int| 0 <= i < start - 1 implies is_blank(#[trigger] rest[i]) by {
            assert(rest[i] == s[i + 1]);
        }
        if start < s.len() {
            assert(rest[start - 1] == s[start]);
        }
        lemma_leading_blanks(rest, start - 1);
    }
}

proof fn lemma_trailing_blanks(s: Seq<char>, end: int)
    requires
        0 <= end <= s.len(),
        forall|i: int| end <= i < s.len() ==> is_blank(#[trigger] s[i]),
        end == 0 || !is_blank(s[end - 1]),
    ensures
        trailing_blanks(s) == s.len() - end,
    decreases s.len() - end,
{
    if end < s.len() {
        let rest = s.drop_last();
        assert forall|i: int| end <= i < rest.len() implies is_blank(#[trigger] rest[i]) by {
            assert(rest[i] == s[i]);
        }
        if end > 0 {
            assert(rest[end - 1] == s[end - 1]);
        }
        lemma_trailing_blanks(rest, end);
    }
}

fn blank(c: char) -> (yes: bool)
    ensures
        yes == is_blank(c),
{
    let code: u32 = c as u32;
    (0x09 <= code && code <= 0x0d) || code == 0x20 || code == 0x85 || code == 0xa0
        || code == 0x1680 || (0x2000 <= code && code <= 0x200a) || code == 0x2028
        || code == 0x2029 || code == 0x202f || code == 0x205f || code == 0x3000
}

/// Reads the answer to a prompt that listed `count` candidates, numbered
/// from zero.
///
/// The answer may stand between blanks and may carry one `+`. It selects a
/// candidate when it is a decimal number below `count`; every other answer
/// is `Error::InvalidSelection`.
pub fn parse_selection(input: &str, count: usize) -> (picked: Result<usize, Error>)
    ensures
        picked == match selection(input@, count as nat) {
            Some(index) => Ok::<usize, Error>(index as usize),
            None => Err::<usize, Error>(Error::InvalidSelection),
        },
        picked matches Ok(index) ==> index < count,
{
    let n: usize = input.unicode_len();
    let mut start: usize = 0;
    while start < n && blank(input.get_char(start))
        invariant
            n == input@.len(),
            start <= n,
            forall|i: int| 0 <= i < start ==> is_blank(#[trigger] input@[i]),
        decreases n - start,
    {
        start += 1;
    }
    proof {
        lemma_leading_blanks(input@, start as int);
    }
    if start == n {
        return Err(Error::InvalidSelection);
    }
    let mut end: usize = n;
    while end > start && blank(input.get_char(end - 1))
        invariant
            n == input@.len(),
            start <= end <= n,
            forall|i: int| end <= i < n ==> is_blank(#[trigger] input@[i]),
        decreases end,
    {
        end -= 1;
    }
    proof {
        lemma_trailing_blanks(input@, end as int);
        assert(trimmed(input@) == input@.subrange(start as int, end as int));
    }
    let ghost body = input@.subrange(start as int, end as int);
    let mut at: usize = start;
    if input.get_char(at) == '+' {
        at += 1;
    }
    let ghost digits = input@.subrange(at as int, end as int);
    proof {
        assert(body[0] == input@[start as int]);
        if at > start {
            assert(body.drop_first() =~= digits);
        } else {
            assert(body =~= digits);
        }
    }
    if at == end {
        return Err(Error::InvalidSelection);
    }
    let first: usize = at;
    let mut value: u128 = 0;
    let mut too_big: bool = false;
    while at < end
        invariant
            n == input@.len(),
            first <= at <= end <= n,
            digits == input@.subrange(first as int, end as int),
            digits.len() > 0,
            unsigned_number(trimmed(input@)) == (if all_digits(digits) {
                Some(decimal(digits))
            } else {
                None
            }),
            forall|i: int| 0 <= i < at - first ==> is_digit(#[trigger] digits[i]),
            too_big ==> decimal(digits.take(at - first)) >= count,
            !too_big ==> value == decimal(digits.take(at - first)) && (value < count || at == first),
            !too_big ==> value <= usize::MAX,
        decreases end - at,
    {
        let c: char = input.get_char(at);
        let code: u32 = c as u32;
        proof {
            assert(digits[at - first] == c);
            assert(digits.take(at - first + 1).drop_last() =~= digits.take(at - first));
            assert(digits.take(at - first + 1).last() == c);
        }
        if code < 0x30 || code > 0x39 {
            assert(!is_digit(digits[at - first]));
            return Err(Error::InvalidSelection);
        }
        if !too_big {
            value = value * 10 + (code - 0x30) as u128;
            if value >= count as u128 {
                too_big = true;
            }
        }
        at += 1;
    }
    proof {
        assert(digits.take(end - first) =~= digits);
    }
    if too_big {
        Err(Error::InvalidSelection)
    } else {
        Ok(value as usize)
    }
}

/// What to do about choosing one of several candidates.
#[derive(Clone, Copy, Debug, PartialEq, Eq, Structural)]
pub enum Pick {
    /// There is no candidate.
    Empty,
    /// The user has to be asked; no answer is there yet.
    Ask,
    /// The user's answer selects no candidate.
    Invalid,
    /// The candidate at this index is chosen.
    Index(usize),
}

/// The text of an answer, if there is one.
pub open spec fn answer_text(answer: Option<&String>) -> Option<Seq<char>> {
    match answer {
        Some(text) => Some(text@),
        None => None,
    }
}

/// The rule for choosing among `count` candidates. A single candidate is
/// taken without asking, and so is the first one when `take_first` is set.
/// Otherwise the answer decides, once it is there.
pub open spec fn spec_pick(count: nat, take_first: bool, answer: Option<Seq<char>>) -> Pick {
    if count == 0 {
        Pick::Empty
    } else if count == 1 || take_first {
        Pick::Index(0)
    } else {
        match answer {
            None => Pick::Ask,
            Some(text) => match selection(text, count) {
                Some(index) => Pick::Index(index as usize),
                None => Pick::Invalid,
            },
        }
    }
}

/// Whether choosing among `count` candidates needs an answer from the user.
pub open spec fn needs_answer(count: nat, take_first: bool) -> bool {
    count > 1 && !take_first
}

/// Chooses among `count` candidates by the rule of `spec_pick`.
pub fn pick(count: usize, take_first: bool, answer: Option<&String>) -> (choice: Pick)
    ensures
        choice == spec_pick(count as nat, take_first, answer_text(answer)),
        choice matches Pick::Index(index) ==> index < count,
{
    if count == 0 {
        Pick::Empty
    } else if count == 1 || take_first {
        Pick::Index(0)
    } else {
        match answer {
            None => Pick::Ask,
            Some(text) => match parse_selection(text.as_str(), count) {
                Ok(index) => Pick::Index(index),
                Err(_) => Pick::Invalid,
            },
        }
    }
}

} // verus!
