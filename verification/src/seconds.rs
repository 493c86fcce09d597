//! A duration in seconds, kept as the decimal literal that denotes it.
//!
//! The broker never computes with a duration: it receives one, stores it and
//! passes it on. Keeping the literal makes that exact.

use vstd::prelude::*;
use vstd::string::StringExecFns;
use crate::text::{chars_of, is_digit};

verus! {

/// The end of the run of digits that starts at `from`.
pub open spec fn digits_end(s: Seq<char>, from: int) -> int
    decreases s.len() - from,
{
    if 0 <= from < s.len() && is_digit(s[from]) {
        digits_end(s, from + 1)
    } else {
        from
    }
}

/// A plus or a minus.
pub open spec fn is_sign(c: char) -> bool {
    c == '+' || c == '-'
}

/// An exponent's body from `from` on: an optional sign, then digits to the end.
pub open spec fn is_exponent(s: Seq<char>, from: int) -> bool {
    let k = if from < s.len() && is_sign(s[from]) {
        from + 1
    } else {
        from
    };
    k < s.len() && digits_end(s, k) == s.len()
}

/// A number from `from` on: digits with at most one point among them, at
/// least one digit in all, then an optional exponent.
pub open spec fn is_number(s: Seq<char>, from: int) -> bool {
    let i = digits_end(s, from);
    let pointed = i < s.len() && s[i] == '.';
    let j = if pointed {
        digits_end(s, i + 1)
    } else {
        i
    };
    let digits = if pointed {
        (i - from) + (j - (i + 1))
    } else {
        i - from
    };
    digits >= 1 && (j == s.len() || ((s[j] == 'e' || s[j] == 'E') && is_exponent(s, j + 1)))
}

/// Whether `s[from..]` spells `word`, letter case aside. `word` is in lower case.
pub open spec fn spells(s: Seq<char>, from: int, word: Seq<char>) -> bool {
    &&& s.len() - from == word.len()
    &&& forall|i: int|
        0 <= i < word.len() ==> (#[trigger] s[from + i] == word[i] || s[from + i] as u32 + 32
            == word[i] as u32)
}

/// Whether `s[from..]` spells infinity or not-a-number.
pub open spec fn is_special(s: Seq<char>, from: int) -> bool {
    ||| spells(s, from, seq!['i', 'n', 'f'])
    ||| spells(s, from, seq!['i', 'n', 'f', 'i', 'n', 'i', 't', 'y'])
    ||| spells(s, from, seq!['n', 'a', 'n'])
}

/// The literals of a floating-point number: an optional sign, then `inf`,
/// `infinity`, `nan` (in any letter case) or a decimal number.
pub open spec fn is_literal(s: Seq<char>) -> bool {
    let from: int = if s.len() > 0 && is_sign(s[0]) {
        1
    } else {
        0
    };
    is_special(s, from) || is_number(s, from)
}

fn scan_digits(chars: &Vec<char>, from: usize) -> (r: usize)
    requires
        from <= chars.len(),
    ensures
        from <= r <= chars.len(),
        r == digits_end(chars@, from as int),
{
    let mut i: usize = from;
    while i < chars.len() && '0' <= chars[i] && chars[i] <= '9'
        invariant
            from <= i <= chars.len(),
            digits_end(chars@, from as int) == digits_end(chars@, i as int),
        decreases chars.len() - i,
    {
        i += 1;
    }
    i
}

fn check_exponent(chars: &Vec<char>, from: usize) -> (r: bool)
    requires
        from <= chars.len(),
    ensures
        r == is_exponent(chars@, from as int),
{
    let k: usize = if from < chars.len() && (chars[from] == '+' || chars[from] == '-') {
        from + 1
    } else {
        from
    };
    k < chars.len() && scan_digits(chars, k) == chars.len()
}

fn check_number(chars: &Vec<char>, from: usize) -> (r: bool)
    requires
        from <= chars.len(),
    ensures
        r == is_number(chars@, from as int),
{
    let i = scan_digits(chars, from);
    let pointed = i < chars.len() && chars[i] == '.';
    let j: usize = if pointed {
        scan_digits(chars, i + 1)
    } else {
        i
    };
    let digits: usize = if pointed {
        (i - from) + (j - (i + 1))
    } else {
        i - from
    };
    if digits < 1 {
        return false;
    }
    if j == chars.len() {
        return true;
    }
    (chars[j] == 'e' || chars[j] == 'E') && check_exponent(chars, j + 1)
}

fn check_word(chars: &Vec<char>, from: usize, word: &Vec<char>) -> (r: bool)
    requires
        from <= chars.len(),
    ensures
        r == spells(chars@, from as int, word@),
{
    if chars.len() - from != word.len() {
        return false;
    }
    let mut i: usize = 0;
    while i < word.len()
        invariant
            i <= word.len(),
            from <= chars.len(),
            chars.len() - from == word.len(),
            forall|k: int|
                0 <= k < i ==> (#[trigger] chars@[from + k] == word@[k] || chars@[from + k] as u32
                    + 32 == word@[k] as u32),
        decreases word.len() - i,
    {
        let c = chars[from + i];
        let w = word[i];
        if !(c == w || (w as u32 >= 32 && c as u32 == w as u32 - 32)) {
            return false;
        }
        i += 1;
    }
    true
}

fn check_literal(chars: &Vec<char>) -> (r: bool)
    ensures
        r == is_literal(chars@),
{
    let from: usize = if chars.len() > 0 && (chars[0] == '+' || chars[0] == '-') {
        1
    } else {
        0
    };
    let inf: Vec<char> = vec!['i', 'n', 'f'];
    let infinity: Vec<char> = vec!['i', 'n', 'f', 'i', 'n', 'i', 't', 'y'];
    let nan: Vec<char> = vec!['n', 'a', 'n'];
    assert(inf@ =~= seq!['i', 'n', 'f']);
    assert(infinity@ =~= seq!['i', 'n', 'f', 'i', 'n', 'i', 't', 'y']);
    assert(nan@ =~= seq!['n', 'a', 'n']);
    check_word(chars, from, &inf) || check_word(chars, from, &infinity) || check_word(
        chars,
        from,
        &nan,
    ) || check_number(chars, from)
}

/// A duration in seconds, as a literal.
#[derive(Debug, PartialEq, Eq)]
pub struct Seconds {
    text: String,
}

impl View for Seconds {
    type V = Seq<char>;

    closed spec fn view(&self) -> Seq<char> {
        self.text@
    }
}

impl Seconds {
    #[verifier::type_invariant]
    spec fn well_formed(self) -> bool {
        is_literal(self.text@)
    }

    /// The literal `0`.
    pub open spec fn zero_text() -> Seq<char> {
        seq!['0']
    }

    /// Zero seconds.
    pub fn zero() -> (r: Seconds)
        ensures
            r@ == Seconds::zero_text(),
    {
        proof {
            reveal_strlit("0");
        }
        let text = String::from_str("0");
        assert(text@ =~= seq!['0']);
        assert(digits_end(text@, 1) == 1);
        assert(digits_end(text@, 0) == 1);
        Seconds { text }
    }

    /// Accepts `text` exactly when it is a literal, and keeps it as it stands.
    pub fn parse(text: &str) -> (r: Option<Seconds>)
        ensures
            match r {
                Some(s) => is_literal(text@) && s@ == text@,
                None => !is_literal(text@),
            },
    {
        let chars = chars_of(text);
        if check_literal(&chars) {
            Some(Seconds { text: String::from_str(text) })
        } else {
            None
        }
    }

    /// The literal, which is always well formed.
    pub fn as_str(&self) -> (r: &str)
        ensures
            r@ == self@,
            is_literal(r@),
    {
        proof {
            use_type_invariant(self);
        }
        self.text.as_str()
    }
}

impl Clone for Seconds {
    fn clone(&self) -> (r: Seconds)
        ensures
            r@ == self@,
    {
        proof {
            use_type_invariant(self);
        }
        Seconds { text: self.text.clone() }
    }
}

} // verus!
