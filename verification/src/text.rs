//! Text: the names behind interned symbols, and numbers written out.

use crate::span::Ident;
use vstd::prelude::*;

verus! {

/// The text of the digit `d`.
pub open spec fn digit_text(d: nat) -> Seq<char> {
    if d == 0 {
        "0"@
    } else if d == 1 {
        "1"@
    } else if d == 2 {
        "2"@
    } else if d == 3 {
        "3"@
    } else if d == 4 {
        "4"@
    } else if d == 5 {
        "5"@
    } else if d == 6 {
        "6"@
    } else if d == 7 {
        "7"@
    } else if d == 8 {
        "8"@
    } else {
        "9"@
    }
}

/// The number `n` written in decimal digits.
pub open spec fn decimal(n: nat) -> Seq<char>
    decreases n,
{
    if n < 10 {
        digit_text(n)
    } else {
        decimal(n / 10) + digit_text(n % 10)
    }
}

/// The integer `n` written in decimal digits, with a minus sign if it is negative.
pub open spec fn signed_decimal(n: int) -> Seq<char> {
    if n < 0 {
        "-"@ + decimal((-n) as nat)
    } else {
        decimal(n as nat)
    }
}

/// The text of the digit `d`.
fn digit_str(d: u64) -> (s: &'static str)
    requires
        d < 10,
    ensures
        s@ == digit_text(d as nat),
{
    if d == 0 {
        "0"
    } else if d == 1 {
        "1"
    } else if d == 2 {
        "2"
    } else if d == 3 {
        "3"
    } else if d == 4 {
        "4"
    } else if d == 5 {
        "5"
    } else if d == 6 {
        "6"
    } else if d == 7 {
        "7"
    } else if d == 8 {
        "8"
    } else {
        "9"
    }
}

/// The number `n` written in decimal digits.
pub fn decimal_string(n: u64) -> (s: String)
    ensures
        s@ == decimal(n as nat),
    decreases n,
{
    if n < 10 {
        String::from_str(digit_str(n))
    } else {
        let mut s = decimal_string(n / 10);
        s.append(digit_str(n % 10));
        s
    }
}

/// The integer `n` written in decimal digits, with a minus sign if it is negative.
pub fn signed_decimal_string(n: i64) -> (s: String)
    ensures
        s@ == signed_decimal(n as int),
{
    if n < 0 {
        let magnitude: u64 = ((-(n + 1)) as u64) + 1;
        let mut s = String::from_str("-");
        let digits = decimal_string(magnitude);
        s.append(digits.as_str());
        s
    } else {
        decimal_string(n as u64)
    }
}

/// `char::to_string`: the text that holds the one character `c`.
#[verifier::external_body]
pub(crate) fn char_string(c: char) -> (s: String)
    ensures
        s@ == seq![c],
{
    c.to_string()
}

/// The text of the name `name`: the text at its position, or a question mark if
/// there is none.
pub open spec fn name_text(texts: Seq<Seq<char>>, name: Ident) -> Seq<char> {
    if name.0 < texts.len() {
        texts[name.0 as int]
    } else {
        "?"@
    }
}

/// The position of the text `text` in `texts` at or after `from`, if it is there.
pub open spec fn text_position(texts: Seq<Seq<char>>, text: Seq<char>, from: nat) -> Option<nat>
    decreases texts.len() - from,
{
    if from >= texts.len() {
        None
    } else if texts[from as int] == text {
        Some(from)
    } else {
        text_position(texts, text, from + 1)
    }
}

/// The texts of the interned names. The name of a text is its position.
pub struct Names {
    texts: Vec<String>,
}

impl View for Names {
    type V = Seq<Seq<char>>;

    closed spec fn view(&self) -> Seq<Seq<char>> {
        Seq::new(self.texts@.len(), |i: int| self.texts@[i]@)
    }
}

impl Names {
    /// A table without names.
    pub fn new() -> (r: Names)
        ensures
            r@.len() == 0,
    {
        Names { texts: Vec::new() }
    }

    /// The number of names.
    pub fn len(&self) -> (n: usize)
        ensures
            n == self@.len(),
    {
        self.texts.len()
    }

    /// The name of `text`: the one it was given before, or a new one.
    pub fn intern(&mut self, text: &str) -> (name: Ident)
        ensures
            match text_position(old(self)@, text@, 0) {
                Some(i) => name.0 == i && final(self)@ == old(self)@,
                None => name.0 == old(self)@.len() && final(self)@ == old(self)@.push(text@),
            },
    {
        let wanted = String::from_str(text);
        let mut i: usize = 0;
        while i < self.texts.len()
            invariant
                i <= self.texts.len(),
                *self == *old(self),
                wanted@ == text@,
                text_position(self@, text@, 0) == text_position(self@, text@, i as nat),
            decreases self.texts.len() - i,
        {
            if self.texts[i] == wanted {
                return Ident(i as u64);
            }
            i += 1;
        }
        let ghost before = self@;
        self.texts.push(wanted);
        assert(self@ =~= before.push(text@));
        Ident(i as u64)
    }

    /// The text of the name `name`, or a question mark if the table has no such name.
    pub fn text(&self, name: Ident) -> (s: String)
        ensures
            s@ == name_text(self@, name),
    {
        if name.0 < self.texts.len() as u64 {
            self.texts[name.0 as usize].clone()
        } else {
            String::from_str("?")
        }
    }
}

} // verus!
