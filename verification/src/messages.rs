//! The message log and the wording of its lines.

use vstd::prelude::*;
use vstd::string::StringExecFns;
use crate::color::Color;

verus! {

/// The log: lines of text with their colour, oldest first.
///
/// Lines are only ever added at the end.
pub struct Messages {
    messages: Vec<(String, Color)>,
}

/// A line of the log as contracts see it: its characters and its colour.
pub type Line = (Seq<char>, Color);

impl View for Messages {
    type V = Seq<Line>;

    closed spec fn view(&self) -> Seq<Line> {
        Seq::new(self.messages@.len(), |i: int| (self.messages@[i].0@, self.messages@[i].1))
    }
}

impl Messages {
    /// The empty log.
    pub fn new() -> (log: Self)
        ensures
            log@ == Seq::<Line>::empty(),
    {
        Self { messages: Vec::new() }
    }

    /// Adds a line at the end.
    pub fn add(&mut self, message: String, color: Color)
        ensures
            final(self)@ == old(self)@.push((message@, color)),
    {
        self.messages.push((message, color));
    }

    /// The number of lines.
    pub fn len(&self) -> (n: usize)
        ensures
            n == self@.len(),
    {
        self.messages.len()
    }

    /// The line at `index`, counted from the oldest.
    pub fn get(&self, index: usize) -> (line: &(String, Color))
        requires
            index < self@.len(),
        ensures
            (line.0@, line.1) == self@[index as int],
    {
        &self.messages[index]
    }

    /// The lines in the order in which they were added.
    pub fn iter(&self) -> (it: std::slice::Iter<'_, (String, Color)>)
        ensures
            vstd::std_specs::slice::into_iter_elts(it).len() == self@.len(),
            forall|i: int|
                0 <= i < self@.len() ==> {
                    let item = #[trigger] vstd::std_specs::slice::into_iter_elts(it)[i];
                    (item.0@, item.1) == self@[i]
                },
    {
        self.messages.iter()
    }
}

/// The character of a decimal digit.
pub open spec fn digit_char(d: int) -> char
    recommends
        0 <= d < 10,
{
    if d == 0 {
        '0'
    } else if d == 1 {
        '1'
    } else if d == 2 {
        '2'
    } else if d == 3 {
        '3'
    } else if d == 4 {
        '4'
    } else if d == 5 {
        '5'
    } else if d == 6 {
        '6'
    } else if d == 7 {
        '7'
    } else if d == 8 {
        '8'
    } else {
        '9'
    }
}

/// `n` written in decimal, without leading zeros.
pub open spec fn decimal(n: nat) -> Seq<char>
    decreases n,
{
    if n < 10 {
        seq![digit_char(n as int)]
    } else {
        decimal(n / 10).push(digit_char((n % 10) as int))
    }
}

fn digit_str(d: u32) -> (s: &'static str)
    requires
        d < 10,
    ensures
        s@ == seq![digit_char(d as int)],
{
    proof {
        reveal_strlit("0");
        reveal_strlit("1");
        reveal_strlit("2");
        reveal_strlit("3");
        reveal_strlit("4");
        reveal_strlit("5");
        reveal_strlit("6");
        reveal_strlit("7");
        reveal_strlit("8");
        reveal_strlit("9");
    }
    if d == 0 {
        "0"
    } else if d == 1 {
        "1"
    } else if d == 2 {
        "2"
    } else if d == 3 {
        "3"
    } else if d == 4 {
        "4"
    } else if d == 5 {
        "5"
    } else if d == 6 {
        "6"
    } else if d == 7 {
        "7"
    } else if d == 8 {
        "8"
    } else {
        "9"
    }
}

/// Writes `n` in decimal at the end of `text`.
pub fn push_decimal(text: &mut String, n: u32)
    ensures
        final(text)@ == old(text)@ + decimal(n as nat),
    decreases n,
{
    if n >= 10 {
        push_decimal(text, n / 10);
    }
    text.append(digit_str(n % 10));
}

/// The line for a blow that lands.
pub open spec fn hit_text(attacker: Seq<char>, target: Seq<char>, damage: nat) -> Seq<char> {
    attacker + " attacks "@ + target + " for "@ + decimal(damage) + " hit points"@
}

/// The line for a blow that does nothing.
pub open spec fn miss_text(attacker: Seq<char>, target: Seq<char>) -> Seq<char> {
    attacker + " attacks "@ + target + " but it has no effect"@
}

/// The line for a hostile's death.
pub open spec fn death_text(name: Seq<char>) -> Seq<char> {
    name + " is dead"@
}

/// What a dead hostile is called.
pub open spec fn remains_name(name: Seq<char>) -> Seq<char> {
    "remains of "@ + name
}

/// Words the line for a blow that lands.
pub fn hit_message(attacker: &str, target: &str, damage: u32) -> (text: String)
    ensures
        text@ == hit_text(attacker@, target@, damage as nat),
{
    let mut text = String::from_str(attacker);
    text.append(" attacks ");
    text.append(target);
    text.append(" for ");
    push_decimal(&mut text, damage);
    text.append(" hit points");
    text
}

/// Words the line for a blow that does nothing.
pub fn miss_message(attacker: &str, target: &str) -> (text: String)
    ensures
        text@ == miss_text(attacker@, target@),
{
    let mut text = String::from_str(attacker);
    text.append(" attacks ");
    text.append(target);
    text.append(" but it has no effect");
    text
}

/// Words the line for a hostile's death.
pub fn death_message(name: &str) -> (text: String)
    ensures
        text@ == death_text(name@),
{
    let mut text = String::from_str(name);
    text.append(" is dead");
    text
}

/// Words the name of a dead hostile.
pub fn remains_of(name: &str) -> (text: String)
    ensures
        text@ == remains_name(name@),
{
    let mut text = String::from_str("remains of ");
    text.append(name);
    text
}

} // verus!
