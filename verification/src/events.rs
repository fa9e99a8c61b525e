//! The text client's line of input and what each key does to it.

use vstd::prelude::*;

verus! {

/// `String::push`: appends `c`.
#[verifier::external_body]
fn string_push(s: &mut String, c: char)
    ensures
        final(s)@ == old(s)@.push(c),
{
    s.push(c);
}

/// `String::pop`: removes and returns the last character, if any.
#[verifier::external_body]
fn string_pop(s: &mut String) -> (r: Option<char>)
    ensures
        if old(s)@.len() == 0 {
            r is None && final(s)@ == old(s)@
        } else {
            r == Some(old(s)@.last()) && final(s)@ == old(s)@.drop_last()
        },
{
    s.pop()
}

/// A key the client reacts to.
#[derive(Debug, Clone, Copy, PartialEq, Eq)]
pub enum Key {
    Char(char),
    Backspace,
    Enter,
    Esc,
    /// Any other key.
    Other,
}

/// What follows a key press.
pub enum KeyAction {
    /// The input line changed.
    Edited,
    /// The line was entered; it is handed over and the input is cleared.
    Submit(String),
    /// The client is to stop.
    Stop,
    /// Nothing happens.
    Ignored,
}

/// The line being typed.
pub struct InputLine {
    text: String,
}

impl View for InputLine {
    type V = Seq<char>;

    closed spec fn view(&self) -> Seq<char> {
        self.text@
    }
}

impl InputLine {
    /// An empty line.
    pub fn new() -> (r: InputLine)
        ensures
            r@ == Seq::<char>::empty(),
    {
        InputLine { text: String::new() }
    }

    /// The text typed so far.
    pub fn as_str(&self) -> (r: &str)
        ensures
            r@ == self@,
    {
        self.text.as_str()
    }

    /// Applies a key: a character is typed, Backspace deletes the last
    /// character, Enter hands over the line and clears it, Esc stops.
    pub fn handle_key(&mut self, key: Key) -> (r: KeyAction)
        ensures
            match key {
                Key::Char(c) => final(self)@ == old(self)@.push(c) && r is Edited,
                Key::Backspace => r is Edited && final(self)@ == if old(self)@.len() > 0 {
                    old(self)@.drop_last()
                } else {
                    old(self)@
                },
                Key::Enter => final(self)@ == Seq::<char>::empty() && (r matches KeyAction::Submit(line) && line@ == old(self)@),
                Key::Esc => final(self)@ == old(self)@ && r is Stop,
                Key::Other => final(self)@ == old(self)@ && r is Ignored,
            },
    {
        match key {
            Key::Char(c) => {
                string_push(&mut self.text, c);
                KeyAction::Edited
            },
            Key::Backspace => {
                string_pop(&mut self.text);
                KeyAction::Edited
            },
            Key::Enter => {
                let mut line = String::new();
                std::mem::swap(&mut line, &mut self.text);
                KeyAction::Submit(line)
            },
            Key::Esc => KeyAction::Stop,
            Key::Other => KeyAction::Ignored,
        }
    }
}

} // verus!
