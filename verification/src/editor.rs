//! The line editor of the command prompt.
//!
//! The line always starts with the prompt character `~`, which cannot be
//! removed. The cursor stands on one character of the text behind the prompt,
//! or on the prompt itself while the text is empty: it is the number of
//! characters up to and including the one it stands on.

use vstd::prelude::*;
use crate::text::{chars_of, text_of};

verus! {

/// The keys that the editor and the prompt react to.
#[derive(Debug, Clone, Copy, PartialEq, Eq, Structural)]
pub enum Key {
    /// The left arrow.
    Left,
    /// The right arrow.
    Right,
    /// Backspace.
    Back,
    /// Delete.
    Delete,
    /// The letter C.
    C,
    /// Escape.
    Escape,
    /// The tabulator.
    Tab,
    /// The return key.
    Return,
    /// Any other key.
    Other,
}

/// One event of the keyboard.
#[derive(Debug, Clone, Copy)]
pub struct KeyInput {
    /// The key, where the keyboard layout names one.
    pub key: Option<Key>,
    /// Whether the key went down, not up.
    pub pressed: bool,
    /// Whether a control key is held.
    pub ctrl: bool,
    /// Whether a shift key is held.
    pub shift: bool,
}

/// Whether `c` parts the terms of a command line.
pub open spec fn delimits(c: char) -> bool {
    c == ' '
}

/// Tells whether `c` parts the terms of a command line.
pub fn is_delim(c: char) -> (delim: bool)
    ensures
        delim == delimits(c),
{
    return ' ' == c;
}

/// Whether `c` is a control character of ASCII.
pub open spec fn is_control(c: char) -> bool {
    c <= '\u{1f}' || c == '\u{7f}'
}

/// Going back from place `pt`, the first place that holds a delimiter, or 0
/// where there is none before the start of the line.
pub open spec fn term_back(text: Seq<char>, pt: int) -> int
    decreases pt,
{
    if 0 < pt < text.len() && !delimits(text[pt]) {
        term_back(text, pt - 1)
    } else {
        pt
    }
}

/// Going on from place `pt`, the first place that holds a delimiter, or the
/// end of the line.
pub open spec fn term_end(text: Seq<char>, pt: int) -> int
    decreases text.len() - pt,
{
    if 0 <= pt < text.len() && !delimits(text[pt]) {
        term_end(text, pt + 1)
    } else {
        pt
    }
}

/// The place where the term under the cursor starts.
pub open spec fn term_start(text: Seq<char>, cursor: int) -> int {
    term_back(text, cursor - 1) + 1
}

/// The term under the cursor: the characters around it up to the next
/// delimiter on either side.
pub open spec fn working_term(text: Seq<char>, cursor: int) -> Seq<char> {
    let low = term_start(text, cursor);
    text.subrange(low, term_end(text, low))
}

/// The line after the term under the cursor was replaced by `sub`.
pub open spec fn filled(text: Seq<char>, cursor: int, sub: Seq<char>) -> Seq<char> {
    let low = term_start(text, cursor);
    text.subrange(0, low) + sub + text.subrange(term_end(text, low), text.len() as int)
}

/// The line and the cursor after an event of the keyboard. Only a key that
/// goes down counts. The arrows move the cursor within the text, backspace and
/// delete remove the character that the cursor stands on, and escape and
/// control-C clear the line.
pub open spec fn after_event(text: Seq<char>, cursor: int, input: KeyInput) -> (Seq<char>, int) {
    if input.key is None || !input.pressed {
        (text, cursor)
    } else {
        match input.key->0 {
            Key::Left => (
                text,
                if cursor > 1 {
                    cursor - 1
                } else {
                    cursor
                },
            ),
            Key::Right => (
                text,
                if cursor < text.len() {
                    cursor + 1
                } else {
                    cursor
                },
            ),
            Key::Back | Key::Delete => if cursor > 1 && cursor <= text.len() {
                (
                    text.remove(cursor - 1),
                    if cursor <= text.len() - 1 {
                        cursor
                    } else {
                        text.len() - 1
                    },
                )
            } else {
                (text, cursor)
            },
            Key::C => if input.ctrl {
                (seq!['~'], 1)
            } else {
                (text, cursor)
            },
            Key::Escape => (seq!['~'], 1),
            _ => (text, cursor),
        }
    }
}

/// The line editor.
#[derive(Debug)]
pub struct Editor {
    buffer: Vec<char>,
    cursor: usize,
}

impl Editor {
    /// The line, prompt included.
    pub closed spec fn text(&self) -> Seq<char> {
        self.buffer@
    }

    /// The cursor.
    pub closed spec fn at(&self) -> int {
        self.cursor as int
    }

    /// The line starts with the prompt, and the cursor stands within it.
    pub open spec fn wf(&self) -> bool {
        &&& self.text().len() >= 1
        &&& self.text()[0] == '~'
        &&& 1 <= self.at() <= self.text().len()
    }

    /// The editor of an empty line.
    pub fn new() -> (editor: Editor)
        ensures
            editor.wf(),
            editor.text() == seq!['~'],
            editor.at() == 1,
    {
        let mut buffer: Vec<char> = Vec::new();
        buffer.push('~');
        assert(buffer@ =~= seq!['~']);
        Editor { buffer, cursor: 1 }
    }

    /// Types a character behind the cursor. A control character is ignored.
    pub fn send_key(&mut self, c: char)
        requires
            old(self).wf(),
        ensures
            final(self).wf(),
            is_control(c) ==> final(self).text() == old(self).text() && final(self).at() == old(self).at(),
            !is_control(c) ==> final(self).text() == old(self).text().insert(old(self).at(), c)
                && final(self).at() == old(self).at() + 1,
    {
        if c <= '\u{1f}' || c == '\u{7f}' {
        } else {
            self.buffer.insert(self.cursor, c);
            let n = self.buffer.len();
            assert(self.cursor < n);
            self.cursor += 1;
        }
    }

    /// Reacts to an event of the keyboard.
    pub fn send_event(&mut self, input: &KeyInput)
        requires
            old(self).wf(),
        ensures
            final(self).wf(),
            (final(self).text(), final(self).at()) == after_event(
                old(self).text(),
                old(self).at(),
                *input,
            ),
    {
        if let Some(k) = input.key {
            if input.pressed {
                match k {
                    Key::Left => {
                        if self.cursor > 1 {
                            self.cursor -= 1
                        }
                    },
                    Key::Right => {
                        if self.cursor < self.buffer.len() {
                            self.cursor += 1
                        }
                    },
                    Key::Back | Key::Delete => {
                        if self.cursor > 1 && self.cursor <= self.buffer.len() {
                            self.buffer.remove(self.cursor - 1);
                            if self.cursor > self.buffer.len() {
                                self.cursor = self.buffer.len();
                            }
                        }
                    },
                    Key::C => {
                        if input.ctrl {
                            self.clear()
                        }
                    },
                    Key::Escape => self.clear(),
                    _ => (),
                }
            }
        }
    }

    /// Clears the line.
    pub fn clear(&mut self)
        ensures
            final(self).wf(),
            final(self).text() == seq!['~'],
            final(self).at() == 1,
    {
        self.buffer.clear();
        self.buffer.push('~');
        self.cursor = 1;
        assert(self.buffer@ =~= seq!['~']);
    }

    /// Finds where the term under the cursor starts and ends.
    fn term_bounds(&self) -> (bounds: (usize, usize))
        requires
            self.wf(),
        ensures
            bounds.0 == term_start(self.text(), self.at()),
            bounds.1 == term_end(self.text(), bounds.0 as int),
            1 <= bounds.0 <= bounds.1 <= self.text().len(),
            bounds.0 <= self.at() + 1,
    {
        let mut pt: usize = self.cursor - 1;
        while pt > 0 && !is_delim(self.buffer[pt])
            invariant
                pt < self.buffer@.len(),
                pt <= self.cursor - 1,
                term_back(self.buffer@, self.cursor - 1) == term_back(self.buffer@, pt as int),
            decreases pt,
        {
            pt -= 1;
        }
        pt += 1;
        let low = pt;
        while pt < self.buffer.len() && !is_delim(self.buffer[pt])
            invariant
                low <= pt <= self.buffer@.len(),
                term_end(self.buffer@, low as int) == term_end(self.buffer@, pt as int),
            decreases self.buffer@.len() - pt,
        {
            pt += 1;
        }
        (low, pt)
    }

    /// Replaces the term under the cursor by `sub`, and puts the cursor on
    /// its last character.
    pub fn autofill(&mut self, sub: &str)
        requires
            old(self).wf(),
        ensures
            final(self).wf(),
            final(self).text() == filled(old(self).text(), old(self).at(), sub@),
            final(self).at() == term_start(old(self).text(), old(self).at()) + sub@.len(),
    {
        let (low, high) = self.term_bounds();
        let insert = chars_of(sub);
        let mut b: Vec<char> = Vec::new();
        let mut i: usize = 0;
        while i < low
            invariant
                i <= low <= self.buffer@.len(),
                b@ == self.buffer@.subrange(0, i as int),
            decreases low - i,
        {
            b.push(self.buffer[i]);
            i += 1;
            assert(b@ =~= self.buffer@.subrange(0, i as int));
        }
        let mut j: usize = 0;
        while j < insert.len()
            invariant
                j <= insert@.len(),
                b@ == self.buffer@.subrange(0, low as int) + insert@.subrange(0, j as int),
            decreases insert@.len() - j,
        {
            b.push(insert[j]);
            j += 1;
            assert(b@ =~= self.buffer@.subrange(0, low as int) + insert@.subrange(0, j as int));
        }
        assert(insert@.subrange(0, insert@.len() as int) =~= insert@);
        let cursor = b.len();
        let mut k: usize = high;
        while k < self.buffer.len()
            invariant
                high <= k <= self.buffer@.len(),
                b@ == self.buffer@.subrange(0, low as int) + insert@ + self.buffer@.subrange(
                    high as int,
                    k as int,
                ),
            decreases self.buffer@.len() - k,
        {
            b.push(self.buffer[k]);
            k += 1;
            assert(b@ =~= self.buffer@.subrange(0, low as int) + insert@ + self.buffer@.subrange(
                high as int,
                k as int,
            ));
        }
        self.buffer = b;
        self.cursor = cursor;
    }

    /// The term under the cursor.
    pub fn get_working_term(&self) -> (term: String)
        requires
            self.wf(),
        ensures
            term@ == working_term(self.text(), self.at()),
    {
        let (low, high) = self.term_bounds();
        text_of(&self.buffer, low, high)
    }

    /// The text behind the prompt.
    pub fn get_buffer(&self) -> (text: String)
        requires
            self.wf(),
        ensures
            text@ == self.text().subrange(1, self.text().len() as int),
    {
        text_of(&self.buffer, 1, self.buffer.len())
    }

    /// The line in three parts: what stands before the character under the
    /// cursor, that character, and what stands behind it.
    pub fn get_buffer_parts(&self) -> (parts: (String, String, String))
        requires
            self.wf(),
        ensures
            parts.0@ == self.text().subrange(0, self.at() - 1),
            parts.1@ == self.text().subrange(self.at() - 1, self.at()),
            parts.2@ == self.text().subrange(self.at(), self.text().len() as int),
    {
        (
            text_of(&self.buffer, 0, self.cursor - 1),
            text_of(&self.buffer, self.cursor - 1, self.cursor),
            text_of(&self.buffer, self.cursor, self.buffer.len()),
        )
    }
}

} // verus!
