//! A laid-out line of text and the byte offset of its first character in
//! the book.

use vstd::prelude::*;

verus! {

#[derive(Debug)]
pub struct Line {
    line_content: String,
    offset_of_first_char: usize,
}

impl View for Line {
    /// The line's characters and the byte offset of its first character.
    type V = (Seq<char>, nat);

    closed spec fn view(&self) -> (Seq<char>, nat) {
        (self.line_content@, self.offset_of_first_char as nat)
    }
}

impl Clone for Line {
    fn clone(&self) -> (line: Line)
        ensures
            line@ == self@,
    {
        Line { line_content: self.line_content.clone(), offset_of_first_char: self.offset_of_first_char }
    }
}

impl Line {
    pub fn new(content: &String, offset_of_first_char: usize) -> (line: Line)
        ensures
            line@ == (content@, offset_of_first_char as nat),
    {
        Line { line_content: content.clone(), offset_of_first_char }
    }

    pub fn get_line_content(&self) -> (s: &str)
        ensures
            s@ == self@.0,
    {
        self.line_content.as_str()
    }

    pub fn get_offset_of_first_char(&self) -> (n: usize)
        ensures
            n == self@.1,
    {
        self.offset_of_first_char
    }
}

} // verus!
