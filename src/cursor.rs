//! The position over an input text that parsing routines move forward and
//! back.
use vstd::prelude::*;

verus! {

/// An input text and a current offset into it, counted in characters.
pub struct Cursor {
    text: String,
    chars: Vec<char>,
    pos: usize,
}

impl Cursor {
    #[verifier::type_invariant]
    spec fn well_formed(&self) -> bool {
        &&& self.text@ == self.chars@
        &&& self.pos <= self.chars@.len()
    }

    /// The whole input.
    pub closed spec fn input(&self) -> Seq<char> {
        self.chars@
    }

    /// The current offset.
    pub closed spec fn pos(&self) -> nat {
        self.pos as nat
    }

    /// A cursor at the start of `input`.
    pub fn new(input: &str) -> (r: Cursor)
        ensures
            r.input() == input@,
            r.pos() == 0,
    {
        let mut chars: Vec<char> = Vec::new();
        for c in it: input.chars()
            invariant
                chars@ == it.seq().take(it.index() as int),
        {
            chars.push(c);
        }
        assert(chars@ =~= input@);
        Cursor { text: String::from_str(input), chars, pos: 0 }
    }

    /// The current offset.
    pub fn position(&self) -> (r: usize)
        ensures
            r == self.pos(),
            r <= self.input().len(),
    {
        proof {
            use_type_invariant(self);
        }
        self.pos
    }

    /// The length of the input, in characters.
    pub fn len(&self) -> (r: usize)
        ensures
            r == self.input().len(),
    {
        self.chars.len()
    }

    /// The character `n` places ahead of the offset, if the input has one;
    /// the offset does not move.
    pub fn peek(&self, n: usize) -> (r: Option<char>)
        ensures
            self.pos() + n < self.input().len() ==> r == Some(self.input()[self.pos() + n]),
            self.pos() + n >= self.input().len() ==> r is None,
    {
        proof {
            use_type_invariant(self);
        }
        if n < self.chars.len() && self.pos < self.chars.len() - n {
            Some(self.chars[self.pos + n])
        } else {
            None
        }
    }

    /// The character at offset `i`.
    pub fn char_at(&self, i: usize) -> (r: char)
        requires
            i < self.input().len(),
        ensures
            r == self.input()[i as int],
    {
        self.chars[i]
    }

    /// Moves the offset `n` characters ahead.
    pub fn advance(&mut self, n: usize)
        requires
            old(self).pos() + n <= old(self).input().len(),
        ensures
            final(self).input() == old(self).input(),
            final(self).pos() == old(self).pos() + n,
    {
        proof {
            use_type_invariant(&*self);
        }
        let len = self.chars.len();
        assert(self.pos + n <= len);
        self.pos = self.pos + n;
    }

    /// A restore point: the current offset.
    pub fn mark(&self) -> (r: usize)
        ensures
            r == self.pos(),
            r <= self.input().len(),
    {
        proof {
            use_type_invariant(self);
        }
        self.pos
    }

    /// Moves the offset back (or forward) to a restore point.
    pub fn reset(&mut self, mark: usize)
        requires
            mark <= old(self).input().len(),
        ensures
            final(self).input() == old(self).input(),
            final(self).pos() == mark,
    {
        proof {
            use_type_invariant(&*self);
        }
        self.pos = mark;
    }

    /// The range from a restore point to the current offset.
    pub fn span_since(&self, mark: usize) -> (r: (usize, usize))
        requires
            mark <= self.pos(),
        ensures
            r == (mark, self.pos() as usize),
    {
        (mark, self.pos)
    }

    /// The text between two offsets.
    pub fn text_between(&self, from: usize, to: usize) -> (r: String)
        requires
            from <= to <= self.input().len(),
        ensures
            r@ == self.input().subrange(from as int, to as int),
    {
        proof {
            use_type_invariant(self);
        }
        String::from_str(self.text.as_str().substring_char(from, to))
    }
}

} // verus!
