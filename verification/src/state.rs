//! The state of a process and the letter that the kernel writes for it.

use crate::error::Error;
use crate::text::chars_of;
use vstd::prelude::*;
use vstd::string::*;

verus! {

/// What a process is doing, as the scheduler sees it.
#[derive(Clone, Copy, Debug, PartialEq, Eq, Structural)]
pub enum State {
    /// Running or ready to run.
    Running,
    /// Sleeping in a wait that a signal can interrupt.
    Sleeping,
    /// Waiting for I/O in a sleep that nothing interrupts.
    Waiting,
    /// Stopped by a signal.
    Stopped,
    /// Stopped by a tracer.
    Traced,
    /// Paging.
    Paging,
    /// Dead.
    Dead,
    /// Exited, with its exit status not yet collected by the parent.
    Zombie,
    /// An idle kernel thread.
    Idle,
}

impl State {
    /// The state that a letter stands for, for the nine letters that stand
    /// for one.
    pub open spec fn of_code(c: char) -> Option<State> {
        if c == 'R' {
            Some(State::Running)
        } else if c == 'S' {
            Some(State::Sleeping)
        } else if c == 'D' {
            Some(State::Waiting)
        } else if c == 'T' {
            Some(State::Stopped)
        } else if c == 't' {
            Some(State::Traced)
        } else if c == 'W' {
            Some(State::Paging)
        } else if c == 'Z' {
            Some(State::Zombie)
        } else if c == 'X' {
            Some(State::Dead)
        } else if c == 'I' {
            Some(State::Idle)
        } else {
            None
        }
    }

    /// The letter of a state.
    pub open spec fn code(self) -> char {
        match self {
            State::Running => 'R',
            State::Sleeping => 'S',
            State::Waiting => 'D',
            State::Stopped => 'T',
            State::Traced => 't',
            State::Paging => 'W',
            State::Zombie => 'Z',
            State::Dead => 'X',
            State::Idle => 'I',
        }
    }

    /// What a status field means: the state of its letter where the field is
    /// one letter that stands for a state, and an error otherwise.
    pub open spec fn of_text(s: Seq<char>) -> Result<State, Error> {
        if s.len() == 1 && State::of_code(s[0]) is Some {
            Ok(State::of_code(s[0])->Some_0)
        } else {
            Err(Error::InvalidState)
        }
    }

    /// The letter of every state stands for that state.
    pub proof fn lemma_code_decodes(s: State)
        ensures
            State::of_code(s.code()) == Some(s),
    {
    }

    /// A letter that stands for a state is the letter of that state: each of
    /// the nine letters comes back unchanged from decoding and encoding, the
    /// `D` of `Waiting` and the `T` of `Stopped` too.
    pub proof fn lemma_decoded_code(c: char)
        ensures
            State::of_code(c) matches Some(s) ==> s.code() == c,
            State::of_code(c) is Some <==> (c == 'R' || c == 'S' || c == 'D' || c == 'T' || c
                == 't' || c == 'W' || c == 'Z' || c == 'X' || c == 'I'),
    {
    }

    /// A state is written as the one letter of its code, and read back from it.
    pub proof fn lemma_text_round_trip(s: State)
        ensures
            State::of_text(seq![s.code()]) == Ok::<State, Error>(s),
    {
    }

    /// Decodes a status letter.
    pub fn from_char(state: char) -> (r: Result<State, Error>)
        ensures
            r == (match State::of_code(state) {
                Some(s) => Ok::<State, Error>(s),
                None => Err(Error::InvalidState),
            }),
    {
        match state {
            'R' => Ok(State::Running),
            'S' => Ok(State::Sleeping),
            'D' => Ok(State::Waiting),
            'T' => Ok(State::Stopped),
            't' => Ok(State::Traced),
            'W' => Ok(State::Paging),
            'Z' => Ok(State::Zombie),
            'X' => Ok(State::Dead),
            'I' => Ok(State::Idle),
            _ => Err(Error::InvalidState),
        }
    }

    /// Decodes a status field given as characters.
    pub fn from_chars(text: &[char]) -> (r: Result<State, Error>)
        ensures
            r == State::of_text(text@),
    {
        if text.len() == 1 {
            State::from_char(text[0])
        } else {
            Err(Error::InvalidState)
        }
    }

    /// Decodes a status field.
    pub fn from_str(s: &str) -> (r: Result<State, Error>)
        ensures
            r == State::of_text(s@),
    {
        let chars = chars_of(s);
        State::from_chars(chars.as_slice())
    }

    /// The letter of the state.
    pub fn to_char(&self) -> (c: char)
        ensures
            c == self.code(),
    {
        match self {
            State::Running => 'R',
            State::Sleeping => 'S',
            State::Waiting => 'D',
            State::Stopped => 'T',
            State::Traced => 't',
            State::Paging => 'W',
            State::Zombie => 'Z',
            State::Dead => 'X',
            State::Idle => 'I',
        }
    }

    /// The letter of the state, as a text.
    pub fn to_string(&self) -> (s: String)
        ensures
            s@ == seq![self.code()],
    {
        proof {
            reveal_strlit("R");
            reveal_strlit("S");
            reveal_strlit("D");
            reveal_strlit("T");
            reveal_strlit("t");
            reveal_strlit("W");
            reveal_strlit("Z");
            reveal_strlit("X");
            reveal_strlit("I");
        }
        let letter = match self {
            State::Running => "R",
            State::Sleeping => "S",
            State::Waiting => "D",
            State::Stopped => "T",
            State::Traced => "t",
            State::Paging => "W",
            State::Zombie => "Z",
            State::Dead => "X",
            State::Idle => "I",
        };
        assert(letter@ =~= seq![self.code()]);
        String::from_str(letter)
    }
}

} // verus!
