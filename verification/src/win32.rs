//! Splitting a raw UTF-16 command line into argument views.
//!
//! [`ArgsWindows`] walks a borrowed command line and hands out one sub-slice
//! per argument. Nothing is copied and nothing is allocated; what a view holds
//! is laid down in [`grammar`].

pub mod grammar;
pub mod sys;

use vstd::prelude::*;
use crate::win32::sys::PWSTR;
use crate::win32::grammar::{
    backslashes_end, blanks_end, first_end, first_scan, is_blank, later_end, later_scan,
    lemma_backslashes_end, lemma_blanks_end, Cursor, BACKSLASH, QUOTE, SPACE, TAB,
};

verus! {

/// A tokenizer over a command line that lives as long as the process.
pub type StaticArgsWindows = ArgsWindows<'static>;

/// A tokenizer over a borrowed command line.
pub struct ArgsWindows<'a> {
    code_units: &'a [u16],
    first: bool,
    index: usize,
}

impl<'a> View for ArgsWindows<'a> {
    type V = Cursor;

    closed spec fn view(&self) -> Cursor {
        Cursor { units: self.code_units@, first: self.first, index: self.index as int }
    }
}

/// Whether a code unit is a space or a tab.
fn blank(unit: u16) -> (b: bool)
    ensures
        b == is_blank(unit),
{
    unit == SPACE || unit == TAB
}

/// The index at which the run of blanks that starts at `from` ends.
fn blank_run_end(code_units: &[u16], from: usize) -> (end: usize)
    requires
        from <= code_units@.len(),
    ensures
        end == blanks_end(code_units@, from as int),
        from <= end <= code_units@.len(),
{
    let mut index: usize = from;
    while index < code_units.len() && blank(code_units[index])
        invariant
            from <= index <= code_units@.len(),
            blanks_end(code_units@, from as int) == blanks_end(code_units@, index as int),
        decreases code_units@.len() - index,
    {
        index += 1;
    }
    index
}

/// The index just past the first token of a command line, its bounding
/// quotes included.
pub fn first_token_end(code_units: &[u16]) -> (end: usize)
    ensures
        end == first_end(code_units@),
        end <= code_units@.len(),
{
    let mut quoted = false;
    let mut index: usize = 0;
    while index < code_units.len()
        invariant
            index <= code_units@.len(),
            first_end(code_units@) == first_scan(code_units@, index as int, quoted),
        ensures
            first_end(code_units@) == index,
        decreases code_units@.len() - index,
    {
        let point = code_units[index];
        if point == QUOTE {
            quoted = !quoted;
        } else if blank(point) && !quoted {
            break ;
        }
        index += 1;
    }
    index
}

/// The index at which the run of backslashes that starts at `from` ends.
fn backslash_run_end(code_units: &[u16], from: usize) -> (end: usize)
    requires
        from <= code_units@.len(),
    ensures
        end == backslashes_end(code_units@, from as int),
        from <= end <= code_units@.len(),
{
    let mut index: usize = from;
    while index < code_units.len() && code_units[index] == BACKSLASH
        invariant
            from <= index <= code_units@.len(),
            backslashes_end(code_units@, from as int) == backslashes_end(
                code_units@,
                index as int,
            ),
        decreases code_units@.len() - index,
    {
        index += 1;
    }
    index
}

/// The index just past the later token that starts at `from`.
fn later_token_end(code_units: &[u16], from: usize) -> (end: usize)
    requires
        from <= code_units@.len(),
    ensures
        end == later_end(code_units@, from as int),
        from <= end <= code_units@.len(),
{
    let mut quoted = false;
    let mut index: usize = from;
    while index < code_units.len()
        invariant
            from <= index <= code_units@.len(),
            later_end(code_units@, from as int) == later_scan(code_units@, index as int, quoted),
        ensures
            later_end(code_units@, from as int) == index,
        decreases code_units@.len() - index,
    {
        let point = code_units[index];
        if blank(point) && !quoted {
            break ;
        } else if point == BACKSLASH {
            let stop = backslash_run_end(code_units, index);
            proof {
                lemma_backslashes_end(code_units@, index as int);
            }
            let odd = (stop - index) % 2 == 1;
            if odd && stop < code_units.len() && code_units[stop] == QUOTE {
                index = stop + 1;
            } else {
                index = stop;
            }
        } else if point == QUOTE {
            if quoted && index + 1 < code_units.len() && code_units[index + 1] == QUOTE {
                index += 2;
            } else {
                quoted = !quoted;
                index += 1;
            }
        } else {
            index += 1;
        }
    }
    index
}

impl<'a> ArgsWindows<'a> {
    #[verifier::type_invariant]
    spec fn well_formed(self) -> bool {
        self@.wf()
    }

    /// A tokenizer that stands before the first token of `code_units`.
    pub fn new(code_units: &'a [u16]) -> (args: Self)
        ensures
            args@ == Cursor::start(code_units@),
    {
        Self { code_units, first: true, index: 0 }
    }

    /// A tokenizer that yields nothing.
    pub fn empty() -> (args: Self)
        ensures
            args@ == Cursor::nothing(),
    {
        let args = Self { code_units: &[], first: false, index: 0 };
        assert(args@.units =~= Seq::<u16>::empty());
        args
    }

    /// Moves the scan index past the blanks that it stands on.
    pub fn skip_whitespace(&mut self)
        ensures
            final(self)@ == (Cursor {
                index: blanks_end(old(self)@.units, old(self)@.index),
                ..old(self)@
            }),
            final(self)@.wf(),
    {
        proof {
            use_type_invariant(&*self);
            lemma_blanks_end(self@.units, self@.index);
        }
        self.index = blank_run_end(self.code_units, self.index);
    }

    /// Whether the next token can be asked for: where the first token is
    /// still to come and units are left, it must span at least two units.
    pub fn can_take(&self) -> (b: bool)
        ensures
            b == self@.can_take(),
    {
        !self.first || self.index >= self.code_units.len() || first_token_end(self.code_units) >= 2
    }

    /// Takes the next token, if one is left.
    ///
    /// The first token is handed out without its first and its last unit, so
    /// it must span at least two units; [`ArgsWindows::can_take`] tells.
    pub fn next(&mut self) -> (token: Option<&'a [u16]>)
        requires
            old(self)@.first && !old(self)@.exhausted() ==> first_end(old(self)@.units) >= 2,
        ensures
            old(self)@.wf(),
            final(self)@.wf(),
            final(self)@.can_take(),
            match token {
                Some(view) => {
                    &&& !old(self)@.exhausted()
                    &&& view@ == old(self)@.token()
                    &&& final(self)@ == old(self)@.advance()
                },
                None => old(self)@.exhausted() && final(self)@ == old(self)@,
            },
    {
        proof {
            use_type_invariant(&*self);
        }
        let code_units: &'a [u16] = self.code_units;
        if self.index >= code_units.len() {
            return None;
        }
        if self.first {
            let end = first_token_end(code_units);
            proof {
                lemma_blanks_end(code_units@, end as int);
            }
            self.first = false;
            self.index = blank_run_end(code_units, end);
            return Some(&code_units[1..end - 1]);
        }
        let start = self.index;
        let end = later_token_end(code_units, start);
        proof {
            lemma_blanks_end(code_units@, end as int);
        }
        self.index = blank_run_end(code_units, end);
        Some(&code_units[start..end])
    }
}

/// The tokenizer over a captured command line: one that yields nothing where
/// nothing was captured, else one that stands before the first token of the
/// string data.
pub fn static_args_windows<'a>(command_line: PWSTR<'a>) -> (args: ArgsWindows<'a>)
    requires
        command_line.0 is Some ==> command_line.readable(),
    ensures
        command_line.0 is None ==> args@ == Cursor::nothing(),
        command_line.0 is Some ==> args@ == Cursor::start(command_line.wide()),
{
    if command_line.is_null() {
        ArgsWindows::empty()
    } else {
        ArgsWindows::new(command_line.as_wide())
    }
}

} // verus!
