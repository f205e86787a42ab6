//! Walking a captured argument array.
//!
//! The capture is a count and the array of entries that the process was
//! handed when it was loaded. [`StaticArgs`] walks the first `count` entries
//! from front to back and always knows how many are left.

use vstd::prelude::*;

verus! {

/// An iterator over the entries of a captured argument array.
pub struct StaticArgs<'a, T> {
    argv: &'a [T],
    next: usize,
    end: usize,
}

impl<'a, T> View for StaticArgs<'a, T> {
    type V = Seq<T>;

    /// The entries that are still to come, in order.
    closed spec fn view(&self) -> Seq<T> {
        self.argv@.subrange(self.next as int, self.end as int)
    }
}

impl<'a, T> StaticArgs<'a, T> {
    #[verifier::type_invariant]
    spec fn well_formed(self) -> bool {
        self.next <= self.end <= self.argv@.len()
    }

    /// An iterator that yields nothing.
    pub fn empty() -> (args: Self)
        ensures
            args@ == Seq::<T>::empty(),
    {
        Self { argv: &[], next: 0, end: 0 }
    }

    /// An iterator over the first `argc` entries of `argv`.
    pub fn new(argc: i32, argv: &'a [T]) -> (args: Self)
        requires
            0 <= argc <= argv@.len(),
        ensures
            args@ == argv@.take(argc as int),
    {
        Self { argv, next: 0, end: argc as usize }
    }

    /// Takes the next entry, if one is left.
    pub fn next(&mut self) -> (entry: Option<&'a T>)
        ensures
            match entry {
                Some(e) => {
                    &&& old(self)@.len() > 0
                    &&& *e == old(self)@.first()
                    &&& final(self)@ == old(self)@.drop_first()
                },
                None => old(self)@.len() == 0 && final(self)@ == old(self)@,
            },
    {
        proof {
            use_type_invariant(&*self);
        }
        if self.next == self.end {
            None
        } else {
            let argv: &'a [T] = self.argv;
            let entry = &argv[self.next];
            self.next = self.next + 1;
            Some(entry)
        }
    }

    /// The bounds on the number of entries that are left: both are that
    /// number.
    pub fn size_hint(&self) -> (bounds: (usize, Option<usize>))
        ensures
            bounds.0 == self@.len(),
            bounds.1 == Some(bounds.0),
    {
        let len = self.len();
        (len, Some(len))
    }

    /// The number of entries that are left.
    pub fn len(&self) -> (len: usize)
        ensures
            len == self@.len(),
    {
        proof {
            use_type_invariant(self);
        }
        self.end - self.next
    }
}

/// The iterator over a captured argument array: one that yields nothing where
/// nothing was captured, else one over the first `argc` entries of the array.
pub fn static_args<'a, T>(argc: i32, argv: Option<&'a [T]>) -> (args: StaticArgs<'a, T>)
    requires
        argv matches Some(entries) ==> 0 <= argc <= entries@.len(),
    ensures
        match argv {
            Some(entries) => args@ == entries@.take(argc as int),
            None => args@ == Seq::<T>::empty(),
        },
{
    match argv {
        None => StaticArgs::empty(),
        Some(entries) => StaticArgs::new(argc, entries),
    }
}

/// What is left of `entries` after `count` of them were taken from the front
/// one by one, or nothing where fewer were there.
pub open spec fn after_taking<T>(entries: Seq<T>, count: nat) -> Seq<T>
    decreases count,
{
    if count == 0 || entries.len() == 0 {
        entries
    } else {
        after_taking(entries.drop_first(), (count - 1) as nat)
    }
}

/// Taking entries one by one from the front leaves those from position
/// `count` on, and nothing once `count` reaches their number.
pub proof fn lemma_after_taking<T>(entries: Seq<T>, count: nat)
    ensures
        count <= entries.len() ==> after_taking(entries, count) == entries.skip(count as int),
        count >= entries.len() ==> after_taking(entries, count).len() == 0,
    decreases count,
{
    if count > 0 && entries.len() > 0 {
        lemma_after_taking(entries.drop_first(), (count - 1) as nat);
    }
}

/// A walk over the first `argc` entries of `argv` yields exactly those, in
/// the order of the array: after `taken` of them the entries from position
/// `taken` up to `argc` are left, `argc - taken` in number, the next one is
/// the entry at `taken`, and nothing is left once `taken` reaches `argc`.
pub proof fn lemma_walk<T>(argv: Seq<T>, argc: int, taken: nat)
    requires
        0 <= argc <= argv.len(),
    ensures
        argv.take(argc).len() == argc,
        taken <= argc ==> after_taking(argv.take(argc), taken) == argv.subrange(taken as int, argc),
        taken <= argc ==> after_taking(argv.take(argc), taken).len() == argc - taken,
        taken < argc ==> after_taking(argv.take(argc), taken).first() == argv[taken as int],
        taken >= argc ==> after_taking(argv.take(argc), taken).len() == 0,
{
    lemma_after_taking(argv.take(argc), taken);
}

/// A walk can be started over: a second walk over the same capture holds all
/// of its entries whatever was taken from the first, and the two yield the
/// same entry at every position.
pub proof fn lemma_walk_again<T>(argv: Seq<T>, argc: int, taken: nat, position: int)
    requires
        0 <= argc <= argv.len(),
        taken <= argc,
        0 <= position < argc - taken,
    ensures
        argv.take(argc) == argv.take(argc).take(taken as int) + after_taking(
            argv.take(argc),
            taken,
        ),
        after_taking(argv.take(argc), taken)[position] == argv.take(argc)[taken + position],
{
    lemma_walk(argv, argc, taken);
    assert(argv.take(argc) =~= argv.take(argc).take(taken as int) + argv.subrange(
        taken as int,
        argc,
    ));
}

} // verus!
