//! The splitting rules for a raw UTF-16 command line, as functions on
//! sequences of code units.
//!
//! A command line is scanned left to right by one index. The first token (the
//! program path) and the tokens after it follow different rules; both are
//! given here as recursive scans, together with the cursor model that the
//! executable tokenizer is specified against.
//!
//! For the later tokens the scan follows the platform's C runtime: a run of
//! backslashes is counted, and before a quote a run of even length leaves the
//! quote in force while a run of odd length hides it.
//!
//! # Known limitation
//!
//! Only the bounds of a token follow the runtime. No token is rewritten: a
//! view holds the units as they were spelled, so the quotes around a later
//! token, doubled quotes and the backslashes before a quote are all still in
//! it, where the runtime would hand out the text that they stand for.

use vstd::prelude::*;

verus! {

/// The backslash code unit.
pub const BACKSLASH: u16 = 0x5c;

/// The double-quote code unit.
pub const QUOTE: u16 = 0x22;

/// The horizontal-tab code unit.
pub const TAB: u16 = 0x09;

/// The space code unit.
pub const SPACE: u16 = 0x20;

/// Whether a code unit separates tokens when it stands outside quotes.
pub open spec fn is_blank(unit: u16) -> bool {
    unit == SPACE || unit == TAB
}

/// The index at which the run of blanks that starts at `from` ends.
pub open spec fn blanks_end(units: Seq<u16>, from: int) -> int
    decreases units.len() - from,
{
    if 0 <= from < units.len() && is_blank(units[from]) {
        blanks_end(units, from + 1)
    } else {
        from
    }
}

/// Where the scan of the first token stops when it stands at `at` with the
/// given quoting state: every quote flips the state, and a blank outside
/// quotes, or the end of the units, stops the scan.
pub open spec fn first_scan(units: Seq<u16>, at: int, quoted: bool) -> int
    decreases units.len() - at,
{
    if at < 0 || at >= units.len() {
        at
    } else if units[at] == QUOTE {
        first_scan(units, at + 1, !quoted)
    } else if is_blank(units[at]) && !quoted {
        at
    } else {
        first_scan(units, at + 1, quoted)
    }
}

/// The index just past the first token, its bounding quotes included.
pub open spec fn first_end(units: Seq<u16>) -> int {
    first_scan(units, 0, false)
}

/// The number of quotes among the first `upto` units.
pub open spec fn quotes_before(units: Seq<u16>, upto: int) -> nat
    decreases upto,
{
    if upto <= 0 {
        0
    } else if units[upto - 1] == QUOTE {
        quotes_before(units, upto - 1) + 1
    } else {
        quotes_before(units, upto - 1)
    }
}

/// Whether the first token's scan is outside quotes when it reaches `at`: an
/// even number of quotes stands before it.
pub open spec fn outside_quotes(units: Seq<u16>, at: int) -> bool {
    quotes_before(units, at) % 2 == 0
}

/// Whether the unit after `at` exists and is a quote.
pub open spec fn quote_follows(units: Seq<u16>, at: int) -> bool {
    0 <= at + 1 < units.len() && units[at + 1] == QUOTE
}

/// Whether `at` lies within the units and holds a quote.
pub open spec fn quote_at(units: Seq<u16>, at: int) -> bool {
    0 <= at < units.len() && units[at] == QUOTE
}

/// The index at which the run of backslashes that starts at `from` ends.
pub open spec fn backslashes_end(units: Seq<u16>, from: int) -> int
    decreases units.len() - from,
{
    if 0 <= from < units.len() && units[from] == BACKSLASH {
        backslashes_end(units, from + 1)
    } else {
        from
    }
}

/// A run of backslashes ends within the units, behind its first backslash,
/// holds backslashes only, and is not followed by a backslash.
pub proof fn lemma_backslashes_end(units: Seq<u16>, from: int)
    requires
        0 <= from <= units.len(),
    ensures
        from <= backslashes_end(units, from) <= units.len(),
        from < units.len() && units[from] == BACKSLASH ==> from < backslashes_end(units, from),
        forall|j: int| from <= j < backslashes_end(units, from) ==> #[trigger] units[j] == BACKSLASH,
        backslashes_end(units, from) == units.len() || units[backslashes_end(units, from)]
            != BACKSLASH,
    decreases units.len() - from,
{
    if from < units.len() && units[from] == BACKSLASH {
        lemma_backslashes_end(units, from + 1);
    }
}

/// Where the scan of a later token stops when it stands at `at` with the
/// given quoting state.
///
/// * A blank outside quotes, or the end of the units, stops the scan.
/// * A run of backslashes is passed over as a whole. Where its length is odd
///   and a quote follows it, that quote is passed over with it and leaves the
///   quoting state as it is; after a run of even length the scan goes on at
///   the quote.
/// * A quote inside quotes that is directly followed by a second quote is
///   passed over together with it and quoting goes on; any other quote inside
///   quotes ends quoting.
/// * A quote outside quotes begins quoting.
/// * Every other unit is passed over.
pub open spec fn later_scan(units: Seq<u16>, at: int, quoted: bool) -> int
    decreases units.len() - at,
{
    if at < 0 || at >= units.len() {
        at
    } else if is_blank(units[at]) && !quoted {
        at
    } else if units[at] == BACKSLASH {
        let stop = backslashes_end(units, at);
        proof {
            lemma_backslashes_end(units, at);
        }
        if quote_at(units, stop) && (stop - at) % 2 == 1 {
            later_scan(units, stop + 1, quoted)
        } else {
            later_scan(units, stop, quoted)
        }
    } else if units[at] == QUOTE {
        if quoted && quote_follows(units, at) {
            later_scan(units, at + 2, true)
        } else {
            later_scan(units, at + 1, !quoted)
        }
    } else {
        later_scan(units, at + 1, quoted)
    }
}

/// The index just past the later token that starts at `from`.
pub open spec fn later_end(units: Seq<u16>, from: int) -> int {
    later_scan(units, from, false)
}

/// Whether a command line can be split from its start: it is empty, or its
/// first token spans at least the two units that are taken for its bounding
/// quotes.
pub open spec fn splittable(units: Seq<u16>) -> bool {
    units.len() == 0 || first_end(units) >= 2
}

/// The state of a tokenizer: the command line, whether the first token is
/// still to come, and the scan index.
pub struct Cursor {
    pub units: Seq<u16>,
    pub first: bool,
    pub index: int,
}

impl Cursor {
    /// The cursor before anything was read from `units`.
    pub open spec fn start(units: Seq<u16>) -> Cursor {
        Cursor { units, first: true, index: 0 }
    }

    /// The cursor over no command line at all.
    pub open spec fn nothing() -> Cursor {
        Cursor { units: Seq::empty(), first: false, index: 0 }
    }

    /// The states that a tokenizer can be in: the index lies within the
    /// units; before the first token nothing but blanks stands before it;
    /// after the first token it stands at the end or on a unit that is not
    /// blank.
    pub open spec fn wf(self) -> bool {
        &&& 0 <= self.index <= self.units.len()
        &&& self.first ==> forall|j: int| 0 <= j < self.index ==> is_blank(#[trigger] self.units[j])
        &&& !self.first ==> self.index == self.units.len() || !is_blank(self.units[self.index])
    }

    /// Whether the next token can be asked for: where the first token is
    /// still to come and units are left, it spans at least the two units that
    /// are taken for its bounding quotes.
    pub open spec fn can_take(self) -> bool {
        self.first && !self.exhausted() ==> first_end(self.units) >= 2
    }

    /// Whether no token is left.
    pub open spec fn exhausted(self) -> bool {
        self.index >= self.units.len()
    }

    /// The index of the first unit of the next token.
    pub open spec fn token_start(self) -> int {
        if self.first {
            1
        } else {
            self.index
        }
    }

    /// The index just past the last unit of the next token.
    pub open spec fn token_end(self) -> int {
        if self.first {
            first_end(self.units) - 1
        } else {
            later_end(self.units, self.index)
        }
    }

    /// The next token: for the first one the units between its bounding
    /// quotes, for a later one the units as they were spelled.
    pub open spec fn token(self) -> Seq<u16> {
        self.units.subrange(self.token_start(), self.token_end())
    }

    /// The cursor after the next token was taken: the scan index stands past
    /// the token and past the blanks that follow it.
    pub open spec fn advance(self) -> Cursor {
        let stop = if self.first {
            first_end(self.units)
        } else {
            later_end(self.units, self.index)
        };
        Cursor { units: self.units, first: false, index: blanks_end(self.units, stop) }
    }

    /// All the tokens that are still to come, in order.
    pub open spec fn remaining(self) -> Seq<Seq<u16>>
        decreases self.units.len() - self.index,
        when self.wf() && self.can_take()
    {
        if self.exhausted() {
            Seq::empty()
        } else {
            proof {
                lemma_advance(self);
            }
            seq![self.token()] + self.advance().remaining()
        }
    }

    /// The cursor after `count` tokens were taken, or after all of them where
    /// fewer are left.
    pub open spec fn after(self, count: nat) -> Cursor
        decreases count,
    {
        if count == 0 || self.exhausted() {
            self
        } else {
            self.advance().after((count - 1) as nat)
        }
    }
}

/// A run of blanks ends within the units, holds blanks only, and is not
/// followed by a blank.
pub proof fn lemma_blanks_end(units: Seq<u16>, from: int)
    requires
        0 <= from <= units.len(),
    ensures
        from <= blanks_end(units, from) <= units.len(),
        forall|j: int| from <= j < blanks_end(units, from) ==> is_blank(#[trigger] units[j]),
        blanks_end(units, from) == units.len() || !is_blank(units[blanks_end(units, from)]),
    decreases units.len() - from,
{
    if from < units.len() && is_blank(units[from]) {
        lemma_blanks_end(units, from + 1);
    }
}

/// The scan of the first token never leaves the units: it stops at their end
/// or on a blank, and it moves unless it stands on a blank outside quotes.
pub proof fn lemma_first_scan(units: Seq<u16>, at: int, quoted: bool)
    requires
        0 <= at <= units.len(),
    ensures
        at <= first_scan(units, at, quoted) <= units.len(),
        first_scan(units, at, quoted) == units.len() || is_blank(
            units[first_scan(units, at, quoted)],
        ),
        at < units.len() && !(is_blank(units[at]) && !quoted) ==> at < first_scan(
            units,
            at,
            quoted,
        ),
    decreases units.len() - at,
{
    if at < units.len() {
        if units[at] == QUOTE {
            lemma_first_scan(units, at + 1, !quoted);
        } else if is_blank(units[at]) && !quoted {
        } else {
            lemma_first_scan(units, at + 1, quoted);
        }
    }
}

/// The scan of a later token never leaves the units: it stops at their end
/// or on a blank, and it moves unless it stands on a blank outside quotes.
pub proof fn lemma_later_scan(units: Seq<u16>, at: int, quoted: bool)
    requires
        0 <= at <= units.len(),
    ensures
        at <= later_scan(units, at, quoted) <= units.len(),
        later_scan(units, at, quoted) == units.len() || is_blank(
            units[later_scan(units, at, quoted)],
        ),
        at < units.len() && !(is_blank(units[at]) && !quoted) ==> at < later_scan(
            units,
            at,
            quoted,
        ),
    decreases units.len() - at,
{
    if at < units.len() {
        if is_blank(units[at]) && !quoted {
        } else if units[at] == BACKSLASH {
            let stop = backslashes_end(units, at);
            lemma_backslashes_end(units, at);
            if quote_at(units, stop) && (stop - at) % 2 == 1 {
                lemma_later_scan(units, stop + 1, quoted);
            } else {
                lemma_later_scan(units, stop, quoted);
            }
        } else if units[at] == QUOTE {
            if quoted && quote_follows(units, at) {
                lemma_later_scan(units, at + 2, true);
            } else {
                lemma_later_scan(units, at + 1, !quoted);
            }
        } else {
            lemma_later_scan(units, at + 1, quoted);
        }
    }
}

/// Backslashes before a quote: from the first backslash of a run that a
/// quote follows, the scan goes on behind the quote with the quoting state
/// unchanged where the run is of odd length, and at the quote where it is of
/// even length.
pub proof fn lemma_run_before_quote(units: Seq<u16>, at: int, quoted: bool)
    requires
        0 <= at < units.len(),
        units[at] == BACKSLASH,
        quote_at(units, backslashes_end(units, at)),
    ensures
        (backslashes_end(units, at) - at) % 2 == 1 ==> later_scan(units, at, quoted) == later_scan(
            units,
            backslashes_end(units, at) + 1,
            quoted,
        ),
        (backslashes_end(units, at) - at) % 2 == 0 ==> later_scan(units, at, quoted) == later_scan(
            units,
            backslashes_end(units, at),
            quoted,
        ),
        (backslashes_end(units, at) - at) % 2 == 0 && !quoted ==> later_scan(units, at, quoted)
            == later_scan(units, backslashes_end(units, at) + 1, true),
{
    let stop = backslashes_end(units, at);
    assert(later_scan(units, stop, false) == later_scan(units, stop + 1, true));
}

/// Backslashes before any other unit stand for themselves: from the first
/// backslash of a run that no quote follows, the scan goes on behind the run.
pub proof fn lemma_run_before_other(units: Seq<u16>, at: int, quoted: bool)
    requires
        0 <= at < units.len(),
        units[at] == BACKSLASH,
        !quote_at(units, backslashes_end(units, at)),
    ensures
        later_scan(units, at, quoted) == later_scan(units, backslashes_end(units, at), quoted),
{
}

/// Where the first token can be taken, nothing was skipped before it: the
/// command line starts with a unit that is not blank and the index is zero.
pub proof fn lemma_fresh_index(cursor: Cursor)
    requires
        cursor.wf(),
        cursor.can_take(),
        cursor.first,
        !cursor.exhausted(),
    ensures
        cursor.index == 0,
        !is_blank(cursor.units[0]),
{
}

/// Taking a token keeps the cursor well formed and moves it forward: the
/// token lies within the units, between the old index and the new one, and
/// the new index is strictly greater.
pub proof fn lemma_advance(cursor: Cursor)
    requires
        cursor.wf(),
        cursor.can_take(),
        !cursor.exhausted(),
    ensures
        cursor.advance().wf(),
        cursor.advance().can_take(),
        cursor.advance().units == cursor.units,
        !cursor.advance().first,
        cursor.index <= cursor.token_start() <= cursor.token_end() <= cursor.advance().index,
        cursor.index < cursor.advance().index <= cursor.units.len(),
{
    let units = cursor.units;
    if cursor.first {
        lemma_first_scan(units, 0, false);
        lemma_blanks_end(units, first_end(units));
    } else {
        lemma_later_scan(units, cursor.index, false);
        lemma_blanks_end(units, later_end(units, cursor.index));
    }
}

/// A cursor has tokens left exactly while it is not exhausted, and never more
/// of them than units.
pub proof fn lemma_remaining_len(cursor: Cursor)
    requires
        cursor.wf(),
        cursor.can_take(),
    ensures
        cursor.exhausted() <==> cursor.remaining().len() == 0,
        cursor.remaining().len() <= cursor.units.len() - cursor.index,
    decreases cursor.units.len() - cursor.index,
{
    if !cursor.exhausted() {
        lemma_advance(cursor);
        lemma_remaining_len(cursor.advance());
    }
}

/// Every token after the first holds at least one unit.
pub proof fn lemma_later_token_not_empty(cursor: Cursor)
    requires
        cursor.wf(),
        !cursor.first,
        !cursor.exhausted(),
    ensures
        cursor.token().len() >= 1,
{
    lemma_later_scan(cursor.units, cursor.index, false);
}

/// Taking tokens one by one yields `remaining()` from front to back: after
/// `count` of them the cursor is well formed, the token it stands before is
/// the one at position `count`, the tokens behind that one are still to come,
/// and it is exhausted exactly when `count` reaches the number of tokens.
pub proof fn lemma_after(cursor: Cursor, count: nat)
    requires
        cursor.wf(),
        cursor.can_take(),
    ensures
        cursor.after(count).wf(),
        cursor.after(count).can_take(),
        cursor.after(count).units == cursor.units,
        count <= cursor.remaining().len() ==> cursor.after(count).remaining()
            == cursor.remaining().skip(count as int),
        count < cursor.remaining().len() ==> !cursor.after(count).exhausted() && cursor.after(
            count,
        ).token() == cursor.remaining()[count as int],
        count >= cursor.remaining().len() ==> cursor.after(count).exhausted(),
    decreases count,
{
    if count > 0 && !cursor.exhausted() {
        lemma_advance(cursor);
        lemma_after(cursor.advance(), (count - 1) as nat);
    }
}

/// A command line without units holds no token, and neither does the cursor
/// over no command line.
pub proof fn lemma_nothing_to_take(units: Seq<u16>)
    requires
        units.len() == 0,
    ensures
        Cursor::start(units).wf(),
        Cursor::start(units).can_take(),
        Cursor::start(units).remaining() == Seq::<Seq<u16>>::empty(),
        Cursor::nothing().wf(),
        Cursor::nothing().can_take(),
        Cursor::nothing().remaining() == Seq::<Seq<u16>>::empty(),
{
}

/// Splitting can be started over. A cursor that stands before the first token
/// of a command line is well formed whatever the units are, and it is the
/// same cursor whatever was taken from another one over the same units. Where
/// the command line can be split, it holds all the tokens: what the other
/// cursor gave so far, token by token, followed by what that one still holds.
pub proof fn lemma_restart(units: Seq<u16>, taken: nat)
    ensures
        Cursor::start(units).wf(),
        Cursor::start(units).can_take() <==> splittable(units),
        splittable(units) ==> Cursor::start(units).after(taken).units == units,
        splittable(units) && taken <= Cursor::start(units).remaining().len() ==> Cursor::start(
            units,
        ).remaining() == Cursor::start(units).remaining().take(taken as int) + Cursor::start(
            units,
        ).after(taken).remaining(),
        splittable(units) && taken <= Cursor::start(units).remaining().len() ==> forall|
            position: int,
        |
            0 <= position < taken ==> Cursor::start(units).remaining().take(
                taken as int,
            )[position] == #[trigger] Cursor::start(units).after(position as nat).token(),
{
    let fresh = Cursor::start(units);
    if splittable(units) {
        lemma_after(fresh, taken);
        if taken <= fresh.remaining().len() {
            assert(fresh.remaining() =~= fresh.remaining().take(taken as int)
                + fresh.remaining().skip(taken as int));
            assert forall|position: int| 0 <= position < taken implies fresh.remaining().take(
                taken as int,
            )[position] == #[trigger] fresh.after(position as nat).token() by {
                lemma_after(fresh, position as nat);
            }
        }
    }
}

/// From a position whose quoting state is what the quotes before it make it,
/// the scan of the first token passes over no blank that stands outside
/// quotes, and where it stops before the end it stands on such a blank.
pub proof fn lemma_first_scan_stops_outside_quotes(units: Seq<u16>, at: int, quoted: bool)
    requires
        0 <= at <= units.len(),
        quoted == !outside_quotes(units, at),
    ensures
        forall|j: int|
            at <= j < first_scan(units, at, quoted) ==> !(is_blank(units[j])
                && #[trigger] outside_quotes(units, j)),
        first_scan(units, at, quoted) < units.len() ==> is_blank(
            units[first_scan(units, at, quoted)],
        ) && outside_quotes(units, first_scan(units, at, quoted)),
    decreases units.len() - at,
{
    if at < units.len() {
        if units[at] == QUOTE {
            lemma_first_scan_stops_outside_quotes(units, at + 1, !quoted);
        } else if is_blank(units[at]) && !quoted {
        } else {
            lemma_first_scan_stops_outside_quotes(units, at + 1, quoted);
        }
    }
}

/// The first token ends at the least index that holds a blank with an even
/// number of quotes before it, or at the end of the units where there is no
/// such index.
pub proof fn lemma_first_end_is_least(units: Seq<u16>)
    ensures
        0 <= first_end(units) <= units.len(),
        forall|j: int|
            0 <= j < first_end(units) ==> !(is_blank(units[j]) && #[trigger] outside_quotes(
                units,
                j,
            )),
        first_end(units) < units.len() ==> is_blank(units[first_end(units)]) && outside_quotes(
            units,
            first_end(units),
        ),
{
    lemma_first_scan(units, 0, false);
    lemma_first_scan_stops_outside_quotes(units, 0, false);
}

/// Inside quotes that are never closed, the scan of the first token goes to
/// the end of the units and stops there.
pub proof fn lemma_unclosed_quote(units: Seq<u16>, at: int)
    requires
        0 <= at <= units.len(),
        forall|j: int| at <= j < units.len() ==> units[j] != QUOTE,
    ensures
        first_scan(units, at, true) == units.len(),
    decreases units.len() - at,
{
    if at < units.len() {
        lemma_unclosed_quote(units, at + 1);
    }
}

/// A command line that opens a quote and never closes it is one token: the
/// units behind the quote but for the last one, and nothing is left after it.
pub proof fn lemma_unclosed_first_token(units: Seq<u16>)
    requires
        units.len() >= 2,
        units[0] == QUOTE,
        forall|j: int| 1 <= j < units.len() ==> units[j] != QUOTE,
    ensures
        first_end(units) == units.len(),
        Cursor::start(units).wf(),
        Cursor::start(units).can_take(),
        Cursor::start(units).token() == units.subrange(1, units.len() - 1),
        Cursor::start(units).advance().exhausted(),
        Cursor::start(units).remaining() == seq![units.subrange(1, units.len() - 1)],
{
    let fresh = Cursor::start(units);
    lemma_unclosed_quote(units, 1);
    lemma_remaining_len(fresh.advance());
}

/// A later token that holds no blank, quote or backslash ends at the first
/// blank behind it, or at the end of the units.
pub proof fn lemma_plain_token(units: Seq<u16>, from: int, to: int)
    requires
        0 <= from <= to <= units.len(),
        forall|j: int|
            from <= j < to ==> !is_blank(#[trigger] units[j]) && units[j] != QUOTE && units[j]
                != BACKSLASH,
        to == units.len() || is_blank(units[to]),
    ensures
        later_end(units, from) == to,
    decreases to - from,
{
    if from < to {
        lemma_plain_token(units, from + 1, to);
    }
}

} // verus!
