//! References to NUL-terminated strings of 16-bit code units.
//!
//! A string reference is either null or borrows the units that can be read
//! from where it points: the string data, the NUL that ends it, and whatever
//! lies behind that NUL.

use vstd::prelude::*;

verus! {

/// Where the search for a NUL stops when it stands at `at`: on the first unit
/// that is zero, or at the end of the units.
pub open spec fn nul_scan(units: Seq<u16>, at: int) -> int
    decreases units.len() - at,
{
    if 0 <= at < units.len() && units[at] != 0 {
        nul_scan(units, at + 1)
    } else {
        at
    }
}

/// The number of units that stand before the first NUL.
pub open spec fn wide_len(units: Seq<u16>) -> int {
    nul_scan(units, 0)
}

/// Whether the units hold a NUL.
pub open spec fn terminated(units: Seq<u16>) -> bool {
    exists|i: int| 0 <= i < units.len() && units[i] == 0
}

/// The search for a NUL stays within the units and passes over no NUL; where
/// a NUL lies ahead, it stops on the first one.
pub proof fn lemma_nul_scan(units: Seq<u16>, at: int)
    requires
        0 <= at <= units.len(),
    ensures
        at <= nul_scan(units, at) <= units.len(),
        forall|j: int| at <= j < nul_scan(units, at) ==> #[trigger] units[j] != 0,
        nul_scan(units, at) < units.len() ==> units[nul_scan(units, at)] == 0,
        (exists|i: int| at <= i < units.len() && units[i] == 0) ==> nul_scan(units, at)
            < units.len(),
    decreases units.len() - at,
{
    if at < units.len() && units[at] != 0 {
        lemma_nul_scan(units, at + 1);
    }
}

/// The length of a terminated string is the least index that holds a NUL.
pub proof fn lemma_wide_len(units: Seq<u16>)
    requires
        terminated(units),
    ensures
        0 <= wide_len(units) < units.len(),
        units[wide_len(units)] == 0,
        forall|j: int| 0 <= j < wide_len(units) ==> #[trigger] units[j] != 0,
{
    lemma_nul_scan(units, 0);
}

/// The string data that `units` starts with: the units before the first NUL.
pub open spec fn wide_data(units: Seq<u16>) -> Seq<u16> {
    units.take(wide_len(units))
}

/// String data is read back as it was laid down: where units without a NUL
/// are followed by a NUL, they are the string data, whatever lies behind the
/// NUL.
pub proof fn lemma_wide_data(data: Seq<u16>, behind: Seq<u16>)
    requires
        forall|j: int| 0 <= j < data.len() ==> data[j] != 0,
    ensures
        terminated(data + seq![0u16] + behind),
        wide_len(data + seq![0u16] + behind) == data.len(),
        wide_data(data + seq![0u16] + behind) == data,
{
    let units = data + seq![0u16] + behind;
    assert(units[data.len() as int] == 0);
    lemma_wide_len(units);
}

/// A reference to a NUL-terminated string of 16-bit code units.
#[derive(Clone, Copy, Debug)]
pub struct PWSTR<'a>(pub Option<&'a [u16]>);

impl<'a> PWSTR<'a> {
    /// The units that can be read through the reference: none for the null
    /// reference.
    pub open spec fn units(self) -> Seq<u16> {
        match self.0 {
            Some(units) => units@,
            None => Seq::empty(),
        }
    }

    /// The string data: the units before the first NUL.
    pub open spec fn wide(self) -> Seq<u16> {
        wide_data(self.units())
    }

    /// Whether the reference is not null and a NUL can be read through it.
    pub open spec fn readable(self) -> bool {
        self.0 is Some && terminated(self.units())
    }

    /// The null reference.
    pub fn null() -> (s: Self)
        ensures
            s.0 is None,
    {
        Self(None)
    }

    /// The units that the reference borrows.
    pub fn as_ptr(&self) -> (units: Option<&'a [u16]>)
        ensures
            units == self.0,
    {
        self.0
    }

    /// Whether the reference is null.
    pub fn is_null(&self) -> (b: bool)
        ensures
            b == (self.0 is None),
    {
        self.0.is_none()
    }

    /// The string data without the NUL that ends it.
    pub fn as_wide(&self) -> (data: &'a [u16])
        requires
            self.readable(),
        ensures
            data@ == self.wide(),
    {
        let len = wcslen(PCWSTR::from_raw(self.0));
        let units: &'a [u16] = self.0.unwrap();
        &units[0..len]
    }
}

/// A reference to a NUL-terminated string of 16-bit code units that is only
/// read through.
#[derive(Clone, Copy, Debug)]
pub struct PCWSTR<'a>(pub Option<&'a [u16]>);

impl<'a> PCWSTR<'a> {
    /// The units that can be read through the reference: none for the null
    /// reference.
    pub open spec fn units(self) -> Seq<u16> {
        match self.0 {
            Some(units) => units@,
            None => Seq::empty(),
        }
    }

    /// The string data: the units before the first NUL.
    pub open spec fn wide(self) -> Seq<u16> {
        wide_data(self.units())
    }

    /// Whether the reference is not null and a NUL can be read through it.
    pub open spec fn readable(self) -> bool {
        self.0 is Some && terminated(self.units())
    }

    /// The reference that borrows `ptr`.
    pub fn from_raw(ptr: Option<&'a [u16]>) -> (s: Self)
        ensures
            s.0 == ptr,
    {
        Self(ptr)
    }

    /// The null reference.
    pub fn null() -> (s: Self)
        ensures
            s.0 is None,
    {
        Self(None)
    }

    /// The units that the reference borrows.
    pub fn as_ptr(&self) -> (units: Option<&'a [u16]>)
        ensures
            units == self.0,
    {
        self.0
    }

    /// Whether the reference is null.
    pub fn is_null(&self) -> (b: bool)
        ensures
            b == (self.0 is None),
    {
        self.0.is_none()
    }

    /// The string data without the NUL that ends it.
    pub fn as_wide(&self) -> (data: &'a [u16])
        requires
            self.readable(),
        ensures
            data@ == self.wide(),
    {
        let len = wcslen(*self);
        let units: &'a [u16] = self.0.unwrap();
        &units[0..len]
    }
}

/// The number of units that stand before the NUL that ends the string.
pub fn wcslen(s: PCWSTR<'_>) -> (len: usize)
    requires
        s.readable(),
    ensures
        len == wide_len(s.units()),
        len < s.units().len(),
        s.units()[len as int] == 0,
        forall|j: int| 0 <= j < len ==> #[trigger] s.units()[j] != 0,
{
    let units = s.0.unwrap();
    proof {
        lemma_wide_len(units@);
    }
    let mut len: usize = 0;
    while units[len] != 0
        invariant
            terminated(units@),
            len <= wide_len(units@) < units@.len(),
            wide_len(units@) == nul_scan(units@, len as int),
        decreases units@.len() - len,
    {
        proof {
            lemma_nul_scan(units@, len + 1);
        }
        len += 1;
    }
    len
}

} // verus!
