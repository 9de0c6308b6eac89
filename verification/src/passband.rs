use vstd::prelude::*;

verus! {

/// Number of passbands a source carries a light curve for.
pub const N_PASSBANDS: usize = 3;

/// A photometric passband of the survey.
#[derive(Clone, Copy, Debug, PartialEq, Eq, Structural)]
pub enum Passband {
    G,
    R,
    I,
}

impl Passband {
    /// The passband that the database stores under `code`, if any.
    pub open spec fn spec_from_code(code: u8) -> Option<Passband> {
        if code == 1 {
            Some(Passband::G)
        } else if code == 2 {
            Some(Passband::R)
        } else if code == 3 {
            Some(Passband::I)
        } else {
            None
        }
    }

    /// Where a source keeps the light curve of this passband.
    pub open spec fn spec_lcs_index(self) -> usize {
        match self {
            Passband::G => 0,
            Passband::R => 1,
            Passband::I => 2,
        }
    }

    /// The label of the passband in column names.
    pub open spec fn spec_name(self) -> Seq<char> {
        match self {
            Passband::G => "g"@,
            Passband::R => "r"@,
            Passband::I => "i"@,
        }
    }

    pub fn from_code(code: u8) -> (res: Option<Passband>)
        ensures
            res == Self::spec_from_code(code),
    {
        if code == 1 {
            Some(Passband::G)
        } else if code == 2 {
            Some(Passband::R)
        } else if code == 3 {
            Some(Passband::I)
        } else {
            None
        }
    }

    pub fn lcs_index(&self) -> (res: usize)
        ensures
            res == self.spec_lcs_index(),
            res < N_PASSBANDS,
    {
        match self {
            Passband::G => 0,
            Passband::R => 1,
            Passband::I => 2,
        }
    }

    pub fn name(&self) -> (res: &'static str)
        ensures
            res@ == self.spec_name(),
    {
        match self {
            Passband::G => "g",
            Passband::R => "r",
            Passband::I => "i",
        }
    }
}

/// Distinct passbands keep their light curves in distinct slots, and a
/// passband read from its database code is that passband.
pub proof fn lemma_slots_distinct(a: Passband, b: Passband)
    ensures
        a != b ==> a.spec_lcs_index() != b.spec_lcs_index(),
        a.spec_lcs_index() < N_PASSBANDS,
        Passband::spec_from_code((a.spec_lcs_index() + 1) as u8) == Some(a),
{
}

} // verus!
