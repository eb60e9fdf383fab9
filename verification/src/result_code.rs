use vstd::prelude::*;

verus! {

/// The 4-bit response status of a header.  Unrecognized codes are carried
/// in the fallback variant so that they round-trip numerically.
#[derive(Debug, Clone, Copy, PartialEq, Eq, Hash, Structural)]
pub enum ResultCode {
    NOERROR,
    FORMERR,
    SERVFAIL,
    NXDOMAIN,
    NOTIMP,
    REFUSED,
    UNKNOWN(u8),
}

impl ResultCode {
    /// The wire code of this status.
    pub open spec fn spec_num(self) -> u8 {
        match self {
            ResultCode::NOERROR => 0,
            ResultCode::FORMERR => 1,
            ResultCode::SERVFAIL => 2,
            ResultCode::NXDOMAIN => 3,
            ResultCode::NOTIMP => 4,
            ResultCode::REFUSED => 5,
            ResultCode::UNKNOWN(code) => code,
        }
    }

    /// The status a wire code stands for.
    pub open spec fn spec_of_num(num: u8) -> ResultCode {
        match num {
            0u8 => ResultCode::NOERROR,
            1u8 => ResultCode::FORMERR,
            2u8 => ResultCode::SERVFAIL,
            3u8 => ResultCode::NXDOMAIN,
            4u8 => ResultCode::NOTIMP,
            5u8 => ResultCode::REFUSED,
            _ => ResultCode::UNKNOWN(num),
        }
    }

    pub fn to_num(&self) -> (r: u8)
        ensures
            r == self.spec_num(),
    {
        match *self {
            ResultCode::NOERROR => 0,
            ResultCode::FORMERR => 1,
            ResultCode::SERVFAIL => 2,
            ResultCode::NXDOMAIN => 3,
            ResultCode::NOTIMP => 4,
            ResultCode::REFUSED => 5,
            ResultCode::UNKNOWN(code) => code,
        }
    }

    pub fn from_num(num: u8) -> (r: ResultCode)
        ensures
            r == ResultCode::spec_of_num(num),
    {
        match num {
            0 => ResultCode::NOERROR,
            1 => ResultCode::FORMERR,
            2 => ResultCode::SERVFAIL,
            3 => ResultCode::NXDOMAIN,
            4 => ResultCode::NOTIMP,
            5 => ResultCode::REFUSED,
            _ => ResultCode::UNKNOWN(num),
        }
    }
}

/// Law: every wire code decodes to a status that encodes back to the same
/// code; a recognized status decodes from its own code; an unrecognized
/// code is kept, exactly, in the fallback variant.
pub proof fn lemma_result_code_round_trip(c: ResultCode, n: u8)
    ensures
        ResultCode::spec_of_num(n).spec_num() == n,
        !(c is UNKNOWN) ==> ResultCode::spec_of_num(c.spec_num()) == c,
        n > 5 ==> ResultCode::spec_of_num(n) == ResultCode::UNKNOWN(n),
{
}

} // verus!
