use vstd::prelude::*;

verus! {

/// The class of a question or resource record, keyed by the 16-bit wire
/// code.  Unrecognized codes are carried in the fallback variant.
#[derive(Debug, Clone, Copy, PartialEq, Eq, Hash, Structural)]
pub enum QueryClass {
    IN,
    CH,
    HS,
    ANY,
    UNKNOWN(u16),
}

impl QueryClass {
    /// The wire code of this class.
    pub open spec fn spec_num(self) -> u16 {
        match self {
            QueryClass::IN => 1,
            QueryClass::CH => 3,
            QueryClass::HS => 4,
            QueryClass::ANY => 255,
            QueryClass::UNKNOWN(qclass) => qclass,
        }
    }

    /// The class a wire code stands for.
    pub open spec fn spec_of_num(num: u16) -> QueryClass {
        match num {
            1u16 => QueryClass::IN,
            3u16 => QueryClass::CH,
            4u16 => QueryClass::HS,
            255u16 => QueryClass::ANY,
            _ => QueryClass::UNKNOWN(num),
        }
    }

    pub fn to_num(&self) -> (r: u16)
        ensures
            r == self.spec_num(),
    {
        match *self {
            QueryClass::IN => 1,
            QueryClass::CH => 3,
            QueryClass::HS => 4,
            QueryClass::ANY => 255,
            QueryClass::UNKNOWN(qclass) => qclass,
        }
    }

    pub fn from_num(num: u16) -> (r: QueryClass)
        ensures
            r == QueryClass::spec_of_num(num),
    {
        match num {
            1 => QueryClass::IN,
            3 => QueryClass::CH,
            4 => QueryClass::HS,
            255 => QueryClass::ANY,
            _ => QueryClass::UNKNOWN(num),
        }
    }
}

/// Law: every wire code decodes to a class that encodes back to the same
/// code; a recognized class decodes from its own code; an unrecognized code
/// is kept, exactly, in the fallback variant.
pub proof fn lemma_query_class_code_round_trip(c: QueryClass, n: u16)
    ensures
        QueryClass::spec_of_num(n).spec_num() == n,
        !(c is UNKNOWN) ==> QueryClass::spec_of_num(c.spec_num()) == c,
        n != 1 && n != 3 && n != 4 && n != 255 ==> QueryClass::spec_of_num(n) == QueryClass::UNKNOWN(
            n,
        ),
{
}

} // verus!
