use vstd::prelude::*;

verus! {

/// The record type of a question or resource record, keyed by the 16-bit
/// wire code.  Unrecognized codes are carried in the fallback variant.
#[derive(Debug, Clone, Copy, PartialEq, Eq, Hash, Structural)]
pub enum QueryType {
    A,
    NS,
    CNAME,
    MX,
    AAAA,
    UNKNOWN(u16),
}

impl QueryType {
    /// The wire code of this type.
    pub open spec fn spec_num(self) -> u16 {
        match self {
            QueryType::A => 1,
            QueryType::NS => 2,
            QueryType::CNAME => 5,
            QueryType::MX => 15,
            QueryType::AAAA => 28,
            QueryType::UNKNOWN(qtype) => qtype,
        }
    }

    /// The type a wire code stands for.
    pub open spec fn spec_of_num(num: u16) -> QueryType {
        match num {
            1u16 => QueryType::A,
            2u16 => QueryType::NS,
            5u16 => QueryType::CNAME,
            15u16 => QueryType::MX,
            28u16 => QueryType::AAAA,
            _ => QueryType::UNKNOWN(num),
        }
    }

    pub fn to_num(&self) -> (r: u16)
        ensures
            r == self.spec_num(),
    {
        match *self {
            QueryType::A => 1,
            QueryType::NS => 2,
            QueryType::CNAME => 5,
            QueryType::MX => 15,
            QueryType::AAAA => 28,
            QueryType::UNKNOWN(qtype) => qtype,
        }
    }

    pub fn from_num(num: u16) -> (r: QueryType)
        ensures
            r == QueryType::spec_of_num(num),
    {
        match num {
            1 => QueryType::A,
            2 => QueryType::NS,
            5 => QueryType::CNAME,
            15 => QueryType::MX,
            28 => QueryType::AAAA,
            _ => QueryType::UNKNOWN(num),
        }
    }
}

/// Law: every wire code decodes to a type that encodes back to the same
/// code; a recognized type decodes from its own code; an unrecognized code
/// is kept, exactly, in the fallback variant.
pub proof fn lemma_query_type_code_round_trip(t: QueryType, n: u16)
    ensures
        QueryType::spec_of_num(n).spec_num() == n,
        !(t is UNKNOWN) ==> QueryType::spec_of_num(t.spec_num()) == t,
        n != 1 && n != 2 && n != 5 && n != 15 && n != 28 ==> QueryType::spec_of_num(n)
            == QueryType::UNKNOWN(n),
{
}

} // verus!
