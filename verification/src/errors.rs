use vstd::prelude::*;

verus! {

/// The error conditions of the codec and of the exchange boundary.
#[derive(Debug, Clone, Copy, PartialEq, Eq, Structural)]
pub enum DnsError {
    /// A cursor operation would pass the 512-byte frame capacity.
    Overflow,
    /// Name decompression followed more pointer jumps than the cap allows.
    CompressionLoop,
    /// An encoded label was longer than 63 bytes.
    LabelTooLong,
    /// A send or receive on the byte exchange failed.
    Transport,
}

impl DnsError {
    /// A short description of the error, for callers that report it.
    pub fn message(&self) -> (r: &'static str)
        ensures
            r@.len() > 0,
    {
        proof {
            reveal_strlit("buffer overflow");
            reveal_strlit("compression jump limit exceeded");
            reveal_strlit("label longer than 63 bytes");
            reveal_strlit("transport failure");
        }
        match self {
            DnsError::Overflow => "buffer overflow",
            DnsError::CompressionLoop => "compression jump limit exceeded",
            DnsError::LabelTooLong => "label longer than 63 bytes",
            DnsError::Transport => "transport failure",
        }
    }
}

} // verus!
