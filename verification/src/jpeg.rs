use vstd::prelude::*;
use crate::error::Error;

verus! {

/// Parsed JPEG reconstruction payload from a `jbrd` box.
#[derive(Clone, Debug, PartialEq, Eq, Default)]
pub struct JpegReconstructionData {
    /// Raw `jbrd` payload bytes.
    pub raw: Vec<u8>,
}

impl JpegReconstructionData {
    /// Parses raw `jbrd` payload bytes: an empty payload is refused with
    /// `InvalidBox`, any other is kept as it is.
    pub fn parse(payload: &[u8]) -> (r: Result<Self, Error>)
        ensures
            payload@.len() == 0 ==> r == Err::<Self, Error>(Error::InvalidBox),
            payload@.len() > 0 ==> (r matches Ok(d) && d.raw@ == payload@),
    {
        if payload.len() == 0 {
            return Err(Error::InvalidBox);
        }
        let mut raw: Vec<u8> = Vec::new();
        let n = payload.len();
        let mut i: usize = 0;
        while i < n
            invariant
                i <= n,
                n == payload@.len(),
                raw@ =~= payload@.subrange(0, i as int),
            decreases n - i,
        {
            raw.push(payload[i]);
            i = i + 1;
        }
        assert(raw@ =~= payload@);
        Ok(JpegReconstructionData { raw })
    }
}

} // verus!
