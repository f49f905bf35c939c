//! The interface of a tokenizer.

use vstd::prelude::*;
use crate::error::Error;
use crate::token::pre_tokenizer::chunk_views;

verus! {

/// A tokenizer turns text into token ids and back. `T` is the element type
/// of the chunks that pre-encoding cuts the text into.
pub trait Tokenizer<'a, T> {
    /// The chunks of `text`, or the error pre-encoding fails with.
    spec fn spec_pre_encode(&self, text: Seq<char>) -> Result<Seq<Seq<T>>, Error>;

    /// The token ids of `text`, or the error encoding fails with.
    spec fn spec_encode(&self, text: Seq<char>) -> Result<Seq<u32>, Error>;

    /// Whether `decode` accepts `ids`.
    spec fn decodable(&self, ids: Seq<u32>) -> bool;

    /// The text of `ids`, or the error decoding fails with.
    spec fn spec_decode(&self, ids: Seq<u32>) -> Result<Seq<char>, Error>;

    fn pre_encode(&self, text: &'a str) -> (res: Result<Vec<&'a [T]>, Error>)
        ensures
            match res {
                Ok(v) => self.spec_pre_encode(text@) == Ok::<Seq<Seq<T>>, Error>(chunk_views(v@)),
                Err(e) => self.spec_pre_encode(text@) == Err::<Seq<Seq<T>>, Error>(e),
            },
    ;

    fn encode(&self, text: &'a str) -> (res: Result<Vec<u32>, Error>)
        ensures
            match res {
                Ok(ids) => self.spec_encode(text@) == Ok::<Seq<u32>, Error>(ids@),
                Err(e) => self.spec_encode(text@) == Err::<Seq<u32>, Error>(e),
            },
    ;

    fn decode(&self, ids: &[u32]) -> (res: Result<String, Error>)
        requires
            self.decodable(ids@),
        ensures
            match res {
                Ok(s) => self.spec_decode(ids@) == Ok::<Seq<char>, Error>(s@),
                Err(e) => self.spec_decode(ids@) == Err::<Seq<char>, Error>(e),
            },
    ;
}

} // verus!
