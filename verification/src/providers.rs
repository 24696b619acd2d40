//! Token providers that come with the library.
use vstd::prelude::*;

use crate::token_provider::{one_chunk_for_all, Chunk, TokenProvider};

verus! {

#[verifier::external_type_specification]
#[verifier::external_body]
pub struct ExIoError(std::io::Error);

/// Always provides the same token.
#[derive(Debug)]
pub struct StaticTokenProvider(String);

impl StaticTokenProvider {
    /// The token that this provider hands out.
    pub closed spec fn token(&self) -> Seq<char> {
        self.0@
    }

    /// Creates a provider that always hands out `token`.
    pub fn new(token: String) -> (r: Self)
        ensures
            r.token() == token@,
    {
        StaticTokenProvider(token)
    }

    fn provide(&self) -> (r: String)
        ensures
            r@ == self.token(),
    {
        self.0.clone()
    }
}

impl TokenProvider for StaticTokenProvider {
    // never returned
    type Error = std::io::Error;

    fn provide_token(&self, topic: &String) -> (r: Result<Option<String>, Self::Error>)
        ensures
            r matches Ok(Some(t)) && t@ == self.token(),
    {
        Ok(Some(self.provide()))
    }

    fn provide_many(&self, topics: Vec<String>) -> (r: Result<Vec<Chunk>, Self::Error>)
        ensures
            r is Ok,
            one_chunk_for_all(topics.deep_view(), Some(self.token()), r->Ok_0.deep_view()),
    {
        let token = self.provide();
        let ghost tv = topics.deep_view();
        let chunks = vec![(topics, Some(token))];
        assert(chunks.deep_view() =~= seq![(tv, Some(self.token()))]);
        Ok(chunks)
    }
}

/// Never provides a token.
#[derive(Debug)]
pub struct NoTokenProvider;

impl TokenProvider for NoTokenProvider {
    // never returned
    type Error = std::io::Error;

    fn provide_token(&self, topic: &String) -> (r: Result<Option<String>, Self::Error>)
        ensures
            r matches Ok(None),
    {
        Ok(None)
    }

    fn provide_many(&self, topics: Vec<String>) -> (r: Result<Vec<Chunk>, Self::Error>)
        ensures
            r is Ok,
            one_chunk_for_all(topics.deep_view(), None, r->Ok_0.deep_view()),
    {
        let ghost tv = topics.deep_view();
        let chunks = vec![(topics, None)];
        assert(chunks.deep_view() =~= seq![(tv, None::<Seq<char>>)]);
        Ok(chunks)
    }
}

} // verus!
