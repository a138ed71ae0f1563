//! Construction of the story fetcher and the extraction pass over commit
//! messages.
//!
//! A fetcher is built from a credential; a credential that cannot be encoded
//! into the transport's authentication header is rejected here, before any
//! network activity begins. The network client itself is built by the caller
//! from the checked credential.

use vstd::prelude::*;

use crate::extract::{extract, extract_spec};

verus! {

/// A character the authentication header can carry. http's header values
/// accept exactly the bytes `b` with `b >= 32 && b != 127 || b == 9`; a
/// character below 128 is encoded as itself, and every byte of a character
/// at or above 128 is at or above 128, hence always accepted.
pub open spec fn valid_header_char(c: char) -> bool {
    c == '\t' || (32 <= c as u32 && c as u32 != 127)
}

/// A credential the transport can present: every character fits in a header
/// value.
pub open spec fn valid_credential(s: Seq<char>) -> bool {
    forall|i: int| 0 <= i < s.len() ==> valid_header_char(#[trigger] s[i])
}

/// Relies on reqwest::header::HeaderValue::from_str (http's HeaderValue):
/// it succeeds exactly when every byte `b` of the string satisfies
/// `b >= 32 && b != 127 || b == 9`, which over characters is
/// `valid_header_char` of each.
#[verifier::external_body]
fn credential_encodes(token: &str) -> (r: bool)
    ensures
        r == valid_credential(token@),
{
    reqwest::header::HeaderValue::from_str(token).is_ok()
}

/// A configuration error: fatal, reported once, before any lookup runs.
#[derive(Debug)]
pub enum Error {
    /// The credential cannot be encoded into the authentication header.
    InvalidToken,
}

/// The resolver's configuration: a credential already checked against the
/// transport's header rules, ready for one lookup per extracted identifier.
pub struct StoryFetcher {
    token: String,
}

/// The identifiers of all messages, in message order, each message's own
/// identifiers left to right; duplicates are kept for aggregation to drop.
pub open spec fn extract_all_spec(msgs: Seq<Seq<char>>) -> Seq<Seq<char>>
    decreases msgs.len(),
{
    if msgs.len() == 0 {
        Seq::empty()
    } else {
        extract_all_spec(msgs.drop_last()) + extract_spec(msgs.last())
    }
}

/// The views of a sequence of messages.
pub open spec fn message_views(msgs: Seq<String>) -> Seq<Seq<char>> {
    msgs.map_values(|m: String| m@)
}

impl StoryFetcher {
    /// The credential this fetcher presents.
    pub closed spec fn spec_token(&self) -> Seq<char> {
        self.token@
    }

    /// A fetcher only ever holds a credential the transport accepts.
    pub open spec fn wf(&self) -> bool {
        valid_credential(self.spec_token())
    }

    /// Builds a fetcher. Succeeds exactly when the credential can be encoded
    /// into the transport's authentication header; an unusable credential is
    /// rejected here, before any network activity.
    pub fn new(tracker_api_token: String) -> (r: Result<StoryFetcher, Error>)
        ensures
            r is Ok <==> valid_credential(tracker_api_token@),
            r is Ok ==> r->Ok_0.spec_token() == tracker_api_token@ && r->Ok_0.wf(),
            r is Err ==> r->Err_0 is InvalidToken,
    {
        if credential_encodes(tracker_api_token.as_str()) {
            Ok(StoryFetcher { token: tracker_api_token })
        } else {
            Err(Error::InvalidToken)
        }
    }

    /// The checked credential, for the transport that presents it.
    pub fn token(&self) -> (t: &String)
        ensures
            t@ == self.spec_token(),
    {
        &self.token
    }

    /// Every identifier referenced by the messages, in order. The grammar is
    /// built in, so extraction cannot fail.
    pub fn story_ids_from_commit_messages(commit_messages: &[String]) -> (r: Result<
        Vec<String>,
        Error,
    >)
        ensures
            r is Ok,
            r->Ok_0.deep_view() == extract_all_spec(message_views(commit_messages@)),
    {
        let ghost m = message_views(commit_messages@);
        let mut ids: Vec<String> = Vec::new();
        let mut k: usize = 0;
        while k < commit_messages.len()
            invariant
                m == message_views(commit_messages@),
                k <= m.len(),
                m.len() == commit_messages@.len(),
                ids.deep_view() == extract_all_spec(m.take(k as int)),
            decreases m.len() - k,
        {
            let ghost pre = ids.deep_view();
            let mut one = extract(commit_messages[k].as_str());
            let ghost onev = one.deep_view();
            ids.append(&mut one);
            proof {
                assert(ids.deep_view() =~= pre + onev);
                assert(m.take(k + 1).drop_last() =~= m.take(k as int));
                assert(m.take(k + 1).last() == m[k as int]);
                assert(m[k as int] == commit_messages@[k as int]@);
            }
            k = k + 1;
        }
        proof {
            assert(m.take(m.len() as int) =~= m);
        }
        Ok(ids)
    }
}

} // verus!
