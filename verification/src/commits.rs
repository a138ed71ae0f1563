//! Validation of what the commit range reader hands over.
//!
//! The reader yields ordered (commit id, message) pairs; a commit whose
//! message is absent or empty is a hard error for the whole range, not a
//! pair to skip.

use vstd::prelude::*;

verus! {

/// A failure of the commit range: some commit carries no usable message.
#[derive(Debug)]
pub enum Error {
    /// The named commit's message is absent or empty.
    MissingMessage(String),
}

/// The commit id an error names.
pub open spec fn error_commit_id(e: Error) -> Seq<char> {
    match e {
        Error::MissingMessage(id) => id@,
    }
}

/// The pair at `i` lacks a usable message.
pub open spec fn missing_at(pairs: Seq<(Seq<char>, Option<Seq<char>>)>, i: int) -> bool {
    pairs[i].1 is None || pairs[i].1->Some_0.len() == 0
}

/// Every pair carries a non-empty message.
pub open spec fn all_messages_present(pairs: Seq<(Seq<char>, Option<Seq<char>>)>) -> bool {
    forall|i: int| 0 <= i < pairs.len() ==> !missing_at(pairs, i)
}

/// The pairs with their messages unwrapped, order kept.
pub open spec fn paired_messages(pairs: Seq<(Seq<char>, Option<Seq<char>>)>) -> Seq<
    (Seq<char>, Seq<char>),
> {
    Seq::new(pairs.len(), |i: int| (pairs[i].0, pairs[i].1->Some_0))
}

/// Accepts the reader's pairs only when every commit carries a non-empty
/// message; otherwise reports the first commit that does not.
pub fn collect_messages(pairs: Vec<(String, Option<String>)>) -> (r: Result<
    Vec<(String, String)>,
    Error,
>)
    ensures
        r is Ok <==> all_messages_present(pairs.deep_view()),
        r is Ok ==> r->Ok_0.deep_view() == paired_messages(pairs.deep_view()),
        r is Err ==> exists|k: int|
            0 <= k < pairs.deep_view().len() && #[trigger] missing_at(pairs.deep_view(), k)
                && (forall|j: int| 0 <= j < k ==> !missing_at(pairs.deep_view(), j))
                && error_commit_id(r->Err_0) == pairs.deep_view()[k].0,
{
    let ghost p = pairs.deep_view();
    let mut out: Vec<(String, String)> = Vec::new();
    let mut k: usize = 0;
    while k < pairs.len()
        invariant
            p == pairs.deep_view(),
            pairs@.len() == p.len(),
            k <= p.len(),
            forall|j: int| 0 <= j < k ==> !missing_at(p, j),
            out.deep_view() =~= paired_messages(p.take(k as int)),
        decreases p.len() - k,
    {
        proof {
            assert(p[k as int] == pairs@[k as int].deep_view());
        }
        let usable = match &pairs[k].1 {
            Some(msg) => !msg.as_str().is_empty(),
            None => false,
        };
        if !usable {
            proof {
                assert(missing_at(p, k as int));
            }
            return Err(Error::MissingMessage(pairs[k].0.clone()));
        }
        let message = match &pairs[k].1 {
            Some(msg) => msg.clone(),
            None => String::new(),
        };
        let ghost pre = out.deep_view();
        out.push((pairs[k].0.clone(), message));
        proof {
            assert(out.deep_view() =~= pre.push((p[k as int].0, p[k as int].1->Some_0)));
            assert(out.deep_view() =~= paired_messages(p.take(k + 1)));
        }
        k = k + 1;
    }
    proof {
        assert(p.take(p.len() as int) =~= p);
    }
    Ok(out)
}

} // verus!
