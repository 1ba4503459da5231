//! The voting service's decision: turn a vote code and a URL into the
//! confirmation text, or reject the code.

use vstd::prelude::*;

verus! {

use vstd::string::StringExecFns;

/// Why a vote was rejected.
#[derive(Clone, Copy, Debug, PartialEq, Eq, Structural)]
pub enum VoteError {
    /// The vote code is neither an upvote nor a downvote.
    OutOfRange,
}

/// The voting service.
#[derive(Debug)]
pub struct VotingService {}

impl Default for VotingService {
    fn default() -> (s: VotingService)
        ensures
            s == (VotingService {  }),
    {
        VotingService {  }
    }
}

impl VotingService {
    /// Decide a vote: code 0 confirms an upvote for the URL, code 1 a
    /// downvote, and anything else is out of range.
    pub fn vote(&self, vote: u32, url: &str) -> (r: Result<String, VoteError>)
        ensures
            vote == 0 ==> r is Ok && r.unwrap()@ == "Upvote for "@ + url@ + " confirmed!"@,
            vote == 1 ==> r is Ok && r.unwrap()@ == "Downvote for "@ + url@ + " confirmed!"@,
            vote > 1 ==> r == Err::<String, VoteError>(VoteError::OutOfRange),
    {
        if vote == 0 {
            let mut s: String = "Upvote for ".to_owned();
            s.append(url);
            s.append(" confirmed!");
            proof {
                assert(s@ =~= "Upvote for "@ + url@ + " confirmed!"@);
            }
            Ok(s)
        } else if vote == 1 {
            let mut s: String = "Downvote for ".to_owned();
            s.append(url);
            s.append(" confirmed!");
            proof {
                assert(s@ =~= "Downvote for "@ + url@ + " confirmed!"@);
            }
            Ok(s)
        } else {
            Err(VoteError::OutOfRange)
        }
    }
}

} // verus!
