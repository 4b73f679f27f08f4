use vstd::prelude::*;

use crate::codec::{
    challenge_of, decode_challenge, lemma_solution_round_trip, solution_of, ChallengeView,
    MAX_LAYOUT_DIFFICULTY, MIN_DIFFICULTY,
};
use crate::decimal::dec;

verus! {

/// The highest difficulty that is issued, solved or validated. spow counts
/// the nonce in a `u64`; at difficulty `d` the chance that no nonce below 2^64
/// matches is about e^-(2^(64-d)), which is negligible at this bound. spow's
/// check of the leading zero bits also overflows a shift above 64.
pub const MAX_SOLVABLE_DIFFICULTY: u8 = 48;

#[derive(Clone, Copy, Debug, PartialEq, Eq)]
pub enum SolveError {
    MalformedToken,
    DifficultyTooHigh,
}

/// The token that spow's solver returns for a challenge token: the challenge
/// followed by the first nonce, counted from zero, whose hash has enough
/// leading zero bits.
pub uninterp spec fn work_of(challenge: Seq<char>) -> Seq<char>;

/// A well-formed challenge (two digits of difficulty) that a 64-bit nonce
/// reaches.
pub open spec fn solvable(v: ChallengeView) -> bool {
    v.wf() && v.difficulty <= MAX_SOLVABLE_DIFFICULTY
}

/// Relies on `spow::pow::Pow::work`: for a token that starts `1:` and has two
/// digits of difficulty after it, it counts nonces from zero and returns the
/// token followed by the first one that meets the difficulty.
#[verifier::external_body]
fn spow_work(challenge: &str) -> (r: Option<String>)
    requires
        challenge_of(challenge@) matches Some(v) && solvable(v),
    ensures
        r is Some,
        r->Some_0@ == work_of(challenge@),
        exists|n: u64| r->Some_0@ == challenge@ + dec(n as nat),
{
    spow::pow::Pow::work(challenge).ok()
}

/// What `solve` returns for a challenge token and the caller's difficulty bound.
pub open spec fn solve_outcome(challenge: Seq<char>, max_difficulty: u8) -> Result<Seq<char>, SolveError> {
    match challenge_of(challenge) {
        None => Err(SolveError::MalformedToken),
        Some(v) => if v.difficulty > max_difficulty || v.difficulty > MAX_SOLVABLE_DIFFICULTY {
            Err(SolveError::DifficultyTooHigh)
        } else {
            Ok(work_of(challenge))
        },
    }
}

/// Solves a challenge token: finds a nonce that meets its difficulty and
/// returns the solution token.
///
/// Fails with `MalformedToken` when the token is no challenge, and with
/// `DifficultyTooHigh`
/// when the difficulty is above `max_difficulty` or above
/// `MAX_SOLVABLE_DIFFICULTY`.
pub fn solve(challenge: &str, max_difficulty: u8) -> (r: Result<String, SolveError>)
    ensures
        match r {
            Ok(t) => solve_outcome(challenge@, max_difficulty) == Ok::<Seq<char>, SolveError>(t@),
            Err(e) => solve_outcome(challenge@, max_difficulty) == Err::<Seq<char>, SolveError>(e),
        },
        r matches Ok(t) ==> exists|n: u64| #[trigger]
            solution_of(t@) == Some((challenge_of(challenge@)->Some_0, n)),
{
    let c = match decode_challenge(challenge) {
        Ok(c) => c,
        Err(_) => {
            return Err(SolveError::MalformedToken);
        },
    };
    if c.difficulty > max_difficulty || c.difficulty > MAX_SOLVABLE_DIFFICULTY {
        return Err(SolveError::DifficultyTooHigh);
    }
    let t = spow_work(challenge).unwrap();
    proof {
        let n = choose|n: u64| t@ == challenge@ + dec(n as nat);
        assert(challenge@ == c@.text());
        lemma_solution_round_trip(c@, n);
        assert(solution_of(t@) == Some((challenge_of(challenge@)->Some_0, n)));
    }
    Ok(t)
}

/// With the nonce search counted from zero, the solution depends on the
/// challenge and the bound alone: solving the same token twice gives the same
/// result.
pub proof fn lemma_solve_deterministic(a: Seq<char>, b: Seq<char>, max_difficulty: u8)
    requires
        a == b,
    ensures
        solve_outcome(a, max_difficulty) == solve_outcome(b, max_difficulty),
{
}

#[derive(Clone, Copy, Debug, PartialEq, Eq)]
pub enum IssueError {
    /// The difficulty lies outside `MIN_DIFFICULTY..=MAX_SOLVABLE_DIFFICULTY`.
    DifficultyOutOfRange,
    /// The issuer has no secret yet, or no randomness, so nothing is issued.
    IssuerUnavailable,
}

/// Relies on `spow::pow::Pow::with_difficulty` and its `Display`: it refuses a
/// difficulty outside `10..99`; otherwise it draws a salt, reads the clock,
/// tags the fields with the issuer's secret (failing when none was set) and
/// writes `1:<difficulty>:<expires>:<salt>:<tag>:`.
#[verifier::external_body]
fn spow_issue(difficulty: u8, valid_seconds: u32) -> (r: Option<String>)
    ensures
        r is Some ==> MIN_DIFFICULTY <= difficulty < MAX_LAYOUT_DIFFICULTY,
        r is Some ==> (challenge_of(r->Some_0@) matches Some(v) ==> v.difficulty == difficulty),
{
    match spow::pow::Pow::with_difficulty(difficulty, valid_seconds) {
        Ok(p) => Some(p.to_string()),
        Err(_) => None,
    }
}

/// Issues a challenge token of the given difficulty, valid for
/// `valid_seconds` from now. A difficulty outside
/// `MIN_DIFFICULTY..=MAX_SOLVABLE_DIFFICULTY` is refused; otherwise the issuer
/// fails only when it has no secret, no randomness or no sane clock.
pub fn issue(difficulty: u8, valid_seconds: u32) -> (r: Result<String, IssueError>)
    ensures
        (r is Err && r->Err_0 == IssueError::DifficultyOutOfRange) <==> !(MIN_DIFFICULTY
            <= difficulty <= MAX_SOLVABLE_DIFFICULTY),
        r matches Ok(t) ==> challenge_of(t@) matches Some(v) && v.difficulty == difficulty,
{
    if difficulty < MIN_DIFFICULTY || difficulty > MAX_SOLVABLE_DIFFICULTY {
        return Err(IssueError::DifficultyOutOfRange);
    }
    match spow_issue(difficulty, valid_seconds) {
        Some(t) => match decode_challenge(t.as_str()) {
            Ok(_) => Ok(t),
            Err(_) => Err(IssueError::IssuerUnavailable),
        },
        None => Err(IssueError::IssuerUnavailable),
    }
}

} // verus!
