use vstd::prelude::*;

use crate::codec::{decode_solution, solution_of};
use crate::work::MAX_SOLVABLE_DIFFICULTY;
use spow::pow::PowError;

verus! {

/// Why a solution token was turned down.
#[derive(Clone, Copy, Debug, PartialEq, Eq)]
pub enum Rejection {
    MalformedToken,
    AuthenticationFailed,
    InsufficientWork,
    Expired,
    AlreadyConsumed,
}

/// Relies on `spow::pow::Pow::validate`, which checks the layout, the
/// difficulty range, the expiry against the system clock, the tag against the
/// issuer's secret and the leading zero bits of the hash. Its verdict depends
/// on the clock and on the secret, so nothing is stated of it but that a token
/// shorter than the layout is malformed. spow slices the token at fixed byte
/// offsets, so it must be ASCII and laid out as a solution; and its bit check
/// shifts a `u64` by the difficulty, so that must stay low.
#[verifier::external_body]
fn spow_verdict(token: &str) -> (r: Result<(), Rejection>)
    requires
        token.is_ascii(),
        solution_of(token@) matches Some((v, _)) && v.difficulty <= MAX_SOLVABLE_DIFFICULTY,
    ensures
        token@.len() < 78 ==> r is Err && r->Err_0 == Rejection::MalformedToken,
{
    match spow::pow::Pow::validate(token) {
        Ok(_) => Ok(()),
        Err(PowError::Verify("Pow has expired")) => Err(Rejection::Expired),
        Err(PowError::Verify("Challenge cannot be verified")) => Err(Rejection::AuthenticationFailed),
        Err(PowError::Init) => Err(Rejection::AuthenticationFailed),
        Err(PowError::Verify("Invalid PoW")) => Err(Rejection::InsufficientWork),
        Err(_) => Err(Rejection::MalformedToken),
    }
}

/// A consumed seed together with the expiry of its token.
pub type SeedEntry = (Seq<char>, u64);

pub open spec fn holds_seed(seen: Seq<SeedEntry>, seed: Seq<char>) -> bool {
    exists|i: int| 0 <= i < seen.len() && #[trigger] seen[i].0 == seed
}

/// The entries whose tokens have not expired at `now`.
pub open spec fn pruned(seen: Seq<SeedEntry>, now: u64) -> Seq<SeedEntry> {
    seen.filter(|e: SeedEntry| e.1 >= now)
}

/// The outcome of recording `seed` (its token expiring at `expires`) after the
/// token's own checks gave `verdict`, and the consumed entries afterwards.
pub open spec fn record_outcome(
    anti_replay: bool,
    seen: Seq<SeedEntry>,
    seed: Seq<char>,
    expires: u64,
    verdict: Result<(), Rejection>,
) -> (Result<(), Rejection>, Seq<SeedEntry>) {
    match verdict {
        Err(e) => (Err(e), seen),
        Ok(()) => if anti_replay && holds_seed(seen, seed) {
            (Err(Rejection::AlreadyConsumed), seen)
        } else if anti_replay {
            (Ok(()), seen.push((seed, expires)))
        } else {
            (Ok(()), seen)
        },
    }
}

/// The issuer's side: checks solution tokens and, with anti-replay on,
/// remembers the seed of each one it accepted until its token expires.
pub struct Validator {
    anti_replay: bool,
    seen: Vec<(String, u64)>,
}

impl Validator {
    pub closed spec fn replay_guarded(&self) -> bool {
        self.anti_replay
    }

    /// The seeds of the solutions accepted so far, with their expiries.
    pub closed spec fn consumed(&self) -> Seq<SeedEntry> {
        self.seen@.map_values(|e: (String, u64)| (e.0@, e.1))
    }

    pub fn new(anti_replay: bool) -> (r: Validator)
        ensures
            r.replay_guarded() == anti_replay,
            r.consumed() == Seq::<SeedEntry>::empty(),
    {
        let r = Validator { anti_replay, seen: Vec::new() };
        assert(r.consumed() =~= Seq::<SeedEntry>::empty());
        r
    }

    pub fn anti_replay(&self) -> (r: bool)
        ensures
            r == self.replay_guarded(),
    {
        self.anti_replay
    }

    /// Whether `seed` belongs to a solution accepted before.
    pub fn is_consumed(&self, seed: &String) -> (r: bool)
        ensures
            r == holds_seed(self.consumed(), seed@),
    {
        let mut i: usize = 0;
        while i < self.seen.len()
            invariant
                0 <= i <= self.seen@.len(),
                forall|j: int| 0 <= j < i ==> self.consumed()[j].0 != seed@,
            decreases self.seen@.len() - i,
        {
            if self.seen[i].0 == *seed {
                assert(self.consumed()[i as int].0 == seed@);
                return true;
            }
            i = i + 1;
        }
        false
    }

    /// Forgets the seeds whose tokens expired before `now`: such a token is
    /// turned down as `Expired` from then on, so its seed need not be kept.
    pub fn prune(&mut self, now: u64)
        ensures
            final(self).replay_guarded() == old(self).replay_guarded(),
            final(self).consumed() == pruned(old(self).consumed(), now),
    {
        let ghost all = self.consumed();
        let mut kept: Vec<(String, u64)> = Vec::new();
        let mut i: usize = 0;
        while i < self.seen.len()
            invariant
                0 <= i <= self.seen@.len(),
                all == self.seen@.map_values(|e: (String, u64)| (e.0@, e.1)),
                kept@.map_values(|e: (String, u64)| (e.0@, e.1)) == pruned(all.take(i as int), now),
            decreases self.seen@.len() - i,
        {
            proof {
                reveal(Seq::filter);
                assert(all.take(i + 1).drop_last() =~= all.take(i as int));
            }
            if self.seen[i].1 >= now {
                let seed = self.seen[i].0.clone();
                kept.push((seed, self.seen[i].1));
                assert(kept@.map_values(|e: (String, u64)| (e.0@, e.1)) =~= pruned(
                    all.take(i as int),
                    now,
                ).push(all[i as int]));
            }
            i = i + 1;
        }
        assert(all.take(i as int) =~= all);
        self.seen = kept;
    }

    /// Records the solution with seed `seed`, whose token expires at
    /// `expires` and passed or failed its own checks as `verdict` says.
    pub fn record(&mut self, seed: &String, expires: u64, verdict: Result<(), Rejection>) -> (r:
        Result<(), Rejection>)
        ensures
            final(self).replay_guarded() == old(self).replay_guarded(),
            (r, final(self).consumed()) == record_outcome(
                old(self).replay_guarded(),
                old(self).consumed(),
                seed@,
                expires,
                verdict,
            ),
    {
        match verdict {
            Err(e) => Err(e),
            Ok(()) => {
                if self.anti_replay {
                    if self.is_consumed(seed) {
                        Err(Rejection::AlreadyConsumed)
                    } else {
                        self.seen.push((seed.clone(), expires));
                        assert(self.consumed() =~= old(self).consumed().push((seed@, expires)));
                        Ok(())
                    }
                } else {
                    Ok(())
                }
            },
        }
    }

    /// Checks a solution token at time `now` (seconds since the Unix epoch).
    ///
    /// A token that is not ASCII, is no solution or asks for a difficulty
    /// above `MAX_SOLVABLE_DIFFICULTY` is `MalformedToken`; one whose expiry
    /// lies before `now` is `Expired`. Otherwise the seeds expired at `now`
    /// are forgotten, the hash, the tag and spow's own clock decide a verdict,
    /// and the seed is recorded with it.
    pub fn validate(&mut self, token: &str, now: u64) -> (r: Result<(), Rejection>)
        ensures
            final(self).replay_guarded() == old(self).replay_guarded(),
            !token.is_ascii() ==> r == Err::<(), Rejection>(Rejection::MalformedToken)
                && final(self).consumed() == old(self).consumed(),
            token.is_ascii() ==> match solution_of(token@) {
                None => r == Err::<(), Rejection>(Rejection::MalformedToken)
                    && final(self).consumed() == old(self).consumed(),
                Some((v, _)) => if v.difficulty > MAX_SOLVABLE_DIFFICULTY {
                    r == Err::<(), Rejection>(Rejection::MalformedToken)
                        && final(self).consumed() == old(self).consumed()
                } else if now > v.expires {
                    r == Err::<(), Rejection>(Rejection::Expired) && final(self).consumed()
                        == old(self).consumed()
                } else {
                    exists|verdict: Result<(), Rejection>|
                        (r, final(self).consumed()) == #[trigger] record_outcome(
                            old(self).replay_guarded(),
                            pruned(old(self).consumed(), now),
                            v.salt,
                            v.expires,
                            verdict,
                        )
                },
            },
    {
        if !token.is_ascii() {
            return Err(Rejection::MalformedToken);
        }
        let sol = match decode_solution(token) {
            Ok(sol) => sol,
            Err(_) => {
                return Err(Rejection::MalformedToken);
            },
        };
        if sol.challenge.difficulty > MAX_SOLVABLE_DIFFICULTY {
            return Err(Rejection::MalformedToken);
        }
        if now > sol.challenge.expires {
            return Err(Rejection::Expired);
        }
        self.prune(now);
        let verdict = spow_verdict(token);
        self.record(&sol.challenge.salt, sol.challenge.expires, verdict)
    }
}

proof fn lemma_holds_push(seen: Seq<SeedEntry>, e: SeedEntry, x: Seq<char>)
    ensures
        holds_seed(seen.push(e), x) <==> (holds_seed(seen, x) || e.0 == x),
{
    let s = seen.push(e);
    if holds_seed(s, x) {
        let i = choose|i: int| 0 <= i < s.len() && #[trigger] s[i].0 == x;
        if i < seen.len() {
            assert(seen[i].0 == x);
        }
    }
    if holds_seed(seen, x) {
        let i = choose|i: int| 0 <= i < seen.len() && #[trigger] seen[i].0 == x;
        assert(s[i].0 == x);
    }
    if e.0 == x {
        assert(s[seen.len() as int].0 == x);
    }
}

/// A seed accepted once with anti-replay on is turned down when it comes
/// again, whatever the second token's own checks say.
pub proof fn lemma_replay_rejected(
    seen: Seq<SeedEntry>,
    seed: Seq<char>,
    expires: u64,
    first: Result<(), Rejection>,
    second: Result<(), Rejection>,
)
    requires
        record_outcome(true, seen, seed, expires, first).0 is Ok,
    ensures
        record_outcome(true, record_outcome(true, seen, seed, expires, first).1, seed, expires, second).0 is Err,
        second is Ok ==> record_outcome(true, record_outcome(true, seen, seed, expires, first).1, seed, expires, second).0
            == Err::<(), Rejection>(Rejection::AlreadyConsumed),
{
    lemma_holds_push(seen, (seed, expires), seed);
}

/// A fresh seed whose token passed its checks is accepted.
pub proof fn lemma_fresh_accepted(anti_replay: bool, seen: Seq<SeedEntry>, seed: Seq<char>, expires: u64)
    requires
        !holds_seed(seen, seed),
    ensures
        record_outcome(anti_replay, seen, seed, expires, Ok(())).0 == Ok::<(), Rejection>(()),
{
}

/// Two solutions with different fresh seeds are both accepted, in either
/// order, and either order leaves the same seeds consumed.
pub proof fn lemma_independent_seeds(
    anti_replay: bool,
    seen: Seq<SeedEntry>,
    a: Seq<char>,
    ea: u64,
    b: Seq<char>,
    eb: u64,
)
    requires
        a != b,
        !holds_seed(seen, a),
        !holds_seed(seen, b),
    ensures
        ({
            let after_a = record_outcome(anti_replay, seen, a, ea, Ok(()));
            let after_b = record_outcome(anti_replay, seen, b, eb, Ok(()));
            let ab = record_outcome(anti_replay, after_a.1, b, eb, Ok(()));
            let ba = record_outcome(anti_replay, after_b.1, a, ea, Ok(()));
            &&& after_a.0 == Ok::<(), Rejection>(())
            &&& after_b.0 == Ok::<(), Rejection>(())
            &&& ab.0 == Ok::<(), Rejection>(())
            &&& ba.0 == Ok::<(), Rejection>(())
            &&& forall|x: Seq<char>| holds_seed(ab.1, x) <==> holds_seed(ba.1, x)
        }),
{
    if anti_replay {
        lemma_holds_push(seen, (a, ea), b);
        lemma_holds_push(seen, (b, eb), a);
        assert forall|x: Seq<char>|
            holds_seed(seen.push((a, ea)).push((b, eb)), x) <==> holds_seed(
                seen.push((b, eb)).push((a, ea)),
                x,
            ) by {
            lemma_holds_push(seen, (a, ea), x);
            lemma_holds_push(seen, (b, eb), x);
            lemma_holds_push(seen.push((a, ea)), (b, eb), x);
            lemma_holds_push(seen.push((b, eb)), (a, ea), x);
        }
    }
}

} // verus!
