use vstd::prelude::*;

use crate::codec::{challenge_of, solution_of};
use crate::work::{solve, solve_outcome, SolveError};

verus! {

/// Where one submission stands: nothing started, a challenge being fetched or
/// solved, or a solution in hand.
#[derive(Clone, Copy, Debug, PartialEq, Eq, Structural)]
pub enum DispatchState {
    Idle,
    Pending,
    Verified,
}

#[derive(Clone, Copy, Debug, PartialEq, Eq)]
pub enum DispatchError {
    /// A challenge arrived while no request was in flight.
    NotPending,
    /// The challenge could not be solved.
    Solve(SolveError),
}

impl DispatchState {
    /// The state as the UI signal holds it: `None` before any request,
    /// `Some(true)` while pending, `Some(false)` once verified.
    pub fn to_flag(self) -> (r: Option<bool>)
        ensures
            r == match self {
                DispatchState::Idle => None::<bool>,
                DispatchState::Pending => Some(true),
                DispatchState::Verified => Some(false),
            },
    {
        match self {
            DispatchState::Idle => None,
            DispatchState::Pending => Some(true),
            DispatchState::Verified => Some(false),
        }
    }

    pub fn from_flag(flag: Option<bool>) -> (r: DispatchState)
        ensures
            r.to_flag_spec() == flag,
    {
        match flag {
            None => DispatchState::Idle,
            Some(true) => DispatchState::Pending,
            Some(false) => DispatchState::Verified,
        }
    }

    pub open spec fn to_flag_spec(self) -> Option<bool> {
        match self {
            DispatchState::Idle => None,
            DispatchState::Pending => Some(true),
            DispatchState::Verified => Some(false),
        }
    }

    /// The value of the widget's `data-state` attribute.
    pub fn data_state(self) -> (r: &'static str)
        ensures
            r@ == match self {
                DispatchState::Idle => ""@,
                DispatchState::Pending => "pending"@,
                DispatchState::Verified => "verified"@,
            },
    {
        match self {
            DispatchState::Idle => "",
            DispatchState::Pending => "pending",
            DispatchState::Verified => "verified",
        }
    }

    /// The label the widget shows, chosen among the three texts it was given.
    pub fn label<'a>(self, text: &'a str, text_pending: &'a str, text_verified: &'a str) -> (r: &'a str)
        ensures
            r@ == match self {
                DispatchState::Idle => text@,
                DispatchState::Pending => text_pending@,
                DispatchState::Verified => text_verified@,
            },
    {
        match self {
            DispatchState::Idle => text,
            DispatchState::Pending => text_pending,
            DispatchState::Verified => text_verified,
        }
    }
}

/// The decisions of one submission: when a challenge may be requested, what
/// follows its arrival or the issuer's failure. The caller performs the
/// request and runs `on_challenge` away from the interactive thread.
pub struct Dispatcher {
    state: DispatchState,
}

impl Dispatcher {
    pub closed spec fn view_state(&self) -> DispatchState {
        self.state
    }

    pub fn new() -> (r: Dispatcher)
        ensures
            r.view_state() == DispatchState::Idle,
    {
        Dispatcher { state: DispatchState::Idle }
    }

    /// Takes up a cycle where an earlier one left it, e.g. in a UI signal.
    pub fn from_state(state: DispatchState) -> (r: Dispatcher)
        ensures
            r.view_state() == state,
    {
        Dispatcher { state }
    }

    pub fn state(&self) -> (r: DispatchState)
        ensures
            r == self.view_state(),
    {
        self.state
    }

    /// Starts a cycle: from `Idle`, or from `Verified` for a new submission,
    /// the state becomes `Pending` and the caller should request a challenge.
    /// While `Pending` nothing changes and `false` says not to request.
    pub fn begin(&mut self) -> (r: bool)
        ensures
            r == (old(self).view_state() != DispatchState::Pending),
            final(self).view_state() == DispatchState::Pending,
    {
        if self.state == DispatchState::Pending {
            false
        } else {
            self.state = DispatchState::Pending;
            true
        }
    }

    /// The issuer could not hand out a challenge: a pending cycle goes back
    /// to `Idle`, and the caller passes the issuer's error on unchanged.
    pub fn issuer_failed(&mut self)
        ensures
            final(self).view_state() == if old(self).view_state() == DispatchState::Pending {
                DispatchState::Idle
            } else {
                old(self).view_state()
            },
    {
        if self.state == DispatchState::Pending {
            self.state = DispatchState::Idle;
        }
    }

    /// A challenge arrived: a pending cycle solves it. With a solution the
    /// state becomes `Verified` and the solution token is returned; when the
    /// challenge cannot be solved it goes back to `Idle`. Outside a pending
    /// cycle nothing is solved and nothing changes.
    pub fn on_challenge(&mut self, challenge: &str, max_difficulty: u8) -> (r: Result<String, DispatchError>)
        ensures
            old(self).view_state() != DispatchState::Pending ==> r is Err && r->Err_0
                == DispatchError::NotPending && final(self).view_state() == old(self).view_state(),
            old(self).view_state() == DispatchState::Pending ==> match solve_outcome(
                challenge@,
                max_difficulty,
            ) {
                Ok(t) => r is Ok && r->Ok_0@ == t && final(self).view_state()
                    == DispatchState::Verified,
                Err(e) => r is Err && r->Err_0 == DispatchError::Solve(e)
                    && final(self).view_state() == DispatchState::Idle,
            },
            r matches Ok(t) ==> exists|n: u64| #[trigger]
                solution_of(t@) == Some((challenge_of(challenge@)->Some_0, n)),
    {
        if self.state != DispatchState::Pending {
            return Err(DispatchError::NotPending);
        }
        match solve(challenge, max_difficulty) {
            Ok(t) => {
                self.state = DispatchState::Verified;
                Ok(t)
            },
            Err(e) => {
                self.state = DispatchState::Idle;
                Err(DispatchError::Solve(e))
            },
        }
    }
}

} // verus!
