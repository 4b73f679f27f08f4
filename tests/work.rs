use leptos_captcha::codec::{decode_challenge, decode_solution, encode_solution, Solution};
use leptos_captcha::dispatch::{DispatchError, DispatchState, Dispatcher};
use leptos_captcha::validate::{Rejection, Validator};
use leptos_captcha::work::{issue, solve, IssueError, SolveError};
use std::time::{SystemTime, UNIX_EPOCH};

fn init() {
    spow::pow::Pow::init("a test secret for the issuer".to_string());
}

fn now() -> u64 {
    SystemTime::now().duration_since(UNIX_EPOCH).unwrap().as_secs()
}

#[test]
fn solve_appends_a_nonce() {
    let c = "1:10:1702682422:Rhs5wflYb9mpiDQX:F+CSBSpalGG6FvfSUYjN8zw95z/LYd7jnnu+lYhA3wI:";
    let t = solve(c, 16).unwrap();
    assert!(t.starts_with(c));
    let s = decode_solution(&t).unwrap();
    assert_eq!(s.challenge, decode_challenge(c).unwrap());
    assert_eq!(t, format!("{}{}", c, s.nonce));
}

#[test]
fn solve_is_deterministic() {
    let c = "1:12:1702682422:AAAAAAAAAAAAAAAA:BBBBBBBBBBBBBBBBBBBBBBBBBBBBBBBBBBBBBBBBBBB:";
    assert_eq!(solve(c, 16), solve(c, 16));
}

#[test]
fn solve_errors() {
    assert_eq!(solve("not a token", 20), Err(SolveError::MalformedToken));
    assert_eq!(solve("1:9:1702682422:s:t:", 20), Err(SolveError::MalformedToken));
    assert_eq!(solve("1:20:1702682422:s:t:", 12), Err(SolveError::DifficultyTooHigh));
    assert_eq!(solve("1:49:1702682422:s:t:", 99), Err(SolveError::DifficultyTooHigh));
    assert_eq!(solve("1:5:1702682422:s:t:", 99), Err(SolveError::MalformedToken));
}

#[test]
fn work_for_a_range_of_difficulties() {
    init();
    let mut v = Validator::new(false);
    for d in 10u8..=14 {
        let c = issue(d, 60).unwrap();
        let t = solve(&c, 16).unwrap();
        assert_eq!(v.validate(&t, now()), Ok(()));
    }
}

#[test]
fn issue_checks_difficulty() {
    init();
    assert_eq!(issue(9, 60), Err(IssueError::DifficultyOutOfRange));
    assert_eq!(issue(99, 60), Err(IssueError::DifficultyOutOfRange));
    assert_eq!(issue(49, 60), Err(IssueError::DifficultyOutOfRange));
    assert!(issue(48, 60).is_ok());
    let c = issue(10, 60).unwrap();
    let ch = decode_challenge(&c).unwrap();
    assert_eq!(ch.difficulty, 10);
    assert_eq!(ch.salt.len(), 16);
    assert_eq!(ch.tag.len(), 43);
    assert!(ch.expires >= now() + 59);
}

/// A solved challenge whose first passing nonce is not zero, so that nonce
/// zero is known to fail.
fn solved_with_positive_nonce(difficulty: u8) -> (String, Solution) {
    loop {
        let c = issue(difficulty, 60).unwrap();
        let t = solve(&c, 20).unwrap();
        let s = decode_solution(&t).unwrap();
        if s.nonce > 0 {
            return (t, s);
        }
    }
}

#[test]
fn end_to_end() {
    init();
    let mut v = Validator::new(true);
    let (t, s) = solved_with_positive_nonce(10);
    assert_eq!(v.validate(&t, now() + 1), Ok(()));
    assert_eq!(v.validate(&t, now() + 1), Err(Rejection::AlreadyConsumed));
    let (_, fresh) = solved_with_positive_nonce(10);
    let forged = encode_solution(&Solution { challenge: fresh.challenge.clone(), nonce: 0 });
    assert_eq!(v.validate(&forged, now()), Err(Rejection::InsufficientWork));
    assert!(s.nonce > 0);
}

#[test]
fn tampered_nonce_is_insufficient_work() {
    init();
    let mut v = Validator::new(true);
    let (_, s) = solved_with_positive_nonce(12);
    let tampered = encode_solution(&Solution { challenge: s.challenge.clone(), nonce: 0 });
    assert_eq!(v.validate(&tampered, now()), Err(Rejection::InsufficientWork));
    assert!(!v.is_consumed(&s.challenge.salt));
}

#[test]
fn expired_solution() {
    init();
    let mut v = Validator::new(true);
    let c = issue(10, 60).unwrap();
    let t = solve(&c, 16).unwrap();
    let s = decode_solution(&t).unwrap();
    assert_eq!(v.validate(&t, s.challenge.expires + 1), Err(Rejection::Expired));
    assert_eq!(v.validate(&t, s.challenge.expires), Ok(()));
}

#[test]
fn forged_tag_is_rejected() {
    init();
    let mut v = Validator::new(true);
    let c = issue(10, 60).unwrap();
    let mut ch = decode_challenge(&c).unwrap();
    ch.tag = "A".repeat(43);
    let forged = leptos_captcha::codec::encode_challenge(&ch);
    let t = solve(&forged, 16).unwrap();
    assert_eq!(v.validate(&t, now()), Err(Rejection::AuthenticationFailed));
}

#[test]
fn malformed_solutions() {
    let mut v = Validator::new(true);
    assert_eq!(v.validate("", 0), Err(Rejection::MalformedToken));
    assert_eq!(v.validate("1:10:5:s:t:", 0), Err(Rejection::MalformedToken));
    assert_eq!(v.validate("1:10:5:s:t:4", 0), Err(Rejection::MalformedToken));
    assert_eq!(v.validate("1:10:99:é:t:4", 0), Err(Rejection::MalformedToken));
    let high = format!("1:72:9999999999:{}:{}:0", "A".repeat(16), "B".repeat(43));
    assert_eq!(v.validate(&high, 0), Err(Rejection::MalformedToken));
}

#[test]
fn replay_off_accepts_twice() {
    init();
    let mut v = Validator::new(false);
    assert!(!v.anti_replay());
    let t = solve(&issue(10, 60).unwrap(), 16).unwrap();
    assert_eq!(v.validate(&t, now()), Ok(()));
    assert_eq!(v.validate(&t, now()), Ok(()));
}

#[test]
fn two_cycles_with_one_validator() {
    init();
    let mut v = Validator::new(true);
    let mut a = Dispatcher::new();
    let mut b = Dispatcher::new();
    assert!(a.begin());
    assert!(b.begin());
    let ca = issue(10, 60).unwrap();
    let cb = issue(10, 60).unwrap();
    let tb = b.on_challenge(&cb, 16).unwrap();
    let ta = a.on_challenge(&ca, 16).unwrap();
    assert_eq!(a.state(), DispatchState::Verified);
    assert_eq!(b.state(), DispatchState::Verified);
    assert_eq!(v.validate(&tb, now()), Ok(()));
    assert_eq!(v.validate(&ta, now()), Ok(()));
    assert_eq!(v.validate(&ta, now()), Err(Rejection::AlreadyConsumed));
}

#[test]
fn dispatch_cycle() {
    let mut d = Dispatcher::new();
    assert_eq!(d.state(), DispatchState::Idle);
    assert_eq!(d.on_challenge("1:10:5:s:t:", 16), Err(DispatchError::NotPending));
    assert!(d.begin());
    assert!(!d.begin());
    assert_eq!(d.state(), DispatchState::Pending);
    d.issuer_failed();
    assert_eq!(d.state(), DispatchState::Idle);
    assert!(d.begin());
    assert_eq!(
        d.on_challenge("garbage", 16),
        Err(DispatchError::Solve(SolveError::MalformedToken))
    );
    assert_eq!(d.state(), DispatchState::Idle);
    assert!(d.begin());
    let t = d.on_challenge("1:10:5:s:t:", 16).unwrap();
    assert!(t.starts_with("1:10:5:s:t:"));
    assert_eq!(d.state(), DispatchState::Verified);
    d.issuer_failed();
    assert_eq!(d.state(), DispatchState::Verified);
    assert!(d.begin());
    assert_eq!(d.state(), DispatchState::Pending);
}

#[test]
fn widget_projection() {
    assert_eq!(DispatchState::Idle.data_state(), "");
    assert_eq!(DispatchState::Pending.data_state(), "pending");
    assert_eq!(DispatchState::Verified.data_state(), "verified");
    assert_eq!(DispatchState::Idle.to_flag(), None);
    assert_eq!(DispatchState::Pending.to_flag(), Some(true));
    assert_eq!(DispatchState::Verified.to_flag(), Some(false));
    for f in [None, Some(true), Some(false)] {
        assert_eq!(DispatchState::from_flag(f).to_flag(), f);
    }
    assert_eq!(DispatchState::Pending.label("a", "b", "c"), "b");
    assert_eq!(DispatchState::Verified.label("a", "b", "c"), "c");
    assert_eq!(DispatchState::Idle.label("a", "b", "c"), "a");
}


#[test]
fn expired_seeds_are_forgotten() {
    init();
    let mut v = Validator::new(true);
    let t1 = solve(&issue(10, 1).unwrap(), 16).unwrap();
    let s1 = decode_solution(&t1).unwrap();
    assert_eq!(v.validate(&t1, now()), Ok(()));
    assert!(v.is_consumed(&s1.challenge.salt));
    let t2 = solve(&issue(10, 60).unwrap(), 16).unwrap();
    assert_eq!(v.validate(&t2, s1.challenge.expires + 1), Ok(()));
    assert!(!v.is_consumed(&s1.challenge.salt));
    assert_eq!(v.validate(&t1, s1.challenge.expires + 1), Err(Rejection::Expired));
    v.prune(0);
    assert!(v.is_consumed(&decode_solution(&t2).unwrap().challenge.salt));
}
