use leptos_captcha::codec::{
    decode_challenge, decode_solution, encode_challenge, encode_solution, Challenge, CodecError,
    Solution,
};

fn sample() -> Challenge {
    Challenge {
        difficulty: 20,
        expires: 1702682422,
        salt: "Rhs5wflYb9mpiDQX".to_string(),
        tag: "F+CSBSpalGG6FvfSUYjN8zw95z/LYd7jnnu+lYhA3wI".to_string(),
    }
}

#[test]
fn encode_writes_the_layout() {
    let t = encode_challenge(&sample());
    assert_eq!(
        t,
        "1:20:1702682422:Rhs5wflYb9mpiDQX:F+CSBSpalGG6FvfSUYjN8zw95z/LYd7jnnu+lYhA3wI:"
    );
}

#[test]
fn challenge_round_trip() {
    let c = sample();
    assert_eq!(decode_challenge(&encode_challenge(&c)), Ok(c));
    let edge = Challenge { difficulty: 10, expires: 0, salt: String::new(), tag: String::new() };
    assert_eq!(encode_challenge(&edge), "1:10:0:::");
    assert_eq!(decode_challenge(&encode_challenge(&edge)), Ok(edge));
    let big = Challenge {
        difficulty: 99,
        expires: u64::MAX,
        salt: "é".to_string(),
        tag: "t".to_string(),
    };
    assert_eq!(decode_challenge(&encode_challenge(&big)), Ok(big));
}

#[test]
fn solution_round_trip() {
    let s = Solution { challenge: sample(), nonce: 79715 };
    let t = encode_solution(&s);
    assert_eq!(
        t,
        "1:20:1702682422:Rhs5wflYb9mpiDQX:F+CSBSpalGG6FvfSUYjN8zw95z/LYd7jnnu+lYhA3wI:79715"
    );
    assert_eq!(decode_solution(&t), Ok(s));
    let zero = Solution { challenge: sample(), nonce: 0 };
    assert_eq!(decode_solution(&encode_solution(&zero)), Ok(zero));
}

#[test]
fn decode_rejects_malformed_tokens() {
    let bad = [
        "",
        "1",
        "2:20:1702682422:salt:tag:",
        "1:020:1702682422:salt:tag:",
        "1:256:1702682422:salt:tag:",
        "1:5:1702682422:salt:tag:",
        "1:09:1702682422:salt:tag:",
        "1:100:1702682422:salt:tag:",
        "1:20:18446744073709551616:salt:tag:",
        "1:2a:1702682422:salt:tag:",
        "1::1702682422:salt:tag:",
        "1:20:1702682422:salt:tag",
        "1:20:1702682422:salt:tag:x",
        "1:20:1702682422:salt:",
    ];
    for t in bad {
        assert_eq!(decode_challenge(t), Err(CodecError::MalformedToken), "{}", t);
    }
    assert_eq!(decode_challenge("1:20:-5:s:t:"), Err(CodecError::MalformedToken));
}

#[test]
fn decode_solution_rejects_bad_nonces() {
    let base = "1:20:1702682422:salt:tag:";
    assert!(decode_solution(base).is_err());
    assert!(decode_solution(&format!("{}007", base)).is_err());
    assert!(decode_solution(&format!("{}18446744073709551616", base)).is_err());
    assert!(decode_solution(&format!("{}12x", base)).is_err());
    let ok = decode_solution(&format!("{}18446744073709551615", base)).unwrap();
    assert_eq!(ok.nonce, u64::MAX);
    assert_eq!(ok.challenge.salt, "salt");
}

#[test]
fn validity_of_fields() {
    assert!(sample().is_valid());
    let mut c = sample();
    c.salt = "a:b".to_string();
    assert!(!c.is_valid());
    let mut d = sample();
    d.tag = ":".to_string();
    assert!(!d.is_valid());
    let mut low = sample();
    low.difficulty = 9;
    assert!(!low.is_valid());
    let mut high = sample();
    high.difficulty = 100;
    assert!(!high.is_valid());
}
