use vstd::prelude::*;

use crate::decimal::{dec, is_canonical, lemma_canonical_dec, lemma_dec_canonical, parse_dec, push_dec, value_of};

verus! {

/// The lowest difficulty that the token layout admits: two decimal digits.
pub const MIN_DIFFICULTY: u8 = 10;

/// The highest difficulty that the layout admits.
pub const MAX_LAYOUT_DIFFICULTY: u8 = 99;

/// What a challenge token carries, as plain values.
pub struct ChallengeView {
    pub difficulty: u8,
    pub expires: u64,
    pub salt: Seq<char>,
    pub tag: Seq<char>,
}

pub open spec fn no_colon(s: Seq<char>) -> bool {
    forall|i: int| 0 <= i < s.len() ==> #[trigger] s[i] != ':'
}

pub open spec fn is_prefix(p: Seq<char>, s: Seq<char>) -> bool {
    p.len() <= s.len() && s.subrange(0, p.len() as int) == p
}

impl ChallengeView {
    /// The difficulty takes exactly two digits, and salt and tag are free
    /// text fields, so they may not hold the separator.
    pub open spec fn wf(self) -> bool {
        &&& MIN_DIFFICULTY <= self.difficulty <= MAX_LAYOUT_DIFFICULTY
        &&& no_colon(self.salt)
        &&& no_colon(self.tag)
    }

    /// The token: `1:<difficulty>:<expires>:<salt>:<tag>:`.
    pub open spec fn text(self) -> Seq<char> {
        seq!['1', ':'] + dec(self.difficulty as nat) + seq![':'] + dec(self.expires as nat) + seq![
            ':',
        ] + self.salt + seq![':'] + self.tag + seq![':']
    }

    /// A solution token: the challenge token followed by the nonce in decimal.
    pub open spec fn solution_text(self, nonce: u64) -> Seq<char> {
        self.text() + dec(nonce as nat)
    }
}

/// A proof-of-work challenge as the issuer hands it out.
///
/// `tag` authenticates the other fields for the issuer that holds the key; an
/// empty tag means that none is present.
#[derive(Clone, Debug, PartialEq, Eq)]
pub struct Challenge {
    pub difficulty: u8,
    pub expires: u64,
    pub salt: String,
    pub tag: String,
}

impl View for Challenge {
    type V = ChallengeView;

    open spec fn view(&self) -> ChallengeView {
        ChallengeView {
            difficulty: self.difficulty,
            expires: self.expires,
            salt: self.salt@,
            tag: self.tag@,
        }
    }
}

/// A challenge together with the nonce that a solver found for it.
#[derive(Clone, Debug, PartialEq, Eq)]
pub struct Solution {
    pub challenge: Challenge,
    pub nonce: u64,
}

#[derive(Clone, Copy, Debug, PartialEq, Eq)]
pub enum CodecError {
    MalformedToken,
}

/// Relies on `str::chars` collected by `Vec::from_iter`: the characters in order.
#[verifier::external_body]
pub(crate) fn chars_of(s: &str) -> (r: Vec<char>)
    ensures
        r@ == s@,
{
    s.chars().collect()
}

/// Relies on `String::from_iter` over chars: the string of those characters.
#[verifier::external_body]
pub(crate) fn string_of(v: &Vec<char>) -> (r: String)
    ensures
        r@ == v@,
{
    v.iter().collect()
}

fn find_colon(s: &Vec<char>, from: usize) -> (r: usize)
    requires
        from <= s@.len(),
    ensures
        from <= r <= s@.len(),
        forall|i: int| from <= i < r ==> #[trigger] s@[i] != ':',
        r < s@.len() ==> s@[r as int] == ':',
{
    let mut i: usize = from;
    while i < s.len()
        invariant
            from <= i <= s@.len(),
            forall|j: int| from <= j < i ==> #[trigger] s@[j] != ':',
        decreases s@.len() - i,
    {
        if s[i] == ':' {
            return i;
        }
        i = i + 1;
    }
    i
}

fn copy_range(s: &Vec<char>, start: usize, end: usize) -> (r: String)
    requires
        start <= end <= s@.len(),
    ensures
        r@ == s@.subrange(start as int, end as int),
{
    let mut out: Vec<char> = Vec::new();
    let mut i: usize = start;
    while i < end
        invariant
            start <= i <= end <= s@.len(),
            out@ == s@.subrange(start as int, i as int),
        decreases end - i,
    {
        out.push(s[i]);
        i = i + 1;
        assert(out@ =~= s@.subrange(start as int, i as int));
    }
    string_of(&out)
}

/// Where the fields of `v.text()` lie in a text `s` that starts with it.
pub open spec fn layout_holds(v: ChallengeView, s: Seq<char>) -> bool {
    let q1: int = 2 + dec(v.difficulty as nat).len() as int;
    let q2: int = q1 + 1 + dec(v.expires as nat).len();
    let q3: int = q2 + 1 + v.salt.len();
    let q4: int = q3 + 1 + v.tag.len();
    &&& v.text().len() == q4 + 1
    &&& s[0] == '1' && s[1] == ':'
    &&& s[q1] == ':' && s[q2] == ':' && s[q3] == ':' && s[q4] == ':'
    &&& s.subrange(2, q1) == dec(v.difficulty as nat)
    &&& s.subrange(q1 + 1, q2) == dec(v.expires as nat)
    &&& s.subrange(q2 + 1, q3) == v.salt
    &&& s.subrange(q3 + 1, q4) == v.tag
    &&& forall|i: int| 2 <= i < q1 ==> #[trigger] s[i] != ':'
    &&& forall|i: int| q1 + 1 <= i < q2 ==> #[trigger] s[i] != ':'
    &&& forall|i: int| q2 + 1 <= i < q3 ==> #[trigger] s[i] != ':'
    &&& forall|i: int| q3 + 1 <= i < q4 ==> #[trigger] s[i] != ':'
    &&& is_canonical(dec(v.difficulty as nat))
    &&& value_of(dec(v.difficulty as nat)) == v.difficulty
    &&& is_canonical(dec(v.expires as nat))
    &&& value_of(dec(v.expires as nat)) == v.expires
}

proof fn lemma_layout(v: ChallengeView, s: Seq<char>)
    requires
        v.wf(),
        is_prefix(v.text(), s),
    ensures
        layout_holds(v, s),
{
    lemma_dec_canonical(v.difficulty as nat);
    lemma_dec_canonical(v.expires as nat);
    let dd = dec(v.difficulty as nat);
    let de = dec(v.expires as nat);
    let q1: int = 2 + dd.len() as int;
    let q2: int = q1 + 1 + de.len();
    let q3: int = q2 + 1 + v.salt.len();
    let q4: int = q3 + 1 + v.tag.len();
    let t = v.text();
    assert(t.len() == q4 + 1);
    assert forall|i: int| 0 <= i < t.len() implies s[i] == t[i] by {
        assert(s.subrange(0, t.len() as int)[i] == s[i]);
    }
    assert(t.subrange(2, q1) =~= dd);
    assert(t.subrange(q1 + 1, q2) =~= de);
    assert(t.subrange(q2 + 1, q3) =~= v.salt);
    assert(t.subrange(q3 + 1, q4) =~= v.tag);
    assert(s.subrange(2, q1) =~= t.subrange(2, q1));
    assert(s.subrange(q1 + 1, q2) =~= t.subrange(q1 + 1, q2));
    assert(s.subrange(q2 + 1, q3) =~= t.subrange(q2 + 1, q3));
    assert(s.subrange(q3 + 1, q4) =~= t.subrange(q3 + 1, q4));
    assert forall|i: int| 2 <= i < q1 implies #[trigger] s[i] != ':' by {
        assert(s[i] == dd[i - 2]);
    }
    assert forall|i: int| q1 + 1 <= i < q2 implies #[trigger] s[i] != ':' by {
        assert(s[i] == de[i - q1 - 1]);
    }
    assert forall|i: int| q2 + 1 <= i < q3 implies #[trigger] s[i] != ':' by {
        assert(s[i] == v.salt[i - q2 - 1]);
    }
    assert forall|i: int| q3 + 1 <= i < q4 implies #[trigger] s[i] != ':' by {
        assert(s[i] == v.tag[i - q3 - 1]);
    }
}

/// Every well-formed challenge whose token starts `s` lies in `s` as its
/// layout says.
proof fn lemma_layout_all(s: Seq<char>)
    ensures
        forall|v: ChallengeView| v.wf() && #[trigger] is_prefix(v.text(), s) ==> layout_holds(v, s),
{
    assert forall|v: ChallengeView| v.wf() && #[trigger] is_prefix(v.text(), s) implies layout_holds(
        v,
        s,
    ) by {
        lemma_layout(v, s);
    }
}

/// No challenge token is a prefix of `s`.
pub open spec fn no_challenge_prefix(s: Seq<char>) -> bool {
    forall|v: ChallengeView| v.wf() ==> !#[trigger] is_prefix(v.text(), s)
}

/// Reads the challenge token at the start of `s`, and returns it with its length.
fn parse_prefix(s: &Vec<char>) -> (r: Option<(Challenge, usize)>)
    ensures
        r matches Some((c, end)) ==> c@.wf() && end == c@.text().len() && is_prefix(c@.text(), s@),
        r is None ==> no_challenge_prefix(s@),
{
    proof {
        lemma_layout_all(s@);
    }
    let n = s.len();
    if n < 2 || s[0] != '1' || s[1] != ':' {
        return None;
    }
    let p1 = find_colon(s, 2);
    let d = if p1 < n {
        parse_dec(s, 2, p1, MAX_LAYOUT_DIFFICULTY as u64)
    } else {
        None
    };
    if d.is_none() || d.unwrap() < MIN_DIFFICULTY as u64 {
        return None;
    }
    let p2 = find_colon(s, p1 + 1);
    let e = if p2 < n {
        parse_dec(s, p1 + 1, p2, u64::MAX)
    } else {
        None
    };
    if e.is_none() {
        return None;
    }
    let p3 = find_colon(s, p2 + 1);
    if p3 == n {
        return None;
    }
    let p4 = find_colon(s, p3 + 1);
    if p4 == n {
        return None;
    }
    let difficulty = d.unwrap() as u8;
    let expires = e.unwrap();
    let salt = copy_range(s, p2 + 1, p3);
    let tag = copy_range(s, p3 + 1, p4);
    let c = Challenge { difficulty, expires, salt, tag };
    proof {
        lemma_canonical_dec(s@.subrange(2, p1 as int));
        lemma_canonical_dec(s@.subrange(p1 + 1, p2 as int));
        let t = c@.text();
        assert(c@.wf());
        assert(s@.subrange(0, p4 + 1) =~= t);
    }
    Some((c, p4 + 1))
}

/// Two well-formed challenges whose tokens both start `s` are the same.
proof fn lemma_prefix_unique(v: ChallengeView, w: ChallengeView, s: Seq<char>)
    requires
        v.wf(),
        w.wf(),
        is_prefix(v.text(), s),
        is_prefix(w.text(), s),
    ensures
        v == w,
{
    lemma_layout(v, s);
    lemma_layout(w, s);
    lemma_canonical_dec(dec(v.difficulty as nat));
    lemma_canonical_dec(dec(w.difficulty as nat));
    lemma_canonical_dec(dec(v.expires as nat));
    lemma_canonical_dec(dec(w.expires as nat));
}

/// The challenge that the token `s` carries, if it is one.
pub open spec fn challenge_of(s: Seq<char>) -> Option<ChallengeView> {
    if exists|v: ChallengeView| v.wf() && v.text() == s {
        Some(choose|v: ChallengeView| v.wf() && v.text() == s)
    } else {
        None
    }
}

/// The challenge and nonce that the solution token `s` carries, if it is one.
pub open spec fn solution_of(s: Seq<char>) -> Option<(ChallengeView, u64)> {
    if exists|v: ChallengeView, n: u64| v.wf() && v.solution_text(n) == s {
        Some(choose|v: ChallengeView, n: u64| v.wf() && v.solution_text(n) == s)
    } else {
        None
    }
}

/// Decoding an encoded challenge gives back exactly its fields.
pub proof fn lemma_challenge_round_trip(v: ChallengeView)
    requires
        v.wf(),
    ensures
        challenge_of(v.text()) == Some(v),
{
    assert(v.text().subrange(0, v.text().len() as int) =~= v.text());
    assert(exists|w: ChallengeView| w.wf() && w.text() == v.text());
    let w = choose|w: ChallengeView| w.wf() && w.text() == v.text();
    lemma_prefix_unique(v, w, v.text());
}

proof fn lemma_solution_unique(v: ChallengeView, n: u64, w: ChallengeView, m: u64)
    requires
        v.wf(),
        w.wf(),
        v.solution_text(n) == w.solution_text(m),
    ensures
        v == w,
        n == m,
{
    let s = v.solution_text(n);
    assert(s.subrange(0, v.text().len() as int) =~= v.text());
    assert(s.subrange(0, w.text().len() as int) =~= w.text());
    lemma_prefix_unique(v, w, s);
    assert(s.subrange(v.text().len() as int, s.len() as int) =~= dec(n as nat));
    assert(s.subrange(w.text().len() as int, s.len() as int) =~= dec(m as nat));
    lemma_dec_canonical(n as nat);
    lemma_dec_canonical(m as nat);
}

/// Decoding an encoded solution gives back exactly its challenge and nonce.
pub proof fn lemma_solution_round_trip(v: ChallengeView, n: u64)
    requires
        v.wf(),
    ensures
        solution_of(v.solution_text(n)) == Some((v, n)),
{
    let s = v.solution_text(n);
    assert(exists|w: ChallengeView, m: u64| w.wf() && w.solution_text(m) == s);
    let (w, m) = choose|w: ChallengeView, m: u64| w.wf() && w.solution_text(m) == s;
    lemma_solution_unique(v, n, w, m);
}

impl Challenge {
    /// Whether the fields can be written as a token: the difficulty has two
    /// digits, and salt and tag hold no `:`.
    pub fn is_valid(&self) -> (r: bool)
        ensures
            r == self@.wf(),
    {
        let salt = chars_of(self.salt.as_str());
        let tag = chars_of(self.tag.as_str());
        let a = find_colon(&salt, 0);
        let b = find_colon(&tag, 0);
        MIN_DIFFICULTY <= self.difficulty && self.difficulty <= MAX_LAYOUT_DIFFICULTY
            && a == salt.len() && b == tag.len()
    }
}

fn push_str_chars(out: &mut Vec<char>, s: &String)
    ensures
        final(out)@ == old(out)@ + s@,
{
    let cs = chars_of(s.as_str());
    let mut i: usize = 0;
    while i < cs.len()
        invariant
            0 <= i <= cs@.len(),
            cs@ == s@,
            out@ == old(out)@ + cs@.take(i as int),
        decreases cs@.len() - i,
    {
        out.push(cs[i]);
        i = i + 1;
        assert(out@ =~= old(out)@ + cs@.take(i as int));
    }
    assert(cs@.take(i as int) =~= cs@);
}

fn push_challenge(out: &mut Vec<char>, c: &Challenge)
    ensures
        final(out)@ == old(out)@ + c@.text(),
{
    out.push('1');
    out.push(':');
    push_dec(c.difficulty as u64, out);
    out.push(':');
    push_dec(c.expires, out);
    out.push(':');
    push_str_chars(out, &c.salt);
    out.push(':');
    push_str_chars(out, &c.tag);
    out.push(':');
    assert(final(out)@ =~= old(out)@ + c@.text());
}

/// Writes a challenge as its token.
pub fn encode_challenge(c: &Challenge) -> (r: String)
    requires
        c@.wf(),
    ensures
        r@ == c@.text(),
        challenge_of(r@) == Some(c@),
{
    let mut out: Vec<char> = Vec::new();
    push_challenge(&mut out, c);
    proof {
        assert(out@ =~= c@.text());
        lemma_challenge_round_trip(c@);
    }
    string_of(&out)
}

/// Writes a solution as its token: the challenge token, then the nonce.
pub fn encode_solution(s: &Solution) -> (r: String)
    requires
        s.challenge@.wf(),
    ensures
        r@ == s.challenge@.solution_text(s.nonce),
        solution_of(r@) == Some((s.challenge@, s.nonce)),
{
    let mut out: Vec<char> = Vec::new();
    push_challenge(&mut out, &s.challenge);
    push_dec(s.nonce, &mut out);
    proof {
        assert(out@ =~= s.challenge@.solution_text(s.nonce));
        lemma_solution_round_trip(s.challenge@, s.nonce);
    }
    string_of(&out)
}

/// Reads a challenge token.
pub fn decode_challenge(token: &str) -> (r: Result<Challenge, CodecError>)
    ensures
        match r {
            Ok(c) => challenge_of(token@) == Some(c@),
            Err(_) => challenge_of(token@) is None,
        },
{
    let s = chars_of(token);
    match parse_prefix(&s) {
        Some((c, end)) => {
            if end == s.len() {
                proof {
                    assert(s@.subrange(0, end as int) =~= s@);
                    lemma_challenge_round_trip(c@);
                }
                Ok(c)
            } else {
                proof {
                    if exists|v: ChallengeView| v.wf() && v.text() == s@ {
                        let v = choose|v: ChallengeView| v.wf() && v.text() == s@;
                        assert(s@.subrange(0, s@.len() as int) =~= s@);
                        lemma_prefix_unique(v, c@, s@);
                    }
                }
                Err(CodecError::MalformedToken)
            }
        },
        None => {
            proof {
                if exists|v: ChallengeView| v.wf() && v.text() == s@ {
                    let v = choose|v: ChallengeView| v.wf() && v.text() == s@;
                    assert(s@.subrange(0, s@.len() as int) =~= s@);
                    assert(is_prefix(v.text(), s@));
                }
            }
            Err(CodecError::MalformedToken)
        },
    }
}

/// Reads a solution token.
pub fn decode_solution(token: &str) -> (r: Result<Solution, CodecError>)
    ensures
        match r {
            Ok(sol) => solution_of(token@) == Some((sol.challenge@, sol.nonce)),
            Err(_) => solution_of(token@) is None,
        },
{
    let s = chars_of(token);
    match parse_prefix(&s) {
        Some((c, end)) => {
            match parse_dec(&s, end, s.len(), u64::MAX) {
                Some(nonce) => {
                    proof {
                        let seg = s@.subrange(end as int, s@.len() as int);
                        lemma_canonical_dec(seg);
                        assert(s@ =~= c@.text() + seg);
                        lemma_solution_round_trip(c@, nonce);
                    }
                    Ok(Solution { challenge: c, nonce })
                },
                None => {
                    proof {
                        if exists|v: ChallengeView, n: u64| v.wf() && v.solution_text(n) == s@ {
                            let (v, n) = choose|v: ChallengeView, n: u64|
                                v.wf() && v.solution_text(n) == s@;
                            assert(s@.subrange(0, v.text().len() as int) =~= v.text());
                            lemma_prefix_unique(v, c@, s@);
                            assert(s@.subrange(end as int, s@.len() as int) =~= dec(n as nat));
                            lemma_dec_canonical(n as nat);
                        }
                    }
                    Err(CodecError::MalformedToken)
                },
            }
        },
        None => {
            proof {
                if exists|v: ChallengeView, n: u64| v.wf() && v.solution_text(n) == s@ {
                    let (v, n) = choose|v: ChallengeView, n: u64|
                        v.wf() && v.solution_text(n) == s@;
                    assert(s@.subrange(0, v.text().len() as int) =~= v.text());
                    assert(is_prefix(v.text(), s@));
                }
            }
            Err(CodecError::MalformedToken)
        },
    }
}

} // verus!
