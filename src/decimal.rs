use vstd::prelude::*;

verus! {

/// The character of a decimal digit `d < 10`.
pub open spec fn digit_char(d: nat) -> char {
    (('0' as u8) + (d % 10)) as char
}

pub open spec fn is_digit(c: char) -> bool {
    '0' <= c && c <= '9'
}

pub open spec fn digit_value(c: char) -> nat {
    (c as u32 - '0' as u32) as nat
}

/// The canonical decimal text of `n`: no sign, no leading zero.
pub open spec fn dec(n: nat) -> Seq<char>
    decreases n,
{
    if n < 10 {
        seq![digit_char(n)]
    } else {
        dec(n / 10).push(digit_char(n % 10))
    }
}

/// The number that a run of digits denotes.
pub open spec fn value_of(s: Seq<char>) -> nat
    decreases s.len(),
{
    if s.len() == 0 {
        0
    } else {
        value_of(s.drop_last()) * 10 + digit_value(s.last())
    }
}

pub open spec fn all_digits(s: Seq<char>) -> bool {
    forall|i: int| 0 <= i < s.len() ==> is_digit(#[trigger] s[i])
}

/// A decimal field as the token writes it: digits only, and no leading zero.
pub open spec fn is_canonical(s: Seq<char>) -> bool {
    &&& s.len() > 0
    &&& all_digits(s)
    &&& (s.len() == 1 || s[0] != '0')
}

proof fn lemma_digit_char(d: nat)
    requires
        d < 10,
    ensures
        is_digit(digit_char(d)),
        digit_value(digit_char(d)) == d,
        digit_char(d) != ':',
        (digit_char(d) == '0') == (d == 0),
{
}

pub proof fn lemma_dec_canonical(n: nat)
    ensures
        is_canonical(dec(n)),
        value_of(dec(n)) == n,
        n > 0 ==> dec(n)[0] != '0',
    decreases n,
{
    lemma_digit_char(n % 10);
    if n < 10 {
        assert(dec(n).drop_last() =~= Seq::<char>::empty());
        assert(value_of(dec(n).drop_last()) == 0);
        assert(value_of(dec(n)) == value_of(dec(n).drop_last()) * 10 + digit_value(dec(n).last()));
    } else {
        lemma_dec_canonical(n / 10);
        assert(dec(n).drop_last() =~= dec(n / 10));
        assert(dec(n)[0] == dec(n / 10)[0]);
        assert(dec(n).last() == digit_char(n % 10));
        assert((n / 10) * 10 + n % 10 == n) by (nonlinear_arith);
        assert(value_of(dec(n)) == value_of(dec(n).drop_last()) * 10 + digit_value(dec(n).last()));
    }
}

proof fn lemma_value_positive(s: Seq<char>)
    requires
        s.len() > 0,
        all_digits(s),
        s[0] != '0',
    ensures
        value_of(s) > 0,
    decreases s.len(),
{
    if s.len() > 1 {
        lemma_value_positive(s.drop_last());
    }
}

pub proof fn lemma_canonical_dec(s: Seq<char>)
    requires
        is_canonical(s),
    ensures
        dec(value_of(s)) == s,
    decreases s.len(),
{
    let p = s.drop_last();
    let d = digit_value(s.last());
    assert(is_digit(s[s.len() - 1]));
    assert(d < 10);
    assert(digit_char(d) == s.last());
    if s.len() == 1 {
        assert(value_of(p) == 0);
        assert(dec(value_of(s)) =~= s);
    } else {
        lemma_value_positive(p);
        lemma_canonical_dec(p);
        let v = value_of(s);
        assert(v == value_of(p) * 10 + d);
        assert(v / 10 == value_of(p) && v % 10 == d) by (nonlinear_arith)
            requires
                v == value_of(p) * 10 + d,
                d < 10,
        ;
        assert(dec(v) =~= s);
    }
}

proof fn lemma_value_prefix(s: Seq<char>, i: int)
    requires
        0 <= i <= s.len(),
    ensures
        value_of(s.take(i)) <= value_of(s),
    decreases s.len(),
{
    if i < s.len() {
        assert(s.drop_last().take(i) =~= s.take(i));
        lemma_value_prefix(s.drop_last(), i);
    } else {
        assert(s.take(i) =~= s);
    }
}

/// Appends the decimal text of `n` to `out`.
pub fn push_dec(n: u64, out: &mut Vec<char>)
    ensures
        final(out)@ == old(out)@ + dec(n as nat),
    decreases n,
{
    if n >= 10 {
        push_dec(n / 10, out);
    }
    let d: u8 = (n % 10) as u8;
    out.push(('0' as u8 + d) as char);
    proof {
        lemma_digit_char((n % 10) as nat);
        if n < 10 {
            assert(final(out)@ =~= old(out)@ + dec(n as nat));
        } else {
            assert(final(out)@ =~= old(out)@ + dec(n as nat));
        }
    }
}

/// Reads `s[start..end]` as a canonical decimal number that fits in `limit`.
pub fn parse_dec(s: &Vec<char>, start: usize, end: usize, limit: u64) -> (r: Option<u64>)
    requires
        start <= end <= s@.len(),
    ensures
        r is Some <==> (is_canonical(s@.subrange(start as int, end as int)) && value_of(
            s@.subrange(start as int, end as int),
        ) <= limit),
        r matches Some(v) ==> v as nat == value_of(s@.subrange(start as int, end as int)),
{
    let ghost seg = s@.subrange(start as int, end as int);
    if start == end {
        return None;
    }
    if end - start > 1 && s[start] == '0' {
        return None;
    }
    let mut acc: u64 = 0;
    let mut i: usize = start;
    while i < end
        invariant
            start <= i <= end <= s@.len(),
            seg == s@.subrange(start as int, end as int),
            all_digits(seg.take(i - start)),
            acc as nat == value_of(seg.take(i - start)),
            acc <= limit,
        decreases end - i,
    {
        let c = s[i];
        if !('0' <= c && c <= '9') {
            assert(!is_digit(seg[i - start]));
            return None;
        }
        let d: u64 = (c as u32 - '0' as u32) as u64;
        assert(seg.take(i - start + 1).drop_last() =~= seg.take(i - start));
        if d > limit || acc > (limit - d) / 10 {
            proof {
                assert(value_of(seg.take(i - start + 1)) == acc * 10 + d);
                if d <= limit {
                    assert(acc * 10 + d > limit) by (nonlinear_arith)
                        requires
                            acc > (limit - d) / 10,
                            d <= limit,
                    ;
                }
                lemma_value_prefix(seg, i - start + 1);
            }
            return None;
        }
        assert(acc * 10 + d <= limit) by (nonlinear_arith)
            requires
                acc <= (limit - d) / 10,
                d <= limit,
        ;
        acc = acc * 10 + d;
        i = i + 1;
    }
    assert(seg.take(i - start) =~= seg);
    Some(acc)
}

} // verus!
