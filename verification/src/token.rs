//! Session token issuance and its textual form.
//!
//! A session token is a 128-bit random value.  On the wire it travels as
//! the decimal rendering of that value inside the session cookie, so this
//! module pairs the generator with a verified decimal codec: rendering a
//! token to bytes and parsing a presented cookie value back, each the
//! exact inverse of the other.

use vstd::prelude::*;

verus! {

/// The decimal rendering of `n` as ASCII digit bytes, most significant
/// digit first, with no leading zero (the value 0 renders as "0").
pub open spec fn dec_rep(n: nat) -> Seq<u8>
    decreases n,
{
    if n < 10 {
        seq![(n + 48) as u8]
    } else {
        dec_rep(n / 10).push((n % 10 + 48) as u8)
    }
}

/// The numeric value of a sequence of ASCII digit bytes.
pub open spec fn dec_val(s: Seq<u8>) -> int
    decreases s.len(),
{
    if s.len() == 0 {
        0
    } else {
        dec_val(s.drop_last()) * 10 + (s.last() - 48)
    }
}

/// Whether `s` is made of ASCII digits only.
pub open spec fn all_digits(s: Seq<u8>) -> bool {
    forall|i: int| 0 <= i < s.len() ==> 48 <= #[trigger] s[i] <= 57
}

/// A rendering is non-empty, all digits, and leads with a zero only when
/// it is the single digit "0".
proof fn lemma_dec_rep_shape(n: nat)
    ensures
        dec_rep(n).len() >= 1,
        all_digits(dec_rep(n)),
        n >= 10 ==> dec_rep(n)[0] != 48,
        n < 10 ==> dec_rep(n).len() == 1,
    decreases n,
{
    if n >= 10 {
        lemma_dec_rep_shape(n / 10);
        assert(dec_rep(n) == dec_rep(n / 10).push((n % 10 + 48) as u8));
        assert(dec_rep(n)[0] == dec_rep(n / 10)[0]);
        if n / 10 < 10 {
            assert(dec_rep(n / 10)[0] == ((n / 10 + 48) as u8));
            assert(n / 10 >= 1);
        }
    }
}

/// Reading a rendering back yields the rendered value.
proof fn lemma_dec_val_of_rep(n: nat)
    ensures
        dec_val(dec_rep(n)) == n,
    decreases n,
{
    if n < 10 {
        assert(dec_rep(n) == seq![(n + 48) as u8]);
        assert(dec_rep(n).drop_last() =~= Seq::<u8>::empty());
        assert(dec_val(Seq::<u8>::empty()) == 0);
        assert(dec_val(dec_rep(n)) == 0 * 10 + ((n + 48) as u8 - 48));
    } else {
        lemma_dec_val_of_rep(n / 10);
        assert(dec_rep(n).drop_last() =~= dec_rep(n / 10));
        assert(dec_val(dec_rep(n)) == n / 10 * 10 + n % 10);
    }
}

/// A digit string with no leading zero has a value of at least 1 once it
/// is longer than a single "0"; used to rule out leading zeros below.
proof fn lemma_dec_val_lower_bound(s: Seq<u8>)
    requires
        s.len() >= 1,
        all_digits(s),
        s[0] != 48,
    ensures
        dec_val(s) >= 1,
        s.len() >= 2 ==> dec_val(s) >= 10,
    decreases s.len(),
{
    if s.len() == 1 {
        assert(dec_val(s) == dec_val(s.drop_last()) * 10 + (s.last() - 48));
        assert(s.last() == s[0]);
    } else {
        lemma_dec_val_lower_bound(s.drop_last());
        assert(dec_val(s) == dec_val(s.drop_last()) * 10 + (s.last() - 48));
    }
}

/// The value of a digit string is never negative.
proof fn lemma_dec_val_nonneg(s: Seq<u8>)
    requires
        all_digits(s),
    ensures
        dec_val(s) >= 0,
    decreases s.len(),
{
    if s.len() > 0 {
        lemma_dec_val_nonneg(s.drop_last());
    }
}

/// A canonical digit string (no leading zero) is the rendering of its own
/// value: renderings are unique.
proof fn lemma_canonical_is_rep(s: Seq<u8>)
    requires
        s.len() >= 1,
        all_digits(s),
        s.len() >= 2 ==> s[0] != 48,
    ensures
        s == dec_rep(dec_val(s) as nat),
    decreases s.len(),
{
    lemma_dec_val_nonneg(s);
    let v = dec_val(s);
    let d = s.last() - 48;
    assert(48 <= s.last() <= 57);
    assert(v == dec_val(s.drop_last()) * 10 + d);
    if s.len() == 1 {
        assert(s.drop_last() =~= Seq::<u8>::empty());
        assert(v == d && 0 <= d < 10);
        assert(dec_rep(v as nat) == seq![((v as nat) + 48) as u8]);
        assert(s =~= seq![s[0]]);
        assert(s[0] == ((v as nat) + 48) as u8);
    } else {
        lemma_dec_val_lower_bound(s.drop_last());
        let p = dec_val(s.drop_last());
        assert(v >= 10) by (nonlinear_arith)
            requires
                v == p * 10 + d,
                p >= 1,
                d >= 0,
        {
        }
        assert(v / 10 == p && v % 10 == d) by (nonlinear_arith)
            requires
                v == p * 10 + d,
                0 <= d < 10,
        {
        }
        lemma_canonical_is_rep(s.drop_last());
        assert((v as nat) / 10 == p && (v as nat) % 10 == d);
        assert(dec_rep(v as nat) == dec_rep(p as nat).push((d + 48) as u8));
        assert(s =~= s.drop_last().push(s.last()));
    }
}

/// Appending digits never shrinks the value; with at least one more digit
/// it multiplies by at least ten.  Used to show that an overflowing prefix
/// dooms the whole string.
proof fn lemma_dec_val_extend(s: Seq<u8>, t: Seq<u8>)
    requires
        all_digits(s + t),
        t.len() >= 1,
    ensures
        dec_val(s + t) >= dec_val(s) * 10,
    decreases t.len(),
{
    assert forall|i: int| 0 <= i < s.len() implies 48 <= #[trigger] s[i] <= 57 by {
        assert(s[i] == (s + t)[i]);
    }
    lemma_dec_val_nonneg(s);
    if t.len() == 1 {
        assert((s + t).drop_last() =~= s);
        assert(dec_val(s + t) == dec_val(s) * 10 + (t[0] - 48));
        assert(48 <= t[0] <= 57);
    } else {
        assert forall|i: int| 0 <= i < (s + t.drop_last()).len()
            implies 48 <= #[trigger] (s + t.drop_last())[i] <= 57 by {
            assert((s + t.drop_last())[i] == (s + t)[i]);
        }
        lemma_dec_val_extend(s, t.drop_last());
        assert((s + t).drop_last() =~= s + t.drop_last());
        assert(dec_val(s + t) == dec_val(s + t.drop_last()) * 10 + (t.last() - 48));
        assert(dec_val(s + t.drop_last()) * 10 >= dec_val(s) * 10) by (nonlinear_arith)
            requires
                dec_val(s + t.drop_last()) >= dec_val(s) * 10,
                dec_val(s) >= 0,
        {
        }
    }
}

/// Renders `n`'s decimal digits onto the end of `out`.
fn push_dec(n: u128, out: &mut Vec<u8>)
    ensures
        final(out)@ == old(out)@ + dec_rep(n as nat),
    decreases n,
{
    if n >= 10 {
        push_dec(n / 10, out);
        let d: u8 = (n % 10) as u8;
        out.push(d + 48);
        assert(final(out)@ =~= old(out)@ + dec_rep(n as nat));
    } else {
        let d: u8 = n as u8;
        out.push(d + 48);
        assert(final(out)@ =~= old(out)@ + dec_rep(n as nat));
    }
}

/// The cookie-safe textual form of a token: its decimal digits.
pub fn token_text(n: u128) -> (r: Vec<u8>)
    ensures
        r@ == dec_rep(n as nat),
{
    let mut out: Vec<u8> = Vec::new();
    push_dec(n, &mut out);
    assert(out@ =~= dec_rep(n as nat));
    out
}

/// Parses a presented cookie value back into a token.  Returns the token
/// exactly when the bytes are the canonical rendering of one; anything
/// else (empty, a stray byte, a leading zero, a value past 128 bits) is
/// rejected.
pub fn parse_token_text(s: &[u8]) -> (r: Option<u128>)
    ensures
        match r {
            Some(n) => s@ == dec_rep(n as nat),
            None => forall|n: u128| s@ != dec_rep(n as nat),
        },
{
    if s.len() == 0 {
        proof {
            assert forall|n: u128| s@ != dec_rep(n as nat) by {
                lemma_dec_rep_shape(n as nat);
            }
        }
        return None;
    }
    if s.len() >= 2 && s[0] == 48 {
        proof {
            assert forall|n: u128| s@ != dec_rep(n as nat) by {
                lemma_dec_rep_shape(n as nat);
            }
        }
        return None;
    }
    let mut acc: u128 = 0;
    let mut i: usize = 0;
    while i < s.len()
        invariant
            0 <= i <= s@.len(),
            all_digits(s@.take(i as int)),
            acc == dec_val(s@.take(i as int)),
            s@.len() >= 1,
            s@.len() >= 2 ==> s@[0] != 48,
        decreases s@.len() - i,
    {
        let b = s[i];
        if b < 48 || b > 57 {
            proof {
                assert forall|n: u128| s@ != dec_rep(n as nat) by {
                    lemma_dec_rep_shape(n as nat);
                    if s@ == dec_rep(n as nat) {
                        assert(48 <= s@[i as int] <= 57);
                    }
                }
            }
            return None;
        }
        let d: u128 = (b - 48) as u128;
        if acc > (u128::MAX - d) / 10 {
            proof {
                let pre = s@.take(i as int + 1);
                assert(pre.drop_last() =~= s@.take(i as int));
                assert(dec_val(pre) == acc * 10 + d);
                assert(acc * 10 + d > u128::MAX as nat) by (nonlinear_arith)
                    requires
                        acc > (u128::MAX - d) / 10,
                        0 <= d < 10,
                        acc * 10 + d == dec_val(s@.take(i as int + 1)),
                {
                }
                assert forall|n: u128| s@ != dec_rep(n as nat) by {
                    if s@ == dec_rep(n as nat) {
                        lemma_dec_val_of_rep(n as nat);
                        lemma_dec_rep_shape(n as nat);
                        if i as int + 1 < s@.len() {
                            assert(s@ =~= pre + s@.skip(i as int + 1));
                            lemma_dec_val_extend(pre, s@.skip(i as int + 1));
                            assert(dec_val(s@) >= dec_val(pre) * 10) ;
                            assert(dec_val(pre) * 10 >= dec_val(pre)) by (nonlinear_arith)
                                requires
                                    dec_val(pre) >= 0,
                            {
                            }
                        } else {
                            assert(s@ =~= pre);
                        }
                        assert(dec_val(s@) > u128::MAX as nat);
                    }
                }
            }
            return None;
        }
        proof {
            assert(acc * 10 + d <= u128::MAX as nat) by (nonlinear_arith)
                requires
                    acc <= (u128::MAX - d) / 10,
                    0 <= d < 10,
            {
            }
            let pre = s@.take(i as int + 1);
            assert(pre.drop_last() =~= s@.take(i as int));
            assert(pre.last() == s@[i as int]);
        }
        acc = acc * 10 + d;
        i = i + 1;
    }
    proof {
        assert(s@.take(i as int) =~= s@);
        lemma_canonical_is_rep(s@);
    }
    Some(acc)
}

/// Round trip: every token's rendering parses back to that token, and a
/// rendering names its token uniquely.
pub proof fn lemma_token_text_round_trip(n: u128, m: u128)
    ensures
        dec_val(dec_rep(n as nat)) == n,
        dec_rep(n as nat) == dec_rep(m as nat) ==> n == m,
{
    lemma_dec_val_of_rep(n as nat);
    lemma_dec_val_of_rep(m as nat);
}

/// Relies on `rand::random`, drawing a value of a type that `rand`'s
/// `Standard` distribution covers from the thread-local generator.
/// Nothing can be promised of a random result.
pub assume_specification<T>[ rand::random::<T> ]() -> (r: T)
    where
        rand::distributions::Standard: rand::distributions::Distribution<T>,
;

/// Issues a fresh session token: 128 bits drawn from the process-wide
/// random source.  Unguessability is statistical and rests on the
/// generator; no functional promise is possible about the value.
pub fn new_token() -> u128 {
    rand::random::<u128>()
}

} // verus!
