//! Exact decimal numbers as they travel over the wire.
//!
//! The engine's protocol is textual, so a value must keep exactly the digits
//! its text had: a binary floating-point detour would round them.  A [`Dec`]
//! holds the digits themselves, before and after the decimal point.

use vstd::prelude::*;

verus! {

/// An exact decimal: sign, integer digits and fractional digits (each digit
/// a value below ten, most significant first).
#[derive(Debug)]
pub struct Dec {
    pub neg: bool,
    pub int_part: Vec<u8>,
    pub frac_part: Vec<u8>,
}

/// The mathematical content of a [`Dec`].
pub ghost struct DecV {
    pub neg: bool,
    pub int_part: Seq<u8>,
    pub frac_part: Seq<u8>,
}

impl View for Dec {
    type V = DecV;

    open spec fn view(&self) -> DecV {
        DecV { neg: self.neg, int_part: self.int_part@, frac_part: self.frac_part@ }
    }
}

/// All digits of the value are zero.
pub open spec fn dec_is_zero(v: DecV) -> bool {
    (forall|i: int| 0 <= i < v.int_part.len() ==> v.int_part[i] == 0)
        && (forall|i: int| 0 <= i < v.frac_part.len() ==> v.frac_part[i] == 0)
}

/// A well-formed decimal: at least one integer digit, no superfluous leading
/// zero, every digit below ten, at most nineteen digits in all (so that
/// comparisons fit machine arithmetic), and zero is never negative.
pub open spec fn dec_wf(v: DecV) -> bool {
    &&& v.int_part.len() >= 1
    &&& v.int_part.len() + v.frac_part.len() <= 19
    &&& (forall|i: int| 0 <= i < v.int_part.len() ==> v.int_part[i] < 10)
    &&& (forall|i: int| 0 <= i < v.frac_part.len() ==> v.frac_part[i] < 10)
    &&& (v.int_part.len() > 1 ==> v.int_part[0] != 0)
    &&& (v.neg ==> !dec_is_zero(v))
}

/// The value read from a digit sequence, most significant digit first.
pub open spec fn dseq_val(s: Seq<u8>) -> nat
    decreases s.len(),
{
    if s.len() == 0 {
        0
    } else {
        dseq_val(s.drop_last()) * 10 + s.last() as nat
    }
}

/// The magnitude of a decimal, scaled by ten to the number of fractional
/// digits: the integer its digits spell with the point removed.
pub open spec fn dec_mag(v: DecV) -> nat {
    dseq_val(v.int_part + v.frac_part)
}

/// The signed scaled value of a decimal.
pub open spec fn dec_num(v: DecV) -> int {
    if v.neg {
        -(dec_mag(v) as int)
    } else {
        dec_mag(v) as int
    }
}

/// Strict numeric order on decimals: `a` and `b` stand for
/// `dec_num(a) / 10^|a.frac|` and `dec_num(b) / 10^|b.frac|`, and the
/// fractions are compared by cross-multiplication.
pub open spec fn dec_gt(a: DecV, b: DecV) -> bool {
    dec_num(a) * vstd::arithmetic::power::pow(10, b.frac_part.len())
        > dec_num(b) * vstd::arithmetic::power::pow(10, a.frac_part.len())
}

} // verus!

use crate::digits::{digit_char, digit_val, is_digit, digit_str};
use vstd::string::StringExecFns;

verus! {

/// The characters that write a digit sequence.
pub open spec fn dec_digit_chars(s: Seq<u8>) -> Seq<char> {
    s.map_values(|d: u8| digit_char(d as nat))
}

/// The text of a decimal: an optional minus sign, the integer digits, and —
/// only when there are fractional digits — a point followed by them.
pub open spec fn dec_chars(v: DecV) -> Seq<char> {
    (if v.neg {
        seq!['-']
    } else {
        Seq::<char>::empty()
    }) + dec_digit_chars(v.int_part) + (if v.frac_part.len() > 0 {
        seq!['.'] + dec_digit_chars(v.frac_part)
    } else {
        Seq::<char>::empty()
    })
}

/// Appends the characters of a digit run to `out`.
fn append_digits(out: &mut String, digits: &Vec<u8>)
    requires
        forall|i: int| 0 <= i < digits@.len() ==> digits@[i] < 10,
    ensures
        final(out)@ == old(out)@ + dec_digit_chars(digits@),
{
    let ghost base = out@;
    let mut i: usize = 0;
    while i < digits.len()
        invariant
            i <= digits@.len(),
            forall|k: int| 0 <= k < digits@.len() ==> digits@[k] < 10,
            out@ == base + dec_digit_chars(digits@.subrange(0, i as int)),
        decreases digits@.len() - i,
    {
        out.append(digit_str(digits[i]));
        proof {
            assert(dec_digit_chars(digits@.subrange(0, i + 1 as int)) =~= dec_digit_chars(
                digits@.subrange(0, i as int),
            ).push(digit_char(digits@[i as int] as nat)));
        }
        i = i + 1;
    }
    proof {
        assert(digits@.subrange(0, digits@.len() as int) =~= digits@);
    }
}

impl Dec {
    /// A well-formed decimal (see [`dec_wf`]).
    pub open spec fn wf(&self) -> bool {
        dec_wf(self@)
    }

    /// Appends the text of this decimal to `out`.
    pub fn append_to(&self, out: &mut String)
        requires
            self.wf(),
        ensures
            final(out)@ == old(out)@ + dec_chars(self@),
    {
        if self.neg {
            proof {
                reveal_strlit("-");
            }
            out.append("-");
        }
        append_digits(out, &self.int_part);
        if self.frac_part.len() > 0 {
            proof {
                reveal_strlit(".");
            }
            out.append(".");
            append_digits(out, &self.frac_part);
        }
        assert(out@ =~= old(out)@ + dec_chars(self@));
    }

    /// The text of this decimal, exactly as it goes on the wire.
    pub fn to_text(&self) -> (r: String)
        requires
            self.wf(),
        ensures
            r@ == dec_chars(self@),
    {
        let mut s = String::new();
        self.append_to(&mut s);
        assert(s@ =~= dec_chars(self@));
        s
    }
}

} // verus!

verus! {

/// Splits a character sequence at its first point, if any: the part before,
/// and — when a point occurs — the part after it.
pub open spec fn split_at_dot(s: Seq<char>) -> (Seq<char>, Option<Seq<char>>)
    decreases s.len(),
{
    if s.len() == 0 {
        (Seq::<char>::empty(), None)
    } else if s[0] == '.' {
        (Seq::<char>::empty(), Some(s.drop_first()))
    } else {
        let (a, b) = split_at_dot(s.drop_first());
        (seq![s[0]] + a, b)
    }
}

/// Every character is a decimal digit.
pub open spec fn all_digit_chars(s: Seq<char>) -> bool {
    forall|i: int| 0 <= i < s.len() ==> is_digit(#[trigger] s[i])
}

/// The digit values of a run of digit characters.
pub open spec fn chars_to_digits(s: Seq<char>) -> Seq<u8> {
    s.map_values(|c: char| digit_val(c) as u8)
}

/// What a decimal token means, if anything: an optional minus sign, then
/// integer digits without a superfluous leading zero, then optionally a
/// point followed by at least one digit — at most nineteen digits in all.
/// A minus sign on an all-zero token is dropped, so that zero has one value.
pub open spec fn parse_dec_spec(s: Seq<char>) -> Option<DecV> {
    let neg0 = s.len() > 0 && s[0] == '-';
    let body = if neg0 {
        s.drop_first()
    } else {
        s
    };
    let (ip, fp) = split_at_dot(body);
    let frac = match fp {
        Some(f) => f,
        None => Seq::<char>::empty(),
    };
    if ip.len() >= 1 && all_digit_chars(ip) && (ip.len() > 1 ==> digit_val(ip[0]) != 0) && (
    fp matches Some(f) ==> f.len() >= 1) && all_digit_chars(frac) && ip.len() + frac.len() <= 19 {
        let cand = DecV {
            neg: false,
            int_part: chars_to_digits(ip),
            frac_part: chars_to_digits(frac),
        };
        Some(DecV { neg: neg0 && !dec_is_zero(cand), ..cand })
    } else {
        None
    }
}

/// With no point in `s`, the split keeps all of `s` before the point.
proof fn lemma_split_no_dot(s: Seq<char>)
    requires
        forall|i: int| 0 <= i < s.len() ==> s[i] != '.',
    ensures
        split_at_dot(s) == (s, Option::<Seq<char>>::None),
    decreases s.len(),
{
    if s.len() == 0 {
        assert(s =~= Seq::<char>::empty());
    } else {
        lemma_split_no_dot(s.drop_first());
        assert(seq![s[0]] + s.drop_first() =~= s);
    }
}

/// With the first point of `s` at `k`, the split cuts exactly there.
proof fn lemma_split_at(s: Seq<char>, k: int)
    requires
        0 <= k < s.len(),
        s[k] == '.',
        forall|i: int| 0 <= i < k ==> s[i] != '.',
    ensures
        split_at_dot(s) == (s.subrange(0, k), Some(s.subrange(k + 1, s.len() as int))),
    decreases k,
{
    if k == 0 {
        assert(s.subrange(0, 0) =~= Seq::<char>::empty());
        assert(s.subrange(1, s.len() as int) =~= s.drop_first());
    } else {
        lemma_split_at(s.drop_first(), k - 1);
        assert(seq![s[0]] + s.drop_first().subrange(0, k - 1) =~= s.subrange(0, k));
        assert(s.drop_first().subrange(k - 1 + 1, s.drop_first().len() as int) =~= s.subrange(
            k + 1,
            s.len() as int,
        ));
    }
}

/// Reads the digit characters of `s` between `from` and `to`; fails when a
/// character there is no digit.  Also reports whether all digits were zero.
fn scan_digits(s: &str, from: usize, to: usize) -> (r: Option<(Vec<u8>, bool)>)
    requires
        from <= to <= s@.len(),
    ensures
        r matches Some((v, z)) ==> {
            &&& all_digit_chars(s@.subrange(from as int, to as int))
            &&& v@ == chars_to_digits(s@.subrange(from as int, to as int))
            &&& v@.len() == to - from
            &&& (forall|i: int| 0 <= i < v@.len() ==> v@[i] < 10)
            &&& (z <==> forall|i: int| 0 <= i < v@.len() ==> v@[i] == 0)
        },
        r is None ==> !all_digit_chars(s@.subrange(from as int, to as int)),
{
    let mut v: Vec<u8> = Vec::new();
    let mut zero = true;
    let mut i = from;
    while i < to
        invariant
            from <= i <= to <= s@.len(),
            all_digit_chars(s@.subrange(from as int, i as int)),
            v@ == chars_to_digits(s@.subrange(from as int, i as int)),
            v@.len() == i - from,
            forall|k: int| 0 <= k < v@.len() ==> v@[k] < 10,
            zero <==> (forall|k: int| 0 <= k < v@.len() ==> v@[k] == 0),
        decreases to - i,
    {
        let c = s.get_char(i);
        let u = c as u32;
        if u < 48 || u > 57 {
            assert(!is_digit(s@.subrange(from as int, to as int)[i - from]));
            return None;
        }
        let d = (u - 48) as u8;
        assert(is_digit(c) && d == digit_val(c));
        let ghost v_old = v@;
        let ghost zero_old = zero;
        v.push(d);
        if d != 0 {
            zero = false;
        }
        proof {
            assert(v@ == v_old.push(d));
            if zero {
                assert(forall|k: int| 0 <= k < v@.len() ==> v@[k] == 0) by {
                    assert(forall|k: int| 0 <= k < v_old.len() ==> #[trigger] v@[k] == v_old[k]);
                    assert(v@[v@.len() - 1] == d == 0);
                }
            } else {
                if zero_old && d != 0 {
                    assert(v@[v@.len() - 1] != 0);
                } else {
                    let k = choose|k: int| 0 <= k < v_old.len() && v_old[k] != 0;
                    assert(v@[k] != 0);
                }
            }
        }
        proof {
            assert(s@.subrange(from as int, i + 1 as int) =~= s@.subrange(
                from as int,
                i as int,
            ).push(s@[i as int]));
            assert(chars_to_digits(s@.subrange(from as int, i + 1 as int)) =~= chars_to_digits(
                s@.subrange(from as int, i as int),
            ).push(digit_val(s@[i as int]) as u8));
        }
        i = i + 1;
    }
    Some((v, zero))
}

/// The position of the first point in `s` at or after `from`, if any.
fn find_dot(s: &str, from: usize) -> (r: Option<usize>)
    requires
        from <= s@.len(),
    ensures
        r matches Some(k) ==> from <= k < s@.len() && s@[k as int] == '.' && (forall|i: int|
            from <= i < k ==> s@[i] != '.'),
        r is None ==> forall|i: int| from <= i < s@.len() ==> s@[i] != '.',
{
    let n = s.unicode_len();
    let mut i = from;
    while i < n
        invariant
            from <= i <= n == s@.len(),
            forall|k: int| from <= k < i ==> s@[k] != '.',
        decreases n - i,
    {
        if s.get_char(i) == '.' {
            return Some(i);
        }
        i = i + 1;
    }
    None
}

} // verus!

verus! {

impl Dec {
    /// Reads a decimal token.  Succeeds exactly on the tokens that
    /// [`parse_dec_spec`] accepts, and returns their value — always a
    /// well-formed decimal.
    pub fn parse(s: &str) -> (r: Option<Dec>)
        ensures
            r matches Some(d) ==> parse_dec_spec(s@) == Some(d@) && d.wf(),
            r is None ==> parse_dec_spec(s@) is None,
    {
        let n = s.unicode_len();
        let neg0 = n > 0 && s.get_char(0) == '-';
        let start: usize = if neg0 {
            1
        } else {
            0
        };
        let ghost body = if neg0 {
            s@.drop_first()
        } else {
            s@
        };
        assert(body =~= s@.subrange(start as int, n as int));
        let dot = find_dot(s, start);
        let (int_to, frac_from): (usize, usize) = match dot {
            Some(k) => (k, k + 1),
            None => (n, n),
        };
        proof {
            match dot {
                Some(k) => {
                    lemma_split_at(body, k - start);
                    assert(body.subrange(0, k - start) =~= s@.subrange(
                        start as int,
                        int_to as int,
                    ));
                    assert(body.subrange(k - start + 1, body.len() as int) =~= s@.subrange(
                        frac_from as int,
                        n as int,
                    ));
                },
                None => {
                    lemma_split_no_dot(body);
                    assert(body =~= s@.subrange(start as int, int_to as int));
                },
            }
        }
        // The integer digits are owed: an empty run rejects the token.
        if int_to == start {
            assert(split_at_dot(body).0.len() == 0);
            return None;
        }
        // With a point present, at least one fractional digit is owed.
        if dot.is_some() && frac_from == n {
            proof {
                assert(split_at_dot(body).1 matches Some(f) && f.len() == 0);
            }
            return None;
        }
        let scanned_int = scan_digits(s, start, int_to);
        let (int_digits, int_zero) = match scanned_int {
            Some(p) => p,
            None => {
                return None;
            },
        };
        let scanned_frac = scan_digits(s, frac_from, n);
        let (frac_digits, frac_zero) = match scanned_frac {
            Some(p) => p,
            None => {
                return None;
            },
        };
        proof {
            let ip = split_at_dot(body).0;
            assert(ip == s@.subrange(start as int, int_to as int));
            assert(chars_to_digits(ip) == int_digits@);
            assert(ip.len() > 0 ==> digit_val(ip[0]) == int_digits@[0] as nat) by {
                assert(chars_to_digits(ip)[0] == digit_val(ip[0]) as u8);
            }
            if frac_from < n {
                let f = s@.subrange(frac_from as int, n as int);
                assert(split_at_dot(body).1 == Some(f));
                assert(chars_to_digits(f) == frac_digits@);
            } else {
                assert(s@.subrange(frac_from as int, n as int) =~= Seq::<char>::empty());
                assert(frac_digits@ =~= Seq::<u8>::empty());
                match split_at_dot(body).1 {
                    Some(f) => {
                        assert(chars_to_digits(f) =~= frac_digits@);
                    },
                    None => {},
                }
            }
        }
        if int_digits.len() > 1 && int_digits[0] == 0 {
            return None;
        }
        if int_digits.len() + frac_digits.len() > 19 {
            return None;
        }
        let neg = neg0 && !(int_zero && frac_zero);
        let d = Dec { neg, int_part: int_digits, frac_part: frac_digits };
        proof {
            let ip = split_at_dot(body).0;
            let fp = split_at_dot(body).1;
            let frac = match fp {
                Some(f) => f,
                None => Seq::<char>::empty(),
            };
            assert(chars_to_digits(frac) == frac_digits@);
            let cand = DecV {
                neg: false,
                int_part: chars_to_digits(ip),
                frac_part: chars_to_digits(frac),
            };
            assert(dec_is_zero(cand) <==> (int_zero && frac_zero));
            assert(parse_dec_spec(s@) == Some(d@));
            assert(d@.int_part.len() >= 1);
            assert(d@.int_part.len() + d@.frac_part.len() <= 19);
            assert(forall|i: int| 0 <= i < d@.int_part.len() ==> d@.int_part[i] < 10);
            assert(forall|i: int| 0 <= i < d@.frac_part.len() ==> d@.frac_part[i] < 10);
            assert(d@.int_part.len() > 1 ==> d@.int_part[0] != 0);
            assert(d@.neg ==> !dec_is_zero(d@)) by {
                assert(dec_is_zero(d@) <==> dec_is_zero(cand));
            }
            assert(dec_wf(d@));
        }
        Some(d)
    }
}

} // verus!

verus! {

use vstd::arithmetic::power::{pow, lemma_pow_positive};
use crate::digits::lemma_digit_char_val;

/// Characters written from digits are digits again — and never a point, a
/// minus sign or a space — and read back as the digits they came from.
pub(crate) proof fn lemma_digit_chars_round(s: Seq<u8>)
    requires
        forall|i: int| 0 <= i < s.len() ==> s[i] < 10,
    ensures
        all_digit_chars(dec_digit_chars(s)),
        chars_to_digits(dec_digit_chars(s)) =~= s,
        forall|i: int|
            0 <= i < s.len() ==> #[trigger] dec_digit_chars(s)[i] != '.' && dec_digit_chars(
                s,
            )[i] != '-' && dec_digit_chars(s)[i] != ' ',
{
    assert forall|i: int| 0 <= i < s.len() implies is_digit(#[trigger] dec_digit_chars(s)[i])
        && digit_val(dec_digit_chars(s)[i]) == s[i] as nat && dec_digit_chars(s)[i] != '.'
        && dec_digit_chars(s)[i] != '-' && dec_digit_chars(s)[i] != ' ' by {
        lemma_digit_char_val(s[i] as nat);
    }
    assert(chars_to_digits(dec_digit_chars(s)) =~= s);
}

/// The text of a well-formed decimal always reads back as the decimal it was
/// written from: encoding loses nothing, down to the exact digits.
pub proof fn lemma_dec_round_trip(v: DecV)
    requires
        dec_wf(v),
    ensures
        parse_dec_spec(dec_chars(v)) == Some(v),
{
    let s = dec_chars(v);
    let ic = dec_digit_chars(v.int_part);
    let fc = dec_digit_chars(v.frac_part);
    lemma_digit_chars_round(v.int_part);
    lemma_digit_chars_round(v.frac_part);
    let neg0 = s.len() > 0 && s[0] == '-';
    assert(neg0 == v.neg) by {
        if !v.neg {
            assert(s[0] == ic[0]);
            assert(is_digit(s[0]));
        }
    }
    let body = if neg0 {
        s.drop_first()
    } else {
        s
    };
    if v.frac_part.len() == 0 {
        assert(body =~= ic);
        lemma_split_no_dot(body);
        let cand = DecV {
            neg: false,
            int_part: chars_to_digits(ic),
            frac_part: chars_to_digits(Seq::<char>::empty()),
        };
        assert(chars_to_digits(Seq::<char>::empty()) =~= Seq::<u8>::empty());
        assert(cand.int_part == v.int_part);
        assert(cand.frac_part =~= v.frac_part);
        assert(dec_is_zero(cand) <==> dec_is_zero(v));
        assert(v.int_part.len() > 1 ==> digit_val(ic[0]) != 0) by {
            if v.int_part.len() > 1 {
                lemma_digit_char_val(v.int_part[0] as nat);
            }
        }
        assert(parse_dec_spec(s) == Some(v));
    } else {
        assert(body =~= ic + seq!['.'] + fc);
        let k = ic.len() as int;
        assert(body[k] == '.');
        assert(forall|i: int| 0 <= i < k ==> #[trigger] body[i] == ic[i] && body[i] != '.');
        lemma_split_at(body, k);
        assert(body.subrange(0, k) =~= ic);
        assert(body.subrange(k + 1, body.len() as int) =~= fc);
        let cand = DecV { neg: false, int_part: chars_to_digits(ic), frac_part: chars_to_digits(fc) };
        assert(cand.int_part == v.int_part);
        assert(cand.frac_part == v.frac_part);
        assert(dec_is_zero(cand) <==> dec_is_zero(v));
        assert(v.int_part.len() > 1 ==> digit_val(ic[0]) != 0) by {
            if v.int_part.len() > 1 {
                lemma_digit_char_val(v.int_part[0] as nat);
            }
        }
        assert(parse_dec_spec(s) == Some(v));
    }
}

/// A digit sequence reads below ten to the power of its length.
proof fn lemma_dseq_val_bound(s: Seq<u8>)
    requires
        forall|i: int| 0 <= i < s.len() ==> s[i] < 10,
    ensures
        dseq_val(s) < pow(10, s.len() as nat),
    decreases s.len(),
{
    reveal(vstd::arithmetic::power::pow);
    if s.len() == 0 {
    } else {
        lemma_dseq_val_bound(s.drop_last());
        assert(dseq_val(s.drop_last()) <= pow(10, (s.len() - 1) as nat) - 1);
        assert(pow(10, s.len() as nat) == 10 * pow(10, (s.len() - 1) as nat));
    }
}

/// A digit sequence reads zero exactly when all its digits are zero.
proof fn lemma_dseq_val_zero(s: Seq<u8>)
    requires
        forall|i: int| 0 <= i < s.len() ==> s[i] < 10,
    ensures
        dseq_val(s) == 0 <==> (forall|i: int| 0 <= i < s.len() ==> s[i] == 0),
    decreases s.len(),
{
    if s.len() == 0 {
    } else {
        lemma_dseq_val_zero(s.drop_last());
        if dseq_val(s) == 0 {
            assert(s.last() == 0);
            assert(forall|i: int| 0 <= i < s.len() - 1 ==> #[trigger] s[i] == s.drop_last()[i]);
        } else {
            if forall|i: int| 0 <= i < s.len() ==> s[i] == 0 {
                assert(forall|i: int|
                    0 <= i < s.drop_last().len() ==> #[trigger] s.drop_last()[i] == s[i]);
                assert(dseq_val(s.drop_last()) == 0);
                assert(s.last() == 0);
            }
        }
    }
}

/// Ten to the power of `e`, in machine arithmetic.
fn pow10_u128(e: usize) -> (r: u128)
    requires
        e <= 19,
    ensures
        r == pow(10, e as nat),
{
    proof {
        reveal(vstd::arithmetic::power::pow);
    }
    let mut r: u128 = 1;
    let mut i: usize = 0;
    while i < e
        invariant
            i <= e <= 19,
            r == pow(10, i as nat),
        decreases e - i,
    {
        proof {
            reveal(vstd::arithmetic::power::pow);
            vstd::arithmetic::power::lemma_pow_increases(10, i as nat, 18);
            lemma_pow10_values();
            assert(pow(10, (i + 1) as nat) == 10 * pow(10, i as nat));
        }
        r = r * 10;
        i = i + 1;
    }
    r
}

impl Dec {
    /// The scaled magnitude of this decimal: its digits read as one integer.
    fn mag_u128(&self) -> (r: u128)
        requires
            self.wf(),
        ensures
            r == dec_mag(self@),
    {
        let ghost all = self@.int_part + self@.frac_part;
        proof {
            assert(forall|i: int| 0 <= i < all.len() ==> all[i] < 10);
        }
        let mut acc: u128 = 0;
        let mut i: usize = 0;
        let n_int = self.int_part.len();
        while i < n_int
            invariant
                i <= n_int == self@.int_part.len(),
                self.wf(),
                all == self@.int_part + self@.frac_part,
                acc == dseq_val(all.subrange(0, i as int)),
            decreases n_int - i,
        {
            proof {
                lemma_step_bound(all, i as int);
                assert(all.subrange(0, i + 1 as int).drop_last() =~= all.subrange(0, i as int));
                assert(all.subrange(0, i + 1 as int).last() == all[i as int]);
                assert(all[i as int] == self@.int_part[i as int]);
            }
            acc = acc * 10 + (self.int_part[i] as u128);
            i = i + 1;
        }
        let n_frac = self.frac_part.len();
        let mut j: usize = 0;
        while j < n_frac
            invariant
                j <= n_frac == self@.frac_part.len(),
                self.wf(),
                all == self@.int_part + self@.frac_part,
                acc == dseq_val(all.subrange(0, self@.int_part.len() + j)),
            decreases n_frac - j,
        {
            proof {
                let i = self@.int_part.len() + j;
                lemma_step_bound(all, i as int);
                assert(all.subrange(0, i + 1 as int).drop_last() =~= all.subrange(0, i as int));
                assert(all.subrange(0, i + 1 as int).last() == all[i as int]);
                assert(all[i as int] == self@.frac_part[j as int]);
            }
            acc = acc * 10 + (self.frac_part[j] as u128);
            j = j + 1;
        }
        proof {
            assert(all.subrange(0, all.len() as int) =~= all);
        }
        acc
    }
}

/// One step of reading digits: the prefix so far is small enough that one
/// more digit still fits the machine word.
proof fn lemma_step_bound(all: Seq<u8>, i: int)
    requires
        0 <= i < all.len() <= 19,
        forall|k: int| 0 <= k < all.len() ==> all[k] < 10,
    ensures
        dseq_val(all.subrange(0, i)) * 10 + 9 < u128::MAX,
{
    assert(forall|k: int| 0 <= k < all.subrange(0, i).len() ==> all.subrange(0, i)[k] < 10);
    lemma_dseq_val_bound(all.subrange(0, i));
    vstd::arithmetic::power::lemma_pow_increases(10, i as nat, 18);
    lemma_pow10_values();
    assert(dseq_val(all.subrange(0, i)) <= pow(10, 18));
}


/// The concrete powers of ten that the machine-arithmetic bounds need.
proof fn lemma_pow10_values()
    ensures
        pow(10, 18) == 0x0de0b6b3a7640000,
        pow(10, 19) == 0x8ac7230489e80000,
        pow(10, 38) == 0x4b3b4ca85a86c47a098a224000000000,
{
    reveal(vstd::arithmetic::power::pow);
    assert(pow(10, 0) == 0x1);
    assert(pow(10, 1) == 0xa);
    assert(pow(10, 2) == 0x64);
    assert(pow(10, 3) == 0x3e8);
    assert(pow(10, 4) == 0x2710);
    assert(pow(10, 5) == 0x186a0);
    assert(pow(10, 6) == 0xf4240);
    assert(pow(10, 7) == 0x989680);
    assert(pow(10, 8) == 0x5f5e100);
    assert(pow(10, 9) == 0x3b9aca00);
    assert(pow(10, 10) == 0x2540be400);
    assert(pow(10, 11) == 0x174876e800);
    assert(pow(10, 12) == 0xe8d4a51000);
    assert(pow(10, 13) == 0x9184e72a000);
    assert(pow(10, 14) == 0x5af3107a4000);
    assert(pow(10, 15) == 0x38d7ea4c68000);
    assert(pow(10, 16) == 0x2386f26fc10000);
    assert(pow(10, 17) == 0x16345785d8a0000);
    assert(pow(10, 18) == 0xde0b6b3a7640000);
    assert(pow(10, 19) == 0x8ac7230489e80000);
    assert(pow(10, 20) == 0x56bc75e2d63100000);
    assert(pow(10, 21) == 0x3635c9adc5dea00000);
    assert(pow(10, 22) == 0x21e19e0c9bab2400000);
    assert(pow(10, 23) == 0x152d02c7e14af6800000);
    assert(pow(10, 24) == 0xd3c21bcecceda1000000);
    assert(pow(10, 25) == 0x84595161401484a000000);
    assert(pow(10, 26) == 0x52b7d2dcc80cd2e4000000);
    assert(pow(10, 27) == 0x33b2e3c9fd0803ce8000000);
    assert(pow(10, 28) == 0x204fce5e3e25026110000000);
    assert(pow(10, 29) == 0x1431e0fae6d7217caa0000000);
    assert(pow(10, 30) == 0xc9f2c9cd04674edea40000000);
    assert(pow(10, 31) == 0x7e37be2022c0914b2680000000);
    assert(pow(10, 32) == 0x4ee2d6d415b85acef8100000000);
    assert(pow(10, 33) == 0x314dc6448d9338c15b0a00000000);
    assert(pow(10, 34) == 0x1ed09bead87c0378d8e6400000000);
    assert(pow(10, 35) == 0x13426172c74d822b878fe800000000);
    assert(pow(10, 36) == 0xc097ce7bc90715b34b9f1000000000);
    assert(pow(10, 37) == 0x785ee10d5da46d900f436a000000000);
    assert(pow(10, 38) == 0x4b3b4ca85a86c47a098a224000000000);
}

} // verus!

verus! {

impl Dec {
    /// Strictly greater-than, in numeric value.  Exactly the order
    /// [`dec_gt`] states: equal values — whatever their trailing zeros —
    /// compare as not greater.
    pub fn gt(&self, other: &Dec) -> (r: bool)
        requires
            self.wf(),
            other.wf(),
        ensures
            r == dec_gt(self@, other@),
    {
        let ghost pa = pow(10, self@.frac_part.len());
        let ghost pb = pow(10, other@.frac_part.len());
        proof {
            lemma_pow_positive(10, self@.frac_part.len());
            lemma_pow_positive(10, other@.frac_part.len());
        }
        if self.neg != other.neg {
            if self.neg {
                // self < 0 <= other
                proof {
                    lemma_mag_pos(self@);
                    vstd::arithmetic::mul::lemma_mul_strictly_positive(
                        dec_mag(self@) as int,
                        pb,
                    );
                    vstd::arithmetic::mul::lemma_mul_nonnegative(dec_mag(other@) as int, pa);
                    vstd::arithmetic::mul::lemma_mul_unary_negation(dec_mag(self@) as int, pb);
                }
                false
            } else {
                // other < 0 <= self
                proof {
                    lemma_mag_pos(other@);
                    vstd::arithmetic::mul::lemma_mul_strictly_positive(
                        dec_mag(other@) as int,
                        pa,
                    );
                    vstd::arithmetic::mul::lemma_mul_nonnegative(dec_mag(self@) as int, pb);
                    vstd::arithmetic::mul::lemma_mul_unary_negation(dec_mag(other@) as int, pa);
                }
                true
            }
        } else {
            let ma = self.mag_u128();
            let mb = other.mag_u128();
            let ea = self.frac_part.len();
            let eb = other.frac_part.len();
            let qa = pow10_u128(ea);
            let qb = pow10_u128(eb);
            proof {
                lemma_pow10_values();
                vstd::arithmetic::power::lemma_pow_increases(10, self@.frac_part.len(), 19);
                vstd::arithmetic::power::lemma_pow_increases(10, other@.frac_part.len(), 19);
                lemma_cross_bound(self@, pb);
                lemma_cross_bound(other@, pa);
            }
            let left = ma * qb;
            let right = mb * qa;
            if !self.neg {
                left > right
            } else {
                // both negative: the smaller magnitude is the greater value
                proof {
                    vstd::arithmetic::mul::lemma_mul_unary_negation(dec_mag(self@) as int, pb);
                    vstd::arithmetic::mul::lemma_mul_unary_negation(dec_mag(other@) as int, pa);
                }
                right > left
            }
        }
    }
}

/// A well-formed negative decimal has digits, so its magnitude is positive.
proof fn lemma_mag_pos(v: DecV)
    requires
        dec_wf(v),
        v.neg,
    ensures
        dec_mag(v) >= 1,
{
    let all = v.int_part + v.frac_part;
    assert(forall|i: int| 0 <= i < all.len() ==> all[i] < 10);
    lemma_dseq_val_zero(all);
    assert(!dec_is_zero(v));
    if dec_mag(v) == 0 {
        assert(forall|i: int| 0 <= i < v.int_part.len() ==> v.int_part[i] == 0) by {
            assert(forall|i: int|
                0 <= i < v.int_part.len() ==> #[trigger] v.int_part[i] == all[i]);
        }
        assert(forall|i: int| 0 <= i < v.frac_part.len() ==> v.frac_part[i] == 0) by {
            assert(forall|i: int|
                0 <= i < v.frac_part.len() ==> #[trigger] v.frac_part[i] == all[
                    v.int_part.len() + i
                ]);
        }
    }
}

/// A magnitude crossed with the other side's scale stays within the machine
/// word: both factors lie below ten to the nineteenth.
proof fn lemma_cross_bound(v: DecV, p: int)
    requires
        dec_wf(v),
        1 <= p <= pow(10, 19),
    ensures
        dec_mag(v) * p < pow(10, 38),
        dec_mag(v) * p <= u128::MAX,
{
    let all = v.int_part + v.frac_part;
    assert(forall|i: int| 0 <= i < all.len() ==> all[i] < 10);
    lemma_dseq_val_bound(all);
    vstd::arithmetic::power::lemma_pow_increases(10, all.len() as nat, 19);
    assert(dec_mag(v) < pow(10, 19));
    vstd::arithmetic::mul::lemma_mul_upper_bound(
        dec_mag(v) as int,
        pow(10, 19) - 1,
        p,
        pow(10, 19),
    );
    vstd::arithmetic::power::lemma_pow_adds(10, 19, 19);
    lemma_pow10_values();
    assert((pow(10, 19) - 1) * pow(10, 19) == pow(10, 19) * pow(10, 19) - pow(10, 19)) by (
    nonlinear_arith);
}

/// Two decimals of equal numeric value: neither exceeds the other.  In
/// particular a measurement exactly equal to a threshold never passes a
/// strict comparison against it, however the two spell their digits.
pub proof fn lemma_equal_not_gt(a: DecV, b: DecV)
    requires
        dec_num(a) * pow(10, b.frac_part.len()) == dec_num(b) * pow(10, a.frac_part.len()),
    ensures
        !dec_gt(a, b),
        !dec_gt(b, a),
{
}


impl PartialEq for Dec {
    fn eq(&self, other: &Self) -> (r: bool) {
        let r = self.neg == other.neg && self.int_part == other.int_part && self.frac_part
            == other.frac_part;
        proof {
            if r {
                assert(self.int_part@ =~= other.int_part@);
                assert(self.frac_part@ =~= other.frac_part@);
            } else {
                if self@ == other@ {
                    assert(self.int_part@ == other.int_part@);
                    assert(self.frac_part@ == other.frac_part@);
                }
            }
        }
        r
    }
}

impl vstd::std_specs::cmp::PartialEqSpecImpl for Dec {
    open spec fn obeys_eq_spec() -> bool {
        true
    }

    open spec fn eq_spec(&self, other: &Dec) -> bool {
        self@ == other@
    }
}


impl Dec {
    /// Reads a caller-supplied decimal field.  An unreadable text is an
    /// [`Error::InvalidParameters`](crate::error::Error::InvalidParameters):
    /// the caller's value is rejected before any engine call is made.
    pub fn from_text(s: &str) -> (r: Result<Dec, crate::error::Error>)
        ensures
            r matches Ok(d) ==> parse_dec_spec(s@) == Some(d@) && d.wf(),
            r is Err ==> parse_dec_spec(s@) is None && r == Result::<Dec, crate::error::Error>::Err(
                crate::error::Error::InvalidParameters,
            ),
    {
        match Dec::parse(s) {
            Some(d) => Ok(d),
            None => Err(crate::error::Error::InvalidParameters),
        }
    }
}

} // verus!
