//! Decoding the engine's textual response: one line of space-separated
//! decimal tokens, in the fixed order path loss, received power, field
//! strength.  A wrong token count or an unreadable token is a
//! [`MalformedResponse`](crate::error::Error::MalformedResponse) — never a
//! guess.

use crate::dec::{dec_wf, parse_dec_spec, Dec, DecV};
use crate::error::Error;
use vstd::prelude::*;
use vstd::string::StrSliceExecFns;

verus! {

/// The three scalar quantities of a path report, in response order.
#[derive(Debug)]
pub struct PathResponse {
    pub path_loss: Dec,
    pub received_power: Dec,
    pub field_strength: Dec,
}

/// The mathematical content of [`PathResponse`].
pub ghost struct PathResponseV {
    pub path_loss: DecV,
    pub received_power: DecV,
    pub field_strength: DecV,
}

impl View for PathResponse {
    type V = PathResponseV;

    open spec fn view(&self) -> PathResponseV {
        PathResponseV {
            path_loss: self.path_loss@,
            received_power: self.received_power@,
            field_strength: self.field_strength@,
        }
    }
}

impl PathResponse {
    /// All three quantities are well-formed decimals.
    pub open spec fn wf(&self) -> bool {
        dec_wf(self@.path_loss) && dec_wf(self@.received_power) && dec_wf(self@.field_strength)
    }
}

/// The response line with its terminator removed: a trailing `\r\n` or a
/// bare trailing `\n` is dropped, anything else is kept whole.
pub open spec fn strip_eol(s: Seq<char>) -> Seq<char> {
    if s.len() >= 2 && s[s.len() - 2] == '\r' && s[s.len() - 1] == '\n' {
        s.take(s.len() - 2)
    } else if s.len() >= 1 && s[s.len() - 1] == '\n' {
        s.take(s.len() - 1)
    } else {
        s
    }
}

/// The body split at single spaces, one piece per token; an empty body is
/// one empty token.
pub open spec fn split_spaces(s: Seq<char>) -> Seq<Seq<char>>
    decreases s.len(),
{
    if s.len() == 0 {
        seq![Seq::<char>::empty()]
    } else {
        let rest = split_spaces(s.drop_first());
        if s[0] == ' ' {
            seq![Seq::<char>::empty()] + rest
        } else {
            seq![seq![s[0]] + rest[0]] + rest.drop_first()
        }
    }
}

/// A split has at least one piece.
proof fn lemma_split_spaces_len(s: Seq<char>)
    ensures
        split_spaces(s).len() >= 1,
    decreases s.len(),
{
    if s.len() > 0 {
        lemma_split_spaces_len(s.drop_first());
    }
}

/// A body without spaces is one token: itself.
pub(crate) proof fn lemma_split_spaces_whole(s: Seq<char>)
    requires
        forall|i: int| 0 <= i < s.len() ==> s[i] != ' ',
    ensures
        split_spaces(s) == seq![s],
    decreases s.len(),
{
    if s.len() == 0 {
        assert(split_spaces(s) =~~= seq![s]);
    } else {
        lemma_split_spaces_whole(s.drop_first());
        assert(seq![s[0]] + s.drop_first() =~= s);
        assert(split_spaces(s) =~~= seq![s]);
    }
}

/// A space after a space-free prefix cuts exactly there: the prefix is the
/// first token, and the rest splits on its own.
pub(crate) proof fn lemma_split_spaces_cut(s: Seq<char>, k: int)
    requires
        0 <= k < s.len(),
        s[k] == ' ',
        forall|i: int| 0 <= i < k ==> s[i] != ' ',
    ensures
        split_spaces(s) == seq![s.subrange(0, k)] + split_spaces(
            s.subrange(k + 1, s.len() as int),
        ),
    decreases k,
{
    if k == 0 {
        assert(s.subrange(0, 0) =~= Seq::<char>::empty());
        assert(s.subrange(1, s.len() as int) =~= s.drop_first());
        assert(split_spaces(s) =~~= seq![s.subrange(0, 0)] + split_spaces(
            s.subrange(1, s.len() as int),
        ));
    } else {
        lemma_split_spaces_cut(s.drop_first(), k - 1);
        lemma_split_spaces_len(s.drop_first().subrange(k, s.drop_first().len() as int));
        assert(seq![s[0]] + s.drop_first().subrange(0, k - 1) =~= s.subrange(0, k));
        assert(s.drop_first().subrange(k, s.drop_first().len() as int) =~= s.subrange(
            k + 1,
            s.len() as int,
        ));
        assert(split_spaces(s) =~~= seq![s.subrange(0, k)] + split_spaces(
            s.subrange(k + 1, s.len() as int),
        ));
    }
}

/// Whether a response body decodes, and to what: exactly three tokens, each
/// a readable decimal.
pub open spec fn decode_response_spec(s: Seq<char>) -> Option<PathResponseV> {
    let toks = split_spaces(strip_eol(s));
    if toks.len() == 3 && parse_dec_spec(toks[0]) is Some && parse_dec_spec(toks[1]) is Some
        && parse_dec_spec(toks[2]) is Some {
        Some(
            PathResponseV {
                path_loss: parse_dec_spec(toks[0]).unwrap(),
                received_power: parse_dec_spec(toks[1]).unwrap(),
                field_strength: parse_dec_spec(toks[2]).unwrap(),
            },
        )
    } else {
        None
    }
}

/// The positions of the first spaces of `s`, at most three of them.
fn find_spaces(s: &str) -> (r: Vec<usize>)
    ensures
        r@.len() <= 3,
        forall|j: int| 0 <= j < r@.len() ==> r@[j] < s@.len() && s@[r@[j] as int] == ' ',
        forall|j: int, i: int|
            #![trigger r@[j], s@[i]]
            0 <= j < r@.len() && (if j == 0 {
                0
            } else {
                r@[j - 1] + 1
            }) <= i < r@[j] ==> s@[i] != ' ',
        r@.len() < 3 ==> forall|i: int|
            (if r@.len() == 0 {
                0
            } else {
                r@[r@.len() - 1] + 1
            }) <= i < s@.len() ==> s@[i] != ' ',
        forall|j: int| 0 < j < r@.len() ==> #[trigger] r@[j - 1] < r@[j],
{
    let n = s.unicode_len();
    let mut r: Vec<usize> = Vec::new();
    let mut i: usize = 0;
    while i < n
        invariant
            i <= n == s@.len(),
            r@.len() <= 3,
            forall|j: int| 0 <= j < r@.len() ==> r@[j] < i && s@[r@[j] as int] == ' ',
            forall|j: int, k: int|
                #![trigger r@[j], s@[k]]
                0 <= j < r@.len() && (if j == 0 {
                    0
                } else {
                    r@[j - 1] + 1
                }) <= k < r@[j] ==> s@[k] != ' ',
            forall|k: int|
                (if r@.len() == 0 {
                    0
                } else {
                    r@[r@.len() - 1] + 1
                }) <= k < i ==> s@[k] != ' ',
            forall|j: int| 0 < j < r@.len() ==> #[trigger] r@[j - 1] < r@[j],
        decreases n - i,
    {
        if s.get_char(i) == ' ' {
            if r.len() == 3 {
                return r;
            }
            r.push(i);
        }
        i = i + 1;
    }
    r
}

/// Reads the engine's path response.  Succeeds exactly when the line —
/// stripped of its terminator — is three space-separated decimal tokens, and
/// then returns their values in order; everything else is a
/// [`Error::MalformedResponse`].
#[verifier::rlimit(100)]
pub fn decode_path_response(line: &str) -> (r: Result<PathResponse, Error>)
    ensures
        r matches Ok(m) ==> decode_response_spec(line@) == Some(m@) && m.wf(),
        r is Err ==> decode_response_spec(line@) is None && r == Result::<
            PathResponse,
            Error,
        >::Err(Error::MalformedResponse),
{
    let n0 = line.unicode_len();
    // Strip one trailing "\r\n" or "\n".
    let n = if n0 >= 2 && line.get_char(n0 - 2) == '\r' && line.get_char(n0 - 1) == '\n' {
        n0 - 2
    } else if n0 >= 1 && line.get_char(n0 - 1) == '\n' {
        n0 - 1
    } else {
        n0
    };
    let body = line.substring_char(0, n);
    proof {
        assert(body@ =~= strip_eol(line@));
    }
    let cuts = find_spaces(body);
    if cuts.len() != 2 {
        proof {
            let b = body@;
            if cuts@.len() < 2 {
                if cuts@.len() == 0 {
                    lemma_split_spaces_whole(b);
                } else {
                    let k = cuts@[0] as int;
                    lemma_split_spaces_cut(b, k);
                    lemma_split_spaces_whole(b.subrange(k + 1, b.len() as int));
                }
            } else {
                let k0 = cuts@[0] as int;
                let k1 = cuts@[1] as int;
                let k2 = cuts@[2] as int;
                lemma_split_spaces_cut(b, k0);
                lemma_split_spaces_cut(b.subrange(k0 + 1, b.len() as int), k1 - k0 - 1);
                lemma_split_spaces_cut(
                    b.subrange(k0 + 1, b.len() as int).subrange(
                        k1 - k0,
                        b.len() - k0 - 1,
                    ),
                    k2 - k1 - 1,
                );
                assert(b.subrange(k0 + 1, b.len() as int).subrange(k1 - k0, b.len() - k0 - 1)
                    =~= b.subrange(k1 + 1, b.len() as int));
                lemma_split_spaces_len(
                    b.subrange(k1 + 1, b.len() as int).subrange(
                        k2 - k1,
                        b.len() - k1 - 1,
                    ),
                );
                assert(split_spaces(b).len() >= 4);
            }
        }
        return Err(Error::MalformedResponse);
    }
    let c0 = cuts[0];
    let c1 = cuts[1];
    let t0 = body.substring_char(0, c0);
    let t1 = body.substring_char(c0 + 1, c1);
    let t2 = body.substring_char(c1 + 1, n);
    proof {
        let b = body@;
        let k0 = c0 as int;
        let k1 = c1 as int;
        lemma_split_spaces_cut(b, k0);
        let rest = b.subrange(k0 + 1, b.len() as int);
        lemma_split_spaces_cut(rest, k1 - k0 - 1);
        let rest2 = rest.subrange(k1 - k0, rest.len() as int);
        lemma_split_spaces_whole(rest2);
        assert(rest.subrange(0, k1 - k0 - 1) =~= t1@);
        assert(rest2 =~= t2@);
        assert(split_spaces(b) =~~= seq![t0@, t1@, t2@]);
    }
    let d0 = match Dec::parse(t0) {
        Some(d) => d,
        None => {
            return Err(Error::MalformedResponse);
        },
    };
    let d1 = match Dec::parse(t1) {
        Some(d) => d,
        None => {
            return Err(Error::MalformedResponse);
        },
    };
    let d2 = match Dec::parse(t2) {
        Some(d) => d,
        None => {
            return Err(Error::MalformedResponse);
        },
    };
    Ok(PathResponse { path_loss: d0, received_power: d1, field_strength: d2 })
}


impl PartialEq for PathResponse {
    fn eq(&self, other: &Self) -> (r: bool) {
        self.path_loss == other.path_loss && self.received_power == other.received_power
            && self.field_strength == other.field_strength
    }
}

impl vstd::std_specs::cmp::PartialEqSpecImpl for PathResponse {
    open spec fn obeys_eq_spec() -> bool {
        true
    }

    open spec fn eq_spec(&self, other: &PathResponse) -> bool {
        self@ == other@
    }
}

} // verus!
