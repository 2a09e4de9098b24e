//! The parameter sets of the engine's three operations, and their encoding
//! into the wire grammar: one line of space-separated flag and value tokens,
//! in a fixed order, ended by a carriage return and a line feed.
//!
//! A boolean field contributes its bare flag token only when true; an
//! optional numeric field contributes its flag and value only when present —
//! absence, not a sentinel, is how "use the engine's default" is encoded.

use crate::dec::{dec_chars, dec_wf, Dec, DecV};
use crate::digits::nat_digits;
use vstd::prelude::*;
use vstd::string::{StrSliceExecFns, StringExecFns};

verus! {

/// Tokens joined by single spaces.
pub open spec fn join_tokens(toks: Seq<Seq<char>>) -> Seq<char>
    decreases toks.len(),
{
    if toks.len() == 0 {
        Seq::<char>::empty()
    } else if toks.len() == 1 {
        toks[0]
    } else {
        join_tokens(toks.drop_last()) + seq![' '] + toks.last()
    }
}

/// A full request line: the tokens, spaces between them, then `\r\n`.
pub open spec fn line_of(toks: Seq<Seq<char>>) -> Seq<char> {
    join_tokens(toks) + "\r\n"@
}

/// Joins tokens with single spaces and ends the line with `\r\n`.
fn join_line(toks: &Vec<String>) -> (r: String)
    ensures
        r@ == line_of(toks.deep_view()),
{
    let mut out = String::new();
    let mut i: usize = 0;
    while i < toks.len()
        invariant
            i <= toks@.len(),
            toks@.len() == toks.deep_view().len(),
            out@ == join_tokens(toks.deep_view().subrange(0, i as int)),
        decreases toks@.len() - i,
    {
        if i > 0 {
            proof {
                reveal_strlit(" ");
            }
            out.append(" ");
        }
        out.append(toks[i].as_str());
        proof {
            let dv = toks.deep_view();
            assert(dv.subrange(0, i + 1 as int).drop_last() =~= dv.subrange(0, i as int));
            assert(dv.subrange(0, i + 1 as int).last() == dv[i as int]);
            assert(dv[i as int] == toks@[i as int]@);
            if i == 0 {
                assert(join_tokens(dv.subrange(0, 1)) == dv.subrange(0, 1)[0]);
                assert(out@ =~= dv[0]);
            } else {
                assert(out@ =~= join_tokens(dv.subrange(0, i as int)) + seq![' '] + dv[i as int]);
            }
        }
        i = i + 1;
    }
    out.append("\r\n");
    proof {
        assert(toks.deep_view().subrange(0, toks.deep_view().len() as int) =~= toks.deep_view());
    }
    out
}

/// Pushes a flag token and the text of a decimal value.
fn push_dec(toks: &mut Vec<String>, tag: &str, v: &Dec)
    requires
        v.wf(),
    ensures
        final(toks).deep_view() =~= old(toks).deep_view() + seq![tag@, dec_chars(v@)],
{
    toks.push(tag.to_owned());
    toks.push(v.to_text());
}

/// Pushes a flag token and the decimal writing of a number.
fn push_nat(toks: &mut Vec<String>, tag: &str, v: u64)
    ensures
        final(toks).deep_view() =~= old(toks).deep_view() + seq![tag@, nat_digits(v as nat)],
{
    toks.push(tag.to_owned());
    let mut t = String::new();
    crate::digits::append_nat(&mut t, v);
    toks.push(t);
}

/// Pushes a bare flag token.
fn push_flag(toks: &mut Vec<String>, tag: &str)
    ensures
        final(toks).deep_view() =~= old(toks).deep_view() + seq![tag@],
{
    toks.push(tag.to_owned());
}

} // verus!

verus! {

/// Inputs of a point-to-point path report.
pub struct PathParams {
    pub lat: Dec,
    pub lon: Dec,
    pub txh: Dec,
    pub f: Dec,
    pub erp: Dec,
    pub rxh: Dec,
    pub rt: Dec,
    pub dbm: bool,
    pub m: bool,
    pub pm: Dec,
    pub rla: Dec,
    pub rlo: Dec,
    pub pe: Option<u8>,
    pub gc: Option<u16>,
}

/// The mathematical content of [`PathParams`].
pub ghost struct PathParamsV {
    pub lat: DecV,
    pub lon: DecV,
    pub txh: DecV,
    pub f: DecV,
    pub erp: DecV,
    pub rxh: DecV,
    pub rt: DecV,
    pub dbm: bool,
    pub m: bool,
    pub pm: DecV,
    pub rla: DecV,
    pub rlo: DecV,
    pub pe: Option<u8>,
    pub gc: Option<u16>,
}

impl View for PathParams {
    type V = PathParamsV;

    open spec fn view(&self) -> PathParamsV {
        PathParamsV {
            lat: self.lat@,
            lon: self.lon@,
            txh: self.txh@,
            f: self.f@,
            erp: self.erp@,
            rxh: self.rxh@,
            rt: self.rt@,
            dbm: self.dbm,
            m: self.m,
            pm: self.pm@,
            rla: self.rla@,
            rlo: self.rlo@,
            pe: self.pe,
            gc: self.gc,
        }
    }
}

/// All decimal fields are well-formed.
pub open spec fn path_wf(p: PathParamsV) -> bool {
    dec_wf(p.lat) && dec_wf(p.lon) && dec_wf(p.txh) && dec_wf(p.f) && dec_wf(p.erp) && dec_wf(
        p.rxh,
    ) && dec_wf(p.rt) && dec_wf(p.pm) && dec_wf(p.rla) && dec_wf(p.rlo)
}

/// The token sequence of a path request, in its fixed field order.
pub open spec fn path_tokens(p: PathParamsV) -> Seq<Seq<char>> {
    seq![
        "-lat"@,
        dec_chars(p.lat),
        "-lon"@,
        dec_chars(p.lon),
        "-txh"@,
        dec_chars(p.txh),
        "-f"@,
        dec_chars(p.f),
        "-erp"@,
        dec_chars(p.erp),
        "-rxh"@,
        dec_chars(p.rxh),
        "-rt"@,
        dec_chars(p.rt),
    ] + (if p.dbm {
        seq!["-dbm"@]
    } else {
        Seq::<Seq<char>>::empty()
    }) + (if p.m {
        seq!["-m"@]
    } else {
        Seq::<Seq<char>>::empty()
    }) + seq!["-pm"@, dec_chars(p.pm), "-rla"@, dec_chars(p.rla), "-rlo"@, dec_chars(p.rlo)] + (
    match p.pe {
        Some(n) => seq!["-pe"@, nat_digits(n as nat)],
        None => Seq::<Seq<char>>::empty(),
    }) + (match p.gc {
        Some(n) => seq!["-gc"@, nat_digits(n as nat)],
        None => Seq::<Seq<char>>::empty(),
    })
}

impl PathParams {
    /// All decimal fields are well-formed.
    pub open spec fn wf(&self) -> bool {
        path_wf(self@)
    }

    /// The request line for this parameter set, exactly as it is written to
    /// the engine: its tokens in order, spaces between, `\r\n` at the end.
    #[verifier::rlimit(100)]
    pub fn to_stdout_string(&self) -> (r: String)
        requires
            self.wf(),
        ensures
            r@ == line_of(path_tokens(self@)),
    {
        let mut toks: Vec<String> = Vec::new();
        push_dec(&mut toks, "-lat", &self.lat);
        push_dec(&mut toks, "-lon", &self.lon);
        push_dec(&mut toks, "-txh", &self.txh);
        push_dec(&mut toks, "-f", &self.f);
        push_dec(&mut toks, "-erp", &self.erp);
        push_dec(&mut toks, "-rxh", &self.rxh);
        push_dec(&mut toks, "-rt", &self.rt);
        if self.dbm {
            push_flag(&mut toks, "-dbm");
        }
        if self.m {
            push_flag(&mut toks, "-m");
        }
        push_dec(&mut toks, "-pm", &self.pm);
        push_dec(&mut toks, "-rla", &self.rla);
        push_dec(&mut toks, "-rlo", &self.rlo);
        if let Some(n) = self.pe {
            push_nat(&mut toks, "-pe", n as u64);
        }
        if let Some(n) = self.gc {
            push_nat(&mut toks, "-gc", n as u64);
        }
        assert(toks.deep_view() =~= path_tokens(self@));
        join_line(&toks)
    }
}

} // verus!

verus! {

/// Inputs of an image-producing plot request.
pub struct PlotParams {
    pub lat: Dec,
    pub lon: Dec,
    pub txh: Dec,
    pub f: Dec,
    pub erp: Dec,
    pub rxh: Dec,
    pub rt: Dec,
    pub dbm: bool,
    pub t: Option<bool>,
    pub m: bool,
    pub r: usize,
    pub pm: Dec,
    pub pe: Option<u8>,
    pub gc: Option<u16>,
}

/// The mathematical content of [`PlotParams`].
pub ghost struct PlotParamsV {
    pub lat: DecV,
    pub lon: DecV,
    pub txh: DecV,
    pub f: DecV,
    pub erp: DecV,
    pub rxh: DecV,
    pub rt: DecV,
    pub dbm: bool,
    pub t: Option<bool>,
    pub m: bool,
    pub r: usize,
    pub pm: DecV,
    pub pe: Option<u8>,
    pub gc: Option<u16>,
}

impl View for PlotParams {
    type V = PlotParamsV;

    open spec fn view(&self) -> PlotParamsV {
        PlotParamsV {
            lat: self.lat@,
            lon: self.lon@,
            txh: self.txh@,
            f: self.f@,
            erp: self.erp@,
            rxh: self.rxh@,
            rt: self.rt@,
            dbm: self.dbm,
            t: self.t,
            m: self.m,
            r: self.r,
            pm: self.pm@,
            pe: self.pe,
            gc: self.gc,
        }
    }
}

/// All decimal fields are well-formed.
pub open spec fn plot_wf(p: PlotParamsV) -> bool {
    dec_wf(p.lat) && dec_wf(p.lon) && dec_wf(p.txh) && dec_wf(p.f) && dec_wf(p.erp) && dec_wf(
        p.rxh,
    ) && dec_wf(p.rt) && dec_wf(p.pm)
}

/// The token sequence of a plot request, in its fixed field order.  The
/// terrain-greyscale flag `-t`, like every boolean field, contributes its
/// bare token exactly when it is true, and nothing otherwise.
pub open spec fn plot_tokens(p: PlotParamsV) -> Seq<Seq<char>> {
    seq![
        "-lat"@,
        dec_chars(p.lat),
        "-lon"@,
        dec_chars(p.lon),
        "-txh"@,
        dec_chars(p.txh),
        "-f"@,
        dec_chars(p.f),
        "-erp"@,
        dec_chars(p.erp),
        "-rxh"@,
        dec_chars(p.rxh),
        "-rt"@,
        dec_chars(p.rt),
    ] + (if p.dbm {
        seq!["-dbm"@]
    } else {
        Seq::<Seq<char>>::empty()
    }) + (if p.m {
        seq!["-m"@]
    } else {
        Seq::<Seq<char>>::empty()
    }) + seq!["-pm"@, dec_chars(p.pm), "-R"@, nat_digits(p.r as nat)] + (if p.t == Some(true) {
        seq!["-t"@]
    } else {
        Seq::<Seq<char>>::empty()
    }) + (match p.pe {
        Some(n) => seq!["-pe"@, nat_digits(n as nat)],
        None => Seq::<Seq<char>>::empty(),
    }) + (match p.gc {
        Some(n) => seq!["-gc"@, nat_digits(n as nat)],
        None => Seq::<Seq<char>>::empty(),
    })
}

impl PlotParams {
    /// All decimal fields are well-formed.
    pub open spec fn wf(&self) -> bool {
        plot_wf(self@)
    }

    /// The request line for this parameter set.
    #[verifier::rlimit(100)]
    pub fn to_stdout_string(&self) -> (r: String)
        requires
            self.wf(),
        ensures
            r@ == line_of(plot_tokens(self@)),
    {
        let mut toks: Vec<String> = Vec::new();
        push_dec(&mut toks, "-lat", &self.lat);
        push_dec(&mut toks, "-lon", &self.lon);
        push_dec(&mut toks, "-txh", &self.txh);
        push_dec(&mut toks, "-f", &self.f);
        push_dec(&mut toks, "-erp", &self.erp);
        push_dec(&mut toks, "-rxh", &self.rxh);
        push_dec(&mut toks, "-rt", &self.rt);
        if self.dbm {
            push_flag(&mut toks, "-dbm");
        }
        if self.m {
            push_flag(&mut toks, "-m");
        }
        push_dec(&mut toks, "-pm", &self.pm);
        push_nat(&mut toks, "-R", self.r as u64);
        if let Some(true) = self.t {
            push_flag(&mut toks, "-t");
        }
        if let Some(n) = self.pe {
            push_nat(&mut toks, "-pe", n as u64);
        }
        if let Some(n) = self.gc {
            push_nat(&mut toks, "-gc", n as u64);
        }
        assert(toks.deep_view() =~= plot_tokens(self@));
        join_line(&toks)
    }
}

/// Inputs of a coverage search over the hexagonal grid.
pub struct H3PlotParams {
    pub lat: Dec,
    pub lon: Dec,
    pub txh: Dec,
    pub f: Dec,
    pub erp: Dec,
    pub rxh: Dec,
    pub rt: Dec,
    pub dbm: bool,
    pub pm: Dec,
    pub res: u8,
    pub pe: Option<u8>,
    pub gc: Option<u16>,
}

/// The mathematical content of [`H3PlotParams`].
pub ghost struct H3PlotParamsV {
    pub lat: DecV,
    pub lon: DecV,
    pub txh: DecV,
    pub f: DecV,
    pub erp: DecV,
    pub rxh: DecV,
    pub rt: DecV,
    pub dbm: bool,
    pub pm: DecV,
    pub res: u8,
    pub pe: Option<u8>,
    pub gc: Option<u16>,
}

impl View for H3PlotParams {
    type V = H3PlotParamsV;

    open spec fn view(&self) -> H3PlotParamsV {
        H3PlotParamsV {
            lat: self.lat@,
            lon: self.lon@,
            txh: self.txh@,
            f: self.f@,
            erp: self.erp@,
            rxh: self.rxh@,
            rt: self.rt@,
            dbm: self.dbm,
            pm: self.pm@,
            res: self.res,
            pe: self.pe,
            gc: self.gc,
        }
    }
}

/// All decimal fields are well-formed.
pub open spec fn h3_wf(p: H3PlotParamsV) -> bool {
    dec_wf(p.lat) && dec_wf(p.lon) && dec_wf(p.txh) && dec_wf(p.f) && dec_wf(p.erp) && dec_wf(
        p.rxh,
    ) && dec_wf(p.rt) && dec_wf(p.pm)
}

/// The token sequence of one coverage-search sample: the transmitter fields
/// of the parameter set, with the receiver put at the given cell centroid.
pub open spec fn h3_tokens(p: H3PlotParamsV, rla: Seq<char>, rlo: Seq<char>) -> Seq<Seq<char>> {
    seq![
        "-lat"@,
        dec_chars(p.lat),
        "-lon"@,
        dec_chars(p.lon),
        "-rla"@,
        rla,
        "-rlo"@,
        rlo,
        "-txh"@,
        dec_chars(p.txh),
        "-f"@,
        dec_chars(p.f),
        "-erp"@,
        dec_chars(p.erp),
        "-rxh"@,
        dec_chars(p.rxh),
        "-rt"@,
        dec_chars(p.rt),
    ] + (if p.dbm {
        seq!["-dbm"@]
    } else {
        Seq::<Seq<char>>::empty()
    }) + seq!["-pm"@, dec_chars(p.pm)] + (match p.pe {
        Some(n) => seq!["-pe"@, nat_digits(n as nat)],
        None => Seq::<Seq<char>>::empty(),
    }) + (match p.gc {
        Some(n) => seq!["-gc"@, nat_digits(n as nat)],
        None => Seq::<Seq<char>>::empty(),
    })
}

impl H3PlotParams {
    /// All decimal fields are well-formed.
    pub open spec fn wf(&self) -> bool {
        h3_wf(self@)
    }

    /// The request line for one sample of this search, with the receiver at
    /// the given centroid coordinates.
    #[verifier::rlimit(100)]
    pub fn to_stdout_string(&self, rla: &str, rlo: &str) -> (r: String)
        requires
            self.wf(),
        ensures
            r@ == line_of(h3_tokens(self@, rla@, rlo@)),
    {
        let mut toks: Vec<String> = Vec::new();
        push_dec(&mut toks, "-lat", &self.lat);
        push_dec(&mut toks, "-lon", &self.lon);
        push_flag(&mut toks, "-rla");
        push_flag(&mut toks, rla);
        push_flag(&mut toks, "-rlo");
        push_flag(&mut toks, rlo);
        push_dec(&mut toks, "-txh", &self.txh);
        push_dec(&mut toks, "-f", &self.f);
        push_dec(&mut toks, "-erp", &self.erp);
        push_dec(&mut toks, "-rxh", &self.rxh);
        push_dec(&mut toks, "-rt", &self.rt);
        if self.dbm {
            push_flag(&mut toks, "-dbm");
        }
        push_dec(&mut toks, "-pm", &self.pm);
        if let Some(n) = self.pe {
            push_nat(&mut toks, "-pe", n as u64);
        }
        if let Some(n) = self.gc {
            push_nat(&mut toks, "-gc", n as u64);
        }
        assert(toks.deep_view() =~= h3_tokens(self@, rla@, rlo@));
        join_line(&toks)
    }
}

} // verus!

verus! {

use crate::dec::{lemma_dec_round_trip, parse_dec_spec};
use crate::digits::{digits_val, is_digit, lemma_digit_char_val, lemma_nat_digits_shape,
    lemma_nat_digits_val};

/// How many tokens of a sequence are exactly the given token.
pub open spec fn token_count(toks: Seq<Seq<char>>, t: Seq<char>) -> nat
    decreases toks.len(),
{
    if toks.len() == 0 {
        0
    } else {
        token_count(toks.drop_last(), t) + (if toks.last() == t {
            1nat
        } else {
            0nat
        })
    }
}

/// Token counting distributes over concatenation.
pub proof fn lemma_token_count_add(a: Seq<Seq<char>>, b: Seq<Seq<char>>, t: Seq<char>)
    ensures
        token_count(a + b, t) == token_count(a, t) + token_count(b, t),
    decreases b.len(),
{
    if b.len() == 0 {
        assert(a + b =~= a);
    } else {
        lemma_token_count_add(a, b.drop_last(), t);
        assert((a + b).drop_last() =~= a + b.drop_last());
        assert((a + b).last() == b.last());
    }
}

/// A token absent from every position is counted zero times.
pub proof fn lemma_token_count_zero(s: Seq<Seq<char>>, t: Seq<char>)
    requires
        forall|i: int| 0 <= i < s.len() ==> s[i] != t,
    ensures
        token_count(s, t) == 0,
    decreases s.len(),
{
    if s.len() > 0 {
        assert(forall|i: int| 0 <= i < s.drop_last().len() ==> s.drop_last()[i] == s[i]);
        lemma_token_count_zero(s.drop_last(), t);
    }
}

/// A token present at one position and absent from all others is counted
/// exactly once.
pub proof fn lemma_token_count_one(s: Seq<Seq<char>>, t: Seq<char>, j: int)
    requires
        0 <= j < s.len(),
        s[j] == t,
        forall|i: int| 0 <= i < s.len() && i != j ==> s[i] != t,
    ensures
        token_count(s, t) == 1,
    decreases s.len(),
{
    assert(forall|i: int| 0 <= i < s.drop_last().len() ==> s.drop_last()[i] == s[i]);
    if j == s.len() - 1 {
        lemma_token_count_zero(s.drop_last(), t);
    } else {
        lemma_token_count_one(s.drop_last(), t, j);
    }
}

/// Two texts differing in length, or at one position, are different texts.
proof fn lemma_text_ne(a: Seq<char>, b: Seq<char>, k: int)
    requires
        a.len() != b.len() || (0 <= k < a.len() && k < b.len() && a[k] != b[k]),
    ensures
        a != b,
{
    if a == b {
        assert(a.len() == b.len());
        assert(a[k] == b[k]);
    }
}

/// The text of a well-formed decimal is never a flag token: a flag starts
/// with a minus sign followed by a letter, a decimal's sign by a digit.
proof fn lemma_dec_chars_no_flag(v: DecV, t: Seq<char>)
    requires
        dec_wf(v),
        t.len() >= 2,
        t[0] == '-',
        !is_digit(t[1]),
    ensures
        dec_chars(v) != t,
{
    let ic = crate::dec::dec_digit_chars(v.int_part);
    lemma_digit_char_val(v.int_part[0] as nat);
    assert(ic[0] == crate::digits::digit_char(v.int_part[0] as nat));
    if dec_chars(v) == t {
        if v.neg {
            assert(dec_chars(v)[1] == ic[0]);
        } else {
            assert(dec_chars(v)[0] == ic[0]);
        }
    }
}

/// The decimal writing of a number is never a flag token: it starts with a
/// digit, never with a minus sign.
proof fn lemma_nat_digits_no_flag(n: nat, t: Seq<char>)
    requires
        t.len() >= 1,
        t[0] == '-',
    ensures
        nat_digits(n) != t,
{
    lemma_nat_digits_shape(n);
    if nat_digits(n) == t {
        assert(is_digit(nat_digits(n)[0]));
    }
}

/// Round trip of a path request, token by token: reading the value tokens of
/// the encoded request back — each by its position — gives exactly the
/// fields the request was encoded from, down to the last digit.
pub proof fn lemma_path_round_trip(p: PathParamsV)
    requires
        path_wf(p),
    ensures
        ({
            let toks = path_tokens(p);
            let off: int = (if p.dbm {
                1int
            } else {
                0int
            }) + (if p.m {
                1int
            } else {
                0int
            });
            let pe2: int = if p.pe is Some {
                2int
            } else {
                0int
            };
            &&& parse_dec_spec(toks[1]) == Some(p.lat)
            &&& parse_dec_spec(toks[3]) == Some(p.lon)
            &&& parse_dec_spec(toks[5]) == Some(p.txh)
            &&& parse_dec_spec(toks[7]) == Some(p.f)
            &&& parse_dec_spec(toks[9]) == Some(p.erp)
            &&& parse_dec_spec(toks[11]) == Some(p.rxh)
            &&& parse_dec_spec(toks[13]) == Some(p.rt)
            &&& parse_dec_spec(toks[15 + off]) == Some(p.pm)
            &&& parse_dec_spec(toks[17 + off]) == Some(p.rla)
            &&& parse_dec_spec(toks[19 + off]) == Some(p.rlo)
            &&& (p.pe matches Some(n) ==> digits_val(toks[21 + off]) == n as nat)
            &&& (p.gc matches Some(n) ==> digits_val(toks[21 + off + pe2]) == n as nat)
        }),
{
    lemma_dec_round_trip(p.lat);
    lemma_dec_round_trip(p.lon);
    lemma_dec_round_trip(p.txh);
    lemma_dec_round_trip(p.f);
    lemma_dec_round_trip(p.erp);
    lemma_dec_round_trip(p.rxh);
    lemma_dec_round_trip(p.rt);
    lemma_dec_round_trip(p.pm);
    lemma_dec_round_trip(p.rla);
    lemma_dec_round_trip(p.rlo);
    if let Some(n) = p.pe {
        lemma_nat_digits_val(n as nat);
    }
    if let Some(n) = p.gc {
        lemma_nat_digits_val(n as nat);
    }
}

/// Flag fidelity of a path request: a false boolean field leaves no trace in
/// the token stream, a true one contributes its flag token exactly once, at
/// its place in the field order.
#[verifier::rlimit(100)]
pub proof fn lemma_path_flag_fidelity(p: PathParamsV)
    requires
        path_wf(p),
    ensures
        token_count(path_tokens(p), "-dbm"@) == (if p.dbm {
            1nat
        } else {
            0nat
        }),
        token_count(path_tokens(p), "-m"@) == (if p.m {
            1nat
        } else {
            0nat
        }),
        p.dbm ==> path_tokens(p)[14] == "-dbm"@,
        p.m ==> path_tokens(p)[14 + (if p.dbm {
            1int
        } else {
            0int
        })] == "-m"@,
{
    reveal_strlit("-lat");
    reveal_strlit("-lon");
    reveal_strlit("-txh");
    reveal_strlit("-f");
    reveal_strlit("-erp");
    reveal_strlit("-rxh");
    reveal_strlit("-rt");
    reveal_strlit("-dbm");
    reveal_strlit("-m");
    reveal_strlit("-pm");
    reveal_strlit("-rla");
    reveal_strlit("-rlo");
    reveal_strlit("-pe");
    reveal_strlit("-gc");
    lemma_dec_chars_no_flag(p.lat, "-dbm"@);
    lemma_dec_chars_no_flag(p.lon, "-dbm"@);
    lemma_dec_chars_no_flag(p.txh, "-dbm"@);
    lemma_dec_chars_no_flag(p.f, "-dbm"@);
    lemma_dec_chars_no_flag(p.erp, "-dbm"@);
    lemma_dec_chars_no_flag(p.rxh, "-dbm"@);
    lemma_dec_chars_no_flag(p.rt, "-dbm"@);
    lemma_dec_chars_no_flag(p.pm, "-dbm"@);
    lemma_dec_chars_no_flag(p.rla, "-dbm"@);
    lemma_dec_chars_no_flag(p.rlo, "-dbm"@);
    lemma_dec_chars_no_flag(p.lat, "-m"@);
    lemma_dec_chars_no_flag(p.lon, "-m"@);
    lemma_dec_chars_no_flag(p.txh, "-m"@);
    lemma_dec_chars_no_flag(p.f, "-m"@);
    lemma_dec_chars_no_flag(p.erp, "-m"@);
    lemma_dec_chars_no_flag(p.rxh, "-m"@);
    lemma_dec_chars_no_flag(p.rt, "-m"@);
    lemma_dec_chars_no_flag(p.pm, "-m"@);
    lemma_dec_chars_no_flag(p.rla, "-m"@);
    lemma_dec_chars_no_flag(p.rlo, "-m"@);
    if let Some(n) = p.pe {
        lemma_nat_digits_no_flag(n as nat, "-dbm"@);
        lemma_nat_digits_no_flag(n as nat, "-m"@);
    }
    if let Some(n) = p.gc {
        lemma_nat_digits_no_flag(n as nat, "-dbm"@);
        lemma_nat_digits_no_flag(n as nat, "-m"@);
    }
    lemma_text_ne("-lat"@, "-dbm"@, 1);
    lemma_text_ne("-lat"@, "-m"@, 1);
    lemma_text_ne("-lon"@, "-dbm"@, 1);
    lemma_text_ne("-lon"@, "-m"@, 1);
    lemma_text_ne("-txh"@, "-dbm"@, 1);
    lemma_text_ne("-txh"@, "-m"@, 1);
    lemma_text_ne("-f"@, "-dbm"@, 1);
    lemma_text_ne("-f"@, "-m"@, 1);
    lemma_text_ne("-erp"@, "-dbm"@, 1);
    lemma_text_ne("-erp"@, "-m"@, 1);
    lemma_text_ne("-rxh"@, "-dbm"@, 1);
    lemma_text_ne("-rxh"@, "-m"@, 1);
    lemma_text_ne("-rt"@, "-dbm"@, 1);
    lemma_text_ne("-rt"@, "-m"@, 1);
    lemma_text_ne("-pm"@, "-dbm"@, 1);
    lemma_text_ne("-pm"@, "-m"@, 1);
    lemma_text_ne("-rla"@, "-dbm"@, 1);
    lemma_text_ne("-rla"@, "-m"@, 1);
    lemma_text_ne("-rlo"@, "-dbm"@, 1);
    lemma_text_ne("-rlo"@, "-m"@, 1);
    lemma_text_ne("-pe"@, "-dbm"@, 1);
    lemma_text_ne("-pe"@, "-m"@, 1);
    lemma_text_ne("-gc"@, "-dbm"@, 1);
    lemma_text_ne("-gc"@, "-m"@, 1);
    lemma_text_ne("-m"@, "-dbm"@, 1);
    lemma_text_ne("-dbm"@, "-m"@, 1);
    let head = seq![
        "-lat"@,
        dec_chars(p.lat),
        "-lon"@,
        dec_chars(p.lon),
        "-txh"@,
        dec_chars(p.txh),
        "-f"@,
        dec_chars(p.f),
        "-erp"@,
        dec_chars(p.erp),
        "-rxh"@,
        dec_chars(p.rxh),
        "-rt"@,
        dec_chars(p.rt),
    ];
    let fl1 = if p.dbm {
        seq!["-dbm"@]
    } else {
        Seq::<Seq<char>>::empty()
    };
    let fl2 = if p.m {
        seq!["-m"@]
    } else {
        Seq::<Seq<char>>::empty()
    };
    let mid = seq!["-pm"@, dec_chars(p.pm), "-rla"@, dec_chars(p.rla), "-rlo"@, dec_chars(p.rlo)];
    let pes = match p.pe {
        Some(n) => seq!["-pe"@, nat_digits(n as nat)],
        None => Seq::<Seq<char>>::empty(),
    };
    let gcs = match p.gc {
        Some(n) => seq!["-gc"@, nat_digits(n as nat)],
        None => Seq::<Seq<char>>::empty(),
    };
    let toks = path_tokens(p);
    assert(toks == head + fl1 + fl2 + mid + pes + gcs);
    lemma_token_count_add(head + fl1 + fl2 + mid + pes, gcs, "-dbm"@);
    lemma_token_count_add(head + fl1 + fl2 + mid, pes, "-dbm"@);
    lemma_token_count_add(head + fl1 + fl2, mid, "-dbm"@);
    lemma_token_count_add(head + fl1, fl2, "-dbm"@);
    lemma_token_count_add(head, fl1, "-dbm"@);
    lemma_token_count_add(head + fl1 + fl2 + mid + pes, gcs, "-m"@);
    lemma_token_count_add(head + fl1 + fl2 + mid, pes, "-m"@);
    lemma_token_count_add(head + fl1 + fl2, mid, "-m"@);
    lemma_token_count_add(head + fl1, fl2, "-m"@);
    lemma_token_count_add(head, fl1, "-m"@);
    assert forall|i: int| 0 <= i < head.len() implies head[i] != "-dbm"@ && head[i] != "-m"@ by {
        if i == 0 {
            assert(head[i] == "-lat"@);
        } else if i == 1 {
            assert(head[i] == dec_chars(p.lat));
        } else if i == 2 {
            assert(head[i] == "-lon"@);
        } else if i == 3 {
            assert(head[i] == dec_chars(p.lon));
        } else if i == 4 {
            assert(head[i] == "-txh"@);
        } else if i == 5 {
            assert(head[i] == dec_chars(p.txh));
        } else if i == 6 {
            assert(head[i] == "-f"@);
        } else if i == 7 {
            assert(head[i] == dec_chars(p.f));
        } else if i == 8 {
            assert(head[i] == "-erp"@);
        } else if i == 9 {
            assert(head[i] == dec_chars(p.erp));
        } else if i == 10 {
            assert(head[i] == "-rxh"@);
        } else if i == 11 {
            assert(head[i] == dec_chars(p.rxh));
        } else if i == 12 {
            assert(head[i] == "-rt"@);
        } else if i == 13 {
            assert(head[i] == dec_chars(p.rt));
        }
    }
    assert forall|i: int| 0 <= i < mid.len() implies mid[i] != "-dbm"@ && mid[i] != "-m"@ by {
        if i == 0 {
            assert(mid[i] == "-pm"@);
        } else if i == 1 {
            assert(mid[i] == dec_chars(p.pm));
        } else if i == 2 {
            assert(mid[i] == "-rla"@);
        } else if i == 3 {
            assert(mid[i] == dec_chars(p.rla));
        } else if i == 4 {
            assert(mid[i] == "-rlo"@);
        } else if i == 5 {
            assert(mid[i] == dec_chars(p.rlo));
        }
    }
    assert forall|i: int| 0 <= i < pes.len() implies pes[i] != "-dbm"@ && pes[i] != "-m"@ by {
        if let Some(n) = p.pe {
            if i == 0 {
                assert(pes[i] == "-pe"@);
            } else {
                assert(pes[i] == nat_digits(n as nat));
            }
        }
    }
    assert forall|i: int| 0 <= i < gcs.len() implies gcs[i] != "-dbm"@ && gcs[i] != "-m"@ by {
        if let Some(n) = p.gc {
            if i == 0 {
                assert(gcs[i] == "-gc"@);
            } else {
                assert(gcs[i] == nat_digits(n as nat));
            }
        }
    }
    assert(forall|i: int| 0 <= i < fl1.len() ==> fl1[i] != "-m"@);
    assert(forall|i: int| 0 <= i < fl2.len() ==> fl2[i] != "-dbm"@);
    lemma_token_count_zero(head, "-dbm"@);
    lemma_token_count_zero(mid, "-dbm"@);
    lemma_token_count_zero(pes, "-dbm"@);
    lemma_token_count_zero(gcs, "-dbm"@);
    lemma_token_count_zero(fl2, "-dbm"@);
    if p.dbm {
        lemma_token_count_one(fl1, "-dbm"@, 0);
    } else {
        lemma_token_count_zero(fl1, "-dbm"@);
    }
    lemma_token_count_zero(head, "-m"@);
    lemma_token_count_zero(mid, "-m"@);
    lemma_token_count_zero(pes, "-m"@);
    lemma_token_count_zero(gcs, "-m"@);
    lemma_token_count_zero(fl1, "-m"@);
    if p.m {
        lemma_token_count_one(fl2, "-m"@, 0);
    } else {
        lemma_token_count_zero(fl2, "-m"@);
    }
}

} // verus!

verus! {

use crate::response::{lemma_split_spaces_cut, lemma_split_spaces_whole, split_spaces, strip_eol};

/// No character of the token is a space.
pub open spec fn token_space_free(t: Seq<char>) -> bool {
    forall|j: int| 0 <= j < t.len() ==> t[j] != ' '
}

/// No token of the sequence contains a space.
pub open spec fn tokens_space_free(toks: Seq<Seq<char>>) -> bool {
    forall|i: int| 0 <= i < toks.len() ==> token_space_free(#[trigger] toks[i])
}

/// Space-freeness carries over concatenation of token sequences.
proof fn lemma_tokens_space_free_add(a: Seq<Seq<char>>, b: Seq<Seq<char>>)
    requires
        tokens_space_free(a),
        tokens_space_free(b),
    ensures
        tokens_space_free(a + b),
{
    assert forall|i: int| 0 <= i < (a + b).len() implies token_space_free(
        #[trigger] (a + b)[i],
    ) by {
        if i < a.len() {
            assert((a + b)[i] == a[i]);
        } else {
            assert((a + b)[i] == b[i - a.len()]);
        }
    }
}

/// The text of a well-formed decimal contains no space.
proof fn lemma_dec_chars_space_free(v: DecV)
    requires
        dec_wf(v),
    ensures
        token_space_free(dec_chars(v)),
{
    crate::dec::lemma_digit_chars_round(v.int_part);
    crate::dec::lemma_digit_chars_round(v.frac_part);
    let sign: Seq<char> = if v.neg {
        seq!['-']
    } else {
        Seq::<char>::empty()
    };
    let ic = crate::dec::dec_digit_chars(v.int_part);
    let fc: Seq<char> = if v.frac_part.len() > 0 {
        seq!['.'] + crate::dec::dec_digit_chars(v.frac_part)
    } else {
        Seq::<char>::empty()
    };
    assert forall|j: int| 0 <= j < dec_chars(v).len() implies dec_chars(v)[j] != ' ' by {
        if j < sign.len() {
            assert(dec_chars(v)[j] == '-');
        } else if j < sign.len() + ic.len() {
            assert(dec_chars(v)[j] == ic[j - sign.len()]);
        } else {
            assert(dec_chars(v)[j] == fc[j - sign.len() - ic.len()]);
            if j - sign.len() - ic.len() == 0 {
                assert(fc[0] == '.');
            }
        }
    }
}

/// The decimal writing of a number contains no space.
proof fn lemma_nat_digits_space_free(n: nat)
    ensures
        token_space_free(nat_digits(n)),
{
    lemma_nat_digits_shape(n);
}

/// Joining from the front: with two or more tokens, the joined text is the
/// first token, a space, then the joined rest.
proof fn lemma_join_first(toks: Seq<Seq<char>>)
    requires
        toks.len() >= 2,
    ensures
        join_tokens(toks) == toks[0] + seq![' '] + join_tokens(toks.drop_first()),
    decreases toks.len(),
{
    if toks.len() == 2 {
        assert(toks.drop_last() =~= seq![toks[0]]);
        assert(toks.drop_first() =~= seq![toks[1]]);
        assert(join_tokens(toks) =~= toks[0] + seq![' '] + join_tokens(toks.drop_first()));
    } else {
        lemma_join_first(toks.drop_last());
        assert(toks.drop_last().drop_first() =~= toks.drop_first().drop_last());
        assert(toks.drop_last()[0] == toks[0]);
        assert(toks.drop_first().last() == toks.last());
        assert(join_tokens(toks) == join_tokens(toks.drop_last()) + seq![' '] + toks.last());
        assert(join_tokens(toks.drop_first()) == join_tokens(toks.drop_first().drop_last())
            + seq![' '] + toks.drop_first().last());
        assert(join_tokens(toks) =~= toks[0] + seq![' '] + join_tokens(toks.drop_first()));
    }
}

/// Splitting undoes joining: space-free tokens joined by single spaces split
/// back into exactly those tokens.
pub proof fn lemma_split_join(toks: Seq<Seq<char>>)
    requires
        toks.len() >= 1,
        tokens_space_free(toks),
    ensures
        split_spaces(join_tokens(toks)) == toks,
    decreases toks.len(),
{
    if toks.len() == 1 {
        assert(token_space_free(toks[0]));
        lemma_split_spaces_whole(toks[0]);
        assert(split_spaces(join_tokens(toks)) =~~= toks);
    } else {
        lemma_join_first(toks);
        let s = join_tokens(toks);
        let k = toks[0].len() as int;
        assert(s[k] == ' ');
        assert(forall|i: int| 0 <= i < k ==> s[i] == toks[0][i] && s[i] != ' ');
        lemma_split_spaces_cut(s, k);
        assert(s.subrange(0, k) =~= toks[0]);
        assert(s.subrange(k + 1, s.len() as int) =~= join_tokens(toks.drop_first()));
        assert(forall|i: int|
            0 <= i < toks.drop_first().len() ==> toks.drop_first()[i] == toks[i + 1]);
        lemma_split_join(toks.drop_first());
        assert(split_spaces(s) =~~= toks);
    }
}

/// Stripping the terminator of a full request line leaves the joined tokens.
proof fn lemma_strip_line(toks: Seq<Seq<char>>)
    ensures
        strip_eol(line_of(toks)) == join_tokens(toks),
{
    reveal_strlit("\r\n");
    let line = line_of(toks);
    assert(line[line.len() - 2] == '\r' && line[line.len() - 1] == '\n');
    assert(line.take(line.len() - 2) =~= join_tokens(toks));
}

/// Every token of a path request is space-free: the flags by their letters,
/// the values by the shape of decimal text.
proof fn lemma_path_tokens_space_free(p: PathParamsV)
    requires
        path_wf(p),
    ensures
        tokens_space_free(path_tokens(p)),
{
    reveal_strlit("-lat");
    reveal_strlit("-lon");
    reveal_strlit("-txh");
    reveal_strlit("-f");
    reveal_strlit("-erp");
    reveal_strlit("-rxh");
    reveal_strlit("-rt");
    reveal_strlit("-dbm");
    reveal_strlit("-m");
    reveal_strlit("-pm");
    reveal_strlit("-rla");
    reveal_strlit("-rlo");
    reveal_strlit("-pe");
    reveal_strlit("-gc");
    lemma_dec_chars_space_free(p.lat);
    lemma_dec_chars_space_free(p.lon);
    lemma_dec_chars_space_free(p.txh);
    lemma_dec_chars_space_free(p.f);
    lemma_dec_chars_space_free(p.erp);
    lemma_dec_chars_space_free(p.rxh);
    lemma_dec_chars_space_free(p.rt);
    lemma_dec_chars_space_free(p.pm);
    lemma_dec_chars_space_free(p.rla);
    lemma_dec_chars_space_free(p.rlo);
    let head = seq![
        "-lat"@,
        dec_chars(p.lat),
        "-lon"@,
        dec_chars(p.lon),
        "-txh"@,
        dec_chars(p.txh),
        "-f"@,
        dec_chars(p.f),
        "-erp"@,
        dec_chars(p.erp),
        "-rxh"@,
        dec_chars(p.rxh),
        "-rt"@,
        dec_chars(p.rt),
    ];
    let fl1 = if p.dbm {
        seq!["-dbm"@]
    } else {
        Seq::<Seq<char>>::empty()
    };
    let fl2 = if p.m {
        seq!["-m"@]
    } else {
        Seq::<Seq<char>>::empty()
    };
    let mid = seq!["-pm"@, dec_chars(p.pm), "-rla"@, dec_chars(p.rla), "-rlo"@, dec_chars(p.rlo)];
    let pes = match p.pe {
        Some(n) => seq!["-pe"@, nat_digits(n as nat)],
        None => Seq::<Seq<char>>::empty(),
    };
    let gcs = match p.gc {
        Some(n) => seq!["-gc"@, nat_digits(n as nat)],
        None => Seq::<Seq<char>>::empty(),
    };
    assert forall|i: int| 0 <= i < head.len() implies token_space_free(#[trigger] head[i]) by {
        if i == 0 {
            assert(head[i] == "-lat"@);
        } else if i == 1 {
            assert(head[i] == dec_chars(p.lat));
        } else if i == 2 {
            assert(head[i] == "-lon"@);
        } else if i == 3 {
            assert(head[i] == dec_chars(p.lon));
        } else if i == 4 {
            assert(head[i] == "-txh"@);
        } else if i == 5 {
            assert(head[i] == dec_chars(p.txh));
        } else if i == 6 {
            assert(head[i] == "-f"@);
        } else if i == 7 {
            assert(head[i] == dec_chars(p.f));
        } else if i == 8 {
            assert(head[i] == "-erp"@);
        } else if i == 9 {
            assert(head[i] == dec_chars(p.erp));
        } else if i == 10 {
            assert(head[i] == "-rxh"@);
        } else if i == 11 {
            assert(head[i] == dec_chars(p.rxh));
        } else if i == 12 {
            assert(head[i] == "-rt"@);
        } else {
            assert(head[i] == dec_chars(p.rt));
        }
    }
    assert forall|i: int| 0 <= i < mid.len() implies token_space_free(#[trigger] mid[i]) by {
        if i == 0 {
            assert(mid[i] == "-pm"@);
        } else if i == 1 {
            assert(mid[i] == dec_chars(p.pm));
        } else if i == 2 {
            assert(mid[i] == "-rla"@);
        } else if i == 3 {
            assert(mid[i] == dec_chars(p.rla));
        } else if i == 4 {
            assert(mid[i] == "-rlo"@);
        } else {
            assert(mid[i] == dec_chars(p.rlo));
        }
    }
    assert forall|i: int| 0 <= i < pes.len() implies token_space_free(#[trigger] pes[i]) by {
        if let Some(n) = p.pe {
            lemma_nat_digits_space_free(n as nat);
            if i == 0 {
                assert(pes[i] == "-pe"@);
            } else {
                assert(pes[i] == nat_digits(n as nat));
            }
        }
    }
    assert forall|i: int| 0 <= i < gcs.len() implies token_space_free(#[trigger] gcs[i]) by {
        if let Some(n) = p.gc {
            lemma_nat_digits_space_free(n as nat);
            if i == 0 {
                assert(gcs[i] == "-gc"@);
            } else {
                assert(gcs[i] == nat_digits(n as nat));
            }
        }
    }
    assert(tokens_space_free(fl1));
    assert(tokens_space_free(fl2));
    lemma_tokens_space_free_add(head, fl1);
    lemma_tokens_space_free_add(head + fl1, fl2);
    lemma_tokens_space_free_add(head + fl1 + fl2, mid);
    lemma_tokens_space_free_add(head + fl1 + fl2 + mid, pes);
    lemma_tokens_space_free_add(head + fl1 + fl2 + mid + pes, gcs);
    assert(path_tokens(p) == head + fl1 + fl2 + mid + pes + gcs);
}

/// The whole way back: splitting the encoded request line — terminator
/// stripped, cut at single spaces — yields exactly the token sequence the
/// line was joined from.  With [`lemma_path_round_trip`], decoding those
/// tokens by position reproduces every field of the parameter set.
pub proof fn lemma_path_line_round_trip(p: PathParamsV)
    requires
        path_wf(p),
    ensures
        split_spaces(strip_eol(line_of(path_tokens(p)))) == path_tokens(p),
{
    lemma_path_tokens_space_free(p);
    lemma_strip_line(path_tokens(p));
    lemma_split_join(path_tokens(p));
}

} // verus!

verus! {

/// Round trip of a plot request, token by token, as for the path request.
pub proof fn lemma_plot_round_trip(p: PlotParamsV)
    requires
        plot_wf(p),
    ensures
        ({
            let toks = plot_tokens(p);
            let off: int = (if p.dbm {
                1int
            } else {
                0int
            }) + (if p.m {
                1int
            } else {
                0int
            });
            let t1: int = if p.t == Some(true) {
                1int
            } else {
                0int
            };
            let pe2: int = if p.pe is Some {
                2int
            } else {
                0int
            };
            &&& parse_dec_spec(toks[1]) == Some(p.lat)
            &&& parse_dec_spec(toks[3]) == Some(p.lon)
            &&& parse_dec_spec(toks[5]) == Some(p.txh)
            &&& parse_dec_spec(toks[7]) == Some(p.f)
            &&& parse_dec_spec(toks[9]) == Some(p.erp)
            &&& parse_dec_spec(toks[11]) == Some(p.rxh)
            &&& parse_dec_spec(toks[13]) == Some(p.rt)
            &&& parse_dec_spec(toks[15 + off]) == Some(p.pm)
            &&& digits_val(toks[17 + off]) == p.r as nat
            &&& (p.pe matches Some(n) ==> digits_val(toks[19 + off + t1]) == n as nat)
            &&& (p.gc matches Some(n) ==> digits_val(toks[19 + off + t1 + pe2]) == n as nat)
        }),
{
    lemma_dec_round_trip(p.lat);
    lemma_dec_round_trip(p.lon);
    lemma_dec_round_trip(p.txh);
    lemma_dec_round_trip(p.f);
    lemma_dec_round_trip(p.erp);
    lemma_dec_round_trip(p.rxh);
    lemma_dec_round_trip(p.rt);
    lemma_dec_round_trip(p.pm);
    lemma_nat_digits_val(p.r as nat);
    if let Some(n) = p.pe {
        lemma_nat_digits_val(n as nat);
    }
    if let Some(n) = p.gc {
        lemma_nat_digits_val(n as nat);
    }
}

/// Round trip of one coverage-search sample line: the transmitter fields
/// read back exactly, and the receiver tokens are the centroid texts the
/// caller put in, untouched.
pub proof fn lemma_h3_round_trip(p: H3PlotParamsV, rla: Seq<char>, rlo: Seq<char>)
    requires
        h3_wf(p),
    ensures
        ({
            let toks = h3_tokens(p, rla, rlo);
            let off: int = if p.dbm {
                1int
            } else {
                0int
            };
            let pe2: int = if p.pe is Some {
                2int
            } else {
                0int
            };
            &&& parse_dec_spec(toks[1]) == Some(p.lat)
            &&& parse_dec_spec(toks[3]) == Some(p.lon)
            &&& toks[5] == rla
            &&& toks[7] == rlo
            &&& parse_dec_spec(toks[9]) == Some(p.txh)
            &&& parse_dec_spec(toks[11]) == Some(p.f)
            &&& parse_dec_spec(toks[13]) == Some(p.erp)
            &&& parse_dec_spec(toks[15]) == Some(p.rxh)
            &&& parse_dec_spec(toks[17]) == Some(p.rt)
            &&& parse_dec_spec(toks[19 + off]) == Some(p.pm)
            &&& (p.pe matches Some(n) ==> digits_val(toks[21 + off]) == n as nat)
            &&& (p.gc matches Some(n) ==> digits_val(toks[21 + off + pe2]) == n as nat)
        }),
{
    lemma_dec_round_trip(p.lat);
    lemma_dec_round_trip(p.lon);
    lemma_dec_round_trip(p.txh);
    lemma_dec_round_trip(p.f);
    lemma_dec_round_trip(p.erp);
    lemma_dec_round_trip(p.rxh);
    lemma_dec_round_trip(p.rt);
    lemma_dec_round_trip(p.pm);
    if let Some(n) = p.pe {
        lemma_nat_digits_val(n as nat);
    }
    if let Some(n) = p.gc {
        lemma_nat_digits_val(n as nat);
    }
}

} // verus!

verus! {

/// Flag fidelity of a plot request: each of the three boolean fields —
/// `dbm`, `m`, and the optional terrain flag `t` — contributes its bare
/// token exactly once when true, and nothing when false or unset.
#[verifier::rlimit(100)]
pub proof fn lemma_plot_flag_fidelity(p: PlotParamsV)
    requires
        plot_wf(p),
    ensures
        token_count(plot_tokens(p), "-dbm"@) == (if p.dbm {
            1nat
        } else {
            0nat
        }),
        token_count(plot_tokens(p), "-m"@) == (if p.m {
            1nat
        } else {
            0nat
        }),
        token_count(plot_tokens(p), "-t"@) == (if p.t == Some(true) {
            1nat
        } else {
            0nat
        }),
{
    reveal_strlit("-lat");
    reveal_strlit("-lon");
    reveal_strlit("-txh");
    reveal_strlit("-f");
    reveal_strlit("-erp");
    reveal_strlit("-rxh");
    reveal_strlit("-rt");
    reveal_strlit("-dbm");
    reveal_strlit("-m");
    reveal_strlit("-t");
    reveal_strlit("-pm");
    reveal_strlit("-R");
    reveal_strlit("-pe");
    reveal_strlit("-gc");
    lemma_text_ne("-lat"@, "-dbm"@, 1);
    lemma_text_ne("-lon"@, "-dbm"@, 1);
    lemma_text_ne("-txh"@, "-dbm"@, 1);
    lemma_text_ne("-f"@, "-dbm"@, 1);
    lemma_text_ne("-erp"@, "-dbm"@, 1);
    lemma_text_ne("-rxh"@, "-dbm"@, 1);
    lemma_text_ne("-rt"@, "-dbm"@, 1);
    lemma_text_ne("-pm"@, "-dbm"@, 1);
    lemma_text_ne("-R"@, "-dbm"@, 1);
    lemma_text_ne("-pe"@, "-dbm"@, 1);
    lemma_text_ne("-gc"@, "-dbm"@, 1);
    lemma_text_ne("-m"@, "-dbm"@, 1);
    lemma_text_ne("-t"@, "-dbm"@, 1);
    lemma_text_ne("-lat"@, "-m"@, 1);
    lemma_text_ne("-lon"@, "-m"@, 1);
    lemma_text_ne("-txh"@, "-m"@, 1);
    lemma_text_ne("-f"@, "-m"@, 1);
    lemma_text_ne("-erp"@, "-m"@, 1);
    lemma_text_ne("-rxh"@, "-m"@, 1);
    lemma_text_ne("-rt"@, "-m"@, 1);
    lemma_text_ne("-pm"@, "-m"@, 1);
    lemma_text_ne("-R"@, "-m"@, 1);
    lemma_text_ne("-pe"@, "-m"@, 1);
    lemma_text_ne("-gc"@, "-m"@, 1);
    lemma_text_ne("-dbm"@, "-m"@, 1);
    lemma_text_ne("-t"@, "-m"@, 1);
    lemma_text_ne("-lat"@, "-t"@, 1);
    lemma_text_ne("-lon"@, "-t"@, 1);
    lemma_text_ne("-txh"@, "-t"@, 1);
    lemma_text_ne("-f"@, "-t"@, 1);
    lemma_text_ne("-erp"@, "-t"@, 1);
    lemma_text_ne("-rxh"@, "-t"@, 1);
    lemma_text_ne("-rt"@, "-t"@, 1);
    lemma_text_ne("-pm"@, "-t"@, 1);
    lemma_text_ne("-R"@, "-t"@, 1);
    lemma_text_ne("-pe"@, "-t"@, 1);
    lemma_text_ne("-gc"@, "-t"@, 1);
    lemma_text_ne("-dbm"@, "-t"@, 1);
    lemma_text_ne("-m"@, "-t"@, 1);
    lemma_dec_chars_no_flag(p.lat, "-dbm"@);
    lemma_dec_chars_no_flag(p.lon, "-dbm"@);
    lemma_dec_chars_no_flag(p.txh, "-dbm"@);
    lemma_dec_chars_no_flag(p.f, "-dbm"@);
    lemma_dec_chars_no_flag(p.erp, "-dbm"@);
    lemma_dec_chars_no_flag(p.rxh, "-dbm"@);
    lemma_dec_chars_no_flag(p.rt, "-dbm"@);
    lemma_dec_chars_no_flag(p.pm, "-dbm"@);
    lemma_dec_chars_no_flag(p.lat, "-m"@);
    lemma_dec_chars_no_flag(p.lon, "-m"@);
    lemma_dec_chars_no_flag(p.txh, "-m"@);
    lemma_dec_chars_no_flag(p.f, "-m"@);
    lemma_dec_chars_no_flag(p.erp, "-m"@);
    lemma_dec_chars_no_flag(p.rxh, "-m"@);
    lemma_dec_chars_no_flag(p.rt, "-m"@);
    lemma_dec_chars_no_flag(p.pm, "-m"@);
    lemma_dec_chars_no_flag(p.lat, "-t"@);
    lemma_dec_chars_no_flag(p.lon, "-t"@);
    lemma_dec_chars_no_flag(p.txh, "-t"@);
    lemma_dec_chars_no_flag(p.f, "-t"@);
    lemma_dec_chars_no_flag(p.erp, "-t"@);
    lemma_dec_chars_no_flag(p.rxh, "-t"@);
    lemma_dec_chars_no_flag(p.rt, "-t"@);
    lemma_dec_chars_no_flag(p.pm, "-t"@);
    lemma_nat_digits_no_flag(p.r as nat, "-dbm"@);
    lemma_nat_digits_no_flag(p.r as nat, "-m"@);
    lemma_nat_digits_no_flag(p.r as nat, "-t"@);
    if let Some(n) = p.pe {
        lemma_nat_digits_no_flag(n as nat, "-dbm"@);
        lemma_nat_digits_no_flag(n as nat, "-m"@);
        lemma_nat_digits_no_flag(n as nat, "-t"@);
    }
    if let Some(n) = p.gc {
        lemma_nat_digits_no_flag(n as nat, "-dbm"@);
        lemma_nat_digits_no_flag(n as nat, "-m"@);
        lemma_nat_digits_no_flag(n as nat, "-t"@);
    }
    let head = plot_head(p);
    let fl1 = if p.dbm {
        seq!["-dbm"@]
    } else {
        Seq::<Seq<char>>::empty()
    };
    let fl2 = if p.m {
        seq!["-m"@]
    } else {
        Seq::<Seq<char>>::empty()
    };
    let mid = seq!["-pm"@, dec_chars(p.pm), "-R"@, nat_digits(p.r as nat)];
    let tfl = if p.t == Some(true) {
        seq!["-t"@]
    } else {
        Seq::<Seq<char>>::empty()
    };
    let pes = match p.pe {
        Some(n) => seq!["-pe"@, nat_digits(n as nat)],
        None => Seq::<Seq<char>>::empty(),
    };
    let gcs = match p.gc {
        Some(n) => seq!["-gc"@, nat_digits(n as nat)],
        None => Seq::<Seq<char>>::empty(),
    };
    assert(plot_tokens(p) == head + fl1 + fl2 + mid + tfl + pes + gcs);
    lemma_plot_segment_counts(p, "-dbm"@);
    lemma_plot_segment_counts(p, "-m"@);
    lemma_plot_segment_counts(p, "-t"@);
    if p.dbm {
        lemma_token_count_one(fl1, "-dbm"@, 0);
    } else {
        lemma_token_count_zero(fl1, "-dbm"@);
    }
    lemma_token_count_zero(fl1, "-m"@);
    lemma_token_count_zero(fl1, "-t"@);
    if p.m {
        lemma_token_count_one(fl2, "-m"@, 0);
    } else {
        lemma_token_count_zero(fl2, "-m"@);
    }
    lemma_token_count_zero(fl2, "-dbm"@);
    lemma_token_count_zero(fl2, "-t"@);
    if p.t == Some(true) {
        lemma_token_count_one(tfl, "-t"@, 0);
    } else {
        lemma_token_count_zero(tfl, "-t"@);
    }
    lemma_token_count_zero(tfl, "-dbm"@);
    lemma_token_count_zero(tfl, "-m"@);
}

/// The fixed leading tokens of a plot request.
spec fn plot_head(p: PlotParamsV) -> Seq<Seq<char>> {
    seq![
        "-lat"@,
        dec_chars(p.lat),
        "-lon"@,
        dec_chars(p.lon),
        "-txh"@,
        dec_chars(p.txh),
        "-f"@,
        dec_chars(p.f),
        "-erp"@,
        dec_chars(p.erp),
        "-rxh"@,
        dec_chars(p.rxh),
        "-rt"@,
        dec_chars(p.rt),
    ]
}

/// Token counts of a plot request distribute over its seven segments, and
/// every token of the fixed segments differs from the given flag where the
/// facts in scope say so.
#[verifier::rlimit(100)]
proof fn lemma_plot_segment_counts(p: PlotParamsV, t: Seq<char>)
    requires
        forall|i: int| 0 <= i < plot_head(p).len() ==> plot_head(p)[i] != t,
        "-pm"@ != t,
        dec_chars(p.pm) != t,
        "-R"@ != t,
        nat_digits(p.r as nat) != t,
        p.pe matches Some(n) ==> "-pe"@ != t && nat_digits(n as nat) != t,
        p.gc matches Some(n) ==> "-gc"@ != t && nat_digits(n as nat) != t,
    ensures
        ({
            let head = plot_head(p);
            let fl1 = if p.dbm {
                seq!["-dbm"@]
            } else {
                Seq::<Seq<char>>::empty()
            };
            let fl2 = if p.m {
                seq!["-m"@]
            } else {
                Seq::<Seq<char>>::empty()
            };
            let mid = seq!["-pm"@, dec_chars(p.pm), "-R"@, nat_digits(p.r as nat)];
            let tfl = if p.t == Some(true) {
                seq!["-t"@]
            } else {
                Seq::<Seq<char>>::empty()
            };
            let pes = match p.pe {
                Some(n) => seq!["-pe"@, nat_digits(n as nat)],
                None => Seq::<Seq<char>>::empty(),
            };
            let gcs = match p.gc {
                Some(n) => seq!["-gc"@, nat_digits(n as nat)],
                None => Seq::<Seq<char>>::empty(),
            };
            token_count(plot_tokens(p), t) == token_count(fl1, t) + token_count(fl2, t)
                + token_count(tfl, t)
        }),
{
    let head = plot_head(p);
    let fl1 = if p.dbm {
        seq!["-dbm"@]
    } else {
        Seq::<Seq<char>>::empty()
    };
    let fl2 = if p.m {
        seq!["-m"@]
    } else {
        Seq::<Seq<char>>::empty()
    };
    let mid = seq!["-pm"@, dec_chars(p.pm), "-R"@, nat_digits(p.r as nat)];
    let tfl = if p.t == Some(true) {
        seq!["-t"@]
    } else {
        Seq::<Seq<char>>::empty()
    };
    let pes = match p.pe {
        Some(n) => seq!["-pe"@, nat_digits(n as nat)],
        None => Seq::<Seq<char>>::empty(),
    };
    let gcs = match p.gc {
        Some(n) => seq!["-gc"@, nat_digits(n as nat)],
        None => Seq::<Seq<char>>::empty(),
    };
    assert(plot_tokens(p) == head + fl1 + fl2 + mid + tfl + pes + gcs);
    lemma_token_count_add(head + fl1 + fl2 + mid + tfl + pes, gcs, t);
    lemma_token_count_add(head + fl1 + fl2 + mid + tfl, pes, t);
    lemma_token_count_add(head + fl1 + fl2 + mid, tfl, t);
    lemma_token_count_add(head + fl1 + fl2, mid, t);
    lemma_token_count_add(head + fl1, fl2, t);
    lemma_token_count_add(head, fl1, t);
    lemma_token_count_zero(head, t);
    assert forall|i: int| 0 <= i < mid.len() implies mid[i] != t by {
        if i == 0 {
            assert(mid[i] == "-pm"@);
        } else if i == 1 {
            assert(mid[i] == dec_chars(p.pm));
        } else if i == 2 {
            assert(mid[i] == "-R"@);
        } else {
            assert(mid[i] == nat_digits(p.r as nat));
        }
    }
    lemma_token_count_zero(mid, t);
    assert forall|i: int| 0 <= i < pes.len() implies pes[i] != t by {
        if let Some(n) = p.pe {
            if i == 0 {
                assert(pes[i] == "-pe"@);
            } else {
                assert(pes[i] == nat_digits(n as nat));
            }
        }
    }
    lemma_token_count_zero(pes, t);
    assert forall|i: int| 0 <= i < gcs.len() implies gcs[i] != t by {
        if let Some(n) = p.gc {
            if i == 0 {
                assert(gcs[i] == "-gc"@);
            } else {
                assert(gcs[i] == nat_digits(n as nat));
            }
        }
    }
    lemma_token_count_zero(gcs, t);
}

} // verus!

verus! {

/// Every token of a plot request is space-free.
proof fn lemma_plot_tokens_space_free(p: PlotParamsV)
    requires
        plot_wf(p),
    ensures
        tokens_space_free(plot_tokens(p)),
{
    reveal_strlit("-lat");
    reveal_strlit("-lon");
    reveal_strlit("-txh");
    reveal_strlit("-f");
    reveal_strlit("-erp");
    reveal_strlit("-rxh");
    reveal_strlit("-rt");
    reveal_strlit("-dbm");
    reveal_strlit("-m");
    reveal_strlit("-t");
    reveal_strlit("-pm");
    reveal_strlit("-R");
    reveal_strlit("-pe");
    reveal_strlit("-gc");
    lemma_dec_chars_space_free(p.lat);
    lemma_dec_chars_space_free(p.lon);
    lemma_dec_chars_space_free(p.txh);
    lemma_dec_chars_space_free(p.f);
    lemma_dec_chars_space_free(p.erp);
    lemma_dec_chars_space_free(p.rxh);
    lemma_dec_chars_space_free(p.rt);
    lemma_dec_chars_space_free(p.pm);
    lemma_nat_digits_space_free(p.r as nat);
    let head = plot_head(p);
    let fl1 = if p.dbm {
        seq!["-dbm"@]
    } else {
        Seq::<Seq<char>>::empty()
    };
    let fl2 = if p.m {
        seq!["-m"@]
    } else {
        Seq::<Seq<char>>::empty()
    };
    let mid = seq!["-pm"@, dec_chars(p.pm), "-R"@, nat_digits(p.r as nat)];
    let tfl = if p.t == Some(true) {
        seq!["-t"@]
    } else {
        Seq::<Seq<char>>::empty()
    };
    let pes = match p.pe {
        Some(n) => seq!["-pe"@, nat_digits(n as nat)],
        None => Seq::<Seq<char>>::empty(),
    };
    let gcs = match p.gc {
        Some(n) => seq!["-gc"@, nat_digits(n as nat)],
        None => Seq::<Seq<char>>::empty(),
    };
    assert forall|i: int| 0 <= i < head.len() implies token_space_free(#[trigger] head[i]) by {
        if i == 0 {
            assert(head[i] == "-lat"@);
        } else if i == 1 {
            assert(head[i] == dec_chars(p.lat));
        } else if i == 2 {
            assert(head[i] == "-lon"@);
        } else if i == 3 {
            assert(head[i] == dec_chars(p.lon));
        } else if i == 4 {
            assert(head[i] == "-txh"@);
        } else if i == 5 {
            assert(head[i] == dec_chars(p.txh));
        } else if i == 6 {
            assert(head[i] == "-f"@);
        } else if i == 7 {
            assert(head[i] == dec_chars(p.f));
        } else if i == 8 {
            assert(head[i] == "-erp"@);
        } else if i == 9 {
            assert(head[i] == dec_chars(p.erp));
        } else if i == 10 {
            assert(head[i] == "-rxh"@);
        } else if i == 11 {
            assert(head[i] == dec_chars(p.rxh));
        } else if i == 12 {
            assert(head[i] == "-rt"@);
        } else {
            assert(head[i] == dec_chars(p.rt));
        }
    }
    assert forall|i: int| 0 <= i < mid.len() implies token_space_free(#[trigger] mid[i]) by {
        if i == 0 {
            assert(mid[i] == "-pm"@);
        } else if i == 1 {
            assert(mid[i] == dec_chars(p.pm));
        } else if i == 2 {
            assert(mid[i] == "-R"@);
        } else {
            assert(mid[i] == nat_digits(p.r as nat));
        }
    }
    assert forall|i: int| 0 <= i < pes.len() implies token_space_free(#[trigger] pes[i]) by {
        if let Some(n) = p.pe {
            lemma_nat_digits_space_free(n as nat);
            if i == 0 {
                assert(pes[i] == "-pe"@);
            } else {
                assert(pes[i] == nat_digits(n as nat));
            }
        }
    }
    assert forall|i: int| 0 <= i < gcs.len() implies token_space_free(#[trigger] gcs[i]) by {
        if let Some(n) = p.gc {
            lemma_nat_digits_space_free(n as nat);
            if i == 0 {
                assert(gcs[i] == "-gc"@);
            } else {
                assert(gcs[i] == nat_digits(n as nat));
            }
        }
    }
    assert(tokens_space_free(fl1));
    assert(tokens_space_free(fl2));
    assert(tokens_space_free(tfl));
    lemma_tokens_space_free_add(head, fl1);
    lemma_tokens_space_free_add(head + fl1, fl2);
    lemma_tokens_space_free_add(head + fl1 + fl2, mid);
    lemma_tokens_space_free_add(head + fl1 + fl2 + mid, tfl);
    lemma_tokens_space_free_add(head + fl1 + fl2 + mid + tfl, pes);
    lemma_tokens_space_free_add(head + fl1 + fl2 + mid + tfl + pes, gcs);
    assert(plot_tokens(p) == head + fl1 + fl2 + mid + tfl + pes + gcs);
}

/// Splitting an encoded plot request line — terminator stripped, cut at
/// single spaces — yields exactly the token sequence it was joined from.
pub proof fn lemma_plot_line_round_trip(p: PlotParamsV)
    requires
        plot_wf(p),
    ensures
        split_spaces(strip_eol(line_of(plot_tokens(p)))) == plot_tokens(p),
{
    lemma_plot_tokens_space_free(p);
    lemma_strip_line(plot_tokens(p));
    lemma_split_join(plot_tokens(p));
}

/// Every token of a coverage-search sample line is space-free, as long as
/// the caller's centroid texts are: the grid library writes centroids as
/// plain decimal degrees, which carry no space.
proof fn lemma_h3_tokens_space_free(p: H3PlotParamsV, rla: Seq<char>, rlo: Seq<char>)
    requires
        h3_wf(p),
        token_space_free(rla),
        token_space_free(rlo),
    ensures
        tokens_space_free(h3_tokens(p, rla, rlo)),
{
    reveal_strlit("-lat");
    reveal_strlit("-lon");
    reveal_strlit("-rla");
    reveal_strlit("-rlo");
    reveal_strlit("-txh");
    reveal_strlit("-f");
    reveal_strlit("-erp");
    reveal_strlit("-rxh");
    reveal_strlit("-rt");
    reveal_strlit("-dbm");
    reveal_strlit("-pm");
    reveal_strlit("-pe");
    reveal_strlit("-gc");
    lemma_dec_chars_space_free(p.lat);
    lemma_dec_chars_space_free(p.lon);
    lemma_dec_chars_space_free(p.txh);
    lemma_dec_chars_space_free(p.f);
    lemma_dec_chars_space_free(p.erp);
    lemma_dec_chars_space_free(p.rxh);
    lemma_dec_chars_space_free(p.rt);
    lemma_dec_chars_space_free(p.pm);
    let head = seq![
        "-lat"@,
        dec_chars(p.lat),
        "-lon"@,
        dec_chars(p.lon),
        "-rla"@,
        rla,
        "-rlo"@,
        rlo,
        "-txh"@,
        dec_chars(p.txh),
        "-f"@,
        dec_chars(p.f),
        "-erp"@,
        dec_chars(p.erp),
        "-rxh"@,
        dec_chars(p.rxh),
        "-rt"@,
        dec_chars(p.rt),
    ];
    let fl1 = if p.dbm {
        seq!["-dbm"@]
    } else {
        Seq::<Seq<char>>::empty()
    };
    let mid = seq!["-pm"@, dec_chars(p.pm)];
    let pes = match p.pe {
        Some(n) => seq!["-pe"@, nat_digits(n as nat)],
        None => Seq::<Seq<char>>::empty(),
    };
    let gcs = match p.gc {
        Some(n) => seq!["-gc"@, nat_digits(n as nat)],
        None => Seq::<Seq<char>>::empty(),
    };
    assert forall|i: int| 0 <= i < head.len() implies token_space_free(#[trigger] head[i]) by {
        if i == 0 {
            assert(head[i] == "-lat"@);
        } else if i == 1 {
            assert(head[i] == dec_chars(p.lat));
        } else if i == 2 {
            assert(head[i] == "-lon"@);
        } else if i == 3 {
            assert(head[i] == dec_chars(p.lon));
        } else if i == 4 {
            assert(head[i] == "-rla"@);
        } else if i == 5 {
            assert(head[i] == rla);
        } else if i == 6 {
            assert(head[i] == "-rlo"@);
        } else if i == 7 {
            assert(head[i] == rlo);
        } else if i == 8 {
            assert(head[i] == "-txh"@);
        } else if i == 9 {
            assert(head[i] == dec_chars(p.txh));
        } else if i == 10 {
            assert(head[i] == "-f"@);
        } else if i == 11 {
            assert(head[i] == dec_chars(p.f));
        } else if i == 12 {
            assert(head[i] == "-erp"@);
        } else if i == 13 {
            assert(head[i] == dec_chars(p.erp));
        } else if i == 14 {
            assert(head[i] == "-rxh"@);
        } else if i == 15 {
            assert(head[i] == dec_chars(p.rxh));
        } else if i == 16 {
            assert(head[i] == "-rt"@);
        } else {
            assert(head[i] == dec_chars(p.rt));
        }
    }
    assert forall|i: int| 0 <= i < mid.len() implies token_space_free(#[trigger] mid[i]) by {
        if i == 0 {
            assert(mid[i] == "-pm"@);
        } else {
            assert(mid[i] == dec_chars(p.pm));
        }
    }
    assert forall|i: int| 0 <= i < pes.len() implies token_space_free(#[trigger] pes[i]) by {
        if let Some(n) = p.pe {
            lemma_nat_digits_space_free(n as nat);
            if i == 0 {
                assert(pes[i] == "-pe"@);
            } else {
                assert(pes[i] == nat_digits(n as nat));
            }
        }
    }
    assert forall|i: int| 0 <= i < gcs.len() implies token_space_free(#[trigger] gcs[i]) by {
        if let Some(n) = p.gc {
            lemma_nat_digits_space_free(n as nat);
            if i == 0 {
                assert(gcs[i] == "-gc"@);
            } else {
                assert(gcs[i] == nat_digits(n as nat));
            }
        }
    }
    assert(tokens_space_free(fl1));
    lemma_tokens_space_free_add(head, fl1);
    lemma_tokens_space_free_add(head + fl1, mid);
    lemma_tokens_space_free_add(head + fl1 + mid, pes);
    lemma_tokens_space_free_add(head + fl1 + mid + pes, gcs);
    assert(h3_tokens(p, rla, rlo) == head + fl1 + mid + pes + gcs);
}

/// Splitting an encoded coverage-search sample line yields exactly the token
/// sequence it was joined from, for any space-free centroid texts.
pub proof fn lemma_h3_line_round_trip(p: H3PlotParamsV, rla: Seq<char>, rlo: Seq<char>)
    requires
        h3_wf(p),
        token_space_free(rla),
        token_space_free(rlo),
    ensures
        split_spaces(strip_eol(line_of(h3_tokens(p, rla, rlo)))) == h3_tokens(p, rla, rlo),
{
    lemma_h3_tokens_space_free(p, rla, rlo);
    lemma_strip_line(h3_tokens(p, rla, rlo));
    lemma_split_join(h3_tokens(p, rla, rlo));
}

} // verus!
