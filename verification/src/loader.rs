//! The asset loader: a line-oriented text model format and its companion
//! material-library format, parsed into a `Mesh`.
//!
//! Reading files is the caller's business: the parsers take the text as
//! bytes. The whole parse is specified functionally — the spec functions
//! below fold over the lines — so what a parse returns is a function of
//! the text alone, which makes loading deterministic.

use vstd::prelude::*;

verus! {

use crate::colour::Colour;
use crate::fixed::SCALE;
use crate::fixed::iabs;

/// Why a load failed. Any error aborts the whole load.
#[derive(Clone, Copy, PartialEq, Eq, Structural, Debug)]
pub enum LoadError {
    /// A `v`, `vt`, `vn` or `f` record with the wrong field count or an
    /// unparsable number.
    MalformedRecord,
    /// A face that is not exactly three vertex references.
    UnsupportedPolygon,
    /// A face reference to a position, texture or normal not declared.
    IndexOutOfRange,
    /// A `usemtl` naming no declared material.
    MaterialNotFound,
    /// A material attribute before any `newmtl`.
    MaterialBeforeDeclaration,
    /// A referenced file could not be read or supplied.
    IoFailure,
    /// A referenced texture could not be decoded.
    TextureDecodeFailure,
}

/// An ASCII space, tab or carriage return separates tokens.
pub open spec fn is_space(b: u8) -> bool {
    b == 32 || b == 9 || b == 13
}

/// The lines of a byte text from position `i` on, an open line having
/// started at `start`: split on newline, the last line needing none.
pub open spec fn lines_from(s: Seq<u8>, i: int, start: int) -> Seq<Seq<u8>>
    recommends
        0 <= start <= i <= s.len(),
    decreases s.len() - i,
{
    if i >= s.len() {
        if start < s.len() {
            seq![s.subrange(start, s.len() as int)]
        } else {
            Seq::empty()
        }
    } else if s[i] == 10 {
        seq![s.subrange(start, i)] + lines_from(s, i + 1, i + 1)
    } else {
        lines_from(s, i + 1, start)
    }
}

/// The lines of a byte text.
pub open spec fn lines_of(s: Seq<u8>) -> Seq<Seq<u8>> {
    lines_from(s, 0, 0)
}

/// The whitespace-separated words of a line from position `i` on, a word
/// in progress having started at `start`.
pub open spec fn words_from(s: Seq<u8>, i: int, start: int) -> Seq<Seq<u8>>
    recommends
        0 <= start <= i <= s.len(),
    decreases s.len() - i,
{
    if i >= s.len() {
        if start < i {
            seq![s.subrange(start, i)]
        } else {
            Seq::empty()
        }
    } else if is_space(s[i]) {
        if start < i {
            seq![s.subrange(start, i)] + words_from(s, i + 1, i + 1)
        } else {
            words_from(s, i + 1, i + 1)
        }
    } else {
        words_from(s, i + 1, start)
    }
}

/// The whitespace-separated words of a line.
pub open spec fn words_of(s: Seq<u8>) -> Seq<Seq<u8>> {
    words_from(s, 0, 0)
}

/// The views of a vector of byte vectors are exactly a model sequence.
pub open spec fn views_match(r: Seq<Vec<u8>>, model: Seq<Seq<u8>>) -> bool {
    r.len() == model.len() && forall|k: int| 0 <= k < r.len() ==> (#[trigger] r[k])@ == model[k]
}

/// Split a byte text into its lines.
pub fn split_lines(text: &Vec<u8>) -> (r: Vec<Vec<u8>>)
    ensures
        views_match(r@, lines_of(text@)),
{
    let mut r: Vec<Vec<u8>> = Vec::new();
    let mut cur: Vec<u8> = Vec::new();
    let mut i: usize = 0;
    let mut start: Ghost<int> = Ghost(0);
    let mut done: Ghost<Seq<Seq<u8>>> = Ghost(Seq::empty());
    while i < text.len()
        invariant
            0 <= start@ <= i <= text@.len(),
            cur@ == text@.subrange(start@, i as int),
            views_match(r@, done@),
            lines_of(text@) == done@ + lines_from(text@, i as int, start@),
        decreases text@.len() - i,
    {
        let b = text[i];
        if b == 10 {
            r.push(cur);
            proof {
                done@ = done@ + seq![text@.subrange(start@, i as int)];
            }
            cur = Vec::new();
            start = Ghost(i as int + 1);
        } else {
            cur.push(b);
            proof {
                assert(cur@ =~= text@.subrange(start@, i + 1));
            }
        }
        i = i + 1;
    }
    if cur.len() > 0 {
        r.push(cur);
        proof {
            done@ = done@ + seq![text@.subrange(start@, i as int)];
        }
    }
    r
}

/// Split a line into its whitespace-separated words.
pub fn split_words(line: &Vec<u8>) -> (r: Vec<Vec<u8>>)
    ensures
        views_match(r@, words_of(line@)),
{
    let mut r: Vec<Vec<u8>> = Vec::new();
    let mut cur: Vec<u8> = Vec::new();
    let mut i: usize = 0;
    let mut start: Ghost<int> = Ghost(0);
    let mut done: Ghost<Seq<Seq<u8>>> = Ghost(Seq::empty());
    while i < line.len()
        invariant
            0 <= start@ <= i <= line@.len(),
            cur@ == line@.subrange(start@, i as int),
            views_match(r@, done@),
            words_of(line@) == done@ + words_from(line@, i as int, start@),
        decreases line@.len() - i,
    {
        let b = line[i];
        if b == 32 || b == 9 || b == 13 {
            if cur.len() > 0 {
                r.push(cur);
                proof {
                    done@ = done@ + seq![line@.subrange(start@, i as int)];
                }
                cur = Vec::new();
            }
            start = Ghost(i as int + 1);
        } else {
            cur.push(b);
            proof {
                assert(cur@ =~= line@.subrange(start@, i + 1));
            }
        }
        i = i + 1;
    }
    if cur.len() > 0 {
        r.push(cur);
        proof {
            done@ = done@ + seq![line@.subrange(start@, i as int)];
        }
    }
    r
}

/// Every byte of `s` in `[lo, hi)` is an ASCII digit.
pub open spec fn all_digits_r(s: Seq<u8>, lo: int, hi: int) -> bool {
    forall|i: int| lo <= i < hi ==> 48 <= #[trigger] s[i] <= 57
}

/// The decimal value of the digits of `s` in `[lo, hi)`.
pub open spec fn digits_val_r(s: Seq<u8>, lo: int, hi: int) -> int
    decreases hi - lo,
{
    if hi <= lo {
        0
    } else {
        digits_val_r(s, lo, hi - 1) * 10 + (s[hi - 1] - 48)
    }
}

/// The first position of byte `b` in `s` at or after `lo`, or the length
/// of `s` when it does not occur.
pub open spec fn find_byte_r(s: Seq<u8>, b: u8, lo: int) -> int
    decreases s.len() - lo,
{
    if lo >= s.len() {
        s.len() as int
    } else if s[lo] == b {
        lo
    } else {
        find_byte_r(s, b, lo + 1)
    }
}

/// Ten to the `k`.
pub open spec fn pow10(k: int) -> int
    decreases k,
{
    if k <= 0 {
        1
    } else {
        10 * pow10(k - 1)
    }
}

/// The first position of an exponent marker (`e` or `E`) at or after
/// `lo`, or the length of `s` when there is none.
pub open spec fn find_exp_r(s: Seq<u8>, lo: int) -> int
    decreases s.len() - lo,
{
    if lo >= s.len() {
        s.len() as int
    } else if s[lo] == 101 || s[lo] == 69 {
        lo
    } else {
        find_exp_r(s, lo + 1)
    }
}

/// The largest scalar a parsed number may reach: two to the forty-fourth.
pub const VALUE_CAP: i64 = 0x1000_0000_0000;

/// What `parse_fixed` returns on a word, the decimal float grammar with
/// an optional exponent: an optional sign; integer digits, a decimal
/// point with fraction digits, or both, at least one mantissa digit in
/// all; then optionally `e` or `E`, an optional sign and exponent
/// digits. The value is the decimal scaled by two to the sixteenth and
/// truncated toward zero. Fraction digits beyond the ninth are ignored,
/// an integer part beyond eighteen digits of value is rejected, and a
/// magnitude over `VALUE_CAP` is rejected; otherwise the truncated
/// scalar is returned, however small the exponent.
pub open spec fn parse_fixed_spec(w: Seq<u8>) -> Option<i64> {
    let neg = w.len() > 0 && w[0] == 45;
    let lo: int = if w.len() > 0 && (w[0] == 43 || w[0] == 45) {
        1
    } else {
        0
    };
    let epos = find_exp_r(w, lo);
    let dot = find_byte_r(w, 46, lo);
    let iend = if dot < epos {
        dot
    } else {
        epos
    };
    let flo = if dot < epos {
        dot + 1
    } else {
        iend
    };
    let fhi = if dot < epos {
        epos
    } else {
        iend
    };
    let eneg = epos + 1 < w.len() && w[epos + 1] == 45;
    let elo = if epos < w.len() && epos + 1 < w.len() && (w[epos + 1] == 43 || w[epos + 1]
        == 45) {
        epos + 2
    } else {
        epos + 1
    };
    if !all_digits_r(w, lo, iend) || !all_digits_r(w, flo, fhi) || (iend - lo) + (fhi - flo)
        == 0 || (epos < w.len() && (elo >= w.len() || !all_digits_r(w, elo, w.len() as int))) {
        None
    } else {
        let i = digits_val_r(w, lo, iend);
        if i > pow10(18) {
            None
        } else {
            let k: int = if fhi - flo > 9 {
                9
            } else {
                fhi - flo
            };
            let f = digits_val_r(w, flo, flo + k);
            let mant = i * pow10(k) + f;
            let e: int = if epos >= w.len() {
                0
            } else if eneg {
                -digits_val_r(w, elo, w.len() as int)
            } else {
                digits_val_r(w, elo, w.len() as int)
            };
            let scaled = if e - k >= 0 {
                mant * pow10(e - k) * (SCALE as int)
            } else {
                (mant * (SCALE as int)) / pow10(k - e)
            };
            if scaled > VALUE_CAP {
                None
            } else if neg {
                Some((-scaled) as i64)
            } else {
                Some(scaled as i64)
            }
        }
    }
}

/// What `parse_index` returns on a word: a nonempty all-digit run whose
/// value is at most a billion, or nothing.
pub open spec fn parse_index_spec(w: Seq<u8>) -> Option<usize> {
    if w.len() == 0 || !all_digits_r(w, 0, w.len() as int) {
        None
    } else {
        let i = digits_val_r(w, 0, w.len() as int);
        if i > 1000000000 {
            None
        } else {
            Some(i as usize)
        }
    }
}

/// Appending one digit grows the value tenfold: past any cap it stays
/// past it.
proof fn lemma_digits_grow(s: Seq<u8>, lo: int, hi: int)
    requires
        lo <= hi,
        all_digits_r(s, lo, hi + 1),
    ensures
        digits_val_r(s, lo, hi + 1) >= digits_val_r(s, lo, hi),
        digits_val_r(s, lo, hi) >= 0,
    decreases hi - lo,
{
    if hi <= lo {
    } else {
        lemma_digits_grow(s, lo, hi - 1);
        assert(digits_val_r(s, lo, hi) * 10 >= digits_val_r(s, lo, hi)) by (nonlinear_arith)
            requires
                digits_val_r(s, lo, hi) >= 0,
        ;
    }
}

/// The nonnegativity of a digit run's value.
proof fn lemma_digits_nonneg(s: Seq<u8>, lo: int, hi: int)
    requires
        all_digits_r(s, lo, hi),
    ensures
        digits_val_r(s, lo, hi) >= 0,
    decreases hi - lo,
{
    if hi <= lo {
    } else {
        lemma_digits_nonneg(s, lo, hi - 1);
        assert(digits_val_r(s, lo, hi - 1) * 10 >= 0) by (nonlinear_arith)
            requires
                digits_val_r(s, lo, hi - 1) >= 0,
        ;
    }
}

/// Read the digits of `w` in `[lo, hi)` as a value, reporting a value
/// over the cap as nothing.
fn digits_capped(w: &Vec<u8>, lo: usize, hi: usize, cap: u64) -> (r: Option<u64>)
    requires
        lo <= hi <= w@.len(),
        all_digits_r(w@, lo as int, hi as int),
        cap <= 1_000_000_000_000_000_000,
    ensures
        match r {
            Some(v) => v == digits_val_r(w@, lo as int, hi as int) && v <= cap,
            None => digits_val_r(w@, lo as int, hi as int) > cap,
        },
{
    let mut acc: u64 = 0;
    let mut i: usize = lo;
    let mut big: bool = false;
    while i < hi
        invariant
            lo <= i <= hi <= w@.len(),
            all_digits_r(w@, lo as int, hi as int),
            cap <= 1_000_000_000_000_000_000,
            !big ==> acc == digits_val_r(w@, lo as int, i as int) && acc <= cap,
            big ==> digits_val_r(w@, lo as int, i as int) > cap,
        decreases hi - i,
    {
        let d = w[i];
        proof {
            lemma_digits_nonneg(w@, lo as int, i as int);
            lemma_digits_grow(w@, lo as int, i as int);
        }
        if big {
        } else {
            let next: u64 = acc * 10 + ((d - 48) as u64);
            if next > cap {
                big = true;
            } else {
                acc = next;
            }
        }
        i = i + 1;
    }
    if big {
        None
    } else {
        Some(acc)
    }
}

/// Find the first occurrence of a byte at or after `lo`.
fn find_byte(w: &Vec<u8>, b: u8, lo: usize) -> (r: usize)
    requires
        lo <= w@.len(),
    ensures
        r == find_byte_r(w@, b, lo as int),
        lo <= r <= w@.len(),
    decreases w@.len() - lo,
{
    let mut i: usize = lo;
    while i < w.len()
        invariant
            lo <= i <= w@.len(),
            find_byte_r(w@, b, lo as int) == find_byte_r(w@, b, i as int),
        decreases w@.len() - i,
    {
        if w[i] == b {
            return i;
        }
        i = i + 1;
    }
    i
}

/// Whether the bytes of `w` in `[lo, hi)` are all digits.
fn check_digits(w: &Vec<u8>, lo: usize, hi: usize) -> (r: bool)
    requires
        lo <= hi <= w@.len(),
    ensures
        r == all_digits_r(w@, lo as int, hi as int),
{
    let mut i: usize = lo;
    while i < hi
        invariant
            lo <= i <= hi <= w@.len(),
            all_digits_r(w@, lo as int, i as int),
        decreases hi - i,
    {
        let b = w[i];
        if b < 48 || b > 57 {
            return false;
        }
        i = i + 1;
    }
    true
}

/// Find the first exponent marker at or after `lo`.
fn find_exp(w: &Vec<u8>, b: u8, lo: usize) -> (r: usize)
    requires
        lo <= w@.len(),
    ensures
        r == find_exp_r(w@, lo as int),
        lo <= r <= w@.len(),
{
    let mut i: usize = lo;
    while i < w.len()
        invariant
            lo <= i <= w@.len(),
            find_exp_r(w@, lo as int) == find_exp_r(w@, i as int),
        decreases w@.len() - i,
    {
        if w[i] == 101 || w[i] == 69 {
            return i;
        }
        i = i + 1;
    }
    i
}

/// The powers of ten a negative net exponent divides by.
fn pow10_big(m: usize) -> (r: u128)
    requires
        m <= 33,
    ensures
        r == pow10(m as int),
        r >= 1,
{
    let mut r: u128 = 1;
    let mut i: usize = 0;
    while i < m
        invariant
            i <= m <= 33,
            r == pow10(i as int),
            1 <= r <= 1_000_000_000_000_000_000_000_000_000_000_000,
        decreases m - i,
    {
        proof {
            lemma_pow10_mono(i as int + 1, 33);
            assert(pow10(33) == 1_000_000_000_000_000_000_000_000_000_000_000) by {
                reveal_with_fuel(pow10, 35);
            }
        }
        r = r * 10;
        i = i + 1;
    }
    r
}

/// Parse a decimal word into a fixed-point scalar, exactly as
/// `parse_fixed_spec` states: the float grammar with optional sign,
/// decimal point and exponent, truncated toward zero into the
/// representable range.
#[verifier::rlimit(100)]
pub fn parse_fixed(w: &Vec<u8>) -> (r: Option<i64>)
    ensures
        r == parse_fixed_spec(w@),
        match r {
            Some(v) => iabs(v as int) <= VALUE_CAP,
            None => true,
        },
{
    let n = w.len();
    let lo: usize = if n > 0 && (w[0] == 43 || w[0] == 45) {
        1
    } else {
        0
    };
    let neg = n > 0 && w[0] == 45;
    let epos = find_exp(w, 101, lo);
    let dot = find_byte(w, 46, lo);
    let iend: usize = if dot < epos {
        dot
    } else {
        epos
    };
    let flo: usize = if dot < epos {
        dot + 1
    } else {
        iend
    };
    let fhi: usize = if dot < epos {
        epos
    } else {
        iend
    };
    if !check_digits(w, lo, iend) {
        return None;
    }
    if !check_digits(w, flo, fhi) {
        return None;
    }
    if (iend - lo) + (fhi - flo) == 0 {
        return None;
    }
    let mut eneg = false;
    let mut e_small: u64 = 0;
    let mut e_big = false;
    let mut elo: usize = if epos < n {
        epos + 1
    } else {
        n
    };
    if epos < n {
        if elo < n && (w[elo] == 43 || w[elo] == 45) {
            eneg = w[elo] == 45;
            elo = elo + 1;
        }
        if elo >= n || !check_digits(w, elo, n) {
            return None;
        }
        proof {
            lemma_digits_nonneg(w@, elo as int, n as int);
        }
        match digits_capped(w, elo, n, 9999) {
            Some(v) => {
                e_small = v;
            },
            None => {
                e_big = true;
            },
        }
    }
    proof {
        assert(pow10(18) == 1_000_000_000_000_000_000) by {
            reveal_with_fuel(pow10, 20);
        }
    }
    let iv = match digits_capped(w, lo, iend, 1_000_000_000_000_000_000) {
        Some(v) => v,
        None => {
            return None;
        },
    };
    let k: usize = if fhi - flo > 9 {
        9
    } else {
        fhi - flo
    };
    proof {
        lemma_digits_val_bound(w@, flo as int, flo as int + k);
        lemma_digits_nonneg(w@, lo as int, iend as int);
    }
    let fv = match digits_capped(w, flo, flo + k, 0xFFFF_FFFF) {
        Some(v) => v,
        None => {
            return None;
        },
    };
    let pk = pow10_at(k);
    proof {
        assert((iv as int) * (pk as int) + fv as int
            <= 2_000_000_000_000_000_000_000_000_000 && (iv as int) * (pk as int) >= 0)
            by (nonlinear_arith)
            requires
                0 <= iv as int <= 1_000_000_000_000_000_000,
                1 <= pk as int <= 1_000_000_000,
                0 <= fv as int <= 0xFFFF_FFFF,
        ;
    }
    let mant: u128 = (iv as u128) * (pk as u128) + (fv as u128);
    let ghost gm: int = mant as int;
    if e_big {
        proof {
            let ev = digits_val_r(w@, elo as int, n as int);
            assert(ev > 9999);
            let kk: int = k as int;
            if eneg {
                lemma_tiny_quotient(gm, kk + ev);
            } else {
                if gm == 0 {
                    lemma_zero_mant(pow10(ev - kk));
                } else {
                    lemma_huge_product(gm, ev - kk);
                }
            }
        }
        if eneg {
            return Some(0);
        }
        if mant == 0 {
            return Some(0);
        }
        return None;
    }
    let e_net: i64 = (if eneg {
        -(e_small as i64)
    } else {
        e_small as i64
    }) - (k as i64);
    if e_net >= 0 {
        if mant == 0 {
            proof {
                lemma_zero_mant(pow10(e_net as int));
            }
            return Some(0);
        }
        if e_net > 8 {
            proof {
                lemma_huge_product(gm, e_net as int);
            }
            return None;
        }
        let p = pow10_at(e_net as usize);
        proof {
            assert(gm * (p as int) <= 2_000_000_000_000_000_000_000_000_000
                * 1_000_000_000 && gm * (p as int) >= 0) by (nonlinear_arith)
                requires
                    0 <= gm <= 2_000_000_000_000_000_000_000_000_000,
                    1 <= p as int <= 1_000_000_000,
            ;
        }
        let mp: u128 = mant * (p as u128);
        if mp > 0x1000_0000 {
            proof {
                assert(gm * (p as int) * 65536 > 0x1000_0000_0000) by (nonlinear_arith)
                    requires
                        gm * (p as int) > 0x1000_0000,
                ;
            }
            return None;
        }
        let scaled: u64 = (mp as u64) * 65536;
        proof {
            assert(gm * (p as int) * 65536 == (mp as int) * 65536) by (nonlinear_arith)
                requires
                    mp as int == gm * (p as int),
            ;
        }
        if neg {
            Some(-(scaled as i64))
        } else {
            Some(scaled as i64)
        }
    } else {
        let m: usize = (-e_net) as usize;
        if m > 33 {
            proof {
                lemma_tiny_quotient(gm, m as int);
            }
            return Some(0);
        }
        let pm = pow10_big(m);
        proof {
            assert(gm * 65536 <= 2_000_000_000_000_000_000_000_000_000 * 65536 && gm * 65536
                >= 0) by (nonlinear_arith)
                requires
                    0 <= gm <= 2_000_000_000_000_000_000_000_000_000,
            ;
            vstd::arithmetic::div_mod::lemma_div_pos_is_pos(gm * 65536, pm as int);
        }
        let scaled: u128 = mant * 65536 / pm;
        if scaled > 0x1000_0000_0000 {
            return None;
        }
        if neg {
            Some(-(scaled as i64))
        } else {
            Some(scaled as i64)
        }
    }
}

/// The exponent-digit region the grammar reads.
pub open spec fn spec_elo(w: Seq<u8>) -> int {
    let lo: int = if w.len() > 0 && (w[0] == 43 || w[0] == 45) {
        1
    } else {
        0
    };
    let epos = find_exp_r(w, lo);
    if epos < w.len() && epos + 1 < w.len() && (w[epos + 1] == 43 || w[epos + 1] == 45) {
        epos + 2
    } else {
        epos + 1
    }
}

/// A bounded mantissa divided by at least ten to the thirty-fourth
/// truncates to zero.
proof fn lemma_tiny_quotient(mant: int, m: int)
    requires
        0 <= mant <= 2_000_000_000_000_000_000_000_000_000,
        m >= 34,
    ensures
        (mant * 65536) / pow10(m) == 0,
{
    assert(pow10(34) == 10_000_000_000_000_000_000_000_000_000_000_000) by {
        reveal_with_fuel(pow10, 36);
    }
    lemma_pow10_mono(34, m);
    assert(mant * 65536 < pow10(34)) by (nonlinear_arith)
        requires
            0 <= mant <= 2_000_000_000_000_000_000_000_000_000,
            pow10(34) == 10_000_000_000_000_000_000_000_000_000_000_000,
    ;
    vstd::arithmetic::div_mod::lemma_basic_div(mant * 65536, pow10(m));
}

/// A zero mantissa scales to zero whatever the exponent.
proof fn lemma_zero_mant(p: int)
    ensures
        0int * p * 65536 == 0,
{
    assert(0int * p * 65536 == 0) by (nonlinear_arith);
}

/// A positive mantissa with a net exponent of at least nine scales past
/// the representable cap.
proof fn lemma_huge_product(mant: int, e: int)
    requires
        mant >= 1,
        e >= 9,
    ensures
        mant * pow10(e) * 65536 > VALUE_CAP,
{
    lemma_pow10_mono(9, e);
    assert(pow10(9) == 1_000_000_000) by {
        reveal_with_fuel(pow10, 11);
    }
    assert(mant * pow10(e) * 65536 >= pow10(e) * 65536) by (nonlinear_arith)
        requires
            mant >= 1,
            pow10(e) >= 1,
    ;
    assert(pow10(e) * 65536 >= 1_000_000_000 * 65536) by (nonlinear_arith)
        requires
            pow10(e) >= 1_000_000_000,
    ;
}

/// Nine digits stay under a billion times four.
proof fn lemma_digits_val_bound(s: Seq<u8>, lo: int, hi: int)
    requires
        all_digits_r(s, lo, hi),
        hi - lo <= 9,
    ensures
        digits_val_r(s, lo, hi) <= 0x3B9A_C9FF,
        digits_val_r(s, lo, hi) < pow10(hi - lo),
    decreases hi - lo,
{
    if hi <= lo {
    } else {
        lemma_digits_val_bound(s, lo, hi - 1);
        assert(digits_val_r(s, lo, hi - 1) * 10 + (s[hi - 1] - 48) < pow10(hi - lo))
            by (nonlinear_arith)
            requires
                digits_val_r(s, lo, hi - 1) < pow10(hi - 1 - lo),
                48 <= s[hi - 1] <= 57,
                pow10(hi - lo) == 10 * pow10(hi - 1 - lo),
        ;
        assert(pow10(hi - lo) <= pow10(9)) by {
            lemma_pow10_mono(hi - lo, 9);
        }
        assert(pow10(9) == 1000000000) by {
            reveal_with_fuel(pow10, 11);
        }
    }
}

proof fn lemma_pow10_pos(k: int)
    ensures
        pow10(k) >= 1,
    decreases k,
{
    if k > 0 {
        lemma_pow10_pos(k - 1);
        assert(10 * pow10(k - 1) >= pow10(k - 1)) by (nonlinear_arith)
            requires
                pow10(k - 1) >= 1,
        ;
    }
}

proof fn lemma_pow10_mono(a: int, b: int)
    requires
        a <= b,
    ensures
        pow10(a) <= pow10(b),
    decreases b - a,
{
    if a < b {
        lemma_pow10_mono(a, b - 1);
        lemma_pow10_pos(b - 1);
        assert(10 * pow10(b - 1) >= pow10(b - 1)) by (nonlinear_arith)
            requires
                pow10(b - 1) >= 1,
        ;
    }
}

/// The powers of ten an exec parse divides by.
fn pow10_at(k: usize) -> (r: u64)
    requires
        k <= 9,
    ensures
        r == pow10(k as int),
        1 <= r <= 1_000_000_000,
{
    let mut r: u64 = 1;
    let mut i: usize = 0;
    while i < k
        invariant
            i <= k <= 9,
            r == pow10(i as int),
            1 <= r <= 1000000000,
        decreases k - i,
    {
        proof {
            lemma_pow10_mono(i as int + 1, 9);
            assert(pow10(9) == 1000000000) by {
                reveal_with_fuel(pow10, 11);
            }
        }
        r = r * 10;
        i = i + 1;
    }
    r
}

/// Parse a face-reference index, exactly as `parse_index_spec` states.
pub fn parse_index(w: &Vec<u8>) -> (r: Option<usize>)
    ensures
        r == parse_index_spec(w@),
{
    if w.len() == 0 || !check_digits(w, 0, w.len()) {
        return None;
    }
    match digits_capped(w, 0, w.len(), 1000000000) {
        None => None,
        Some(i) => Some(i as usize),
    }
}


/// A parsed material definition: what the material library states before
/// any texture file is decoded. The texture, if named, is kept as the
/// path written in the library.
#[derive(Debug)]
pub struct MtlDef {
    pub name: Vec<u8>,
    pub diffuse: Colour,
    pub texture_path: Option<Vec<u8>>,
}

/// The ghost image of a material definition.
pub struct MtlDefModel {
    pub name: Seq<u8>,
    pub diffuse: Colour,
    pub texture_path: Option<Seq<u8>>,
}

/// The ghost image of an exec material definition.
pub open spec fn def_model(d: MtlDef) -> MtlDefModel {
    MtlDefModel {
        name: d.name@,
        diffuse: d.diffuse,
        texture_path: match d.texture_path {
            Some(p) => Some(p@),
            None => None,
        },
    }
}

/// The ghost images of a sequence of definitions.
pub open spec fn defs_model(s: Seq<MtlDef>) -> Seq<MtlDefModel> {
    s.map_values(|d: MtlDef| def_model(d))
}

/// A colour channel from a scalar: clamped into the unit range, scaled
/// onto a byte, truncated.
pub open spec fn channel_byte(v: int) -> u8 {
    ((crate::fixed::clamp_unit(v) * 255) / (SCALE as int)) as u8
}

/// Compute a colour channel from a scalar.
fn channel_of(v: i64) -> (r: u8)
    ensures
        r == channel_byte(v as int),
{
    let c = crate::fixed::clamp_unit_of(v);
    proof {
        assert(0 <= c as int * 255 <= 65536 * 255) by (nonlinear_arith)
            requires
                0 <= c as int <= 65536,
        ;
        vstd::arithmetic::div_mod::lemma_multiply_divide_le(c as int * 255, 65536, 255);
        vstd::arithmetic::div_mod::lemma_div_pos_is_pos(c as int * 255, 65536);
    }
    ((c as u64) * 255 / 65536) as u8
}

/// The in-progress state of a material-library parse: the finished
/// definitions and the one being built.
pub struct MtlState {
    pub defs: Seq<MtlDefModel>,
    pub cur: Option<MtlDefModel>,
}

/// Keywords of the two formats.
pub open spec fn kw_newmtl() -> Seq<u8> {
    seq![110u8, 101u8, 119u8, 109u8, 116u8, 108u8]
}

pub open spec fn kw_kd() -> Seq<u8> {
    seq![75u8, 100u8]
}

pub open spec fn kw_d() -> Seq<u8> {
    seq![100u8]
}

pub open spec fn kw_map_kd() -> Seq<u8> {
    seq![109u8, 97u8, 112u8, 95u8, 75u8, 100u8]
}

pub open spec fn kw_v() -> Seq<u8> {
    seq![118u8]
}

pub open spec fn kw_vt() -> Seq<u8> {
    seq![118u8, 116u8]
}

pub open spec fn kw_vn() -> Seq<u8> {
    seq![118u8, 110u8]
}

pub open spec fn kw_f() -> Seq<u8> {
    seq![102u8]
}

pub open spec fn kw_mtllib() -> Seq<u8> {
    seq![109u8, 116u8, 108u8, 108u8, 105u8, 98u8]
}

pub open spec fn kw_usemtl() -> Seq<u8> {
    seq![117u8, 115u8, 101u8, 109u8, 116u8, 108u8]
}

/// A line is skipped: blank, or its first token opens a comment.
pub open spec fn line_skipped(ws: Seq<Seq<u8>>) -> bool {
    ws.len() == 0 || (ws[0].len() > 0 && ws[0][0] == 35)
}

/// One line of a material library applied to the parse state.
pub open spec fn mtl_step(st: MtlState, line: Seq<u8>) -> Result<MtlState, LoadError> {
    let ws = words_of(line);
    if line_skipped(ws) {
        Ok(st)
    } else if ws[0] == kw_newmtl() {
        if ws.len() != 2 {
            Err(LoadError::MalformedRecord)
        } else {
            Ok(
                MtlState {
                    defs: match st.cur {
                        Some(c) => st.defs + seq![c],
                        None => st.defs,
                    },
                    cur: Some(
                        MtlDefModel {
                            name: ws[1],
                            diffuse: Colour { red: 255, green: 255, blue: 255, alpha: 255 },
                            texture_path: None,
                        },
                    ),
                },
            )
        }
    } else if ws[0] == kw_kd() {
        match st.cur {
            None => Err(LoadError::MaterialBeforeDeclaration),
            Some(c) => if ws.len() != 4 {
                Err(LoadError::MalformedRecord)
            } else {
                match (parse_fixed_spec(ws[1]), parse_fixed_spec(ws[2]), parse_fixed_spec(ws[3])) {
                    (Some(r), Some(g), Some(b)) => Ok(
                        MtlState {
                            defs: st.defs,
                            cur: Some(
                                MtlDefModel {
                                    name: c.name,
                                    diffuse: Colour {
                                        red: channel_byte(r as int),
                                        green: channel_byte(g as int),
                                        blue: channel_byte(b as int),
                                        alpha: c.diffuse.alpha,
                                    },
                                    texture_path: c.texture_path,
                                },
                            ),
                        },
                    ),
                    _ => Err(LoadError::MalformedRecord),
                }
            },
        }
    } else if ws[0] == kw_d() {
        match st.cur {
            None => Err(LoadError::MaterialBeforeDeclaration),
            Some(c) => if ws.len() != 2 {
                Err(LoadError::MalformedRecord)
            } else {
                match parse_fixed_spec(ws[1]) {
                    Some(a) => Ok(
                        MtlState {
                            defs: st.defs,
                            cur: Some(
                                MtlDefModel {
                                    name: c.name,
                                    diffuse: Colour {
                                        red: c.diffuse.red,
                                        green: c.diffuse.green,
                                        blue: c.diffuse.blue,
                                        alpha: channel_byte(a as int),
                                    },
                                    texture_path: c.texture_path,
                                },
                            ),
                        },
                    ),
                    None => Err(LoadError::MalformedRecord),
                }
            },
        }
    } else if ws[0] == kw_map_kd() {
        match st.cur {
            None => Err(LoadError::MaterialBeforeDeclaration),
            Some(c) => if ws.len() != 2 {
                Err(LoadError::MalformedRecord)
            } else {
                Ok(
                    MtlState {
                        defs: st.defs,
                        cur: Some(
                            MtlDefModel {
                                name: c.name,
                                diffuse: c.diffuse,
                                texture_path: Some(ws[1]),
                            },
                        ),
                    },
                )
            },
        }
    } else {
        Ok(st)
    }
}

/// The fold of `mtl_step` over the remaining lines.
pub open spec fn mtl_fold(lines: Seq<Seq<u8>>, st: MtlState) -> Result<MtlState, LoadError>
    decreases lines.len(),
{
    if lines.len() == 0 {
        Ok(st)
    } else {
        match mtl_step(st, lines[0]) {
            Err(e) => Err(e),
            Ok(st2) => mtl_fold(lines.skip(1), st2),
        }
    }
}

/// What parsing a whole material library yields: the folded definitions
/// with the final in-progress one flushed.
pub open spec fn mtl_parse_spec(text: Seq<u8>) -> Result<Seq<MtlDefModel>, LoadError> {
    match mtl_fold(lines_of(text), MtlState { defs: Seq::empty(), cur: None }) {
        Err(e) => Err(e),
        Ok(st) => Ok(
            match st.cur {
                Some(c) => st.defs + seq![c],
                None => st.defs,
            },
        ),
    }
}

/// Whether a word equals a one-byte keyword.
fn word_is1(w: &Vec<u8>, b0: u8) -> (r: bool)
    ensures
        r == (w@ == seq![b0]),
{
    let r = w.len() == 1 && w[0] == b0;
    proof {
        if r {
            assert(w@ =~= seq![b0]);
        } else {
            assert(w@ != seq![b0]) by {
                if w@.len() == 1 {
                    assert(w@[0] != seq![b0][0]);
                }
            }
        }
    }
    r
}

/// Whether a word equals a two-byte keyword.
fn word_is2(w: &Vec<u8>, b0: u8, b1: u8) -> (r: bool)
    ensures
        r == (w@ == seq![b0, b1]),
{
    let r = w.len() == 2 && w[0] == b0 && w[1] == b1;
    proof {
        if r {
            assert(w@ =~= seq![b0, b1]);
        } else {
            assert(w@ != seq![b0, b1]) by {
                if w@.len() == 2 {
                    assert(w@[0] != seq![b0, b1][0] || w@[1] != seq![b0, b1][1]);
                }
            }
        }
    }
    r
}

/// Whether a word equals a six-byte keyword.
fn word_is6(w: &Vec<u8>, b0: u8, b1: u8, b2: u8, b3: u8, b4: u8, b5: u8) -> (r: bool)
    ensures
        r == (w@ == seq![b0, b1, b2, b3, b4, b5]),
{
    let r = w.len() == 6 && w[0] == b0 && w[1] == b1 && w[2] == b2 && w[3] == b3 && w[4] == b4
        && w[5] == b5;
    proof {
        if r {
            assert(w@ =~= seq![b0, b1, b2, b3, b4, b5]);
        } else {
            assert(w@ != seq![b0, b1, b2, b3, b4, b5]) by {
                if w@.len() == 6 {
                    let p = seq![b0, b1, b2, b3, b4, b5];
                    assert(w@[0] != p[0] || w@[1] != p[1] || w@[2] != p[2] || w@[3] != p[3]
                        || w@[4] != p[4] || w@[5] != p[5]);
                }
            }
        }
    }
    r
}

/// The ghost image of the exec in-progress definition.
pub open spec fn opt_def_model(c: Option<MtlDef>) -> Option<MtlDefModel> {
    match c {
        Some(d) => Some(def_model(d)),
        None => None,
    }
}

/// Copy a word into an owned byte vector.
fn copy_word(w: &Vec<u8>) -> (r: Vec<u8>)
    ensures
        r@ == w@,
{
    let mut r: Vec<u8> = Vec::new();
    let mut bi: usize = 0;
    while bi < w.len()
        invariant
            bi <= w@.len(),
            r@ == w@.subrange(0, bi as int),
        decreases w@.len() - bi,
    {
        r.push(w[bi]);
        proof {
            assert(r@ =~= w@.subrange(0, bi + 1));
        }
        bi = bi + 1;
    }
    proof {
        assert(r@ =~= w@);
    }
    r
}

/// Parse a material library. The result is exactly what
/// `mtl_parse_spec` states of the text, definition for definition.
pub fn parse_material_lib(text: &Vec<u8>) -> (r: Result<Vec<MtlDef>, LoadError>)
    ensures
        match r {
            Ok(defs) => mtl_parse_spec(text@) == Ok::<_, LoadError>(defs_model(defs@)),
            Err(e) => mtl_parse_spec(text@) == Err::<Seq<MtlDefModel>, _>(e),
        },
{
    let lines = split_lines(text);
    let ghost lmodel = lines_of(text@);
    let mut defs: Vec<MtlDef> = Vec::new();
    let mut cur: Option<MtlDef> = None;
    let mut li: usize = 0;
    proof {
        assert(defs_model(defs@) =~= Seq::<MtlDefModel>::empty());
        assert(lmodel.skip(0) =~= lmodel);
    }
    while li < lines.len()
        invariant
            li <= lines@.len(),
            views_match(lines@, lmodel),
            lmodel == lines_of(text@),
            mtl_fold(lmodel, MtlState { defs: Seq::empty(), cur: None }) == mtl_fold(
                lmodel.skip(li as int),
                MtlState { defs: defs_model(defs@), cur: opt_def_model(cur) },
            ),
        decreases lines@.len() - li,
    {
        let ghost st = MtlState { defs: defs_model(defs@), cur: opt_def_model(cur) };
        let line = &lines[li];
        let ws = split_words(line);
        proof {
            assert(lmodel.skip(li as int)[0] == line@);
            assert(lmodel.skip(li as int).skip(1) =~= lmodel.skip(li as int + 1));
        }
        let skip = ws.len() == 0 || (ws[0].len() > 0 && ws[0][0] == 35);
        if skip {
            proof {
                assert(mtl_step(st, line@) == Ok::<_, LoadError>(st));
            }
        } else if word_is6(&ws[0], 110, 101, 119, 109, 116, 108) {
            if ws.len() != 2 {
                proof {
                    lemma_mtl_fold_err(lmodel, li as int, st, LoadError::MalformedRecord, line@);
                }
                return Err(LoadError::MalformedRecord);
            }
            let ghost olddefs = defs@;
            match cur {
                Some(c) => defs.push(c),
                None => (),
            }
            let name = copy_word(&ws[1]);
            cur = Some(
                MtlDef {
                    name,
                    diffuse: Colour { red: 255, green: 255, blue: 255, alpha: 255 },
                    texture_path: None,
                },
            );
            proof {
                match st.cur {
                    Some(c) => {
                        assert(defs_model(defs@) =~= defs_model(olddefs) + seq![c]);
                    },
                    None => {},
                }
                assert(mtl_step(st, line@) == Ok::<_, LoadError>(
                    MtlState { defs: defs_model(defs@), cur: opt_def_model(cur) },
                ));
            }
        } else if word_is2(&ws[0], 75, 100) {
            if cur.is_none() {
                proof {
                    lemma_mtl_fold_err(
                        lmodel,
                        li as int,
                        st,
                        LoadError::MaterialBeforeDeclaration,
                        line@,
                    );
                }
                return Err(LoadError::MaterialBeforeDeclaration);
            }
            if ws.len() != 4 {
                proof {
                    lemma_mtl_fold_err(lmodel, li as int, st, LoadError::MalformedRecord, line@);
                }
                return Err(LoadError::MalformedRecord);
            }
            let pr = parse_fixed(&ws[1]);
            let pg = parse_fixed(&ws[2]);
            let pb = parse_fixed(&ws[3]);
            if pr.is_none() || pg.is_none() || pb.is_none() {
                proof {
                    lemma_mtl_fold_err(lmodel, li as int, st, LoadError::MalformedRecord, line@);
                }
                return Err(LoadError::MalformedRecord);
            }
            let red = channel_of(pr.unwrap());
            let green = channel_of(pg.unwrap());
            let blue = channel_of(pb.unwrap());
            let c = cur.unwrap();
            let alpha = c.diffuse.alpha;
            cur = Some(
                MtlDef {
                    name: c.name,
                    diffuse: Colour { red, green, blue, alpha },
                    texture_path: c.texture_path,
                },
            );
            proof {
                assert(mtl_step(st, line@) == Ok::<_, LoadError>(
                    MtlState { defs: defs_model(defs@), cur: opt_def_model(cur) },
                ));
            }
        } else if word_is1(&ws[0], 100) {
            if cur.is_none() {
                proof {
                    lemma_mtl_fold_err(
                        lmodel,
                        li as int,
                        st,
                        LoadError::MaterialBeforeDeclaration,
                        line@,
                    );
                }
                return Err(LoadError::MaterialBeforeDeclaration);
            }
            if ws.len() != 2 {
                proof {
                    lemma_mtl_fold_err(lmodel, li as int, st, LoadError::MalformedRecord, line@);
                }
                return Err(LoadError::MalformedRecord);
            }
            let pa = parse_fixed(&ws[1]);
            if pa.is_none() {
                proof {
                    lemma_mtl_fold_err(lmodel, li as int, st, LoadError::MalformedRecord, line@);
                }
                return Err(LoadError::MalformedRecord);
            }
            let alpha = channel_of(pa.unwrap());
            let c = cur.unwrap();
            cur = Some(
                MtlDef {
                    name: c.name,
                    diffuse: Colour {
                        red: c.diffuse.red,
                        green: c.diffuse.green,
                        blue: c.diffuse.blue,
                        alpha,
                    },
                    texture_path: c.texture_path,
                },
            );
            proof {
                assert(mtl_step(st, line@) == Ok::<_, LoadError>(
                    MtlState { defs: defs_model(defs@), cur: opt_def_model(cur) },
                ));
            }
        } else if word_is6(&ws[0], 109, 97, 112, 95, 75, 100) {
            if cur.is_none() {
                proof {
                    lemma_mtl_fold_err(
                        lmodel,
                        li as int,
                        st,
                        LoadError::MaterialBeforeDeclaration,
                        line@,
                    );
                }
                return Err(LoadError::MaterialBeforeDeclaration);
            }
            if ws.len() != 2 {
                proof {
                    lemma_mtl_fold_err(lmodel, li as int, st, LoadError::MalformedRecord, line@);
                }
                return Err(LoadError::MalformedRecord);
            }
            let path = copy_word(&ws[1]);
            let c = cur.unwrap();
            cur = Some(MtlDef { name: c.name, diffuse: c.diffuse, texture_path: Some(path) });
            proof {
                assert(mtl_step(st, line@) == Ok::<_, LoadError>(
                    MtlState { defs: defs_model(defs@), cur: opt_def_model(cur) },
                ));
            }
        } else {
            proof {
                assert(mtl_step(st, line@) == Ok::<_, LoadError>(st));
            }
        }
        li = li + 1;
    }
    proof {
        assert(lmodel.skip(li as int) =~= Seq::<Seq<u8>>::empty());
    }
    let ghost olddefs = defs@;
    let ghost oldcur = opt_def_model(cur);
    match cur {
        Some(c) => {
            defs.push(c);
            proof {
                assert(defs_model(defs@) =~= defs_model(olddefs) + seq![oldcur->Some_0]);
            }
        },
        None => (),
    }
    Ok(defs)
}

/// A step error makes the whole remaining fold that error.
proof fn lemma_mtl_fold_err(lmodel: Seq<Seq<u8>>, li: int, st: MtlState, e: LoadError, line: Seq<u8>)
    requires
        0 <= li < lmodel.len(),
        lmodel.skip(li)[0] == line,
        mtl_step(st, line) == Err::<MtlState, _>(e),
    ensures
        mtl_fold(lmodel.skip(li), st) == Err::<MtlState, _>(e),
{
    assert(lmodel.skip(li).len() > 0);
}

/// The finished-definition list after a `newmtl` step (a helper shape for
/// the parser's proof).
pub open spec fn mtl_step_defs(st: MtlState, line: Seq<u8>) -> Seq<MtlDefModel> {
    match st.cur {
        Some(c) => st.defs + seq![c],
        None => st.defs,
    }
}


/// The ghost image of a texture.
pub struct TextureModel {
    pub width: usize,
    pub height: usize,
    pub data: Seq<Colour>,
}

/// The ghost image of a material.
pub struct MaterialModel {
    pub name: Seq<u8>,
    pub diffuse: Colour,
    pub texture: Option<TextureModel>,
}

/// The ghost image of an exec texture.
pub open spec fn texture_model(t: crate::texture::Texture) -> TextureModel {
    TextureModel { width: t.width, height: t.height, data: t.data@ }
}

/// The ghost image of an exec material.
pub open spec fn material_model(m: crate::material::Material) -> MaterialModel {
    MaterialModel {
        name: m.name@,
        diffuse: m.diffuse,
        texture: match m.kd_texture {
            Some(t) => Some(texture_model(t)),
            None => None,
        },
    }
}

/// The ghost images of a material table.
pub open spec fn materials_model(s: Seq<crate::material::Material>) -> Seq<MaterialModel> {
    s.map_values(|m: crate::material::Material| material_model(m))
}

/// The ghost images of the supplied material libraries.
pub open spec fn libs_model(s: Seq<Vec<crate::material::Material>>) -> Seq<Seq<MaterialModel>> {
    s.map_values(|v: Vec<crate::material::Material>| materials_model(v@))
}

/// The parse-index value of the digits of `w` in `[lo, hi)`, or nothing.
pub open spec fn parse_index_r(w: Seq<u8>, lo: int, hi: int) -> Option<usize> {
    if hi <= lo || !all_digits_r(w, lo, hi) {
        None
    } else {
        let i = digits_val_r(w, lo, hi);
        if i > 1000000000 {
            None
        } else {
            Some(i as usize)
        }
    }
}

/// Parse the digits of `w` in `[lo, hi)` as a face-reference index.
fn parse_index_at(w: &Vec<u8>, lo: usize, hi: usize) -> (r: Option<usize>)
    requires
        lo <= hi <= w@.len(),
    ensures
        r == parse_index_r(w@, lo as int, hi as int),
{
    if hi <= lo || !check_digits(w, lo, hi) {
        return None;
    }
    match digits_capped(w, lo, hi, 1000000000) {
        None => None,
        Some(i) => Some(i as usize),
    }
}

/// The first position of a key in the dedup table at or after `i`.
pub open spec fn find_key_from(keys: Seq<(usize, usize, usize)>, k: (usize, usize, usize), i: int) -> Option<int>
    decreases keys.len() - i,
{
    if i >= keys.len() {
        None
    } else if keys[i] == k {
        Some(i)
    } else {
        find_key_from(keys, k, i + 1)
    }
}

/// Look a composite key up in the dedup table.
fn find_key(keys: &Vec<(usize, usize, usize)>, k: (usize, usize, usize)) -> (r: Option<usize>)
    ensures
        match r {
            Some(i) => find_key_from(keys@, k, 0) == Some(i as int),
            None => find_key_from(keys@, k, 0) is None,
        },
{
    let mut i: usize = 0;
    while i < keys.len()
        invariant
            i <= keys@.len(),
            find_key_from(keys@, k, 0) == find_key_from(keys@, k, i as int),
        decreases keys@.len() - i,
    {
        let (a, b, c) = keys[i];
        if a == k.0 && b == k.1 && c == k.2 {
            return Some(i);
        }
        i = i + 1;
    }
    None
}

/// The last material whose name matches, if any: a later declaration
/// shadows an earlier one of the same name.
pub open spec fn find_mat_last(mats: Seq<MaterialModel>, name: Seq<u8>) -> Option<int>
    decreases mats.len(),
{
    if mats.len() == 0 {
        None
    } else if mats.last().name == name {
        Some(mats.len() - 1)
    } else {
        find_mat_last(mats.drop_last(), name)
    }
}

/// Whether two byte vectors hold the same bytes.
fn eq_bytes(a: &Vec<u8>, b: &Vec<u8>) -> (r: bool)
    ensures
        r == (a@ == b@),
{
    if a.len() != b.len() {
        return false;
    }
    let mut i: usize = 0;
    while i < a.len()
        invariant
            i <= a@.len(),
            a@.len() == b@.len(),
            forall|k: int| 0 <= k < i ==> a@[k] == b@[k],
        decreases a@.len() - i,
    {
        if a[i] != b[i] {
            return false;
        }
        i = i + 1;
    }
    proof {
        assert(a@ =~= b@);
    }
    true
}

/// Find the last material of a table matching a name.
fn find_material(mats: &Vec<crate::material::Material>, name: &Vec<u8>) -> (r: Option<usize>)
    ensures
        match r {
            Some(i) => find_mat_last(materials_model(mats@), name@) == Some(i as int),
            None => find_mat_last(materials_model(mats@), name@) is None,
        },
{
    let mut k: usize = mats.len();
    proof {
        assert(materials_model(mats@).take(mats@.len() as int) =~= materials_model(mats@));
    }
    while k > 0
        invariant
            k <= mats@.len(),
            find_mat_last(materials_model(mats@), name@) == find_mat_last(
                materials_model(mats@).take(k as int),
                name@,
            ),
        decreases k,
    {
        k = k - 1;
        if eq_bytes(&mats[k].name, name) {
            proof {
                assert(materials_model(mats@).take(k as int + 1).last() == material_model(
                    mats@[k as int],
                ));
            }
            return Some(k);
        }
        proof {
            assert(materials_model(mats@).take(k as int + 1).last() == material_model(
                mats@[k as int],
            ));
            assert(materials_model(mats@).take(k as int + 1).drop_last() =~= materials_model(
                mats@,
            ).take(k as int));
        }
    }
    proof {
        assert(materials_model(mats@).take(0) =~= Seq::<MaterialModel>::empty());
    }
    None
}

/// The whole parse state of the model format.
pub struct ObjState {
    pub positions: Seq<(i64, i64, i64)>,
    pub uvs: Seq<(i64, i64)>,
    pub normals: Seq<(i64, i64, i64)>,
    pub keys: Seq<(usize, usize, usize)>,
    pub vertices: Seq<crate::vertex::Vertex>,
    pub triangles: Seq<crate::triangle::Triangle>,
    pub materials: Seq<MaterialModel>,
    pub current: usize,
    pub libs_used: int,
}

/// The state a parse starts from: no geometry and one default material,
/// fully opaque white with no texture.
pub open spec fn obj_init() -> ObjState {
    ObjState {
        positions: Seq::empty(),
        uvs: Seq::empty(),
        normals: Seq::empty(),
        keys: Seq::empty(),
        vertices: Seq::empty(),
        triangles: Seq::empty(),
        materials: seq![
            MaterialModel {
                name: Seq::empty(),
                diffuse: Colour { red: 255, green: 255, blue: 255, alpha: 255 },
                texture: None,
            },
        ],
        current: 0,
        libs_used: 0,
    }
}

/// Resolve one `position/uv/normal` reference of a face: the word must
/// be three slash-separated indices, one-based and in range; the first
/// sighting of a composite key appends a vertex built from the
/// referenced position and flipped texture coordinate, a repeat reuses
/// the vertex it made.
pub open spec fn add_ref_spec(st: ObjState, w: Seq<u8>) -> Result<(ObjState, usize), LoadError> {
    let d1 = find_byte_r(w, 47, 0);
    let d2 = if d1 < w.len() {
        find_byte_r(w, 47, d1 + 1)
    } else {
        w.len() as int
    };
    let d3 = if d2 < w.len() {
        find_byte_r(w, 47, d2 + 1)
    } else {
        w.len() as int
    };
    if d1 == w.len() || d2 == w.len() || d3 != w.len() {
        Err(LoadError::MalformedRecord)
    } else {
        match (
            parse_index_r(w, 0, d1),
            parse_index_r(w, d1 + 1, d2),
            parse_index_r(w, d2 + 1, w.len() as int),
        ) {
            (Some(p), Some(t), Some(n)) => {
                if p == 0 || p > st.positions.len() || t == 0 || t > st.uvs.len() || n == 0 || n
                    > st.normals.len() {
                    Err(LoadError::IndexOutOfRange)
                } else {
                    let key = (((p - 1) as usize), ((t - 1) as usize), ((n - 1) as usize));
                    match find_key_from(st.keys, key, 0) {
                        Some(i) => Ok((st, i as usize)),
                        None => {
                            let pos = st.positions[p - 1];
                            let uv = st.uvs[t - 1];
                            let vertex = crate::vertex::Vertex {
                                x: pos.0,
                                y: pos.1,
                                z: pos.2,
                                u: uv.0,
                                v: uv.1,
                            };
                            Ok(
                                (
                                    ObjState {
                                        keys: st.keys + seq![key],
                                        vertices: st.vertices + seq![vertex],
                                        ..st
                                    },
                                    st.vertices.len() as usize,
                                ),
                            )
                        },
                    }
                }
            },
            _ => Err(LoadError::MalformedRecord),
        }
    }
}


/// A well-formed ghost material: any texture has matching dimensions.
pub open spec fn mat_model_wf(m: MaterialModel) -> bool {
    match m.texture {
        Some(t) => 1 <= t.width <= 32768 && 1 <= t.height <= 32768 && t.data.len() == t.width
            * t.height,
        None => true,
    }
}

/// All materials of all supplied libraries are well formed.
pub open spec fn libs_wf(libs: Seq<Seq<MaterialModel>>) -> bool {
    forall|i: int, k: int|
        0 <= i < libs.len() && 0 <= k < libs[i].len() ==> mat_model_wf(#[trigger] libs[i][k])
}

/// The parse state's own invariant: one vertex per distinct key, every
/// triangle and the current material in range, every scalar bounded, and
/// every material well formed.
pub open spec fn st_wf(st: ObjState) -> bool {
    &&& st.keys.len() == st.vertices.len()
    &&& st.materials.len() >= 1
    &&& st.current < st.materials.len()
    &&& 0 <= st.libs_used
    &&& forall|k: int|
        0 <= k < st.triangles.len() ==> crate::triangle::triangle_in_bounds(
            #[trigger] st.triangles[k],
            st.vertices.len() as int,
            st.materials.len() as int,
        )
    &&& forall|k: int|
        0 <= k < st.positions.len() ==> iabs((#[trigger] st.positions[k]).0 as int)
            <= 0x1000_0000_0000 && iabs(st.positions[k].1 as int) <= 0x1000_0000_0000 && iabs(
            st.positions[k].2 as int,
        ) <= 0x1000_0000_0000
    &&& forall|k: int|
        0 <= k < st.uvs.len() ==> iabs((#[trigger] st.uvs[k]).0 as int) <= 0x2000_0000_0000 && iabs(
            st.uvs[k].1 as int,
        ) <= 0x2000_0000_0000
    &&& forall|k: int|
        0 <= k < st.vertices.len() ==> crate::vertex::coords_bounded(
            #[trigger] st.vertices[k],
            0x1000_0000_0000,
        ) && iabs(st.vertices[k].u as int) <= 0x2000_0000_0000 && iabs(
            st.vertices[k].v as int,
        ) <= 0x2000_0000_0000
    &&& forall|i: int, j: int|
        0 <= i < j < st.keys.len() ==> #[trigger] st.keys[i] != #[trigger] st.keys[j]
    &&& forall|k: int|
        0 <= k < st.materials.len() ==> mat_model_wf(#[trigger] st.materials[k])
}

/// A key the search missed is in the table nowhere.
proof fn lemma_find_key_none(keys: Seq<(usize, usize, usize)>, k: (usize, usize, usize), i: int)
    requires
        0 <= i <= keys.len(),
        find_key_from(keys, k, i) is None,
    ensures
        forall|j: int| i <= j < keys.len() ==> keys[j] != k,
    decreases keys.len() - i,
{
    if i < keys.len() {
        lemma_find_key_none(keys, k, i + 1);
    }
}

/// A found material index lies in the table.
proof fn lemma_find_mat_range(mats: Seq<MaterialModel>, name: Seq<u8>)
    ensures
        match find_mat_last(mats, name) {
            Some(i) => 0 <= i < mats.len(),
            None => true,
        },
    decreases mats.len(),
{
    if mats.len() > 0 {
        lemma_find_mat_range(mats.drop_last(), name);
    }
}

/// One line of the model format applied to the parse state.
#[verifier::opaque]
pub open spec fn obj_step(st: ObjState, line: Seq<u8>, libs: Seq<Seq<MaterialModel>>) -> Result<
    ObjState,
    LoadError,
> {
    let ws = words_of(line);
    if line_skipped(ws) {
        Ok(st)
    } else if ws[0] == kw_v() {
        if ws.len() != 4 {
            Err(LoadError::MalformedRecord)
        } else {
            match (parse_fixed_spec(ws[1]), parse_fixed_spec(ws[2]), parse_fixed_spec(ws[3])) {
                (Some(x), Some(y), Some(z)) => Ok(
                    ObjState { positions: st.positions + seq![(x, y, z)], ..st },
                ),
                _ => Err(LoadError::MalformedRecord),
            }
        }
    } else if ws[0] == kw_vn() {
        if ws.len() != 4 {
            Err(LoadError::MalformedRecord)
        } else {
            match (parse_fixed_spec(ws[1]), parse_fixed_spec(ws[2]), parse_fixed_spec(ws[3])) {
                (Some(x), Some(y), Some(z)) => Ok(
                    ObjState { normals: st.normals + seq![(x, y, z)], ..st },
                ),
                _ => Err(LoadError::MalformedRecord),
            }
        }
    } else if ws[0] == kw_vt() {
        if ws.len() < 3 {
            Err(LoadError::MalformedRecord)
        } else {
            match (parse_fixed_spec(ws[1]), parse_fixed_spec(ws[2])) {
                (Some(u), Some(v)) => Ok(
                    ObjState { uvs: st.uvs + seq![(u, (65536 - v) as i64)], ..st },
                ),
                _ => Err(LoadError::MalformedRecord),
            }
        }
    } else if ws[0] == kw_f() {
        if ws.len() != 4 {
            Err(LoadError::UnsupportedPolygon)
        } else {
            match add_ref_spec(st, ws[1]) {
                Err(e) => Err(e),
                Ok((s1, a)) => match add_ref_spec(s1, ws[2]) {
                    Err(e) => Err(e),
                    Ok((s2, b)) => match add_ref_spec(s2, ws[3]) {
                        Err(e) => Err(e),
                        Ok((s3, c)) => Ok(
                            ObjState {
                                triangles: s3.triangles + seq![
                                    crate::triangle::Triangle {
                                        i0: a,
                                        i1: b,
                                        i2: c,
                                        material_index: st.current,
                                    },
                                ],
                                ..s3
                            },
                        ),
                    },
                },
            }
        }
    } else if ws[0] == kw_mtllib() {
        if ws.len() != 2 {
            Err(LoadError::MalformedRecord)
        } else if st.libs_used >= libs.len() {
            Err(LoadError::IoFailure)
        } else {
            Ok(
                ObjState {
                    materials: st.materials + libs[st.libs_used],
                    libs_used: st.libs_used + 1,
                    ..st
                },
            )
        }
    } else if ws[0] == kw_usemtl() {
        if ws.len() != 2 {
            Err(LoadError::MalformedRecord)
        } else {
            match find_mat_last(st.materials, ws[1]) {
                Some(i) => Ok(ObjState { current: i as usize, ..st }),
                None => Err(LoadError::MaterialNotFound),
            }
        }
    } else {
        Ok(st)
    }
}

/// The fold of `obj_step` over the remaining lines.
pub open spec fn obj_fold(
    lines: Seq<Seq<u8>>,
    st: ObjState,
    libs: Seq<Seq<MaterialModel>>,
) -> Result<ObjState, LoadError>
    decreases lines.len(),
{
    if lines.len() == 0 {
        Ok(st)
    } else {
        match obj_step(st, lines[0], libs) {
            Err(e) => Err(e),
            Ok(st2) => obj_fold(lines.skip(1), st2, libs),
        }
    }
}

/// What parsing a whole model text against supplied libraries yields.
pub open spec fn obj_parse(text: Seq<u8>, libs: Seq<Seq<MaterialModel>>) -> Result<
    ObjState,
    LoadError,
> {
    obj_fold(lines_of(text), obj_init(), libs)
}

/// Resolve one face reference against the growing dedup table.
fn add_ref(
    Ghost(st): Ghost<ObjState>,
    positions: &Vec<(i64, i64, i64)>,
    uvs: &Vec<(i64, i64)>,
    normals_len: usize,
    keys: &mut Vec<(usize, usize, usize)>,
    vertices: &mut Vec<crate::vertex::Vertex>,
    w: &Vec<u8>,
) -> (r: Result<usize, LoadError>)
    requires
        positions@ == st.positions,
        uvs@ == st.uvs,
        normals_len == st.normals.len(),
        old(keys)@ == st.keys,
        old(vertices)@ == st.vertices,
    ensures
        match r {
            Ok(idx) => add_ref_spec(st, w@) == Ok::<_, LoadError>(
                (
                    ObjState { keys: final(keys)@, vertices: final(vertices)@, ..st },
                    idx,
                ),
            ),
            Err(e) => add_ref_spec(st, w@) == Err::<(ObjState, usize), _>(e) && final(keys)@
                == st.keys && final(vertices)@ == st.vertices,
        },
{
    let d1 = find_byte(w, 47, 0);
    if d1 == w.len() {
        return Err(LoadError::MalformedRecord);
    }
    let d2 = find_byte(w, 47, d1 + 1);
    if d2 == w.len() {
        return Err(LoadError::MalformedRecord);
    }
    let d3 = find_byte(w, 47, d2 + 1);
    if d3 != w.len() {
        return Err(LoadError::MalformedRecord);
    }
    let p = parse_index_at(w, 0, d1);
    let t = parse_index_at(w, d1 + 1, d2);
    let n = parse_index_at(w, d2 + 1, w.len());
    if p.is_none() || t.is_none() || n.is_none() {
        return Err(LoadError::MalformedRecord);
    }
    let p = p.unwrap();
    let t = t.unwrap();
    let n = n.unwrap();
    if p == 0 || p > positions.len() || t == 0 || t > uvs.len() || n == 0 || n > normals_len {
        return Err(LoadError::IndexOutOfRange);
    }
    let key = (p - 1, t - 1, n - 1);
    match find_key(keys, key) {
        Some(i) => Ok(i),
        None => {
            let pos = positions[p - 1];
            let uv = uvs[t - 1];
            let idx = vertices.len();
            vertices.push(
                crate::vertex::Vertex { x: pos.0, y: pos.1, z: pos.2, u: uv.0, v: uv.1 },
            );
            keys.push(key);
            proof {
                assert(final(keys)@ =~= st.keys + seq![key]);
                assert(final(vertices)@ =~= st.vertices + seq![
                    crate::vertex::Vertex { x: pos.0, y: pos.1, z: pos.2, u: uv.0, v: uv.1 },
                ]);
            }
            Ok(idx)
        },
    }
}


/// The least x coordinate of a nonempty vertex list.
pub open spec fn vmin_x(s: Seq<crate::vertex::Vertex>) -> int
    recommends
        s.len() >= 1,
    decreases s.len(),
{
    if s.len() <= 1 {
        s[0].x as int
    } else {
        let m = vmin_x(s.drop_last());
        if (s.last().x as int) < m {
            s.last().x as int
        } else {
            m
        }
    }
}

pub open spec fn vmax_x(s: Seq<crate::vertex::Vertex>) -> int
    recommends
        s.len() >= 1,
    decreases s.len(),
{
    if s.len() <= 1 {
        s[0].x as int
    } else {
        let m = vmax_x(s.drop_last());
        if (s.last().x as int) > m {
            s.last().x as int
        } else {
            m
        }
    }
}

pub open spec fn vmin_y(s: Seq<crate::vertex::Vertex>) -> int
    recommends
        s.len() >= 1,
    decreases s.len(),
{
    if s.len() <= 1 {
        s[0].y as int
    } else {
        let m = vmin_y(s.drop_last());
        if (s.last().y as int) < m {
            s.last().y as int
        } else {
            m
        }
    }
}

pub open spec fn vmax_y(s: Seq<crate::vertex::Vertex>) -> int
    recommends
        s.len() >= 1,
    decreases s.len(),
{
    if s.len() <= 1 {
        s[0].y as int
    } else {
        let m = vmax_y(s.drop_last());
        if (s.last().y as int) > m {
            s.last().y as int
        } else {
            m
        }
    }
}

pub open spec fn vmin_z(s: Seq<crate::vertex::Vertex>) -> int
    recommends
        s.len() >= 1,
    decreases s.len(),
{
    if s.len() <= 1 {
        s[0].z as int
    } else {
        let m = vmin_z(s.drop_last());
        if (s.last().z as int) < m {
            s.last().z as int
        } else {
            m
        }
    }
}

pub open spec fn vmax_z(s: Seq<crate::vertex::Vertex>) -> int
    recommends
        s.len() >= 1,
    decreases s.len(),
{
    if s.len() <= 1 {
        s[0].z as int
    } else {
        let m = vmax_z(s.drop_last());
        if (s.last().z as int) > m {
            s.last().z as int
        } else {
            m
        }
    }
}

/// The midpoint of the vertices' bounding box, the origin when there are
/// no vertices.
pub open spec fn centre_of(s: Seq<crate::vertex::Vertex>) -> (int, int, int) {
    if s.len() == 0 {
        (0, 0, 0)
    } else {
        (
            crate::fixed::tdiv(vmin_x(s) + vmax_x(s), 2),
            crate::fixed::tdiv(vmin_y(s) + vmax_y(s), 2),
            crate::fixed::tdiv(vmin_z(s) + vmax_z(s), 2),
        )
    }
}

/// The vertices translated so the bounding-box midpoint is the origin.
pub open spec fn recentre(s: Seq<crate::vertex::Vertex>, c: (int, int, int)) -> Seq<
    crate::vertex::Vertex,
> {
    s.map_values(
        |v: crate::vertex::Vertex|
            crate::vertex::Vertex {
                x: (v.x - c.0) as i64,
                y: (v.y - c.1) as i64,
                z: (v.z - c.2) as i64,
                u: v.u,
                v: v.v,
            },
    )
}

/// A step error makes the whole remaining fold that error.
proof fn lemma_obj_fold_err(
    lmodel: Seq<Seq<u8>>,
    li: int,
    st: ObjState,
    libs: Seq<Seq<MaterialModel>>,
    e: LoadError,
    line: Seq<u8>,
)
    requires
        0 <= li < lmodel.len(),
        lmodel.skip(li)[0] == line,
        obj_step(st, line, libs) == Err::<ObjState, _>(e),
    ensures
        obj_fold(lmodel.skip(li), st, libs) == Err::<ObjState, _>(e),
{
    assert(lmodel.skip(li).len() > 0);
}


/// Load a mesh from the text of a model file and the parsed material
/// libraries it names, in the order their `mtllib` lines appear. The
/// result is exactly what the parse fold states: the deduplicated
/// vertices recentred on their bounding-box midpoint, the indexed
/// triangles, and the material table, or the fold's error.
#[verifier::rlimit(100)]
pub fn load_wavefront(text: &Vec<u8>, libs: Vec<Vec<crate::material::Material>>) -> (r: Result<
    crate::mesh::Mesh,
    LoadError,
>)
    requires
        libs_wf(libs_model(libs@)),
    ensures
        match r {
            Ok(m) => {
                &&& obj_parse(text@, libs_model(libs@)) is Ok
                &&& {
                    let st = obj_parse(text@, libs_model(libs@))->Ok_0;
                    &&& m.triangles@ == st.triangles
                    &&& materials_model(m.materials@) == st.materials
                    &&& m.vertices@ == recentre(st.vertices, centre_of(st.vertices))
                    &&& m.centre.x == centre_of(st.vertices).0
                    &&& m.centre.y == centre_of(st.vertices).1
                    &&& m.centre.z == centre_of(st.vertices).2
                    &&& m.centre.u == 0
                    &&& m.centre.v == 0
                }
                &&& !m.rotate_around_pivot
                &&& m.pivot is None
                &&& m.well_formed()
            },
            Err(e) => obj_parse(text@, libs_model(libs@)) == Err::<ObjState, _>(e),
        },
{
    let ghost libs0 = libs@;
    let ghost libsm = libs_model(libs@);
    let mut libs_left = libs;
    let mut used: usize = 0;
    let lines = split_lines(text);
    let ghost lmodel = lines_of(text@);
    let mut positions: Vec<(i64, i64, i64)> = Vec::new();
    let mut uvs: Vec<(i64, i64)> = Vec::new();
    let mut normals: Vec<(i64, i64, i64)> = Vec::new();
    let mut keys: Vec<(usize, usize, usize)> = Vec::new();
    let mut vertices: Vec<crate::vertex::Vertex> = Vec::new();
    let mut triangles: Vec<crate::triangle::Triangle> = Vec::new();
    let mut materials: Vec<crate::material::Material> = Vec::new();
    materials.push(
        crate::material::Material {
            name: Vec::new(),
            diffuse: Colour { red: 255, green: 255, blue: 255, alpha: 255 },
            kd_texture: None,
        },
    );
    let mut current: usize = 0;
    let mut li: usize = 0;
    proof {
        assert(materials_model(materials@) =~= obj_init().materials);
        assert(cur_state(
            positions@,
            uvs@,
            normals@,
            keys@,
            vertices@,
            triangles@,
            materials_model(materials@),
            current,
            used as int,
        ) == obj_init());
        assert(lmodel.skip(0) =~= lmodel);
    }
    while li < lines.len()
        invariant
            li <= lines@.len(),
            views_match(lines@, lmodel),
            lmodel == lines_of(text@),
            libs0 == libs@,
            libsm == libs_model(libs0),
            used <= libs0.len(),
            libs_left@ == libs0.skip(used as int),
            used <= li,
            obj_fold(lmodel, obj_init(), libsm) == obj_fold(
                lmodel.skip(li as int),
                cur_state(
                    positions@,
                    uvs@,
                    normals@,
                    keys@,
                    vertices@,
                    triangles@,
                    materials_model(materials@),
                    current,
                    used as int,
                ),
                libsm,
            ),
        decreases lines@.len() - li,
    {
        let ghost st = cur_state(
            positions@,
            uvs@,
            normals@,
            keys@,
            vertices@,
            triangles@,
            materials_model(materials@),
            current,
            used as int,
        );
        let line = &lines[li];
        let ws = split_words(line);
        proof {
            assert(lmodel.skip(li as int)[0] == line@);
            assert(lmodel.skip(li as int).skip(1) =~= lmodel.skip(li as int + 1));
        }
        let skip = ws.len() == 0 || (ws[0].len() > 0 && ws[0][0] == 35);
        if skip {
        } else if word_is1(&ws[0], 118) {
            if ws.len() != 4 {
                proof {
                    assert(obj_step(st, line@, libsm) == Err::<ObjState, _>(
                        LoadError::MalformedRecord,
                    )) by {
                        reveal(obj_step);
                    }
                    lemma_obj_fold_err(
                        lmodel,
                        li as int,
                        st,
                        libsm,
                        LoadError::MalformedRecord,
                        line@,
                    );

                }
                return Err(LoadError::MalformedRecord);
            }
            let px = parse_fixed(&ws[1]);
            let py = parse_fixed(&ws[2]);
            let pz = parse_fixed(&ws[3]);
            if px.is_none() || py.is_none() || pz.is_none() {
                proof {
                    assert(obj_step(st, line@, libsm) == Err::<ObjState, _>(
                        LoadError::MalformedRecord,
                    )) by {
                        reveal(obj_step);
                    }
                    lemma_obj_fold_err(
                        lmodel,
                        li as int,
                        st,
                        libsm,
                        LoadError::MalformedRecord,
                        line@,
                    );
                }
                return Err(LoadError::MalformedRecord);
            }
            positions.push((px.unwrap(), py.unwrap(), pz.unwrap()));
            proof {
                assert(positions@ =~= st.positions + seq![
                    (
                        parse_fixed_spec(ws@[1]@)->Some_0,
                        parse_fixed_spec(ws@[2]@)->Some_0,
                        parse_fixed_spec(ws@[3]@)->Some_0,
                    ),
                ]);
            }
        } else if word_is2(&ws[0], 118, 110) {
            if ws.len() != 4 {
                proof {
                    assert(obj_step(st, line@, libsm) == Err::<ObjState, _>(
                        LoadError::MalformedRecord,
                    )) by {
                        reveal(obj_step);
                    }
                    lemma_obj_fold_err(
                        lmodel,
                        li as int,
                        st,
                        libsm,
                        LoadError::MalformedRecord,
                        line@,
                    );
                }
                return Err(LoadError::MalformedRecord);
            }
            let px = parse_fixed(&ws[1]);
            let py = parse_fixed(&ws[2]);
            let pz = parse_fixed(&ws[3]);
            if px.is_none() || py.is_none() || pz.is_none() {
                proof {
                    assert(obj_step(st, line@, libsm) == Err::<ObjState, _>(
                        LoadError::MalformedRecord,
                    )) by {
                        reveal(obj_step);
                    }
                    lemma_obj_fold_err(
                        lmodel,
                        li as int,
                        st,
                        libsm,
                        LoadError::MalformedRecord,
                        line@,
                    );
                }
                return Err(LoadError::MalformedRecord);
            }
            normals.push((px.unwrap(), py.unwrap(), pz.unwrap()));
            proof {
                assert(normals@ =~= st.normals + seq![
                    (
                        parse_fixed_spec(ws@[1]@)->Some_0,
                        parse_fixed_spec(ws@[2]@)->Some_0,
                        parse_fixed_spec(ws@[3]@)->Some_0,
                    ),
                ]);
            }
        } else if word_is2(&ws[0], 118, 116) {
            if ws.len() < 3 {
                proof {
                    assert(obj_step(st, line@, libsm) == Err::<ObjState, _>(
                        LoadError::MalformedRecord,
                    )) by {
                        reveal(obj_step);
                    }
                    lemma_obj_fold_err(
                        lmodel,
                        li as int,
                        st,
                        libsm,
                        LoadError::MalformedRecord,
                        line@,
                    );
                }
                return Err(LoadError::MalformedRecord);
            }
            let pu = parse_fixed(&ws[1]);
            let pv = parse_fixed(&ws[2]);
            if pu.is_none() || pv.is_none() {
                proof {
                    assert(obj_step(st, line@, libsm) == Err::<ObjState, _>(
                        LoadError::MalformedRecord,
                    )) by {
                        reveal(obj_step);
                    }
                    lemma_obj_fold_err(
                        lmodel,
                        li as int,
                        st,
                        libsm,
                        LoadError::MalformedRecord,
                        line@,
                    );
                }
                return Err(LoadError::MalformedRecord);
            }
            let flipped: i64 = 65536 - pv.unwrap();
            uvs.push((pu.unwrap(), flipped));
            proof {
                assert(uvs@ =~= st.uvs + seq![
                    (
                        parse_fixed_spec(ws@[1]@)->Some_0,
                        (65536 - parse_fixed_spec(ws@[2]@)->Some_0) as i64,
                    ),
                ]);
            }
        } else if word_is1(&ws[0], 102) {
            if ws.len() != 4 {
                proof {
                    assert(obj_step(st, line@, libsm) == Err::<ObjState, _>(
                        LoadError::UnsupportedPolygon,
                    )) by {
                        reveal(obj_step);
                    }
                    lemma_obj_fold_err(
                        lmodel,
                        li as int,
                        st,
                        libsm,
                        LoadError::UnsupportedPolygon,
                        line@,
                    );
                }
                return Err(LoadError::UnsupportedPolygon);
            }
            let r1 = add_ref(
                Ghost(st),
                &positions,
                &uvs,
                normals.len(),
                &mut keys,
                &mut vertices,
                &ws[1],
            );
            if r1.is_err() {
                let e = r1.unwrap_err();
                proof {
                    assert(obj_step(st, line@, libsm) == Err::<ObjState, _>(e)) by {
                        reveal(obj_step);
                    }
                    lemma_obj_fold_err(lmodel, li as int, st, libsm, e, line@);
                }
                return Err(e);
            }
            let a = r1.unwrap();
            let ghost s1 = ObjState { keys: keys@, vertices: vertices@, ..st };
            let r2 = add_ref(
                Ghost(s1),
                &positions,
                &uvs,
                normals.len(),
                &mut keys,
                &mut vertices,
                &ws[2],
            );
            if r2.is_err() {
                let e = r2.unwrap_err();
                proof {
                    assert(obj_step(st, line@, libsm) == Err::<ObjState, _>(e)) by {
                        reveal(obj_step);
                    }
                    lemma_obj_fold_err(lmodel, li as int, st, libsm, e, line@);
                }
                return Err(e);
            }
            let b = r2.unwrap();
            let ghost s2 = ObjState { keys: keys@, vertices: vertices@, ..s1 };
            let r3 = add_ref(
                Ghost(s2),
                &positions,
                &uvs,
                normals.len(),
                &mut keys,
                &mut vertices,
                &ws[3],
            );
            if r3.is_err() {
                let e = r3.unwrap_err();
                proof {
                    assert(obj_step(st, line@, libsm) == Err::<ObjState, _>(e)) by {
                        reveal(obj_step);
                    }
                    lemma_obj_fold_err(lmodel, li as int, st, libsm, e, line@);
                }
                return Err(e);
            }
            let c = r3.unwrap();
            let ghost s3 = ObjState { keys: keys@, vertices: vertices@, ..s2 };
            triangles.push(
                crate::triangle::Triangle { i0: a, i1: b, i2: c, material_index: current },
            );
            proof {
                assert(triangles@ =~= s3.triangles + seq![
                    crate::triangle::Triangle { i0: a, i1: b, i2: c, material_index: st.current },
                ]);
            }
        } else if word_is6(&ws[0], 109, 116, 108, 108, 105, 98) {
            if ws.len() != 2 {
                proof {
                    assert(obj_step(st, line@, libsm) == Err::<ObjState, _>(
                        LoadError::MalformedRecord,
                    )) by {
                        reveal(obj_step);
                    }
                    lemma_obj_fold_err(
                        lmodel,
                        li as int,
                        st,
                        libsm,
                        LoadError::MalformedRecord,
                        line@,
                    );
                }
                return Err(LoadError::MalformedRecord);
            }
            if libs_left.len() == 0 {
                proof {
                    assert(st.libs_used >= libsm.len());
                    assert(obj_step(st, line@, libsm) == Err::<ObjState, _>(
                        LoadError::IoFailure,
                    )) by {
                        reveal(obj_step);
                    }
                    lemma_obj_fold_err(lmodel, li as int, st, libsm, LoadError::IoFailure, line@);
                }
                return Err(LoadError::IoFailure);
            }
            proof {
                assert(used < libs0.len());
            }
            let mut lib = libs_left.remove(0);
            let ghost lib_full = lib@;
            proof {
                assert(libs0[used as int] == libs0.skip(used as int)[0]);
                assert(materials_model(lib_full) == libsm[used as int]);
                assert(libs_left@ =~= libs0.skip(used as int + 1));
                assert(materials_model(lib_full.take(0)) =~= Seq::<MaterialModel>::empty());
                assert(materials_model(materials@) =~= st.materials + materials_model(
                    lib_full.take(0),
                ));
            }
            while lib.len() > 0
                invariant
                    lib_full.len() >= lib@.len(),
                    lib@ == lib_full.skip(lib_full.len() - lib@.len()),
                    materials_model(materials@) == st.materials + materials_model(
                        lib_full.take(lib_full.len() - lib@.len()),
                    ),
                decreases lib@.len(),
            {
                let ghost before = lib@;
                let ghost count = lib_full.len() - lib@.len();
                let ghost oldmats = materials@;
                let m = lib.remove(0);
                materials.push(m);
                proof {
                    assert(before[0] == lib_full[count]);
                    assert(lib@ =~= lib_full.skip(count + 1));
                    assert(materials_model(materials@) =~= materials_model(oldmats) + seq![
                        material_model(lib_full[count]),
                    ]);
                    assert(materials_model(lib_full.take(count + 1)) =~= materials_model(
                        lib_full.take(count),
                    ) + seq![material_model(lib_full[count])]);
                    assert(materials_model(materials@) =~= st.materials + materials_model(
                        lib_full.take(count + 1),
                    ));
                }
            }
            used = used + 1;
            proof {
                assert(lib_full.take(lib_full.len() as int) =~= lib_full);
                assert(materials_model(materials@) == st.materials + libsm[used as int - 1]);
            }
        } else if word_is6(&ws[0], 117, 115, 101, 109, 116, 108) {
            if ws.len() != 2 {
                proof {
                    assert(obj_step(st, line@, libsm) == Err::<ObjState, _>(
                        LoadError::MalformedRecord,
                    )) by {
                        reveal(obj_step);
                    }
                    lemma_obj_fold_err(
                        lmodel,
                        li as int,
                        st,
                        libsm,
                        LoadError::MalformedRecord,
                        line@,
                    );
                }
                return Err(LoadError::MalformedRecord);
            }
            match find_material(&materials, &ws[1]) {
                Some(i) => {
                    current = i;
                },
                None => {
                    proof {
                        assert(obj_step(st, line@, libsm) == Err::<ObjState, _>(
                            LoadError::MaterialNotFound,
                        )) by {
                            reveal(obj_step);
                        }
                        lemma_obj_fold_err(
                            lmodel,
                            li as int,
                            st,
                            libsm,
                            LoadError::MaterialNotFound,
                            line@,
                        );
                    }
                    return Err(LoadError::MaterialNotFound);
                },
            }
        } else {
        }
        proof {
            assert(obj_step(st, line@, libsm) == Ok::<_, LoadError>(
                cur_state(
                    positions@,
                    uvs@,
                    normals@,
                    keys@,
                    vertices@,
                    triangles@,
                    materials_model(materials@),
                    current,
                    used as int,
                ),
            )) by {
                reveal(obj_step);
            }
        }
        li = li + 1;
    }
    proof {
        assert(lmodel.skip(li as int) =~= Seq::<Seq<u8>>::empty());
    }
    let ghost stf = cur_state(
        positions@,
        uvs@,
        normals@,
        keys@,
        vertices@,
        triangles@,
        materials_model(materials@),
        current,
        used as int,
    );
    proof {
        assert(st_wf(obj_init()));
        lemma_fold_wf(lmodel, obj_init(), libsm);
        assert(st_wf(stf));
        assert forall|k: int| 0 <= k < vertices@.len() implies crate::vertex::coords_bounded(
            #[trigger] vertices@[k],
            0x1000_0000_0000,
        ) by {
            assert(stf.vertices[k] == vertices@[k]);
        };
    }
    let (cx, cy, cz) = bbox_centre(&vertices);
    proof {
        assert forall|k: int|
            0 <= k < vertices@.len() implies iabs((#[trigger] vertices@[k]).x - cx)
            < 0x7fff_ffff_ffff_ffff && iabs(vertices@[k].y - cy) < 0x7fff_ffff_ffff_ffff && iabs(
            vertices@[k].z - cz,
        ) < 0x7fff_ffff_ffff_ffff by {
            assert(crate::vertex::coords_bounded(vertices@[k], 0x1000_0000_0000));
        };
    }
    let centred = recentre_exec(&vertices, cx, cy, cz);
    let m = crate::mesh::Mesh {
        vertices: centred,
        triangles,
        centre: crate::vertex::Vertex { x: cx, y: cy, z: cz, u: 0, v: 0 },
        rotate_around_pivot: false,
        pivot: None,
        materials,
    };
    proof {
        let ml = crate::mesh::MESH_LIMIT as int;
        assert forall|k: int| 0 <= k < m.vertices@.len() implies crate::vertex::coords_bounded(
            #[trigger] m.vertices@[k],
            ml,
        ) && iabs(m.vertices@[k].u as int) <= ml && iabs(m.vertices@[k].v as int) <= ml by {
            assert(m.vertices@[k] == recentre(stf.vertices, centre_of(stf.vertices))[k]);
            assert(stf.vertices[k] == vertices@[k]);
            assert(crate::vertex::coords_bounded(stf.vertices[k], 0x1000_0000_0000));
        };
        assert forall|k: int| 0 <= k < m.triangles@.len() implies crate::triangle::triangle_in_bounds(
            #[trigger] m.triangles@[k],
            m.vertices@.len() as int,
            m.materials@.len() as int,
        ) by {
            assert(stf.triangles[k] == m.triangles@[k]);
        };
        assert forall|k: int| 0 <= k < m.materials@.len() implies (
        #[trigger] m.materials@[k]).well_formed() by {
            assert(mat_model_wf(materials_model(m.materials@)[k]));
            assert(materials_model(m.materials@)[k] == material_model(m.materials@[k]));
        };
        assert(m.well_formed());
        assert(lmodel.skip(li as int) =~= Seq::<Seq<u8>>::empty());
        assert(obj_parse(text@, libs_model(libs0)) == Ok::<_, LoadError>(stf));
    }
    Ok(m)
}

/// Assemble the parse state the loader's loop maintains.
pub open spec fn cur_state(
    positions: Seq<(i64, i64, i64)>,
    uvs: Seq<(i64, i64)>,
    normals: Seq<(i64, i64, i64)>,
    keys: Seq<(usize, usize, usize)>,
    vertices: Seq<crate::vertex::Vertex>,
    triangles: Seq<crate::triangle::Triangle>,
    materials: Seq<MaterialModel>,
    current: usize,
    libs_used: int,
) -> ObjState {
    ObjState { positions, uvs, normals, keys, vertices, triangles, materials, current, libs_used }
}

/// The bounding-box midpoint of the parsed vertices.
fn bbox_centre(vertices: &Vec<crate::vertex::Vertex>) -> (r: (i64, i64, i64))
    requires
        forall|k: int|
            0 <= k < vertices@.len() ==> crate::vertex::coords_bounded(
                #[trigger] vertices@[k],
                0x1000_0000_0000,
            ),
    ensures
        r.0 == centre_of(vertices@).0,
        r.1 == centre_of(vertices@).1,
        r.2 == centre_of(vertices@).2,
        iabs(r.0 as int) <= 0x1000_0000_0000,
        iabs(r.1 as int) <= 0x1000_0000_0000,
        iabs(r.2 as int) <= 0x1000_0000_0000,
{
    if vertices.len() == 0 {
        return (0, 0, 0);
    }
    let v0 = vertices[0];
    let mut minx = v0.x;
    let mut maxx = v0.x;
    let mut miny = v0.y;
    let mut maxy = v0.y;
    let mut minz = v0.z;
    let mut maxz = v0.z;
    let mut i: usize = 1;
    while i < vertices.len()
        invariant
            1 <= i <= vertices@.len(),
            forall|k: int|
                0 <= k < vertices@.len() ==> crate::vertex::coords_bounded(
                    #[trigger] vertices@[k],
                    0x1000_0000_0000,
                ),
            iabs(minx as int) <= 0x1000_0000_0000,
            iabs(maxx as int) <= 0x1000_0000_0000,
            iabs(miny as int) <= 0x1000_0000_0000,
            iabs(maxy as int) <= 0x1000_0000_0000,
            iabs(minz as int) <= 0x1000_0000_0000,
            iabs(maxz as int) <= 0x1000_0000_0000,
            minx <= maxx && miny <= maxy && minz <= maxz,
            minx == vmin_x(vertices@.take(i as int)),
            maxx == vmax_x(vertices@.take(i as int)),
            miny == vmin_y(vertices@.take(i as int)),
            maxy == vmax_y(vertices@.take(i as int)),
            minz == vmin_z(vertices@.take(i as int)),
            maxz == vmax_z(vertices@.take(i as int)),
        decreases vertices@.len() - i,
    {
        let v = vertices[i];
        proof {
            assert(vertices@.take(i as int + 1).drop_last() =~= vertices@.take(i as int));
            assert(vertices@.take(i as int + 1).last() == vertices@[i as int]);
        }
        if v.x < minx {
            minx = v.x;
        }
        if v.x > maxx {
            maxx = v.x;
        }
        if v.y < miny {
            miny = v.y;
        }
        if v.y > maxy {
            maxy = v.y;
        }
        if v.z < minz {
            minz = v.z;
        }
        if v.z > maxz {
            maxz = v.z;
        }
        i = i + 1;
    }
    proof {
        assert(vertices@.take(vertices@.len() as int) =~= vertices@);
    }
    (tdiv_mid(minx, maxx), tdiv_mid(miny, maxy), tdiv_mid(minz, maxz))
}

/// The truncated midpoint of two bounded scalars.
fn tdiv_mid(lo: i64, hi: i64) -> (r: i64)
    requires
        lo <= hi,
    ensures
        r == crate::fixed::tdiv(lo + hi, 2),
        lo <= r <= hi,
{
    let s: i128 = (lo as i128) + (hi as i128);
    let m = crate::fixed::tdiv128(s, 2);
    proof {
        assert(2 * (lo as int) <= lo + hi <= 2 * (hi as int));
        lemma_mid_range(lo as int, hi as int);
    }
    m as i64
}

/// The truncated midpoint lies between its ends.
proof fn lemma_mid_range(lo: int, hi: int)
    requires
        lo <= hi,
    ensures
        lo <= crate::fixed::tdiv(lo + hi, 2) <= hi,
{
    let s = lo + hi;
    if s >= 0 {
        vstd::arithmetic::div_mod::lemma_div_is_ordered(2 * lo, s, 2);
        vstd::arithmetic::div_mod::lemma_div_is_ordered(s, 2 * hi, 2);
        vstd::arithmetic::div_mod::lemma_div_multiples_vanish(lo, 2);
        vstd::arithmetic::div_mod::lemma_div_multiples_vanish(hi, 2);
    } else {
        vstd::arithmetic::div_mod::lemma_div_is_ordered(-s, 2 * (-lo), 2);
        vstd::arithmetic::div_mod::lemma_div_is_ordered(2 * (-hi), -s, 2);
        vstd::arithmetic::div_mod::lemma_div_multiples_vanish(-lo, 2);
        vstd::arithmetic::div_mod::lemma_div_multiples_vanish(-hi, 2);
    }
}

/// Translate every vertex by the negated centre.
fn recentre_exec(vertices: &Vec<crate::vertex::Vertex>, cx: i64, cy: i64, cz: i64) -> (r: Vec<
    crate::vertex::Vertex,
>)
    requires
        forall|k: int|
            0 <= k < vertices@.len() ==> iabs((#[trigger] vertices@[k]).x - cx) < 0x7fff_ffff_ffff_ffff
                && iabs(vertices@[k].y - cy) < 0x7fff_ffff_ffff_ffff && iabs(
                vertices@[k].z - cz,
            ) < 0x7fff_ffff_ffff_ffff,
    ensures
        r@ == recentre(vertices@, (cx as int, cy as int, cz as int)),
{
    let mut r: Vec<crate::vertex::Vertex> = Vec::new();
    let mut i: usize = 0;
    while i < vertices.len()
        invariant
            i <= vertices@.len(),
            forall|k: int|
                0 <= k < vertices@.len() ==> iabs((#[trigger] vertices@[k]).x - cx)
                    < 0x7fff_ffff_ffff_ffff && iabs(vertices@[k].y - cy) < 0x7fff_ffff_ffff_ffff
                    && iabs(vertices@[k].z - cz) < 0x7fff_ffff_ffff_ffff,
            r@ =~= recentre(vertices@, (cx as int, cy as int, cz as int)).take(i as int),
        decreases vertices@.len() - i,
    {
        let v = vertices[i];
        r.push(
            crate::vertex::Vertex { x: v.x - cx, y: v.y - cy, z: v.z - cz, u: v.u, v: v.v },
        );
        proof {
            assert(r@ =~= recentre(vertices@, (cx as int, cy as int, cz as int)).take(i + 1));
        }
        i = i + 1;
    }
    proof {
        assert(recentre(vertices@, (cx as int, cy as int, cz as int)).take(vertices@.len() as int)
            =~= recentre(vertices@, (cx as int, cy as int, cz as int)));
    }
    r
}


/// A successfully parsed number is bounded by the value cap.
proof fn lemma_parse_fixed_bound(w: Seq<u8>)
    ensures
        match parse_fixed_spec(w) {
            Some(v) => iabs(v as int) <= 0x1000_0000_0000,
            None => true,
        },
{
    let lo: int = if w.len() > 0 && (w[0] == 43 || w[0] == 45) {
        1
    } else {
        0
    };
    let epos = find_exp_r(w, lo);
    let dot = find_byte_r(w, 46, lo);
    let iend = if dot < epos {
        dot
    } else {
        epos
    };
    let flo = if dot < epos {
        dot + 1
    } else {
        iend
    };
    let fhi = if dot < epos {
        epos
    } else {
        iend
    };
    let elo = spec_elo(w);
    let valid = all_digits_r(w, lo, iend) && all_digits_r(w, flo, fhi) && (iend - lo) + (fhi
        - flo) != 0 && !(epos < w.len() && (elo >= w.len() || !all_digits_r(
        w,
        elo,
        w.len() as int,
    )));
    if valid {
        let i = digits_val_r(w, lo, iend);
        lemma_digits_nonneg(w, lo, iend);
        if i <= pow10(18) {
            let k: int = if fhi - flo > 9 {
                9
            } else {
                fhi - flo
            };
            let f = digits_val_r(w, flo, flo + k);
            lemma_digits_nonneg(w, flo, flo + k);
            lemma_pow10_pos(k);
            let mant = i * pow10(k) + f;
            assert(mant >= 0) by (nonlinear_arith)
                requires
                    i >= 0,
                    pow10(k) >= 1,
                    f >= 0,
                    mant == i * pow10(k) + f,
            ;
            let e: int = if epos >= w.len() {
                0
            } else if epos + 1 < w.len() && w[epos + 1] == 45 {
                -digits_val_r(w, elo, w.len() as int)
            } else {
                digits_val_r(w, elo, w.len() as int)
            };
            if e - k >= 0 {
                lemma_pow10_pos(e - k);
                assert(mant * pow10(e - k) * 65536 >= 0) by (nonlinear_arith)
                    requires
                        mant >= 0,
                        pow10(e - k) >= 1,
                ;
            } else {
                lemma_pow10_pos(k - e);
                assert(mant * 65536 >= 0) by (nonlinear_arith)
                    requires
                        mant >= 0,
                ;
                vstd::arithmetic::div_mod::lemma_div_pos_is_pos(mant * 65536, pow10(k - e));
            }
        }
    }
}

/// Resolving one face reference keeps the state invariant, only growing
/// the vertex and key tables in step.
proof fn lemma_add_ref_wf(st: ObjState, w: Seq<u8>)
    requires
        st_wf(st),
    ensures
        match add_ref_spec(st, w) {
            Ok((st2, idx)) => st_wf(st2) && (idx as int) < st2.vertices.len()
                && st.vertices.len() <= st2.vertices.len() && st2.materials == st.materials
                && st2.current == st.current && st2.triangles == st.triangles && st2.positions
                == st.positions && st2.uvs == st.uvs && st2.normals == st.normals
                && st2.libs_used == st.libs_used,
            Err(_) => true,
        },
{
    let d1 = find_byte_r(w, 47, 0);
    let d2 = if d1 < w.len() {
        find_byte_r(w, 47, d1 + 1)
    } else {
        w.len() as int
    };
    let d3 = if d2 < w.len() {
        find_byte_r(w, 47, d2 + 1)
    } else {
        w.len() as int
    };
    if !(d1 == w.len() || d2 == w.len() || d3 != w.len()) {
        match (
            parse_index_r(w, 0, d1),
            parse_index_r(w, d1 + 1, d2),
            parse_index_r(w, d2 + 1, w.len() as int),
        ) {
            (Some(p), Some(t), Some(n)) => {
                if !(p == 0 || p > st.positions.len() || t == 0 || t > st.uvs.len() || n == 0
                    || n > st.normals.len()) {
                    let key = (((p - 1) as usize), ((t - 1) as usize), ((n - 1) as usize));
                    match find_key_from(st.keys, key, 0) {
                        Some(i) => {
                            lemma_find_key_some(st.keys, key, 0);
                        },
                        None => {
                            lemma_find_key_none(st.keys, key, 0);
                        },
                    }
                }
            },
            _ => {},
        }
    }
}

/// A found key index lies in the table.
proof fn lemma_find_key_some(keys: Seq<(usize, usize, usize)>, k: (usize, usize, usize), i: int)
    requires
        0 <= i <= keys.len(),
    ensures
        match find_key_from(keys, k, i) {
            Some(j) => i <= j < keys.len(),
            None => true,
        },
    decreases keys.len() - i,
{
    if i < keys.len() {
        lemma_find_key_some(keys, k, i + 1);
    }
}

/// One parse step keeps the state invariant.
proof fn lemma_step_wf(st: ObjState, line: Seq<u8>, libs: Seq<Seq<MaterialModel>>)
    requires
        st_wf(st),
        libs_wf(libs),
    ensures
        match obj_step(st, line, libs) {
            Ok(st2) => st_wf(st2),
            Err(_) => true,
        },
{
    reveal(obj_step);
    let ws = words_of(line);
    if line_skipped(ws) {
    } else if ws[0] == kw_v() || ws[0] == kw_vn() {
        if ws.len() == 4 {
            lemma_parse_fixed_bound(ws[1]);
            lemma_parse_fixed_bound(ws[2]);
            lemma_parse_fixed_bound(ws[3]);
        }
    } else if ws[0] == kw_vt() {
        if ws.len() >= 3 {
            lemma_parse_fixed_bound(ws[1]);
            lemma_parse_fixed_bound(ws[2]);
        }
    } else if ws[0] == kw_f() {
        if ws.len() == 4 {
            lemma_add_ref_wf(st, ws[1]);
            match add_ref_spec(st, ws[1]) {
                Ok((s1, a)) => {
                    lemma_add_ref_wf(s1, ws[2]);
                    match add_ref_spec(s1, ws[2]) {
                        Ok((s2, b)) => {
                            lemma_add_ref_wf(s2, ws[3]);
                            match add_ref_spec(s2, ws[3]) {
                                Ok((s3, c)) => {
                                    let tri = crate::triangle::Triangle {
                                        i0: a,
                                        i1: b,
                                        i2: c,
                                        material_index: st.current,
                                    };
                                    let newtris = s3.triangles + seq![tri];
                                    assert forall|k: int|
                                        0 <= k < newtris.len() implies crate::triangle::triangle_in_bounds(
                                        #[trigger] newtris[k],
                                        s3.vertices.len() as int,
                                        s3.materials.len() as int,
                                    ) by {
                                        if k < s3.triangles.len() {
                                            assert(newtris[k] == s3.triangles[k]);
                                        } else {
                                            assert(newtris[k] == tri);
                                        }
                                    };
                                },
                                Err(_) => {},
                            }
                        },
                        Err(_) => {},
                    }
                },
                Err(_) => {},
            }
        }
    } else if ws[0] == kw_mtllib() {
        if ws.len() == 2 && st.libs_used < libs.len() {
            let newmats = st.materials + libs[st.libs_used];
            assert forall|k: int| 0 <= k < newmats.len() implies mat_model_wf(
                #[trigger] newmats[k],
            ) by {
                if k < st.materials.len() {
                    assert(newmats[k] == st.materials[k]);
                } else {
                    assert(newmats[k] == libs[st.libs_used][k - st.materials.len()]);
                }
            };
        }
    } else if ws[0] == kw_usemtl() {
        if ws.len() == 2 {
            lemma_find_mat_range(st.materials, ws[1]);
        }
    } else {
    }
}

/// The fold keeps the state invariant.
proof fn lemma_fold_wf(lines: Seq<Seq<u8>>, st: ObjState, libs: Seq<Seq<MaterialModel>>)
    requires
        st_wf(st),
        libs_wf(libs),
    ensures
        match obj_fold(lines, st, libs) {
            Ok(st2) => st_wf(st2),
            Err(_) => true,
        },
    decreases lines.len(),
{
    if lines.len() > 0 {
        lemma_step_wf(st, lines[0], libs);
        match obj_step(st, lines[0], libs) {
            Ok(st2) => {
                lemma_fold_wf(lines.skip(1), st2, libs);
            },
            Err(_) => {},
        }
    }
}



/// What the load contract pins a returned mesh to, for a given text and
/// material libraries.
pub open spec fn loaded_from(text: Seq<u8>, libs: Seq<Seq<MaterialModel>>, m: crate::mesh::Mesh) -> bool {
    &&& obj_parse(text, libs) is Ok
    &&& {
        let st = obj_parse(text, libs)->Ok_0;
        &&& m.triangles@ == st.triangles
        &&& materials_model(m.materials@) == st.materials
        &&& m.vertices@ == recentre(st.vertices, centre_of(st.vertices))
        &&& m.centre.x == centre_of(st.vertices).0
        &&& m.centre.y == centre_of(st.vertices).1
        &&& m.centre.z == centre_of(st.vertices).2
    }
}

/// Loading is deterministic: two meshes loaded from the same text and
/// the same material libraries agree in every observable part — vertex
/// for vertex, triangle for triangle, material for material.
pub proof fn lemma_load_deterministic(
    text: Seq<u8>,
    libs: Seq<Seq<MaterialModel>>,
    m1: crate::mesh::Mesh,
    m2: crate::mesh::Mesh,
)
    requires
        loaded_from(text, libs, m1),
        loaded_from(text, libs, m2),
    ensures
        m1.vertices@ == m2.vertices@,
        m1.triangles@ == m2.triangles@,
        materials_model(m1.materials@) == materials_model(m2.materials@),
        m1.centre.x == m2.centre.x,
        m1.centre.y == m2.centre.y,
        m1.centre.z == m2.centre.z,
{
}

/// A successful parse leaves a well-formed state: as many vertices as
/// distinct referenced index triples (the keys are distinct and count
/// the vertices), every triangle in range, and a nonempty material
/// table.
pub proof fn lemma_loaded_state_wf(text: Seq<u8>, libs: Seq<Seq<MaterialModel>>)
    requires
        libs_wf(libs),
        obj_parse(text, libs) is Ok,
    ensures
        st_wf(obj_parse(text, libs)->Ok_0),
{
    assert(st_wf(obj_init()));
    lemma_fold_wf(lines_of(text), obj_init(), libs);
}

/// The material-library names the `mtllib` lines of a model text ask
/// for, in order.
pub open spec fn scan_fold(lines: Seq<Seq<u8>>, acc: Seq<Seq<u8>>) -> Seq<Seq<u8>>
    decreases lines.len(),
{
    if lines.len() == 0 {
        acc
    } else {
        let ws = words_of(lines[0]);
        if !line_skipped(ws) && ws[0] == kw_mtllib() && ws.len() == 2 {
            scan_fold(lines.skip(1), acc + seq![ws[1]])
        } else {
            scan_fold(lines.skip(1), acc)
        }
    }
}

/// The library names a model text asks for.
pub open spec fn scan_spec(text: Seq<u8>) -> Seq<Seq<u8>> {
    scan_fold(lines_of(text), Seq::empty())
}

/// List the material-library names the model text asks for, in the
/// order of its `mtllib` lines: one library must be supplied to
/// `load_wavefront` for each.
pub fn scan_material_libs(text: &Vec<u8>) -> (r: Vec<Vec<u8>>)
    ensures
        views_match(r@, scan_spec(text@)),
{
    let lines = split_lines(text);
    let ghost lmodel = lines_of(text@);
    let mut r: Vec<Vec<u8>> = Vec::new();
    let mut li: usize = 0;
    let ghost acc: Seq<Seq<u8>> = Seq::empty();
    proof {
        assert(lmodel.skip(0) =~= lmodel);
    }
    let mut accg: Ghost<Seq<Seq<u8>>> = Ghost(Seq::empty());
    while li < lines.len()
        invariant
            li <= lines@.len(),
            views_match(lines@, lmodel),
            views_match(r@, accg@),
            scan_spec(text@) == scan_fold(lmodel.skip(li as int), accg@),
            lmodel == lines_of(text@),
        decreases lines@.len() - li,
    {
        let line = &lines[li];
        let ws = split_words(line);
        proof {
            assert(lmodel.skip(li as int)[0] == line@);
            assert(lmodel.skip(li as int).skip(1) =~= lmodel.skip(li as int + 1));
        }
        let skip = ws.len() == 0 || (ws[0].len() > 0 && ws[0][0] == 35);
        if !skip && word_is6(&ws[0], 109, 116, 108, 108, 105, 98) && ws.len() == 2 {
            let name = copy_word(&ws[1]);
            r.push(name);
            proof {
                accg@ = accg@ + seq![ws@[1]@];
            }
        }
        li = li + 1;
    }
    proof {
        assert(lmodel.skip(li as int) =~= Seq::<Seq<u8>>::empty());
    }
    r
}

} // verus!





