//! Decimal rendering of rollup sums. Rollup contributions are kept as
//! micro-units (millionths) in an `i64`; when a span is sent each sum is
//! written as a decimal numeral, the form a JSON number takes on the wire.

use vstd::prelude::*;
use vstd::string::*;

verus! {

/// The decimal digit character for `d` in `0..10`.
pub open spec fn dec_digit(d: int) -> char {
    if d == 0 {
        '0'
    } else if d == 1 {
        '1'
    } else if d == 2 {
        '2'
    } else if d == 3 {
        '3'
    } else if d == 4 {
        '4'
    } else if d == 5 {
        '5'
    } else if d == 6 {
        '6'
    } else if d == 7 {
        '7'
    } else if d == 8 {
        '8'
    } else {
        '9'
    }
}

/// The decimal numeral of a natural number, most significant digit first.
pub open spec fn dec_of(n: nat) -> Seq<char>
    decreases n,
{
    if n < 10 {
        seq![dec_digit(n as int)]
    } else {
        dec_of(n / 10).push(dec_digit((n % 10) as int))
    }
}

/// One or more decimal digit characters.
pub open spec fn is_dec_digits(s: Seq<char>) -> bool {
    s.len() > 0 && forall|i: int| 0 <= i < s.len() ==> '0' <= #[trigger] s[i] && s[i] <= '9'
}

/// Digits, or digits around a single point.
pub open spec fn is_dec_body(b: Seq<char>) -> bool {
    is_dec_digits(b) || (exists|k: int|
        1 <= k < b.len() && b[k] == '.' && is_dec_digits(#[trigger] b.subrange(0, k))
            && is_dec_digits(b.subrange(k + 1, b.len() as int)))
}

/// A decimal numeral: an optional minus sign, digits, and at most one point
/// with digits after it. Every such text is a valid JSON number, apart from
/// redundant leading zeros, which this module never writes.
pub open spec fn is_decimal_text(s: Seq<char>) -> bool {
    if s.len() > 0 && s[0] == '-' {
        is_dec_body(s.subrange(1, s.len() as int))
    } else {
        is_dec_body(s)
    }
}

/// The sequence without its trailing `'0'` characters.
pub open spec fn trim_zeros(s: Seq<char>) -> Seq<char>
    decreases s.len(),
{
    if s.len() > 0 && s[s.len() - 1] == '0' {
        trim_zeros(s.drop_last())
    } else {
        s
    }
}

/// The six fraction digits of `r < 1000000`, zero-padded on the left.
pub open spec fn frac6(r: nat) -> Seq<char> {
    dec_of((r + 1000000) as nat).subrange(1, 7)
}

/// The decimal numeral a micro-unit count stands for: the sign, the whole
/// part, and the non-zero fraction digits if there are any.
pub open spec fn micros_dec_of(m: int) -> Seq<char> {
    let mag = if m >= 0 {
        m
    } else {
        -m
    };
    let base = dec_of((mag / 1000000) as nat);
    let frac = trim_zeros(frac6((mag % 1000000) as nat));
    let body = if frac.len() == 0 {
        base
    } else {
        base + seq!['.'] + frac
    };
    if m < 0 {
        seq!['-'] + body
    } else {
        body
    }
}

/// The length of `dec_of(n)`.
pub open spec fn dec_len(n: nat) -> nat
    decreases n,
{
    if n < 10 {
        1
    } else {
        1 + dec_len(n / 10)
    }
}

pub proof fn lemma_dec_of_len(n: nat)
    ensures
        dec_of(n).len() == dec_len(n),
    decreases n,
{
    if n >= 10 {
        lemma_dec_of_len(n / 10);
    }
}

pub proof fn lemma_dec_of_digits(n: nat)
    ensures
        is_dec_digits(dec_of(n)),
    decreases n,
{
    if n >= 10 {
        lemma_dec_of_digits(n / 10);
    }
}

/// Trimming only ever leaves a prefix of digits behind.
pub proof fn lemma_trim_zeros_prefix(s: Seq<char>)
    ensures
        trim_zeros(s).len() <= s.len(),
        trim_zeros(s) == s.subrange(0, trim_zeros(s).len() as int),
    decreases s.len(),
{
    if s.len() > 0 && s[s.len() - 1] == '0' {
        lemma_trim_zeros_prefix(s.drop_last());
        assert(s.drop_last() == s.subrange(0, s.len() - 1));
        assert(s.drop_last().subrange(0, trim_zeros(s).len() as int) == s.subrange(
            0,
            trim_zeros(s).len() as int,
        ));
    } else {
        assert(s == s.subrange(0, s.len() as int));
    }
}

/// The digit character for `d < 10`.
fn digit_str(d: u64) -> (r: &'static str)
    requires
        d < 10,
    ensures
        r@ == seq![dec_digit(d as int)],
{
    let s: &'static str = "0123456789";
    proof {
        reveal_strlit("0123456789");
    }
    let r = s.substring_char(d as usize, d as usize + 1);
    proof {
        assert(r@ =~= seq![dec_digit(d as int)]);
    }
    r
}

/// The decimal numeral of `n`.
pub(crate) fn u64_dec(n: u64) -> (r: String)
    ensures
        r@ == dec_of(n as nat),
    decreases n,
{
    if n < 10 {
        let d = digit_str(n);
        let r = d.to_owned();
        r
    } else {
        let mut s = u64_dec(n / 10);
        s.append(digit_str(n % 10));
        proof {
            assert(s@ =~= dec_of(n as nat));
        }
        s
    }
}

/// The decimal numeral of a micro-unit count.
pub(crate) fn micros_text(m: i64) -> (r: String)
    ensures
        r@ == micros_dec_of(m as int),
        is_decimal_text(r@),
{
    let mag: u64 = if m >= 0 {
        m as u64
    } else {
        let p: i64 = -(m + 1);
        (p as u64) + 1
    };
    let q: u64 = mag / 1000000;
    let rem: u64 = mag % 1000000;
    let base = u64_dec(q);
    proof {
        lemma_dec_of_digits(q as nat);
    }
    let pad = u64_dec(rem + 1000000);
    proof {
        lemma_dec_of_len((rem + 1000000) as nat);
        assert(dec_len((rem + 1000000) as nat) == 7) by {
            reveal_with_fuel(dec_len, 9);
        }
    }
    let frac_all = pad.as_str().substring_char(1, 7);
    assert(frac_all@ == frac6(rem as nat));
    let mut end: usize = 6;
    proof {
        assert(frac_all@.subrange(0, 6) =~= frac_all@);
    }
    while end > 0 && frac_all.get_char(end - 1) == '0'
        invariant
            end <= 6,
            frac_all@ == frac6(rem as nat),
            frac_all@.len() == 6,
            trim_zeros(frac_all@.subrange(0, end as int)) == trim_zeros(frac6(rem as nat)),
        decreases end,
    {
        proof {
            assert(frac_all@.subrange(0, end as int).drop_last() == frac_all@.subrange(
                0,
                end - 1,
            ));
        }
        end = end - 1;
    }
    let ghost frac = trim_zeros(frac6(rem as nat));
    proof {
        if end > 0 {
            assert(trim_zeros(frac_all@.subrange(0, end as int)) == frac_all@.subrange(
                0,
                end as int,
            ));
        } else {
            assert(frac_all@.subrange(0, 0) =~= Seq::<char>::empty());
        }
        lemma_trim_zeros_prefix(frac6(rem as nat));
    }
    let mut out = String::new();
    if m < 0 {
        out.append("-");
        proof {
            reveal_strlit("-");
        }
    }
    out.append(base.as_str());
    if end > 0 {
        out.append(".");
        proof {
            reveal_strlit(".");
        }
        let fr = frac_all.substring_char(0, end);
        out.append(fr);
    }
    proof {
        let mi = m as int;
        let magi = if mi >= 0 {
            mi
        } else {
            -mi
        };
        assert(mag == magi);
        assert(q == magi / 1000000 && rem == magi % 1000000);
        let body = if frac.len() == 0 {
            dec_of(q as nat)
        } else {
            dec_of(q as nat) + seq!['.'] + frac
        };
        if end > 0 {
            assert(frac.len() > 0);
            assert(is_dec_digits(frac)) by {
                lemma_dec_of_digits((rem + 1000000) as nat);
                lemma_trim_zeros_prefix(frac6(rem as nat));
            }
        } else {
            assert(frac.len() == 0);
        }
        assert(out@ =~= micros_dec_of(m as int));
        lemma_micros_decimal_shape(dec_of(q as nat), frac, mi < 0);
        assert(is_decimal_text(out@));
    }
    out
}

/// A numeral assembled from digit groups has the decimal shape.
proof fn lemma_micros_decimal_shape(base: Seq<char>, frac: Seq<char>, neg: bool)
    requires
        is_dec_digits(base),
        frac.len() == 0 || is_dec_digits(frac),
    ensures
        ({
            let body = if frac.len() == 0 {
                base
            } else {
                base + seq!['.'] + frac
            };
            is_decimal_text(
                if neg {
                    seq!['-'] + body
                } else {
                    body
                },
            )
        }),
{
    let body = if frac.len() == 0 {
        base
    } else {
        base + seq!['.'] + frac
    };
    if frac.len() > 0 {
        let k = base.len() as int;
        assert(body.subrange(0, k) =~= base);
        assert(body.subrange(k + 1, body.len() as int) =~= frac);
        assert(body[k] == '.');
        assert(1 <= k < body.len());
        assert(is_dec_body(body));
    } else {
        assert(is_dec_body(body));
    }
    if neg {
        let s = seq!['-'] + body;
        assert(s[0] == '-');
        assert(s.subrange(1, s.len() as int) =~= body);
    } else {
        if body.len() > 0 && body[0] == '-' {
            assert(false);
        }
    }
}

} // verus!
