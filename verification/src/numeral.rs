//! Base-10 integers in tokens: reading a signed 64-bit integer out of a
//! token, and rendering one back. The two are proved to be inverses.

use vstd::prelude::*;

verus! {

pub open spec fn is_digit(c: char) -> bool {
    '0' <= c && c <= '9'
}

pub open spec fn digit_val(c: char) -> int {
    c as int - '0' as int
}

pub open spec fn digit_char(d: int) -> char {
    if d == 0 {
        '0'
    } else if d == 1 {
        '1'
    } else if d == 2 {
        '2'
    } else if d == 3 {
        '3'
    } else if d == 4 {
        '4'
    } else if d == 5 {
        '5'
    } else if d == 6 {
        '6'
    } else if d == 7 {
        '7'
    } else if d == 8 {
        '8'
    } else {
        '9'
    }
}

/// The value of a string of digits, most significant first.
pub open spec fn digits_val(s: Seq<char>) -> int
    decreases s.len(),
{
    if s.len() == 0 {
        0
    } else {
        digits_val(s.drop_last()) * 10 + digit_val(s.last())
    }
}

pub open spec fn all_digits(s: Seq<char>) -> bool {
    forall|i: int| 0 <= i < s.len() ==> is_digit(#[trigger] s[i])
}

/// A token that is fully numeric: an optional sign followed by at least one
/// digit, and nothing else.
pub open spec fn is_int_token(s: Seq<char>) -> bool {
    if s.len() == 0 {
        false
    } else if s[0] == '-' || s[0] == '+' {
        s.len() >= 2 && all_digits(s.drop_first())
    } else {
        all_digits(s)
    }
}

/// The mathematical value of a numeric token.
pub open spec fn int_token_val(s: Seq<char>) -> int
    recommends
        is_int_token(s),
{
    if s.len() > 0 && s[0] == '-' {
        -digits_val(s.drop_first())
    } else if s.len() > 0 && s[0] == '+' {
        digits_val(s.drop_first())
    } else {
        digits_val(s)
    }
}

pub proof fn lemma_digits_val_nonneg(s: Seq<char>)
    requires
        all_digits(s),
    ensures
        digits_val(s) >= 0,
    decreases s.len(),
{
    if s.len() > 0 {
        assert(all_digits(s.drop_last()));
        lemma_digits_val_nonneg(s.drop_last());
    }
}

/// Appending digits never shrinks the value.
pub proof fn lemma_digits_val_prefix(s: Seq<char>, j: int)
    requires
        all_digits(s),
        0 <= j <= s.len(),
    ensures
        digits_val(s.take(j)) <= digits_val(s),
    decreases s.len() - j,
{
    if j == s.len() {
        assert(s.take(j) =~= s);
    } else {
        lemma_digits_val_prefix(s, j + 1);
        assert(s.take(j + 1).drop_last() =~= s.take(j));
        assert(s.take(j + 1).last() == s[j]);
        assert(all_digits(s.take(j)));
        lemma_digits_val_nonneg(s.take(j));
        assert(digits_val(s.take(j + 1)) == digits_val(s.take(j)) * 10 + digit_val(s[j]));
    }
}

/// Reads a token as a base-10 signed 64-bit integer: an optional `+` or `-`
/// sign, then digits. Absent when the token has any other shape or the value
/// does not fit.
pub fn parse_i64(s: &str) -> (r: Option<i64>)
    ensures
        match r {
            Some(v) => is_int_token(s@) && i64::MIN <= int_token_val(s@) <= i64::MAX && v
                == int_token_val(s@),
            None => !(is_int_token(s@) && i64::MIN <= int_token_val(s@) <= i64::MAX),
        },
{
    let n = s.unicode_len();
    if n == 0 {
        return None;
    }
    let c0 = s.get_char(0);
    let negative = c0 == '-';
    let off: usize = if c0 == '-' || c0 == '+' {
        1
    } else {
        0
    };
    if n == off {
        // A bare sign is not a number.
        return None;
    }
    let ghost ds = s@.skip(off as int);
    // The value is accumulated negatively, so that the most negative 64-bit
    // integer can be read without overflow on the way.
    let mut neg_acc: i64 = 0;
    let mut j: usize = off;
    proof {
        assert(ds.take(0) =~= Seq::<char>::empty());
    }
    while j < n
        invariant
            n == s@.len(),
            off <= 1,
            off < n,
            off <= j <= n,
            ds == s@.skip(off as int),
            (off == 1) <==> (s@[0] == '-' || s@[0] == '+'),
            all_digits(ds.take(j - off)),
            neg_acc == -digits_val(ds.take(j - off)),
        decreases n - j,
    {
        let c = s.get_char(j);
        if !(c >= '0' && c <= '9') {
            proof {
                assert(ds[j - off] == s@[j as int]);
                assert(!is_digit(ds[j - off]));
                if off == 1 {
                    assert(s@.drop_first() =~= ds);
                } else {
                    assert(s@.skip(0) =~= s@);
                }
            }
            return None;
        }
        let d = (c as u32 - '0' as u32) as i64;
        proof {
            assert(ds.take(j - off + 1).drop_last() =~= ds.take(j - off));
            assert(ds.take(j - off + 1).last() == ds[j - off]);
            assert(ds[j - off] == s@[j as int]);
        }
        let shifted = match neg_acc.checked_mul(10) {
            Some(x) => x,
            None => {
                proof {
                    lemma_digits_val_nonneg(ds.take(j - off));
                    out_of_range(s@, ds, off as int, (j - off) as int);
                }
                return None;
            },
        };
        let next = match shifted.checked_sub(d) {
            Some(x) => x,
            None => {
                proof {
                    lemma_digits_val_nonneg(ds.take(j - off));
                    out_of_range(s@, ds, off as int, (j - off) as int);
                }
                return None;
            },
        };
        neg_acc = next;
        j += 1;
    }
    proof {
        assert(ds.take(n - off) =~= ds);
        if off == 1 {
            assert(s@.drop_first() =~= ds);
        } else {
            assert(s@.skip(0) =~= s@);
        }
        lemma_digits_val_nonneg(ds);
        assert(is_int_token(s@));
    }
    if negative {
        proof {
            assert(int_token_val(s@) == -digits_val(ds));
        }
        Some(neg_acc)
    } else {
        if neg_acc == i64::MIN {
            proof {
                assert(int_token_val(s@) == digits_val(ds));
            }
            return None;
        }
        proof {
            assert(int_token_val(s@) == digits_val(ds));
        }
        Some(-neg_acc)
    }
}

/// When the accumulator overflows at digit `j`, the whole token's value is
/// out of 64-bit range, whatever sign it carries.
proof fn out_of_range(s: Seq<char>, ds: Seq<char>, off: int, j: int)
    requires
        0 <= off <= 1,
        off < s.len(),
        ds == s.skip(off),
        0 <= j < ds.len(),
        all_digits(ds.take(j)),
        is_digit(ds[j]),
        digits_val(ds.take(j)) * 10 + digit_val(ds[j]) > i64::MAX as int + 1,
        (off == 1) <==> (s[0] == '-' || s[0] == '+'),
    ensures
        !(is_int_token(s) && i64::MIN <= int_token_val(s) <= i64::MAX),
{
    if is_int_token(s) && i64::MIN <= int_token_val(s) <= i64::MAX {
        // The scanned prefix with one more digit already exceeds the
        // magnitude of any representable value; adding digits cannot help.
        if off == 1 {
            assert(s.drop_first() =~= ds);
        } else {
            assert(s =~= ds);
        }
        assert(all_digits(ds));
        assert(ds.take(j + 1).drop_last() =~= ds.take(j));
        assert(ds.take(j + 1).last() == ds[j]);
        assert(digits_val(ds.take(j + 1)) > i64::MAX as int + 1);
        lemma_digits_val_prefix(ds, j + 1);
        assert(digits_val(ds) > i64::MAX as int + 1);
        if s[0] == '-' {
            assert(int_token_val(s) == -digits_val(ds));
            assert(int_token_val(s) < i64::MIN as int);
        } else {
            assert(int_token_val(s) == digits_val(ds));
            assert(int_token_val(s) > i64::MAX as int);
        }
    }
}

/// The digits of a non-negative integer, most significant first.
pub open spec fn dec_digits(n: int) -> Seq<char>
    recommends
        n >= 0,
    decreases n,
    via dec_digits_decreases
{
    if n < 10 {
        seq![digit_char(n)]
    } else {
        dec_digits(n / 10) + seq![digit_char(n % 10)]
    }
}

#[via_fn]
proof fn dec_digits_decreases(n: int) {
    if n >= 10 {
        vstd::arithmetic::div_mod::lemma_div_is_ordered_by_denominator(n, 1, 10);
        vstd::arithmetic::div_mod::lemma_div_is_strictly_smaller(n, 10);
        vstd::arithmetic::div_mod::lemma_div_pos_is_pos(n, 10);
    }
}

/// The canonical rendering of an integer: a `-` sign when negative, then the
/// digits of its magnitude.
pub open spec fn render_int(n: int) -> Seq<char> {
    if n < 0 {
        seq!['-'] + dec_digits(-n)
    } else {
        dec_digits(n)
    }
}

fn digit_str(d: u64) -> (r: &'static str)
    requires
        d < 10,
    ensures
        r@ == seq![digit_char(d as int)],
{
    proof {
        reveal_strlit("0");
        reveal_strlit("1");
        reveal_strlit("2");
        reveal_strlit("3");
        reveal_strlit("4");
        reveal_strlit("5");
        reveal_strlit("6");
        reveal_strlit("7");
        reveal_strlit("8");
        reveal_strlit("9");
    }
    let r = match d {
        0 => "0",
        1 => "1",
        2 => "2",
        3 => "3",
        4 => "4",
        5 => "5",
        6 => "6",
        7 => "7",
        8 => "8",
        _ => "9",
    };
    proof {
        assert(r@ =~= seq![digit_char(d as int)]);
    }
    r
}

fn render_u64(n: u64) -> (r: String)
    ensures
        r@ == dec_digits(n as int),
    decreases n,
{
    if n < 10 {
        String::from_str(digit_str(n))
    } else {
        proof {
            vstd::arithmetic::div_mod::lemma_div_is_strictly_smaller(n as int, 10);
            vstd::arithmetic::div_mod::lemma_div_pos_is_pos(n as int, 10);
        }
        let mut r = render_u64(n / 10);
        r.append(digit_str(n % 10));
        r
    }
}

/// Renders an integer in base 10, with a leading `-` when negative.
pub fn render_i64(n: i64) -> (r: String)
    ensures
        r@ == render_int(n as int),
{
    if n >= 0 {
        render_u64(n as u64)
    } else {
        let mag: u64 = if n == i64::MIN {
            9223372036854775808u64
        } else {
            (-n) as u64
        };
        proof {
            assert(mag as int == -(n as int));
        }
        let mut r = String::from_str("-");
        r.append(render_u64(mag).as_str());
        proof {
            reveal_strlit("-");
            assert(r@ =~= seq!['-'] + dec_digits(mag as int));
        }
        r
    }
}

pub proof fn lemma_dec_digits_all_digits(n: int)
    requires
        n >= 0,
    ensures
        all_digits(dec_digits(n)),
        dec_digits(n).len() >= 1,
        is_digit(dec_digits(n)[0]),
    decreases n,
{
    if n < 10 {
    } else {
        vstd::arithmetic::div_mod::lemma_div_pos_is_pos(n, 10);
        lemma_dec_digits_all_digits(n / 10);
        assert forall|i: int| 0 <= i < dec_digits(n).len() implies is_digit(
            #[trigger] dec_digits(n)[i],
        ) by {
            if i < dec_digits(n / 10).len() {
                assert(dec_digits(n)[i] == dec_digits(n / 10)[i]);
            } else {
                vstd::arithmetic::div_mod::lemma_mod_bound(n, 10);
            }
        }
    }
}

/// Rendering then reading digits gives the number back.
pub proof fn lemma_dec_digits_val(n: int)
    requires
        n >= 0,
    ensures
        digits_val(dec_digits(n)) == n,
    decreases n,
{
    if n < 10 {
        assert(dec_digits(n) =~= seq![digit_char(n)]);
        assert(seq![digit_char(n)].drop_last() =~= Seq::<char>::empty());
        assert(digits_val(Seq::<char>::empty()) == 0);
        assert(seq![digit_char(n)].last() == digit_char(n));
        assert(digits_val(seq![digit_char(n)]) == digit_val(digit_char(n)));
    } else {
        vstd::arithmetic::div_mod::lemma_div_pos_is_pos(n, 10);
        lemma_dec_digits_val(n / 10);
        let s = dec_digits(n);
        assert(s.drop_last() =~= dec_digits(n / 10));
        assert(s.last() == digit_char(n % 10));
        vstd::arithmetic::div_mod::lemma_mod_bound(n, 10);
        vstd::arithmetic::div_mod::lemma_fundamental_div_mod(n, 10);
    }
}

/// A rendered 64-bit integer is a numeric token and reads back as itself.
pub proof fn lemma_render_int_roundtrip(n: int)
    requires
        i64::MIN <= n <= i64::MAX,
    ensures
        is_int_token(render_int(n)),
        int_token_val(render_int(n)) == n,
{
    if n < 0 {
        let s = render_int(n);
        lemma_dec_digits_all_digits(-n);
        lemma_dec_digits_val(-n);
        assert(s[0] == '-');
        assert(s.drop_first() =~= dec_digits(-n));
    } else {
        lemma_dec_digits_all_digits(n);
        lemma_dec_digits_val(n);
        assert(!(render_int(n)[0] == '-') && !(render_int(n)[0] == '+'));
    }
}

} // verus!
