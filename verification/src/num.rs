//! Decimal rendering and parsing of integers.
//!
//! Request ids travel on the wire as canonical decimal strings; JSON-RPC
//! error codes are (possibly negative) decimal lexemes.

use vstd::prelude::*;
use vstd::string::StringExecFns;

verus! {

/// The numeric value of a decimal digit character, or 10 for any other character.
pub open spec fn digit_val(c: char) -> int {
    if c == '0' {
        0
    } else if c == '1' {
        1
    } else if c == '2' {
        2
    } else if c == '3' {
        3
    } else if c == '4' {
        4
    } else if c == '5' {
        5
    } else if c == '6' {
        6
    } else if c == '7' {
        7
    } else if c == '8' {
        8
    } else if c == '9' {
        9
    } else {
        10
    }
}

pub open spec fn is_digit(c: char) -> bool {
    digit_val(c) < 10
}

/// The decimal digit character for a value below ten.
pub open spec fn digit_char(d: int) -> char {
    if d == 0 {
        '0'
    } else if d == 1 {
        '1'
    } else if d == 2 {
        '2'
    } else if d == 3 {
        '3'
    } else if d == 4 {
        '4'
    } else if d == 5 {
        '5'
    } else if d == 6 {
        '6'
    } else if d == 7 {
        '7'
    } else if d == 8 {
        '8'
    } else {
        '9'
    }
}

/// The integer denoted by a sequence of decimal digits (most significant first).
pub open spec fn dec_val(s: Seq<char>) -> int
    decreases s.len(),
{
    if s.len() == 0 {
        0
    } else {
        dec_val(s.drop_last()) * 10 + digit_val(s.last())
    }
}

/// A canonical decimal rendering: non-empty, all digits, no leading zero.
pub open spec fn is_canon_dec(s: Seq<char>) -> bool {
    &&& s.len() > 0
    &&& forall|i: int| 0 <= i < s.len() ==> is_digit(#[trigger] s[i])
    &&& (s.len() > 1 ==> s[0] != '0')
}

/// The canonical decimal rendering of a natural number.
pub open spec fn dec_str(n: nat) -> Seq<char>
    decreases n,
{
    if n < 10 {
        seq![digit_char(n as int)]
    } else {
        dec_str(n / 10).push(digit_char((n % 10) as int))
    }
}

/// Rendering a natural number gives a canonical decimal string denoting it.
pub proof fn lemma_dec_str(n: nat)
    ensures
        is_canon_dec(dec_str(n)),
        dec_val(dec_str(n)) == n,
        dec_str(n)[0] == '0' ==> n == 0,
    decreases n,
{
    if n < 10 {
        let s = seq![digit_char(n as int)];
        assert(s.drop_last() =~= Seq::<char>::empty());
        assert(dec_val(s) == dec_val(Seq::<char>::empty()) * 10 + digit_val(s.last()));
    } else {
        lemma_dec_str(n / 10);
        let s = dec_str(n);
        assert(s == dec_str(n / 10).push(digit_char((n % 10) as int)));
        assert(s.drop_last() == dec_str(n / 10));
        assert(dec_val(s) == dec_val(dec_str(n / 10)) * 10 + digit_val(
            digit_char((n % 10) as int),
        ));
        assert(n / 10 * 10 + n % 10 == n) by (nonlinear_arith);
        assert forall|i: int| 0 <= i < s.len() implies is_digit(#[trigger] s[i]) by {
            if i < s.len() - 1 {
                assert(s[i] == dec_str(n / 10)[i]);
            }
        }
        assert(s[0] == dec_str(n / 10)[0]);
    }
}

/// Two distinct naturals render to distinct decimal strings.
pub proof fn lemma_dec_str_injective(a: nat, b: nat)
    requires
        dec_str(a) == dec_str(b),
    ensures
        a == b,
{
    lemma_dec_str(a);
    lemma_dec_str(b);
}

/// The decimal digit character below ten, as a one-character string slice.
fn digit_str(d: u64) -> (r: &'static str)
    requires
        d < 10,
    ensures
        r@ == seq![digit_char(d as int)],
{
    proof {
        reveal_strlit("0");
        reveal_strlit("1");
        reveal_strlit("2");
        reveal_strlit("3");
        reveal_strlit("4");
        reveal_strlit("5");
        reveal_strlit("6");
        reveal_strlit("7");
        reveal_strlit("8");
        reveal_strlit("9");
    }
    match d {
        0 => "0",
        1 => "1",
        2 => "2",
        3 => "3",
        4 => "4",
        5 => "5",
        6 => "6",
        7 => "7",
        8 => "8",
        _ => "9",
    }
}

/// Append the canonical decimal rendering of `n` to `out`.
pub fn push_dec_u64(n: u64, out: &mut String)
    ensures
        final(out)@ == old(out)@ + dec_str(n as nat),
    decreases n,
{
    if n >= 10 {
        push_dec_u64(n / 10, out);
    }
    out.append(digit_str(n % 10));
    proof {
        if n >= 10 {
            assert(dec_str(n as nat) == dec_str((n as nat) / 10).push(
                digit_char(((n as nat) % 10) as int),
            ));
            assert(old(out)@ + dec_str((n as nat) / 10) + seq![
                digit_char(((n as nat) % 10) as int),
            ] =~= old(out)@ + dec_str(n as nat));
        } else {
            assert(old(out)@ + seq![digit_char((n as nat) as int)] =~= old(out)@ + dec_str(
                n as nat,
            ));
        }
    }
}

/// The canonical decimal rendering of `n` as a fresh string.
pub fn u64_to_dec(n: u64) -> (r: String)
    ensures
        r@ == dec_str(n as nat),
{
    let mut out = String::new();
    push_dec_u64(n, &mut out);
    proof {
        assert(Seq::<char>::empty() + dec_str(n as nat) =~= dec_str(n as nat));
    }
    out
}

/// The numeric value of a digit character, or 10 for any other character.
pub(crate) fn digit_val_exec(c: char) -> (r: u64)
    ensures
        r == digit_val(c),
{
    match c {
        '0' => 0,
        '1' => 1,
        '2' => 2,
        '3' => 3,
        '4' => 4,
        '5' => 5,
        '6' => 6,
        '7' => 7,
        '8' => 8,
        '9' => 9,
        _ => 10,
    }
}

/// A canonical decimal string denotes a value below `10^len` and conversely
/// extending it multiplies the prefix value by ten.
proof fn lemma_dec_val_prefix(s: Seq<char>, i: int)
    requires
        0 <= i < s.len(),
    ensures
        dec_val(s.subrange(0, i + 1)) == dec_val(s.subrange(0, i)) * 10 + digit_val(s[i]),
{
    let t = s.subrange(0, i + 1);
    assert(t.drop_last() =~= s.subrange(0, i));
    assert(t.last() == s[i]);
}

/// Parse a canonical decimal string as a `u64`.
///
/// Returns the denoted value exactly when the characters form a canonical
/// decimal rendering whose value fits in 64 bits; `None` otherwise.
pub fn parse_u64_dec(s: &Vec<char>) -> (r: Option<u64>)
    ensures
        match r {
            Some(n) => is_canon_dec(s@) && dec_val(s@) == n,
            None => !(is_canon_dec(s@) && dec_val(s@) <= u64::MAX),
        },
{
    if s.len() == 0 {
        return None;
    }
    if s.len() > 1 && s[0] == '0' {
        return None;
    }
    let mut acc: u64 = 0;
    let mut i: usize = 0;
    while i < s.len()
        invariant
            0 <= i <= s.len(),
            s.len() > 0,
            s.len() > 1 ==> s@[0] != '0',
            acc == dec_val(s@.subrange(0, i as int)),
            forall|k: int| 0 <= k < i ==> is_digit(#[trigger] s@[k]),
        decreases s.len() - i,
    {
        let c = s[i];
        let d = digit_val_exec(c);
        if d >= 10 {
            proof {
                assert(!is_digit(s@[i as int]));
            }
            return None;
        }
        if acc > (u64::MAX - d) / 10 {
            proof {
                lemma_dec_val_prefix(s@, i as int);
                lemma_dec_val_grows(s@, i as int + 1);
                assert(acc * 10 + d > u64::MAX);
                assert(dec_val(s@.subrange(0, i as int + 1)) > u64::MAX);
            }
            return None;
        }
        proof {
            lemma_dec_val_prefix(s@, i as int);
            assert(acc * 10 + d <= u64::MAX);
        }
        acc = acc * 10 + d;
        i = i + 1;
    }
    proof {
        assert(s@.subrange(0, s@.len() as int) =~= s@);
    }
    Some(acc)
}

/// Appending characters never decreases the denoted value.
proof fn lemma_dec_val_grows(s: Seq<char>, i: int)
    requires
        0 <= i <= s.len(),
    ensures
        dec_val(s) >= dec_val(s.subrange(0, i)),
        dec_val(s.subrange(0, i)) >= 0,
    decreases s.len() - i,
{
    lemma_dec_val_nonneg(s.subrange(0, i));
    if i < s.len() {
        lemma_dec_val_prefix(s, i);
        lemma_dec_val_grows(s, i + 1);
        assert(dec_val(s.subrange(0, i)) * 10 >= dec_val(s.subrange(0, i))) by (nonlinear_arith)
            requires
                dec_val(s.subrange(0, i)) >= 0,
        ;
    } else {
        assert(s.subrange(0, i) =~= s);
    }
}

/// Every character's digit value is non-negative, so a string's value is too.
proof fn lemma_dec_val_nonneg(s: Seq<char>)
    ensures
        dec_val(s) >= 0,
    decreases s.len(),
{
    if s.len() > 0 {
        lemma_dec_val_nonneg(s.drop_last());
        assert(dec_val(s.drop_last()) * 10 >= 0) by (nonlinear_arith)
            requires
                dec_val(s.drop_last()) >= 0,
        ;
    }
}


/// The decimal lexeme of an integer: a minus sign for negatives, then the
/// canonical digits.
pub open spec fn int_str(n: int) -> Seq<char> {
    if n < 0 {
        seq!['-'] + dec_str((-n) as nat)
    } else {
        dec_str(n as nat)
    }
}

/// The integer denoted by a canonical integer lexeme, if it is one.
pub open spec fn lex_int(s: Seq<char>) -> Option<int> {
    if is_canon_dec(s) {
        Some(dec_val(s))
    } else if s.len() >= 2 && s[0] == '-' && is_canon_dec(s.skip(1)) && dec_val(s.skip(1)) > 0 {
        Some(-dec_val(s.skip(1)))
    } else {
        None
    }
}

/// As `lex_int`, restricted to values representable as an `i64`.
pub open spec fn lex_i64(s: Seq<char>) -> Option<int> {
    match lex_int(s) {
        Some(v) => if i64::MIN <= v <= i64::MAX {
            Some(v)
        } else {
            None
        },
        None => None,
    }
}

/// Parsing inverts rendering, for every integer.
pub proof fn lemma_int_str_round_trip(n: int)
    ensures
        lex_int(int_str(n)) == Some(n),
{
    if n < 0 {
        let s = int_str(n);
        lemma_dec_str((-n) as nat);
        assert(s.skip(1) =~= dec_str((-n) as nat));
        assert(!is_canon_dec(s)) by {
            assert(s[0] == '-');
            assert(!is_digit('-'));
        }
    } else {
        lemma_dec_str(n as nat);
    }
}

/// Render an `i64` as its decimal lexeme.
pub fn i64_to_lexeme(n: i64) -> (r: String)
    ensures
        r@ == int_str(n as int),
{
    if n >= 0 {
        u64_to_dec(n as u64)
    } else {
        let mag: u64 = if n == i64::MIN {
            9223372036854775808u64
        } else {
            (-n) as u64
        };
        let mut out = String::from_str("-");
        push_dec_u64(mag, &mut out);
        proof {
            reveal_strlit("-");
            assert("-"@ =~= seq!['-']);
            assert(out@ == seq!['-'] + dec_str((-(n as int)) as nat));
        }
        out
    }
}

/// Parse a decimal integer lexeme as an `i64`.
///
/// Returns the denoted value exactly when the characters form a canonical
/// integer lexeme whose value fits in 64 signed bits; `None` otherwise.
pub fn parse_i64_lexeme(s: &Vec<char>) -> (r: Option<i64>)
    ensures
        match r {
            Some(n) => lex_i64(s@) == Some(n as int),
            None => lex_i64(s@) is None,
        },
{
    if s.len() >= 1 && s[0] == '-' {
        let mut rest: Vec<char> = Vec::new();
        let mut i: usize = 1;
        while i < s.len()
            invariant
                1 <= i <= s.len(),
                rest@ =~= s@.subrange(1, i as int),
            decreases s.len() - i,
        {
            rest.push(s[i]);
            proof {
                assert(rest@ =~= s@.subrange(1, i + 1 as int));
            }
            i = i + 1;
        }
        proof {
            assert(rest@ =~= s@.skip(1));
        }
        match parse_u64_dec(&rest) {
            Some(mag) => {
                if mag == 0 {
                    proof {
                        assert(!is_canon_dec(s@)) by {
                            if is_canon_dec(s@) {
                                assert(is_digit(s@[0]));
                            }
                        }
                    }
                    None
                } else if mag <= 9223372036854775807u64 {
                    proof {
                        assert(!is_canon_dec(s@)) by {
                            if is_canon_dec(s@) {
                                assert(is_digit(s@[0]));
                            }
                        }
                    }
                    Some(-(mag as i64))
                } else if mag == 9223372036854775808u64 {
                    proof {
                        assert(!is_canon_dec(s@)) by {
                            if is_canon_dec(s@) {
                                assert(is_digit(s@[0]));
                            }
                        }
                    }
                    Some(i64::MIN)
                } else {
                    None
                }
            },
            None => {
                proof {
                    assert(!is_canon_dec(s@)) by {
                        if is_canon_dec(s@) {
                            assert(is_digit(s@[0]));
                        }
                    }
                    if s@.len() >= 2 && is_canon_dec(s@.skip(1)) {
                        lemma_dec_val_nonneg(s@.skip(1));
                    }
                }
                None
            },
        }
    } else {
        match parse_u64_dec(s) {
            Some(v) => {
                if v <= 9223372036854775807u64 {
                    Some(v as i64)
                } else {
                    None
                }
            },
            None => {
                proof {
                    if s@.len() >= 2 && s@[0] == '-' && is_canon_dec(s@.skip(1)) {
                        assert(s@[0] == '-');
                    }
                }
                None
            },
        }
    }
}

} // verus!
