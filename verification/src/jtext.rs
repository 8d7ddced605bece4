//! The JSON wire text: serialization of JSON values to their canonical
//! compact form, and a parser for that form. The serializer escapes exactly
//! the quote, the backslash and the control characters; it emits no
//! whitespace and no line feed, so one serialized message is always one
//! line.

use vstd::prelude::*;
use crate::json::{Json, JsonV, JsonField, view_arr, view_obj, lemma_view_arr, lemma_view_obj};
use crate::num::{is_digit, digit_val, digit_val_exec, digit_char, int_str, dec_str, lemma_dec_str};
use crate::strutil::chars_to_string;

verus! {

/// A control character, which must be escaped inside strings.
pub open spec fn is_ctl(c: char) -> bool {
    (c as u32) < 0x20
}

/// The lowercase hexadecimal digit for a value below sixteen.
pub open spec fn hex_digit(d: int) -> char {
    if d == 0 {
        '0'
    } else if d == 1 {
        '1'
    } else if d == 2 {
        '2'
    } else if d == 3 {
        '3'
    } else if d == 4 {
        '4'
    } else if d == 5 {
        '5'
    } else if d == 6 {
        '6'
    } else if d == 7 {
        '7'
    } else if d == 8 {
        '8'
    } else if d == 9 {
        '9'
    } else if d == 10 {
        'a'
    } else if d == 11 {
        'b'
    } else if d == 12 {
        'c'
    } else if d == 13 {
        'd'
    } else if d == 14 {
        'e'
    } else {
        'f'
    }
}

/// The escape of one string character: quote and backslash get a two
/// character escape, the five common control characters their short forms,
/// any other control character a `\u00` escape, and everything else stands
/// for itself.
pub open spec fn esc_char(c: char) -> Seq<char> {
    if c == '"' {
        seq!['\\', '"']
    } else if c == '\\' {
        seq!['\\', '\\']
    } else if c == '\u{8}' {
        seq!['\\', 'b']
    } else if c == '\t' {
        seq!['\\', 't']
    } else if c == '\n' {
        seq!['\\', 'n']
    } else if c == '\u{c}' {
        seq!['\\', 'f']
    } else if c == '\r' {
        seq!['\\', 'r']
    } else if is_ctl(c) {
        seq!['\\', 'u', '0', '0', hex_digit(c as u32 as int / 16), hex_digit(c as u32 as int % 16)]
    } else {
        seq![c]
    }
}

/// The escaped form of a string's characters.
pub open spec fn esc_str(s: Seq<char>) -> Seq<char>
    decreases s.len(),
{
    if s.len() == 0 {
        Seq::empty()
    } else {
        esc_char(s[0]) + esc_str(s.drop_first())
    }
}

/// Where a decimal digit run starting at `i` ends.
pub open spec fn skip_digits(s: Seq<char>, i: int) -> int
    decreases s.len() - i,
{
    if 0 <= i < s.len() && is_digit(s[i]) {
        skip_digits(s, i + 1)
    } else {
        i
    }
}

/// Where a JSON number starting at `i` ends, if one starts there: an
/// optional minus, an integer part without leading zeros, an optional
/// fraction, an optional exponent.
pub open spec fn num_end(s: Seq<char>, i: int) -> Option<int> {
    let p0: int = if i < s.len() && s[i] == '-' {
        i + 1
    } else {
        i
    };
    if !(p0 < s.len() && is_digit(s[p0])) {
        None
    } else {
        let p1: int = if s[p0] == '0' {
            p0 + 1
        } else {
            skip_digits(s, p0)
        };
        let p2: int = if p1 < s.len() && s[p1] == '.' {
            if p1 + 1 < s.len() && is_digit(s[p1 + 1]) {
                skip_digits(s, p1 + 1)
            } else {
                -1
            }
        } else {
            p1
        };
        if p2 < 0 {
            None
        } else {
            let p3: int = if p2 < s.len() && (s[p2] == 'e' || s[p2] == 'E') {
                let q: int = if p2 + 1 < s.len() && (s[p2 + 1] == '+' || s[p2 + 1] == '-') {
                    p2 + 2
                } else {
                    p2 + 1
                };
                if q < s.len() && is_digit(s[q]) {
                    skip_digits(s, q)
                } else {
                    -1
                }
            } else {
                p2
            };
            if p3 < 0 {
                None
            } else {
                Some(p3)
            }
        }
    }
}

/// A complete JSON number lexeme.
pub open spec fn is_num_lexeme(s: Seq<char>) -> bool {
    s.len() > 0 && num_end(s, 0) == Some(s.len() as int)
}

/// A well-formed JSON value: every number lexeme in it is a complete JSON
/// number.
pub open spec fn wf_json(v: JsonV) -> bool
    decreases v,
{
    match v {
        JsonV::Null => true,
        JsonV::Bool(_) => true,
        JsonV::Num(lex) => is_num_lexeme(lex),
        JsonV::Str(_) => true,
        JsonV::Arr(items) => wf_arr(items),
        JsonV::Obj(pairs) => wf_obj(pairs),
    }
}

/// Every element of an array is well-formed.
pub open spec fn wf_arr(items: Seq<JsonV>) -> bool
    decreases items,
{
    if items.len() == 0 {
        true
    } else {
        wf_arr(items.drop_last()) && wf_json(items.last())
    }
}

/// Every member value of an object is well-formed.
pub open spec fn wf_obj(pairs: Seq<(Seq<char>, JsonV)>) -> bool
    decreases pairs,
{
    if pairs.len() == 0 {
        true
    } else {
        wf_obj(pairs.drop_last()) && wf_json(pairs.last().1)
    }
}

/// The canonical serialization of a JSON value.
pub open spec fn ser_json(v: JsonV) -> Seq<char>
    decreases v, 0int,
{
    match v {
        JsonV::Null => seq!['n', 'u', 'l', 'l'],
        JsonV::Bool(b) => if b {
            seq!['t', 'r', 'u', 'e']
        } else {
            seq!['f', 'a', 'l', 's', 'e']
        },
        JsonV::Num(lex) => lex,
        JsonV::Str(s) => seq!['"'] + esc_str(s) + seq!['"'],
        JsonV::Arr(items) => seq!['['] + ser_arr(items) + seq![']'],
        JsonV::Obj(pairs) => seq!['{'] + ser_obj(pairs) + seq!['}'],
    }
}

/// The comma-joined serializations of an array's elements.
pub open spec fn ser_arr(items: Seq<JsonV>) -> Seq<char>
    decreases items, 0int,
{
    if items.len() == 0 {
        Seq::empty()
    } else if items.len() == 1 {
        ser_json(items[0])
    } else {
        ser_arr(items.drop_last()) + seq![','] + ser_json(items.last())
    }
}

/// The serialization of one object member.
pub open spec fn ser_member(key: Seq<char>, v: JsonV) -> Seq<char>
    decreases v, 1int,
{
    seq!['"'] + esc_str(key) + seq!['"', ':'] + ser_json(v)
}

/// The comma-joined serializations of an object's members.
pub open spec fn ser_obj(pairs: Seq<(Seq<char>, JsonV)>) -> Seq<char>
    decreases pairs, 0int,
{
    if pairs.len() == 0 {
        Seq::empty()
    } else if pairs.len() == 1 {
        ser_member(pairs[0].0, pairs[0].1)
    } else {
        ser_obj(pairs.drop_last()) + seq![','] + ser_member(pairs.last().0, pairs.last().1)
    }
}


/// The first character of a well-formed value's serialization classifies
/// the value.
pub proof fn lemma_ser_shape(v: JsonV)
    requires
        wf_json(v),
    ensures
        ser_json(v).len() > 0,
        v is Null <==> ser_json(v)[0] == 'n',
        v is Bool && v->Bool_0 <==> ser_json(v)[0] == 't',
        v is Bool && !v->Bool_0 <==> ser_json(v)[0] == 'f',
        v is Str <==> ser_json(v)[0] == '"',
        v is Arr <==> ser_json(v)[0] == '[',
        v is Obj <==> ser_json(v)[0] == '{',
        v is Num <==> (ser_json(v)[0] == '-' || is_digit(ser_json(v)[0])),
        v is Num ==> ser_json(v) == v->Num_0,
        ser_json(v)[0] == 'n' || ser_json(v)[0] == 't' || ser_json(v)[0] == 'f' || ser_json(v)[0]
            == '"' || ser_json(v)[0] == '[' || ser_json(v)[0] == '{' || ser_json(v)[0] == '-'
            || is_digit(ser_json(v)[0]),
{
    match v {
        JsonV::Num(lex) => {
            assert(lex.len() > 0);
            if lex[0] != '-' {
                assert(is_digit(lex[0]));
            }
        },
        JsonV::Str(st) => {
            assert(ser_json(v)[0] == '"');
            assert(!is_digit('"'));
        },
        JsonV::Arr(items) => {
            assert(ser_json(v)[0] == '[');
            assert(!is_digit('['));
        },
        JsonV::Obj(pairs) => {
            assert(ser_json(v)[0] == '{');
            assert(!is_digit('{'));
        },
        JsonV::Null => {
            assert(!is_digit('n'));
        },
        JsonV::Bool(b) => {
            if b {
                assert(!is_digit('t'));
            } else {
                assert(!is_digit('f'));
            }
        },
    }
}

/// The escape of a character never starts with a quote, starts with a
/// backslash exactly when the character needs escaping, and is the
/// character itself otherwise.
pub proof fn lemma_esc_char_first(c: char)
    ensures
        esc_char(c).len() >= 1,
        esc_char(c)[0] != '"',
        esc_char(c)[0] == '\\' <==> (c == '"' || c == '\\' || is_ctl(c)),
        !(c == '"' || c == '\\' || is_ctl(c)) ==> esc_char(c) == seq![c],
        (c == '"' || c == '\\' || is_ctl(c)) ==> esc_char(c).len() >= 2,
{
}

/// Well-formedness of an array is well-formedness of every element.
pub proof fn lemma_wf_arr_first(items: Seq<JsonV>)
    requires
        wf_arr(items),
        items.len() >= 1,
    ensures
        wf_json(items[0]),
        wf_arr(items.drop_first()),
    decreases items.len(),
{
    if items.len() == 1 {
        assert(items.last() == items[0]);
        assert(items.drop_first() =~= items.drop_last());
    } else {
        lemma_wf_arr_first(items.drop_last());
        assert(items.drop_last()[0] == items[0]);
        assert(items.drop_first().drop_last() =~= items.drop_last().drop_first());
        assert(items.drop_first().last() == items.last());
        assert(wf_arr(items.drop_first())) by {
            assert(wf_arr(items.drop_first().drop_last()));
            assert(wf_json(items.drop_first().last()));
        }
    }
}

/// Well-formedness of an object is well-formedness of every member value.
pub proof fn lemma_wf_obj_first(pairs: Seq<(Seq<char>, JsonV)>)
    requires
        wf_obj(pairs),
        pairs.len() >= 1,
    ensures
        wf_json(pairs[0].1),
        wf_obj(pairs.drop_first()),
    decreases pairs.len(),
{
    if pairs.len() == 1 {
        assert(pairs.last() == pairs[0]);
        assert(pairs.drop_first() =~= pairs.drop_last());
    } else {
        lemma_wf_obj_first(pairs.drop_last());
        assert(pairs.drop_last()[0] == pairs[0]);
        assert(pairs.drop_first().drop_last() =~= pairs.drop_last().drop_first());
        assert(pairs.drop_first().last() == pairs.last());
        assert(wf_obj(pairs.drop_first())) by {
            assert(wf_obj(pairs.drop_first().drop_last()));
            assert(wf_json(pairs.drop_first().last().1));
        }
    }
}

/// An array's serialization starts with its first element.
pub proof fn lemma_ser_arr_first(items: Seq<JsonV>)
    requires
        items.len() >= 1,
    ensures
        items.len() == 1 ==> ser_arr(items) == ser_json(items[0]),
        items.len() > 1 ==> ser_arr(items) == ser_json(items[0]) + seq![','] + ser_arr(
            items.drop_first(),
        ),
    decreases items.len(),
{
    if items.len() > 1 {
        lemma_ser_arr_first(items.drop_last());
        if items.len() == 2 {
            assert(items.drop_last()[0] == items[0]);
            assert(items.drop_first() =~= seq![items[1]]);
            assert(items.drop_first()[0] == items[1]);
            assert(ser_arr(items.drop_first()) == ser_json(items[1]));
            assert(items.last() == items[1]);
            assert(ser_arr(items) == ser_json(items[0]) + seq![','] + ser_json(items[1]));
        } else {
            assert(items.drop_last()[0] == items[0]);
            assert(items.drop_first().drop_last() =~= items.drop_last().drop_first());
            assert(items.drop_first().last() == items.last());
            assert(ser_arr(items.drop_first()) == ser_arr(items.drop_first().drop_last()) + seq![
                ','
            ] + ser_json(items.drop_first().last()));
            assert(ser_arr(items) == ser_arr(items.drop_last()) + seq![','] + ser_json(
                items.last(),
            ));
            assert((ser_json(items[0]) + seq![','] + ser_arr(items.drop_last().drop_first()))
                + seq![','] + ser_json(items.last()) =~= ser_json(items[0]) + seq![','] + ((
            ser_arr(items.drop_last().drop_first()) + seq![','] + ser_json(items.last()))));
        }
    }
}

/// An object's serialization starts with its first member.
pub proof fn lemma_ser_obj_first(pairs: Seq<(Seq<char>, JsonV)>)
    requires
        pairs.len() >= 1,
    ensures
        pairs.len() == 1 ==> ser_obj(pairs) == ser_member(pairs[0].0, pairs[0].1),
        pairs.len() > 1 ==> ser_obj(pairs) == ser_member(pairs[0].0, pairs[0].1) + seq![',']
            + ser_obj(pairs.drop_first()),
    decreases pairs.len(),
{
    if pairs.len() > 1 {
        lemma_ser_obj_first(pairs.drop_last());
        if pairs.len() == 2 {
            assert(pairs.drop_last()[0] == pairs[0]);
            assert(pairs.drop_first() =~= seq![pairs[1]]);
            assert(pairs.drop_first()[0] == pairs[1]);
            assert(ser_obj(pairs.drop_first()) == ser_member(pairs[1].0, pairs[1].1));
            assert(pairs.last() == pairs[1]);
            assert(ser_obj(pairs) == ser_member(pairs[0].0, pairs[0].1) + seq![','] + ser_member(
                pairs[1].0,
                pairs[1].1,
            ));
        } else {
            assert(pairs.drop_last()[0] == pairs[0]);
            assert(pairs.drop_first().drop_last() =~= pairs.drop_last().drop_first());
            assert(pairs.drop_first().last() == pairs.last());
            assert(ser_obj(pairs.drop_first()) == ser_obj(pairs.drop_first().drop_last()) + seq![
                ','
            ] + ser_member(pairs.drop_first().last().0, pairs.drop_first().last().1));
            assert(ser_obj(pairs) == ser_obj(pairs.drop_last()) + seq![','] + ser_member(
                pairs.last().0,
                pairs.last().1,
            ));
            assert((ser_member(pairs[0].0, pairs[0].1) + seq![','] + ser_obj(
                pairs.drop_last().drop_first(),
            )) + seq![','] + ser_member(pairs.last().0, pairs.last().1) =~= ser_member(
                pairs[0].0,
                pairs[0].1,
            ) + seq![','] + ((ser_obj(pairs.drop_last().drop_first()) + seq![','] + ser_member(
                pairs.last().0,
                pairs.last().1,
            ))));
        }
    }
}


/// Characters that may follow a complete value: a separator, a closer, or
/// the end of input.
pub open spec fn boundary_ok(s: Seq<char>, j: int) -> bool {
    j == s.len() || s[j] == ',' || s[j] == '}' || s[j] == ']' || s[j] == ':'
}

/// A digit run embedded in a longer text ends where it ends in the lexeme.
proof fn lemma_skip_digits_embed(s: Seq<char>, i: int, lex: Seq<char>, p: int)
    requires
        0 <= p <= lex.len(),
        0 <= i,
        i + lex.len() <= s.len(),
        forall|k: int| 0 <= k < lex.len() ==> s[i + k] == #[trigger] lex[k],
        boundary_ok(s, i + lex.len()),
    ensures
        skip_digits(s, i + p) == i + skip_digits(lex, p),
    decreases lex.len() - p,
{
    if p < lex.len() {
        if is_digit(lex[p]) {
            assert(s[i + p] == lex[p]);
            lemma_skip_digits_embed(s, i, lex, p + 1);
        } else {
            assert(s[i + p] == lex[p]);
        }
    } else {
        let j = i + lex.len();
        if j < s.len() {
            assert(!is_digit(s[j]));
        }
    }
}

/// A complete number lexeme embedded before a boundary scans to exactly its
/// own end.
proof fn lemma_num_embed(s: Seq<char>, i: int, lex: Seq<char>)
    requires
        is_num_lexeme(lex),
        0 <= i,
        i + lex.len() <= s.len(),
        s.subrange(i, i + lex.len()) == lex,
        boundary_ok(s, i + lex.len()),
    ensures
        num_end(s, i) == Some(i + lex.len()),
{
    let n = lex.len() as int;
    let j = i + n;
    assert forall|k: int| 0 <= k < n implies s[i + k] == #[trigger] lex[k] by {
        assert(s.subrange(i, j)[k] == s[i + k]);
    }
    assert(num_end(lex, 0) == Some(n));
    let bnd_not_num: bool = j == s.len() || (!is_digit(s[j]) && s[j] != '.' && s[j] != 'e' && s[j]
        != 'E' && s[j] != '-' && s[j] != '+');
    assert(bnd_not_num);
    let p0l: int = if 0 < n && lex[0] == '-' {
        1
    } else {
        0
    };
    let p0s: int = if i < s.len() && s[i] == '-' {
        i + 1
    } else {
        i
    };
    assert(s[i] == lex[0]);
    assert(p0s == i + p0l);
    assert(p0l < n && is_digit(lex[p0l]));
    assert(s[p0s] == lex[p0l]);
    let p1l: int = if lex[p0l] == '0' {
        p0l + 1
    } else {
        skip_digits(lex, p0l)
    };
    let p1s: int = if s[p0s] == '0' {
        p0s + 1
    } else {
        skip_digits(s, p0s)
    };
    lemma_skip_digits_embed(s, i, lex, p0l);
    assert(p1s == i + p1l);
    lemma_skip_digits_bounds(lex, p0l);
    assert(p0l <= p1l <= n);
    let p2l: int = if p1l < n && lex[p1l] == '.' {
        if p1l + 1 < n && is_digit(lex[p1l + 1]) {
            skip_digits(lex, p1l + 1)
        } else {
            -1
        }
    } else {
        p1l
    };
    if p1l < n {
        assert(s[p1s] == lex[p1l]);
    }
    let p2s: int = if p1s < s.len() && s[p1s] == '.' {
        if p1s + 1 < s.len() && is_digit(s[p1s + 1]) {
            skip_digits(s, p1s + 1)
        } else {
            -1
        }
    } else {
        p1s
    };
    assert(p2l >= 0);
    if p1l < n && lex[p1l] == '.' {
        assert(p1l + 1 < n && is_digit(lex[p1l + 1]));
        assert(s[p1s + 1] == lex[p1l + 1]);
        lemma_skip_digits_embed(s, i, lex, p1l + 1);
        lemma_skip_digits_bounds(lex, p1l + 1);
        assert(p2s == i + p2l);
    } else if p1l == n {
        assert(p2s == p1s);
        assert(p2l == p1l);
    } else {
        assert(p2s == p1s);
    }
    assert(p2s == i + p2l);
    assert(p2l <= n);
    let p3l: int = if p2l < n && (lex[p2l] == 'e' || lex[p2l] == 'E') {
        let q: int = if p2l + 1 < n && (lex[p2l + 1] == '+' || lex[p2l + 1] == '-') {
            p2l + 2
        } else {
            p2l + 1
        };
        if q < n && is_digit(lex[q]) {
            skip_digits(lex, q)
        } else {
            -1
        }
    } else {
        p2l
    };
    assert(p3l == n);
    if p2l < n && (lex[p2l] == 'e' || lex[p2l] == 'E') {
        assert(s[p2s] == lex[p2l]);
        let ql: int = if p2l + 1 < n && (lex[p2l + 1] == '+' || lex[p2l + 1] == '-') {
            p2l + 2
        } else {
            p2l + 1
        };
        assert(ql < n && is_digit(lex[ql]));
        if p2l + 1 < n {
            assert(s[p2s + 1] == lex[p2l + 1]);
        }
        lemma_skip_digits_embed(s, i, lex, ql);
        assert(num_end(s, i) == Some(i + skip_digits(lex, ql)));
    } else {
        assert(p2l == n);
        if p2s < s.len() {
            assert(s[p2s] != 'e' && s[p2s] != 'E');
        }
        assert(num_end(s, i) == Some(p2s));
    }
}

/// A digit run ends within the sequence and not before it starts.
proof fn lemma_skip_digits_bounds(s: Seq<char>, i: int)
    requires
        0 <= i <= s.len(),
    ensures
        i <= skip_digits(s, i) <= s.len(),
    decreases s.len() - i,
{
    if i < s.len() && is_digit(s[i]) {
        lemma_skip_digits_bounds(s, i + 1);
    }
}

/// Where the digit run starting at `i` ends, executable form.
#[verifier::loop_isolation(false)]
fn skip_digits_exec(s: &Vec<char>, i: usize) -> (r: usize)
    requires
        i <= s@.len(),
    ensures
        r == skip_digits(s@, i as int),
        i <= r <= s@.len(),
{
    let mut p = i;
    while p < s.len() && digit_val_exec(s[p]) < 10
        invariant
            i <= p <= s@.len(),
            skip_digits(s@, i as int) == skip_digits(s@, p as int),
        decreases s@.len() - p,
    {
        p = p + 1;
    }
    p
}

/// Scan one JSON number starting at `i`: its end position, if a complete
/// number starts there.
#[verifier::loop_isolation(false)]
fn num_end_exec(s: &Vec<char>, i: usize) -> (r: Option<usize>)
    requires
        i <= s@.len(),
    ensures
        match r {
            Some(j) => num_end(s@, i as int) == Some(j as int) && i < j <= s@.len(),
            None => num_end(s@, i as int) is None,
        },
{
    let p0 = if i < s.len() && s[i] == '-' {
        i + 1
    } else {
        i
    };
    if !(p0 < s.len() && digit_val_exec(s[p0]) < 10) {
        return None;
    }
    let p1 = if s[p0] == '0' {
        p0 + 1
    } else {
        skip_digits_exec(s, p0)
    };
    proof {
        lemma_skip_digits_bounds(s@, p0 as int + 1);
        assert(skip_digits(s@, p0 as int) == skip_digits(s@, p0 as int + 1));
        assert(p1 > p0);
    }
    let p2 = if p1 < s.len() && s[p1] == '.' {
        if p1 + 1 < s.len() && digit_val_exec(s[p1 + 1]) < 10 {
            skip_digits_exec(s, p1 + 1)
        } else {
            return None;
        }
    } else {
        p1
    };
    proof {
        lemma_skip_digits_bounds(s@, p2 as int);
    }
    let p3 = if p2 < s.len() && (s[p2] == 'e' || s[p2] == 'E') {
        let q = if p2 + 1 < s.len() && (s[p2 + 1] == '+' || s[p2 + 1] == '-') {
            p2 + 2
        } else {
            p2 + 1
        };
        if q < s.len() && digit_val_exec(s[q]) < 10 {
            skip_digits_exec(s, q)
        } else {
            return None;
        }
    } else {
        p2
    };
    Some(p3)
}


/// The hypothesis that the escaped form of `str2` sits at `i`, closed by a
/// quote just before `j`.
pub open spec fn sb_at(s: Seq<char>, i: int, str2: Seq<char>, j: int) -> bool {
    &&& 0 <= i
    &&& j == i + esc_str(str2).len() + 1
    &&& j <= s.len()
    &&& s.subrange(i, j - 1) == esc_str(str2)
    &&& s[j - 1] == '"'
}

/// The value of a lowercase hexadecimal digit character.
pub open spec fn hex_val(c: char) -> Option<int> {
    if c == '0' {
        Some(0)
    } else if c == '1' {
        Some(1)
    } else if c == '2' {
        Some(2)
    } else if c == '3' {
        Some(3)
    } else if c == '4' {
        Some(4)
    } else if c == '5' {
        Some(5)
    } else if c == '6' {
        Some(6)
    } else if c == '7' {
        Some(7)
    } else if c == '8' {
        Some(8)
    } else if c == '9' {
        Some(9)
    } else if c == 'a' {
        Some(10)
    } else if c == 'b' {
        Some(11)
    } else if c == 'c' {
        Some(12)
    } else if c == 'd' {
        Some(13)
    } else if c == 'e' {
        Some(14)
    } else if c == 'f' {
        Some(15)
    } else {
        None
    }
}

/// The value of a lowercase hexadecimal digit character, executable form.
fn hex_val_exec(c: char) -> (r: Option<u32>)
    ensures
        match r {
            Some(v) => hex_val(c) == Some(v as int) && v < 16,
            None => hex_val(c) is None,
        },
{
    match c {
        '0' => Some(0),
        '1' => Some(1),
        '2' => Some(2),
        '3' => Some(3),
        '4' => Some(4),
        '5' => Some(5),
        '6' => Some(6),
        '7' => Some(7),
        '8' => Some(8),
        '9' => Some(9),
        'a' => Some(10),
        'b' => Some(11),
        'c' => Some(12),
        'd' => Some(13),
        'e' => Some(14),
        'f' => Some(15),
        _ => None,
    }
}

/// The control character with this code.
fn ctl_char_exec(code: u32) -> (r: char)
    requires
        code < 0x20,
    ensures
        r as u32 == code,
{
    match code {
        0 => '\u{0}',
        1 => '\u{1}',
        2 => '\u{2}',
        3 => '\u{3}',
        4 => '\u{4}',
        5 => '\u{5}',
        6 => '\u{6}',
        7 => '\u{7}',
        8 => '\u{8}',
        9 => '\u{9}',
        10 => '\u{a}',
        11 => '\u{b}',
        12 => '\u{c}',
        13 => '\u{d}',
        14 => '\u{e}',
        15 => '\u{f}',
        16 => '\u{10}',
        17 => '\u{11}',
        18 => '\u{12}',
        19 => '\u{13}',
        20 => '\u{14}',
        21 => '\u{15}',
        22 => '\u{16}',
        23 => '\u{17}',
        24 => '\u{18}',
        25 => '\u{19}',
        26 => '\u{1a}',
        27 => '\u{1b}',
        28 => '\u{1c}',
        29 => '\u{1d}',
        30 => '\u{1e}',
        _ => '\u{1f}',
    }
}

/// Parse the escaped body of a string, up to and including the closing
/// quote, appending the decoded characters. Exactly the canonical escapes
/// are accepted.
#[verifier::rlimit(100)]
fn parse_string_into(s: &Vec<char>, i: usize, out: &mut Vec<char>) -> (r: Option<usize>)
    requires
        i <= s@.len(),
    ensures
        match r {
            Some(j) => {
                &&& i < j <= s@.len()
                &&& final(out)@.len() >= old(out)@.len()
                &&& final(out)@.subrange(0, old(out)@.len() as int) == old(out)@
                &&& sb_at(s@, i as int, final(out)@.skip(old(out)@.len() as int), j as int)
            },
            None => true,
        },
        forall|str2: Seq<char>, j: int|
            sb_at(s@, i as int, str2, j) ==> (r matches Some(jj) && jj == j && final(out)@ == old(
                out,
            )@ + str2),
    decreases s@.len() - i,
{
    if i >= s.len() {
        return None;
    }
    let c = s[i];
    if c == '"' {
        proof {
            assert forall|str2: Seq<char>, j: int|
                sb_at(s@, i as int, str2, j) implies str2.len() == 0 && j == i + 1 by {
                if str2.len() > 0 {
                    lemma_esc_char_first(str2[0]);
                    assert(s@.subrange(i as int, j - 1)[0] == s@[i as int]);
                    assert(esc_str(str2)[0] == esc_char(str2[0])[0]);
                }
            }
            assert(out@ + Seq::<char>::empty() =~= out@);
            assert(out@.subrange(0, out@.len() as int) =~= out@);
            assert(out@.skip(out@.len() as int) =~= Seq::<char>::empty());
            assert(s@.subrange(i as int, i as int) =~= esc_str(Seq::<char>::empty()));
        }
        return Some(i + 1);
    }
    let (ch, ni): (char, usize) = if c == '\\' {
        if s.len() - i < 2 {
            proof {
                lemma_sb_backslash(s@, i as int);
            }
            return None;
        }
        let e = s[i + 1];
        if e == '"' {
            ('"', i + 2)
        } else if e == '\\' {
            ('\\', i + 2)
        } else if e == 'b' {
            ('\u{8}', i + 2)
        } else if e == 't' {
            ('\t', i + 2)
        } else if e == 'n' {
            ('\n', i + 2)
        } else if e == 'f' {
            ('\u{c}', i + 2)
        } else if e == 'r' {
            ('\r', i + 2)
        } else if e == 'u' {
            if s.len() - i < 6 {
                proof {
                    lemma_sb_u_unit(s@, i as int);
                }
                return None;
            }
            if s[i + 2] != '0' || s[i + 3] != '0' {
                proof {
                    lemma_sb_u_unit(s@, i as int);
                }
                return None;
            }
            let h1 = match hex_val_exec(s[i + 4]) {
                Some(v) => v,
                None => {
                    proof {
                        lemma_sb_u_unit(s@, i as int);
                        lemma_hex_inverse();
                        assert forall|str2: Seq<char>, j2: int|
                            !sb_at(s@, i as int, str2, j2) by {
                            if sb_at(s@, i as int, str2, j2) {
                                assert(str2.len() > 0);
                                let c0 = str2[0] as u32 as int;
                                assert(0 <= c0 / 16 < 16);
                                assert(s@[i as int + 4] == hex_digit(c0 / 16));
                                assert(hex_val(hex_digit(c0 / 16)) == Some(c0 / 16));
                                assert(s@[(i + 4) as int] == s@[i as int + 4]);
                                assert(hex_val(s@[(i + 4) as int]) is Some);
                            }
                        }
                    }
                    return None;
                },
            };
            let h2 = match hex_val_exec(s[i + 5]) {
                Some(v) => v,
                None => {
                    proof {
                        lemma_sb_u_unit(s@, i as int);
                        lemma_hex_inverse();
                        assert forall|str2: Seq<char>, j2: int|
                            !sb_at(s@, i as int, str2, j2) by {
                            if sb_at(s@, i as int, str2, j2) {
                                assert(str2.len() > 0);
                                let c0 = str2[0] as u32 as int;
                                assert(0 <= c0 % 16 < 16);
                                assert(s@[i as int + 5] == hex_digit(c0 % 16));
                                assert(hex_val(hex_digit(c0 % 16)) == Some(c0 % 16));
                                assert(s@[(i + 5) as int] == s@[i as int + 5]);
                                assert(hex_val(s@[(i + 5) as int]) is Some);
                            }
                        }
                    }
                    return None;
                },
            };
            let code = h1 * 16 + h2;
            if code >= 0x20 || code == 0x8 || code == 0x9 || code == 0xA || code == 0xC || code
                == 0xD {
                proof {
                    lemma_sb_u_unit(s@, i as int);
                    lemma_hex_inverse();
                    assert forall|str2: Seq<char>, j2: int|
                        !sb_at(s@, i as int, str2, j2) by {
                        if sb_at(s@, i as int, str2, j2) {
                            assert(str2.len() > 0);
                            let c0 = str2[0] as u32 as int;
                            assert(0 <= c0 / 16 < 16);
                            assert(0 <= c0 % 16 < 16);
                            assert(s@[i as int + 4] == hex_digit(c0 / 16));
                            assert(s@[i as int + 5] == hex_digit(c0 % 16));
                            assert(hex_val(hex_digit(c0 / 16)) == Some(c0 / 16));
                            assert(s@[(i + 4) as int] == s@[i as int + 4]);
                            assert(s@[(i + 5) as int] == s@[i as int + 5]);
                            assert(hex_val(hex_digit(c0 % 16)) == Some(c0 % 16));
                            assert(h1 == c0 / 16);
                            assert(h2 == c0 % 16);
                            assert(code == c0);
                            assert(str2[0] as u32 == code);
                            assert(is_ctl(str2[0]));
                            assert(str2[0] != '\u{8}');
                            assert(str2[0] != '\t');
                            assert(str2[0] != '\n');
                            assert(str2[0] != '\u{c}');
                            assert(str2[0] != '\r');
                            assert(code < 0x20);
                            assert(code != 8) by {
                                if code == 8 {
                                    lemma_char_code(str2[0], '\u{8}');
                                }
                            }
                            assert(code != 9) by {
                                if code == 9 {
                                    lemma_char_code(str2[0], '\t');
                                }
                            }
                            assert(code != 10) by {
                                if code == 10 {
                                    lemma_char_code(str2[0], '\n');
                                }
                            }
                            assert(code != 12) by {
                                if code == 12 {
                                    lemma_char_code(str2[0], '\u{c}');
                                }
                            }
                            assert(code != 13) by {
                                if code == 13 {
                                    lemma_char_code(str2[0], '\r');
                                }
                            }
                        }
                    }
                }
                return None;
            }
            (ctl_char_exec(code), i + 6)
        } else {
            proof {
                lemma_sb_backslash(s@, i as int);
                assert forall|str2: Seq<char>, j2: int|
                    !sb_at(s@, i as int, str2, j2) by {
                    if sb_at(s@, i as int, str2, j2) {
                        lemma_esc_char_first(str2[0]);
                        lemma_sb_unit_at(s@, i as int, str2, j2, 1);
                    }
                }
            }
            return None;
        }
    } else {
        if (c as u32) < 0x20 {
            proof {
                assert forall|str2: Seq<char>, j2: int|
                    !sb_at(s@, i as int, str2, j2) by {
                    if sb_at(s@, i as int, str2, j2) {
                        if str2.len() == 0 {
                            assert(s@[i as int] == '"');
                        } else {
                            lemma_esc_char_first(str2[0]);
                            lemma_sb_unit_at(s@, i as int, str2, j2, 0);
                        }
                    }
                }
            }
            return None;
        }
        (c, i + 1)
    };
    proof {
        assert(i < ni && ni <= s@.len());
    }
    out.push(ch);
    let ghost mid = out@;
    let result = parse_string_into(s, ni, out);
    proof {
        lemma_hex_inverse();
        assert forall|str2: Seq<char>, j: int|
            sb_at(s@, i as int, str2, j) implies (result matches Some(jj) && jj == j && out@
            == old(out)@ + str2) by {
            assert(str2.len() > 0) by {
                if str2.len() == 0 {
                    assert(s@.subrange(i as int, j - 1).len() == 0);
                    assert(s@[i as int] == '"');
                }
            }
            let u = esc_char(str2[0]);
            let rest = str2.drop_first();
            assert(esc_str(str2) == u + esc_str(rest));
            lemma_esc_char_first(str2[0]);
            lemma_sb_unit_at(s@, i as int, str2, j, 0);
            if u.len() >= 2 {
                lemma_sb_unit_at(s@, i as int, str2, j, 1);
            }
            if u.len() == 6 {
                lemma_sb_unit_at(s@, i as int, str2, j, 2);
                lemma_sb_unit_at(s@, i as int, str2, j, 3);
                lemma_sb_unit_at(s@, i as int, str2, j, 4);
                lemma_sb_unit_at(s@, i as int, str2, j, 5);
                let c0 = str2[0] as u32 as int;
                assert(u[4] == hex_digit(c0 / 16));
                assert(u[5] == hex_digit(c0 % 16));
                assert(hex_val(hex_digit(c0 / 16)) == Some(c0 / 16));
                assert(hex_val(hex_digit(c0 % 16)) == Some(c0 % 16));
            }
            assert(s@[(i + 1) as int] == s@[i as int + 1]);
            if u[0] != '\\' {
                assert(u == seq![str2[0]]);
                assert(str2[0] == s@[i as int]);
                assert(str2[0] == ch && ni == i + u.len());
            } else if str2[0] == '"' || str2[0] == '\\' || str2[0] == '\u{8}' || str2[0]
                == '\t' || str2[0] == '\n' || str2[0] == '\u{c}' || str2[0] == '\r' {
                assert(u.len() == 2);
                assert(s@[i as int + 1] == u[1]);
                assert(str2[0] == ch && ni == i + u.len());
            } else {
                assert(is_ctl(str2[0]));
                assert(u.len() == 6);
                assert(s@[i as int + 1] == 'u');
                let c0 = str2[0] as u32 as int;
                assert(s@[(i + 2) as int] == s@[i as int + 2]);
                assert(s@[(i + 3) as int] == s@[i as int + 3]);
                assert(s@[(i + 4) as int] == s@[i as int + 4]);
                assert(s@[(i + 5) as int] == s@[i as int + 5]);
                assert(is_ctl(str2[0]));
                assert(0 <= c0 / 16 < 16 && 0 <= c0 % 16 < 16);
                assert(c0 / 16 * 16 + c0 % 16 == c0);
                assert(hex_val(s@[i as int + 4]) == Some(c0 / 16));
                assert(hex_val(s@[i as int + 5]) == Some(c0 % 16));
                assert(hex_val(s@[(i + 4) as int]) == Some(c0 / 16));
                assert(hex_val(s@[(i + 5) as int]) == Some(c0 % 16));
                assert(s@[(i + 2) as int] == '0' && s@[(i + 3) as int] == '0');
                assert(ch as u32 == str2[0] as u32);
                lemma_char_code(ch, str2[0]);
                assert(str2[0] == ch && ni == i + u.len());
            }
            assert(sb_at(s@, ni as int, rest, j)) by {
                assert(s@.subrange(ni as int, j - 1) =~= esc_str(rest)) by {
                    assert forall|k: int|
                        0 <= k < esc_str(rest).len() implies s@.subrange(ni as int, j - 1)[k]
                        == esc_str(rest)[k] by {
                        assert(s@.subrange(ni as int, j - 1)[k] == s@[ni + k]);
                        assert(s@.subrange(i as int, j - 1)[ni - i + k] == s@[ni + k]);
                        assert((u + esc_str(rest))[ni - i + k] == esc_str(rest)[k]);
                    }
                }
            }
            assert(out@ == mid + rest);
            assert(mid == old(out)@.push(ch));
            assert(old(out)@.push(str2[0]) + rest =~= old(out)@ + str2);
        }
        if result is Some {
            let j = result->Some_0;
            assert(esc_char(ch) =~= s@.subrange(i as int, ni as int)) by {
                lemma_hex_inverse();
                assert forall|k: int|
                    0 <= k < esc_char(ch).len() implies esc_char(ch)[k] == s@.subrange(
                    i as int,
                    ni as int,
                )[k] by {
                    assert(s@.subrange(i as int, ni as int)[k] == s@[i + k]);
                }
            }
            let prior = out@.subrange(0, mid.len() as int);
            assert(prior == mid) by {
                assert(out@.subrange(0, mid.len() as int) =~= mid.subrange(
                    0,
                    mid.len() as int,
                ));
                assert(mid.subrange(0, mid.len() as int) =~= mid);
            }
            assert(out@.subrange(0, old(out)@.len() as int) =~= old(out)@);
            let d = out@.skip(old(out)@.len() as int);
            let drest = out@.skip(mid.len() as int);
            assert(sb_at(s@, ni as int, drest, j as int));
            assert(d =~= seq![ch] + drest);
            assert(d.len() > 0 && d[0] == ch && d.drop_first() =~= drest);
            assert(esc_str(d) == esc_char(ch) + esc_str(drest));
            assert(sb_at(s@, i as int, d, j as int)) by {
                assert(s@.subrange(i as int, j - 1) =~= esc_str(d)) by {
                    assert forall|k: int|
                        0 <= k < esc_str(d).len() implies s@.subrange(i as int, j - 1)[k]
                        == esc_str(d)[k] by {
                        assert(s@.subrange(i as int, j - 1)[k] == s@[i + k]);
                        if k < esc_char(ch).len() {
                            assert(s@.subrange(i as int, ni as int)[k] == s@[i + k]);
                            assert(esc_str(d)[k] == esc_char(ch)[k]);
                        } else {
                            assert(s@.subrange(ni as int, j - 1)[k - esc_char(ch).len()] == s@[i
                                + k]);
                            assert(esc_str(d)[k] == esc_str(drest)[k - esc_char(ch).len()]);
                        }
                    }
                }
            }
        }
    }
    match result {
        Some(j) => {
            proof {
                assert(ni < j <= s@.len());
                assert(i < j);
            }
            Some(j)
        },
        None => None,
    }
}


/// Characters with the same code point are the same character.
proof fn lemma_char_code(a: char, b: char)
    requires
        a as u32 == b as u32,
    ensures
        a == b,
{
}

/// One character of the escape unit at the head of a string body.
proof fn lemma_sb_unit_at(s: Seq<char>, i: int, str2: Seq<char>, j: int, k: int)
    requires
        sb_at(s, i, str2, j),
        str2.len() > 0,
        0 <= k < esc_char(str2[0]).len(),
    ensures
        s[i + k] == esc_char(str2[0])[k],
        j - 1 >= i + esc_char(str2[0]).len(),
{
    assert(esc_str(str2) == esc_char(str2[0]) + esc_str(str2.drop_first()));
    assert(s.subrange(i, j - 1)[k] == s[i + k]);
    assert((esc_char(str2[0]) + esc_str(str2.drop_first()))[k] == esc_char(str2[0])[k]);
}

/// When a backslash stands at `i`, any string body there begins with an
/// escape unit of at least two characters.
proof fn lemma_sb_backslash(s: Seq<char>, i: int)
    requires
        0 <= i < s.len(),
        s[i] == '\\',
    ensures
        forall|str2: Seq<char>, j: int|
            #[trigger] sb_at(s, i, str2, j) ==> str2.len() > 0 && esc_char(str2[0])[0] == '\\'
                && esc_char(str2[0]).len() >= 2 && j - 1 >= i + esc_char(str2[0]).len(),
{
    lemma_sb_unit_chars(s, i);
    assert forall|str2: Seq<char>, j: int| #[trigger] sb_at(s, i, str2, j) implies str2.len() > 0
        && esc_char(str2[0])[0] == '\\' && esc_char(str2[0]).len() >= 2 && j - 1 >= i + esc_char(
        str2[0],
    ).len() by {
        if str2.len() == 0 {
            assert(j - 1 == i);
        } else {
            lemma_esc_char_first(str2[0]);
            assert(s[i + 0] == esc_char(str2[0])[0]);
            assert(esc_str(str2).len() >= esc_char(str2[0]).len());
        }
    }
}

/// When a `\u` escape stands at `i`, any string body there begins with the
/// six-character control escape of its first character.
proof fn lemma_sb_u_unit(s: Seq<char>, i: int)
    requires
        0 <= i,
        i + 1 < s.len(),
        s[i] == '\\',
        s[i + 1] == 'u',
    ensures
        forall|str2: Seq<char>, j: int|
            #[trigger] sb_at(s, i, str2, j) ==> str2.len() > 0 && is_ctl(str2[0]) && str2[0] != '\u{8}'
                && str2[0] != '\t' && str2[0] != '\n' && str2[0] != '\u{c}' && str2[0] != '\r'
                && esc_char(str2[0]).len() == 6 && j - 1 >= i + 6 && s[i + 2] == '0' && s[i + 3]
                == '0' && s[i + 4] == hex_digit(str2[0] as u32 as int / 16) && s[i + 5]
                == hex_digit(str2[0] as u32 as int % 16),
{
    lemma_sb_unit_chars(s, i);
    lemma_sb_backslash(s, i);
    assert forall|str2: Seq<char>, j: int| #[trigger] sb_at(s, i, str2, j) implies str2.len() > 0
        && is_ctl(str2[0]) && str2[0] != '\u{8}' && str2[0] != '\t' && str2[0] != '\n' && str2[0]
        != '\u{c}' && str2[0] != '\r' && esc_char(str2[0]).len() == 6 && j - 1 >= i + 6 && s[i
        + 2] == '0' && s[i + 3] == '0' && s[i + 4] == hex_digit(str2[0] as u32 as int / 16) && s[i
        + 5] == hex_digit(str2[0] as u32 as int % 16) by {
        lemma_esc_char_first(str2[0]);
        assert(s[i + 1] == esc_char(str2[0])[1]);
        assert(esc_char(str2[0])[1] == 'u');
        assert(is_ctl(str2[0]) && str2[0] != '\u{8}' && str2[0] != '\t' && str2[0] != '\n'
            && str2[0] != '\u{c}' && str2[0] != '\r');
        assert(esc_str(str2).len() >= esc_char(str2[0]).len());
        assert(s[i + 2] == esc_char(str2[0])[2]);
        assert(s[i + 3] == esc_char(str2[0])[3]);
        assert(s[i + 4] == esc_char(str2[0])[4]);
        assert(s[i + 5] == esc_char(str2[0])[5]);
    }
}

/// Characters of the first escape unit at `i` under any string-body
/// hypothesis: they are the escape of the string's first character.
proof fn lemma_sb_unit_chars(s: Seq<char>, i: int)
    ensures
        forall|str2: Seq<char>, j: int|
            #[trigger] sb_at(s, i, str2, j) && str2.len() > 0 ==> esc_str(str2) == esc_char(
                str2[0],
            ) + esc_str(str2.drop_first()),
        forall|str2: Seq<char>, j: int, k: int|
            #![trigger sb_at(s, i, str2, j), s[i + k]]
            sb_at(s, i, str2, j) && str2.len() > 0 && 0 <= k < esc_char(str2[0]).len() ==> s[i + k]
                == esc_char(str2[0])[k],
{
    assert forall|str2: Seq<char>, j: int, k: int|
        #![trigger sb_at(s, i, str2, j), s[i + k]]
        sb_at(s, i, str2, j) && str2.len() > 0 && 0 <= k < esc_char(str2[0]).len()
        implies s[i + k] == esc_char(str2[0])[k] by {
        assert(esc_str(str2) == esc_char(str2[0]) + esc_str(str2.drop_first()));
        assert(s.subrange(i, j - 1)[k] == s[i + k]);
        assert((esc_char(str2[0]) + esc_str(str2.drop_first()))[k] == esc_char(str2[0])[k]);
    }
}

/// Reading back the two hexadecimal digits of a control escape yields the
/// character's code, and a digit that reads back is the canonical one.
proof fn lemma_hex_inverse()
    ensures
        forall|d: int| 0 <= d < 16 ==> hex_val(#[trigger] hex_digit(d)) == Some(d),
        forall|c: char| hex_val(c) is Some ==> c == hex_digit(#[trigger] hex_val(c)->Some_0),
{
}

/// Append the escape of one character.
fn push_escaped_char(c: char, out: &mut Vec<char>)
    ensures
        final(out)@ == old(out)@ + esc_char(c),
{
    match c {
        '"' => {
            out.push('\\');
            out.push('"');
        },
        '\\' => {
            out.push('\\');
            out.push('\\');
        },
        '\u{8}' => {
            out.push('\\');
            out.push('b');
        },
        '\t' => {
            out.push('\\');
            out.push('t');
        },
        '\n' => {
            out.push('\\');
            out.push('n');
        },
        '\u{c}' => {
            out.push('\\');
            out.push('f');
        },
        '\r' => {
            out.push('\\');
            out.push('r');
        },
        _ => {
            if (c as u32) < 0x20 {
                out.push('\\');
                out.push('u');
                out.push('0');
                out.push('0');
                out.push(hex_digit_exec((c as u32) / 16));
                out.push(hex_digit_exec((c as u32) % 16));
            } else {
                out.push(c);
            }
        },
    }
    proof {
        assert(final(out)@ =~= old(out)@ + esc_char(c));
    }
}

/// The lowercase hexadecimal digit character for a value below sixteen.
fn hex_digit_exec(d: u32) -> (r: char)
    requires
        d < 16,
    ensures
        r == hex_digit(d as int),
{
    match d {
        0 => '0',
        1 => '1',
        2 => '2',
        3 => '3',
        4 => '4',
        5 => '5',
        6 => '6',
        7 => '7',
        8 => '8',
        9 => '9',
        10 => 'a',
        11 => 'b',
        12 => 'c',
        13 => 'd',
        14 => 'e',
        _ => 'f',
    }
}

/// Append the escaped form of a string's characters.
#[verifier::loop_isolation(false)]
fn push_escaped(s: &str, out: &mut Vec<char>)
    ensures
        final(out)@ == old(out)@ + esc_str(s@),
{
    let chars = crate::strutil::str_chars(s);
    let mut i: usize = 0;
    proof {
        assert(out@ =~= old(out)@ + esc_str(s@.subrange(0, 0)));
    }
    while i < chars.len()
        invariant
            0 <= i <= chars@.len(),
            chars@ == s@,
            out@ == old(out)@ + esc_str(s@.subrange(0, i as int)),
        decreases chars@.len() - i,
    {
        push_escaped_char(chars[i], out);
        proof {
            lemma_esc_str_snoc(s@.subrange(0, i as int), s@[i as int]);
            assert(s@.subrange(0, i as int).push(s@[i as int]) =~= s@.subrange(0, i + 1 as int));
            assert(out@ =~= old(out)@ + esc_str(s@.subrange(0, i + 1 as int)));
        }
        i = i + 1;
    }
    proof {
        assert(s@.subrange(0, s@.len() as int) =~= s@);
    }
}

/// Escaping one more character appends its escape.
proof fn lemma_esc_str_snoc(s: Seq<char>, c: char)
    ensures
        esc_str(s.push(c)) == esc_str(s) + esc_char(c),
    decreases s.len(),
{
    if s.len() == 0 {
        let t = s.push(c);
        assert(t[0] == c);
        assert(t.drop_first() =~= Seq::<char>::empty());
        assert(esc_str(t.drop_first()) == Seq::<char>::empty());
        assert(esc_str(t) == esc_char(c) + esc_str(t.drop_first()));
        assert(esc_char(c) + Seq::<char>::empty() =~= Seq::<char>::empty() + esc_char(c));
        assert(esc_str(s) == Seq::<char>::empty());
    } else {
        lemma_esc_str_snoc(s.drop_first(), c);
        assert(s.push(c)[0] == s[0]);
        assert(s.push(c).drop_first() =~= s.drop_first().push(c));
        assert(esc_str(s.push(c)) == esc_char(s[0]) + esc_str(s.drop_first().push(c)));
        assert(esc_char(s[0]) + (esc_str(s.drop_first()) + esc_char(c)) =~= (esc_char(s[0])
            + esc_str(s.drop_first())) + esc_char(c));
    }
}

/// Append the canonical serialization of a value.
#[verifier::loop_isolation(false)]
#[verifier::rlimit(60)]
pub fn write_json(v: &Json, out: &mut Vec<char>)
    ensures
        final(out)@ == old(out)@ + ser_json(v@),
    decreases v,
{
    match v {
        Json::Null => {
            out.push('n');
            out.push('u');
            out.push('l');
            out.push('l');
            proof {
                assert(out@ =~= old(out)@ + ser_json(v@));
            }
        },
        Json::Bool(b) => {
            if *b {
                out.push('t');
                out.push('r');
                out.push('u');
                out.push('e');
            } else {
                out.push('f');
                out.push('a');
                out.push('l');
                out.push('s');
                out.push('e');
            }
            proof {
                assert(out@ =~= old(out)@ + ser_json(v@));
            }
        },
        Json::Num(lex) => {
            let chars = crate::strutil::str_chars(lex.as_str());
            let mut i: usize = 0;
            while i < chars.len()
                invariant
                    0 <= i <= chars@.len(),
                    chars@ == lex@,
                    out@ == old(out)@ + lex@.subrange(0, i as int),
                decreases chars@.len() - i,
            {
                out.push(chars[i]);
                proof {
                    assert(out@ =~= old(out)@ + lex@.subrange(0, i + 1 as int));
                }
                i = i + 1;
            }
            proof {
                assert(lex@.subrange(0, lex@.len() as int) =~= lex@);
            }
        },
        Json::Str(s) => {
            out.push('"');
            push_escaped(s.as_str(), out);
            out.push('"');
            proof {
                assert(out@ =~= old(out)@ + (seq!['"'] + esc_str(s@) + seq!['"']));
            }
        },
        Json::Arr(items) => {
            out.push('[');
            let mut i: usize = 0;
            while i < items.len()
                invariant
                    0 <= i <= items@.len(),
                    out@ == old(out)@ + seq!['['] + ser_arr(view_arr(items@).subrange(
                        0,
                        i as int,
                    )),
                decreases items@.len() - i,
            {
                if i > 0 {
                    out.push(',');
                }
                proof {
                    assert(decreases_to!(*v => *items));
                    assert(decreases_to!(*items => items@));
                    assert(decreases_to!(items@ => items@[i as int]));
                }
                write_json(&items[i], out);
                proof {
                    lemma_view_arr(items@);
                    let pre = view_arr(items@).subrange(0, i as int);
                    let post = view_arr(items@).subrange(0, i + 1 as int);
                    assert(post.drop_last() =~= pre);
                    assert(post.last() == items@[i as int]@);
                    if i == 0 {
                        assert(ser_arr(post) == ser_json(items@[0]@));
                        assert(out@ =~= old(out)@ + seq!['['] + ser_arr(post));
                    } else {
                        assert(ser_arr(post) == ser_arr(pre) + seq![','] + ser_json(
                            items@[i as int]@,
                        ));
                        assert(out@ =~= old(out)@ + seq!['['] + ser_arr(post));
                    }
                }
                i = i + 1;
            }
            out.push(']');
            proof {
                lemma_view_arr(items@);
                assert(view_arr(items@).subrange(0, view_arr(items@).len() as int) =~= view_arr(
                    items@,
                ));
                assert(out@ =~= old(out)@ + (seq!['['] + ser_arr(view_arr(items@)) + seq![']']));
            }
        },
        Json::Obj(pairs) => {
            out.push('{');
            let mut i: usize = 0;
            while i < pairs.len()
                invariant
                    0 <= i <= pairs@.len(),
                    out@ == old(out)@ + seq!['{'] + ser_obj(view_obj(pairs@).subrange(
                        0,
                        i as int,
                    )),
                decreases pairs@.len() - i,
            {
                if i > 0 {
                    out.push(',');
                }
                let f = &pairs[i];
                out.push('"');
                push_escaped(f.key.as_str(), out);
                out.push('"');
                out.push(':');
                proof {
                    assert(decreases_to!(*v => *pairs));
                    assert(decreases_to!(*pairs => pairs@));
                    assert(decreases_to!(pairs@ => pairs@[i as int]));
                    assert(decreases_to!(pairs@[i as int] => pairs@[i as int].value));
                }
                write_json(&f.value, out);
                proof {
                    lemma_view_obj(pairs@);
                    let pre = view_obj(pairs@).subrange(0, i as int);
                    let post = view_obj(pairs@).subrange(0, i + 1 as int);
                    assert(post.drop_last() =~= pre);
                    assert(post.last() == (pairs@[i as int].key@, pairs@[i as int].value@));
                    if i == 0 {
                        assert(ser_obj(post) == ser_member(
                            pairs@[0].key@,
                            pairs@[0].value@,
                        ));
                    } else {
                        assert(ser_obj(post) == ser_obj(pre) + seq![','] + ser_member(
                            pairs@[i as int].key@,
                            pairs@[i as int].value@,
                        ));
                    }
                    assert(out@ =~= old(out)@ + seq!['{'] + ser_obj(post));
                }
                i = i + 1;
            }
            out.push('}');
            proof {
                lemma_view_obj(pairs@);
                assert(view_obj(pairs@).subrange(0, view_obj(pairs@).len() as int) =~= view_obj(
                    pairs@,
                ));
                assert(out@ =~= old(out)@ + (seq!['{'] + ser_obj(view_obj(pairs@)) + seq!['}']));
            }
        },
    }
}


/// The hypothesis that the canonical serialization of `v` sits at `i`,
/// ending at `j`, followed by a separator, a closer, or the end.
pub open spec fn ser_at(s: Seq<char>, i: int, v: JsonV, j: int) -> bool {
    &&& wf_json(v)
    &&& 0 <= i
    &&& j == i + ser_json(v).len()
    &&& j <= s.len()
    &&& s.subrange(i, j) == ser_json(v)
    &&& boundary_ok(s, j)
}

/// The hypothesis that the joined elements of a non-empty array sit at `i`,
/// with the closing bracket just before `j`.
pub open spec fn elems_at(s: Seq<char>, i: int, items: Seq<JsonV>, j: int) -> bool {
    &&& wf_arr(items)
    &&& items.len() >= 1
    &&& 0 <= i
    &&& j == i + ser_arr(items).len() + 1
    &&& j <= s.len()
    &&& s.subrange(i, j - 1) == ser_arr(items)
    &&& s[j - 1] == ']'
    &&& boundary_ok(s, j)
}

/// The hypothesis that the joined members of a non-empty object sit at `i`,
/// with the closing brace just before `j`.
pub open spec fn mems_at(s: Seq<char>, i: int, pairs: Seq<(Seq<char>, JsonV)>, j: int) -> bool {
    &&& wf_obj(pairs)
    &&& pairs.len() >= 1
    &&& 0 <= i
    &&& j == i + ser_obj(pairs).len() + 1
    &&& j <= s.len()
    &&& s.subrange(i, j - 1) == ser_obj(pairs)
    &&& s[j - 1] == '}'
    &&& boundary_ok(s, j)
}

/// One character of a serialization standing at `i`.
proof fn lemma_ser_at_char(s: Seq<char>, i: int, v: JsonV, j: int, k: int)
    requires
        ser_at(s, i, v, j),
        0 <= k < ser_json(v).len(),
    ensures
        s[i + k] == ser_json(v)[k],
{
    assert(s.subrange(i, j)[k] == s[i + k]);
}

/// The characters of `s` between two positions, as a fresh vector.
#[verifier::loop_isolation(false)]
fn collect_range(s: &Vec<char>, a: usize, b: usize) -> (r: Vec<char>)
    requires
        a <= b <= s@.len(),
    ensures
        r@ == s@.subrange(a as int, b as int),
{
    let mut out: Vec<char> = Vec::new();
    let mut k = a;
    while k < b
        invariant
            a <= k <= b,
            out@ =~= s@.subrange(a as int, k as int),
        decreases b - k,
    {
        out.push(s[k]);
        proof {
            assert(out@ =~= s@.subrange(a as int, k + 1 as int));
        }
        k = k + 1;
    }
    proof {
        assert(out@ =~= s@.subrange(a as int, b as int));
    }
    out
}


/// A digit run inside a window of the text scans the same within the
/// window, as long as it stays inside it.
proof fn lemma_skip_digits_restrict(s: Seq<char>, i: int, j: int, p: int)
    requires
        0 <= i,
        0 <= p,
        i + p <= j <= s.len(),
        skip_digits(s, i + p) <= j,
    ensures
        skip_digits(s.subrange(i, j), p) == skip_digits(s, i + p) - i,
    decreases j - (i + p),
{
    let lex = s.subrange(i, j);
    if i + p < j {
        assert(lex[p] == s[i + p]);
        if is_digit(s[i + p]) {
            assert(skip_digits(s, i + p) == skip_digits(s, i + p + 1));
            lemma_skip_digits_bounds(s, i + p + 1);
            lemma_skip_digits_restrict(s, i, j, p + 1);
        }
    } else {
        lemma_skip_digits_bounds(s, i + p);
        if i + p < s.len() && is_digit(s[i + p]) {
            assert(skip_digits(s, i + p) == skip_digits(s, i + p + 1));
            lemma_skip_digits_bounds(s, i + p + 1);
        }
    }
}

/// The span a successful number scan covers is itself a complete number
/// lexeme.
proof fn lemma_num_extract(s: Seq<char>, i: int, j: int)
    requires
        0 <= i <= s.len(),
        num_end(s, i) == Some(j),
    ensures
        i < j <= s.len(),
        is_num_lexeme(s.subrange(i, j)),
{
    let n = s.len() as int;
    let p0: int = if i < n && s[i] == '-' {
        i + 1
    } else {
        i
    };
    assert(p0 < n && is_digit(s[p0]));
    let p1: int = if s[p0] == '0' {
        p0 + 1
    } else {
        skip_digits(s, p0)
    };
    lemma_skip_digits_bounds(s, p0);
    if s[p0] != '0' {
        assert(skip_digits(s, p0) == skip_digits(s, p0 + 1));
        lemma_skip_digits_bounds(s, p0 + 1);
    }
    assert(p0 < p1 <= n);
    let p2: int = if p1 < n && s[p1] == '.' {
        if p1 + 1 < n && is_digit(s[p1 + 1]) {
            skip_digits(s, p1 + 1)
        } else {
            -1
        }
    } else {
        p1
    };
    assert(p2 >= 0);
    if p1 < n && s[p1] == '.' {
        lemma_skip_digits_bounds(s, p1 + 1);
        assert(skip_digits(s, p1 + 1) == skip_digits(s, p1 + 2));
        lemma_skip_digits_bounds(s, p1 + 2);
        assert(p1 + 1 < p2);
    }
    let p3: int = if p2 < n && (s[p2] == 'e' || s[p2] == 'E') {
        let q: int = if p2 + 1 < n && (s[p2 + 1] == '+' || s[p2 + 1] == '-') {
            p2 + 2
        } else {
            p2 + 1
        };
        if q < n && is_digit(s[q]) {
            skip_digits(s, q)
        } else {
            -1
        }
    } else {
        p2
    };
    assert(p3 == j);
    if p2 < n && (s[p2] == 'e' || s[p2] == 'E') {
        let q: int = if p2 + 1 < n && (s[p2 + 1] == '+' || s[p2 + 1] == '-') {
            p2 + 2
        } else {
            p2 + 1
        };
        lemma_skip_digits_bounds(s, q);
        assert(skip_digits(s, q) == skip_digits(s, q + 1));
        lemma_skip_digits_bounds(s, q + 1);
        assert(q < p3);
    }
    assert(i < j <= n);
    let lex = s.subrange(i, j);
    let m = lex.len() as int;
    assert forall|k: int| 0 <= k < m implies lex[k] == s[i + k] by {}
    let q0: int = if 0 < m && lex[0] == '-' {
        1
    } else {
        0
    };
    assert(q0 == p0 - i);
    assert(q0 < m && is_digit(lex[q0]));
    let q1: int = if lex[q0] == '0' {
        q0 + 1
    } else {
        skip_digits(lex, q0)
    };
    if s[p0] != '0' {
        assert(p1 <= j) by {
            if p1 < n && s[p1] == '.' {
            }
        }
        lemma_skip_digits_restrict(s, i, j, q0);
        assert(q1 == p1 - i);
    } else {
        assert(q1 == p1 - i);
    }
    let q2: int = if q1 < m && lex[q1] == '.' {
        if q1 + 1 < m && is_digit(lex[q1 + 1]) {
            skip_digits(lex, q1 + 1)
        } else {
            -1
        }
    } else {
        q1
    };
    if p1 < n && s[p1] == '.' {
        assert(q1 < m);
        assert(lex[q1] == s[p1]);
        assert(p2 <= j);
        assert(lex[q1 + 1] == s[p1 + 1]);
        lemma_skip_digits_restrict(s, i, j, q1 + 1);
        assert(q2 == p2 - i);
    } else {
        assert(q2 == q1);
        if q1 < m {
            assert(lex[q1] == s[p1]);
        }
        assert(q2 == p2 - i);
    }
    assert(q2 >= 0);
    let q3: int = if q2 < m && (lex[q2] == 'e' || lex[q2] == 'E') {
        let qq: int = if q2 + 1 < m && (lex[q2 + 1] == '+' || lex[q2 + 1] == '-') {
            q2 + 2
        } else {
            q2 + 1
        };
        if qq < m && is_digit(lex[qq]) {
            skip_digits(lex, qq)
        } else {
            -1
        }
    } else {
        q2
    };
    if p2 < n && (s[p2] == 'e' || s[p2] == 'E') {
        assert(q2 < m);
        assert(lex[q2] == s[p2]);
        let q: int = if p2 + 1 < n && (s[p2 + 1] == '+' || s[p2 + 1] == '-') {
            p2 + 2
        } else {
            p2 + 1
        };
        assert(q < p3);
        assert(lex[q2 + 1] == s[p2 + 1]);
        assert(q - i < m && is_digit(lex[q - i]));
        lemma_skip_digits_restrict(s, i, j, q - i);
        assert(q3 == p3 - i);
    } else {
        if q2 < m {
            assert(lex[q2] == s[p2]);
        }
        assert(q3 == q2);
        assert(q3 == p2 - i);
        assert(p3 == p2);
    }
    assert(q3 == m);
    assert(num_end(lex, 0) == Some(m));
}

/// Parse one JSON value starting at `i`: exactly the canonical form the
/// serializer writes is accepted, so parsing inverts serialization.
#[verifier::rlimit(100)]
fn parse_value(s: &Vec<char>, i: usize) -> (r: Option<(Json, usize)>)
    requires
        i <= s@.len(),
    ensures
        (r matches Some(p) ==> i < p.1 <= s@.len() && wf_json(p.0@) && s@.subrange(
            i as int,
            p.1 as int,
        ) == ser_json(p.0@)),
        forall|v: JsonV, j: int|
            ser_at(s@, i as int, v, j) ==> (r matches Some(p) && p.0@ == v && p.1 == j),
    decreases s@.len() - i, 0int,
{
    if i >= s.len() {
        proof {
            assert forall|v: JsonV, j: int| !ser_at(s@, i as int, v, j) by {
                if ser_at(s@, i as int, v, j) {
                    lemma_ser_shape(v);
                }
            }
        }
        return None;
    }
    let c = s[i];
    if c == 'n' {
        if s.len() - i >= 4 && s[i + 1] == 'u' && s[i + 2] == 'l' && s[i + 3] == 'l' {
            proof {
                assert forall|v: JsonV, j: int|
                    ser_at(s@, i as int, v, j) implies (v is Null && j == i + 4) by {
                    lemma_ser_shape(v);
                    lemma_ser_at_char(s@, i as int, v, j, 0);
                }
            }
            proof {
                assert(s@.subrange(i as int, i + 4 as int) =~= seq!['n', 'u', 'l', 'l']);
            }
            return Some((Json::Null, i + 4));
        }
        proof {
            assert forall|v: JsonV, j: int| !ser_at(s@, i as int, v, j) by {
                if ser_at(s@, i as int, v, j) {
                    lemma_ser_shape(v);
                    lemma_ser_at_char(s@, i as int, v, j, 0);
                    lemma_ser_at_char(s@, i as int, v, j, 1);
                    lemma_ser_at_char(s@, i as int, v, j, 2);
                    lemma_ser_at_char(s@, i as int, v, j, 3);
                }
            }
        }
        return None;
    }
    if c == 't' {
        if s.len() - i >= 4 && s[i + 1] == 'r' && s[i + 2] == 'u' && s[i + 3] == 'e' {
            proof {
                assert forall|v: JsonV, j: int|
                    ser_at(s@, i as int, v, j) implies (v == JsonV::Bool(true) && j == i + 4) by {
                    lemma_ser_shape(v);
                    lemma_ser_at_char(s@, i as int, v, j, 0);
                }
            }
            proof {
                assert(s@.subrange(i as int, i + 4 as int) =~= seq!['t', 'r', 'u', 'e']);
            }
            return Some((Json::Bool(true), i + 4));
        }
        proof {
            assert forall|v: JsonV, j: int| !ser_at(s@, i as int, v, j) by {
                if ser_at(s@, i as int, v, j) {
                    lemma_ser_shape(v);
                    lemma_ser_at_char(s@, i as int, v, j, 0);
                    lemma_ser_at_char(s@, i as int, v, j, 1);
                    lemma_ser_at_char(s@, i as int, v, j, 2);
                    lemma_ser_at_char(s@, i as int, v, j, 3);
                }
            }
        }
        return None;
    }
    if c == 'f' {
        if s.len() - i >= 5 && s[i + 1] == 'a' && s[i + 2] == 'l' && s[i + 3] == 's' && s[i + 4]
            == 'e' {
            proof {
                assert forall|v: JsonV, j: int|
                    ser_at(s@, i as int, v, j) implies (v == JsonV::Bool(false) && j == i + 5) by {
                    lemma_ser_shape(v);
                    lemma_ser_at_char(s@, i as int, v, j, 0);
                }
            }
            proof {
                assert(s@.subrange(i as int, i + 5 as int) =~= seq!['f', 'a', 'l', 's', 'e']);
            }
            return Some((Json::Bool(false), i + 5));
        }
        proof {
            assert forall|v: JsonV, j: int| !ser_at(s@, i as int, v, j) by {
                if ser_at(s@, i as int, v, j) {
                    lemma_ser_shape(v);
                    lemma_ser_at_char(s@, i as int, v, j, 0);
                    lemma_ser_at_char(s@, i as int, v, j, 1);
                    lemma_ser_at_char(s@, i as int, v, j, 2);
                    lemma_ser_at_char(s@, i as int, v, j, 3);
                    lemma_ser_at_char(s@, i as int, v, j, 4);
                }
            }
        }
        return None;
    }
    if c == '"' {
        let mut content: Vec<char> = Vec::new();
        let result = parse_string_into(s, i + 1, &mut content);
        proof {
            assert forall|v: JsonV, j: int|
                ser_at(s@, i as int, v, j) implies (result matches Some(jj) && jj == j && v
                == JsonV::Str(content@)) by {
                lemma_ser_shape(v);
                lemma_ser_at_char(s@, i as int, v, j, 0);
                let st = v->Str_0;
                assert(ser_json(v) == seq!['"'] + esc_str(st) + seq!['"']);
                assert(sb_at(s@, i as int + 1, st, j)) by {
                    assert(s@.subrange(i as int + 1, j - 1) =~= esc_str(st)) by {
                        assert forall|k: int|
                            0 <= k < esc_str(st).len() implies s@.subrange(i as int + 1, j - 1)[k]
                            == esc_str(st)[k] by {
                            assert(s@.subrange(i as int + 1, j - 1)[k] == s@[i + 1 + k]);
                            assert(s@.subrange(i as int, j)[1 + k] == s@[i + 1 + k]);
                            assert((seq!['"'] + esc_str(st) + seq!['"'])[1 + k] == esc_str(st)[k]);
                        }
                    }
                    assert(s@.subrange(i as int, j)[j - 1 - i] == s@[j - 1]);
                    assert((seq!['"'] + esc_str(st) + seq!['"'])[j - 1 - i] == '"');
                }
                assert(Seq::<char>::empty() + st =~= st);
            }
        }
        proof {
            if result is Some {
                let j = result->Some_0;
                assert(content@.skip(0) =~= content@);
                assert(sb_at(s@, i as int + 1, content@, j as int));
                assert(s@.subrange(i as int, j as int) =~= seq!['"'] + esc_str(content@) + seq![
                    '"'
                ]) by {
                    let body = esc_str(content@);
                    assert forall|k: int|
                        0 <= k < j - i implies s@.subrange(i as int, j as int)[k] == (seq!['"']
                        + body + seq!['"'])[k] by {
                        assert(s@.subrange(i as int, j as int)[k] == s@[i + k]);
                        if 1 <= k < 1 + body.len() {
                            assert(s@.subrange(i as int + 1, j - 1)[k - 1] == s@[i + k]);
                        }
                    }
                }
            }
        }
        match result {
            Some(j) => Some((Json::Str(chars_to_string(&content)), j)),
            None => None,
        }
    } else if c == '[' {
        if s.len() - i >= 2 && s[i + 1] == ']' {
            proof {
                assert forall|v: JsonV, j: int|
                    ser_at(s@, i as int, v, j) implies (v == JsonV::Arr(Seq::<JsonV>::empty()) && j
                    == i + 2) by {
                    lemma_ser_shape(v);
                    lemma_ser_at_char(s@, i as int, v, j, 0);
                    let items = v->Arr_0;
                    if items.len() > 0 {
                        lemma_ser_arr_first(items);
                        lemma_wf_arr_first(items);
                        lemma_ser_shape(items[0]);
                        lemma_ser_at_char(s@, i as int, v, j, 1);
                        assert(ser_json(v)[1] == ser_json(items[0])[0]);
                    } else {
                        assert(items =~= Seq::<JsonV>::empty());
                    }
                }
                assert(view_arr(Seq::<Json>::empty()) =~= Seq::<JsonV>::empty());
            }
            let empty_items: Vec<Json> = Vec::new();
            proof {
                assert(view_arr(empty_items@) =~= Seq::<JsonV>::empty());
                assert(wf_arr(view_arr(empty_items@)));
                assert(s@.subrange(i as int, i + 2 as int) =~= seq!['['] + ser_arr(
                    Seq::<JsonV>::empty(),
                ) + seq![']']);
            }
            return Some((Json::Arr(empty_items), i + 2));
        }
        let mut items: Vec<Json> = Vec::new();
        proof {
            assert(view_arr(items@) =~= Seq::<JsonV>::empty());
            assert(wf_arr(view_arr(items@)));
        }
        let result = parse_elems_into(s, i + 1, &mut items);
        proof {
            assert(view_arr(Seq::<Json>::empty()) =~= Seq::<JsonV>::empty());
            assert forall|v: JsonV, j: int|
                ser_at(s@, i as int, v, j) implies (result matches Some(jj) && jj == j && v
                == JsonV::Arr(view_arr(items@))) by {
                lemma_ser_shape(v);
                lemma_ser_at_char(s@, i as int, v, j, 0);
                let vitems = v->Arr_0;
                assert(ser_json(v) == seq!['['] + ser_arr(vitems) + seq![']']);
                assert(vitems.len() > 0) by {
                    if vitems.len() == 0 {
                        lemma_ser_at_char(s@, i as int, v, j, 1);
                    }
                }
                assert(elems_at(s@, i as int + 1, vitems, j)) by {
                    assert(s@.subrange(i as int + 1, j - 1) =~= ser_arr(vitems)) by {
                        assert forall|k: int|
                            0 <= k < ser_arr(vitems).len() implies s@.subrange(
                            i as int + 1,
                            j - 1,
                        )[k] == ser_arr(vitems)[k] by {
                            assert(s@.subrange(i as int + 1, j - 1)[k] == s@[i + 1 + k]);
                            assert(s@.subrange(i as int, j)[1 + k] == s@[i + 1 + k]);
                            assert((seq!['['] + ser_arr(vitems) + seq![']'])[1 + k] == ser_arr(
                                vitems,
                            )[k]);
                        }
                    }
                    assert(s@.subrange(i as int, j)[j - 1 - i] == s@[j - 1]);
                    assert((seq!['['] + ser_arr(vitems) + seq![']'])[j - 1 - i] == ']');
                }
                assert(Seq::<JsonV>::empty() + vitems =~= vitems);
            }
        }
        proof {
            if result is Some {
                let j = result->Some_0;
                let d = view_arr(items@).skip(0);
                assert(d =~= view_arr(items@));
                assert(s@.subrange(i as int, j as int) =~= seq!['['] + ser_arr(view_arr(items@))
                    + seq![']']) by {
                    let body = ser_arr(view_arr(items@));
                    assert(s@.subrange(i as int + 1, j - 1) == ser_arr(d));
                    assert forall|k: int|
                        0 <= k < j - i implies s@.subrange(i as int, j as int)[k] == (seq!['[']
                        + body + seq![']'])[k] by {
                        assert(s@.subrange(i as int, j as int)[k] == s@[i + k]);
                        if 1 <= k < 1 + body.len() {
                            assert(s@.subrange(i as int + 1, j - 1)[k - 1] == s@[i + k]);
                        }
                    }
                }
            }
        }
        match result {
            Some(j) => Some((Json::Arr(items), j)),
            None => None,
        }
    } else if c == '{' {
        if s.len() - i >= 2 && s[i + 1] == '}' {
            proof {
                assert forall|v: JsonV, j: int|
                    ser_at(s@, i as int, v, j) implies (v == JsonV::Obj(
                    Seq::<(Seq<char>, JsonV)>::empty(),
                ) && j == i + 2) by {
                    lemma_ser_shape(v);
                    lemma_ser_at_char(s@, i as int, v, j, 0);
                    let pairs = v->Obj_0;
                    if pairs.len() > 0 {
                        lemma_ser_obj_first(pairs);
                        lemma_ser_at_char(s@, i as int, v, j, 1);
                        assert(ser_json(v)[1] == ser_member(pairs[0].0, pairs[0].1)[0]);
                        assert(ser_member(pairs[0].0, pairs[0].1)[0] == '"');
                    } else {
                        assert(pairs =~= Seq::<(Seq<char>, JsonV)>::empty());
                    }
                }
                assert(view_obj(Seq::<JsonField>::empty()) =~= Seq::<(Seq<char>, JsonV)>::empty());
            }
            let empty_fields: Vec<JsonField> = Vec::new();
            proof {
                assert(view_obj(empty_fields@) =~= Seq::<(Seq<char>, JsonV)>::empty());
                assert(wf_obj(view_obj(empty_fields@)));
                assert(s@.subrange(i as int, i + 2 as int) =~= seq!['{'] + ser_obj(
                    Seq::<(Seq<char>, JsonV)>::empty(),
                ) + seq!['}']);
            }
            return Some((Json::Obj(empty_fields), i + 2));
        }
        let mut fields: Vec<JsonField> = Vec::new();
        proof {
            assert(view_obj(fields@) =~= Seq::<(Seq<char>, JsonV)>::empty());
            assert(wf_obj(view_obj(fields@)));
        }
        let result = parse_members_into(s, i + 1, &mut fields);
        proof {
            assert(view_obj(Seq::<JsonField>::empty()) =~= Seq::<(Seq<char>, JsonV)>::empty());
            assert forall|v: JsonV, j: int|
                ser_at(s@, i as int, v, j) implies (result matches Some(jj) && jj == j && v
                == JsonV::Obj(view_obj(fields@))) by {
                lemma_ser_shape(v);
                lemma_ser_at_char(s@, i as int, v, j, 0);
                let vpairs = v->Obj_0;
                assert(ser_json(v) == seq!['{'] + ser_obj(vpairs) + seq!['}']);
                assert(vpairs.len() > 0) by {
                    if vpairs.len() == 0 {
                        lemma_ser_at_char(s@, i as int, v, j, 1);
                    }
                }
                assert(mems_at(s@, i as int + 1, vpairs, j)) by {
                    assert(s@.subrange(i as int + 1, j - 1) =~= ser_obj(vpairs)) by {
                        assert forall|k: int|
                            0 <= k < ser_obj(vpairs).len() implies s@.subrange(
                            i as int + 1,
                            j - 1,
                        )[k] == ser_obj(vpairs)[k] by {
                            assert(s@.subrange(i as int + 1, j - 1)[k] == s@[i + 1 + k]);
                            assert(s@.subrange(i as int, j)[1 + k] == s@[i + 1 + k]);
                            assert((seq!['{'] + ser_obj(vpairs) + seq!['}'])[1 + k] == ser_obj(
                                vpairs,
                            )[k]);
                        }
                    }
                    assert(s@.subrange(i as int, j)[j - 1 - i] == s@[j - 1]);
                    assert((seq!['{'] + ser_obj(vpairs) + seq!['}'])[j - 1 - i] == '}');
                }
                assert(Seq::<(Seq<char>, JsonV)>::empty() + vpairs =~= vpairs);
            }
        }
        proof {
            if result is Some {
                let j = result->Some_0;
                let d = view_obj(fields@).skip(0);
                assert(d =~= view_obj(fields@));
                assert(s@.subrange(i as int, j as int) =~= seq!['{'] + ser_obj(view_obj(fields@))
                    + seq!['}']) by {
                    let body = ser_obj(view_obj(fields@));
                    assert(s@.subrange(i as int + 1, j - 1) == ser_obj(d));
                    assert forall|k: int|
                        0 <= k < j - i implies s@.subrange(i as int, j as int)[k] == (seq!['{']
                        + body + seq!['}'])[k] by {
                        assert(s@.subrange(i as int, j as int)[k] == s@[i + k]);
                        if 1 <= k < 1 + body.len() {
                            assert(s@.subrange(i as int + 1, j - 1)[k - 1] == s@[i + k]);
                        }
                    }
                }
            }
        }
        match result {
            Some(j) => Some((Json::Obj(fields), j)),
            None => None,
        }
    } else if c == '-' || digit_val_exec(c) < 10 {
        let result = num_end_exec(s, i);
        proof {
            assert forall|v: JsonV, j: int|
                ser_at(s@, i as int, v, j) implies (result matches Some(jj) && jj == j && v
                == JsonV::Num(s@.subrange(i as int, j))) by {
                lemma_ser_shape(v);
                lemma_ser_at_char(s@, i as int, v, j, 0);
                let lex = v->Num_0;
                lemma_num_embed(s@, i as int, lex);
            }
        }
        match result {
            Some(j) => {
                let lex = collect_range(s, i, j);
                proof {
                    lemma_num_extract(s@, i as int, j as int);
                    assert(ser_json(JsonV::Num(lex@)) == lex@);
                }
                Some((Json::Num(chars_to_string(&lex)), j))
            },
            None => None,
        }
    } else {
        proof {
            assert forall|v: JsonV, j: int| !ser_at(s@, i as int, v, j) by {
                if ser_at(s@, i as int, v, j) {
                    lemma_ser_shape(v);
                    lemma_ser_at_char(s@, i as int, v, j, 0);
                }
            }
        }
        None
    }
}

/// Parse the comma-separated elements of a non-empty array, up to and
/// including the closing bracket, appending the parsed values.
#[verifier::rlimit(100)]
fn parse_elems_into(s: &Vec<char>, i: usize, out: &mut Vec<Json>) -> (r: Option<usize>)
    requires
        i <= s@.len(),
    ensures
        (r matches Some(j) ==> {
            let d = view_arr(final(out)@).skip(old(out)@.len() as int);
            &&& i < j <= s@.len()
            &&& (wf_arr(view_arr(old(out)@)) ==> wf_arr(view_arr(final(out)@)))
            &&& final(out)@.len() >= old(out)@.len()
            &&& view_arr(final(out)@).subrange(0, old(out)@.len() as int) == view_arr(old(out)@)
            &&& d.len() >= 1
            &&& s@.subrange(i as int, j - 1) == ser_arr(d)
            &&& s@[j - 1] == ']'
        }),
        forall|items: Seq<JsonV>, j: int|
            elems_at(s@, i as int, items, j) ==> (r matches Some(jj) && jj == j && view_arr(
                final(out)@,
            ) == view_arr(old(out)@) + items),
    decreases s@.len() - i, 1int,
{
    let first = parse_value(s, i);
    proof {
        assert forall|items: Seq<JsonV>, j: int|
            elems_at(s@, i as int, items, j) implies ser_at(
            s@,
            i as int,
            items[0],
            i + ser_json(items[0]).len(),
        ) by {
            lemma_wf_arr_first(items);
            lemma_ser_arr_first(items);
            let m = i + ser_json(items[0]).len();
            assert(s@.subrange(i as int, m as int) =~= ser_json(items[0])) by {
                assert forall|k: int|
                    0 <= k < ser_json(items[0]).len() implies s@.subrange(i as int, m)[k]
                    == ser_json(items[0])[k] by {
                    assert(s@.subrange(i as int, m)[k] == s@[i + k]);
                    assert(s@.subrange(i as int, j - 1)[k] == s@[i + k]);
                    if items.len() > 1 {
                        assert((ser_json(items[0]) + seq![','] + ser_arr(items.drop_first()))[k]
                            == ser_json(items[0])[k]);
                    }
                }
            }
            assert(boundary_ok(s@, m)) by {
                if items.len() > 1 {
                    assert(s@.subrange(i as int, j - 1)[m - i] == s@[m as int]);
                    assert((ser_json(items[0]) + seq![','] + ser_arr(items.drop_first()))[m - i]
                        == ',');
                } else {
                    assert(m == j - 1);
                }
            }
        }
    }
    let (val, m) = match first {
        Some(p) => p,
        None => {
            return None;
        },
    };
    if m < s.len() && s[m] == ',' {
        out.push(val);
        let ghost mid = out@;
        let result = parse_elems_into(s, m + 1, out);
        proof {
            assert(view_arr(mid) =~= view_arr(old(out)@).push(val@)) by {
                assert(mid.drop_last() =~= old(out)@);
            }
            assert(wf_arr(view_arr(old(out)@)) ==> wf_arr(view_arr(mid))) by {
                assert(view_arr(mid).drop_last() =~= view_arr(old(out)@));
                assert(view_arr(mid).last() == val@);
            }
            assert forall|items: Seq<JsonV>, j: int|
                elems_at(s@, i as int, items, j) implies (result matches Some(jj) && jj == j
                && view_arr(out@) == view_arr(old(out)@) + items) by {
                lemma_wf_arr_first(items);
                lemma_ser_arr_first(items);
                assert(val@ == items[0] && m == i + ser_json(items[0]).len());
                assert(items.len() > 1) by {
                    if items.len() == 1 {
                        assert(m == j - 1);
                        assert(s@[j - 1] == ']');
                    }
                }
                let rest = items.drop_first();
                assert(elems_at(s@, m + 1 as int, rest, j)) by {
                    lemma_wf_arr_first(items);
                    assert(s@.subrange(m + 1 as int, j - 1) =~= ser_arr(rest)) by {
                        assert forall|k: int|
                            0 <= k < ser_arr(rest).len() implies s@.subrange(m + 1 as int, j - 1)[k]
                            == ser_arr(rest)[k] by {
                            assert(s@.subrange(m + 1 as int, j - 1)[k] == s@[m + 1 + k]);
                            assert(s@.subrange(i as int, j - 1)[m + 1 - i + k] == s@[m + 1 + k]);
                            assert((ser_json(items[0]) + seq![','] + ser_arr(rest))[m + 1 - i + k]
                                == ser_arr(rest)[k]);
                        }
                    }
                }
                assert(view_arr(out@) == view_arr(mid) + rest);
                assert(view_arr(old(out)@).push(items[0]) + rest =~= view_arr(old(out)@) + items);
            }
        }
        proof {
            lemma_view_arr(old(out)@);
            lemma_view_arr(mid);
            lemma_view_arr(out@);
            if result is Some {
                let j = result->Some_0;
                let drest = view_arr(out@).skip(mid.len() as int);
                let d = view_arr(out@).skip(old(out)@.len() as int);
                assert(view_arr(out@).subrange(0, mid.len() as int) == view_arr(mid));
                assert(view_arr(out@).subrange(0, old(out)@.len() as int) =~= view_arr(
                    old(out)@,
                )) by {
                    assert forall|k: int|
                        0 <= k < old(out)@.len() implies view_arr(out@).subrange(
                        0,
                        old(out)@.len() as int,
                    )[k] == view_arr(old(out)@)[k] by {
                        assert(view_arr(out@).subrange(0, mid.len() as int)[k] == view_arr(
                            mid,
                        )[k]);
                        assert(view_arr(mid)[k] == mid[k]@);
                        assert(mid[k] == old(out)@[k]);
                    }
                }
                assert(d =~= seq![val@] + drest) by {
                    assert forall|k: int| 0 <= k < d.len() implies d[k] == (seq![val@]
                        + drest)[k] by {
                        if k == 0 {
                            assert(d[0] == view_arr(out@)[old(out)@.len() as int]);
                            assert(view_arr(out@).subrange(0, mid.len() as int)[mid.len() - 1]
                                == view_arr(mid)[mid.len() - 1]);
                            assert(view_arr(mid)[mid.len() - 1] == mid[mid.len() - 1]@);
                            assert(mid[mid.len() - 1] == val);
                        }
                    }
                }
                assert(d.len() >= 2);
                assert(d[0] == val@ && d.drop_first() =~= drest);
                lemma_ser_arr_first(d);
                assert(s@.subrange(i as int, j - 1) =~= ser_arr(d)) by {
                    let head = ser_json(val@);
                    assert(s@.subrange(i as int, m as int) == head);
                    assert(s@.subrange(m + 1 as int, j - 1) == ser_arr(drest));
                    assert(ser_arr(d) == head + seq![','] + ser_arr(drest));
                    assert forall|k: int|
                        0 <= k < ser_arr(d).len() implies s@.subrange(i as int, j - 1)[k]
                        == ser_arr(d)[k] by {
                        assert(s@.subrange(i as int, j - 1)[k] == s@[i + k]);
                        if k < head.len() {
                            assert(s@.subrange(i as int, m as int)[k] == s@[i + k]);
                        } else if k > head.len() {
                            assert(s@.subrange(m + 1 as int, j - 1)[k - head.len() - 1] == s@[i
                                + k]);
                        }
                    }
                }
            }
        }
        match result {
            Some(j) => Some(j),
            None => None,
        }
    } else if m < s.len() && s[m] == ']' {
        out.push(val);
        proof {
            assert(view_arr(out@) =~= view_arr(old(out)@).push(val@)) by {
                assert(out@.drop_last() =~= old(out)@);
            }
            assert(wf_arr(view_arr(old(out)@)) ==> wf_arr(view_arr(out@))) by {
                assert(view_arr(out@).drop_last() =~= view_arr(old(out)@));
                assert(view_arr(out@).last() == val@);
            }
            assert forall|items: Seq<JsonV>, j: int|
                elems_at(s@, i as int, items, j) implies (j == m + 1 && view_arr(out@) == view_arr(
                old(out)@,
            ) + items) by {
                lemma_wf_arr_first(items);
                lemma_ser_arr_first(items);
                assert(val@ == items[0] && m == i + ser_json(items[0]).len());
                assert(items.len() == 1) by {
                    if items.len() > 1 {
                        assert(s@.subrange(i as int, j - 1)[m - i] == s@[m as int]);
                        assert((ser_json(items[0]) + seq![','] + ser_arr(items.drop_first()))[m
                            - i] == ',');
                    }
                }
                assert(view_arr(old(out)@).push(items[0]) =~= view_arr(old(out)@) + items);
            }
        }
        proof {
            lemma_view_arr(old(out)@);
            lemma_view_arr(out@);
            let d = view_arr(out@).skip(old(out)@.len() as int);
            assert(view_arr(out@).subrange(0, old(out)@.len() as int) =~= view_arr(old(out)@))
                by {
                assert forall|k: int|
                    0 <= k < old(out)@.len() implies view_arr(out@).subrange(
                    0,
                    old(out)@.len() as int,
                )[k] == view_arr(old(out)@)[k] by {
                    assert(view_arr(out@)[k] == out@[k]@);
                    assert(out@[k] == old(out)@[k]);
                }
            }
            assert(d =~= seq![val@]) by {
                assert(d[0] == view_arr(out@)[old(out)@.len() as int]);
                assert(view_arr(out@)[old(out)@.len() as int] == out@[old(out)@.len() as int]@);
            }
            assert(ser_arr(d) == ser_json(val@));
            assert(s@.subrange(i as int, m as int) == ser_json(val@));
        }
        Some(m + 1)
    } else {
        proof {
            assert forall|items: Seq<JsonV>, j: int|
                !elems_at(s@, i as int, items, j) by {
                if elems_at(s@, i as int, items, j) {
                    lemma_wf_arr_first(items);
                    lemma_ser_arr_first(items);
                    assert(val@ == items[0] && m == i + ser_json(items[0]).len());
                    if items.len() > 1 {
                        assert(s@.subrange(i as int, j - 1)[m - i] == s@[m as int]);
                        assert((ser_json(items[0]) + seq![','] + ser_arr(items.drop_first()))[m
                            - i] == ',');
                    } else {
                        assert(m == j - 1);
                        assert(s@[j - 1] == ']');
                    }
                }
            }
        }
        None
    }
}

/// Parse the comma-separated members of a non-empty object, up to and
/// including the closing brace, appending the parsed members.
#[verifier::rlimit(100)]
fn parse_members_into(s: &Vec<char>, i: usize, out: &mut Vec<JsonField>) -> (r: Option<usize>)
    requires
        i <= s@.len(),
    ensures
        (r matches Some(j) ==> {
            let d = view_obj(final(out)@).skip(old(out)@.len() as int);
            &&& i < j <= s@.len()
            &&& (wf_obj(view_obj(old(out)@)) ==> wf_obj(view_obj(final(out)@)))
            &&& final(out)@.len() >= old(out)@.len()
            &&& view_obj(final(out)@).subrange(0, old(out)@.len() as int) == view_obj(old(out)@)
            &&& d.len() >= 1
            &&& s@.subrange(i as int, j - 1) == ser_obj(d)
            &&& s@[j - 1] == '}'
        }),
        forall|pairs: Seq<(Seq<char>, JsonV)>, j: int|
            mems_at(s@, i as int, pairs, j) ==> (r matches Some(jj) && jj == j && view_obj(
                final(out)@,
            ) == view_obj(old(out)@) + pairs),
    decreases s@.len() - i, 1int,
{
    proof {
        assert forall|pairs: Seq<(Seq<char>, JsonV)>, j: int|
            mems_at(s@, i as int, pairs, j) implies s@[i as int] == '"' && sb_at(
            s@,
            i as int + 1,
            pairs[0].0,
            i + 2 + esc_str(pairs[0].0).len(),
        ) by {
            lemma_ser_obj_first(pairs);
            let mem = ser_member(pairs[0].0, pairs[0].1);
            lemma_mem_prefix(s@, i as int, pairs, j);
        }
    }
    if i >= s.len() || s[i] != '"' {
        return None;
    }
    let mut key_chars: Vec<char> = Vec::new();
    let key_end = match parse_string_into(s, i + 1, &mut key_chars) {
        Some(ke) => ke,
        None => {
            return None;
        },
    };
    proof {
        assert forall|pairs: Seq<(Seq<char>, JsonV)>, j: int|
            mems_at(s@, i as int, pairs, j) implies key_chars@ == pairs[0].0 && key_end == i + 2
            + esc_str(pairs[0].0).len() && s@[key_end as int] == ':' && ser_at(
            s@,
            key_end + 1,
            pairs[0].1,
            key_end + 1 + ser_json(pairs[0].1).len(),
        ) by {
            lemma_mem_prefix(s@, i as int, pairs, j);
            assert(Seq::<char>::empty() + pairs[0].0 =~= pairs[0].0);
        }
    }
    if key_end >= s.len() || s[key_end] != ':' {
        return None;
    }
    let (val, m) = match parse_value(s, key_end + 1) {
        Some(p) => p,
        None => {
            return None;
        },
    };
    proof {
        assert(key_chars@.skip(0) =~= key_chars@);
        assert(sb_at(s@, i as int + 1, key_chars@, key_end as int));
        assert(s@.subrange(i as int, m as int) =~= ser_member(key_chars@, val@)) by {
            let ek = esc_str(key_chars@);
            let sv = ser_json(val@);
            let memb = ser_member(key_chars@, val@);
            assert(memb == seq!['"'] + ek + seq!['"', ':'] + sv);
            assert(key_end == i + 2 + ek.len());
            assert forall|k: int|
                0 <= k < memb.len() implies s@.subrange(i as int, m as int)[k] == memb[k] by {
                assert(s@.subrange(i as int, m as int)[k] == s@[i + k]);
                if 1 <= k < 1 + ek.len() {
                    assert(s@.subrange(i as int + 1, key_end - 1)[k - 1] == s@[i + k]);
                } else if k == 1 + ek.len() {
                    assert(s@[key_end - 1] == '"');
                } else if k == 2 + ek.len() {
                    assert(s@[key_end as int] == ':');
                } else if k >= 3 + ek.len() {
                    assert(s@.subrange(key_end + 1 as int, m as int)[k - 3 - ek.len()] == s@[i
                        + k]);
                }
            }
        }
    }
    let field = JsonField { key: chars_to_string(&key_chars), value: val };
    if m < s.len() && s[m] == ',' {
        let ghost fieldv = (field.key@, field.value@);
        out.push(field);
        let ghost mid = out@;
        proof {
            assert(view_obj(mid) =~= view_obj(old(out)@).push(fieldv)) by {
                assert(mid.drop_last() =~= old(out)@);
            }
            assert(wf_obj(view_obj(old(out)@)) ==> wf_obj(view_obj(mid))) by {
                assert(view_obj(mid).drop_last() =~= view_obj(old(out)@));
                assert(view_obj(mid).last() == fieldv);
            }
        }
        let result = parse_members_into(s, m + 1, out);
        proof {
            assert forall|pairs: Seq<(Seq<char>, JsonV)>, j: int|
                mems_at(s@, i as int, pairs, j) implies (result matches Some(jj) && jj == j
                && view_obj(out@) == view_obj(old(out)@) + pairs) by {
                lemma_mem_prefix(s@, i as int, pairs, j);
                lemma_ser_obj_first(pairs);
                let mem = ser_member(pairs[0].0, pairs[0].1);
                assert(val@ == pairs[0].1 && m == i + mem.len());
                assert(pairs.len() > 1) by {
                    if pairs.len() == 1 {
                        assert(m == j - 1);
                        assert(s@[j - 1] == '}');
                    }
                }
                let rest = pairs.drop_first();
                assert(mems_at(s@, m + 1 as int, rest, j)) by {
                    lemma_wf_obj_first(pairs);
                    assert(s@.subrange(m + 1 as int, j - 1) =~= ser_obj(rest)) by {
                        assert forall|k: int|
                            0 <= k < ser_obj(rest).len() implies s@.subrange(m + 1 as int, j - 1)[k]
                            == ser_obj(rest)[k] by {
                            assert(s@.subrange(m + 1 as int, j - 1)[k] == s@[m + 1 + k]);
                            assert(s@.subrange(i as int, j - 1)[m + 1 - i + k] == s@[m + 1 + k]);
                            assert((mem + seq![','] + ser_obj(rest))[m + 1 - i + k] == ser_obj(
                                rest,
                            )[k]);
                        }
                    }
                }
                assert(view_obj(mid) =~= view_obj(old(out)@).push((pairs[0].0, pairs[0].1))) by {
                    assert(mid.drop_last() =~= old(out)@);
                }
                assert(view_obj(out@) == view_obj(mid) + rest);
                assert(view_obj(old(out)@).push((pairs[0].0, pairs[0].1)) + rest =~= view_obj(
                    old(out)@,
                ) + pairs);
            }
        }
        proof {
            lemma_view_obj(old(out)@);
            lemma_view_obj(mid);
            lemma_view_obj(out@);
            if result is Some {
                let j = result->Some_0;
                let drest = view_obj(out@).skip(mid.len() as int);
                let d = view_obj(out@).skip(old(out)@.len() as int);
                assert(view_obj(out@).subrange(0, mid.len() as int) == view_obj(mid));
                assert(view_obj(out@).subrange(0, old(out)@.len() as int) =~= view_obj(
                    old(out)@,
                )) by {
                    assert forall|k: int|
                        0 <= k < old(out)@.len() implies view_obj(out@).subrange(
                        0,
                        old(out)@.len() as int,
                    )[k] == view_obj(old(out)@)[k] by {
                        assert(view_obj(out@).subrange(0, mid.len() as int)[k] == view_obj(
                            mid,
                        )[k]);
                        assert(view_obj(mid)[k] == (mid[k].key@, mid[k].value@));
                        assert(mid[k] == old(out)@[k]);
                    }
                }
                assert(d =~= seq![fieldv] + drest) by {
                    assert forall|k: int| 0 <= k < d.len() implies d[k] == (seq![fieldv]
                        + drest)[k] by {
                        if k == 0 {
                            assert(d[0] == view_obj(out@)[old(out)@.len() as int]);
                            assert(view_obj(out@).subrange(0, mid.len() as int)[mid.len() - 1]
                                == view_obj(mid)[mid.len() - 1]);
                            assert(view_obj(mid)[mid.len() - 1] == (
                            mid[mid.len() - 1].key@,
                            mid[mid.len() - 1].value@,
                            ));
                        }
                    }
                }
                assert(d.len() >= 2);
                assert(d[0] == fieldv && d.drop_first() =~= drest);
                lemma_ser_obj_first(d);
                assert(s@.subrange(i as int, j - 1) =~= ser_obj(d)) by {
                    let head = ser_member(fieldv.0, fieldv.1);
                    assert(head == ser_member(key_chars@, val@));
                    assert(s@.subrange(i as int, m as int) == head);
                    assert(s@.subrange(m + 1 as int, j - 1) == ser_obj(drest));
                    assert(ser_obj(d) == head + seq![','] + ser_obj(drest));
                    assert forall|k: int|
                        0 <= k < ser_obj(d).len() implies s@.subrange(i as int, j - 1)[k]
                        == ser_obj(d)[k] by {
                        assert(s@.subrange(i as int, j - 1)[k] == s@[i + k]);
                        if k < head.len() {
                            assert(s@.subrange(i as int, m as int)[k] == s@[i + k]);
                        } else if k > head.len() {
                            assert(s@.subrange(m + 1 as int, j - 1)[k - head.len() - 1] == s@[i
                                + k]);
                        }
                    }
                }
            }
        }
        match result {
            Some(j) => Some(j),
            None => None,
        }
    } else if m < s.len() && s[m] == '}' {
        let ghost fieldv = (field.key@, field.value@);
        out.push(field);
        proof {
            assert(view_obj(out@) =~= view_obj(old(out)@).push(fieldv)) by {
                assert(out@.drop_last() =~= old(out)@);
            }
            assert(wf_obj(view_obj(old(out)@)) ==> wf_obj(view_obj(out@))) by {
                assert(view_obj(out@).drop_last() =~= view_obj(old(out)@));
                assert(view_obj(out@).last() == fieldv);
            }
            assert forall|pairs: Seq<(Seq<char>, JsonV)>, j: int|
                mems_at(s@, i as int, pairs, j) implies (j == m + 1 && view_obj(out@) == view_obj(
                old(out)@,
            ) + pairs) by {
                lemma_mem_prefix(s@, i as int, pairs, j);
                lemma_ser_obj_first(pairs);
                let mem = ser_member(pairs[0].0, pairs[0].1);
                assert(val@ == pairs[0].1 && m == i + mem.len());
                assert(pairs.len() == 1) by {
                    if pairs.len() > 1 {
                        assert(s@.subrange(i as int, j - 1)[m - i] == s@[m as int]);
                        assert((mem + seq![','] + ser_obj(pairs.drop_first()))[m - i] == ',');
                    }
                }
                assert(view_obj(out@) =~= view_obj(old(out)@).push((pairs[0].0, pairs[0].1))) by {
                    assert(out@.drop_last() =~= old(out)@);
                }
                assert(view_obj(old(out)@).push((pairs[0].0, pairs[0].1)) =~= view_obj(old(out)@)
                    + pairs);
            }
        }
        proof {
            lemma_view_obj(old(out)@);
            lemma_view_obj(out@);
            let d = view_obj(out@).skip(old(out)@.len() as int);
            assert(view_obj(out@).subrange(0, old(out)@.len() as int) =~= view_obj(old(out)@))
                by {
                assert forall|k: int|
                    0 <= k < old(out)@.len() implies view_obj(out@).subrange(
                    0,
                    old(out)@.len() as int,
                )[k] == view_obj(old(out)@)[k] by {
                    assert(view_obj(out@)[k] == (out@[k].key@, out@[k].value@));
                    assert(out@[k] == old(out)@[k]);
                }
            }
            assert(d =~= seq![fieldv]) by {
                assert(d[0] == view_obj(out@)[old(out)@.len() as int]);
                assert(view_obj(out@)[old(out)@.len() as int] == (
                out@[old(out)@.len() as int].key@,
                out@[old(out)@.len() as int].value@,
                ));
            }
            assert(ser_obj(d) == ser_member(fieldv.0, fieldv.1));
            assert(s@.subrange(i as int, m as int) == ser_member(key_chars@, val@));
        }
        Some(m + 1)
    } else {
        proof {
            assert forall|pairs: Seq<(Seq<char>, JsonV)>, j: int|
                !mems_at(s@, i as int, pairs, j) by {
                if mems_at(s@, i as int, pairs, j) {
                    lemma_mem_prefix(s@, i as int, pairs, j);
                    lemma_ser_obj_first(pairs);
                    let mem = ser_member(pairs[0].0, pairs[0].1);
                    assert(val@ == pairs[0].1 && m == i + mem.len());
                    if pairs.len() > 1 {
                        assert(s@.subrange(i as int, j - 1)[m - i] == s@[m as int]);
                        assert((mem + seq![','] + ser_obj(pairs.drop_first()))[m - i] == ',');
                    } else {
                        assert(m == j - 1);
                        assert(s@[j - 1] == '}');
                    }
                }
            }
        }
        None
    }
}

/// The first member of an object decomposes into its key's string body, a
/// colon, and its value's serialization in place.
proof fn lemma_mem_prefix(s: Seq<char>, i: int, pairs: Seq<(Seq<char>, JsonV)>, j: int)
    requires
        mems_at(s, i, pairs, j),
    ensures
        s[i] == '"',
        sb_at(s, i + 1, pairs[0].0, i + 2 + esc_str(pairs[0].0).len()),
        s[i + 2 + esc_str(pairs[0].0).len()] == ':',
        ser_at(
            s,
            i + 3 + esc_str(pairs[0].0).len(),
            pairs[0].1,
            i + 3 + esc_str(pairs[0].0).len() + ser_json(pairs[0].1).len(),
        ),
        i + 3 + esc_str(pairs[0].0).len() + ser_json(pairs[0].1).len() == i + ser_member(
            pairs[0].0,
            pairs[0].1,
        ).len(),
        pairs.len() > 1 ==> s[i + ser_member(pairs[0].0, pairs[0].1).len()] == ',',
        pairs.len() == 1 ==> i + ser_member(pairs[0].0, pairs[0].1).len() == j - 1,
{
    lemma_ser_obj_first(pairs);
    lemma_wf_obj_first(pairs);
    let key = pairs[0].0;
    let v0 = pairs[0].1;
    let mem = ser_member(key, v0);
    let eklen = esc_str(key).len() as int;
    assert(mem == seq!['"'] + esc_str(key) + seq!['"', ':'] + ser_json(v0));
    assert forall|k: int| 0 <= k < mem.len() implies s[i + k] == mem[k] by {
        assert(s.subrange(i, j - 1)[k] == s[i + k]);
        if pairs.len() > 1 {
            assert((mem + seq![','] + ser_obj(pairs.drop_first()))[k] == mem[k]);
        }
    }
    assert(s[i + 0] == mem[0]);
    assert(mem[0] == '"');
    assert(sb_at(s, i + 1, key, i + 2 + eklen)) by {
        assert(s.subrange(i + 1, i + 1 + eklen) =~= esc_str(key)) by {
            assert forall|k: int|
                0 <= k < eklen implies s.subrange(i + 1, i + 1 + eklen)[k] == esc_str(key)[k] by {
                assert(s.subrange(i + 1, i + 1 + eklen)[k] == s[i + 1 + k]);
                assert(mem[1 + k] == esc_str(key)[k]);
            }
        }
        assert(s[i + 1 + eklen] == mem[1 + eklen]);
        assert(mem[1 + eklen] == '"');
    }
    assert(s[i + 2 + eklen] == mem[2 + eklen]);
    assert(mem[2 + eklen] == ':');
    let vstart = i + 3 + eklen;
    assert(ser_at(s, vstart, v0, vstart + ser_json(v0).len())) by {
        assert(s.subrange(vstart, vstart + ser_json(v0).len()) =~= ser_json(v0)) by {
            assert forall|k: int|
                0 <= k < ser_json(v0).len() implies s.subrange(
                vstart,
                vstart + ser_json(v0).len(),
            )[k] == ser_json(v0)[k] by {
                assert(s.subrange(vstart, vstart + ser_json(v0).len())[k] == s[vstart + k]);
                assert(mem[3 + eklen + k] == ser_json(v0)[k]);
            }
        }
        assert(boundary_ok(s, vstart + ser_json(v0).len())) by {
            if pairs.len() > 1 {
                assert(s.subrange(i, j - 1)[mem.len() as int] == s[i + mem.len()]);
                assert((mem + seq![','] + ser_obj(pairs.drop_first()))[mem.len() as int] == ',');
            } else {
                assert(i + mem.len() == j - 1);
            }
        }
    }
    if pairs.len() > 1 {
        assert(s.subrange(i, j - 1)[mem.len() as int] == s[i + mem.len()]);
        assert((mem + seq![','] + ser_obj(pairs.drop_first()))[mem.len() as int] == ',');
    }
}

/// Parse a complete JSON text. The parser accepts exactly the canonical
/// form the serializer writes: a text parses to a value if and only if it
/// is that value's serialization, so parsing and serialization invert each
/// other in both directions.
pub fn parse_text(s: &str) -> (r: Option<Json>)
    ensures
        r matches Some(out) ==> wf_json(out@) && s@ == ser_json(out@),
        forall|v: JsonV|
            wf_json(v) && s@ == ser_json(v) ==> (r matches Some(out) && out@ == v),
{
    let chars = crate::strutil::str_chars(s);
    let result = parse_value(&chars, 0);
    proof {
        assert forall|v: JsonV|
            wf_json(v) && s@ == ser_json(v) implies ser_at(chars@, 0, v, s@.len() as int) by {
            assert(chars@.subrange(0, s@.len() as int) =~= s@);
        }
    }
    match result {
        Some((v, n)) => {
            if n == chars.len() {
                proof {
                    assert(chars@.subrange(0, n as int) =~= chars@);
                }
                Some(v)
            } else {
                proof {
                    assert forall|v2: JsonV|
                        !(wf_json(v2) && s@ == ser_json(v2)) by {
                        if wf_json(v2) && s@ == ser_json(v2) {
                            assert(ser_at(chars@, 0, v2, s@.len() as int));
                        }
                    }
                }
                None
            }
        },
        None => None,
    }
}


/// A run of digits scans to the end of the text.
proof fn lemma_skip_all_digits(s: Seq<char>, i: int)
    requires
        0 <= i <= s.len(),
        forall|k: int| i <= k < s.len() ==> is_digit(#[trigger] s[k]),
    ensures
        skip_digits(s, i) == s.len(),
    decreases s.len() - i,
{
    if i < s.len() {
        lemma_skip_all_digits(s, i + 1);
    }
}

/// The decimal lexeme of an integer is a complete JSON number.
pub proof fn lemma_int_lexeme(n: int)
    ensures
        is_num_lexeme(int_str(n)),
{
    let lex = int_str(n);
    if n < 0 {
        lemma_dec_str((-n) as nat);
        let d = dec_str((-n) as nat);
        assert(lex == seq!['-'] + d);
        assert(lex[0] == '-');
        assert(!is_digit('-'));
        assert forall|k: int| 1 <= k < lex.len() implies is_digit(#[trigger] lex[k]) by {
            assert(lex[k] == d[k - 1]);
        }
        assert(is_digit(lex[1]));
        lemma_skip_all_digits(lex, 1);
        if lex[1] == '0' {
            assert(d[0] == '0');
            assert((-n) as nat == 0);
        } else {
            assert(skip_digits(lex, 1) == lex.len());
        }
        assert(num_end(lex, 0) == Some(lex.len() as int));
    } else {
        lemma_dec_str(n as nat);
        let d = dec_str(n as nat);
        assert(lex == d);
        assert(is_digit(lex[0]));
        assert(lex[0] != '-') by {
            assert(!is_digit('-'));
        }
        lemma_skip_all_digits(lex, 0);
        if lex[0] == '0' {
            assert(n == 0);
            assert(d == seq![digit_char(0)]);
            assert(lex.len() == 1);
        }
        assert(num_end(lex, 0) == Some(lex.len() as int));
    }
}


/// The characters a digit run contributes.
proof fn lemma_skip_digits_chars(s: Seq<char>, i: int)
    requires
        0 <= i <= s.len(),
    ensures
        forall|k: int| i <= k < skip_digits(s, i) ==> is_digit(#[trigger] s[k]),
        i <= skip_digits(s, i) <= s.len(),
    decreases s.len() - i,
{
    lemma_skip_digits_bounds(s, i);
    if i < s.len() && is_digit(s[i]) {
        lemma_skip_digits_chars(s, i + 1);
    }
}

/// Every character of a complete number lexeme is a digit, a sign, a
/// decimal point, or an exponent marker.
proof fn lemma_num_chars(lex: Seq<char>)
    requires
        is_num_lexeme(lex),
    ensures
        forall|k: int|
            0 <= k < lex.len() ==> is_digit(#[trigger] lex[k]) || lex[k] == '-' || lex[k] == '.'
                || lex[k] == 'e' || lex[k] == 'E' || lex[k] == '+',
{
    let n = lex.len() as int;
    let p0: int = if 0 < n && lex[0] == '-' {
        1
    } else {
        0
    };
    assert(p0 < n && is_digit(lex[p0]));
    let p1: int = if lex[p0] == '0' {
        p0 + 1
    } else {
        skip_digits(lex, p0)
    };
    lemma_skip_digits_chars(lex, p0);
    let p2: int = if p1 < n && lex[p1] == '.' {
        skip_digits(lex, p1 + 1)
    } else {
        p1
    };
    if p1 < n && lex[p1] == '.' {
        lemma_skip_digits_chars(lex, p1 + 1);
    }
    assert forall|k: int|
        0 <= k < lex.len() implies is_digit(#[trigger] lex[k]) || lex[k] == '-' || lex[k] == '.'
        || lex[k] == 'e' || lex[k] == 'E' || lex[k] == '+' by {
        if k == 0 && lex[0] == '-' {
        } else if k < p1 {
        } else if p1 < n && lex[p1] == '.' && k == p1 {
        } else if p1 < n && lex[p1] == '.' && k < p2 {
        } else {
            let px: int = p2;
            if px < n && (lex[px] == 'e' || lex[px] == 'E') {
                let q: int = if px + 1 < n && (lex[px + 1] == '+' || lex[px + 1] == '-') {
                    px + 2
                } else {
                    px + 1
                };
                lemma_skip_digits_chars(lex, q);
                if k == px {
                } else if k < q {
                } else {
                }
            }
        }
    }
}

/// The escape of a character never contains a line feed.
proof fn lemma_esc_char_no_lf(c: char)
    ensures
        forall|k: int| 0 <= k < esc_char(c).len() ==> #[trigger] esc_char(c)[k] != '\n',
{
    if !(c == '"' || c == '\\' || is_ctl(c)) {
        assert(esc_char(c) == seq![c]);
        assert(esc_char(c)[0] != '\n');
    }
}

/// The escaped form of a string never contains a line feed.
proof fn lemma_esc_str_no_lf(t: Seq<char>)
    ensures
        forall|k: int| 0 <= k < esc_str(t).len() ==> #[trigger] esc_str(t)[k] != '\n',
    decreases t.len(),
{
    if t.len() > 0 {
        lemma_esc_char_no_lf(t[0]);
        lemma_esc_str_no_lf(t.drop_first());
        assert forall|k: int|
            0 <= k < esc_str(t).len() implies #[trigger] esc_str(t)[k] != '\n' by {
            assert(esc_str(t) == esc_char(t[0]) + esc_str(t.drop_first()));
            if k < esc_char(t[0]).len() {
                assert(esc_str(t)[k] == esc_char(t[0])[k]);
            } else {
                assert(esc_str(t)[k] == esc_str(t.drop_first())[k - esc_char(t[0]).len()]);
            }
        }
    }
}

/// A serialized value never contains a line feed, so one message is always
/// one line on the stdio transport.
pub proof fn lemma_ser_no_lf(v: JsonV)
    requires
        wf_json(v),
    ensures
        forall|k: int| 0 <= k < ser_json(v).len() ==> #[trigger] ser_json(v)[k] != '\n',
    decreases v, 0int,
{
    match v {
        JsonV::Null => {},
        JsonV::Bool(_) => {},
        JsonV::Num(lex) => {
            lemma_num_chars(lex);
            assert forall|k: int|
                0 <= k < ser_json(v).len() implies #[trigger] ser_json(v)[k] != '\n' by {
                assert(!is_digit('\n'));
            }
        },
        JsonV::Str(t) => {
            lemma_esc_str_no_lf(t);
            assert forall|k: int|
                0 <= k < ser_json(v).len() implies #[trigger] ser_json(v)[k] != '\n' by {
                let body = esc_str(t);
                assert(ser_json(v) == seq!['"'] + body + seq!['"']);
                if 1 <= k < 1 + body.len() {
                    assert(ser_json(v)[k] == body[k - 1]);
                }
            }
        },
        JsonV::Arr(items) => {
            lemma_ser_arr_no_lf(items);
            assert forall|k: int|
                0 <= k < ser_json(v).len() implies #[trigger] ser_json(v)[k] != '\n' by {
                let body = ser_arr(items);
                assert(ser_json(v) == seq!['['] + body + seq![']']);
                if 1 <= k < 1 + body.len() {
                    assert(ser_json(v)[k] == body[k - 1]);
                }
            }
        },
        JsonV::Obj(pairs) => {
            lemma_ser_obj_no_lf(pairs);
            assert forall|k: int|
                0 <= k < ser_json(v).len() implies #[trigger] ser_json(v)[k] != '\n' by {
                let body = ser_obj(pairs);
                assert(ser_json(v) == seq!['{'] + body + seq!['}']);
                if 1 <= k < 1 + body.len() {
                    assert(ser_json(v)[k] == body[k - 1]);
                }
            }
        },
    }
}

/// The joined elements of an array never contain a line feed.
#[verifier::rlimit(50)]
proof fn lemma_ser_arr_no_lf(items: Seq<JsonV>)
    requires
        wf_arr(items),
    ensures
        forall|k: int| 0 <= k < ser_arr(items).len() ==> #[trigger] ser_arr(items)[k] != '\n',
    decreases items, 1int,
{
    if items.len() == 1 {
        lemma_ser_no_lf(items[0]);
    } else if items.len() > 1 {
        lemma_ser_arr_no_lf(items.drop_last());
        lemma_ser_no_lf(items.last());
        assert forall|k: int|
            0 <= k < ser_arr(items).len() implies #[trigger] ser_arr(items)[k] != '\n' by {
            let pre = ser_arr(items.drop_last());
            let lastv = ser_json(items.last());
            assert(ser_arr(items) == pre + seq![','] + lastv);
            if k < pre.len() {
                assert(ser_arr(items)[k] == pre[k]);
            } else if k == pre.len() {
                assert(ser_arr(items)[k] == ',');
            } else {
                assert(ser_arr(items)[k] == lastv[k - pre.len() - 1]);
            }
        }
    }
}

/// The joined members of an object never contain a line feed.
proof fn lemma_ser_obj_no_lf(pairs: Seq<(Seq<char>, JsonV)>)
    requires
        wf_obj(pairs),
    ensures
        forall|k: int| 0 <= k < ser_obj(pairs).len() ==> #[trigger] ser_obj(pairs)[k] != '\n',
    decreases pairs, 1int,
{
    if pairs.len() >= 1 {
        if pairs.len() > 1 {
            lemma_ser_obj_no_lf(pairs.drop_last());
        }
        lemma_ser_member_no_lf(pairs.last().0, pairs.last().1);
        assert forall|k: int|
            0 <= k < ser_obj(pairs).len() implies #[trigger] ser_obj(pairs)[k] != '\n' by {
            if pairs.len() == 1 {
                assert(ser_obj(pairs) == ser_member(pairs[0].0, pairs[0].1));
                assert(pairs.last() == pairs[0]);
            } else {
                let pre = ser_obj(pairs.drop_last());
                let lastm = ser_member(pairs.last().0, pairs.last().1);
                assert(ser_obj(pairs) == pre + seq![','] + lastm);
                if k < pre.len() {
                    assert(ser_obj(pairs)[k] == pre[k]);
                } else if k == pre.len() {
                    assert(ser_obj(pairs)[k] == ',');
                } else {
                    assert(ser_obj(pairs)[k] == lastm[k - pre.len() - 1]);
                }
            }
        }
    }
}

/// One object member's serialization never contains a line feed.
proof fn lemma_ser_member_no_lf(key: Seq<char>, v: JsonV)
    requires
        wf_json(v),
    ensures
        forall|k: int|
            0 <= k < ser_member(key, v).len() ==> #[trigger] ser_member(key, v)[k] != '\n',
    decreases v, 2int,
{
    lemma_esc_str_no_lf(key);
    lemma_ser_no_lf(v);
    assert forall|k: int|
        0 <= k < ser_member(key, v).len() implies #[trigger] ser_member(key, v)[k] != '\n' by {
        let ek = esc_str(key);
        let sv = ser_json(v);
        assert(ser_member(key, v) == seq!['"'] + ek + seq!['"', ':'] + sv);
        if 1 <= k < 1 + ek.len() {
            assert(ser_member(key, v)[k] == ek[k - 1]);
        } else if k >= 3 + ek.len() {
            assert(ser_member(key, v)[k] == sv[k - 3 - ek.len()]);
        }
    }
}

/// The canonical serialization of a value, as a string.
pub fn to_text(v: &Json) -> (r: String)
    ensures
        r@ == ser_json(v@),
{
    let mut out: Vec<char> = Vec::new();
    write_json(v, &mut out);
    proof {
        assert(Seq::<char>::empty() + ser_json(v@) =~= ser_json(v@));
    }
    chars_to_string(&out)
}

} // verus!
