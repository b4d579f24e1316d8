//! Best-effort literal inference for free-form override values.
//!
//! An override value is coerced by trying, in order: boolean parse, 64-bit
//! signed integer parse, floating-point parse, else the literal string.
//! An override string itself must split into exactly one key and one value
//! around a single `=`.

use vstd::prelude::*;

verus! {

use vstd::string::StrSliceExecFns;
use crate::value::{Leaf, LeafS, str_eq};

/// Is `c` an ASCII decimal digit?
pub open spec fn is_digit(c: char) -> bool {
    48 <= c as u32 <= 57
}

/// The numeric value of a digit.
pub open spec fn digit_val(c: char) -> int {
    c as u32 - 48
}

/// Are all characters of `s` decimal digits?
pub open spec fn all_digits(s: Seq<char>) -> bool {
    forall|j: int| 0 <= j < s.len() ==> is_digit(s[j])
}

/// The value of a digit string read in base ten.
pub open spec fn digits_val(s: Seq<char>) -> int
    decreases s.len(),
{
    if s.len() == 0 {
        0
    } else {
        digits_val(s.drop_last()) * 10 + digit_val(s.last())
    }
}

/// What `bool`'s string parse accepts: exactly "true" or "false".
pub open spec fn bool_spec(s: Seq<char>) -> Option<bool> {
    if s == "true"@ {
        Some(true)
    } else if s == "false"@ {
        Some(false)
    } else {
        None
    }
}

/// What `i64`'s string parse accepts: an optional sign, then one or more
/// digits, with the value in the type's range.
pub open spec fn i64_spec(s: Seq<char>) -> Option<i64> {
    let has_sign = s.len() > 0 && (s[0] == '-' || s[0] == '+');
    let neg = s.len() > 0 && s[0] == '-';
    let ds = if has_sign {
        s.drop_first()
    } else {
        s
    };
    if ds.len() == 0 || !all_digits(ds) {
        None
    } else {
        let m = digits_val(ds);
        if neg {
            if m <= 9223372036854775808 {
                Some((-m) as i64)
            } else {
                None
            }
        } else {
            if m <= 9223372036854775807 {
                Some(m as i64)
            } else {
                None
            }
        }
    }
}

/// A non-empty digit string.
pub open spec fn digits1(s: Seq<char>) -> bool {
    s.len() > 0 && all_digits(s)
}

/// A decimal integer part: one digit, or several without a leading zero.
pub open spec fn json_int_part(s: Seq<char>) -> bool {
    digits1(s) && (s.len() > 1 ==> s[0] != '0')
}

/// An optional fraction part: empty, or a dot followed by digits.
pub open spec fn json_frac_part(s: Seq<char>) -> bool {
    s.len() == 0 || (s.len() >= 2 && s[0] == '.' && digits1(s.skip(1)))
}

/// Digits with an optional leading sign.
pub open spec fn json_signed_digits(s: Seq<char>) -> bool {
    if s.len() > 0 && (s[0] == '+' || s[0] == '-') {
        digits1(s.skip(1))
    } else {
        digits1(s)
    }
}

/// An optional exponent part: empty, or `e`/`E`, an optional sign, digits.
pub open spec fn json_exp_part(s: Seq<char>) -> bool {
    s.len() == 0 || ((s[0] == 'e' || s[0] == 'E') && json_signed_digits(s.skip(1)))
}

/// The whole-string decimal number grammar: an optional minus, an integer
/// part, an optional fraction, an optional exponent.
pub open spec fn is_json_number(s: Seq<char>) -> bool {
    let u = if s.len() > 0 && s[0] == '-' {
        s.skip(1)
    } else {
        s
    };
    exists|i: int, j: int|
        {
            &&& 0 <= i <= j <= u.len()
            &&& json_int_part(u.subrange(0, i))
            &&& #[trigger] json_frac_part(u.subrange(i, j))
            &&& json_exp_part(u.subrange(j, u.len() as int))
        }
}

/// A number the parse always accepts: within the grammar, of modest
/// length, without an exponent, so that its magnitude cannot leave the
/// double range.
pub open spec fn plain_decimal(s: Seq<char>) -> bool {
    &&& is_json_number(s)
    &&& s.len() <= 100
    &&& forall|j: int| 0 <= j < s.len() ==> s[j] != 'e' && s[j] != 'E'
}

/// What a numeric parse of `s` returns: the canonical decimal rendering of
/// the parsed number, if the text parses as a number at all.
pub uninterp spec fn float_repr_of(s: Seq<char>) -> Option<Seq<char>>;

/// Relies on `serde_json::Number`'s string parse and rendering: whether the
/// text is a decimal number, and the canonical rendering of its value,
/// depend on the characters alone.  The parse accepts only whole-string
/// decimal numbers, and rejects among them only a magnitude beyond the
/// double range, which a text without an exponent and of modest length
/// cannot reach.
#[verifier::external_body]
pub fn parse_float_repr(s: &str) -> (r: Option<String>)
    ensures
        match r {
            Some(t) => float_repr_of(s@) == Some(t@),
            None => float_repr_of(s@) is None,
        },
        r is Some ==> is_json_number(s@),
        plain_decimal(s@) ==> r is Some,
{
    s.parse::<serde_json::Number>().ok().map(|n| n.to_string())
}

/// The coerced form of an override value: boolean, else integer, else
/// float, else the literal string.
pub open spec fn coerce_spec(s: Seq<char>) -> LeafS {
    match bool_spec(s) {
        Some(b) => LeafS::Bool(b),
        None => match i64_spec(s) {
            Some(i) => LeafS::Int(i),
            None => match float_repr_of(s) {
                Some(t) => LeafS::Float(t),
                None => LeafS::Str(s),
            },
        },
    }
}

/// `i` is the position of the only `=` in `s`.
pub open spec fn valid_split_at(s: Seq<char>, i: int) -> bool {
    0 <= i < s.len() && s[i] == '=' && (forall|j: int| 0 <= j < s.len() && j != i ==> s[j] != '=')
}

/// The key and value of an override string, defined exactly when the
/// string holds a single `=`.
pub open spec fn split_spec(s: Seq<char>) -> Option<(Seq<char>, Seq<char>)> {
    if exists|i: int| valid_split_at(s, i) {
        let i = choose|i: int| valid_split_at(s, i);
        Some((s.subrange(0, i), s.subrange(i + 1, s.len() as int)))
    } else {
        None
    }
}

/// Parse "true" or "false".
pub fn parse_bool(s: &str) -> (r: Option<bool>)
    ensures
        r == bool_spec(s@),
{
    if str_eq(s, "true") {
        Some(true)
    } else if str_eq(s, "false") {
        Some(false)
    } else {
        None
    }
}

/// Parse a decimal 64-bit signed integer, exactly as `i64`'s string
/// parse does.
pub fn parse_i64(s: &str) -> (r: Option<i64>)
    ensures
        r == i64_spec(s@),
{
    let n = s.unicode_len();
    if n == 0 {
        return None;
    }
    let c0 = s.get_char(0);
    let has_sign = c0 == '-' || c0 == '+';
    let neg = c0 == '-';
    let start: usize = if has_sign {
        1
    } else {
        0
    };
    if start == n {
        return None;
    }
    let ghost ds = if has_sign {
        s@.drop_first()
    } else {
        s@
    };
    proof {
        assert(ds =~= s@.subrange(start as int, n as int));
    }
    let mut mag: u64 = 0;
    let mut over: bool = false;
    let mut i: usize = start;
    while i < n
        invariant
            start <= i <= n,
            n == s@.len(),
            start == 1 <==> (n > 0 && (s@[0] == '-' || s@[0] == '+')),
            start == 0 || start == 1,
            start < n,
            ds == s@.subrange(start as int, n as int),
            forall|j: int| start <= j < i ==> is_digit(s@[j]),
            !over ==> mag == digits_val(s@.subrange(start as int, i as int)) && mag
                <= 9223372036854775808u64,
            over ==> digits_val(s@.subrange(start as int, i as int)) > 9223372036854775808,
        decreases n - i,
    {
        let c = s.get_char(i);
        let cu = c as u32;
        if cu < 48 || cu > 57 {
            proof {
                assert(ds[i as int - start as int] == s@[i as int]);
                assert(!all_digits(ds));
            }
            return None;
        }
        let d: u64 = (cu - 48) as u64;
        proof {
            assert(s@.subrange(start as int, i as int + 1).drop_last() =~= s@.subrange(
                start as int,
                i as int,
            ));
            assert(s@.subrange(start as int, i as int + 1).last() == s@[i as int]);
            assert(digit_val(s@[i as int]) == d as int);
        }
        if over {
        } else if mag >= 922337203685477581 {
            over = true;
            proof {
                let v = digits_val(s@.subrange(start as int, i as int));
                assert(v * 10 + d as int > 9223372036854775808);
            }
        } else {
            mag = mag * 10 + d;
            if mag > 9223372036854775808 {
                over = true;
            }
        }
        i += 1;
    }
    proof {
        assert(s@.subrange(start as int, n as int) == ds);
        assert(all_digits(ds));
    }
    if over {
        return None;
    }
    if neg {
        if mag == 9223372036854775808 {
            Some((-9223372036854775807i64) - 1)
        } else {
            Some(-(mag as i64))
        }
    } else {
        if mag > 9223372036854775807 {
            None
        } else {
            Some(mag as i64)
        }
    }
}

/// Coerce an override value: boolean, else integer, else float, else the
/// literal string.  Text that is not a number never becomes a float, and
/// a plain decimal such as "3.14" always does.
pub fn coerce_override(v: &str) -> (r: Leaf)
    ensures
        r@ == coerce_spec(v@),
        r@ is Float ==> is_json_number(v@),
        bool_spec(v@) is None && i64_spec(v@) is None && !is_json_number(v@) ==> r@ == LeafS::Str(
            v@,
        ),
        bool_spec(v@) is None && i64_spec(v@) is None && plain_decimal(v@) ==> r@ is Float,
{
    match parse_bool(v) {
        Some(b) => { return Leaf::Bool(b); },
        None => {},
    }
    match parse_i64(v) {
        Some(i) => { return Leaf::Int(i); },
        None => {},
    }
    match parse_float_repr(v) {
        Some(t) => { return Leaf::Float(t); },
        None => {},
    }
    Leaf::Str(v.to_owned())
}

/// Split an override string into its key and value around the single `=`;
/// a string with no `=` or more than one does not split.
pub fn split_override(s: &str) -> (r: Option<(String, String)>)
    ensures
        match r {
            Some(kv) => split_spec(s@) == Some((kv.0@, kv.1@)),
            None => split_spec(s@) is None,
        },
{
    let n = s.unicode_len();
    let mut count: usize = 0;
    let mut pos1: usize = 0;
    let mut pos2: usize = 0;
    let mut i: usize = 0;
    while i < n
        invariant
            i <= n,
            n == s@.len(),
            count == 0 ==> forall|j: int| 0 <= j < i ==> s@[j] != '=',
            count == 1 ==> pos1 < i && s@[pos1 as int] == '=' && (forall|j: int|
                0 <= j < i && j != pos1 ==> s@[j] != '='),
            count >= 2 ==> pos1 < pos2 < i && s@[pos1 as int] == '=' && s@[pos2 as int] == '=',
        decreases n - i,
    {
        if s.get_char(i) == '=' {
            if count == 0 {
                pos1 = i;
                count = 1;
            } else if count == 1 {
                pos2 = i;
                count = 2;
            }
        }
        i += 1;
    }
    if count == 1 {
        proof {
            assert(valid_split_at(s@, pos1 as int));
            let w = choose|k: int| valid_split_at(s@, k);
            if w != pos1 as int {
                assert(s@[pos1 as int] != '=');
                assert(false);
            }
        }
        let k = s.substring_char(0, pos1).to_owned();
        let v = s.substring_char(pos1 + 1, n).to_owned();
        Some((k, v))
    } else if count == 0 {
        proof {
            assert(forall|k: int| !valid_split_at(s@, k));
        }
        None
    } else {
        proof {
            assert forall|k: int| !valid_split_at(s@, k) by {
                if valid_split_at(s@, k) {
                    if k == pos1 as int {
                        assert(s@[pos2 as int] != '=');
                    } else {
                        assert(s@[pos1 as int] != '=');
                    }
                }
            }
        }
        None
    }
}

} // verus!
