//! Rendering of numbers, values and type names as text.
use vstd::prelude::*;
use vstd::string::StringExecFns;
use crate::value::{Datum, Type, Value};

verus! {

/// The character for one decimal digit.
pub open spec fn digit(d: nat) -> char {
    if d == 0 {
        '0'
    } else if d == 1 {
        '1'
    } else if d == 2 {
        '2'
    } else if d == 3 {
        '3'
    } else if d == 4 {
        '4'
    } else if d == 5 {
        '5'
    } else if d == 6 {
        '6'
    } else if d == 7 {
        '7'
    } else if d == 8 {
        '8'
    } else {
        '9'
    }
}

/// A natural number in decimal, most significant digit first, without
/// leading zeros.
pub open spec fn decimal(n: nat) -> Seq<char>
    decreases n,
{
    if n < 10 {
        seq![digit(n)]
    } else {
        decimal(n / 10).push(digit(n % 10))
    }
}

/// An integer in decimal, with a minus sign in front when it is negative.
pub open spec fn signed_decimal(n: int) -> Seq<char> {
    if n < 0 {
        seq!['-'] + decimal((-n) as nat)
    } else {
        decimal(n as nat)
    }
}

/// A value as it is displayed: a string as it is, a number in decimal, a
/// boolean as `true` or `false`.
pub open spec fn value_text(d: Datum) -> Seq<char> {
    match d {
        Datum::Str(s) => s,
        Datum::U32(n) => decimal(n as nat),
        Datum::I32(n) => signed_decimal(n as int),
        Datum::Bool(b) => if b {
            "true"@
        } else {
            "false"@
        },
    }
}

/// The displayed name of a column type.
pub open spec fn type_text(t: Type) -> Seq<char> {
    match t {
        Type::Str => "String"@,
        Type::U32 => "U32"@,
        Type::I32 => "I32"@,
        Type::Bool => "Bool"@,
    }
}

fn digit_str(d: u64) -> (s: &'static str)
    requires
        d < 10,
    ensures
        s@ == seq![digit(d as nat)],
{
    proof {
        reveal_strlit("0");
        reveal_strlit("1");
        reveal_strlit("2");
        reveal_strlit("3");
        reveal_strlit("4");
        reveal_strlit("5");
        reveal_strlit("6");
        reveal_strlit("7");
        reveal_strlit("8");
        reveal_strlit("9");
    }
    let s = if d == 0 {
        "0"
    } else if d == 1 {
        "1"
    } else if d == 2 {
        "2"
    } else if d == 3 {
        "3"
    } else if d == 4 {
        "4"
    } else if d == 5 {
        "5"
    } else if d == 6 {
        "6"
    } else if d == 7 {
        "7"
    } else if d == 8 {
        "8"
    } else {
        "9"
    };
    assert(s@ =~= seq![digit(d as nat)]);
    s
}

/// Appends `n` in decimal to `out`.
pub fn append_decimal(out: &mut String, n: u64)
    ensures
        final(out)@ == old(out)@ + decimal(n as nat),
    decreases n,
{
    if n >= 10 {
        append_decimal(out, n / 10);
    }
    out.append(digit_str(n % 10));
    assert(final(out)@ =~= old(out)@ + decimal(n as nat));
}

/// Appends the displayed form of `v` to `out`.
pub fn append_value(out: &mut String, v: &Value)
    ensures
        final(out)@ == old(out)@ + value_text(v@),
{
    match v {
        Value::Str(s) => {
            out.append(s.as_str());
        },
        Value::U32(n) => {
            append_decimal(out, *n as u64);
        },
        Value::I32(n) => {
            if *n < 0 {
                proof {
                    reveal_strlit("-");
                }
                out.append("-");
                let magnitude: u64 = (-(*n as i64)) as u64;
                append_decimal(out, magnitude);
                assert(final(out)@ =~= old(out)@ + value_text(v@));
            } else {
                append_decimal(out, *n as u64);
            }
        },
        Value::Bool(b) => {
            if *b {
                out.append("true");
            } else {
                out.append("false");
            }
        },
    }
}

/// The displayed name of `t`.
pub fn type_label(t: Type) -> (name: &'static str)
    ensures
        name@ == type_text(t),
{
    match t {
        Type::Str => "String",
        Type::U32 => "U32",
        Type::I32 => "I32",
        Type::Bool => "Bool",
    }
}

} // verus!
