//! Placeholder syntax of the supported dialects.

use vstd::prelude::*;

verus! {

/// How a dialect marks the place of a bound value in SQL text.
#[derive(Clone, Copy, Debug, PartialEq, Eq, Structural)]
pub enum Dialect {
    /// Every placeholder is `?`; values are matched by position.
    Ordinal,
    /// Placeholders are numbered from one: `$1`, `$2`, ...
    Numbered,
}

/// The decimal digit for `d < 10`.
pub open spec fn digit_char(d: nat) -> char {
    if d == 0 {
        '0'
    } else if d == 1 {
        '1'
    } else if d == 2 {
        '2'
    } else if d == 3 {
        '3'
    } else if d == 4 {
        '4'
    } else if d == 5 {
        '5'
    } else if d == 6 {
        '6'
    } else if d == 7 {
        '7'
    } else if d == 8 {
        '8'
    } else {
        '9'
    }
}

/// The decimal notation of `n`, without leading zeros.
pub open spec fn decimal(n: nat) -> Seq<char>
    decreases n,
{
    if n < 10 {
        seq![digit_char(n)]
    } else {
        decimal(n / 10).push(digit_char(n % 10))
    }
}

/// The placeholder that marks the `n`-th bound value (counting from one).
pub open spec fn placeholder(dialect: Dialect, n: nat) -> Seq<char> {
    match dialect {
        Dialect::Ordinal => seq!['?'],
        Dialect::Numbered => seq!['$'] + decimal(n),
    }
}

fn digit_str(d: usize) -> (r: &'static str)
    requires
        d < 10,
    ensures
        r@ == seq![digit_char(d as nat)],
{
    proof {
        reveal_strlit("0");
        reveal_strlit("1");
        reveal_strlit("2");
        reveal_strlit("3");
        reveal_strlit("4");
        reveal_strlit("5");
        reveal_strlit("6");
        reveal_strlit("7");
        reveal_strlit("8");
        reveal_strlit("9");
    }
    if d == 0 {
        "0"
    } else if d == 1 {
        "1"
    } else if d == 2 {
        "2"
    } else if d == 3 {
        "3"
    } else if d == 4 {
        "4"
    } else if d == 5 {
        "5"
    } else if d == 6 {
        "6"
    } else if d == 7 {
        "7"
    } else if d == 8 {
        "8"
    } else {
        "9"
    }
}

/// Appends the decimal notation of `n` to `out`.
pub fn write_decimal(out: &mut String, n: usize)
    ensures
        final(out)@ == old(out)@ + decimal(n as nat),
    decreases n,
{
    if n >= 10 {
        write_decimal(out, n / 10);
    }
    out.append(digit_str(n % 10));
    assert(final(out)@ =~= old(out)@ + decimal(n as nat));
}

/// Appends the placeholder of the `n`-th bound value to `out`.
pub fn write_placeholder(out: &mut String, dialect: Dialect, n: usize)
    ensures
        final(out)@ == old(out)@ + placeholder(dialect, n as nat),
{
    proof {
        reveal_strlit("?");
        reveal_strlit("$");
    }
    match dialect {
        Dialect::Ordinal => {
            out.append("?");
            assert(final(out)@ =~= old(out)@ + placeholder(dialect, n as nat));
        },
        Dialect::Numbered => {
            out.append("$");
            write_decimal(out, n);
            assert(final(out)@ =~= old(out)@ + placeholder(dialect, n as nat));
        },
    }
}

} // verus!
