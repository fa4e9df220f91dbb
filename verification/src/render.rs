//! Textual rendering: one line per row, each row bracketed and
//! comma-separated, entries in decimal. The spec functions here say
//! exactly which characters come out.

use vstd::prelude::*;

use vstd::string::StringExecFns;

verus! {

/// The decimal digit character for `d` in `0 ..= 9`.
pub open spec fn digit_char(d: int) -> char {
    if d == 0 {
        '0'
    } else if d == 1 {
        '1'
    } else if d == 2 {
        '2'
    } else if d == 3 {
        '3'
    } else if d == 4 {
        '4'
    } else if d == 5 {
        '5'
    } else if d == 6 {
        '6'
    } else if d == 7 {
        '7'
    } else if d == 8 {
        '8'
    } else {
        '9'
    }
}

/// The decimal digits of a nonnegative number, most significant first.
pub open spec fn dec_chars(n: nat) -> Seq<char>
    decreases n,
{
    if n < 10 {
        seq![digit_char(n as int)]
    } else {
        dec_chars(n / 10).push(digit_char((n % 10) as int))
    }
}

/// The decimal text of an integer: a minus sign for negative values,
/// then the digits of its magnitude.
pub open spec fn int_chars(x: int) -> Seq<char> {
    if x < 0 {
        seq!['-'] + dec_chars((-x) as nat)
    } else {
        dec_chars(x as nat)
    }
}

/// The entries of one row, separated by a comma and a space.
pub open spec fn entries_chars(r: Seq<int>) -> Seq<char>
    decreases r.len(),
{
    if r.len() == 0 {
        Seq::empty()
    } else if r.len() == 1 {
        int_chars(r[0])
    } else {
        entries_chars(r.drop_last()) + seq![',', ' '] + int_chars(r.last())
    }
}

/// One rendered row: its entries in brackets, then a line break.
pub open spec fn row_chars(r: Seq<int>) -> Seq<char> {
    seq!['['] + entries_chars(r) + seq![']', '\n']
}

/// The whole rendering: the rows in order, one line each.
pub open spec fn render_chars(m: Seq<Seq<int>>) -> Seq<char>
    decreases m.len(),
{
    if m.len() == 0 {
        Seq::empty()
    } else {
        render_chars(m.drop_last()) + row_chars(m.last())
    }
}

/// One more entry extends the rendered row by a separator (after the
/// first entry) and the entry's text.
pub(crate) proof fn lemma_entries_prefix(r: Seq<int>, j: int)
    requires
        0 <= j < r.len(),
    ensures
        j == 0 ==> entries_chars(r.take(1)) == int_chars(r[0]),
        j > 0 ==> entries_chars(r.take(j + 1)) == entries_chars(r.take(j)) + seq![',', ' ']
            + int_chars(r[j]),
{
    let t = r.take(j + 1);
    assert(t.drop_last() =~= r.take(j));
    assert(t.last() == r[j]);
    if j == 0 {
        assert(t[0] == r[0]);
    }
}

/// One more row extends the rendering by that row's line.
pub(crate) proof fn lemma_render_prefix(m: Seq<Seq<int>>, i: int)
    requires
        0 <= i < m.len(),
    ensures
        render_chars(m.take(i + 1)) == render_chars(m.take(i)) + row_chars(m[i]),
{
    let t = m.take(i + 1);
    assert(t.drop_last() =~= m.take(i));
    assert(t.last() == m[i]);
}

/// A single decimal digit as text.
fn digit_str(d: u64) -> (r: &'static str)
    requires
        d < 10,
    ensures
        r@ == seq![digit_char(d as int)],
{
    if d == 0 {
        proof {
            reveal_strlit("0");
            assert("0"@ =~= seq![digit_char(0)]);
        }
        "0"
    } else if d == 1 {
        proof {
            reveal_strlit("1");
            assert("1"@ =~= seq![digit_char(1)]);
        }
        "1"
    } else if d == 2 {
        proof {
            reveal_strlit("2");
            assert("2"@ =~= seq![digit_char(2)]);
        }
        "2"
    } else if d == 3 {
        proof {
            reveal_strlit("3");
            assert("3"@ =~= seq![digit_char(3)]);
        }
        "3"
    } else if d == 4 {
        proof {
            reveal_strlit("4");
            assert("4"@ =~= seq![digit_char(4)]);
        }
        "4"
    } else if d == 5 {
        proof {
            reveal_strlit("5");
            assert("5"@ =~= seq![digit_char(5)]);
        }
        "5"
    } else if d == 6 {
        proof {
            reveal_strlit("6");
            assert("6"@ =~= seq![digit_char(6)]);
        }
        "6"
    } else if d == 7 {
        proof {
            reveal_strlit("7");
            assert("7"@ =~= seq![digit_char(7)]);
        }
        "7"
    } else if d == 8 {
        proof {
            reveal_strlit("8");
            assert("8"@ =~= seq![digit_char(8)]);
        }
        "8"
    } else {
        proof {
            reveal_strlit("9");
            assert("9"@ =~= seq![digit_char(9)]);
        }
        "9"
    }
}

/// Appends the decimal digits of `n` to `s`.
pub(crate) fn push_decimal(s: &mut String, n: u64)
    ensures
        final(s)@ == old(s)@ + dec_chars(n as nat),
    decreases n,
{
    if n < 10 {
        s.append(digit_str(n));
    } else {
        push_decimal(s, n / 10);
        s.append(digit_str(n % 10));
        proof {
            assert(old(s)@ + dec_chars((n / 10) as nat) + seq![digit_char((n % 10) as int)]
                =~= old(s)@ + dec_chars(n as nat));
        }
    }
}

/// Appends the decimal text of `v` to `s`.
pub(crate) fn push_entry(s: &mut String, v: i64)
    ensures
        final(s)@ == old(s)@ + int_chars(v as int),
{
    if v < 0 {
        proof {
            reveal_strlit("-");
            assert("-"@ =~= seq!['-']);
        }
        s.append("-");
        let mag: u64 = ((-(v + 1)) as u64) + 1;
        proof {
            assert(mag as int == -(v as int));
        }
        push_decimal(s, mag);
        proof {
            assert(old(s)@ + seq!['-'] + dec_chars(mag as nat) =~= old(s)@ + int_chars(v as int));
        }
    } else {
        push_decimal(s, v as u64);
    }
}

} // verus!
