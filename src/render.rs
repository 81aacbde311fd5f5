//! Text forms: a list of positions written as `[0, 3, 7]`, and the message
//! that goes with an error.
use vstd::prelude::*;

verus! {

/// The decimal digit for `d`, for `d` below ten.
pub open spec fn digit_char(d: nat) -> char {
    if d == 0 {
        '0'
    } else if d == 1 {
        '1'
    } else if d == 2 {
        '2'
    } else if d == 3 {
        '3'
    } else if d == 4 {
        '4'
    } else if d == 5 {
        '5'
    } else if d == 6 {
        '6'
    } else if d == 7 {
        '7'
    } else if d == 8 {
        '8'
    } else {
        '9'
    }
}

/// `n` written in decimal, without leading zeros.
pub open spec fn decimal(n: nat) -> Seq<char>
    decreases n,
{
    if n < 10 {
        seq![digit_char(n)]
    } else {
        decimal(n / 10).push(digit_char(n % 10))
    }
}

/// The entries of `xs` in decimal, separated by `", "`.
pub open spec fn joined(xs: Seq<int>) -> Seq<char>
    decreases xs.len(),
{
    if xs.len() == 0 {
        Seq::empty()
    } else if xs.len() == 1 {
        decimal(xs[0] as nat)
    } else {
        joined(xs.drop_last()) + seq![',', ' '] + decimal(xs.last() as nat)
    }
}

/// The entries of `xs` in decimal, separated by `", "`, in square brackets.
pub open spec fn list_text(xs: Seq<int>) -> Seq<char> {
    seq!['['] + joined(xs) + seq![']']
}

fn digit_str(d: usize) -> (r: &'static str)
    requires
        d < 10,
    ensures
        r@ == seq![digit_char(d as nat)],
{
    proof {
        reveal_strlit("0");
        reveal_strlit("1");
        reveal_strlit("2");
        reveal_strlit("3");
        reveal_strlit("4");
        reveal_strlit("5");
        reveal_strlit("6");
        reveal_strlit("7");
        reveal_strlit("8");
        reveal_strlit("9");
    }
    match d {
        0 => "0",
        1 => "1",
        2 => "2",
        3 => "3",
        4 => "4",
        5 => "5",
        6 => "6",
        7 => "7",
        8 => "8",
        _ => "9",
    }
}

/// Appends `n` in decimal to `out`.
pub fn push_decimal(out: &mut String, n: usize)
    ensures
        final(out)@ == old(out)@ + decimal(n as nat),
    decreases n,
{
    if n >= 10 {
        push_decimal(out, n / 10);
    }
    out.append(digit_str(n % 10));
    assert(final(out)@ =~= old(out)@ + decimal(n as nat));
}

/// `n` in decimal, with a leading `-` when negative.
pub open spec fn signed_decimal(n: int) -> Seq<char> {
    if n < 0 {
        seq!['-'] + decimal((-n) as nat)
    } else {
        decimal(n as nat)
    }
}

/// The message for `index` outside a set of `size` bits: it names the last
/// valid position (0 for an empty set) and the index.
pub open spec fn range_text(size: int, index: int) -> Seq<char> {
    "index can be between 0 and "@ + decimal(if size > 0 {
        (size - 1) as nat
    } else {
        0
    }) + ", found "@ + signed_decimal(index)
}

/// The message for `index` outside a set of `size` bits.
pub fn range_message(size: usize, index: isize) -> (r: String)
    ensures
        r@ == range_text(size as int, index as int),
{
    let mut out = String::from_str("index can be between 0 and ");
    let last: usize = if size > 0 {
        size - 1
    } else {
        0
    };
    push_decimal(&mut out, last);
    out.append(", found ");
    if index < 0 {
        proof {
            reveal_strlit("-");
            assert("-"@ =~= seq!['-']);
        }
        let ghost before = out@;
        out.append("-");
        let magnitude: usize = ((-(index + 1)) as usize) + 1;
        push_decimal(&mut out, magnitude);
        assert(out@ =~= before + signed_decimal(index as int));
    } else {
        push_decimal(&mut out, index as usize);
    }
    out
}

/// `xs` written as a list: `[0, 3, 7]`, or `[]` when empty.
pub fn render_list(xs: &Vec<usize>) -> (r: String)
    ensures
        r@ == list_text(xs@.map_values(|x: usize| x as int)),
{
    proof {
        reveal_strlit("[");
        reveal_strlit("]");
        assert("["@ =~= seq!['[']);
        assert("]"@ =~= seq![']']);
    }
    let ghost ints = xs@.map_values(|x: usize| x as int);
    let mut out = String::from_str("[");
    let mut i: usize = 0;
    while i < xs.len()
        invariant
            i <= xs@.len(),
            ints == xs@.map_values(|x: usize| x as int),
            out@ == seq!['['] + joined(ints.subrange(0, i as int)),
        decreases xs.len() - i,
    {
        let ghost prefix = ints.subrange(0, i as int + 1);
        assert(prefix.drop_last() =~= ints.subrange(0, i as int));
        assert(prefix.last() == xs@[i as int] as int);
        let ghost before = out@;
        if i > 0 {
            proof {
                reveal_strlit(", ");
                assert(", "@ =~= seq![',', ' ']);
            }
            out.append(", ");
        }
        push_decimal(&mut out, xs[i]);
        if i > 0 {
            assert(out@ =~= before + seq![',', ' '] + decimal(xs@[i as int] as nat));
            assert(joined(prefix) == joined(prefix.drop_last()) + seq![',', ' '] + decimal(
                prefix.last() as nat,
            ));
        } else {
            assert(joined(prefix) == decimal(prefix[0] as nat));
        }
        assert(out@ =~= seq!['['] + joined(prefix));
        i = i + 1;
    }
    assert(ints.subrange(0, xs@.len() as int) =~= ints);
    out.append("]");
    out
}

} // verus!
