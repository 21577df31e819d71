//! Small string helpers shared by the library: sequence views of string
//! vectors, joining with a separator, and printing an integer in decimal.

use vstd::prelude::*;

verus! {

/// The character sequences of a vector of strings.
pub open spec fn strings_view(v: Seq<String>) -> Seq<Seq<char>> {
    v.map_values(|s: String| s@)
}

/// Each part prefixed by the separator, in order.
pub open spec fn spec_each_prefixed(parts: Seq<Seq<char>>, sep: Seq<char>) -> Seq<char>
    decreases parts.len(),
{
    if parts.len() == 0 {
        Seq::empty()
    } else {
        sep + parts[0] + spec_each_prefixed(parts.drop_first(), sep)
    }
}

/// The parts joined with the separator between neighbours.
pub open spec fn spec_join(parts: Seq<Seq<char>>, sep: Seq<char>) -> Seq<char> {
    if parts.len() == 0 {
        Seq::empty()
    } else {
        parts[0] + spec_each_prefixed(parts.drop_first(), sep)
    }
}

/// Joins the strings with the separator between neighbours.
pub fn join_strings(parts: &Vec<String>, sep: &str) -> (r: String)
    ensures
        r@ == spec_join(strings_view(parts@), sep@),
{
    let ghost ps = strings_view(parts@);
    let mut s = String::new();
    if parts.len() == 0 {
        return s;
    }
    s.append(parts[0].as_str());
    proof {
        assert(s@ =~= ps[0]);
    }
    let mut i: usize = 1;
    while i < parts.len()
        invariant
            1 <= i <= parts@.len(),
            ps == strings_view(parts@),
            ps.len() == parts@.len(),
            spec_join(ps, sep@) == s@ + spec_each_prefixed(ps.skip(i as int), sep@),
        decreases parts@.len() - i,
    {
        proof {
            assert(ps.skip(i as int)[0] == ps[i as int]);
            assert(ps.skip(i as int).drop_first() =~= ps.skip(i as int + 1));
            assert(ps[i as int] == parts@[i as int]@);
        }
        let ghost old_s = s@;
        s.append(sep);
        s.append(parts[i].as_str());
        proof {
            assert(spec_each_prefixed(ps.skip(i as int), sep@) == sep@ + ps[i as int]
                + spec_each_prefixed(ps.skip(i as int + 1), sep@));
            assert(old_s + spec_each_prefixed(ps.skip(i as int), sep@) =~= s@
                + spec_each_prefixed(ps.skip(i as int + 1), sep@));
        }
        i = i + 1;
    }
    proof {
        assert(ps.skip(i as int) =~= Seq::<Seq<char>>::empty());
        assert(s@ + spec_each_prefixed(ps.skip(i as int), sep@) =~= s@);
        assert(ps.skip(1) =~= ps.drop_first());
    }
    s
}

/// The character spelling one decimal digit.
pub open spec fn spec_digit_char(d: nat) -> char {
    if d == 0 {
        '0'
    } else if d == 1 {
        '1'
    } else if d == 2 {
        '2'
    } else if d == 3 {
        '3'
    } else if d == 4 {
        '4'
    } else if d == 5 {
        '5'
    } else if d == 6 {
        '6'
    } else if d == 7 {
        '7'
    } else if d == 8 {
        '8'
    } else {
        '9'
    }
}

/// The decimal spelling of `n`, most significant digit first, no sign and no
/// leading zero (a single `0` for zero itself).
pub open spec fn spec_dec_digits(n: nat) -> Seq<char>
    decreases n,
{
    if n < 10 {
        seq![spec_digit_char(n)]
    } else {
        spec_dec_digits(n / 10) + seq![spec_digit_char(n % 10)]
    }
}

/// Appends one decimal digit to `s`.
fn append_digit(s: &mut String, d: u16)
    requires
        d < 10,
    ensures
        final(s)@ == old(s)@ + seq![spec_digit_char(d as nat)],
{
    proof {
        reveal_strlit("0");
        reveal_strlit("1");
        reveal_strlit("2");
        reveal_strlit("3");
        reveal_strlit("4");
        reveal_strlit("5");
        reveal_strlit("6");
        reveal_strlit("7");
        reveal_strlit("8");
        reveal_strlit("9");
    }
    match d {
        0 => s.append("0"),
        1 => s.append("1"),
        2 => s.append("2"),
        3 => s.append("3"),
        4 => s.append("4"),
        5 => s.append("5"),
        6 => s.append("6"),
        7 => s.append("7"),
        8 => s.append("8"),
        _ => s.append("9"),
    }
    proof {
        assert(final(s)@ =~= old(s)@ + seq![spec_digit_char(d as nat)]);
    }
}

/// Appends the decimal spelling of `n` to `s`.
pub fn append_decimal(s: &mut String, n: u16)
    ensures
        final(s)@ == old(s)@ + spec_dec_digits(n as nat),
    decreases n,
{
    if n >= 10 {
        append_decimal(s, n / 10);
    }
    append_digit(s, n % 10);
    proof {
        if n < 10 {
            assert(n % 10 == n);
            assert(final(s)@ =~= old(s)@ + spec_dec_digits(n as nat));
        } else {
            assert(old(s)@ + spec_dec_digits((n / 10) as nat) + seq![
                spec_digit_char((n % 10) as nat),
            ] =~= old(s)@ + spec_dec_digits(n as nat));
        }
    }
}

/// The decimal spelling of `n` as a string.
pub fn decimal_string(n: u16) -> (r: String)
    ensures
        r@ == spec_dec_digits(n as nat),
{
    let mut s = String::new();
    append_decimal(&mut s, n);
    proof {
        assert(Seq::<char>::empty() + spec_dec_digits(n as nat) =~= spec_dec_digits(n as nat));
    }
    s
}

/// Whether `needle` occurs somewhere in `hay`.
pub open spec fn spec_contains_seq(hay: Seq<char>, needle: Seq<char>) -> bool {
    exists|i: int|
        0 <= i && i + needle.len() <= hay.len() && #[trigger] hay.subrange(i, i + needle.len())
            == needle
}

/// Whatever stands around it, a part occurs in the whole.
pub proof fn lemma_concat_contains_middle(before: Seq<char>, mid: Seq<char>, after: Seq<char>)
    ensures
        spec_contains_seq(before + mid + after, mid),
{
    let hay = before + mid + after;
    let i = before.len() as int;
    assert(hay.subrange(i, i + mid.len()) =~= mid);
}

} // verus!
