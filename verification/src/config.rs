//! The immutable configuration of the updater: the record's host and domain,
//! the provider password, and the polling interval.
//!
//! The values themselves come from the process environment; the loader that
//! reads them lives outside this library and hands them over as plain text.

use vstd::prelude::*;

use crate::text::join_strings;
use crate::text::spec_join;
use crate::text::strings_view;

verus! {

/// The four configuration values the updater runs on, as loaded at startup.
#[derive(Debug, Clone, PartialEq, Eq)]
pub struct Config {
    pub host: String,
    pub domain: String,
    pub password: String,
    pub interval: String,
}

impl Config {
    /// Assembles the configuration from the values read out of the process
    /// environment: the host and domain variables, the contents of the
    /// password file, and the interval variable.
    pub fn parse_from_env(host: String, domain: String, password: String, interval: String) -> (r:
        Config)
        ensures
            r.host@ == host@,
            r.domain@ == domain@,
            r.password@ == password@,
            r.interval@ == interval@,
    {
        Config { host, domain, password, interval }
    }
}

/// The value of one decimal digit character.
pub open spec fn spec_char_digit(c: char) -> Option<nat> {
    if c == '0' {
        Some(0 as nat)
    } else if c == '1' {
        Some(1 as nat)
    } else if c == '2' {
        Some(2 as nat)
    } else if c == '3' {
        Some(3 as nat)
    } else if c == '4' {
        Some(4 as nat)
    } else if c == '5' {
        Some(5 as nat)
    } else if c == '6' {
        Some(6 as nat)
    } else if c == '7' {
        Some(7 as nat)
    } else if c == '8' {
        Some(8 as nat)
    } else if c == '9' {
        Some(9 as nat)
    } else {
        None
    }
}

/// Whether every character is a decimal digit.
pub open spec fn spec_all_digits(s: Seq<char>) -> bool {
    forall|i: int| 0 <= i < s.len() ==> (#[trigger] spec_char_digit(s[i])) is Some
}

/// The number the digit string spells, most significant digit first.
pub open spec fn spec_digits_value(s: Seq<char>) -> nat
    decreases s.len(),
{
    if s.len() == 0 {
        0
    } else {
        spec_digits_value(s.drop_last()) * 10 + (match spec_char_digit(s.last()) {
            Some(d) => d,
            None => 0,
        })
    }
}

/// What a digit string's prefix spells never exceeds what the whole spells.
pub proof fn lemma_digits_value_mono(s: Seq<char>, k: int)
    requires
        0 <= k <= s.len(),
    ensures
        spec_digits_value(s.take(k)) <= spec_digits_value(s),
    decreases s.len() - k,
{
    if k == s.len() {
        assert(s.take(k) =~= s);
    } else {
        lemma_digits_value_mono(s, k + 1);
        assert(s.take(k + 1).drop_last() =~= s.take(k));
        assert(s.take(k + 1).last() == s[k]);
    }
}

/// The number an interval setting spells: an optional leading `+`, then one or
/// more decimal digits, and a value no greater than `u64::MAX`; anything else
/// spells none.
pub open spec fn spec_parse_u64(s: Seq<char>) -> Option<nat> {
    let digits = if s.len() > 0 && s[0] == '+' {
        s.drop_first()
    } else {
        s
    };
    if digits.len() == 0 || !spec_all_digits(digits) {
        None
    } else if spec_digits_value(digits) > u64::MAX {
        None
    } else {
        Some(spec_digits_value(digits))
    }
}

/// Validates the configured interval: the number of whole seconds it spells,
/// or nothing when it spells no number a `u64` can hold. Startup treats
/// nothing as fatal misconfiguration.
pub fn parse_interval(s: &str) -> (r: Option<u64>)
    ensures
        match r {
            Some(n) => spec_parse_u64(s@) == Some(n as nat),
            None => spec_parse_u64(s@) is None,
        },
{
    let len = s.unicode_len();
    let mut start: usize = 0;
    if len > 0 && s.get_char(0) == '+' {
        start = 1;
    }
    let ghost digits = if s@.len() > 0 && s@[0] == '+' {
        s@.drop_first()
    } else {
        s@
    };
    proof {
        assert(digits =~= s@.skip(start as int));
    }
    if start >= len {
        return None;
    }
    let mut acc: u64 = 0;
    let mut k: usize = 0;
    proof {
        assert(digits.take(0) =~= Seq::<char>::empty());
    }
    while k < len - start
        invariant
            start <= len,
            len == s@.len(),
            k <= digits.len(),
            digits == s@.skip(start as int),
            digits == (if s@.len() > 0 && s@[0] == '+' {
                s@.drop_first()
            } else {
                s@
            }),
            digits.len() == len - start,
            spec_all_digits(digits.take(k as int)),
            acc as nat == spec_digits_value(digits.take(k as int)),
        decreases len - start - k,
    {
        let c = s.get_char(start + k);
        proof {
            assert(digits[k as int] == s@[start + k as int]);
        }
        let d: u64 = match c {
            '0' => 0,
            '1' => 1,
            '2' => 2,
            '3' => 3,
            '4' => 4,
            '5' => 5,
            '6' => 6,
            '7' => 7,
            '8' => 8,
            '9' => 9,
            _ => {
                proof {
                    assert(spec_char_digit(digits[k as int]) is None);
                }
                return None;
            },
        };
        proof {
            assert(spec_char_digit(digits[k as int]) == Some(d as nat));
            assert(digits.take(k as int + 1).drop_last() =~= digits.take(k as int));
            assert(digits.take(k as int + 1).last() == digits[k as int]);
        }
        let wide = match acc.checked_mul(10) {
            Some(w) => w,
            None => {
                proof {
                    if spec_all_digits(digits) {
                        assert(spec_digits_value(digits.take(k as int + 1)) == acc as nat * 10
                            + d as nat);
                        lemma_digits_value_mono(digits, k as int + 1);
                        assert(spec_digits_value(digits) > u64::MAX);
                    }
                }
                return None;
            },
        };
        acc = match wide.checked_add(d) {
            Some(a) => a,
            None => {
                proof {
                    if spec_all_digits(digits) {
                        assert(spec_digits_value(digits.take(k as int + 1)) == wide as nat
                            + d as nat);
                        lemma_digits_value_mono(digits, k as int + 1);
                        assert(spec_digits_value(digits) > u64::MAX);
                    }
                }
                return None;
            },
        };
        k = k + 1;
    }
    proof {
        assert(digits.take(k as int) =~= digits);
    }
    Some(acc)
}

/// Whether the character is one of the blank characters trimmed off a report.
pub open spec fn spec_is_blank(c: char) -> bool {
    c == ' ' || c == '\t' || c == '\n' || c == '\r'
}

/// The text with its trailing blank characters removed.
pub open spec fn spec_trim_end(s: Seq<char>) -> Seq<char>
    decreases s.len(),
{
    if s.len() == 0 {
        s
    } else if spec_is_blank(s.last()) {
        spec_trim_end(s.drop_last())
    } else {
        s
    }
}

/// Tells a blank character.
fn is_blank(c: char) -> (r: bool)
    ensures
        r == spec_is_blank(c),
{
    c == ' ' || c == '\t' || c == '\n' || c == '\r'
}

/// Copies the text, leaving its trailing blanks behind.
fn trim_end(s: &str) -> (r: String)
    ensures
        r@ == spec_trim_end(s@),
{
    let len = s.unicode_len();
    let mut j = len;
    proof {
        assert(s@.take(len as int) =~= s@);
    }
    while j > 0 && is_blank(s.get_char(j - 1))
        invariant
            j <= len,
            len == s@.len(),
            spec_trim_end(s@) == spec_trim_end(s@.take(j as int)),
        decreases j,
    {
        proof {
            assert(s@.take(j as int).last() == s@[j as int - 1]);
            assert(s@.take(j as int).drop_last() =~= s@.take(j as int - 1));
        }
        j = j - 1;
    }
    proof {
        if j > 0 {
            assert(s@.take(j as int).last() == s@[j as int - 1]);
        }
        assert(spec_trim_end(s@.take(j as int)) == s@.take(j as int));
    }
    let r = s.substring_char(0, j);
    proof {
        assert(r@ =~= s@.take(j as int));
    }
    String::from_str(r)
}

/// The wording of a startup failure: each message of the error's chain, the
/// outermost first, each introduced by a dash and the later ones by what
/// caused them, trailing blanks trimmed.
pub open spec fn spec_format_error(msgs: Seq<Seq<char>>) -> Seq<char> {
    spec_trim_end("- "@ + spec_join(msgs, ", caused by\n - "@))
}

/// Words a startup failure from the messages of its error chain, the
/// outermost message first.
pub fn format_error(messages: &Vec<String>) -> (r: String)
    ensures
        r@ == spec_format_error(strings_view(messages@)),
{
    let mut s = String::from_str("- ");
    s.append(join_strings(messages, ", caused by\n - ").as_str());
    trim_end(s.as_str())
}

} // verus!
