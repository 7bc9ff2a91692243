//! Verified string utilities: equality, decimal rendering, and small
//! character transformations used by the sync and messaging code.

use vstd::prelude::*;

verus! {

use vstd::string::StrSliceExecFns;
use vstd::string::StringExecFns;
use crate::seqs::lemma_take_full;

/// Compare two string slices by their character sequences.
pub fn str_eq(a: &str, b: &str) -> (r: bool)
    ensures
        r == (a@ == b@),
{
    let an = a.unicode_len();
    let bn = b.unicode_len();
    if an != bn {
        return false;
    }
    for i in 0..an
        invariant
            an == a@.len(),
            an == b@.len(),
            forall|k: int| 0 <= k < i ==> a@[k] == b@[k],
    {
        if a.get_char(i) != b.get_char(i) {
            return false;
        }
    }
    proof {
        assert(a@ =~= b@);
    }
    true
}

/// A decimal digit character.
pub open spec fn is_digit_char(c: char) -> bool {
    c == '0' || c == '1' || c == '2' || c == '3' || c == '4' || c == '5' || c == '6' || c == '7'
        || c == '8' || c == '9'
}

/// The character for one decimal digit.
pub open spec fn digit_char(d: nat) -> char {
    if d == 0 {
        '0'
    } else if d == 1 {
        '1'
    } else if d == 2 {
        '2'
    } else if d == 3 {
        '3'
    } else if d == 4 {
        '4'
    } else if d == 5 {
        '5'
    } else if d == 6 {
        '6'
    } else if d == 7 {
        '7'
    } else if d == 8 {
        '8'
    } else {
        '9'
    }
}

/// The decimal digits of a number, most significant first.
pub open spec fn dec_digits(n: nat) -> Seq<char>
    decreases n,
{
    if n < 10 {
        seq![digit_char(n)]
    } else {
        dec_digits(n / 10).push(digit_char(n % 10))
    }
}

/// Append one digit character to a string.
fn append_digit_char(out: &mut String, c: char)
    requires
        is_digit_char(c),
    ensures
        final(out)@ == old(out)@.push(c),
{
    proof {
        reveal_strlit("0");
        reveal_strlit("1");
        reveal_strlit("2");
        reveal_strlit("3");
        reveal_strlit("4");
        reveal_strlit("5");
        reveal_strlit("6");
        reveal_strlit("7");
        reveal_strlit("8");
        reveal_strlit("9");
    }
    match c {
        '0' => out.append("0"),
        '1' => out.append("1"),
        '2' => out.append("2"),
        '3' => out.append("3"),
        '4' => out.append("4"),
        '5' => out.append("5"),
        '6' => out.append("6"),
        '7' => out.append("7"),
        '8' => out.append("8"),
        '9' => out.append("9"),
        _ => {
            proof {
                assert(false);
            }
        },
    }
    proof {
        assert(final(out)@ =~= old(out)@.push(c));
    }
}

/// The digit characters collected least significant first, read back to front.
spec fn digits_suffix(d: Seq<char>) -> Seq<char>
    decreases d.len(),
{
    if d.len() == 0 {
        Seq::empty()
    } else {
        seq![d.last()] + digits_suffix(d.drop_last())
    }
}

/// Render a number in decimal.
pub fn u64_to_string(n: u64) -> (r: String)
    ensures
        r@ == dec_digits(n as nat),
{
    let mut digits: Vec<char> = Vec::new();
    let mut m: u64 = n;
    if n == 0 {
        let mut out = String::new();
        proof {
            reveal_strlit("0");
        }
        out.append("0");
        proof {
            assert(out@ =~= dec_digits(0));
        }
        return out;
    }
    while m > 0
        invariant
            (if m == 0 {
                Seq::<char>::empty()
            } else {
                dec_digits(m as nat)
            }) + digits_suffix(digits@) =~= dec_digits(n as nat),
            forall|k: int| 0 <= k < digits@.len() ==> is_digit_char(#[trigger] digits@[k]),
        decreases m,
    {
        let ghost pre = digits@;
        let d: u64 = m % 10;
        let c: char = match d {
            0 => '0',
            1 => '1',
            2 => '2',
            3 => '3',
            4 => '4',
            5 => '5',
            6 => '6',
            7 => '7',
            8 => '8',
            _ => '9',
        };
        proof {
            assert(c == digit_char((m % 10) as nat));
            assert(is_digit_char(c));
        }
        digits.push(c);
        m = m / 10;
        proof {
            assert(digits@.drop_last() =~= pre);
            assert(digits_suffix(digits@) =~= seq![c] + digits_suffix(pre));
        }
    }
    let mut out = String::new();
    let mut j: usize = digits.len();
    proof {
        assert(digits@.take(j as int) =~= digits@);
    }
    while j > 0
        invariant
            j <= digits@.len(),
            out@ + digits_suffix(digits@.take(j as int)) =~= dec_digits(n as nat),
            forall|k: int| 0 <= k < digits@.len() ==> is_digit_char(#[trigger] digits@[k]),
        decreases j,
    {
        proof {
            crate::seqs::lemma_take_succ(digits@, j - 1);
        }
        let c = digits[j - 1];
        append_digit_char(&mut out, c);
        j = j - 1;
        proof {
            assert(digits@.take(j + 1).drop_last() =~= digits@.take(j as int));
        }
    }
    proof {
        assert(digits@.take(0) =~= Seq::<char>::empty());
        assert(out@ =~= dec_digits(n as nat));
    }
    out
}

/// ASCII lower-casing of one character; other characters are unchanged.
pub open spec fn lower_char(c: char) -> char {
    if 'A' <= c && c <= 'Z' {
        ((c as u32) + 32) as char
    } else {
        c
    }
}

/// The pattern occurs in `s` at position `i`, comparing ASCII letters
/// without regard to case (the pattern is given in lower case).
pub open spec fn matches_ci_at(s: Seq<char>, p: Seq<char>, i: int) -> bool {
    forall|j: int| 0 <= j < p.len() ==> lower_char(#[trigger] s[i + j]) == p[j]
}

/// The pattern occurs somewhere in `s`, ASCII-case-insensitively.
pub open spec fn contains_ci(s: Seq<char>, p: Seq<char>) -> bool {
    exists|i: int| 0 <= i && i + p.len() <= s.len() && matches_ci_at(s, p, i)
}

/// The two sequences are equal up to ASCII case (the pattern is given in
/// lower case).
pub open spec fn eq_ci(s: Seq<char>, p: Seq<char>) -> bool {
    s.len() == p.len() && matches_ci_at(s, p, 0)
}

/// Lower-case one character, ASCII only.
pub fn lower_char_exec(c: char) -> (r: char)
    ensures
        r == lower_char(c),
{
    let u = c as u32;
    if 65 <= u && u <= 90 {
        proof {
            assert('A' <= c && c <= 'Z');
        }
        ((u + 32) as u8) as char
    } else {
        proof {
            assert(!('A' <= c && c <= 'Z'));
        }
        c
    }
}

/// Does the pattern occur in `s`, comparing ASCII letters without regard to
/// case? The pattern is given in lower case.
pub fn str_contains_ci(s: &str, p: &str) -> (r: bool)
    ensures
        r == contains_ci(s@, p@),
{
    let n = s.unicode_len();
    let m = p.unicode_len();
    if m > n {
        return false;
    }
    let mut i: usize = 0;
    while i <= n - m
        invariant
            n == s@.len(),
            m == p@.len(),
            m <= n,
            i <= n - m + 1,
            forall|q: int| 0 <= q < i ==> !matches_ci_at(s@, p@, q),
        decreases n - m + 1 - i,
    {
        let mut j: usize = 0;
        let mut ok = true;
        while j < m
            invariant
                n == s@.len(),
                m == p@.len(),
                i + m <= n,
                j <= m,
                ok ==> forall|q: int| 0 <= q < j ==> lower_char(#[trigger] s@[i + q]) == p@[q],
                !ok ==> !matches_ci_at(s@, p@, i as int),
            decreases m - j,
        {
            if lower_char_exec(s.get_char(i + j)) != p.get_char(j) {
                proof {
                    assert(lower_char(s@[i + j as int]) != p@[j as int]);
                }
                ok = false;
            }
            j = j + 1;
        }
        if ok {
            proof {
                assert(matches_ci_at(s@, p@, i as int));
            }
            return true;
        }
        i = i + 1;
    }
    proof {
        assert forall|q: int| 0 <= q && q + p@.len() <= s@.len() implies !matches_ci_at(
            s@,
            p@,
            q,
        ) by {
            assert(q < i);
        }
    }
    false
}

/// Are the two strings equal up to ASCII case? The pattern is given in
/// lower case.
pub fn str_eq_ci(s: &str, p: &str) -> (r: bool)
    ensures
        r == eq_ci(s@, p@),
{
    let n = s.unicode_len();
    let m = p.unicode_len();
    if n != m {
        return false;
    }
    let mut j: usize = 0;
    while j < m
        invariant
            n == s@.len(),
            m == p@.len(),
            n == m,
            j <= m,
            forall|q: int| 0 <= q < j ==> lower_char(#[trigger] s@[0 + q]) == p@[q],
        decreases m - j,
    {
        if lower_char_exec(s.get_char(j)) != p.get_char(j) {
            proof {
                assert(lower_char(s@[0 + j as int]) != p@[j as int]);
            }
            return false;
        }
        j = j + 1;
    }
    proof {
        assert(matches_ci_at(s@, p@, 0));
    }
    true
}


/// The transformation applied to a field name to make a property suffix:
/// a space becomes an underscore, ASCII letters fall to lower case, every
/// other character is kept.
pub open spec fn snake_char(c: char) -> char {
    if c == ' ' {
        '_'
    } else {
        lower_char(c)
    }
}

/// The snake form of a name, character by character.
pub open spec fn snake_of(s: Seq<char>) -> Seq<char> {
    Seq::new(s.len(), |i: int| snake_char(s[i]))
}

/// Append the lower-case form of one ASCII capital letter.
fn append_lower_letter(out: &mut String, c: char)
    requires
        'A' <= c && c <= 'Z',
    ensures
        final(out)@ == old(out)@.push(lower_char(c)),
{
    proof {
        reveal_strlit("a");
        reveal_strlit("b");
        reveal_strlit("c");
        reveal_strlit("d");
        reveal_strlit("e");
        reveal_strlit("f");
        reveal_strlit("g");
        reveal_strlit("h");
        reveal_strlit("i");
        reveal_strlit("j");
        reveal_strlit("k");
        reveal_strlit("l");
        reveal_strlit("m");
        reveal_strlit("n");
        reveal_strlit("o");
        reveal_strlit("p");
        reveal_strlit("q");
        reveal_strlit("r");
        reveal_strlit("s");
        reveal_strlit("t");
        reveal_strlit("u");
        reveal_strlit("v");
        reveal_strlit("w");
        reveal_strlit("x");
        reveal_strlit("y");
        reveal_strlit("z");
    }
    match c {
        'A' => out.append("a"),
        'B' => out.append("b"),
        'C' => out.append("c"),
        'D' => out.append("d"),
        'E' => out.append("e"),
        'F' => out.append("f"),
        'G' => out.append("g"),
        'H' => out.append("h"),
        'I' => out.append("i"),
        'J' => out.append("j"),
        'K' => out.append("k"),
        'L' => out.append("l"),
        'M' => out.append("m"),
        'N' => out.append("n"),
        'O' => out.append("o"),
        'P' => out.append("p"),
        'Q' => out.append("q"),
        'R' => out.append("r"),
        'S' => out.append("s"),
        'T' => out.append("t"),
        'U' => out.append("u"),
        'V' => out.append("v"),
        'W' => out.append("w"),
        'X' => out.append("x"),
        'Y' => out.append("y"),
        'Z' => out.append("z"),
        _ => {
            proof {
                assert(false);
            }
        },
    }
    proof {
        assert(final(out)@ =~= old(out)@.push(lower_char(c)));
    }
}

/// The snake form of a name: spaces to underscores, ASCII letters to lower
/// case, everything else unchanged.
pub fn snake_ascii(s: &str) -> (r: String)
    ensures
        r@ == snake_of(s@),
{
    let mut out = String::new();
    let n = s.unicode_len();
    proof {
        assert(out@ =~= snake_of(s@.take(0)));
    }
    for i in 0..n
        invariant
            n == s@.len(),
            out@ == snake_of(s@.take(i as int)),
    {
        let c = s.get_char(i);
        let u = c as u32;
        if c == ' ' {
            proof {
                reveal_strlit("_");
            }
            out.append("_");
        } else if 65 <= u && u <= 90 {
            proof {
                assert('A' <= c && c <= 'Z');
            }
            append_lower_letter(&mut out, c);
        } else {
            out.append(s.substring_char(i, i + 1));
            proof {
                assert(s@.subrange(i as int, i + 1) =~= seq![s@[i as int]]);
            }
        }
        proof {
            assert(out@ =~= snake_of(s@.take(i + 1)));
        }
    }
    proof {
        lemma_take_full(s@);
        assert(s@.take(n as int) == s@);
    }
    out
}


/// The decimal rendering of a signed number: a minus sign before the
/// digits of its magnitude.
pub open spec fn dec_digits_signed(n: int) -> Seq<char> {
    if n >= 0 {
        dec_digits(n as nat)
    } else {
        seq!['-'] + dec_digits((-n) as nat)
    }
}

/// Render a signed number in decimal.
pub fn i64_to_string(n: i64) -> (r: String)
    ensures
        r@ == dec_digits_signed(n as int),
{
    if n >= 0 {
        u64_to_string(n as u64)
    } else {
        let mut out = String::new();
        proof {
            reveal_strlit("-");
        }
        out.append("-");
        let mag: u64 = ((-(n + 1)) as u64) + 1;
        proof {
            assert(mag as int == -(n as int));
        }
        let digits = u64_to_string(mag);
        out.append(digits.as_str());
        proof {
            assert(out@ =~= dec_digits_signed(n as int));
        }
        out
    }
}

} // verus!
