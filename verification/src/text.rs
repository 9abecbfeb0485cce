//! Building and comparing the plain strings that the commands print:
//! decimal numbers, zero-padded columns, runs of spaces, lexicographic
//! ordering of tag names, and the strikethrough decoration.
use vstd::prelude::*;

verus! {

/// The character for a single decimal digit value.
pub open spec fn spec_digit_char(d: int) -> char {
    if d == 0 {
        '0'
    } else if d == 1 {
        '1'
    } else if d == 2 {
        '2'
    } else if d == 3 {
        '3'
    } else if d == 4 {
        '4'
    } else if d == 5 {
        '5'
    } else if d == 6 {
        '6'
    } else if d == 7 {
        '7'
    } else if d == 8 {
        '8'
    } else {
        '9'
    }
}

/// The decimal digit sequence of `n`, most significant first, no padding.
pub open spec fn spec_dec_digits(n: int) -> Seq<char>
    decreases n,
{
    if n < 10 {
        seq![spec_digit_char(n)]
    } else {
        spec_dec_digits(n / 10).push(spec_digit_char(n % 10))
    }
}

/// The decimal digits of `n`, left-padded with '0' to at least three columns.
pub open spec fn spec_padded_id(n: int) -> Seq<char> {
    if n < 10 {
        seq!['0', '0'] + spec_dec_digits(n)
    } else if n < 100 {
        seq!['0'] + spec_dec_digits(n)
    } else {
        spec_dec_digits(n)
    }
}

/// Exactly two digit characters for a value below 100.
pub open spec fn spec_two_digits(n: int) -> Seq<char> {
    seq![spec_digit_char(n / 10), spec_digit_char(n % 10)]
}

/// Exactly four digit characters for a value below 10000.
pub open spec fn spec_four_digits(n: int) -> Seq<char> {
    seq![
        spec_digit_char(n / 1000),
        spec_digit_char(n / 100 % 10),
        spec_digit_char(n / 10 % 10),
        spec_digit_char(n % 10),
    ]
}

/// A run of `n` space characters.
pub open spec fn spec_spaces(n: int) -> Seq<char> {
    Seq::new(n as nat, |i: int| ' ')
}

fn digit_str(d: usize) -> (r: &'static str)
    requires
        d <= 9,
    ensures
        r@ == seq![spec_digit_char(d as int)],
{
    let r: &'static str = match d {
        0 => "0",
        1 => "1",
        2 => "2",
        3 => "3",
        4 => "4",
        5 => "5",
        6 => "6",
        7 => "7",
        8 => "8",
        _ => "9",
    };
    proof {
        reveal_strlit("0");
        reveal_strlit("1");
        reveal_strlit("2");
        reveal_strlit("3");
        reveal_strlit("4");
        reveal_strlit("5");
        reveal_strlit("6");
        reveal_strlit("7");
        reveal_strlit("8");
        reveal_strlit("9");
        assert(r@ =~= seq![spec_digit_char(d as int)]);
    }
    r
}

/// Appends the decimal digits of `v` to `out`.
pub fn push_dec(out: &mut String, v: usize)
    ensures
        final(out)@ == old(out)@ + spec_dec_digits(v as int),
    decreases v,
{
    if v < 10 {
        out.append(digit_str(v));
        proof {
            assert(out@ =~= old(out)@ + spec_dec_digits(v as int));
        }
    } else {
        push_dec(out, v / 10);
        out.append(digit_str(v % 10));
        proof {
            assert(out@ =~= old(out)@ + spec_dec_digits(v as int));
        }
    }
}

/// Appends the id column for `v`: its decimal digits, zero-padded to
/// at least three characters.
pub fn push_padded_id(out: &mut String, v: u32)
    ensures
        final(out)@ == old(out)@ + spec_padded_id(v as int),
{
    if v < 10 {
        out.append("00");
        proof {
            reveal_strlit("00");
        }
    } else if v < 100 {
        out.append("0");
        proof {
            reveal_strlit("0");
        }
    }
    push_dec(out, v as usize);
    proof {
        assert(out@ =~= old(out)@ + spec_padded_id(v as int));
    }
}

/// Appends exactly two digits for a value below 100.
pub fn push_two_digits(out: &mut String, v: u32)
    requires
        v <= 99,
    ensures
        final(out)@ == old(out)@ + spec_two_digits(v as int),
{
    out.append(digit_str((v / 10) as usize));
    out.append(digit_str((v % 10) as usize));
    proof {
        assert(out@ =~= old(out)@ + spec_two_digits(v as int));
    }
}

/// Appends exactly four digits for a value below 10000.
pub fn push_four_digits(out: &mut String, v: u32)
    requires
        v <= 9999,
    ensures
        final(out)@ == old(out)@ + spec_four_digits(v as int),
{
    out.append(digit_str((v / 1000) as usize));
    out.append(digit_str((v / 100 % 10) as usize));
    out.append(digit_str((v / 10 % 10) as usize));
    out.append(digit_str((v % 10) as usize));
    proof {
        assert(out@ =~= old(out)@ + spec_four_digits(v as int));
    }
}

/// Appends `n` spaces to `out`.
pub fn push_spaces(out: &mut String, n: usize)
    ensures
        final(out)@ == old(out)@ + spec_spaces(n as int),
{
    let mut i: usize = 0;
    while i < n
        invariant
            i <= n,
            out@ == old(out)@ + spec_spaces(i as int),
        decreases n - i,
    {
        out.append(" ");
        i = i + 1;
        proof {
            reveal_strlit(" ");
            assert(out@ =~= old(out)@ + spec_spaces(i as int));
        }
    }
}

/// Whether the character sequences `a` and `b` are equal.
pub fn str_eq(a: &str, b: &str) -> (r: bool)
    ensures
        r <==> a@ == b@,
{
    let n = a.unicode_len();
    let m = b.unicode_len();
    if n != m {
        return false;
    }
    let mut i: usize = 0;
    while i < n
        invariant
            i <= n,
            n == a@.len(),
            n == b@.len(),
            forall|j: int| 0 <= j < i ==> a@[j] == b@[j],
        decreases n - i,
    {
        if a.get_char(i) != b.get_char(i) {
            return false;
        }
        i = i + 1;
    }
    proof {
        assert(a@ =~= b@);
    }
    true
}

/// Lexicographic order on character sequences, by code point, with a
/// prefix ordered before every extension of it.
pub open spec fn spec_lex_le(a: Seq<char>, b: Seq<char>) -> bool
    decreases a.len(),
{
    if a.len() == 0 {
        true
    } else if b.len() == 0 {
        false
    } else if (a[0] as int) < (b[0] as int) {
        true
    } else if (a[0] as int) > (b[0] as int) {
        false
    } else {
        spec_lex_le(a.drop_first(), b.drop_first())
    }
}

/// The lexicographic order relates every pair one way or the other.
pub proof fn lemma_lex_le_total(a: Seq<char>, b: Seq<char>)
    ensures
        spec_lex_le(a, b) || spec_lex_le(b, a),
    decreases a.len(),
{
    if a.len() == 0 || b.len() == 0 {
    } else if a[0] as int == b[0] as int {
        lemma_lex_le_total(a.drop_first(), b.drop_first());
    }
}

/// The lexicographic order is transitive.
pub proof fn lemma_lex_le_trans(a: Seq<char>, b: Seq<char>, c: Seq<char>)
    requires
        spec_lex_le(a, b),
        spec_lex_le(b, c),
    ensures
        spec_lex_le(a, c),
    decreases a.len(),
{
    if a.len() == 0 || b.len() == 0 || c.len() == 0 {
    } else if a[0] as int == b[0] as int && b[0] as int == c[0] as int {
        lemma_lex_le_trans(a.drop_first(), b.drop_first(), c.drop_first());
    }
}

/// Two sequences each ordered below the other are equal.
pub proof fn lemma_lex_le_antisym(a: Seq<char>, b: Seq<char>)
    requires
        spec_lex_le(a, b),
        spec_lex_le(b, a),
    ensures
        a == b,
    decreases a.len(),
{
    if a.len() == 0 {
        assert(b.len() == 0);
        assert(a =~= b);
    } else {
        lemma_lex_le_antisym(a.drop_first(), b.drop_first());
        assert(a =~= seq![a[0]] + a.drop_first());
        assert(b =~= seq![b[0]] + b.drop_first());
    }
}

/// Whether `a` is lexicographically at or before `b`.
pub fn str_le(a: &str, b: &str) -> (r: bool)
    ensures
        r == spec_lex_le(a@, b@),
{
    let n = a.unicode_len();
    let m = b.unicode_len();
    let mut i: usize = 0;
    proof {
        assert(a@.skip(0) =~= a@);
        assert(b@.skip(0) =~= b@);
    }
    loop
        invariant
            i <= n,
            i <= m,
            n == a@.len(),
            m == b@.len(),
            spec_lex_le(a@, b@) == spec_lex_le(a@.skip(i as int), b@.skip(i as int)),
        decreases n - i,
    {
        if i == n {
            return true;
        }
        if i == m {
            return false;
        }
        let ca = a.get_char(i);
        let cb = b.get_char(i);
        if (ca as u32) < (cb as u32) {
            return true;
        }
        if (ca as u32) > (cb as u32) {
            return false;
        }
        proof {
            assert(a@.skip(i as int).drop_first() =~= a@.skip(i + 1));
            assert(b@.skip(i as int).drop_first() =~= b@.skip(i + 1));
        }
        i = i + 1;
    }
}

/// The ANSI strikethrough decoration around a string.
pub open spec fn spec_strike(s: Seq<char>) -> Seq<char> {
    "\x1b[9m"@ + s + "\x1b[0m"@
}

/// Wraps `s` in the ANSI strikethrough escape codes.
pub fn strike(s: &str) -> (r: String)
    ensures
        r@ == spec_strike(s@),
{
    let mut out = String::from_str("\x1b[9m");
    out.append(s);
    out.append("\x1b[0m");
    out
}

/// The given strings joined by ", ".
pub open spec fn spec_join_comma(parts: Seq<Seq<char>>) -> Seq<char>
    decreases parts.len(),
{
    if parts.len() == 0 {
        Seq::empty()
    } else if parts.len() == 1 {
        parts[0]
    } else {
        parts[0] + ", "@ + spec_join_comma(parts.drop_first())
    }
}

/// Appends the strings joined by ", " to `out`.
pub fn push_join_comma(out: &mut String, parts: &Vec<String>)
    ensures
        final(out)@ == old(out)@ + spec_join_comma(parts@.map_values(|s: String| s@)),
{
    let ghost views = parts@.map_values(|s: String| s@);
    let n = parts.len();
    let mut i: usize = 0;
    while i < n
        invariant
            i <= n,
            n == parts@.len(),
            views == parts@.map_values(|s: String| s@),
            i == 0 ==> out@ == old(out)@,
            0 < i <= n ==> out@ == old(out)@ + spec_join_comma(views.take(i as int)),
        decreases n - i,
    {
        if i > 0 {
            out.append(", ");
        }
        out.append(parts[i].as_str());
        proof {
            lemma_join_take_step(views, i as int);
            assert(out@ =~= old(out)@ + spec_join_comma(views.take(i + 1)));
        }
        i = i + 1;
    }
    proof {
        assert(views.take(n as int) =~= views);
    }
}

proof fn lemma_join_take_step(views: Seq<Seq<char>>, i: int)
    requires
        0 <= i < views.len(),
    ensures
        i == 0 ==> spec_join_comma(views.take(1)) == views[0],
        i > 0 ==> spec_join_comma(views.take(i + 1)) == spec_join_comma(views.take(i)) + ", "@
            + views[i],
    decreases i,
{
    if i == 0 {
        assert(views.take(1).len() == 1);
        assert(views.take(1)[0] == views[0]);
    } else {
        let a = views.take(i + 1);
        assert(a.len() >= 2);
        assert(a.drop_first() =~= views.drop_first().take(i));
        let b = views.take(i);
        assert(b.len() >= 1);
        assert(b.drop_first() =~= views.drop_first().take(i - 1));
        lemma_join_take_step(views.drop_first(), i - 1);
        if i == 1 {
            assert(spec_join_comma(a) == a[0] + ", "@ + spec_join_comma(a.drop_first()));
            assert(a[0] == views[0]);
            assert(spec_join_comma(views.drop_first().take(1)) == views.drop_first()[0]);
            assert(spec_join_comma(b) == b[0]);
            assert(spec_join_comma(a) =~= spec_join_comma(b) + ", "@ + views[1]);
        } else {
            assert(spec_join_comma(a) == a[0] + ", "@ + spec_join_comma(a.drop_first()));
            assert(spec_join_comma(b) == b[0] + ", "@ + spec_join_comma(b.drop_first()));
            assert(views.drop_first().take(i)[i - 1] == views[i]);
            assert(spec_join_comma(a) =~= spec_join_comma(b) + ", "@ + views[i]);
        }
    }
}

} // verus!
