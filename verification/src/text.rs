//! Text building blocks: numbers in decimal and hexadecimal, rounding for
//! display, and white-space handling.

use vstd::arithmetic::power::pow;
use vstd::prelude::*;

verus! {

/// `String::push` appends one character at the end of the string.
pub assume_specification[ String::push ](s: &mut String, c: char)
    ensures
        final(s)@ == old(s)@.push(c),
;

/// The character that stands for digit `d` in bases up to sixteen.
pub open spec fn digit(d: nat) -> char {
    if d == 0 {
        '0'
    } else if d == 1 {
        '1'
    } else if d == 2 {
        '2'
    } else if d == 3 {
        '3'
    } else if d == 4 {
        '4'
    } else if d == 5 {
        '5'
    } else if d == 6 {
        '6'
    } else if d == 7 {
        '7'
    } else if d == 8 {
        '8'
    } else if d == 9 {
        '9'
    } else if d == 10 {
        'a'
    } else if d == 11 {
        'b'
    } else if d == 12 {
        'c'
    } else if d == 13 {
        'd'
    } else if d == 14 {
        'e'
    } else {
        'f'
    }
}

/// `n` written in base `base`, without leading zeros.
pub open spec fn in_base(n: nat, base: nat) -> Seq<char>
    decreases n,
{
    if base < 2 || n < base {
        seq![digit(n)]
    } else {
        proof {
            assert(n / base < n) by (nonlinear_arith)
                requires
                    base >= 2,
                    n >= base,
            ;
        }
        in_base(n / base, base).push(digit(n % base))
    }
}

/// `n` in decimal.
pub open spec fn dec(n: nat) -> Seq<char> {
    in_base(n, 10)
}

/// `n` in lower-case hexadecimal.
pub open spec fn hex(n: nat) -> Seq<char> {
    in_base(n, 16)
}

/// The quotient `num / den` rounded to the nearest integer, ties to the even one.
pub open spec fn round_half_even(num: nat, den: nat) -> nat {
    let q = num / den;
    let r = num % den;
    if r > den - r || (r == den - r && q % 2 == 1) {
        q + 1
    } else {
        q
    }
}

/// `hundredths / 100` with two decimals.
pub open spec fn two_decimals(hundredths: nat) -> Seq<char> {
    dec(hundredths / 100) + "."@ + seq![digit(hundredths / 10 % 10)] + seq![digit(hundredths % 10)]
}

/// Whether `n` is a power of ten.
pub open spec fn power_of_ten(n: nat) -> bool
    decreases n,
{
    n == 1 || (n >= 10 && n % 10 == 0 && power_of_ten(n / 10))
}

/// The decimals of `part / scale`, where `scale` is a power of ten and `part` is
/// smaller: as many as are needed, so none for a part of zero.
pub open spec fn fraction(part: nat, scale: nat) -> Seq<char>
    decreases scale,
{
    if part == 0 || scale < 10 {
        Seq::empty()
    } else {
        seq![digit(part / (scale / 10))] + fraction(part % (scale / 10), scale / 10)
    }
}

/// `n / scale` in decimal, without trailing zeros.
pub open spec fn fixed_point(n: nat, scale: nat) -> Seq<char> {
    if n % scale == 0 {
        dec(n / scale)
    } else {
        dec(n / scale) + "."@ + fraction(n % scale, scale)
    }
}

/// The parts one after the other, with `sep` between neighbours.
pub open spec fn joined(parts: Seq<Seq<char>>, sep: Seq<char>) -> Seq<char>
    decreases parts.len(),
{
    if parts.len() == 0 {
        Seq::empty()
    } else if parts.len() == 1 {
        parts[0]
    } else {
        joined(parts.drop_last(), sep) + sep + parts.last()
    }
}

/// Unicode `White_Space`.
pub open spec fn white_space(c: char) -> bool {
    ||| '\u{9}' <= c <= '\u{d}'
    ||| c == '\u{20}'
    ||| c == '\u{85}'
    ||| c == '\u{a0}'
    ||| c == '\u{1680}'
    ||| '\u{2000}' <= c <= '\u{200a}'
    ||| c == '\u{2028}'
    ||| c == '\u{2029}'
    ||| c == '\u{202f}'
    ||| c == '\u{205f}'
    ||| c == '\u{3000}'
}

/// `s` without the white space at its start.
pub open spec fn trim_start(s: Seq<char>) -> Seq<char>
    decreases s.len(),
{
    if s.len() > 0 && white_space(s[0]) {
        trim_start(s.drop_first())
    } else {
        s
    }
}

/// `s` without the white space at its end.
pub open spec fn trim_end(s: Seq<char>) -> Seq<char>
    decreases s.len(),
{
    if s.len() > 0 && white_space(s.last()) {
        trim_end(s.drop_last())
    } else {
        s
    }
}

/// The longest prefix of `s` that holds no white space.
pub open spec fn word(s: Seq<char>) -> Seq<char>
    decreases s.len(),
{
    if s.len() > 0 && !white_space(s[0]) {
        seq![s[0]] + word(s.drop_first())
    } else {
        Seq::empty()
    }
}

/// The first white-space separated field of a line (empty if there is none).
pub open spec fn first_field(line: Seq<char>) -> Seq<char> {
    word(trim_start(line))
}

/// The second white-space separated field of a line (empty if there is none).
pub open spec fn second_field(line: Seq<char>) -> Seq<char> {
    let rest = trim_start(line);
    first_field(rest.skip(word(rest).len() as int))
}

fn digit_char(d: u8) -> (r: char)
    requires
        d < 16,
    ensures
        r == digit(d as nat),
{
    match d {
        0 => '0',
        1 => '1',
        2 => '2',
        3 => '3',
        4 => '4',
        5 => '5',
        6 => '6',
        7 => '7',
        8 => '8',
        9 => '9',
        10 => 'a',
        11 => 'b',
        12 => 'c',
        13 => 'd',
        14 => 'e',
        _ => 'f',
    }
}

fn push_in_base(out: &mut String, n: u128, base: u128)
    requires
        2 <= base <= 16,
    ensures
        final(out)@ == old(out)@ + in_base(n as nat, base as nat),
    decreases n,
{
    if n < base {
        out.push(digit_char(n as u8));
        assert(out@ =~= old(out)@ + in_base(n as nat, base as nat));
    } else {
        proof {
            assert(n / base < n) by (nonlinear_arith)
                requires
                    base >= 2,
                    n >= base,
            ;
            assert(n % base < base) by (nonlinear_arith)
                requires
                    base >= 2,
            ;
        }
        push_in_base(out, n / base, base);
        let low: u128 = n % base;
        out.push(digit_char(low as u8));
        assert(out@ =~= old(out)@ + in_base(n as nat, base as nat));
    }
}

/// Appends `n` in decimal.
pub fn push_dec(out: &mut String, n: u128)
    ensures
        final(out)@ == old(out)@ + dec(n as nat),
{
    push_in_base(out, n, 10);
}

/// Appends `n` in lower-case hexadecimal.
pub fn push_hex(out: &mut String, n: u128)
    ensures
        final(out)@ == old(out)@ + hex(n as nat),
{
    push_in_base(out, n, 16);
}

/// Rounds `num / den` to the nearest integer, ties to even.
pub fn rounded(num: u128, den: u128) -> (r: u128)
    requires
        den > 0,
    ensures
        r == round_half_even(num as nat, den as nat),
{
    let q: u128 = num / den;
    let r: u128 = num % den;
    proof {
        assert(num % den < den && (den > 1 ==> num / den <= num / 2)) by (nonlinear_arith)
            requires
                den > 0,
        ;
    }
    if r > den - r || (r == den - r && q % 2 == 1) {
        q + 1
    } else {
        q
    }
}

/// Appends `hundredths / 100` with two decimals.
pub fn push_two_decimals(out: &mut String, hundredths: u128)
    ensures
        final(out)@ == old(out)@ + two_decimals(hundredths as nat),
{
    push_dec(out, hundredths / 100);
    out.append(".");
    let tens: u128 = hundredths / 10 % 10;
    let units: u128 = hundredths % 10;
    out.push(digit_char(tens as u8));
    out.push(digit_char(units as u8));
    assert(out@ =~= old(out)@ + two_decimals(hundredths as nat));
}

fn push_fraction(out: &mut String, part: u64, scale: u64)
    requires
        part < scale,
        power_of_ten(scale as nat),
    ensures
        final(out)@ == old(out)@ + fraction(part as nat, scale as nat),
    decreases scale,
{
    if part == 0 || scale < 10 {
        assert(out@ =~= old(out)@ + fraction(part as nat, scale as nat));
        return ;
    }
    let tenth: u64 = scale / 10;
    let first: u64 = part / tenth;
    let rest: u64 = part % tenth;
    proof {
        assert(first < 10 && rest < tenth) by (nonlinear_arith)
            requires
                part < tenth * 10,
                tenth > 0,
                first == part / tenth,
                rest == part % tenth,
        ;
    }
    out.push(digit_char(first as u8));
    push_fraction(out, rest, tenth);
    assert(out@ =~= old(out)@ + fraction(part as nat, scale as nat));
}

/// Appends `n / scale` in decimal, for a power of ten `scale`.
pub fn push_fixed_point(out: &mut String, n: u64, scale: u64)
    requires
        power_of_ten(scale as nat),
    ensures
        final(out)@ == old(out)@ + fixed_point(n as nat, scale as nat),
{
    let part: u64 = n % scale;
    push_dec(out, (n / scale) as u128);
    if part != 0 {
        proof {
            assert(part < scale) by (nonlinear_arith)
                requires
                    scale > 0,
                    part == n % scale,
            ;
        }
        out.append(".");
        push_fraction(out, part, scale);
        assert(out@ =~= old(out)@ + fixed_point(n as nat, scale as nat));
    }
}

/// The contents of a list of strings.
pub open spec fn views(parts: Seq<String>) -> Seq<Seq<char>> {
    parts.map_values(|s: String| s@)
}

/// The parts one after the other, with `sep` between neighbours.
pub fn join(parts: &Vec<String>, sep: &str) -> (r: String)
    ensures
        r@ == joined(views(parts@), sep@),
{
    let mut out: String = String::new();
    let mut i: usize = 0;
    while i < parts.len()
        invariant
            i <= parts@.len(),
            out@ == joined(views(parts@).take(i as int), sep@),
        decreases parts@.len() - i,
    {
        if i > 0 {
            out.append(sep);
        }
        out.append(parts[i].as_str());
        proof {
            let next = views(parts@).take(i + 1);
            assert(next.drop_last() =~= views(parts@).take(i as int));
            assert(out@ =~= joined(next, sep@));
        }
        i += 1;
    }
    assert(views(parts@).take(i as int) =~= views(parts@));
    out
}

/// Whether two texts are the same.
pub fn same_text(a: &str, b: &str) -> (r: bool)
    ensures
        r == (a@ == b@),
{
    let x: String = a.to_owned();
    let y: String = b.to_owned();
    x == y
}

/// The characters of `s`.
pub fn chars_of(s: &str) -> (r: Vec<char>)
    ensures
        r@ == s@,
{
    let mut out: Vec<char> = Vec::new();
    for c in it: s.chars()
        invariant
            it.seq() == s@,
            out@ == it.seq().take(it.index()),
    {
        out.push(c);
    }
    out
}

/// The text made of the characters `chars[from..to]`.
pub fn text_of(chars: &Vec<char>, from: usize, to: usize) -> (r: String)
    requires
        from <= to <= chars@.len(),
    ensures
        r@ == chars@.subrange(from as int, to as int),
{
    let mut out: String = String::new();
    let mut i: usize = from;
    while i < to
        invariant
            from <= i <= to <= chars@.len(),
            out@ == chars@.subrange(from as int, i as int),
        decreases to - i,
    {
        out.push(chars[i]);
        proof {
            assert(chars@.subrange(from as int, i + 1) =~= chars@.subrange(
                from as int,
                i as int,
            ).push(chars@[i as int]));
        }
        i += 1;
    }
    out
}

/// Whether `c` is white space.
pub fn is_white_space(c: char) -> (r: bool)
    ensures
        r == white_space(c),
{
    ('\u{9}' <= c && c <= '\u{d}') || c == '\u{20}' || c == '\u{85}' || c == '\u{a0}' || c
        == '\u{1680}' || ('\u{2000}' <= c && c <= '\u{200a}') || c == '\u{2028}' || c == '\u{2029}'
        || c == '\u{202f}' || c == '\u{205f}' || c == '\u{3000}'
}

/// Index of the first character in `chars[from..to]` that is not white space,
/// or `to`.
pub fn skip_white_space(chars: &Vec<char>, from: usize, to: usize) -> (r: usize)
    requires
        from <= to <= chars@.len(),
    ensures
        from <= r <= to,
        chars@.subrange(r as int, to as int) == trim_start(
            chars@.subrange(from as int, to as int),
        ),
{
    let mut i: usize = from;
    while i < to && is_white_space(chars[i])
        invariant
            from <= i <= to <= chars@.len(),
            trim_start(chars@.subrange(i as int, to as int)) == trim_start(
                chars@.subrange(from as int, to as int),
            ),
        decreases to - i,
    {
        proof {
            assert(chars@.subrange(i as int, to as int).drop_first() =~= chars@.subrange(
                i + 1,
                to as int,
            ));
        }
        i += 1;
    }
    i
}

/// Index of the first white space in `chars[from..to]`, or `to`.
pub fn word_end(chars: &Vec<char>, from: usize, to: usize) -> (r: usize)
    requires
        from <= to <= chars@.len(),
    ensures
        from <= r <= to,
        chars@.subrange(from as int, r as int) == word(chars@.subrange(from as int, to as int)),
{
    let mut i: usize = from;
    proof {
        assert(chars@.subrange(from as int, from as int) =~= Seq::<char>::empty());
        assert(Seq::<char>::empty() + word(chars@.subrange(from as int, to as int)) =~= word(
            chars@.subrange(from as int, to as int),
        ));
    }
    while i < to && !is_white_space(chars[i])
        invariant
            from <= i <= to <= chars@.len(),
            chars@.subrange(from as int, i as int) + word(chars@.subrange(i as int, to as int))
                == word(chars@.subrange(from as int, to as int)),
        decreases to - i,
    {
        proof {
            let here = chars@.subrange(i as int, to as int);
            let next = chars@.subrange(i + 1, to as int);
            assert(here.drop_first() =~= next);
            assert(here[0] == chars@[i as int]);
            assert(word(here) =~= seq![chars@[i as int]] + word(next));
            assert(chars@.subrange(from as int, i as int) + word(here) =~= chars@.subrange(
                from as int,
                i + 1,
            ) + word(next));
        }
        i += 1;
    }
    proof {
        let here = chars@.subrange(i as int, to as int);
        assert(word(here) =~= Seq::<char>::empty());
        assert(chars@.subrange(from as int, i as int) + word(here) =~= chars@.subrange(
            from as int,
            i as int,
        ));
    }
    i
}

/// `s` without the white space at both ends.
pub fn trimmed(s: &str) -> (r: String)
    ensures
        r@ == trim_end(trim_start(s@)),
{
    let chars: Vec<char> = chars_of(s);
    let from: usize = skip_white_space(&chars, 0, chars.len());
    assert(chars@.subrange(0, chars@.len() as int) =~= s@);
    let mut to: usize = chars.len();
    while from < to && is_white_space(chars[to - 1])
        invariant
            from <= to <= chars@.len(),
            trim_end(chars@.subrange(from as int, to as int)) == trim_end(trim_start(s@)),
        decreases to,
    {
        proof {
            let here = chars@.subrange(from as int, to as int);
            assert(here.last() == chars@[to - 1]);
            assert(here.drop_last() =~= chars@.subrange(from as int, to - 1));
        }
        to -= 1;
    }
    proof {
        let here = chars@.subrange(from as int, to as int);
        if here.len() > 0 {
            assert(here.last() == chars@[to - 1]);
        }
    }
    text_of(&chars, from, to)
}

/// Digits follow the code table: ten from `0` on, then six from `a` on.
pub proof fn law_digits_follow_the_code_table(d: nat)
    ensures
        d < 10 ==> digit(d) as u32 == '0' as u32 + d,
        10 <= d < 16 ==> digit(d) as u32 == 'a' as u32 + d - 10,
{
}

proof fn lemma_in_base_reads_back(n: nat, base: nat)
    requires
        2 <= base <= 16,
    ensures
        in_base(n, base).fold_left(
            0int,
            |v: int, c: char|
                base * v + if c as u32 >= 97 {
                    c as u32 - 87
                } else {
                    c as u32 - 48
                },
        ) == n,
        in_base(n, base).len() > 0,
        n > 0 ==> in_base(n, base)[0] != '0',
        n == 0 ==> in_base(n, base) == seq!['0'],
        forall|i: int|
            0 <= i < in_base(n, base).len() ==> exists|d: nat|
                d < base && #[trigger] in_base(n, base)[i] == #[trigger] digit(d),
    decreases n,
{
    let f = |v: int, c: char|
        base * v + if c as u32 >= 97 {
            c as u32 - 87
        } else {
            c as u32 - 48
        };
    let t = in_base(n, base);
    if n < base {
        assert(t == seq![digit(n)]);
        assert(t.drop_last() =~= Seq::empty());
        assert(t.drop_last().fold_left(0int, f) == 0);
        assert(t.fold_left(0int, f) == f(0, digit(n)));
        assert(base * 0 == 0) by (nonlinear_arith);
    } else {
        assert(n / base < n && n / base > 0 && n % base < base && n == base * (n / base) + n % base)
            by (nonlinear_arith)
            requires
                base >= 2,
                n >= base,
        ;
        lemma_in_base_reads_back(n / base, base);
        let rest = in_base(n / base, base);
        assert(t == rest.push(digit(n % base)));
        assert(t.drop_last() =~= rest);
        assert(t.fold_left(0int, f) == f(rest.fold_left(0int, f), digit(n % base)));
        assert(t[0] == rest[0]);
        assert forall|i: int| 0 <= i < t.len() implies exists|d: nat|
            d < base && #[trigger] t[i] == #[trigger] digit(d) by {
            if i < rest.len() {
                assert(t[i] == rest[i]);
                let d = choose|d: nat| d < base && #[trigger] rest[i] == #[trigger] digit(d);
                assert(t[i] == digit(d));
            } else {
                assert(t[i] == digit(n % base));
            }
        }
    }
}

/// A number in decimal reads back as the number, digit by digit; it is made of
/// decimal digits only and starts with a zero only if it is zero.
pub proof fn law_decimal_reads_back(n: nat)
    ensures
        dec(n).fold_left(0int, |v: int, c: char| 10 * v + (c as u32 - 48)) == n,
        dec(n).len() > 0,
        n > 0 ==> dec(n)[0] != '0',
        n == 0 ==> dec(n) == seq!['0'],
        forall|i: int| 0 <= i < dec(n).len() ==> '0' <= #[trigger] dec(n)[i] <= '9',
{
    lemma_in_base_reads_back(n, 10);
    assert forall|i: int| 0 <= i < dec(n).len() implies '0' <= #[trigger] dec(n)[i] <= '9' by {
        let d = choose|d: nat| d < 10 && #[trigger] in_base(n, 10)[i] == #[trigger] digit(d);
    }
    lemma_same_fold(
        dec(n),
        |v: int, c: char|
            10 * v + if c as u32 >= 97 {
                c as u32 - 87
            } else {
                c as u32 - 48
            },
        |v: int, c: char| 10 * v + (c as u32 - 48),
    );
}

proof fn lemma_same_fold(s: Seq<char>, f: spec_fn(int, char) -> int, g: spec_fn(int, char) -> int)
    requires
        forall|i: int, v: int| 0 <= i < s.len() ==> f(v, #[trigger] s[i]) == #[trigger] g(v, s[i]),
    ensures
        s.fold_left(0int, f) == s.fold_left(0int, g),
    decreases s.len(),
{
    if s.len() > 0 {
        let t = s.drop_last();
        assert forall|i: int, v: int| 0 <= i < t.len() implies f(v, #[trigger] t[i])
            == #[trigger] g(v, t[i]) by {
            assert(t[i] == s[i]);
            assert(f(v, s[i]) == g(v, s[i]));
        }
        lemma_same_fold(t, f, g);
        let v = t.fold_left(0int, f);
        assert(f(v, s[s.len() - 1]) == g(v, s[s.len() - 1]));
    }
}

/// A number in hexadecimal reads back as the number, digit by digit; its letters
/// are lower case, and it starts with a zero only if it is zero.
pub proof fn law_hexadecimal_reads_back(n: nat)
    ensures
        hex(n).fold_left(
            0int,
            |v: int, c: char|
                16 * v + if c as u32 >= 97 {
                    c as u32 - 87
                } else {
                    c as u32 - 48
                },
        ) == n,
        hex(n).len() > 0,
        n > 0 ==> hex(n)[0] != '0',
        n == 0 ==> hex(n) == seq!['0'],
        forall|i: int|
            0 <= i < hex(n).len() ==> '0' <= #[trigger] hex(n)[i] <= '9' || 'a' <= hex(n)[i]
                <= 'f',
{
    lemma_in_base_reads_back(n, 16);
    assert forall|i: int| 0 <= i < hex(n).len() implies '0' <= #[trigger] hex(n)[i] <= '9' || 'a'
        <= hex(n)[i] <= 'f' by {
        let d = choose|d: nat| d < 16 && #[trigger] in_base(n, 16)[i] == #[trigger] digit(d);
    }
    let f = |v: int, c: char|
        16 * v + if c as u32 >= 97 {
            c as u32 - 87
        } else {
            c as u32 - 48
        };
    let g = |v: int, c: char|
        (16 as nat) * v + if c as u32 >= 97 {
            c as u32 - 87
        } else {
            c as u32 - 48
        };
    lemma_same_fold(hex(n), g, f);
}

/// Rounding picks the integer nearest to a quotient, and between two that are
/// equally near the even one.
pub proof fn law_rounding_is_to_the_nearest(num: nat, den: nat)
    requires
        den > 0,
    ensures
        ({
            let q = round_half_even(num, den);
            &&& 2 * num <= (2 * q + 1) * den
            &&& 2 * num >= (2 * q - 1) * den
            &&& (2 * num == (2 * q + 1) * den || 2 * num == (2 * q - 1) * den) ==> q % 2 == 0
        }),
{
    let (p, r) = (num / den, num % den);
    let q = round_half_even(num, den);
    assert(num == p * den + r && r < den) by (nonlinear_arith)
        requires
            den > 0,
            p == num / den,
            r == num % den,
    ;
    assert((2 * p + 1) * den == 2 * (p * den) + den && (2 * p - 1) * den == 2 * (p * den) - den && (2
        * (p + 1) + 1) * den == 2 * (p * den) + 3 * den && (2 * (p + 1) - 1) * den == 2 * (p * den)
        + den) by (nonlinear_arith);
}

/// Hundredths with two decimals: the point stands before the last two digits,
/// and without it the text reads back as the number of hundredths.
pub proof fn law_two_decimals_read_back(h: nat)
    ensures
        ({
            let t = two_decimals(h);
            let n = t.len();
            &&& n >= 4
            &&& t[n - 3] == '.'
            &&& (t.take(n - 3) + t.skip(n - 2)).fold_left(
                0int,
                |v: int, c: char| 10 * v + (c as u32 - 48),
            ) == h
        }),
{
    reveal_strlit(".");
    let t = two_decimals(h);
    let n = t.len() as int;
    let whole = dec(h / 100);
    let (tens, units) = (h / 10 % 10, h % 10);
    law_decimal_reads_back(h / 100);
    assert(t =~= whole.push('.').push(digit(tens)).push(digit(units)));
    assert(t.take(n - 3) + t.skip(n - 2) =~= whole.push(digit(tens)).push(digit(units)));
    lemma_read_push(whole, tens);
    lemma_read_push(whole.push(digit(tens)), units);
    assert(h == 100 * (h / 100) + 10 * tens + units);
}

proof fn lemma_read_push(s: Seq<char>, d: nat)
    requires
        d < 10,
    ensures
        s.push(digit(d)).fold_left(0int, |v: int, c: char| 10 * v + (c as u32 - 48)) == 10
            * s.fold_left(0int, |v: int, c: char| 10 * v + (c as u32 - 48)) + d,
{
    assert(s.push(digit(d)).drop_last() =~= s);
}

/// Joining is the same in one go and in two: the halves of a list, joined, are
/// joined by the separator too.
pub proof fn law_join_splits_anywhere(a: Seq<Seq<char>>, b: Seq<Seq<char>>, sep: Seq<char>)
    requires
        a.len() > 0,
        b.len() > 0,
    ensures
        joined(a + b, sep) == joined(a, sep) + sep + joined(b, sep),
        a.len() == 1 ==> joined(a, sep) == a[0],
        joined(Seq::<Seq<char>>::empty(), sep).len() == 0,
    decreases b.len(),
{
    let all = a + b;
    assert(all.last() == b.last());
    assert(all.drop_last() =~= a + b.drop_last());
    if b.len() == 1 {
        assert(a + b.drop_last() =~= a);
        assert(joined(all, sep) =~= joined(a, sep) + sep + joined(b, sep));
    } else {
        law_join_splits_anywhere(a, b.drop_last(), sep);
        assert(joined(all, sep) =~= joined(a, sep) + sep + joined(b, sep));
    }
}

/// White space, by code point.
pub proof fn law_white_space_code_points(c: char)
    ensures
        white_space(c) <==> {
            ||| 9 <= c as u32 <= 13
            ||| 8192 <= c as u32 <= 8202
            ||| set![32u32, 133, 160, 5760, 8232, 8233, 8239, 8287, 12288].contains(c as u32)
        },
{
}

/// Trimming at the start takes off white space, all of it, and nothing else.
pub proof fn law_trim_start(s: Seq<char>)
    ensures
        ({
            let t = trim_start(s);
            &&& t.len() <= s.len()
            &&& t == s.skip(s.len() - t.len())
            &&& t.len() > 0 ==> !white_space(t[0])
            &&& forall|i: int| 0 <= i < s.len() - t.len() ==> white_space(#[trigger] s[i])
        }),
    decreases s.len(),
{
    let t = trim_start(s);
    if s.len() > 0 && white_space(s[0]) {
        let r = s.drop_first();
        law_trim_start(r);
        assert(t =~= s.skip(s.len() - t.len()));
        assert forall|i: int| 0 <= i < s.len() - t.len() implies white_space(#[trigger] s[i]) by {
            if i > 0 {
                assert(s[i] == r[i - 1]);
            }
        }
    } else {
        assert(s.skip(0) =~= s);
    }
}

/// Trimming at the end takes off white space, all of it, and nothing else.
pub proof fn law_trim_end(s: Seq<char>)
    ensures
        ({
            let t = trim_end(s);
            &&& t.len() <= s.len()
            &&& t == s.take(t.len() as int)
            &&& t.len() > 0 ==> !white_space(t.last())
            &&& forall|i: int| t.len() <= i < s.len() ==> white_space(#[trigger] s[i])
        }),
    decreases s.len(),
{
    let t = trim_end(s);
    if s.len() > 0 && white_space(s.last()) {
        let r = s.drop_last();
        law_trim_end(r);
        assert(t =~= s.take(t.len() as int));
        assert forall|i: int| t.len() <= i < s.len() implies white_space(#[trigger] s[i]) by {
            if i < r.len() {
                assert(s[i] == r[i]);
            }
        }
    } else {
        assert(s.take(s.len() as int) =~= s);
    }
}

/// A word runs up to the first white space, or to the end.
pub proof fn law_word(s: Seq<char>)
    ensures
        ({
            let w = word(s);
            &&& w.len() <= s.len()
            &&& w == s.take(w.len() as int)
            &&& w.len() < s.len() ==> white_space(s[w.len() as int])
            &&& forall|i: int| 0 <= i < w.len() ==> !white_space(#[trigger] s[i])
        }),
    decreases s.len(),
{
    let w = word(s);
    if s.len() > 0 && !white_space(s[0]) {
        let r = s.drop_first();
        law_word(r);
        assert(w =~= s.take(w.len() as int));
        assert forall|i: int| 0 <= i < w.len() implies !white_space(#[trigger] s[i]) by {
            if i > 0 {
                assert(s[i] == r[i - 1]);
            }
        }
    }
}

/// The fields of a line are its words: from a line made of two words with white
/// space before, between and behind them, the two words are read.
pub proof fn law_fields(
    lead: Seq<char>,
    a: Seq<char>,
    gap: Seq<char>,
    b: Seq<char>,
    rest: Seq<char>,
)
    requires
        forall|i: int| 0 <= i < lead.len() ==> white_space(#[trigger] lead[i]),
        a.len() > 0,
        forall|i: int| 0 <= i < a.len() ==> !white_space(#[trigger] a[i]),
        gap.len() > 0,
        forall|i: int| 0 <= i < gap.len() ==> white_space(#[trigger] gap[i]),
        b.len() > 0,
        forall|i: int| 0 <= i < b.len() ==> !white_space(#[trigger] b[i]),
        rest.len() > 0 ==> white_space(rest[0]),
    ensures
        first_field(lead + a + gap + b + rest) == a,
        second_field(lead + a + gap + b + rest) == b,
{
    let line = lead + a + gap + b + rest;
    let tail = gap + b + rest;
    let body = a + tail;
    lemma_trim_lead(lead, body);
    assert(lead + body =~= line);
    assert(body[0] == a[0]);
    lemma_word_of(a, tail);
    assert(body.skip(a.len() as int) =~= tail);
    let end = b + rest;
    lemma_trim_lead(gap, end);
    assert(gap + end =~= tail);
    assert(end[0] == b[0]);
    lemma_word_of(b, rest);
}

proof fn lemma_trim_lead(lead: Seq<char>, s: Seq<char>)
    requires
        forall|i: int| 0 <= i < lead.len() ==> white_space(#[trigger] lead[i]),
        s.len() > 0 ==> !white_space(s[0]),
    ensures
        trim_start(lead + s) == s,
    decreases lead.len(),
{
    if lead.len() == 0 {
        assert(lead + s =~= s);
    } else {
        let l = lead.drop_first();
        assert forall|i: int| 0 <= i < l.len() implies white_space(#[trigger] l[i]) by {
            assert(l[i] == lead[i + 1]);
        }
        assert((lead + s)[0] == lead[0]);
        assert((lead + s).drop_first() =~= l + s);
        lemma_trim_lead(l, s);
    }
}

proof fn lemma_word_of(a: Seq<char>, rest: Seq<char>)
    requires
        forall|i: int| 0 <= i < a.len() ==> !white_space(#[trigger] a[i]),
        rest.len() > 0 ==> white_space(rest[0]),
    ensures
        word(a + rest) == a,
    decreases a.len(),
{
    if a.len() == 0 {
        assert(a + rest =~= rest);
        assert(word(rest) =~= a);
    } else {
        let t = a.drop_first();
        assert forall|i: int| 0 <= i < t.len() implies !white_space(#[trigger] t[i]) by {
            assert(t[i] == a[i + 1]);
        }
        assert((a + rest)[0] == a[0]);
        assert((a + rest).drop_first() =~= t + rest);
        lemma_word_of(t, rest);
        assert(seq![a[0]] + t =~= a);
    }
}

proof fn lemma_fraction_reads_back(part: nat, scale: nat, v: int)
    requires
        part < scale,
        power_of_ten(scale),
    ensures
        fraction(part, scale).fold_left(v, |v: int, c: char| 10 * v + (c as u32 - 48)) * scale == (v
            * scale + part) * pow(10, fraction(part, scale).len()),
        part > 0 ==> fraction(part, scale).len() > 0 && fraction(part, scale).last() != '0',
    decreases scale,
{
    let f = |v: int, c: char| 10 * v + (c as u32 - 48);
    let s = fraction(part, scale);
    reveal(pow);
    if part == 0 {
        assert(pow(10, 0) == 1);
        assert((v * scale + 0) * 1 == v * scale) by (nonlinear_arith);
    } else {
        let t = scale / 10;
        let (d, rest) = (part / t, part % t);
        assert(d < 10 && rest < t && part == d * t + rest) by (nonlinear_arith)
            requires
                part < t * 10,
                t > 0,
                d == part / t,
                rest == part % t,
        ;
        let tail = fraction(rest, t);
        let w = 10 * v + d;
        lemma_fraction_reads_back(rest, t, w);
        assert(s == seq![digit(d)] + tail);
        s.lemma_fold_left_split(v, f, 1);
        assert(s.subrange(1, s.len() as int) =~= tail);
        let head = s.subrange(0, 1);
        assert(head =~= seq![digit(d)]);
        assert(head.drop_last() =~= Seq::empty());
        assert(head.drop_last().fold_left(v, f) == v);
        assert(head.fold_left(v, f) == f(v, digit(d)));
        assert(f(v, digit(d)) == w);
        let (x, p) = (tail.fold_left(w, f), pow(10, tail.len()));
        assert(pow(10, s.len()) == 10 * p) by {
            assert(s.len() == tail.len() + 1);
        }
        assert(x * scale == (v * scale + part) * (10 * p)) by (nonlinear_arith)
            requires
                x * t == (w * t + rest) * p,
                w == 10 * v + d,
                part == d * t + rest,
                scale == 10 * t,
        ;
        if rest == 0 {
            assert(tail.len() == 0);
            assert(d > 0) by (nonlinear_arith)
                requires
                    part == d * t + 0,
                    part > 0,
                    t > 0,
                    d >= 0,
            ;
            assert(s.last() == digit(d));
        } else {
            assert(s.last() == tail.last());
        }
    }
}

/// A fixed-point number is written exactly: the whole part in decimal, and where
/// something is left, a point and decimals that read back as what is left, with
/// no zero at the end.
pub proof fn law_fixed_point_is_exact(n: nat, scale: nat)
    requires
        power_of_ten(scale),
    ensures
        n % scale == 0 ==> fixed_point(n, scale) == dec(n / scale),
        n % scale > 0 ==> {
            let f = fraction(n % scale, scale);
            &&& fixed_point(n, scale) == dec(n / scale) + seq!['.'] + f
            &&& f.fold_left(0int, |v: int, c: char| 10 * v + (c as u32 - 48)) * scale == (n % scale)
                * pow(10, f.len())
            &&& f.len() > 0
            &&& f.last() != '0'
        },
{
    reveal_strlit(".");
    assert("."@ =~= seq!['.']);
    assert(n % scale < scale) by (nonlinear_arith)
        requires
            scale > 0,
    ;
    lemma_fraction_reads_back(n % scale, scale, 0);
    assert(0 * scale == 0) by (nonlinear_arith);
}

/// Whether `value` stands in `t` between `label` and `next`.
pub open spec fn says(t: Seq<char>, label: Seq<char>, value: Seq<char>, next: Seq<char>) -> bool {
    exists|before: Seq<char>, after: Seq<char>| #[trigger]
        says_between(t, before, label, value, next, after)
}

/// Whether `t` is made of the parts in this order.
pub open spec fn says_between(
    t: Seq<char>,
    before: Seq<char>,
    label: Seq<char>,
    value: Seq<char>,
    next: Seq<char>,
    after: Seq<char>,
) -> bool {
    t == before + label + value + next + after
}

/// The parts one after the other.
pub open spec fn run(parts: Seq<Seq<char>>) -> Seq<char>
    decreases parts.len(),
{
    if parts.len() == 0 {
        Seq::empty()
    } else {
        run(parts.drop_last()) + parts.last()
    }
}

pub broadcast proof fn lemma_run_push(parts: Seq<Seq<char>>, x: Seq<char>)
    ensures
        #[trigger] run(parts.push(x)) == run(parts) + x,
        x.len() == 0 ==> run(parts.push(x)) == run(parts),
        run(parts).len() == 0 ==> run(parts.push(x)) == x,
{
    assert(parts.push(x).drop_last() =~= parts);
    if x.len() == 0 {
        assert(run(parts) + x =~= run(parts));
    }
    if run(parts).len() == 0 {
        assert(run(parts) + x =~= x);
    }
}

/// Each part of a text stands between its neighbours.
pub proof fn lemma_run_says(parts: Seq<Seq<char>>, i: int)
    requires
        0 <= i,
        i + 2 < parts.len(),
    ensures
        says(run(parts), parts[i], parts[i + 1], parts[i + 2]),
    decreases parts.len(),
{
    let rest = parts.drop_last();
    if i + 3 == parts.len() {
        let first = rest.drop_last();
        let before = run(first.drop_last());
        let none = Seq::<char>::empty();
        assert(run(first) == before + parts[i]);
        assert(run(rest) == before + parts[i] + parts[i + 1]);
        assert(run(parts) =~= before + parts[i] + parts[i + 1] + parts[i + 2] + none);
        assert(says_between(run(parts), before, parts[i], parts[i + 1], parts[i + 2], none));
    } else {
        lemma_run_says(rest, i);
        let (before, after) = choose|before: Seq<char>, after: Seq<char>| #[trigger]
            says_between(run(rest), before, rest[i], rest[i + 1], rest[i + 2], after);
        let end = after + parts.last();
        assert(run(parts) =~= before + parts[i] + parts[i + 1] + parts[i + 2] + end);
        assert(says_between(run(parts), before, parts[i], parts[i + 1], parts[i + 2], end));
    }
}

} // verus!
