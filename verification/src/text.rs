//! Text as sequences of characters: numbers, white space, lines and words.

use vstd::prelude::*;
use vstd::string::{StrSliceExecFns, StringExecFns};

verus! {

/// The digit of value `d`, in bases up to sixteen.
pub open spec fn digit(d: nat) -> char {
    if d < 10 {
        (48 + d) as char
    } else {
        (87 + d) as char
    }
}

/// `n` in base `base`, without leading zeros.
pub open spec fn number(n: nat, base: nat) -> Seq<char>
    decreases n,
    when base > 1
{
    if n < base {
        seq![digit(n)]
    } else {
        proof {
            assert(n / base < n) by (nonlinear_arith)
                requires
                    base > 1,
                    n >= base,
            ;
        }
        number(n / base, base).push(digit(n % base))
    }
}

/// `n` in base ten.
pub open spec fn decimal(n: nat) -> Seq<char> {
    number(n, 10)
}

/// `n` in base sixteen, in lower case.
pub open spec fn hexadecimal(n: nat) -> Seq<char> {
    number(n, 16)
}

/// Whether `c` is white space: the characters with the Unicode property
/// `White_Space`.
pub open spec fn is_white(c: char) -> bool {
    let n = c as u32;
    ||| 0x09 <= n <= 0x0d
    ||| n == 0x20
    ||| n == 0x85
    ||| n == 0xa0
    ||| n == 0x1680
    ||| 0x2000 <= n <= 0x200a
    ||| n == 0x2028
    ||| n == 0x2029
    ||| n == 0x202f
    ||| n == 0x205f
    ||| n == 0x3000
}

/// `s` without the white space at its start.
pub open spec fn trim_start(s: Seq<char>) -> Seq<char>
    decreases s.len(),
{
    if s.len() > 0 && is_white(s[0]) {
        trim_start(s.drop_first())
    } else {
        s
    }
}

/// `s` without the white space at its end.
pub open spec fn trim_end(s: Seq<char>) -> Seq<char>
    decreases s.len(),
{
    if s.len() > 0 && is_white(s.last()) {
        trim_end(s.drop_last())
    } else {
        s
    }
}

/// `s` without the white space around it.
pub open spec fn trimmed(s: Seq<char>) -> Seq<char> {
    trim_end(trim_start(s))
}

/// The pieces of `s` between line feeds; one more than there are line feeds.
pub open spec fn lines(s: Seq<char>) -> Seq<Seq<char>>
    decreases s.len(),
{
    if s.len() == 0 {
        seq![Seq::empty()]
    } else {
        let before = lines(s.drop_last());
        if s.last() == '\n' {
            before.push(Seq::empty())
        } else {
            before.drop_last().push(before.last().push(s.last()))
        }
    }
}

/// The longest pieces of `s` that are free of white space.
pub open spec fn words(s: Seq<char>) -> Seq<Seq<char>>
    decreases s.len(),
{
    if s.len() == 0 {
        Seq::empty()
    } else {
        let before = words(s.drop_last());
        if is_white(s.last()) {
            before
        } else if s.len() == 1 || is_white(s[s.len() - 2]) {
            before.push(seq![s.last()])
        } else {
            before.drop_last().push(before.last().push(s.last()))
        }
    }
}

/// The value of a string of decimal digits.
pub open spec fn digits_value(s: Seq<char>) -> nat
    decreases s.len(),
{
    if s.len() == 0 {
        0
    } else {
        digits_value(s.drop_last()) * 10 + (s.last() as u32 - 48) as nat
    }
}

/// Whether `c` is a decimal digit.
pub open spec fn is_digit(c: char) -> bool {
    48 <= c as u32 <= 57
}

/// Whether `s` holds nothing but decimal digits.
pub open spec fn all_digits(s: Seq<char>) -> bool {
    forall|i: int| 0 <= i < s.len() ==> is_digit(#[trigger] s[i])
}

/// `s` without a leading plus sign.
pub open spec fn unsigned_part(s: Seq<char>) -> Seq<char> {
    if s.len() > 0 && s[0] == '+' {
        s.drop_first()
    } else {
        s
    }
}

/// The 32-bit number that `s` denotes: an optional plus sign, then one or more
/// decimal digits whose value fits.
pub open spec fn u32_of(s: Seq<char>) -> Option<u32> {
    let digits = unsigned_part(s);
    if digits.len() > 0 && all_digits(digits) && digits_value(digits) <= u32::MAX {
        Some(digits_value(digits) as u32)
    } else {
        None
    }
}

/// `c`, or its lower-case form if it is an upper-case ASCII letter.
pub open spec fn ascii_lower(c: char) -> char {
    if 65 <= c as u32 <= 90 {
        (c as u32 + 32) as char
    } else {
        c
    }
}

/// Whether `a` and `b` differ in the case of ASCII letters at most.
pub open spec fn same_ignoring_case(a: Seq<char>, b: Seq<char>) -> bool {
    a.map_values(|c: char| ascii_lower(c)) == b.map_values(|c: char| ascii_lower(c))
}

/// The characters of `s`.
pub fn chars_of(s: &str) -> (v: Vec<char>)
    ensures
        v@ == s@,
{
    let mut v: Vec<char> = Vec::new();
    for c in it: s.chars()
        invariant
            v@ == it.seq().take(it.index() as int),
            it.seq() == s@,
    {
        v.push(c);
    }
    v
}

/// Appends `part`.
pub fn push_text(out: &mut String, part: &str)
    ensures
        final(out)@ == old(out)@ + part@,
{
    out.append(part);
}

/// Appends the digit of value `d`.
pub fn push_digit(out: &mut String, d: u8)
    requires
        d < 16,
    ensures
        final(out)@ == old(out)@.push(digit(d as nat)),
{
    proof {
        reveal_strlit("0");
        reveal_strlit("1");
        reveal_strlit("2");
        reveal_strlit("3");
        reveal_strlit("4");
        reveal_strlit("5");
        reveal_strlit("6");
        reveal_strlit("7");
        reveal_strlit("8");
        reveal_strlit("9");
        reveal_strlit("a");
        reveal_strlit("b");
        reveal_strlit("c");
        reveal_strlit("d");
        reveal_strlit("e");
        reveal_strlit("f");
    }
    let part: &str = match d {
        0 => "0",
        1 => "1",
        2 => "2",
        3 => "3",
        4 => "4",
        5 => "5",
        6 => "6",
        7 => "7",
        8 => "8",
        9 => "9",
        10 => "a",
        11 => "b",
        12 => "c",
        13 => "d",
        14 => "e",
        _ => "f",
    };
    assert(part@ =~= seq![digit(d as nat)]);
    out.append(part);
    assert(out@ =~= old(out)@.push(digit(d as nat)));
}

/// Appends `n` in base ten.
pub fn push_decimal(out: &mut String, n: u64)
    ensures
        final(out)@ == old(out)@ + decimal(n as nat),
    decreases n,
{
    if n >= 10 {
        push_decimal(out, n / 10);
    }
    push_digit(out, (n % 10) as u8);
    assert(out@ =~= old(out)@ + decimal(n as nat));
}

/// Appends `n` in base sixteen.
pub fn push_hexadecimal(out: &mut String, n: u64)
    ensures
        final(out)@ == old(out)@ + hexadecimal(n as nat),
    decreases n,
{
    if n >= 16 {
        push_hexadecimal(out, n / 16);
    }
    push_digit(out, (n % 16) as u8);
    assert(out@ =~= old(out)@ + hexadecimal(n as nat));
}

/// Whether `c` is white space.
pub fn white(c: char) -> (r: bool)
    ensures
        r == is_white(c),
{
    let n: u32 = c as u32;
    (0x09 <= n && n <= 0x0d) || n == 0x20 || n == 0x85 || n == 0xa0 || n == 0x1680 || (0x2000 <= n
        && n <= 0x200a) || n == 0x2028 || n == 0x2029 || n == 0x202f || n == 0x205f || n == 0x3000
}

/// Where `v[from..to]` without the white space around it starts and ends.
pub fn trim_range(v: &Vec<char>, from: usize, to: usize) -> (r: (usize, usize))
    requires
        from <= to <= v@.len(),
    ensures
        from <= r.0 <= r.1 <= to,
        v@.subrange(r.0 as int, r.1 as int) == trimmed(v@.subrange(from as int, to as int)),
{
    let mut a: usize = from;
    while a < to && white(v[a])
        invariant
            from <= a <= to <= v@.len(),
            trim_start(v@.subrange(a as int, to as int)) == trim_start(
                v@.subrange(from as int, to as int),
            ),
        decreases to - a,
    {
        assert(v@.subrange(a as int, to as int).drop_first() =~= v@.subrange(a + 1, to as int));
        a += 1;
    }
    let mut b: usize = to;
    while a < b && white(v[b - 1])
        invariant
            a <= b <= to <= v@.len(),
            trim_end(v@.subrange(a as int, b as int)) == trim_end(
                v@.subrange(a as int, to as int),
            ),
        decreases b - a,
    {
        assert(v@.subrange(a as int, b as int).drop_last() =~= v@.subrange(a as int, b - 1));
        b -= 1;
    }
    (a, b)
}

/// Whether `v[from..to]` starts with `prefix`.
pub fn range_starts_with(v: &Vec<char>, from: usize, to: usize, prefix: &str) -> (r: bool)
    requires
        from <= to <= v@.len(),
    ensures
        r == prefix@.is_prefix_of(v@.subrange(from as int, to as int)),
{
    let p: Vec<char> = chars_of(prefix);
    let ghost s = v@.subrange(from as int, to as int);
    if p.len() > to - from {
        return false;
    }
    let mut i: usize = 0;
    while i < p.len()
        invariant
            i <= p@.len() <= to - from,
            from <= to <= v@.len(),
            p@ == prefix@,
            s == v@.subrange(from as int, to as int),
            forall|j: int| 0 <= j < i ==> p@[j] == s[j],
        decreases p@.len() - i,
    {
        if v[from + i] != p[i] {
            assert(s[i as int] != p@[i as int]);
            assert(s.subrange(0, p@.len() as int)[i as int] != p@[i as int]);
            return false;
        }
        i += 1;
    }
    assert(p@ =~= s.subrange(0, p@.len() as int));
    true
}

/// Whether `s` starts with `prefix`.
pub fn starts_with(s: &str, prefix: &str) -> (r: bool)
    ensures
        r == prefix@.is_prefix_of(s@),
{
    let v: Vec<char> = chars_of(s);
    assert(v@.subrange(0, v@.len() as int) =~= s@);
    range_starts_with(&v, 0, v.len(), prefix)
}

/// Whether `a` and `b` are the same text.
pub fn same_text(a: &str, b: &str) -> (r: bool)
    ensures
        r == (a@ == b@),
{
    let x: Vec<char> = chars_of(a);
    let y: Vec<char> = chars_of(b);
    if x.len() != y.len() {
        return false;
    }
    let mut i: usize = 0;
    while i < x.len()
        invariant
            i <= x@.len() == y@.len(),
            x@ == a@,
            y@ == b@,
            forall|j: int| 0 <= j < i ==> x@[j] == y@[j],
        decreases x@.len() - i,
    {
        if x[i] != y[i] {
            return false;
        }
        i += 1;
    }
    assert(x@ =~= y@);
    true
}

/// The words of `v[from..to]`, each by where it starts and ends in `v`.
pub fn word_ranges(v: &Vec<char>, from: usize, to: usize) -> (r: Vec<(usize, usize)>)
    requires
        from <= to <= v@.len(),
    ensures
        r@.len() == words(v@.subrange(from as int, to as int)).len(),
        forall|k: int|
            0 <= k < r@.len() ==> from <= (#[trigger] r@[k]).0 <= r@[k].1 <= to && v@.subrange(
                r@[k].0 as int,
                r@[k].1 as int,
            ) == words(v@.subrange(from as int, to as int))[k],
{
    let mut r: Vec<(usize, usize)> = Vec::new();
    let mut i: usize = from;
    let mut inside: bool = false;
    assert(v@.subrange(from as int, from as int) =~= Seq::<char>::empty());
    while i < to
        invariant
            from <= i <= to <= v@.len(),
            inside == (i > from && !is_white(v@[i - 1])),
            inside ==> r@.len() > 0 && r@.last().1 == i,
            r@.len() == words(v@.subrange(from as int, i as int)).len(),
            forall|k: int|
                0 <= k < r@.len() ==> from <= (#[trigger] r@[k]).0 <= r@[k].1 <= i && v@.subrange(
                    r@[k].0 as int,
                    r@[k].1 as int,
                ) == words(v@.subrange(from as int, i as int))[k],
        decreases to - i,
    {
        let ghost s = v@.subrange(from as int, i + 1);
        let ghost old_r = r@;
        assert(s.drop_last() =~= v@.subrange(from as int, i as int));
        let c: char = v[i];
        if white(c) {
            inside = false;
        } else if inside {
            let n: usize = r.len();
            let start: usize = r[n - 1].0;
            r.set(n - 1, (start, i + 1));
            proof {
                assert(v@.subrange(start as int, i + 1) =~= v@.subrange(
                    start as int,
                    i as int,
                ).push(c));
                assert(words(s) =~= words(s.drop_last()).drop_last().push(
                    words(s.drop_last()).last().push(c),
                ));
            }
        } else {
            r.push((i, i + 1));
            inside = true;
            proof {
                assert(v@.subrange(i as int, i + 1) =~= seq![c]);
                assert(words(s) == words(s.drop_last()).push(seq![c]));
            }
        }
        i += 1;
    }
    r
}

/// The 32-bit number that `v[from..to]` denotes.
pub fn parse_u32(v: &Vec<char>, from: usize, to: usize) -> (r: Option<u32>)
    requires
        from <= to <= v@.len(),
    ensures
        r == u32_of(v@.subrange(from as int, to as int)),
{
    let ghost s = v@.subrange(from as int, to as int);
    let start: usize = if from < to && v[from] == '+' {
        from + 1
    } else {
        from
    };
    let ghost digits = v@.subrange(start as int, to as int);
    assert(digits =~= unsigned_part(s));
    if start == to {
        return None;
    }
    let mut value: u64 = 0;
    let mut over: bool = false;
    let mut i: usize = start;
    assert(digits.take(0) =~= Seq::<char>::empty());
    while i < to
        invariant
            start <= i <= to <= v@.len(),
            s == v@.subrange(from as int, to as int),
            digits == unsigned_part(s),
            digits == v@.subrange(start as int, to as int),
            forall|j: int| 0 <= j < i - start ==> is_digit(#[trigger] digits[j]),
            over ==> digits_value(digits.take(i - start)) > u32::MAX,
            !over ==> value == digits_value(digits.take(i - start)) <= u32::MAX,
        decreases to - i,
    {
        let n: u32 = v[i] as u32;
        assert(digits[i - start] == v@[i as int]);
        if n < 48 || n > 57 {
            assert(!is_digit(digits[i - start]));
            return None;
        }
        assert(digits.take(i + 1 - start).drop_last() =~= digits.take(i - start));
        assert(digits.take(i + 1 - start).last() == v@[i as int]);
        if !over {
            value = value * 10 + (n - 48) as u64;
            if value > 0xffff_ffff {
                over = true;
            }
        }
        i += 1;
    }
    assert(digits.take(to - start) =~= digits);
    if over {
        None
    } else {
        Some(value as u32)
    }
}

/// Whether `a` and `b` differ in the case of ASCII letters at most.
pub fn eq_ignore_ascii_case(a: &str, b: &str) -> (r: bool)
    ensures
        r == same_ignoring_case(a@, b@),
{
    let x: Vec<char> = chars_of(a);
    let y: Vec<char> = chars_of(b);
    let ghost lower = |c: char| ascii_lower(c);
    let ghost lx = x@.map_values(lower);
    let ghost ly = y@.map_values(lower);
    if x.len() != y.len() {
        assert(lx.len() != ly.len());
        return false;
    }
    let mut i: usize = 0;
    while i < x.len()
        invariant
            i <= x@.len() == y@.len(),
            x@ == a@,
            y@ == b@,
            lx == x@.map_values(lower),
            ly == y@.map_values(lower),
            lower == |c: char| ascii_lower(c),
            forall|j: int| 0 <= j < i ==> lx[j] == ly[j],
        decreases x@.len() - i,
    {
        if lower_code(x[i]) != lower_code(y[i]) {
            assert(lx[i as int] != ly[i as int]);
            return false;
        }
        assert(lx[i as int] == ly[i as int]);
        i += 1;
    }
    assert(lx =~= ly);
    true
}

/// The code of `c`, or of its lower-case form.
fn lower_code(c: char) -> (n: u32)
    ensures
        n == ascii_lower(c) as u32,
{
    let n: u32 = c as u32;
    if 65 <= n && n <= 90 {
        n + 32
    } else {
        n
    }
}

/// A copy of the text of `s` from one character position to another.
pub fn copy_text(s: &str, from: usize, to: usize) -> (r: String)
    requires
        from <= to <= s@.len(),
    ensures
        r@ == s@.subrange(from as int, to as int),
{
    s.substring_char(from, to).to_string()
}

/// A number in base ten is made of digits, and they have its value.
pub proof fn lemma_decimal(n: nat)
    ensures
        decimal(n).len() > 0,
        all_digits(decimal(n)),
        digits_value(decimal(n)) == n,
    decreases n,
{
    if n < 10 {
        assert(decimal(n).drop_last() =~= Seq::<char>::empty());
        reveal_with_fuel(digits_value, 2);
    } else {
        lemma_decimal(n / 10);
        let s = decimal(n);
        assert(s == decimal(n / 10).push(digit(n % 10)));
        assert(s.drop_last() =~= decimal(n / 10));
        assert forall|i: int| 0 <= i < s.len() implies is_digit(#[trigger] s[i]) by {
            if i < s.len() - 1 {
                assert(s[i] == decimal(n / 10)[i]);
            }
        }
    }
}

/// A number that was written in base ten reads back as the number.
pub proof fn law_decimal_round_trip(n: u32)
    ensures
        u32_of(decimal(n as nat)) == Some(n),
{
    lemma_decimal(n as nat);
    assert(is_digit(decimal(n as nat)[0]));
}

/// The digits: `0` to `9`, then `a` to `f`.
pub proof fn law_digit(d: nat)
    requires
        d < 16,
    ensures
        d < 10 ==> digit(d) as u32 == '0' as u32 + d,
        d >= 10 ==> digit(d) as u32 == 'a' as u32 + d - 10,
{
}

/// A number is written with its last digit last, and without leading zeros.
pub proof fn law_number_digit_by_digit(n: nat, d: nat)
    ensures
        d < 10 ==> decimal(d) == seq![digit(d)],
        n > 0 && d < 10 ==> decimal(10 * n + d) == decimal(n).push(digit(d)),
        d < 16 ==> hexadecimal(d) == seq![digit(d)],
        n > 0 && d < 16 ==> hexadecimal(16 * n + d) == hexadecimal(n).push(digit(d)),
{
    assert(d < 10 ==> (10 * n + d) / 10 == n && (10 * n + d) % 10 == d as int);
    assert(d < 16 ==> (16 * n + d) / 16 == n && (16 * n + d) % 16 == d as int);
}

/// A number is read digit by digit, as long as it fits 32 bits; a plus sign in
/// front changes nothing, and nothing else is allowed.
pub proof fn law_number_is_read_digit_by_digit(s: Seq<char>, c: char, value: nat)
    requires
        s.len() > 0,
        s[0] != '+',
        u32_of(s) == Some(value as u32),
        value <= u32::MAX,
    ensures
        '0' as u32 <= c as u32 <= '9' as u32 ==> u32_of(s.push(c)) == (if 10 * value + (c as u32
            - '0' as u32) <= u32::MAX {
            Some((10 * value + (c as u32 - '0' as u32)) as u32)
        } else {
            None
        }),
        !('0' as u32 <= c as u32 <= '9' as u32) ==> u32_of(s.push(c)) is None,
        u32_of(seq!['+'] + s) == u32_of(s),
        u32_of(Seq::empty()) is None,
        u32_of(seq!['+']) is None,
{
    let t = s.push(c);
    assert(t.drop_last() =~= s);
    assert(t[0] == s[0]);
    if '0' as u32 <= c as u32 <= '9' as u32 {
        assert forall|i: int| 0 <= i < t.len() implies is_digit(#[trigger] t[i]) by {
            if i < s.len() {
                assert(t[i] == s[i]);
            }
        }
    } else {
        assert(t[t.len() - 1] == c);
        assert(!is_digit(t[t.len() - 1]));
    }
    assert((seq!['+'] + s).drop_first() =~= s);
    assert(seq!['+'].drop_first() =~= Seq::<char>::empty());
}

/// One character is a number exactly if it is a digit.
pub proof fn law_one_digit(c: char)
    ensures
        '0' as u32 <= c as u32 <= '9' as u32 ==> u32_of(seq![c]) == Some(
            (c as u32 - '0' as u32) as u32,
        ),
        !('0' as u32 <= c as u32 <= '9' as u32) ==> u32_of(seq![c]) is None,
{
    let s = seq![c];
    assert(s.drop_last() =~= Seq::<char>::empty());
    assert(s.drop_first() =~= Seq::<char>::empty());
    reveal_with_fuel(digits_value, 2);
    assert(s[0] == c);
}

/// Among the ASCII characters, white space is the blank and the five from the
/// horizontal tab to the carriage return; no letter, digit or sign is.
pub proof fn law_white_ascii(c: char)
    requires
        (c as u32) < 128,
    ensures
        is_white(c) <==> c == ' ' || c == '\t' || c == '\n' || c == '\r' || c as u32 == 11 || c as u32
            == 12,
{
}

/// White space around a text is taken off, all of it, and nothing else: what
/// is left neither starts nor ends with any.
pub proof fn law_trimmed(before: Seq<char>, core: Seq<char>, after: Seq<char>)
    requires
        forall|i: int| 0 <= i < before.len() ==> is_white(#[trigger] before[i]),
        forall|i: int| 0 <= i < after.len() ==> is_white(#[trigger] after[i]),
        core.len() > 0 ==> !is_white(core[0]) && !is_white(core.last()),
    ensures
        trimmed(before + core + after) == core,
    decreases before.len() + after.len(),
{
    let s = before + core + after;
    if before.len() > 0 {
        let rest = before.drop_first();
        assert(s[0] == before[0]);
        assert(s.drop_first() =~= rest + core + after);
        law_trimmed(rest, core, after);
    } else if core.len() == 0 {
        if after.len() > 0 {
            let rest = after.drop_first();
            assert(s[0] == after[0]);
            assert(s.drop_first() =~= before + core + rest);
            law_trimmed(before, core, rest);
        } else {
            assert(s =~= core);
            assert(trim_start(s) == s);
        }
    } else {
        assert(s[0] == core[0]);
        assert(trim_start(s) == s);
        if after.len() > 0 {
            let rest = after.drop_last();
            assert(s.last() == after.last());
            assert(s.drop_last() =~= before + core + rest);
            law_trimmed(before, core, rest);
            assert((before + core + rest)[0] == core[0]);
        } else {
            assert(s =~= core);
        }
    }
}

/// Lines end at line feeds and nowhere else.
pub proof fn law_lines(a: Seq<char>, b: Seq<char>)
    ensures
        lines(a.push('\n') + b) == lines(a) + lines(b),
        !a.contains('\n') ==> lines(a) == seq![a],
        lines(a).len() > 0,
    decreases a.len() + b.len(),
{
    if a.len() > 0 {
        law_lines(a.drop_last(), Seq::empty());
        if !a.contains('\n') {
            assert(a[a.len() - 1] == a.last());
            let init = a.drop_last();
            if init.contains('\n') {
                let k = choose|k: int| 0 <= k < init.len() && init[k] == '\n';
                assert(a[k] == '\n');
            }
            assert(init.push(a.last()) =~= a);
            assert(seq![init].drop_last().push(a) =~= seq![a]);
        }
    } else {
        assert(a =~= Seq::<char>::empty());
    }
    let s = a.push('\n') + b;
    if b.len() == 0 {
        assert(s =~= a.push('\n'));
        assert(s.drop_last() =~= a);
        assert(lines(s) =~= lines(a) + lines(b));
    } else {
        let init = b.drop_last();
        law_lines(a, init);
        assert(s.drop_last() =~= a.push('\n') + init);
        assert(s.last() == b.last());
        let before = lines(a) + lines(init);
        lemma_lines_nonempty(init);
        assert(before.last() == lines(init).last());
        assert(before.drop_last() =~= lines(a) + lines(init).drop_last());
        assert(lines(s) =~= lines(a) + lines(b));
    }
}

/// There is always a line.
proof fn lemma_lines_nonempty(s: Seq<char>)
    ensures
        lines(s).len() > 0,
    decreases s.len(),
{
    if s.len() > 0 {
        lemma_lines_nonempty(s.drop_last());
    }
}

/// Words are parted by white space, however much, and by nothing else.
pub proof fn law_words(a: Seq<char>, c: char, b: Seq<char>)
    requires
        is_white(c),
    ensures
        words(a.push(c) + b) == words(a) + words(b),
        words(Seq::empty()) == Seq::<Seq<char>>::empty(),
        a.len() > 0 && (forall|i: int| 0 <= i < a.len() ==> !is_white(#[trigger] a[i])) ==> words(a)
            == seq![a],
    decreases a.len() + b.len(),
{
    if a.len() > 0 && (forall|i: int| 0 <= i < a.len() ==> !is_white(#[trigger] a[i])) {
        lemma_one_word(a);
    }
    let s = a.push(c) + b;
    if b.len() == 0 {
        assert(s =~= a.push(c));
        assert(s.drop_last() =~= a);
        assert(words(s) =~= words(a) + words(b));
    } else {
        let init = b.drop_last();
        law_words(a, c, init);
        assert(s.drop_last() =~= a.push(c) + init);
        assert(s.last() == b.last());
        let x = b.last();
        if !is_white(x) {
            if b.len() == 1 {
                assert(s[s.len() - 2] == c);
                assert(words(s) =~= words(a) + words(b));
            } else {
                assert(s[s.len() - 2] == b[b.len() - 2]);
                if !is_white(b[b.len() - 2]) {
                    lemma_last_word(init);
                    let before = words(a) + words(init);
                    assert(before.last() == words(init).last());
                    assert(before.drop_last() =~= words(a) + words(init).drop_last());
                }
                assert(words(s) =~= words(a) + words(b));
            }
        }
    }
}

/// A text without white space is one word.
proof fn lemma_one_word(a: Seq<char>)
    requires
        a.len() > 0,
        forall|i: int| 0 <= i < a.len() ==> !is_white(#[trigger] a[i]),
    ensures
        words(a) == seq![a],
    decreases a.len(),
{
    let init = a.drop_last();
    assert(!is_white(a[a.len() - 1]));
    if a.len() == 1 {
        assert(words(init) =~= Seq::<Seq<char>>::empty());
        assert(seq![a.last()] =~= a);
        assert(words(a) =~= seq![a]);
    } else {
        assert forall|i: int| 0 <= i < init.len() implies !is_white(#[trigger] init[i]) by {
            assert(init[i] == a[i]);
        }
        lemma_one_word(init);
        assert(!is_white(a[a.len() - 2]));
        assert(init.push(a.last()) =~= a);
        assert(words(a) =~= seq![a]);
    }
}

/// A text that does not end with white space has a word.
proof fn lemma_last_word(a: Seq<char>)
    requires
        a.len() > 0,
        !is_white(a.last()),
    ensures
        words(a).len() > 0,
{
}

/// Two texts are the same but for case if they are as long, and differ only in
/// that one has the capital of an ASCII letter where the other has it small.
pub proof fn law_ignoring_case(a: Seq<char>, b: Seq<char>)
    ensures
        same_ignoring_case(a, b) <==> a.len() == b.len() && forall|i: int|
            0 <= i < a.len() ==> {
                let x = #[trigger] a[i] as int;
                let y = b[i] as int;
                ||| x == y
                ||| 'A' as int <= x <= 'Z' as int && y == x + 32
                ||| 'A' as int <= y <= 'Z' as int && x == y + 32
            },
{
    let la = a.map_values(|c: char| ascii_lower(c));
    let lb = b.map_values(|c: char| ascii_lower(c));
    if same_ignoring_case(a, b) {
        assert(la.len() == lb.len());
        assert forall|i: int| 0 <= i < a.len() implies {
            let x = #[trigger] a[i] as int;
            let y = b[i] as int;
            ||| x == y
            ||| 'A' as int <= x <= 'Z' as int && y == x + 32
            ||| 'A' as int <= y <= 'Z' as int && x == y + 32
        } by {
            assert(la[i] == lb[i]);
            lemma_same_lower(a[i], b[i]);
        }
    }
    if a.len() == b.len() && forall|i: int|
        0 <= i < a.len() ==> {
            let x = #[trigger] a[i] as int;
            let y = b[i] as int;
            ||| x == y
            ||| 'A' as int <= x <= 'Z' as int && y == x + 32
            ||| 'A' as int <= y <= 'Z' as int && x == y + 32
        } {
        assert forall|i: int| 0 <= i < la.len() implies la[i] == lb[i] by {
            lemma_same_lower(a[i], b[i]);
            assert(la[i] == ascii_lower(a[i]) && lb[i] == ascii_lower(b[i]));
        }
        assert(la =~= lb);
    }
}

/// Two characters with the same lower-case form.
proof fn lemma_same_lower(c: char, d: char)
    ensures
        ascii_lower(c) == ascii_lower(d) <==> c as int == d as int || ('A' as int <= c as int
            <= 'Z' as int && d as int == c as int + 32) || ('A' as int <= d as int <= 'Z' as int
            && c as int == d as int + 32),
{
}

} // verus!
