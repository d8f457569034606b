//! Static-key files, as `openvpn --genkey --secret` writes them: 256 bytes in
//! hexadecimal, in lines between two markers.
//!
//! ```text
//! -----BEGIN OpenVPN Static key V1-----
//! 0123456789abcdef...
//! -----END OpenVPN Static key V1-----
//! ```

use vstd::prelude::*;
use vstd::string::StringSliceAdditionalSpecFns;
use vstd::utf8::encode_utf8;

use crate::codec::array_at;
use crate::text::{
    chars_of, copy_text, lines, push_text, range_starts_with, trim_range, trimmed,
};

verus! {

/// Number of bytes in an OpenVPN static key.
pub const STATIC_KEY_LEN: usize = 256;

/// Why a text holds no static key.
#[derive(Debug, Clone, Copy, PartialEq, Eq, Structural)]
pub enum StaticKeyError {
    /// The lines between the markers have this many bytes instead of 512.
    WrongLength(usize),
    /// The lines between the markers hold something other than hex digits.
    BadHex,
}

/// The error of the `hex` crate.
#[verifier::external_type_specification]
#[verifier::external_body]
pub struct ExFromHexError(hex::FromHexError);

/// Whether `b` is a hex digit of either case.
pub open spec fn is_hex(b: u8) -> bool {
    48 <= b <= 57 || 65 <= b <= 70 || 97 <= b <= 102
}

/// The value of a hex digit.
pub open spec fn hex_value(b: u8) -> int {
    if b <= 57 {
        b - 48
    } else if b <= 70 {
        b - 55
    } else {
        b - 87
    }
}

/// The bytes that a text in hexadecimal denotes: none if it is of odd length
/// or holds anything but hex digits.
pub open spec fn hex_bytes(s: Seq<u8>) -> Option<Seq<u8>> {
    if s.len() % 2 == 0 && (forall|i: int| 0 <= i < s.len() ==> is_hex(#[trigger] s[i])) {
        Some(
            Seq::new(
                s.len() / 2,
                |i: int| (16 * hex_value(s[2 * i]) + hex_value(s[2 * i + 1])) as u8,
            ),
        )
    } else {
        None
    }
}

/// Calls `hex::decode`: two hex digits, of either case, for each byte, the
/// more significant first. It fails exactly on a text of odd length and on one
/// that holds anything but hex digits.
#[verifier::external_body]
fn hex_decode(s: &[u8]) -> (r: Result<Vec<u8>, hex::FromHexError>)
    ensures
        match r {
            Ok(bytes) => hex_bytes(s@) == Some(bytes@),
            Err(_) => hex_bytes(s@) is None,
        },
{
    hex::decode(s)
}

/// What is known after reading a line: whether the text is between the
/// markers, and the key's digits so far. White space around a line does not
/// count; blank lines and lines that start with `#` are skipped.
pub open spec fn after_line(state: (bool, Seq<char>), raw: Seq<char>) -> (bool, Seq<char>) {
    let line = trimmed(raw);
    if "-----BEGIN"@.is_prefix_of(line) {
        (true, state.1)
    } else if "-----END"@.is_prefix_of(line) {
        (false, state.1)
    } else if state.0 && line.len() > 0 && line[0] != '#' {
        (state.0, state.1 + line)
    } else {
        state
    }
}

/// What is known after reading `lines`.
pub open spec fn after_lines(lines: Seq<Seq<char>>) -> (bool, Seq<char>)
    decreases lines.len(),
{
    if lines.len() == 0 {
        (false, Seq::empty())
    } else {
        after_line(after_lines(lines.drop_last()), lines.last())
    }
}

/// The key that digits of a key file denote.
pub open spec fn key_of_digits(digits: Seq<char>) -> Result<Seq<u8>, StaticKeyError> {
    let bytes = encode_utf8(digits);
    if bytes.len() != 2 * STATIC_KEY_LEN {
        Err(StaticKeyError::WrongLength(bytes.len() as usize))
    } else {
        match hex_bytes(bytes) {
            Some(key) => Ok(key),
            None => Err(StaticKeyError::BadHex),
        }
    }
}

/// The key that a key file holds. Its lines end at line feeds; a carriage
/// return in front of one is white space, which does not count.
pub open spec fn key_of(text: Seq<char>) -> Result<Seq<u8>, StaticKeyError> {
    key_of_digits(after_lines(lines(text)).1)
}

/// Reads the line `text[from..to]`.
fn read_line(
    text: &str,
    v: &Vec<char>,
    from: usize,
    to: usize,
    inside: bool,
    digits: &mut String,
) -> (r: bool)
    requires
        v@ == text@,
        from <= to <= v@.len(),
    ensures
        (r, final(digits)@) == after_line(
            (inside, old(digits)@),
            text@.subrange(from as int, to as int),
        ),
{
    let (a, b) = trim_range(v, from, to);
    if range_starts_with(v, a, b, "-----BEGIN") {
        return true;
    }
    if range_starts_with(v, a, b, "-----END") {
        return false;
    }
    if inside && a < b && v[a] != '#' {
        let line: String = copy_text(text, a, b);
        push_text(digits, line.as_str());
    }
    inside
}

/// Reads a static key from the text of a key file. White space around a line,
/// `#` comments and blank lines are tolerated.
pub fn parse_static_key_text(text: &str) -> (r: Result<[u8; STATIC_KEY_LEN], StaticKeyError>)
    ensures
        match r {
            Ok(key) => key_of(text@) == Ok::<Seq<u8>, StaticKeyError>(key@),
            Err(e) => key_of(text@) == Err::<Seq<u8>, StaticKeyError>(e),
        },
{
    let v: Vec<char> = chars_of(text);
    let mut digits: String = String::new();
    let mut inside: bool = false;
    let mut start: usize = 0;
    let mut i: usize = 0;
    let ghost mut done: Seq<Seq<char>> = Seq::empty();
    assert(text@.take(0) =~= Seq::<char>::empty());
    assert(text@.subrange(0, 0) =~= Seq::<char>::empty());
    assert(lines(text@.take(0)) =~= done.push(text@.subrange(0, 0)));
    while i < v.len()
        invariant
            start <= i <= v@.len(),
            v@ == text@,
            (inside, digits@) == after_lines(done),
            lines(text@.take(i as int)) == done.push(text@.subrange(start as int, i as int)),
        decreases v@.len() - i,
    {
        let ghost before = text@.take(i as int);
        let ghost now = text@.take(i + 1);
        assert(now.drop_last() =~= before);
        assert(now.last() == v@[i as int]);
        if v[i] == '\n' {
            inside = read_line(text, &v, start, i, inside, &mut digits);
            proof {
                let line = text@.subrange(start as int, i as int);
                assert(done.push(line).drop_last() =~= done);
                done = done.push(line);
                assert(text@.subrange(i + 1, i + 1) =~= Seq::<char>::empty());
            }
            start = i + 1;
        } else {
            proof {
                let line = text@.subrange(start as int, i as int);
                assert(done.push(line).drop_last() =~= done);
                assert(text@.subrange(start as int, i + 1) =~= line.push(v@[i as int]));
            }
        }
        i += 1;
    }
    read_line(text, &v, start, i, inside, &mut digits);
    proof {
        let line = text@.subrange(start as int, i as int);
        assert(text@.take(i as int) =~= text@);
        assert(done.push(line).drop_last() =~= done);
        assert(digits@ == after_lines(lines(text@)).1);
    }
    let bytes = digits.as_str().as_bytes();
    if bytes.len() != 2 * STATIC_KEY_LEN {
        return Err(StaticKeyError::WrongLength(bytes.len()));
    }
    match hex_decode(bytes) {
        Ok(key) => {
            assert(key@.subrange(0, STATIC_KEY_LEN as int) =~= key@);
            Ok(array_at(key.as_slice(), 0))
        },
        Err(_) => Err(StaticKeyError::BadHex),
    }
}

/// A blank line or a comment line anywhere in a key file changes nothing.
pub proof fn law_blank_lines_and_comments(
    before: Seq<Seq<char>>,
    line: Seq<char>,
    after: Seq<Seq<char>>,
)
    requires
        trimmed(line).len() == 0 || trimmed(line)[0] == '#',
    ensures
        after_lines(before.push(line) + after) == after_lines(before + after),
    decreases after.len(),
{
    if after.len() == 0 {
        assert(before.push(line) + after =~= before.push(line));
        assert(before + after =~= before);
        assert(before.push(line).drop_last() =~= before);
        reveal_strlit("-----BEGIN");
        reveal_strlit("-----END");
        let t = trimmed(line);
        if t.len() > 0 {
            assert("-----BEGIN"@[0] == '-');
            assert("-----END"@[0] == '-');
            if "-----BEGIN"@.is_prefix_of(t) {
                assert(t.subrange(0, "-----BEGIN"@.len() as int)[0] == t[0]);
            }
            if "-----END"@.is_prefix_of(t) {
                assert(t.subrange(0, "-----END"@.len() as int)[0] == t[0]);
            }
        }
    } else {
        law_blank_lines_and_comments(before, line, after.drop_last());
        assert((before.push(line) + after).drop_last() =~= before.push(line) + after.drop_last());
        assert((before + after).drop_last() =~= before + after.drop_last());
    }
}

/// Nothing after the end marker, up to another begin marker, is part of the
/// key.
pub proof fn law_nothing_outside_the_markers(state: (bool, Seq<char>), line: Seq<char>)
    requires
        !state.0,
    ensures
        after_line(state, line).1 == state.1,
        after_line(state, line).0 <==> "-----BEGIN"@.is_prefix_of(trimmed(line)),
{
}

/// What a line of a key file does, by what is left of it without the white
/// space around it: a begin marker opens the key, an end marker closes it, a
/// comment or a blank line does nothing, and any other line adds its digits if
/// the key is open.
pub proof fn law_line(inside: bool, digits: Seq<char>, raw: Seq<char>, rest: Seq<char>)
    ensures
        trimmed(raw) == "-----BEGIN"@ + rest ==> after_line((inside, digits), raw) == (true, digits),
        trimmed(raw) == "-----END"@ + rest ==> after_line((inside, digits), raw) == (false, digits),
        trimmed(raw).len() == 0 || trimmed(raw)[0] == '#' ==> after_line((inside, digits), raw) == (
            inside,
            digits,
        ),
        trimmed(raw).len() > 0 && trimmed(raw)[0] != '#' && trimmed(raw)[0] != '-' ==> after_line(
            (inside, digits),
            raw,
        ) == (inside, if inside {
            digits + trimmed(raw)
        } else {
            digits
        }),
{
    let line = trimmed(raw);
    let begin = "-----BEGIN"@;
    let end = "-----END"@;
    reveal_strlit("-----BEGIN");
    reveal_strlit("-----END");
    assert(begin[0] == '-' && end[0] == '-' && begin[5] == 'B' && end[5] == 'E');
    if line == begin + rest {
        assert(line.subrange(0, begin.len() as int) =~= begin);
    }
    if line == end + rest {
        assert(line.subrange(0, end.len() as int) =~= end);
        if begin.is_prefix_of(line) {
            assert(line.subrange(0, begin.len() as int)[5] == line[5]);
        }
    }
    if line.len() > 0 && line[0] != '-' {
        if begin.is_prefix_of(line) {
            assert(line.subrange(0, begin.len() as int)[0] == line[0]);
        }
        if end.is_prefix_of(line) {
            assert(line.subrange(0, end.len() as int)[0] == line[0]);
        }
    }
}

/// Lines count in their order, starting outside the markers.
pub proof fn law_lines_one_by_one(lines: Seq<Seq<char>>, line: Seq<char>)
    ensures
        after_lines(Seq::empty()) == (false, Seq::<char>::empty()),
        after_lines(lines.push(line)) == after_line(after_lines(lines), line),
{
    assert(lines.push(line).drop_last() =~= lines);
}

/// Two digits, of either case, make a byte, the more significant first; there
/// must be exactly 512.
pub proof fn law_key_digits(digits: Seq<char>, key: Seq<u8>, i: int)
    requires
        key_of_digits(digits) == Ok::<Seq<u8>, StaticKeyError>(key),
        0 <= i < 256,
    ensures
        key.len() == 256,
        encode_utf8(digits).len() == 512,
        ({
            let high = encode_utf8(digits)[2 * i] as int;
            let low = encode_utf8(digits)[2 * i + 1] as int;
            let h = key[i] as int / 16;
            let l = key[i] as int % 16;
            &&& h < 10 ==> high == '0' as int + h
            &&& h >= 10 ==> high == 'a' as int + h - 10 || high == 'A' as int + h - 10
            &&& l < 10 ==> low == '0' as int + l
            &&& l >= 10 ==> low == 'a' as int + l - 10 || low == 'A' as int + l - 10
        }),
{
    let b = encode_utf8(digits);
    assert(is_hex(b[2 * i]) && is_hex(b[2 * i + 1]));
}

/// Which texts of digits are no key, and why.
pub proof fn law_key_refusals(digits: Seq<char>)
    ensures
        encode_utf8(digits).len() != 512 ==> key_of_digits(digits) == Err::<
            Seq<u8>,
            StaticKeyError,
        >(StaticKeyError::WrongLength(encode_utf8(digits).len() as usize)),
        encode_utf8(digits).len() == 512 ==> (key_of_digits(digits) is Ok <==> forall|i: int|
            0 <= i < 512 ==> {
                let b = #[trigger] encode_utf8(digits)[i] as int;
                ||| '0' as int <= b <= '9' as int
                ||| 'a' as int <= b <= 'f' as int
                ||| 'A' as int <= b <= 'F' as int
            }),
        encode_utf8(digits).len() == 512 && key_of_digits(digits) is Err ==> key_of_digits(digits)
            == Err::<Seq<u8>, StaticKeyError>(StaticKeyError::BadHex),
{
    let s = encode_utf8(digits);
    if s.len() == 512 {
        if forall|i: int| 0 <= i < s.len() ==> is_hex(#[trigger] s[i]) {
            assert forall|i: int| 0 <= i < 512 implies {
                let b = #[trigger] encode_utf8(digits)[i] as int;
                ||| '0' as int <= b <= '9' as int
                ||| 'a' as int <= b <= 'f' as int
                ||| 'A' as int <= b <= 'F' as int
            } by {
                assert(is_hex(s[i]));
            }
        }
        if key_of_digits(digits) is Err {
            let i = choose|i: int| 0 <= i < s.len() && !is_hex(#[trigger] s[i]);
            let b = encode_utf8(digits)[i] as int;
            assert(!is_hex(s[i]));
        }
    }
}

/// A key file holds the digits of its lines, and nothing of its text besides
/// counts.
pub proof fn law_key_file(text: Seq<char>, begin: Seq<char>, body: Seq<char>, end: Seq<char>)
    requires
        lines(text) == seq![begin, body, end],
        exists|rest: Seq<char>| trimmed(begin) == #[trigger] ("-----BEGIN"@ + rest),
        exists|rest: Seq<char>| trimmed(end) == #[trigger] ("-----END"@ + rest),
        trimmed(body).len() > 0,
        trimmed(body)[0] != '-',
        trimmed(body)[0] != '#',
    ensures
        key_of(text) == key_of_digits(trimmed(body)),
{
    let r1 = choose|rest: Seq<char>| trimmed(begin) == #[trigger] ("-----BEGIN"@ + rest);
    let r2 = choose|rest: Seq<char>| trimmed(end) == #[trigger] ("-----END"@ + rest);
    let e = Seq::<Seq<char>>::empty();
    law_lines_one_by_one(e, begin);
    law_line(false, Seq::empty(), begin, r1);
    law_lines_one_by_one(e.push(begin), body);
    law_line(true, Seq::empty(), body, r1);
    law_lines_one_by_one(e.push(begin).push(body), end);
    law_line(true, Seq::<char>::empty() + trimmed(body), end, r2);
    assert(e.push(begin).push(body).push(end) =~= seq![begin, body, end]);
    assert(Seq::<char>::empty() + trimmed(body) =~= trimmed(body));
}

} // verus!
