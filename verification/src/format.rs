//! Pure message formatting: substitutes the severity, file, line and
//! message placeholders into a user-configured template by literal
//! replacement, each placeholder kind exactly once, left to right.
//!
//! Texts are handled as byte strings: the placeholders are ASCII, and a
//! diagnostic's file name or message may reach the formatter in any
//! encoding.

use vstd::prelude::*;

verus! {

/// Left-to-right, non-overlapping replacement of every occurrence of
/// `from` in `s` by `to`; substituted text is not rescanned.
pub open spec fn replace_spec(s: Seq<u8>, from: Seq<u8>, to: Seq<u8>) -> Seq<u8>
    decreases s.len(),
{
    if s.len() == 0 {
        Seq::empty()
    } else if 1 <= from.len() && from.len() <= s.len() && s.subrange(
        0,
        from.len() as int,
    ) == from {
        to + replace_spec(s.skip(from.len() as int), from, to)
    } else {
        seq![s[0]] + replace_spec(s.skip(1), from, to)
    }
}

/// `pat` occurs in `s` at position `i`.
pub open spec fn contains_at(s: Seq<u8>, i: int, pat: Seq<u8>) -> bool {
    &&& 0 <= i
    &&& i + pat.len() <= s.len()
    &&& s.subrange(i, i + pat.len() as int) == pat
}

/// Tells whether `pat` occurs in `s` at position `i`.
pub(crate) fn matches_at(s: &[u8], i: usize, pat: &[u8]) -> (r: bool)
    requires
        i <= s@.len(),
    ensures
        r == contains_at(s@, i as int, pat@),
{
    if pat.len() > s.len() - i {
        return false;
    }
    proof {
        assert(s@.subrange(i as int, i + pat@.len() as int).len() == pat@.len());
    }
    let mut j: usize = 0;
    while j < pat.len()
        invariant
            i + pat@.len() <= s@.len(),
            s@.len() <= usize::MAX,
            j <= pat@.len(),
            forall|k: int| 0 <= k < j ==> s@[i + k] == pat@[k],
        decreases pat@.len() - j,
    {
        if s[i + j] != pat[j] {
            proof {
                assert(s@.subrange(i as int, i + pat@.len() as int)[j as int] == s@[i + j]);
            }
            return false;
        }
        j = j + 1;
    }
    proof {
        assert(s@.subrange(i as int, i + pat@.len() as int) =~= pat@);
    }
    true
}

/// Appends all of `src` to `out`.
pub(crate) fn push_all(out: &mut Vec<u8>, src: &[u8])
    ensures
        final(out)@ == old(out)@ + src@,
{
    let mut k: usize = 0;
    while k < src.len()
        invariant
            k <= src@.len(),
            out@ == old(out)@ + src@.take(k as int),
        decreases src@.len() - k,
    {
        out.push(src[k]);
        k = k + 1;
        proof {
            assert(old(out)@ + src@.take(k - 1) + seq![src@[k - 1]] =~= old(out)@ + src@.take(
                k as int,
            ));
        }
    }
    proof {
        assert(old(out)@ + src@.take(src@.len() as int) =~= old(out)@ + src@);
    }
}

/// Replaces every occurrence of `from` in `s` by `to`, scanning left to
/// right and never rescanning substituted text.
pub fn replace_all(s: &[u8], from: &[u8], to: &[u8]) -> (r: Vec<u8>)
    requires
        from@.len() >= 1,
    ensures
        r@ == replace_spec(s@, from@, to@),
{
    let mut r: Vec<u8> = Vec::new();
    let mut i: usize = 0;
    proof {
        assert(s@.skip(0) =~= s@);
        assert(Seq::<u8>::empty() + replace_spec(s@, from@, to@) =~= replace_spec(s@, from@, to@));
    }
    while i < s.len()
        invariant
            from@.len() >= 1,
            i <= s@.len(),
            replace_spec(s@, from@, to@) == r@ + replace_spec(s@.skip(i as int), from@, to@),
        decreases s@.len() - i,
    {
        let ghost prev_r = r@;
        let ghost prev_i = i as int;
        if matches_at(s, i, from) {
            push_all(&mut r, to);
            i = i + from.len();
            proof {
                let rest = s@.skip(prev_i);
                assert(rest.subrange(0, from@.len() as int) =~= s@.subrange(
                    prev_i,
                    prev_i + from@.len() as int,
                ));
                assert(rest.skip(from@.len() as int) =~= s@.skip(i as int));
                assert(replace_spec(rest, from@, to@) == to@ + replace_spec(
                    s@.skip(i as int),
                    from@,
                    to@,
                ));
                assert(prev_r + (to@ + replace_spec(s@.skip(i as int), from@, to@)) =~= r@
                    + replace_spec(s@.skip(i as int), from@, to@));
            }
        } else {
            r.push(s[i]);
            i = i + 1;
            proof {
                let rest = s@.skip(prev_i);
                if from@.len() <= rest.len() {
                    assert(rest.subrange(0, from@.len() as int) =~= s@.subrange(
                        prev_i,
                        prev_i + from@.len() as int,
                    ));
                }
                assert(rest[0] == s@[prev_i]);
                assert(rest.skip(1) =~= s@.skip(i as int));
                assert(replace_spec(rest, from@, to@) == seq![s@[prev_i]] + replace_spec(
                    s@.skip(i as int),
                    from@,
                    to@,
                ));
                assert(prev_r + (seq![s@[prev_i]] + replace_spec(s@.skip(i as int), from@, to@))
                    =~= r@ + replace_spec(s@.skip(i as int), from@, to@));
            }
        }
    }
    proof {
        assert(s@.skip(i as int) =~= Seq::<u8>::empty());
        assert(r@ + replace_spec(Seq::<u8>::empty(), from@, to@) =~= r@);
    }
    r
}

/// Decimal digits of `n`, most significant first, no leading zeros
/// (a single `0` for zero).
pub open spec fn dec_digits(n: nat) -> Seq<u8>
    decreases n,
{
    if n < 10 {
        seq![(n + ('0' as u8)) as u8]
    } else {
        dec_digits(n / 10) + seq![((n % 10) + ('0' as u8)) as u8]
    }
}

/// Decimal rendering of a signed value: a minus sign before the digits
/// of the magnitude when negative.
pub open spec fn dec_int(n: int) -> Seq<u8> {
    if n < 0 {
        seq![('-' as u8)] + dec_digits((-n) as nat)
    } else {
        dec_digits(n as nat)
    }
}

/// Appends the decimal digits of `n` to `out`.
fn push_dec_u64(n: u64, out: &mut Vec<u8>)
    ensures
        final(out)@ == old(out)@ + dec_digits(n as nat),
    decreases n,
{
    if n < 10 {
        out.push((n as u8) + ('0' as u8));
        proof {
            assert(old(out)@ + seq![((n as nat) + ('0' as u8)) as u8] =~= out@);
        }
    } else {
        let ghost base = out@;
        push_dec_u64(n / 10, out);
        out.push(((n % 10) as u8) + ('0' as u8));
        proof {
            assert(base + dec_digits((n / 10) as nat) + seq![
                (((n as nat) % 10) + ('0' as u8)) as u8,
            ] =~= base + dec_digits(n as nat));
        }
    }
}

/// Decimal rendering of an unsigned 32-bit value.
pub fn u32_to_dec(n: u32) -> (r: Vec<u8>)
    ensures
        r@ == dec_digits(n as nat),
{
    let mut v: Vec<u8> = Vec::new();
    push_dec_u64(n as u64, &mut v);
    proof {
        assert(Seq::<u8>::empty() + dec_digits(n as nat) =~= dec_digits(n as nat));
    }
    v
}

/// Decimal rendering of a signed 32-bit value.
pub fn i32_to_dec(n: i32) -> (r: Vec<u8>)
    ensures
        r@ == dec_int(n as int),
{
    let mut v: Vec<u8> = Vec::new();
    if n < 0 {
        v.push('-' as u8);
        let m: u64 = (-(n as i64)) as u64;
        push_dec_u64(m, &mut v);
        proof {
            assert(m == -(n as int));
            assert(Seq::<u8>::empty() + seq![('-' as u8)] + dec_digits((-(n as int)) as nat)
                =~= dec_int(n as int));
        }
    } else {
        push_dec_u64(n as u64, &mut v);
        proof {
            assert(Seq::<u8>::empty() + dec_digits(n as nat) =~= dec_int(n as int));
        }
    }
    v
}

/// The severity placeholder, `{type}`.
pub open spec fn type_token() -> Seq<u8> {
    seq![('{' as u8), ('t' as u8), ('y' as u8), ('p' as u8), ('e' as u8), ('}' as u8)]
}

/// The source-file placeholder, `{file}`.
pub open spec fn file_token() -> Seq<u8> {
    seq![('{' as u8), ('f' as u8), ('i' as u8), ('l' as u8), ('e' as u8), ('}' as u8)]
}

/// The source-line placeholder, `{line}`.
pub open spec fn line_token() -> Seq<u8> {
    seq![('{' as u8), ('l' as u8), ('i' as u8), ('n' as u8), ('e' as u8), ('}' as u8)]
}

/// The message placeholder, `{message}`.
pub open spec fn message_token() -> Seq<u8> {
    seq![
        ('{' as u8),
        ('m' as u8),
        ('e' as u8),
        ('s' as u8),
        ('s' as u8),
        ('a' as u8),
        ('g' as u8),
        ('e' as u8),
        ('}' as u8),
    ]
}

/// The severity placeholder, `{type}`, as bytes.
fn token_type() -> (r: Vec<u8>)
    ensures
        r@ == type_token(),
{
    let mut t: Vec<u8> = Vec::new();
    t.push('{' as u8);
    t.push('t' as u8);
    t.push('y' as u8);
    t.push('p' as u8);
    t.push('e' as u8);
    t.push('}' as u8);
    proof {
        assert(t@ =~= type_token());
    }
    t
}

/// The source-file placeholder, `{file}`, as bytes.
fn token_file() -> (r: Vec<u8>)
    ensures
        r@ == file_token(),
{
    let mut t: Vec<u8> = Vec::new();
    t.push('{' as u8);
    t.push('f' as u8);
    t.push('i' as u8);
    t.push('l' as u8);
    t.push('e' as u8);
    t.push('}' as u8);
    proof {
        assert(t@ =~= file_token());
    }
    t
}

/// The source-line placeholder, `{line}`, as bytes.
fn token_line() -> (r: Vec<u8>)
    ensures
        r@ == line_token(),
{
    let mut t: Vec<u8> = Vec::new();
    t.push('{' as u8);
    t.push('l' as u8);
    t.push('i' as u8);
    t.push('n' as u8);
    t.push('e' as u8);
    t.push('}' as u8);
    proof {
        assert(t@ =~= line_token());
    }
    t
}

/// The message placeholder, `{message}`, as bytes.
fn token_message() -> (r: Vec<u8>)
    ensures
        r@ == message_token(),
{
    let mut t: Vec<u8> = Vec::new();
    t.push('{' as u8);
    t.push('m' as u8);
    t.push('e' as u8);
    t.push('s' as u8);
    t.push('s' as u8);
    t.push('a' as u8);
    t.push('g' as u8);
    t.push('e' as u8);
    t.push('}' as u8);
    proof {
        assert(t@ =~= message_token());
    }
    t
}

/// The fully formatted message: the template with the severity, file,
/// line and message placeholders each substituted once, in that order
/// of kinds; a substituted field is rescanned by the later kinds.
pub open spec fn format_spec(
    template: Seq<u8>,
    severity: int,
    file: Seq<u8>,
    line: nat,
    message: Seq<u8>,
) -> Seq<u8> {
    let with_type = replace_spec(template, type_token(), dec_int(severity));
    let with_file = replace_spec(with_type, file_token(), file);
    let with_line = replace_spec(with_file, line_token(), dec_digits(line));
    replace_spec(with_line, message_token(), message)
}

/// Substitutes the four diagnostic fields into `template`: `{type}`
/// and `{line}` in decimal, `{file}` and `{message}` verbatim.
pub fn format_message(
    template: &[u8],
    severity: i32,
    file: &[u8],
    line: u32,
    message: &[u8],
) -> (r: Vec<u8>)
    ensures
        r@ == format_spec(template@, severity as int, file@, line as nat, message@),
{
    let sev = i32_to_dec(severity);
    let ln = u32_to_dec(line);
    let with_type = replace_all(template, token_type().as_slice(), sev.as_slice());
    let with_file = replace_all(with_type.as_slice(), token_file().as_slice(), file);
    let with_line = replace_all(with_file.as_slice(), token_line().as_slice(), ln.as_slice());
    replace_all(with_line.as_slice(), token_message().as_slice(), message)
}

} // verus!
