//! Parses the host runtime's introspection output: a block of
//! `key => value` lines from which the build reads the runtime's API
//! identifier as an unsigned decimal integer.

use vstd::prelude::*;
use crate::format::contains_at;
use crate::format::matches_at;
use crate::format::push_all;

verus! {

/// First position at which `pat` occurs in `s`.
pub open spec fn find_spec(s: Seq<u8>, pat: Seq<u8>) -> Option<int>
    decreases s.len(),
{
    if contains_at(s, 0, pat) {
        Some(0int)
    } else if s.len() == 0 {
        None
    } else {
        match find_spec(s.skip(1), pat) {
            None => None,
            Some(i) => Some(i + 1),
        }
    }
}

/// `find_spec` names exactly the first occurrence: the position it
/// yields holds `pat`, no earlier one does, and it yields a position
/// whenever one exists.
pub proof fn lemma_find_spec_first(s: Seq<u8>, pat: Seq<u8>)
    ensures
        match find_spec(s, pat) {
            Some(i) => 0 <= i && contains_at(s, i, pat) && forall|j: int|
                0 <= j < i ==> !contains_at(s, j, pat),
            None => forall|j: int| !contains_at(s, j, pat),
        },
    decreases s.len(),
{
    if contains_at(s, 0, pat) {
    } else if s.len() == 0 {
    } else {
        lemma_find_spec_first(s.skip(1), pat);
        assert forall|j: int| 1 <= j implies contains_at(s, j, pat) == contains_at(
            s.skip(1),
            j - 1,
            pat,
        ) by {
            if 1 <= j && j + pat.len() <= s.len() {
                assert(s.subrange(j, j + pat.len() as int) =~= s.skip(1).subrange(
                    j - 1,
                    j - 1 + pat.len() as int,
                ));
            }
        };
    }
}

/// First position at which `pat` occurs in `s`, if any.
pub fn find(s: &[u8], pat: &[u8]) -> (r: Option<usize>)
    ensures
        match r {
            Some(i) => find_spec(s@, pat@) == Some(i as int),
            None => find_spec(s@, pat@) is None,
        },
{
    proof {
        lemma_find_spec_first(s@, pat@);
    }
    if pat.len() > s.len() {
        proof {
            match find_spec(s@, pat@) {
                Some(k) => {
                    assert(contains_at(s@, k, pat@));
                    assert(false);
                },
                None => {},
            }
        }
        return None;
    }
    let last = s.len() - pat.len();
    let mut i: usize = 0;
    while i <= last
        invariant
            pat@.len() <= s@.len(),
            s@.len() <= usize::MAX,
            last == s@.len() - pat@.len(),
            i <= last + 1,
            forall|j: int| 0 <= j < i ==> !contains_at(s@, j, pat@),
        decreases last + 1 - i,
    {
        if matches_at(s, i, pat) {
            proof {
                lemma_find_spec_first(s@, pat@);
                match find_spec(s@, pat@) {
                    None => {
                        assert(contains_at(s@, i as int, pat@));
                        assert(false);
                    },
                    Some(k) => {
                        if k < i {
                            assert(!contains_at(s@, k, pat@));
                        } else if k > i {
                            assert(!contains_at(s@, i as int, pat@));
                        }
                    },
                }
            }
            return Some(i);
        }
        proof {
            if pat@.len() == 0 {
                assert(s@.subrange(i as int, i as int) =~= pat@);
                assert(contains_at(s@, i as int, pat@));
            }
        }
        i = i + 1;
    }
    proof {
        lemma_find_spec_first(s@, pat@);
        match find_spec(s@, pat@) {
            Some(k) => {
                assert(contains_at(s@, k, pat@));
                assert(k > last);
                assert(k + pat@.len() > s@.len());
                assert(false);
            },
            None => {},
        }
    }
    None
}

/// A byte is an ASCII decimal digit.
pub open spec fn is_ascii_digit(b: u8) -> bool {
    ('0' as u8) <= b <= ('9' as u8)
}

/// The number that a digit string denotes in decimal.
pub open spec fn digits_val(s: Seq<u8>) -> nat
    decreases s.len(),
{
    if s.len() == 0 {
        0
    } else {
        (digits_val(s.drop_last()) * 10 + (s.last() - ('0' as u8))) as nat
    }
}

/// The digits after an optional leading plus sign.
pub open spec fn unsigned_body(s: Seq<u8>) -> Seq<u8> {
    if s.len() > 0 && s[0] == ('+' as u8) {
        s.skip(1)
    } else {
        s
    }
}

/// `s` parses as an unsigned 32-bit decimal: an optional leading plus,
/// then one or more digits whose value fits.
pub open spec fn parses_as_u32(s: Seq<u8>) -> bool {
    let t = unsigned_body(s);
    &&& t.len() > 0
    &&& forall|i: int| 0 <= i < t.len() ==> is_ascii_digit(#[trigger] t[i])
    &&& digits_val(t) <= u32::MAX
}

/// Extending a digit string to the right never shrinks its value.
proof fn lemma_digits_val_monotonic(s: Seq<u8>, m: int)
    requires
        0 <= m <= s.len(),
        forall|k: int| m <= k < s.len() ==> is_ascii_digit(#[trigger] s[k]),
    ensures
        digits_val(s) >= digits_val(s.take(m)),
    decreases s.len() - m,
{
    if m == s.len() {
        assert(s.take(m) =~= s);
    } else {
        let shorter = s.drop_last();
        assert(shorter =~= s.take(s.len() - 1));
        lemma_digits_val_monotonic(shorter, m);
        assert(shorter.take(m) =~= s.take(m));
        assert(s.last() >= ('0' as u8));
        assert(digits_val(s) >= digits_val(shorter));
    }
}

/// Parses `s` as an unsigned 32-bit decimal; anything else — an empty
/// digit part, a non-digit byte, or a value over `u32::MAX` — is
/// rejected.
pub fn parse_u32(s: &[u8]) -> (r: Option<u32>)
    ensures
        r is Some <==> parses_as_u32(s@),
        r matches Some(n) ==> n == digits_val(unsigned_body(s@)),
{
    let ghost t = unsigned_body(s@);
    let mut i: usize = 0;
    if s.len() > 0 && s[0] == ('+' as u8) {
        i = 1;
    }
    proof {
        assert(t =~= s@.skip(i as int));
    }
    if i == s.len() {
        return None;
    }
    let start = i;
    let mut acc: u32 = 0;
    let mut j: usize = i;
    while j < s.len()
        invariant
            t == unsigned_body(s@),
            t =~= s@.skip(start as int),
            start <= j <= s@.len(),
            s@.len() <= usize::MAX,
            start < s@.len(),
            forall|k: int| start <= k < j ==> is_ascii_digit(#[trigger] s@[k]),
            acc == digits_val(t.take(j - start)),
        decreases s@.len() - j,
    {
        let b = s[j];
        if b < ('0' as u8) || b > ('9' as u8) {
            proof {
                assert(t[j - start] == s@[j as int]);
                assert(!parses_as_u32(s@));
            }
            return None;
        }
        let d: u32 = (b - ('0' as u8)) as u32;
        let next: u64 = acc as u64 * 10 + d as u64;
        proof {
            let p = j - start + 1;
            assert(t.take(p).drop_last() =~= t.take(p - 1));
            assert(t.take(p).last() == s@[j as int]);
            assert(digits_val(t.take(p)) == acc * 10 + d);
        }
        if next > (u32::MAX as u64) {
            proof {
                if forall|k: int| j < k < s@.len() ==> is_ascii_digit(#[trigger] s@[k]) {
                    assert(forall|k: int| j - start + 1 <= k < t.len() ==> is_ascii_digit(
                        #[trigger] t[k],
                    ));
                    lemma_digits_val_monotonic(t, j - start + 1);
                    assert(digits_val(t) > u32::MAX);
                } else {
                    let k = choose|k: int| j < k < s@.len() && !is_ascii_digit(#[trigger] s@[k]);
                    assert(t[k - start] == s@[k]);
                    assert(!parses_as_u32(s@));
                }
            }
            return None;
        }
        acc = next as u32;
        j = j + 1;
    }
    proof {
        assert(t.take(j - start) =~= t);
    }
    Some(acc)
}

/// A line body with one carriage return stripped from its end.
pub open spec fn strip_cr(l: Seq<u8>) -> Seq<u8> {
    if l.len() > 0 && l.last() == ('\r' as u8) {
        l.drop_last()
    } else {
        l
    }
}

/// The lines of `s`: split at each newline byte, a carriage return
/// just before the newline stripped; a trailing run without a newline
/// is kept whole, and a trailing newline opens no empty line.
pub open spec fn lines_spec(s: Seq<u8>) -> Seq<Seq<u8>>
    decreases s.len(),
{
    if s.len() == 0 {
        Seq::empty()
    } else {
        match find_spec(s, seq![('\n' as u8)]) {
            None => seq![s],
            // A found position always lies inside `s`; the bound only
            // keeps the recursion well-founded on its face.
            Some(i) => if 0 <= i < s.len() {
                seq![strip_cr(s.take(i))] + lines_spec(s.skip(i + 1))
            } else {
                seq![s]
            },
        }
    }
}

/// Splits `s` into its lines.
pub fn split_lines(s: &[u8]) -> (r: Vec<Vec<u8>>)
    ensures
        r.deep_view() == lines_spec(s@),
{
    let mut r: Vec<Vec<u8>> = Vec::new();
    let mut nl: Vec<u8> = Vec::new();
    nl.push('\n' as u8);
    let mut pos: usize = 0;
    let slen: usize = s.len();
    proof {
        assert(s@.skip(0) =~= s@);
        assert(Seq::<Seq<u8>>::empty() + lines_spec(s@) =~= lines_spec(s@));
    }
    while pos < slen
        invariant
            pos <= s@.len(),
            slen == s@.len(),
            nl@ =~= seq![('\n' as u8)],
            lines_spec(s@) == r.deep_view() + lines_spec(s@.skip(pos as int)),
        decreases s@.len() - pos,
    {
        let ghost prev = r.deep_view();
        let ghost rest = s@.skip(pos as int);
        match find(&s[pos..s.len()], nl.as_slice()) {
            Some(k) => {
                proof {
                    lemma_find_spec_first(rest, nl@);
                    assert(contains_at(rest, k as int, nl@));
                }
                let endb: usize = if k > 0 && s[pos + k - 1] == ('\r' as u8) {
                    pos + k - 1
                } else {
                    pos + k
                };
                let mut line: Vec<u8> = Vec::new();
                push_all(&mut line, &s[pos..endb]);
                r.push(line);
                pos = pos + k + 1;
                proof {
                    assert(rest.take(k as int) =~= s@.subrange(pos - k - 1, pos - 1));
                    assert(line@ =~= strip_cr(rest.take(k as int)));
                    assert(rest.skip(k + 1) =~= s@.skip(pos as int));
                    assert(lines_spec(rest) == seq![line@] + lines_spec(s@.skip(pos as int)));
                    assert(r.deep_view() =~~= prev + seq![line@]);
                    assert(prev + (seq![line@] + lines_spec(s@.skip(pos as int))) =~~= r.deep_view()
                        + lines_spec(s@.skip(pos as int)));
                }
            },
            None => {
                let mut line: Vec<u8> = Vec::new();
                push_all(&mut line, &s[pos..s.len()]);
                r.push(line);
                pos = s.len();
                proof {
                    assert(line@ =~= rest);
                    assert(lines_spec(rest) == seq![line@]);
                    assert(s@.skip(pos as int) =~= Seq::<u8>::empty());
                    assert(r.deep_view() =~~= prev + seq![line@]);
                    assert(prev + (seq![line@] + lines_spec(s@.skip(pos as int))) =~~= r.deep_view()
                        + lines_spec(s@.skip(pos as int)));
                    assert(seq![line@] + lines_spec(s@.skip(pos as int)) =~~= seq![line@]);
                }
            },
        }
    }
    proof {
        assert(s@.skip(pos as int) =~= Seq::<u8>::empty());
        assert(r.deep_view() + lines_spec(Seq::<u8>::empty()) =~~= r.deep_view());
    }
    r
}

/// The value part of `line` for `pat`: the text between the first
/// occurrence of `pat` and the next occurrence or the end of the line.
pub open spec fn line_value(line: Seq<u8>, pat: Seq<u8>) -> Option<Seq<u8>> {
    match find_spec(line, pat) {
        None => None,
        Some(i) => {
            let rest = line.skip(i + pat.len() as int);
            match find_spec(rest, pat) {
                None => Some(rest),
                Some(j) => Some(rest.take(j)),
            }
        },
    }
}

/// The value of the first line that carries one, lines in order.
pub open spec fn get_key_spec(ls: Seq<Seq<u8>>, pat: Seq<u8>) -> Option<Seq<u8>>
    decreases ls.len(),
{
    if ls.len() == 0 {
        None
    } else {
        match line_value(ls[0], pat) {
            Some(v) => Some(v),
            None => get_key_spec(ls.skip(1), pat),
        }
    }
}

/// The marker that introduces `key`'s value on its line: the key
/// followed by an arrow separator.
pub open spec fn key_pattern(key: Seq<u8>) -> Seq<u8> {
    key + seq![(' ' as u8), ('=' as u8), ('>' as u8), (' ' as u8)]
}

/// Builds the `key => ` marker.
fn build_pattern(key: &[u8]) -> (r: Vec<u8>)
    ensures
        r@ == key_pattern(key@),
{
    let mut p: Vec<u8> = Vec::new();
    push_all(&mut p, key);
    p.push(' ' as u8);
    p.push('=' as u8);
    p.push('>' as u8);
    p.push(' ' as u8);
    proof {
        assert(p@ =~= key_pattern(key@));
    }
    p
}

/// Looks `key` up in the introspection text: scans the lines in order
/// for the first that contains the `key => ` marker and yields the
/// text between that marker and its next occurrence or the line's end.
pub fn get_key(info: &[u8], key: &[u8]) -> (r: Option<Vec<u8>>)
    ensures
        match r {
            Some(v) => get_key_spec(lines_spec(info@), key_pattern(key@)) == Some(v@),
            None => get_key_spec(lines_spec(info@), key_pattern(key@)) is None,
        },
{
    let pat = build_pattern(key);
    let lines = split_lines(info);
    let ghost ls = lines_spec(info@);
    let mut idx: usize = 0;
    proof {
        assert(ls.skip(0) =~= ls);
    }
    while idx < lines.len()
        invariant
            ls == lines_spec(info@),
            lines.deep_view() == ls,
            pat@ == key_pattern(key@),
            idx <= lines@.len(),
            get_key_spec(ls, pat@) == get_key_spec(ls.skip(idx as int), pat@),
        decreases lines@.len() - idx,
    {
        let line: &Vec<u8> = &lines[idx];
        proof {
            assert(ls[idx as int] == lines@[idx as int].deep_view());
            assert(lines@[idx as int].deep_view() =~= lines@[idx as int]@);
            assert(ls[idx as int] == line@);
            assert(ls.skip(idx as int)[0] == ls[idx as int]);
        }
        match find(line.as_slice(), pat.as_slice()) {
            Some(i) => {
                let llen = line.len();
                proof {
                    lemma_find_spec_first(line@, pat@);
                    assert(contains_at(line@, i as int, pat@));
                }
                let rest_start = i + pat.len();
                let rest = &line.as_slice()[rest_start..llen];
                proof {
                    assert(rest@ =~= line@.skip(i + pat@.len() as int));
                }
                let mut value: Vec<u8> = Vec::new();
                match find(rest, pat.as_slice()) {
                    None => {
                        push_all(&mut value, rest);
                        proof {
                            assert(value@ =~= rest@);
                        }
                    },
                    Some(j) => {
                        proof {
                            lemma_find_spec_first(rest@, pat@);
                            assert(contains_at(rest@, j as int, pat@));
                        }
                        push_all(&mut value, &rest[0..j]);
                        proof {
                            assert(value@ =~= rest@.take(j as int));
                        }
                    },
                }
                proof {
                    assert(line_value(ls[idx as int], pat@) == Some(value@));
                    assert(get_key_spec(ls.skip(idx as int), pat@) == Some(value@));
                }
                return Some(value);
            },
            None => {
                proof {
                    assert(line_value(ls[idx as int], pat@) is None);
                    assert(ls.skip(idx as int).skip(1) =~= ls.skip(idx + 1));
                }
                idx = idx + 1;
            },
        }
    }
    proof {
        assert(ls.skip(idx as int) =~= Seq::<Seq<u8>>::empty());
    }
    None
}

/// Why the API identifier could not be read from the introspection
/// text.
#[derive(Clone, Copy, Debug, PartialEq, Eq, Structural)]
pub enum InfoError {
    /// No line carries the key.
    KeyMissing,
    /// The key's value is not an unsigned 32-bit decimal.
    NotAnInteger,
}

/// The introspection key whose value is the API identifier.
pub open spec fn api_key() -> Seq<u8> {
    seq![
        ('P' as u8),
        ('H' as u8),
        ('P' as u8),
        (' ' as u8),
        ('A' as u8),
        ('P' as u8),
        ('I' as u8),
    ]
}

/// The introspection key whose value is the API identifier, as bytes.
fn api_key_bytes() -> (r: Vec<u8>)
    ensures
        r@ == api_key(),
{
    let mut k: Vec<u8> = Vec::new();
    k.push('P' as u8);
    k.push('H' as u8);
    k.push('P' as u8);
    k.push(' ' as u8);
    k.push('A' as u8);
    k.push('P' as u8);
    k.push('I' as u8);
    proof {
        assert(k@ =~= api_key());
    }
    k
}

/// Reads the host runtime's API identifier out of its introspection
/// text: the `PHP API` key's value, parsed as an unsigned decimal.
/// A missing key and an unparseable value are distinct failures.
pub fn zend_version(info: &[u8]) -> (r: Result<u32, InfoError>)
    ensures
        ({
            let v = get_key_spec(lines_spec(info@), key_pattern(api_key()));
            match r {
                Ok(n) => v is Some && parses_as_u32(v->0) && n == digits_val(unsigned_body(v->0)),
                Err(InfoError::KeyMissing) => v is None,
                Err(InfoError::NotAnInteger) => v is Some && !parses_as_u32(v->0),
            }
        }),
{
    let key = api_key_bytes();
    match get_key(info, key.as_slice()) {
        None => Err(InfoError::KeyMissing),
        Some(v) => match parse_u32(v.as_slice()) {
            Some(n) => Ok(n),
            None => Err(InfoError::NotAnInteger),
        },
    }
}

} // verus!
