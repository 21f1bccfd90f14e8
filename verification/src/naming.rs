//! The names that resources get inside the archive.
//!
//! A resource is named after the reference that led to it: sixteen hexadecimal
//! digits, the 64-bit FNV-1a hash of the reference as UTF-8, and the extension
//! of the reference where it has one made of ASCII letters and digits. The
//! name depends on nothing else, so it is the same in every build.

use vstd::prelude::*;
use vstd::utf8::encode_utf8;
use crate::text::{chars_of, string_of};

verus! {

/// The value that the FNV-1a hash starts from.
pub const FNV_OFFSET: u64 = 0xcbf29ce484222325;

/// The number that the FNV-1a hash multiplies by.
pub const FNV_PRIME: u64 = 0x100000001b3;

/// The 64-bit FNV-1a hash of `bytes`.
pub open spec fn fnv1a(bytes: Seq<u8>) -> u64
    decreases bytes.len(),
{
    if bytes.len() == 0 {
        FNV_OFFSET
    } else {
        (fnv1a(bytes.drop_last()) ^ (bytes.last() as u64)).wrapping_mul(FNV_PRIME)
    }
}

/// The hexadecimal digit of value `n`, in lower case.
pub open spec fn hex_digit(n: int) -> char {
    if 0 <= n < 10 {
        (48 + n) as char
    } else {
        (87 + n) as char
    }
}

/// The last `count` hexadecimal digits of `value`, the highest first.
pub open spec fn hex_digits(value: nat, count: nat) -> Seq<char>
    decreases count,
{
    if count == 0 {
        Seq::empty()
    } else {
        hex_digits(value / 16, (count - 1) as nat).push(hex_digit((value % 16) as int))
    }
}

/// Where the segment that ends at `end` begins: right after the nearest `/`
/// before `end`, or at 0.
pub open spec fn segment_start(path: Seq<char>, end: int) -> int
    decreases end,
{
    if end <= 0 {
        0
    } else if path[end - 1] == '/' {
        end
    } else {
        segment_start(path, end - 1)
    }
}

/// The index of the last `.` in `path[start..end]`, or -1.
pub open spec fn last_dot(path: Seq<char>, start: int, end: int) -> int
    decreases end - start,
{
    if end <= start {
        -1
    } else if path[end - 1] == '.' {
        end - 1
    } else {
        last_dot(path, start, end - 1)
    }
}

/// Whether `c` is an ASCII letter.
pub open spec fn is_ascii_letter(c: char) -> bool {
    ('a' <= c && c <= 'z') || ('A' <= c && c <= 'Z')
}

/// Whether `c` is an ASCII letter or digit.
pub open spec fn is_ascii_alphanumeric(c: char) -> bool {
    is_ascii_letter(c) || ('0' <= c && c <= '9')
}

/// Whether `c` may stand in the scheme of a URL after its first letter.
pub open spec fn is_scheme_char(c: char) -> bool {
    is_ascii_alphanumeric(c) || c == '+' || c == '-' || c == '.'
}

/// Where the `:` stands that ends a run of scheme characters from `start`
/// on, or -1.
pub open spec fn scheme_end_from(reference: Seq<char>, start: int) -> int
    decreases reference.len() - start,
{
    if start < 0 || start >= reference.len() {
        -1
    } else if reference[start] == ':' {
        start
    } else if is_scheme_char(reference[start]) {
        scheme_end_from(reference, start + 1)
    } else {
        -1
    }
}

/// Where the `:` stands that ends the scheme of `reference`, or -1 where
/// `reference` does not start with a scheme.
pub open spec fn scheme_end(reference: Seq<char>) -> int {
    if reference.len() > 0 && is_ascii_letter(reference[0]) {
        scheme_end_from(reference, 1)
    } else {
        -1
    }
}

/// Whether `reference` is a URL: a letter, then letters, digits, `+`, `-` or
/// `.`, then `:`. Any other reference is a path.
pub open spec fn is_remote(reference: Seq<char>) -> bool {
    scheme_end(reference) >= 1
}

/// The first index from `start` on at which `reference` holds `c`, or its
/// length.
pub open spec fn first_from(reference: Seq<char>, c: char, start: int) -> int
    decreases reference.len() - start,
{
    if start < 0 || start >= reference.len() {
        reference.len() as int
    } else if reference[start] == c {
        start
    } else {
        first_from(reference, c, start + 1)
    }
}

/// Where the path of `reference` ends: at its first `?` or `#`.
pub open spec fn path_end(reference: Seq<char>) -> int {
    let query = first_from(reference, '?', 0);
    let fragment = first_from(reference, '#', 0);
    if query <= fragment {
        query
    } else {
        fragment
    }
}

/// Where the path of `reference` starts: at 0 for a path; for a URL after the
/// scheme, and after the host where `//` follows the scheme.
pub open spec fn path_start(reference: Seq<char>) -> int {
    let colon = scheme_end(reference);
    if colon < 1 {
        0
    } else if colon + 2 < reference.len() && reference[colon + 1] == '/' && reference[colon + 2]
        == '/' {
        first_from(reference, '/', colon + 3)
    } else {
        colon + 1
    }
}

/// Whether `reference[from..to]` holds ASCII letters and digits only.
pub open spec fn all_alphanumeric(reference: Seq<char>, from: int, to: int) -> bool {
    forall|i: int| from <= i < to ==> is_ascii_alphanumeric(#[trigger] reference[i])
}

/// Where the extension of `reference` starts, or -1: after the last `.` of the
/// last segment of its path, where that `.` does not open the segment and
/// letters and digits, at least one, follow it up to the end of the path.
pub open spec fn extension_start(reference: Seq<char>) -> int {
    let end = path_end(reference);
    let floor = path_start(reference);
    if floor >= end {
        -1
    } else {
        let segment = segment_start(reference, end);
        let start = if segment < floor {
            floor
        } else {
            segment
        };
        let dot = last_dot(reference, start, end);
        if dot > start && dot + 1 < end && all_alphanumeric(reference, dot + 1, end) {
            dot + 1
        } else {
            -1
        }
    }
}

/// The extension of `reference`, empty where it has none.
pub open spec fn reference_extension(reference: Seq<char>) -> Seq<char> {
    if extension_start(reference) < 0 {
        Seq::empty()
    } else {
        reference.subrange(extension_start(reference), path_end(reference))
    }
}

/// The name in the archive of the resource that `reference` leads to.
pub open spec fn asset_filename(reference: Seq<char>) -> Seq<char> {
    let stem = hex_digits(fnv1a(encode_utf8(reference)) as nat, 16);
    if reference_extension(reference).len() == 0 {
        stem
    } else {
        stem.push('.') + reference_extension(reference)
    }
}

/// Hashes `bytes` with 64-bit FNV-1a.
pub fn hash_bytes(bytes: &[u8]) -> (hash: u64)
    ensures
        hash == fnv1a(bytes@),
{
    let mut hash: u64 = FNV_OFFSET;
    let mut i: usize = 0;
    assert(bytes@.take(0) == Seq::<u8>::empty());
    while i < bytes.len()
        invariant
            i <= bytes.len(),
            hash == fnv1a(bytes@.take(i as int)),
        decreases bytes.len() - i,
    {
        assert(bytes@.take(i + 1).drop_last() == bytes@.take(i as int));
        assert(bytes@.take(i + 1).last() == bytes@[i as int]);
        hash = (hash ^ (bytes[i] as u64)).wrapping_mul(FNV_PRIME);
        i = i + 1;
    }
    assert(bytes@.take(bytes.len() as int) == bytes@);
    hash
}

fn hex_char(n: u8) -> (c: char)
    requires
        n < 16,
    ensures
        c == hex_digit(n as int),
{
    if n < 10 {
        (48 + n) as char
    } else {
        (87 + n) as char
    }
}

/// Appends the last `count` hexadecimal digits of `value` to `out`.
pub fn push_hex(out: &mut Vec<char>, value: u64, count: usize)
    ensures
        final(out)@ == old(out)@ + hex_digits(value as nat, count as nat),
    decreases count,
{
    if count > 0 {
        push_hex(out, value / 16, count - 1);
        out.push(hex_char((value % 16) as u8));
        assert(out@ == old(out)@ + hex_digits(value as nat, count as nat));
    } else {
        assert(out@ == old(out)@ + Seq::<char>::empty());
    }
}

fn is_letter(c: char) -> (r: bool)
    ensures
        r == is_ascii_letter(c),
{
    ('a' <= c && c <= 'z') || ('A' <= c && c <= 'Z')
}

fn is_alphanumeric(c: char) -> (r: bool)
    ensures
        r == is_ascii_alphanumeric(c),
{
    is_letter(c) || ('0' <= c && c <= '9')
}

fn find_first(chars: &Vec<char>, c: char, start: usize) -> (at: usize)
    requires
        start <= chars.len(),
    ensures
        at == first_from(chars@, c, start as int),
        start <= at <= chars.len(),
{
    let mut i: usize = start;
    while i < chars.len() && chars[i] != c
        invariant
            start <= i <= chars.len(),
            first_from(chars@, c, start as int) == first_from(chars@, c, i as int),
        decreases chars.len() - i,
    {
        i = i + 1;
    }
    i
}

fn find_scheme_end(chars: &Vec<char>) -> (colon: Option<usize>)
    ensures
        match colon {
            Some(at) => scheme_end(chars@) == at && 1 <= at < chars.len(),
            None => scheme_end(chars@) < 1,
        },
{
    if chars.len() == 0 || !is_letter(chars[0]) {
        return None;
    }
    let mut i: usize = 1;
    while i < chars.len() && chars[i] != ':' && (is_alphanumeric(chars[i]) || chars[i] == '+'
        || chars[i] == '-' || chars[i] == '.')
        invariant
            1 <= i <= chars.len(),
            scheme_end(chars@) == scheme_end_from(chars@, i as int),
        decreases chars.len() - i,
    {
        i = i + 1;
    }
    if i < chars.len() && chars[i] == ':' {
        Some(i)
    } else {
        None
    }
}

/// Tells whether `reference` is a URL rather than a path.
pub fn reference_is_remote(reference: &str) -> (remote: bool)
    ensures
        remote == is_remote(reference@),
{
    let chars = chars_of(reference);
    find_scheme_end(&chars).is_some()
}

fn find_extension_start(chars: &Vec<char>) -> (start: Option<usize>)
    ensures
        match start {
            Some(at) => extension_start(chars@) == at && at < path_end(chars@) <= chars.len(),
            None => extension_start(chars@) < 0,
        },
{
    let query = find_first(chars, '?', 0);
    let fragment = find_first(chars, '#', 0);
    let end = if query <= fragment {
        query
    } else {
        fragment
    };
    let floor = match find_scheme_end(chars) {
        None => 0,
        Some(colon) => {
            if chars.len() - colon > 2 && chars[colon + 1] == '/' && chars[colon + 2] == '/' {
                find_first(chars, '/', colon + 3)
            } else {
                colon + 1
            }
        },
    };
    if floor >= end {
        return None;
    }
    let mut segment: usize = end;
    while segment > 0 && chars[segment - 1] != '/'
        invariant
            segment <= end <= chars.len(),
            segment_start(chars@, end as int) == segment_start(chars@, segment as int),
        decreases segment,
    {
        segment = segment - 1;
    }
    let start = if segment < floor {
        floor
    } else {
        segment
    };
    let mut dot: usize = end;
    let mut clean = true;
    while dot > start && chars[dot - 1] != '.'
        invariant
            start <= dot <= end <= chars.len(),
            last_dot(chars@, start as int, end as int) == last_dot(chars@, start as int, dot as int),
            clean == all_alphanumeric(chars@, dot as int, end as int),
        decreases dot,
    {
        dot = dot - 1;
        if !is_alphanumeric(chars[dot]) {
            clean = false;
        }
    }
    if dot >= 1 && dot - 1 > start && dot < end && clean {
        Some(dot)
    } else {
        None
    }
}

/// Names the resource that `reference` leads to.
pub fn name_asset(reference: &str) -> (name: String)
    ensures
        name@ == asset_filename(reference@),
{
    let chars = chars_of(reference);
    let mut name: Vec<char> = Vec::new();
    push_hex(&mut name, hash_bytes(reference.as_bytes()), 16);
    match find_extension_start(&chars) {
        None => {},
        Some(start) => {
            let ghost stem = name@;
            let end = path_end_of(&chars);
            name.push('.');
            let mut i: usize = start;
            while i < end
                invariant
                    start <= i <= end <= chars.len(),
                    name@ == stem.push('.') + chars@.subrange(start as int, i as int),
                decreases end - i,
            {
                name.push(chars[i]);
                i = i + 1;
                assert(chars@.subrange(start as int, i as int) == chars@.subrange(
                    start as int,
                    i - 1,
                ).push(chars@[i - 1]));
            }
        },
    }
    string_of(&name)
}

fn path_end_of(chars: &Vec<char>) -> (end: usize)
    ensures
        end == path_end(chars@),
        end <= chars.len(),
{
    let query = find_first(chars, '?', 0);
    let fragment = find_first(chars, '#', 0);
    if query <= fragment {
        query
    } else {
        fragment
    }
}

} // verus!
