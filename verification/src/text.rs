//! Byte-level text helpers for block, item and property names.
//!
//! Names are compared by their UTF-8 bytes, as `str::ends_with`,
//! `str::strip_prefix` and `==` on `str` do.

use vstd::prelude::*;
use vstd::string::StringSliceAdditionalSpecFns;

verus! {

/// The UTF-8 bytes of a string slice.
pub open spec fn bytes(s: &str) -> Seq<u8> {
    s.spec_bytes()
}

/// Whether `s` starts with `prefix`.
pub open spec fn starts_with(s: Seq<u8>, prefix: Seq<u8>) -> bool {
    prefix.len() <= s.len() && s.subrange(0, prefix.len() as int) == prefix
}

/// Whether `s` ends with `suffix`.
pub open spec fn ends_with(s: Seq<u8>, suffix: Seq<u8>) -> bool {
    suffix.len() <= s.len() && s.subrange(s.len() - suffix.len(), s.len() as int) == suffix
}

/// Whether `needle` occurs in `s` at byte offset `at`.
pub open spec fn occurs_at(s: Seq<u8>, needle: Seq<u8>, at: int) -> bool {
    0 <= at && at + needle.len() <= s.len() && s.subrange(at, at + needle.len()) == needle
}

/// Whether `needle` occurs anywhere in `s`.
pub open spec fn contains(s: Seq<u8>, needle: Seq<u8>) -> bool {
    exists|at: int| occurs_at(s, needle, at)
}

/// `s` without `prefix` if it starts with it, else `s` itself.
pub open spec fn strip_prefix(s: Seq<u8>, prefix: Seq<u8>) -> Seq<u8> {
    if starts_with(s, prefix) {
        s.subrange(prefix.len() as int, s.len() as int)
    } else {
        s
    }
}

/// The path of a namespaced name: the name without a leading `minecraft:`.
pub open spec fn path(name: Seq<u8>) -> Seq<u8> {
    strip_prefix(name, bytes("minecraft:"))
}

/// Whether two byte strings are equal.
pub fn bytes_equal(a: &[u8], b: &[u8]) -> (result: bool)
    ensures
        result == (a@ == b@),
{
    if a.len() != b.len() {
        return false;
    }
    let mut i: usize = 0;
    while i < a.len()
        invariant
            a@.len() == b@.len(),
            i <= a@.len(),
            forall|k: int| 0 <= k < i ==> a@[k] == b@[k],
        decreases a@.len() - i,
    {
        if a[i] != b[i] {
            return false;
        }
        i += 1;
    }
    assert(a@ =~= b@);
    true
}

/// Whether `needle` occurs in `s` at byte offset `at`.
pub fn bytes_occur_at(s: &[u8], needle: &[u8], at: usize) -> (result: bool)
    ensures
        result == occurs_at(s@, needle@, at as int),
{
    if at > s.len() || needle.len() > s.len() - at {
        return false;
    }
    let mut i: usize = 0;
    while i < needle.len()
        invariant
            at + needle@.len() <= s@.len(),
            s@.len() <= usize::MAX,
            i <= needle@.len(),
            forall|k: int| 0 <= k < i ==> s@[at + k] == needle@[k],
        decreases needle@.len() - i,
    {
        if s[at + i] != needle[i] {
            assert(s@.subrange(at as int, at + needle@.len())[i as int] != needle@[i as int]);
            return false;
        }
        i += 1;
    }
    assert(s@.subrange(at as int, at + needle@.len()) =~= needle@);
    true
}

/// Whether `s` starts with `prefix`.
pub fn bytes_start_with(s: &[u8], prefix: &[u8]) -> (result: bool)
    ensures
        result == starts_with(s@, prefix@),
{
    bytes_occur_at(s, prefix, 0)
}

/// Whether `s` ends with `suffix`.
pub fn bytes_end_with(s: &[u8], suffix: &[u8]) -> (result: bool)
    ensures
        result == ends_with(s@, suffix@),
{
    if suffix.len() > s.len() {
        return false;
    }
    bytes_occur_at(s, suffix, s.len() - suffix.len())
}

/// Whether `needle` occurs anywhere in `s`.
pub fn bytes_contain(s: &[u8], needle: &[u8]) -> (result: bool)
    ensures
        result == contains(s@, needle@),
{
    if needle.len() > s.len() {
        assert forall|at: int| !occurs_at(s@, needle@, at) by {}
        return false;
    }
    let last = s.len() - needle.len();
    let mut at: usize = 0;
    loop
        invariant
            last + needle@.len() == s@.len(),
            at <= last,
            forall|k: int| 0 <= k < at ==> !occurs_at(s@, needle@, k),
        ensures
            forall|k: int| 0 <= k <= last ==> !occurs_at(s@, needle@, k),
        decreases last - at,
    {
        if bytes_occur_at(s, needle, at) {
            return true;
        }
        if at == last {
            break;
        }
        at += 1;
    }
    assert forall|k: int| !occurs_at(s@, needle@, k) by {
        if 0 <= k && k <= last {
        }
    }
    false
}

/// `s` without `prefix` if it starts with it, else `s` itself.
pub fn bytes_strip_prefix<'a>(s: &'a [u8], prefix: &[u8]) -> (result: &'a [u8])
    ensures
        result@ == strip_prefix(s@, prefix@),
{
    if bytes_start_with(s, prefix) {
        &s[prefix.len()..s.len()]
    } else {
        s
    }
}

/// The path of a namespaced name: the name without a leading `minecraft:`.
pub fn path_of(name: &str) -> (result: &[u8])
    ensures
        result@ == path(bytes(name)),
{
    bytes_strip_prefix(name.as_bytes(), "minecraft:".as_bytes())
}

/// Whether two names are equal.
pub fn str_equal(a: &str, b: &str) -> (result: bool)
    ensures
        result == (bytes(a) == bytes(b)),
{
    bytes_equal(a.as_bytes(), b.as_bytes())
}

/// Whether a name's bytes are exactly those of `literal`.
pub fn name_is(name: &[u8], literal: &str) -> (result: bool)
    ensures
        result == (name@ == bytes(literal)),
{
    bytes_equal(name, literal.as_bytes())
}

/// Whether a name's bytes end with those of `suffix`.
pub fn name_ends(name: &[u8], suffix: &str) -> (result: bool)
    ensures
        result == ends_with(name@, bytes(suffix)),
{
    bytes_end_with(name, suffix.as_bytes())
}

/// Whether a name's bytes contain those of `needle`.
pub fn name_contains(name: &[u8], needle: &str) -> (result: bool)
    ensures
        result == contains(name@, bytes(needle)),
{
    bytes_contain(name, needle.as_bytes())
}

/// The value of the first property named `key`, if any.
pub open spec fn property_of(properties: Seq<(&str, &str)>, key: Seq<u8>) -> Option<Seq<u8>>
    decreases properties.len(),
{
    if properties.len() == 0 {
        None
    } else if bytes(properties[0].0) == key {
        Some(bytes(properties[0].1))
    } else {
        property_of(properties.drop_first(), key)
    }
}

/// The first property value named `key`, if any, as the text it is.
pub open spec fn property_value<'a>(properties: Seq<(&'a str, &'a str)>, key: Seq<u8>) -> Option<&'a str>
    decreases properties.len(),
{
    if properties.len() == 0 {
        None
    } else if bytes(properties[0].0) == key {
        Some(properties[0].1)
    } else {
        property_value(properties.drop_first(), key)
    }
}

/// The value of the first property named `key`, if any.
pub fn property<'a>(properties: &[(&'a str, &'a str)], key: &str) -> (value: Option<&'a str>)
    ensures
        match value {
            Some(value) => property_of(properties@, bytes(key)) == Some(bytes(value)),
            None => property_of(properties@, bytes(key)) is None,
        },
        value == property_value(properties@, bytes(key)),
{
    let mut k: usize = 0;
    proof {
        assert(properties@.subrange(0, properties@.len() as int) =~= properties@);
    }
    while k < properties.len()
        invariant
            k <= properties@.len(),
            property_of(properties@, bytes(key)) == property_of(properties@.subrange(k as int, properties@.len() as int), bytes(key)),
            property_value(properties@, bytes(key)) == property_value(properties@.subrange(k as int, properties@.len() as int), bytes(key)),
        decreases properties@.len() - k,
    {
        let ghost rest = properties@.subrange(k as int, properties@.len() as int);
        proof {
            assert(rest.drop_first() =~= properties@.subrange(k + 1, properties@.len() as int));
            assert(rest[0] == properties@[k as int]);
        }
        let (name, value) = properties[k];
        if str_equal(name, key) {
            return Some(value);
        }
        k += 1;
    }
    proof {
        assert(properties@.subrange(k as int, properties@.len() as int).len() == 0);
    }
    None
}

/// Whether the first property named `key` is `true`.
pub open spec fn flag_of(properties: Seq<(&str, &str)>, key: Seq<u8>) -> bool {
    property_of(properties, key) == Some(bytes("true"))
}

/// Whether the first property named `key` is `true`.
pub fn bool_property(properties: &[(&str, &str)], key: &str) -> (result: bool)
    ensures
        result == flag_of(properties@, bytes(key)),
{
    match property(properties, key) {
        Some(value) => name_is(value.as_bytes(), "true"),
        None => false,
    }
}

/// Whether a character is a decimal digit.
pub open spec fn is_digit(c: char) -> bool {
    '0' <= c <= '9'
}

/// The value of a string of decimal digits.
pub open spec fn decimal_value(digits: Seq<char>) -> int
    decreases digits.len(),
{
    if digits.len() == 0 {
        0
    } else {
        decimal_value(digits.drop_last()) * 10 + (digits.last() as int - '0' as int)
    }
}

/// What `str::parse::<i32>` gives for a text: an optional `+` or `-` sign
/// followed by one or more decimal digits and nothing else, whose value
/// fits in `i32`, is that number; anything else is nothing.
pub open spec fn parsed_i32(text: Seq<char>) -> Option<i32> {
    let negative = text.len() > 0 && text[0] == '-';
    let signed = text.len() > 0 && (text[0] == '-' || text[0] == '+');
    let digits = if signed {
        text.drop_first()
    } else {
        text
    };
    let value = if negative {
        -decimal_value(digits)
    } else {
        decimal_value(digits)
    };
    if digits.len() > 0 && (forall|i: int| 0 <= i < digits.len() ==> is_digit(#[trigger] digits[i])) && i32::MIN
        <= value <= i32::MAX {
        Some(value as i32)
    } else {
        None
    }
}

/// Parses `text` as a decimal `i32` with `str::parse`: an optional sign,
/// then digits only, within the range of `i32`.
#[verifier::external_body]
fn parse_i32(text: &str) -> (value: Option<i32>)
    ensures
        value == parsed_i32(text@),
{
    text.parse::<i32>().ok()
}

/// The first property value named `key`, read as a decimal `i32`.
pub open spec fn number_of(properties: Seq<(&str, &str)>, key: Seq<u8>) -> Option<i32> {
    match property_value(properties, key) {
        Some(value) => parsed_i32(value@),
        None => None,
    }
}

/// The first property value named `key`, read as a decimal `i32`; nothing
/// when it is missing or is no such number.
pub fn int_property(properties: &[(&str, &str)], key: &str) -> (value: Option<i32>)
    ensures
        value == number_of(properties@, bytes(key)),
{
    match property(properties, key) {
        Some(text) => parse_i32(text),
        None => None,
    }
}


/// The bytes of an ASCII text are its characters, one byte each.
pub proof fn lemma_ascii_bytes(text: &str)
    requires
        forall|i: int| 0 <= i < text@.len() ==> '\0' <= #[trigger] text@[i] <= '\u{7f}',
    ensures
        bytes(text).len() == text@.len(),
        forall|i: int| 0 <= i < text@.len() ==> #[trigger] bytes(text)[i] == text@[i] as u8,
{
    vstd::string::is_ascii_spec_bytes(text);
}


/// Byte strings that differ at one index differ.
pub proof fn lemma_differ_at(a: Seq<u8>, b: Seq<u8>, i: int)
    requires
        0 <= i < a.len(),
        i < b.len(),
        a[i] != b[i],
    ensures
        a != b,
{
}

/// A path cannot end in two suffixes that differ at the same distance from
/// their ends.
pub proof fn lemma_suffixes_clash(p: Seq<u8>, a: Seq<u8>, b: Seq<u8>, k: int)
    requires
        0 <= k < a.len(),
        k < b.len(),
        a[a.len() - 1 - k] != b[b.len() - 1 - k],
    ensures
        !(ends_with(p, a) && ends_with(p, b)),
{
    if ends_with(p, a) && ends_with(p, b) {
        assert(p.subrange(p.len() - a.len(), p.len() as int)[a.len() - 1 - k] == p[p.len() - 1 - k]);
        assert(p.subrange(p.len() - b.len(), p.len() as int)[b.len() - 1 - k] == p[p.len() - 1 - k]);
    }
}
} // verus!
