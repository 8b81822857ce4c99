//! Character-level string helpers: thin trusted accessors over std's string
//! operations, and the verified sanitization rules used to build device URLs.

use vstd::prelude::*;

verus! {

/// Whether std considers the character whitespace (the Unicode
/// `White_Space` property, as `char::is_whitespace` decides it).
pub uninterp spec fn whitespace_char(c: char) -> bool;

/// Relies on `char::is_whitespace`: returns whether the character has the
/// Unicode `White_Space` property, a function of the character alone.
#[verifier::external_body]
pub(crate) fn is_whitespace_char(c: char) -> (r: bool)
    ensures
        r == whitespace_char(c),
{
    c.is_whitespace()
}

/// Relies on `str::chars`: yields the characters of the string in order.
#[verifier::external_body]
pub(crate) fn chars_vec(s: &str) -> (r: Vec<char>)
    ensures
        r@ == s@,
{
    s.chars().collect()
}

/// Relies on `String::push`: appends the character to the end of the string.
#[verifier::external_body]
pub(crate) fn push_char(s: &mut String, c: char)
    ensures
        final(s)@ == old(s)@.push(c),
{
    s.push(c)
}

/// The device-name sanitization rule: every literal hyphen becomes an
/// underscore; all other characters are kept as they are.
pub open spec fn replace_hyphens(s: Seq<char>) -> Seq<char>
    decreases s.len(),
{
    if s.len() == 0 {
        Seq::empty()
    } else {
        replace_hyphens(s.drop_last()).push(
            if s.last() == '-' {
                '_'
            } else {
                s.last()
            },
        )
    }
}

/// The vendor-name sanitization rule: every whitespace character is removed;
/// all other characters are kept in order.
pub open spec fn strip_whitespace(s: Seq<char>) -> Seq<char>
    decreases s.len(),
{
    if s.len() == 0 {
        Seq::empty()
    } else if whitespace_char(s.last()) {
        strip_whitespace(s.drop_last())
    } else {
        strip_whitespace(s.drop_last()).push(s.last())
    }
}

/// Replaces every hyphen in the device name with an underscore.
pub fn _sanitise_device_name(name: String) -> (r: String)
    ensures
        r@ == replace_hyphens(name@),
{
    let cs = chars_vec(name.as_str());
    let mut out = String::new();
    let mut i: usize = 0;
    while i < cs.len()
        invariant
            i <= cs@.len(),
            cs@ == name@,
            out@ == replace_hyphens(name@.take(i as int)),
        decreases cs@.len() - i,
    {
        let c = cs[i];
        if c == '-' {
            push_char(&mut out, '_');
        } else {
            push_char(&mut out, c);
        }
        proof {
            assert(name@.take(i + 1).drop_last() =~= name@.take(i as int));
            assert(name@.take(i + 1).last() == name@[i as int]);
        }
        i = i + 1;
    }
    proof {
        assert(name@.take(name@.len() as int) =~= name@);
    }
    out
}

/// Removes every whitespace character from the vendor name.
pub fn _sanitise_vendor_name(name: String) -> (r: String)
    ensures
        r@ == strip_whitespace(name@),
{
    let cs = chars_vec(name.as_str());
    let mut out = String::new();
    let mut i: usize = 0;
    while i < cs.len()
        invariant
            i <= cs@.len(),
            cs@ == name@,
            out@ == strip_whitespace(name@.take(i as int)),
        decreases cs@.len() - i,
    {
        let c = cs[i];
        if !is_whitespace_char(c) {
            push_char(&mut out, c);
        }
        proof {
            assert(name@.take(i + 1).drop_last() =~= name@.take(i as int));
            assert(name@.take(i + 1).last() == name@[i as int]);
        }
        i = i + 1;
    }
    proof {
        assert(name@.take(name@.len() as int) =~= name@);
    }
    out
}

/// A sanitized device name contains no hyphen, and sanitizing never changes a
/// hyphen-free name.
pub proof fn lemma_replace_hyphens_sanitised(s: Seq<char>)
    ensures
        forall|i: int| 0 <= i < replace_hyphens(s).len() ==> replace_hyphens(s)[i] != '-',
        (forall|i: int| 0 <= i < s.len() ==> s[i] != '-') ==> replace_hyphens(s) == s,
    decreases s.len(),
{
    if s.len() > 0 {
        lemma_replace_hyphens_sanitised(s.drop_last());
        let r = replace_hyphens(s);
        let rp = replace_hyphens(s.drop_last());
        assert forall|i: int| 0 <= i < r.len() implies r[i] != '-' by {
            if i < rp.len() {
                assert(r[i] == rp[i]);
            } else {
                assert(r[i] == r.last());
            }
        }
        if forall|i: int| 0 <= i < s.len() ==> s[i] != '-' {
            assert(forall|i: int| 0 <= i < s.drop_last().len() ==> s.drop_last()[i] != '-');
            assert(replace_hyphens(s) =~= s);
        }
    }
}

/// A sanitized vendor name contains no whitespace, and sanitizing never
/// changes a whitespace-free name.
pub proof fn lemma_strip_whitespace_sanitised(s: Seq<char>)
    ensures
        forall|i: int| 0 <= i < strip_whitespace(s).len() ==> !whitespace_char(
            strip_whitespace(s)[i],
        ),
        (forall|i: int| 0 <= i < s.len() ==> !whitespace_char(s[i])) ==> strip_whitespace(s) == s,
    decreases s.len(),
{
    if s.len() > 0 {
        lemma_strip_whitespace_sanitised(s.drop_last());
        let r = strip_whitespace(s);
        let rp = strip_whitespace(s.drop_last());
        assert forall|i: int| 0 <= i < r.len() implies !whitespace_char(r[i]) by {
            if !whitespace_char(s.last()) && i == r.len() - 1 {
                assert(r[i] == r.last());
            } else {
                assert(r[i] == rp[i]);
            }
        }
        if forall|i: int| 0 <= i < s.len() ==> !whitespace_char(s[i]) {
            assert(forall|i: int|
                0 <= i < s.drop_last().len() ==> !whitespace_char(s.drop_last()[i]));
            assert(strip_whitespace(s) =~= s);
        }
    }
}

} // verus!
