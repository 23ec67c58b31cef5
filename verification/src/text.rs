//! String primitives the rest of the crate is built on.

use std::str::FromStr;
use vstd::prelude::*;
use vstd::string::*;

verus! {

/// Whether two string slices hold the same characters.
///
/// Trusted: calls `==` of `str` from the standard library, which compares the
/// two slices byte for byte; two slices are equal exactly when they hold the
/// same sequence of characters.
#[verifier::external_body]
pub(crate) fn str_eq(a: &str, b: &str) -> (same: bool)
    ensures
        same == (a@ == b@),
{
    a == b
}

/// The upper-case form of a string, as the standard library's
/// `str::to_uppercase` computes it from the Unicode tables.
pub uninterp spec fn uppercased(s: Seq<char>) -> Seq<char>;

/// The upper-case form of `s`.
///
/// Trusted: calls `str::to_uppercase`. Its result depends on the characters
/// of `s` alone; nothing else is claimed of it.
#[verifier::external_body]
pub(crate) fn to_upper(s: &str) -> (upper: String)
    ensures
        upper@ == uppercased(s@),
{
    s.to_uppercase()
}

/// Reads `s` as a `T`.
///
/// Trusted: calls `str::parse`, which hands `s` to `T`'s own `FromStr`. What
/// comes back is up to that implementation, so nothing is claimed of it.
#[verifier::external_body]
pub(crate) fn parse_text<T: FromStr>(s: &str) -> (parsed: Option<T>) {
    s.parse::<T>().ok()
}

/// A vector of the same strings.
pub(crate) fn clone_strings(strings: &Vec<String>) -> (copy: Vec<String>)
    ensures
        copy.deep_view() == strings.deep_view(),
{
    let mut copy: Vec<String> = Vec::new();
    let mut i: usize = 0;
    while i < strings.len()
        invariant
            i <= strings.len(),
            copy@.len() == i,
            forall|j: int| 0 <= j < i ==> copy@[j]@ == strings@[j]@,
        decreases strings.len() - i,
    {
        copy.push(strings[i].clone());
        i += 1;
    }
    copy
}

/// Adds `name` to the set that `names` holds.
pub(crate) fn note_name(names: &mut Vec<String>, name: String)
    ensures
        final(names).deep_view().to_set() == old(names).deep_view().to_set().insert(name@),
{
    let ghost before = names.deep_view();
    let mut i: usize = 0;
    while i < names.len()
        invariant
            i <= names.len(),
            names.deep_view() == before,
            forall|j: int| 0 <= j < i ==> before[j] != name@,
        decreases names.len() - i,
    {
        if str_eq(names[i].as_str(), name.as_str()) {
            assert(before[i as int] == name@);
            return;
        }
        i += 1;
    }
    names.push(name);
    assert(names.deep_view() =~= before.push(name@));
    assert(before.push(name@).to_set() =~= before.to_set().insert(name@)) by {
        assert forall|n: Seq<char>|
            before.push(name@).to_set().contains(n) == before.to_set().insert(name@).contains(
                n,
            ) by {
            if before.push(name@).contains(n) {
                let k = choose|k: int|
                    0 <= k < before.push(name@).len() && before.push(name@)[k] == n;
                if k < before.len() {
                    assert(before[k] == n);
                }
            }
            if before.contains(n) {
                let k = choose|k: int| 0 <= k < before.len() && before[k] == n;
                assert(before.push(name@)[k] == n);
            }
            if n == name@ {
                assert(before.push(name@)[before.len() as int] == n);
            }
        }
    }
}

/// How many `-` characters `s` starts with.
pub open spec fn leading_dashes(s: Seq<char>) -> nat
    decreases s.len(),
{
    if s.len() > 0 && s[0] == '-' {
        1 + leading_dashes(s.drop_first())
    } else {
        0
    }
}

/// `s` without the `-` characters it starts with.
pub open spec fn strip_dashes(s: Seq<char>) -> Seq<char> {
    s.skip(leading_dashes(s) as int)
}

/// The dashes that `s` starts with are the longest prefix made of dashes.
pub proof fn lemma_leading_dashes(s: Seq<char>, n: int)
    requires
        0 <= n <= s.len(),
        forall|j: int| 0 <= j < n ==> s[j] == '-',
        n < s.len() ==> s[n] != '-',
    ensures
        leading_dashes(s) == n,
    decreases n,
{
    if n > 0 {
        lemma_leading_dashes(s.drop_first(), n - 1);
    }
}

/// `name` without its leading dashes.
pub fn without_dashes(name: &str) -> (rest: &str)
    ensures
        rest@ == strip_dashes(name@),
{
    let n = name.unicode_len();
    let mut i: usize = 0;
    while i < n && name.get_char(i) == '-'
        invariant
            n == name@.len(),
            i <= n,
            forall|j: int| 0 <= j < i ==> name@[j] == '-',
        decreases n - i,
    {
        i += 1;
    }
    proof {
        lemma_leading_dashes(name@, i as int);
    }
    name.substring_char(i, n)
}

} // verus!
