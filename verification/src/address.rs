//! Address normalization.
//!
//! Token addresses are accepted with or without a leading `"0x"` marker and in
//! any letter case. Before any comparison or catalog lookup an address is
//! normalized: every ASCII letter is lowercased, then every leading `"0x"`
//! marker is removed. A normalized address is well formed when it is a
//! non-empty, even-length string of lowercase hexadecimal digits.

use vstd::prelude::*;
use vstd::string::StrSliceExecFns;

verus! {

/// Lowercases a single ASCII letter; every other character is unchanged.
pub open spec fn lower_char(c: char) -> char {
    match c {
        'A' => 'a',
        'B' => 'b',
        'C' => 'c',
        'D' => 'd',
        'E' => 'e',
        'F' => 'f',
        'G' => 'g',
        'H' => 'h',
        'I' => 'i',
        'J' => 'j',
        'K' => 'k',
        'L' => 'l',
        'M' => 'm',
        'N' => 'n',
        'O' => 'o',
        'P' => 'p',
        'Q' => 'q',
        'R' => 'r',
        'S' => 's',
        'T' => 't',
        'U' => 'u',
        'V' => 'v',
        'W' => 'w',
        'X' => 'x',
        'Y' => 'y',
        'Z' => 'z',
        _ => c,
    }
}

/// Lowercases every ASCII letter of a character sequence.
pub open spec fn lower_seq(s: Seq<char>) -> Seq<char> {
    s.map_values(|c: char| lower_char(c))
}

/// Removes every leading `"0x"` marker from a character sequence.
pub open spec fn strip_hex_prefix(s: Seq<char>) -> Seq<char>
    decreases s.len(),
{
    if s.len() >= 2 && s[0] == '0' && s[1] == 'x' {
        strip_hex_prefix(s.subrange(2, s.len() as int))
    } else {
        s
    }
}

/// The normal form of an address: lowercased, then stripped of every leading
/// `"0x"` marker.
pub open spec fn normalized(s: Seq<char>) -> Seq<char> {
    strip_hex_prefix(lower_seq(s))
}

/// A lowercase hexadecimal digit.
pub open spec fn is_hex_digit(c: char) -> bool {
    ('0' <= c && c <= '9') || ('a' <= c && c <= 'f')
}

/// A well-formed normalized address: non-empty, of even length, and made of
/// lowercase hexadecimal digits only.
pub open spec fn valid_address(s: Seq<char>) -> bool {
    &&& s.len() > 0
    &&& s.len() % 2 == 0
    &&& forall|i: int| 0 <= i < s.len() ==> is_hex_digit(#[trigger] s[i])
}

/// Relies on std's `String::push`: appends the given character to the end of
/// the string.
pub assume_specification[ String::push ](s: &mut String, c: char)
    ensures
        final(s)@ == old(s)@.push(c),
;

/// Lowercases a single ASCII letter; every other character is unchanged.
pub fn to_lower_char(c: char) -> (r: char)
    ensures
        r == lower_char(c),
{
    match c {
        'A' => 'a',
        'B' => 'b',
        'C' => 'c',
        'D' => 'd',
        'E' => 'e',
        'F' => 'f',
        'G' => 'g',
        'H' => 'h',
        'I' => 'i',
        'J' => 'j',
        'K' => 'k',
        'L' => 'l',
        'M' => 'm',
        'N' => 'n',
        'O' => 'o',
        'P' => 'p',
        'Q' => 'q',
        'R' => 'r',
        'S' => 's',
        'T' => 't',
        'U' => 'u',
        'V' => 'v',
        'W' => 'w',
        'X' => 'x',
        'Y' => 'y',
        'Z' => 'z',
        _ => c,
    }
}

/// Brings an address into its normal form: every ASCII letter lowercased,
/// then every leading `"0x"` marker removed.
pub fn normalize_address(address: &str) -> (r: String)
    ensures
        r@ == normalized(address@),
{
    let n = address.unicode_len();
    let mut lowered = String::new();
    let mut i: usize = 0;
    while i < n
        invariant
            i <= n,
            n == address@.len(),
            lowered@ == lower_seq(address@.subrange(0, i as int)),
        decreases n - i,
    {
        let c = address.get_char(i);
        lowered.push(to_lower_char(c));
        proof {
            assert(address@.subrange(0, i + 1 as int) =~= address@.subrange(0, i as int).push(
                address@[i as int],
            ));
            assert(lower_seq(address@.subrange(0, i as int).push(address@[i as int])) =~= lower_seq(
                address@.subrange(0, i as int),
            ).push(lower_char(address@[i as int])));
        }
        i += 1;
    }
    proof {
        assert(address@.subrange(0, n as int) =~= address@);
    }
    let ls = lowered.as_str();
    proof {
        assert(ls@.subrange(0, n as int) =~= ls@);
    }
    let mut start: usize = 0;
    while start < n && start + 1 < n && ls.get_char(start) == '0' && ls.get_char(start + 1) == 'x'
        invariant
            start <= n,
            n == ls@.len(),
            ls@ == lower_seq(address@),
            strip_hex_prefix(ls@) == strip_hex_prefix(ls@.subrange(start as int, n as int)),
        decreases n - start,
    {
        proof {
            let suffix = ls@.subrange(start as int, n as int);
            assert(suffix.subrange(2, suffix.len() as int) =~= ls@.subrange(
                start + 2 as int,
                n as int,
            ));
        }
        start += 2;
    }
    proof {
        let suffix = ls@.subrange(start as int, n as int);
        assert(strip_hex_prefix(suffix) == suffix);
    }
    let stripped = ls.substring_char(start, n);
    stripped.to_owned()
}

/// Decides whether a normalized address is well formed: non-empty, of even
/// length, and made of lowercase hexadecimal digits only.
pub fn is_valid_address(s: &str) -> (r: bool)
    ensures
        r == valid_address(s@),
{
    let n = s.unicode_len();
    if n == 0 || n % 2 != 0 {
        return false;
    }
    let mut i: usize = 0;
    while i < n
        invariant
            i <= n,
            n == s@.len(),
            forall|j: int| 0 <= j < i ==> is_hex_digit(#[trigger] s@[j]),
        decreases n - i,
    {
        let c = s.get_char(i);
        if !(('0' <= c && c <= '9') || ('a' <= c && c <= 'f')) {
            return false;
        }
        i += 1;
    }
    true
}

/// Lowercasing a single character is idempotent.
pub proof fn lemma_lower_char_idempotent(c: char)
    ensures
        lower_char(lower_char(c)) == lower_char(c),
{
}

/// Lowercasing a sequence is idempotent.
pub proof fn lemma_lower_seq_idempotent(s: Seq<char>)
    ensures
        lower_seq(lower_seq(s)) == lower_seq(s),
{
    assert forall|i: int| 0 <= i < s.len() implies lower_char(lower_char(s[i])) == lower_char(
        s[i],
    ) by {
        lemma_lower_char_idempotent(s[i]);
    }
    assert(lower_seq(lower_seq(s)) =~= lower_seq(s));
}

/// Stripping leaves a sequence of already-lowercase characters lowercase.
pub proof fn lemma_strip_keeps_lower_fixed(s: Seq<char>)
    requires
        forall|i: int| 0 <= i < s.len() ==> lower_char(#[trigger] s[i]) == s[i],
    ensures
        lower_seq(strip_hex_prefix(s)) == strip_hex_prefix(s),
    decreases s.len(),
{
    if s.len() >= 2 && s[0] == '0' && s[1] == 'x' {
        let rest = s.subrange(2, s.len() as int);
        lemma_strip_keeps_lower_fixed(rest);
    } else {
        assert(lower_seq(s) =~= s);
    }
}

/// Stripping the `"0x"` markers is idempotent.
pub proof fn lemma_strip_idempotent(s: Seq<char>)
    ensures
        strip_hex_prefix(strip_hex_prefix(s)) == strip_hex_prefix(s),
    decreases s.len(),
{
    if s.len() >= 2 && s[0] == '0' && s[1] == 'x' {
        lemma_strip_idempotent(s.subrange(2, s.len() as int));
    }
}

/// Normalization is idempotent: normalizing an already-normalized address
/// changes nothing.
pub proof fn lemma_normalize_idempotent(s: Seq<char>)
    ensures
        normalized(normalized(s)) == normalized(s),
{
    let t = lower_seq(s);
    assert forall|i: int| 0 <= i < t.len() implies lower_char(#[trigger] t[i]) == t[i] by {
        lemma_lower_char_idempotent(s[i]);
    }
    lemma_strip_keeps_lower_fixed(t);
    lemma_strip_idempotent(t);
}

/// Normalization is case-insensitive: an address and its lowercased form
/// normalize to the same thing.
pub proof fn lemma_normalize_ignores_case(s: Seq<char>)
    ensures
        normalized(lower_seq(s)) == normalized(s),
{
    lemma_lower_seq_idempotent(s);
}

} // verus!
