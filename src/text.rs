//! Decoding of single text fields: decimal integers, case-insensitive
//! booleans, and comma-joined lists.
use vstd::prelude::*;

verus! {

/// An ASCII decimal digit.
pub open spec fn is_digit(b: u8) -> bool {
    48 <= b <= 57
}

/// All bytes are ASCII decimal digits.
pub open spec fn all_digits(s: Seq<u8>) -> bool {
    forall|i: int| 0 <= i < s.len() ==> is_digit(#[trigger] s[i])
}

/// The number that a run of decimal digits writes.
pub open spec fn digits_value(s: Seq<u8>) -> int
    decreases s.len(),
{
    if s.len() == 0 {
        0
    } else {
        digits_value(s.drop_last()) * 10 + (s.last() - 48)
    }
}

/// The length of a field's leading `+` or `-`: 1 or 0.
pub open spec fn sign_len(s: Seq<u8>) -> int {
    if s.len() > 0 && (s[0] == 45 || s[0] == 43) {
        1
    } else {
        0
    }
}

/// A field without its leading sign.
pub open spec fn unsigned_part(s: Seq<u8>) -> Seq<u8> {
    s.subrange(sign_len(s), s.len() as int)
}

/// The `i32` that a field writes: an optional `+` or `-`, then one or more
/// decimal digits, within the range of `i32`.
pub open spec fn decimal_i32(s: Seq<u8>) -> Option<int> {
    let digits = unsigned_part(s);
    let v = if sign_len(s) == 1 && s[0] == 45 {
        -digits_value(digits)
    } else {
        digits_value(digits)
    };
    if digits.len() > 0 && all_digits(digits) && i32::MIN <= v <= i32::MAX {
        Some(v)
    } else {
        None
    }
}

/// A run of digits writes at least as much as any of its prefixes.
proof fn lemma_digits_prefix(s: Seq<u8>, k: int)
    requires
        all_digits(s),
        0 <= k <= s.len(),
    ensures
        digits_value(s) >= digits_value(s.take(k)) >= 0,
    decreases s.len(),
{
    if s.len() > 0 {
        assert(all_digits(s.drop_last()));
        if k == s.len() {
            assert(s.take(k) =~= s);
            lemma_digits_prefix(s.drop_last(), k - 1);
        } else {
            assert(s.drop_last().take(k) =~= s.take(k));
            lemma_digits_prefix(s.drop_last(), k);
        }
    }
}

/// Reads a decimal `i32`.
pub fn parse_i32(s: &[u8]) -> (r: Option<i32>)
    ensures
        match decimal_i32(s@) {
            Some(v) => r == Some(v as i32),
            None => r is None,
        },
{
    let n = s.len();
    let mut start: usize = 0;
    let mut negative = false;
    if n > 0 && (s[0] == 45 || s[0] == 43) {
        start = 1;
        negative = s[0] == 45;
    }
    assert(negative == (start == 1 && s@[0] == 45));
    let ghost digits = unsigned_part(s@);
    assert(start == sign_len(s@));
    if start == n {
        return None;
    }
    let mut acc: i64 = 0;
    let mut i: usize = start;
    while i < n
        invariant
            start <= i <= n,
            n == s@.len(),
            digits == s@.subrange(start as int, n as int),
            digits == unsigned_part(s@),
            start == sign_len(s@),
            negative == (start == 1 && s@[0] == 45),
            all_digits(s@.subrange(start as int, i as int)),
            acc == digits_value(s@.subrange(start as int, i as int)),
            0 <= acc <= 2147483648,
        decreases n - i,
    {
        let b = s[i];
        if b < 48 || b > 57 {
            proof {
                assert(digits[i - start] == s@[i as int]);
                assert(!is_digit(digits[i - start]));
                assert(!all_digits(digits));
            }
            return None;
        }
        proof {
            let t = s@.subrange(start as int, i + 1);
            assert(t.drop_last() =~= s@.subrange(start as int, i as int));
        }
        acc = acc * 10 + (b - 48) as i64;
        if acc > 2147483648 {
            proof {
                let t = s@.subrange(start as int, i + 1);
                assert(digits_value(t) == acc);
                if all_digits(digits) {
                    assert(digits.take(i + 1 - start) =~= t);
                    lemma_digits_prefix(digits, i + 1 - start);
                    assert(digits_value(digits) > 2147483648);
                }
            }
            return None;
        }
        i += 1;
    }
    assert(s@.subrange(start as int, n as int) == digits);
    if negative {
        Some((-acc) as i32)
    } else if acc > 2147483647 {
        None
    } else {
        Some(acc as i32)
    }
}

/// An ASCII byte with upper case letters taken to lower case.
pub open spec fn ascii_lower(b: u8) -> u8 {
    if 65 <= b <= 90 {
        (b + 32) as u8
    } else {
        b
    }
}

/// Equality of two byte strings up to the case of ASCII letters.
pub open spec fn equal_ignoring_case(s: Seq<u8>, word: Seq<u8>) -> bool {
    s.len() == word.len() && forall|i: int| 0 <= i < s.len() ==> ascii_lower(#[trigger] s[i])
        == ascii_lower(word[i])
}

/// The bytes of `true`.
pub open spec fn word_true() -> Seq<u8> {
    seq![116u8, 114u8, 117u8, 101u8]
}

/// The bytes of `false`.
pub open spec fn word_false() -> Seq<u8> {
    seq![102u8, 97u8, 108u8, 115u8, 101u8]
}

/// The boolean that a field writes: `true` or `false` in any letter case.
pub open spec fn boolean_of(s: Seq<u8>) -> Option<bool> {
    if equal_ignoring_case(s, word_true()) {
        Some(true)
    } else if equal_ignoring_case(s, word_false()) {
        Some(false)
    } else {
        None
    }
}

fn equals_ignoring_case(s: &[u8], word: &[u8]) -> (r: bool)
    ensures
        r == equal_ignoring_case(s@, word@),
{
    if s.len() != word.len() {
        return false;
    }
    let mut i: usize = 0;
    while i < s.len()
        invariant
            i <= s@.len(),
            s@.len() == word@.len(),
            forall|k: int| 0 <= k < i ==> ascii_lower(#[trigger] s@[k]) == ascii_lower(word@[k]),
        decreases s@.len() - i,
    {
        let a = if 65 <= s[i] && s[i] <= 90 {
            s[i] + 32
        } else {
            s[i]
        };
        let b = if 65 <= word[i] && word[i] <= 90 {
            word[i] + 32
        } else {
            word[i]
        };
        if a != b {
            return false;
        }
        i += 1;
    }
    true
}

/// Reads a boolean written `true` or `false` in any letter case.
pub fn parse_bool(s: &[u8]) -> (r: Option<bool>)
    ensures
        r == boolean_of(s@),
{
    let t: &str = "true";
    let f: &str = "false";
    proof {
        reveal_strlit("true");
        reveal_strlit("false");
        vstd::string::is_ascii_spec_bytes(t);
        vstd::string::is_ascii_spec_bytes(f);
    }
    let tb = t.as_bytes();
    let fb = f.as_bytes();
    assert(tb@ =~= word_true());
    assert(fb@ =~= word_false());
    if equals_ignoring_case(s, tb) {
        Some(true)
    } else if equals_ignoring_case(s, fb) {
        Some(false)
    } else {
        None
    }
}

/// The comma-separated pieces of a field: one more piece than the field has
/// commas, none of them holding a comma, empty pieces kept.
pub open spec fn split_commas(s: Seq<u8>) -> Seq<Seq<u8>>
    decreases s.len(),
{
    if s.len() == 0 {
        seq![Seq::empty()]
    } else {
        let before = split_commas(s.drop_last());
        if s.last() == 44 {
            before.push(Seq::empty())
        } else {
            before.update(before.len() - 1, before.last().push(s.last()))
        }
    }
}

/// `split_commas` never yields an empty list.
proof fn lemma_split_nonempty(s: Seq<u8>)
    ensures
        split_commas(s).len() >= 1,
    decreases s.len(),
{
    if s.len() > 0 {
        lemma_split_nonempty(s.drop_last());
    }
}

/// The views of a list of byte vectors.
pub open spec fn views(v: Seq<Vec<u8>>) -> Seq<Seq<u8>> {
    v.map_values(|t: Vec<u8>| t@)
}

/// Splits a list field at its commas.
pub fn split_list(s: &[u8]) -> (r: Vec<Vec<u8>>)
    ensures
        views(r@) == split_commas(s@),
{
    let mut pieces: Vec<Vec<u8>> = Vec::new();
    let mut current: Vec<u8> = Vec::new();
    let mut i: usize = 0;
    proof {
        assert(s@.take(0) =~= Seq::<u8>::empty());
        assert(views(pieces@).push(current@) =~= split_commas(s@.take(0)));
    }
    while i < s.len()
        invariant
            i <= s@.len(),
            views(pieces@).push(current@) == split_commas(s@.take(i as int)),
        decreases s@.len() - i,
    {
        let ghost prefix = s@.take(i as int);
        proof {
            assert(s@.take(i + 1).drop_last() =~= prefix);
            lemma_split_nonempty(prefix);
        }
        if s[i] == 44 {
            pieces.push(current);
            current = Vec::new();
            proof {
                assert(views(pieces@).push(current@) =~= split_commas(prefix).push(Seq::empty()));
            }
        } else {
            current.push(s[i]);
            proof {
                let before = split_commas(prefix);
                assert(views(pieces@).push(current@) =~= before.update(
                    before.len() - 1,
                    before.last().push(s@[i as int]),
                ));
            }
        }
        i += 1;
    }
    assert(s@.take(s@.len() as int) =~= s@);
    pieces.push(current);
    proof {
        assert(views(pieces@) =~= split_commas(s@));
    }
    pieces
}

} // verus!
