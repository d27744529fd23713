use vstd::prelude::*;
use vstd::string::StrSliceExecFns;

verus! {

/// The symbols a watermark text may hold; a symbol's value is its position here.
pub const ALPHABET: &'static str =
    "ABCDEFGHIJKLMNOPQRSTUVWXYZabcdefghijklmnopqrstuvwxyz0123456789!@#$%^&*(),.<>/?; ";

/// Why a text cannot be turned into a watermark value.
#[derive(Debug, Clone, Copy, PartialEq, Eq, Structural)]
pub enum WatermarkError {
    /// The text holds a character that is not in the alphabet.
    InvalidCharacter(char),
}

pub open spec fn alphabet() -> Seq<char> {
    ALPHABET@
}

/// Position of the first occurrence of `c` in `a` at or after `i`.
pub open spec fn first_index_from(a: Seq<char>, c: char, i: int) -> Option<nat>
    decreases a.len() - i,
{
    if i < 0 || i >= a.len() {
        None
    } else if a[i] == c {
        Some(i as nat)
    } else {
        first_index_from(a, c, i + 1)
    }
}

/// Position of the first occurrence of `c` in the alphabet.
pub open spec fn alphabet_index(c: char) -> Option<nat> {
    first_index_from(alphabet(), c, 0)
}

/// The sum of the alphabet positions of the characters of `s`, or the first
/// character of `s` that the alphabet lacks.
pub open spec fn index_sum(s: Seq<char>) -> Result<nat, char>
    decreases s.len(),
{
    if s.len() == 0 {
        Ok(0)
    } else {
        match index_sum(s.drop_last()) {
            Err(c) => Err(c),
            Ok(v) => match alphabet_index(s.last()) {
                Some(k) => Ok(v + k),
                None => Err(s.last()),
            },
        }
    }
}

proof fn lemma_first_index_bound(a: Seq<char>, c: char, i: int)
    ensures
        first_index_from(a, c, i) matches Some(k) ==> i <= k < a.len() && a[k as int] == c,
    decreases a.len() - i,
{
    if 0 <= i < a.len() && a[i] != c {
        lemma_first_index_bound(a, c, i + 1);
    }
}

/// Where `c` first occurs in the alphabet, if it does.
pub fn find_in_alphabet(c: char) -> (r: Option<usize>)
    ensures
        r matches Some(k) ==> alphabet_index(c) == Some(k as nat),
        r is None ==> alphabet_index(c) is None,
{
    let n: usize = ALPHABET.unicode_len();
    let mut i: usize = 0;
    while i < n
        invariant
            n == alphabet().len(),
            i <= n,
            first_index_from(alphabet(), c, 0) == first_index_from(alphabet(), c, i as int),
        decreases n - i,
    {
        if ALPHABET.get_char(i) == c {
            return Some(i);
        }
        i = i + 1;
    }
    None
}

/// The integer part of a text's watermark value: the sum, in text order, of the
/// alphabet positions of its characters. The first character that the alphabet
/// lacks is reported instead.
pub fn watermark_index_sum(words: &str) -> (r: Result<u128, WatermarkError>)
    ensures
        r matches Ok(v) ==> index_sum(words@) == Ok::<nat, char>(v as nat),
        r matches Err(WatermarkError::InvalidCharacter(c)) ==> index_sum(words@) == Err::<
            nat,
            char,
        >(c),
{
    let n: usize = words.unicode_len();
    let mut sum: u128 = 0;
    let mut i: usize = 0;
    while i < n
        invariant
            n == words@.len(),
            i <= n,
            sum <= 128 * i,
            index_sum(words@.subrange(0, i as int)) == Ok::<nat, char>(sum as nat),
        decreases n - i,
    {
        let c = words.get_char(i);
        let ghost prefix = words@.subrange(0, i as int);
        assert(words@.subrange(0, i + 1).drop_last() =~= prefix);
        assert(words@.subrange(0, i + 1).last() == c);
        match find_in_alphabet(c) {
            Some(k) => {
                proof {
                    lemma_first_index_bound(alphabet(), c, 0);
                    assert(alphabet().len() < 128) by {
                        reveal_strlit(
                            "ABCDEFGHIJKLMNOPQRSTUVWXYZabcdefghijklmnopqrstuvwxyz0123456789!@#$%^&*(),.<>/?; ",
                        );
                    }
                }
                sum = sum + k as u128;
            },
            None => {
                proof {
                    lemma_prefix_error(words@, i as int, c);
                }
                return Err(WatermarkError::InvalidCharacter(c));
            },
        }
        i = i + 1;
    }
    assert(words@.subrange(0, n as int) =~= words@);
    Ok(sum)
}

/// Once a prefix of `s` ends in a character the alphabet lacks, `s` reports it.
proof fn lemma_prefix_error(s: Seq<char>, i: int, c: char)
    requires
        0 <= i < s.len(),
        s[i] == c,
        index_sum(s.subrange(0, i)) is Ok,
        alphabet_index(c) is None,
    ensures
        index_sum(s) == Err::<nat, char>(c),
    decreases s.len(),
{
    if i == s.len() - 1 {
        assert(s.drop_last() =~= s.subrange(0, i));
    } else {
        assert(s.drop_last().subrange(0, i) =~= s.subrange(0, i));
        lemma_prefix_error(s.drop_last(), i, c);
    }
}

/// A text that holds a character outside the alphabet has no watermark value:
/// its index sum is an `InvalidCharacter` error.
pub proof fn lemma_unlisted_character_rejected(s: Seq<char>, i: int)
    requires
        0 <= i < s.len(),
        alphabet_index(s[i]) is None,
    ensures
        index_sum(s) is Err,
    decreases s.len(),
{
    if i < s.len() - 1 {
        lemma_unlisted_character_rejected(s.drop_last(), i);
    }
}

} // verus!
