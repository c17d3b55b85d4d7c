//! The filter that hides unwanted words in chat text.
use vstd::prelude::*;

use crate::support::{chars_of, string_of};

verus! {

/// The characters that separate words.
pub open spec fn is_delimiter(c: char) -> bool {
    c == ' ' || c == '_' || c == '-' || c == '\n'
}

/// Equal characters, but for the case of ASCII letters.
pub open spec fn same_ignore_case(a: char, b: char) -> bool {
    ||| a == b
    ||| (65 <= a as u32 <= 90 && a as u32 + 32 == b as u32)
    ||| (65 <= b as u32 <= 90 && b as u32 + 32 == a as u32)
}

/// Equal words, but for the case of ASCII letters.
pub open spec fn word_eq_ignore_case(w: Seq<char>, v: Seq<char>) -> bool {
    &&& w.len() == v.len()
    &&& forall|i: int| 0 <= i < w.len() ==> same_ignore_case(#[trigger] w[i], v[i])
}

/// The words that the filter hides.
pub open spec fn bad_words() -> Seq<Seq<char>> {
    seq![
        seq!['j', 'o', 'b'],
        seq!['o', 'f', 'f', 'e', 'r'],
        seq!['c', 'v'],
        seq!['h', 'r'],
        seq!['w', 'o', 'r', 'k'],
        seq!['m', 'i', 'l', 'k'],
        seq!['c', 'o', 'w'],
        seq!['d', 'a', 'i', 'r', 'y'],
    ]
}

pub open spec fn is_bad(w: Seq<char>) -> bool {
    exists|k: int| 0 <= k < bad_words().len() && word_eq_ignore_case(w, #[trigger] bad_words()[k])
}

/// A word as the filter writes it: a bad word becomes as many `#` as it
/// has characters.
pub open spec fn censor_word(w: Seq<char>) -> Seq<char> {
    if is_bad(w) {
        Seq::new(w.len(), |i: int| '#')
    } else {
        w
    }
}

/// The filtered text of `s[start..]`, where the word that begins at
/// `start` has been scanned up to `i` without a delimiter.
pub open spec fn censored_from(s: Seq<char>, start: int, i: int) -> Seq<char>
    decreases s.len() - i,
{
    if i >= s.len() {
        censor_word(s.subrange(start, s.len() as int))
    } else if is_delimiter(s[i]) {
        censor_word(s.subrange(start, i)).push(s[i]) + censored_from(s, i + 1, i + 1)
    } else {
        censored_from(s, start, i + 1)
    }
}

/// The text with each bad word, matched whole and with any case of ASCII
/// letters, replaced by `#`s.
pub open spec fn censored(s: Seq<char>) -> Seq<char> {
    censored_from(s, 0, 0)
}

fn bad_word(k: usize) -> (r: Vec<char>)
    requires
        k < 8,
    ensures
        r@ == bad_words()[k as int],
{
    let r = match k {
        0 => vec!['j', 'o', 'b'],
        1 => vec!['o', 'f', 'f', 'e', 'r'],
        2 => vec!['c', 'v'],
        3 => vec!['h', 'r'],
        4 => vec!['w', 'o', 'r', 'k'],
        5 => vec!['m', 'i', 'l', 'k'],
        6 => vec!['c', 'o', 'w'],
        _ => vec!['d', 'a', 'i', 'r', 'y'],
    };
    proof {
        assert(r@ =~= bad_words()[k as int]);
    }
    r
}

fn same_char_ignore_case(a: char, b: char) -> (r: bool)
    ensures
        r == same_ignore_case(a, b),
{
    let x = a as u32;
    let y = b as u32;
    x == y || (65 <= x && x <= 90 && x + 32 == y) || (65 <= y && y <= 90 && y + 32 == x)
}

/// Whether `s[start..end]` equals `w`, case of ASCII letters aside.
fn word_matches(s: &Vec<char>, start: usize, end: usize, w: &Vec<char>) -> (r: bool)
    requires
        start <= end <= s@.len(),
    ensures
        r == word_eq_ignore_case(s@.subrange(start as int, end as int), w@),
{
    if end - start != w.len() {
        return false;
    }
    let n = w.len();
    let mut i: usize = 0;
    while i < n
        invariant
            start <= end <= s@.len(),
            end - start == n,
            n == w@.len(),
            i <= n,
            forall|j: int| 0 <= j < i ==> same_ignore_case(s@[start + j], w@[j]),
        decreases n - i,
    {
        if !same_char_ignore_case(s[start + i], w[i]) {
            proof {
                let sub = s@.subrange(start as int, end as int);
                assert(!same_ignore_case(sub[i as int], w@[i as int]));
            }
            return false;
        }
        i += 1;
    }
    proof {
        let sub = s@.subrange(start as int, end as int);
        assert forall|j: int| 0 <= j < sub.len() implies same_ignore_case(#[trigger] sub[j], w@[j]) by {
            assert(sub[j] == s@[start + j]);
        }
    }
    true
}

/// Appends `s[start..end]` to `out` as the filter writes that word.
fn push_censored_word(out: &mut Vec<char>, s: &Vec<char>, start: usize, end: usize)
    requires
        start <= end <= s@.len(),
    ensures
        final(out)@ == old(out)@ + censor_word(s@.subrange(start as int, end as int)),
{
    let ghost w = s@.subrange(start as int, end as int);
    let mut bad = false;
    let mut k: usize = 0;
    while k < 8
        invariant
            k <= 8,
            start <= end <= s@.len(),
            w == s@.subrange(start as int, end as int),
            bad == exists|j: int| 0 <= j < k && word_eq_ignore_case(w, #[trigger] bad_words()[j]),
        decreases 8 - k,
    {
        let v = bad_word(k);
        if word_matches(s, start, end, &v) {
            bad = true;
        }
        k += 1;
    }
    let ghost before = out@;
    let mut i: usize = start;
    while i < end
        invariant
            start <= i <= end,
            end <= s@.len(),
            w == s@.subrange(start as int, end as int),
            bad == is_bad(w),
            before == old(out)@,
            out@ == before + censor_word(w).subrange(0, i - start),
        decreases end - i,
    {
        if bad {
            out.push('#');
        } else {
            out.push(s[i]);
        }
        i += 1;
        proof {
            assert(out@ =~= before + censor_word(w).subrange(0, i - start));
        }
    }
    proof {
        assert(censor_word(w).subrange(0, end - start) =~= censor_word(w));
    }
}

/// The text with each bad word, matched whole and with any case of ASCII
/// letters, replaced by as many `#` as it has characters. Words are
/// separated by space, `_`, `-` and line feed, which stay as they are.
pub fn censor_string(input: &str) -> (r: String)
    ensures
        r@ == censored(input@),
{
    let s = chars_of(input);
    let n = s.len();
    let mut out: Vec<char> = Vec::new();
    let mut start: usize = 0;
    let mut i: usize = 0;
    while i < n
        invariant
            n == s@.len(),
            s@ == input@,
            start <= i <= n,
            out@ + censored_from(s@, start as int, i as int) == censored(s@),
        decreases n - i,
    {
        let c = s[i];
        if c == ' ' || c == '_' || c == '-' || c == '\n' {
            let ghost old_out = out@;
            push_censored_word(&mut out, &s, start, i);
            out.push(c);
            proof {
                let rest = censored_from(s@, i + 1, i + 1);
                let word = censor_word(s@.subrange(start as int, i as int));
                assert(out@ + rest =~= old_out + (word.push(c) + rest));
            }
            start = i + 1;
        }
        i += 1;
    }
    push_censored_word(&mut out, &s, start, n);
    string_of(out)
}

} // verus!
