//! Candidate discovery: every place in a text where the engine could make an
//! edit, with indices into the scanned text's characters.

use vstd::prelude::*;

use crate::homophones::{set_index, HomophoneSets};
use crate::models::Mutation;
use crate::text::{
    alphabetic, ascii_punctuation, is_alpha, is_punct, is_space, is_word_char, string_of,
    whitespace,
};

verus! {

/// The characters of `s` that a clean word keeps (letters and apostrophes).
pub open spec fn clean(s: Seq<char>) -> Seq<char>
    decreases s.len(),
{
    if s.len() == 0 {
        Seq::empty()
    } else if is_word_char(s.last()) {
        clean(s.drop_last()).push(s.last())
    } else {
        clean(s.drop_last())
    }
}

/// The trailing punctuation of `s`: its longest suffix made of ASCII
/// punctuation characters.
pub open spec fn trailing_punct(s: Seq<char>) -> Seq<char>
    decreases s.len(),
{
    if s.len() > 0 && is_punct(s.last()) {
        trailing_punct(s.drop_last()).push(s.last())
    } else {
        Seq::empty()
    }
}

/// The trailing punctuation of `s` is a suffix of `s`, made of ASCII
/// punctuation, and the character before it, if any, is not punctuation.
pub proof fn lemma_trailing_punct_suffix(s: Seq<char>)
    ensures
        ({
            let p = trailing_punct(s);
            &&& p.len() <= s.len()
            &&& p == s.subrange(s.len() - p.len(), s.len() as int)
            &&& forall|k: int| 0 <= k < p.len() ==> is_punct(#[trigger] p[k])
            &&& p.len() < s.len() ==> !is_punct(s[s.len() - p.len() - 1])
        }),
    decreases s.len(),
{
    if s.len() > 0 && is_punct(s.last()) {
        let d = s.drop_last();
        lemma_trailing_punct_suffix(d);
        let pd = trailing_punct(d);
        let p = trailing_punct(s);
        assert(p == pd.push(s.last()));
        assert(p =~= s.subrange(s.len() - p.len(), s.len() as int));
        assert forall|k: int| 0 <= k < p.len() implies is_punct(#[trigger] p[k]) by {
            if k < pd.len() {
                assert(p[k] == pd[k]);
            }
        }
    } else {
        assert(trailing_punct(s) =~= s.subrange(s.len() as int, s.len() as int));
    }
}

/// A suffix `s[j..]` of punctuation that is not preceded by punctuation is
/// the trailing punctuation of `s`.
pub proof fn lemma_trailing_punct_from(s: Seq<char>, j: int)
    requires
        0 <= j <= s.len(),
        forall|k: int| j <= k < s.len() ==> is_punct(#[trigger] s[k]),
        j == 0 || !is_punct(s[j - 1]),
    ensures
        trailing_punct(s) == s.subrange(j, s.len() as int),
    decreases s.len(),
{
    if s.len() == j {
        assert(s.subrange(j, s.len() as int) =~= Seq::<char>::empty());
    } else {
        let d = s.drop_last();
        assert(is_punct(s[s.len() - 1]));
        lemma_trailing_punct_from(d, j);
        assert(s.subrange(j, s.len() as int) =~= d.subrange(j, d.len() as int).push(s.last()));
    }
}

/// Letter swaps at indices below `n`: one at each `i` where the characters
/// at `i` and `i + 1` are both alphabetic.
pub open spec fn swap_sites(t: Seq<char>, n: int) -> Seq<Mutation>
    decreases n,
{
    if n <= 0 {
        Seq::empty()
    } else {
        let i = n - 1;
        let rest = swap_sites(t, i);
        if i + 1 < t.len() && is_alpha(t[i]) && is_alpha(t[i + 1]) {
            rest.push(Mutation::SwapLetters(i as usize))
        } else {
            rest
        }
    }
}

/// Punctuation removals at indices below `n`: one at each ASCII punctuation
/// character.
pub open spec fn punct_sites(t: Seq<char>, n: int) -> Seq<Mutation>
    decreases n,
{
    if n <= 0 {
        Seq::empty()
    } else {
        let i = n - 1;
        let rest = punct_sites(t, i);
        if i < t.len() && is_punct(t[i]) {
            rest.push(Mutation::RemovePunctuation(i as usize))
        } else {
            rest
        }
    }
}

/// Whether a word (a maximal run of non-whitespace) can be replaced: its
/// clean form is not empty and belongs to a group of the table.
pub open spec fn word_matches(tbl: Seq<Seq<Seq<char>>>, w: Seq<char>) -> bool {
    clean(w).len() > 0 && set_index(tbl, clean(w)) >= 0
}

/// The replacement site for the word `t[start..end]`, if it can be replaced;
/// nothing when `start` is negative (no word is open).
pub open spec fn close_word(tbl: Seq<Seq<Seq<char>>>, t: Seq<char>, start: int, end: int) -> Seq<Mutation> {
    if 0 <= start && word_matches(tbl, t.subrange(start, end)) {
        seq![Mutation::ReplaceHomophone(start as usize, (end - start) as usize)]
    } else {
        Seq::empty()
    }
}

/// Homophone sites from index `i` on, where `start` is the index of the word
/// open at `i` (negative if `i` is not inside a word). Words are the maximal
/// runs of non-whitespace characters; a site spans the whole word,
/// punctuation included.
pub open spec fn word_sites(tbl: Seq<Seq<Seq<char>>>, t: Seq<char>, i: int, start: int) -> Seq<Mutation>
    decreases t.len() - i,
{
    if i >= t.len() {
        close_word(tbl, t, start, t.len() as int)
    } else if is_space(t[i]) {
        close_word(tbl, t, start, i) + word_sites(tbl, t, i + 1, -1)
    } else {
        word_sites(tbl, t, i + 1, if start < 0 { i } else { start })
    }
}

/// Every candidate edit of `t`: swaps, then punctuation removals, then
/// homophone replacements, each kind only where it is enabled.
pub open spec fn candidates(
    tbl: Seq<Seq<Seq<char>>>,
    t: Seq<char>,
    swaps: bool,
    puncts: bool,
    homophones: bool,
) -> Seq<Mutation> {
    (if swaps { swap_sites(t, t.len() as int) } else { Seq::empty() }) + (if puncts {
        punct_sites(t, t.len() as int)
    } else {
        Seq::empty()
    }) + (if homophones { word_sites(tbl, t, 0, -1) } else { Seq::empty() })
}

/// Swap sites below `n` are swaps of two letters of `t`, at strictly
/// increasing indices below `n`.
pub proof fn lemma_swap_sites_fit(t: Seq<char>, n: int)
    requires
        t.len() <= usize::MAX,
    ensures
        forall|j: int| 0 <= j < swap_sites(t, n).len() ==> (#[trigger] swap_sites(t, n)[j] matches Mutation::SwapLetters(i)
            && i < n && i + 1 < t.len() && is_alpha(t[i as int]) && is_alpha(t[i + 1])),
        forall|a: int, b: int| 0 <= a < b < swap_sites(t, n).len()
            ==> (#[trigger] swap_sites(t, n)[a]).spec_position() < (#[trigger] swap_sites(t, n)[b]).spec_position(),
    decreases n,
{
    if n > 0 {
        lemma_swap_sites_fit(t, n - 1);
        let rest = swap_sites(t, n - 1);
        let i = n - 1;
        if i + 1 < t.len() && is_alpha(t[i]) && is_alpha(t[i + 1]) {
            let q = rest.push(Mutation::SwapLetters(i as usize));
            assert(swap_sites(t, n) == q);
            assert forall|j: int| 0 <= j < q.len() implies (#[trigger] q[j] matches Mutation::SwapLetters(k)
                && k < n && k + 1 < t.len() && is_alpha(t[k as int]) && is_alpha(t[k + 1])) by {
                if j < rest.len() {
                    assert(q[j] == rest[j]);
                }
            }
            assert forall|a: int, b: int| 0 <= a < b < q.len() implies (#[trigger] q[a]).spec_position()
                < (#[trigger] q[b]).spec_position() by {
                assert(q[a] == rest[a]);
                if b < rest.len() {
                    assert(q[b] == rest[b]);
                }
            }
        }
    }
}

/// Punctuation sites below `n` are removals of punctuation characters of
/// `t`, at strictly increasing indices below `n`.
pub proof fn lemma_punct_sites_fit(t: Seq<char>, n: int)
    requires
        t.len() <= usize::MAX,
    ensures
        forall|j: int| 0 <= j < punct_sites(t, n).len() ==> (#[trigger] punct_sites(t, n)[j] matches Mutation::RemovePunctuation(i)
            && i < n && i < t.len() && is_punct(t[i as int])),
        forall|a: int, b: int| 0 <= a < b < punct_sites(t, n).len()
            ==> (#[trigger] punct_sites(t, n)[a]).spec_position() < (#[trigger] punct_sites(t, n)[b]).spec_position(),
    decreases n,
{
    if n > 0 {
        lemma_punct_sites_fit(t, n - 1);
        let rest = punct_sites(t, n - 1);
        let i = n - 1;
        if i < t.len() && is_punct(t[i]) {
            let q = rest.push(Mutation::RemovePunctuation(i as usize));
            assert(punct_sites(t, n) == q);
            assert forall|j: int| 0 <= j < q.len() implies (#[trigger] q[j] matches Mutation::RemovePunctuation(k)
                && k < n && k < t.len() && is_punct(t[k as int])) by {
                if j < rest.len() {
                    assert(q[j] == rest[j]);
                }
            }
            assert forall|a: int, b: int| 0 <= a < b < q.len() implies (#[trigger] q[a]).spec_position()
                < (#[trigger] q[b]).spec_position() by {
                assert(q[a] == rest[a]);
                if b < rest.len() {
                    assert(q[b] == rest[b]);
                }
            }
        }
    }
}

/// The clean form of `s[lo..hi]`.
pub fn clean_of(s: &Vec<char>, lo: usize, hi: usize) -> (r: Vec<char>)
    requires
        lo <= hi <= s.len(),
    ensures
        r@ == clean(s@.subrange(lo as int, hi as int)),
{
    let mut r: Vec<char> = Vec::new();
    let mut k: usize = lo;
    while k < hi
        invariant
            lo <= k <= hi <= s.len(),
            r@ == clean(s@.subrange(lo as int, k as int)),
        decreases hi - k,
    {
        assert(s@.subrange(lo as int, k + 1).drop_last() =~= s@.subrange(lo as int, k as int));
        let c = s[k];
        if c == '\'' || alphabetic(c) {
            r.push(c);
        }
        k += 1;
    }
    r
}

/// The trailing punctuation of `s[lo..hi]`, found by scanning back from `hi`.
pub fn trailing_punct_of(s: &Vec<char>, lo: usize, hi: usize) -> (r: Vec<char>)
    requires
        lo <= hi <= s.len(),
    ensures
        r@ == trailing_punct(s@.subrange(lo as int, hi as int)),
{
    let mut j: usize = hi;
    while j > lo && ascii_punctuation(s[j - 1])
        invariant
            lo <= j <= hi <= s.len(),
            forall|k: int| j <= k < hi ==> is_punct(#[trigger] s@[k]),
        decreases j - lo,
    {
        j -= 1;
    }
    let ghost w = s@.subrange(lo as int, hi as int);
    proof {
        assert forall|k: int| j - lo <= k < w.len() implies is_punct(#[trigger] w[k]) by {
            assert(w[k] == s@[lo + k]);
        }
        lemma_trailing_punct_from(w, j - lo);
    }
    let mut r: Vec<char> = Vec::new();
    let mut k: usize = j;
    while k < hi
        invariant
            lo <= j <= k <= hi <= s.len(),
            r@ == s@.subrange(j as int, k as int),
        decreases hi - k,
    {
        r.push(s[k]);
        k += 1;
        assert(r@ =~= s@.subrange(j as int, k as int));
    }
    assert(r@ =~= w.subrange(j - lo, w.len() as int));
    r
}

/// Whether no two adjacent letters of `t` include an ASCII punctuation
/// character.
pub open spec fn letter_pairs_unpunctuated(t: Seq<char>, n: int) -> bool {
    forall|k: int|
        0 <= k < n && k + 1 < t.len() && #[trigger] is_alpha(t[k]) && is_alpha(t[k + 1]) ==> !is_punct(
            t[k],
        ) && !is_punct(t[k + 1])
}

/// All letter swap sites of `t`.
pub fn find_swaps(t: &Vec<char>, out: &mut Vec<Mutation>)
    ensures
        final(out)@ == old(out)@ + swap_sites(t@, t@.len() as int),
        letter_pairs_unpunctuated(t@, t@.len() as int),
{
    let ghost start = old(out)@;
    let mut i: usize = 0;
    while i < t.len()
        invariant
            i <= t.len(),
            out@ == start + swap_sites(t@, i as int),
            letter_pairs_unpunctuated(t@, i as int),
        decreases t.len() - i,
    {
        if i + 1 < t.len() && alphabetic(t[i]) && alphabetic(t[i + 1]) {
            out.push(Mutation::SwapLetters(i));
            assert(out@ =~= start + swap_sites(t@, i + 1));
        } else {
            assert(out@ =~= start + swap_sites(t@, i + 1));
        }
        i += 1;
    }
}

/// All punctuation removal sites of `t`.
pub fn find_punctuation(t: &Vec<char>, out: &mut Vec<Mutation>)
    ensures
        final(out)@ == old(out)@ + punct_sites(t@, t@.len() as int),
{
    let ghost start = old(out)@;
    let mut i: usize = 0;
    while i < t.len()
        invariant
            i <= t.len(),
            out@ == start + punct_sites(t@, i as int),
        decreases t.len() - i,
    {
        if ascii_punctuation(t[i]) {
            out.push(Mutation::RemovePunctuation(i));
            assert(out@ =~= start + punct_sites(t@, i + 1));
        } else {
            assert(out@ =~= start + punct_sites(t@, i + 1));
        }
        i += 1;
    }
}

/// Whether the word `t[lo..hi]` can be replaced.
fn word_site(table: &HomophoneSets, t: &Vec<char>, lo: usize, hi: usize) -> (r: bool)
    requires
        lo <= hi <= t.len(),
    ensures
        r == word_matches(table.table(), t@.subrange(lo as int, hi as int)),
{
    let c = clean_of(t, lo, hi);
    if c.len() == 0 {
        return false;
    }
    let w = string_of(&c);
    table.find_matching_set(w.as_str()).is_some()
}

/// All homophone replacement sites of `t`.
pub fn find_homophones(table: &HomophoneSets, t: &Vec<char>, out: &mut Vec<Mutation>)
    ensures
        final(out)@ == old(out)@ + word_sites(table.table(), t@, 0, -1),
{
    let ghost tbl = table.table();
    let ghost start = old(out)@;
    let mut i: usize = 0;
    let mut open: bool = false;
    let mut word_start: usize = 0;
    while i < t.len()
        invariant
            i <= t.len(),
            word_start <= i,
            tbl == table.table(),
            out@ + word_sites(tbl, t@, i as int, if open { word_start as int } else { -1 })
                == start + word_sites(tbl, t@, 0, -1),
        decreases t.len() - i,
    {
        let ghost before = out@;
        let ghost ws: int = if open { word_start as int } else { -1 };
        if whitespace(t[i]) {
            if open && word_site(table, t, word_start, i) {
                out.push(Mutation::ReplaceHomophone(word_start, i - word_start));
            }
            assert(out@ =~= before + close_word(tbl, t@, ws, i as int));
            open = false;
        } else if !open {
            open = true;
            word_start = i;
        }
        i += 1;
    }
    let ghost before = out@;
    let ghost ws: int = if open { word_start as int } else { -1 };
    if open && word_site(table, t, word_start, t.len()) {
        out.push(Mutation::ReplaceHomophone(word_start, t.len() - word_start));
    }
    assert(out@ =~= before + close_word(tbl, t@, ws, t@.len() as int));
}

} // verus!
