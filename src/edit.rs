//! Applying edits to a character buffer. Edits are applied one after
//! another; an edit whose site no longer fits the buffer is skipped and not
//! reported.

use vstd::prelude::*;

use crate::homophones::{alternatives, is_replacement};
use crate::models::Mutation;
use crate::scan::{clean, trailing_punct};
use crate::text::is_punct;

verus! {

/// `b` with the characters at `i` and `i + 1` exchanged.
pub open spec fn swap_at(b: Seq<char>, i: int) -> Seq<char> {
    b.update(i, b[i + 1]).update(i + 1, b[i])
}

/// `b` with `b[i..i + len]` replaced by `r`.
pub open spec fn splice(b: Seq<char>, i: int, len: int, r: Seq<char>) -> Seq<char> {
    b.subrange(0, i) + r + b.subrange(i + len, b.len() as int)
}

/// The word a replacement site covers in `b`.
pub open spec fn span(b: Seq<char>, i: int, len: int) -> Seq<char> {
    b.subrange(i, i + len)
}

/// Whether the edit `m` changes the buffer `b`: its site fits, and for a
/// punctuation removal the character is still punctuation, and for a
/// homophone the clean word still has an alternative.
pub open spec fn takes_effect(tbl: Seq<Seq<Seq<char>>>, b: Seq<char>, m: Mutation) -> bool {
    match m {
        Mutation::SwapLetters(i) => i + 1 < b.len(),
        Mutation::RemovePunctuation(i) => i < b.len() && is_punct(b[i as int]),
        Mutation::ReplaceHomophone(i, len) => i + len <= b.len() && alternatives(
            tbl,
            clean(span(b, i as int, len as int)),
        ).len() > 0,
    }
}

/// The buffer after `m`, where `alt` is the replacement word a homophone
/// edit puts in (the trailing punctuation of the old word is kept after it).
pub open spec fn edited(b: Seq<char>, m: Mutation, alt: Seq<char>) -> Seq<char> {
    match m {
        Mutation::SwapLetters(i) => swap_at(b, i as int),
        Mutation::RemovePunctuation(i) => b.remove(i as int),
        Mutation::ReplaceHomophone(i, len) => splice(
            b,
            i as int,
            len as int,
            alt + trailing_punct(span(b, i as int, len as int)),
        ),
    }
}

/// One step: the buffer and the edits applied so far, after trying `m`.
pub open spec fn step(
    tbl: Seq<Seq<Seq<char>>>,
    s: (Seq<char>, Seq<Mutation>),
    m: Mutation,
    alt: Seq<char>,
) -> (Seq<char>, Seq<Mutation>) {
    if takes_effect(tbl, s.0, m) {
        (edited(s.0, m, alt), s.1.push(m))
    } else {
        s
    }
}

/// Whether `alt` may be the word picked for `m` on buffer `b`: for a
/// homophone edit that takes effect, a replacement of its clean word.
pub open spec fn choice_ok(tbl: Seq<Seq<Seq<char>>>, b: Seq<char>, m: Mutation, alt: Seq<char>) -> bool {
    match m {
        Mutation::ReplaceHomophone(i, len) => takes_effect(tbl, b, m) ==> is_replacement(
            tbl,
            clean(span(b, i as int, len as int)),
            alt,
        ),
        _ => true,
    }
}

/// The buffer and the applied edits after the first `n` edits of `ms`,
/// applied in order to `t`, with `ch[k]` the word picked for `ms[k]`.
pub open spec fn run(
    tbl: Seq<Seq<Seq<char>>>,
    t: Seq<char>,
    ms: Seq<Mutation>,
    ch: Seq<Seq<char>>,
    n: int,
) -> (Seq<char>, Seq<Mutation>)
    decreases n,
{
    if n <= 0 {
        (t, Seq::empty())
    } else {
        step(tbl, run(tbl, t, ms, ch, n - 1), ms[n - 1], ch[n - 1])
    }
}

/// Whether every word picked in the first `n` edits is a valid pick.
pub open spec fn choices_ok(
    tbl: Seq<Seq<Seq<char>>>,
    t: Seq<char>,
    ms: Seq<Mutation>,
    ch: Seq<Seq<char>>,
    n: int,
) -> bool
    decreases n,
{
    if n <= 0 {
        true
    } else {
        choices_ok(tbl, t, ms, ch, n - 1) && choice_ok(
            tbl,
            run(tbl, t, ms, ch, n - 1).0,
            ms[n - 1],
            ch[n - 1],
        )
    }
}

/// A run reads only the picks of the edits it has made.
pub proof fn lemma_run_prefix(
    tbl: Seq<Seq<Seq<char>>>,
    t: Seq<char>,
    ms: Seq<Mutation>,
    ch1: Seq<Seq<char>>,
    ch2: Seq<Seq<char>>,
    n: int,
)
    requires
        forall|k: int| 0 <= k < n ==> ch1[k] == ch2[k],
    ensures
        run(tbl, t, ms, ch1, n) == run(tbl, t, ms, ch2, n),
        choices_ok(tbl, t, ms, ch1, n) == choices_ok(tbl, t, ms, ch2, n),
    decreases n,
{
    if n > 0 {
        lemma_run_prefix(tbl, t, ms, ch1, ch2, n - 1);
    }
}

/// Every applied edit is one of the edits tried.
pub proof fn lemma_run_applied(
    tbl: Seq<Seq<Seq<char>>>,
    t: Seq<char>,
    ms: Seq<Mutation>,
    ch: Seq<Seq<char>>,
    n: int,
)
    requires
        0 <= n <= ms.len(),
    ensures
        run(tbl, t, ms, ch, n).1.len() <= n,
        forall|m: Mutation| run(tbl, t, ms, ch, n).1.contains(m) ==> ms.contains(m),
    decreases n,
{
    if n > 0 {
        lemma_run_applied(tbl, t, ms, ch, n - 1);
        let prev = run(tbl, t, ms, ch, n - 1).1;
        assert forall|m: Mutation| run(tbl, t, ms, ch, n).1.contains(m) implies ms.contains(m) by {
            if takes_effect(tbl, run(tbl, t, ms, ch, n - 1).0, ms[n - 1]) {
                let q = prev.push(ms[n - 1]);
                let j = choose|j: int| 0 <= j < q.len() && #[trigger] q[j] == m;
                if j < prev.len() {
                    assert(prev.contains(m));
                } else {
                    assert(ms[n - 1] == m);
                    assert(ms.contains(ms[n - 1]));
                }
            }
        }
    }
}

/// Whether `m` is a letter swap or punctuation removal whose site lies in
/// `t`, a swap touching no punctuation and a removal finding punctuation.
pub open spec fn single_char_site(t: Seq<char>, m: Mutation) -> bool {
    match m {
        Mutation::SwapLetters(i) => i + 1 < t.len() && !is_punct(t[i as int]) && !is_punct(t[i + 1]),
        Mutation::RemovePunctuation(i) => i < t.len() && is_punct(t[i as int]),
        Mutation::ReplaceHomophone(_, _) => false,
    }
}

/// Letter swaps and punctuation removals of `t`, at strictly decreasing
/// indices, all take effect: the text below the last edit made is still as
/// it was, and a removal never leaves a swap without its second letter.
pub proof fn lemma_single_char_edits_take_effect(
    tbl: Seq<Seq<Seq<char>>>,
    t: Seq<char>,
    ms: Seq<Mutation>,
    ch: Seq<Seq<char>>,
    n: int,
)
    requires
        0 <= n <= ms.len(),
        forall|j: int| 0 <= j < ms.len() ==> single_char_site(t, #[trigger] ms[j]),
        forall|a: int, b: int| 0 <= a < b < ms.len() ==> (#[trigger] ms[a]).spec_position() > (#[trigger] ms[b]).spec_position(),
    ensures
        run(tbl, t, ms, ch, n).1.len() == n,
        n > 0 ==> ({
            let p = ms[n - 1].spec_position() as int;
            let b = run(tbl, t, ms, ch, n).0;
            &&& b.subrange(0, p) == t.subrange(0, p)
            &&& p <= b.len()
            &&& p == b.len() ==> ms[n - 1] is RemovePunctuation
        }),
    decreases n,
{
    if n > 0 {
        lemma_single_char_edits_take_effect(tbl, t, ms, ch, n - 1);
        let b = run(tbl, t, ms, ch, n - 1).0;
        let m = ms[n - 1];
        let q = m.spec_position() as int;
        assert(single_char_site(t, m));
        if n > 1 {
            let p = ms[n - 2].spec_position() as int;
            assert(single_char_site(t, ms[n - 2]));
            assert(q < p);
            assert(b.subrange(0, p)[q] == t.subrange(0, p)[q]);
            if q + 1 < p {
                assert(b.subrange(0, p)[q + 1] == t.subrange(0, p)[q + 1]);
            }
            assert(b.subrange(0, q) =~= b.subrange(0, p).subrange(0, q));
            assert(t.subrange(0, q) =~= t.subrange(0, p).subrange(0, q));
        } else {
            assert(b == t);
        }
        assert(takes_effect(tbl, b, m));
        let b2 = run(tbl, t, ms, ch, n).0;
        assert(b2 == edited(b, m, ch[n - 1]));
        assert(b2.subrange(0, q) =~= b.subrange(0, q));
    }
}

/// A homophone replacement that takes effect keeps the trailing punctuation
/// of the replaced word right after the new word, and leaves the text before
/// and after the word as it was.
pub proof fn lemma_trailing_punctuation_kept(
    tbl: Seq<Seq<Seq<char>>>,
    b: Seq<char>,
    i: usize,
    len: usize,
    alt: Seq<char>,
)
    requires
        takes_effect(tbl, b, Mutation::ReplaceHomophone(i, len)),
    ensures
        ({
            let out = edited(b, Mutation::ReplaceHomophone(i, len), alt);
            let p = trailing_punct(span(b, i as int, len as int));
            &&& out.subrange(i as int, i + alt.len()) == alt
            &&& out.subrange(i + alt.len(), i + alt.len() + p.len()) == p
            &&& out.subrange(0, i as int) == b.subrange(0, i as int)
            &&& out.subrange(i + alt.len() + p.len(), out.len() as int) == b.subrange(
                i + len,
                b.len() as int,
            )
        }),
{
    let out = edited(b, Mutation::ReplaceHomophone(i, len), alt);
    let p = trailing_punct(span(b, i as int, len as int));
    assert(out =~= b.subrange(0, i as int) + (alt + p) + b.subrange(i + len, b.len() as int));
    assert(out.subrange(i as int, i + alt.len()) =~= alt);
    assert(out.subrange(i + alt.len(), i + alt.len() + p.len()) =~= p);
    assert(out.subrange(0, i as int) =~= b.subrange(0, i as int));
    assert(out.subrange(i + alt.len() + p.len(), out.len() as int) =~= b.subrange(
        i + len,
        b.len() as int,
    ));
}

/// Exchanges the letters at `i` and `i + 1`.
pub fn swap_letters_at(b: &mut Vec<char>, i: usize)
    requires
        i + 1 < old(b).len(),
    ensures
        final(b)@ == swap_at(old(b)@, i as int),
{
    let x = b[i];
    let y = b[i + 1];
    b.set(i, y);
    b.set(i + 1, x);
}

/// `b[lo..hi]` replaced by `r`.
pub fn splice_chars(b: &Vec<char>, lo: usize, hi: usize, r: &Vec<char>) -> (out: Vec<char>)
    requires
        lo <= hi <= b.len(),
    ensures
        out@ == splice(b@, lo as int, hi - lo, r@),
{
    let mut out: Vec<char> = Vec::new();
    let mut k: usize = 0;
    while k < lo
        invariant
            k <= lo <= hi <= b.len(),
            out@ == b@.subrange(0, k as int),
        decreases lo - k,
    {
        out.push(b[k]);
        k += 1;
        assert(out@ =~= b@.subrange(0, k as int));
    }
    let mut k: usize = 0;
    while k < r.len()
        invariant
            k <= r.len(),
            lo <= hi <= b.len(),
            out@ == b@.subrange(0, lo as int) + r@.subrange(0, k as int),
        decreases r.len() - k,
    {
        out.push(r[k]);
        k += 1;
        assert(out@ =~= b@.subrange(0, lo as int) + r@.subrange(0, k as int));
    }
    let mut k: usize = hi;
    while k < b.len()
        invariant
            lo <= hi <= k <= b.len(),
            out@ == b@.subrange(0, lo as int) + r@ + b@.subrange(hi as int, k as int),
        decreases b.len() - k,
    {
        out.push(b[k]);
        k += 1;
        assert(out@ =~= b@.subrange(0, lo as int) + r@ + b@.subrange(hi as int, k as int));
    }
    assert(r@.subrange(0, r@.len() as int) =~= r@);
    out
}

} // verus!
