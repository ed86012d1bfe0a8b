//! The mutation engine: finds the candidate edits of a text, selects a
//! reproducible share of them with its own pseudo-random generator, and
//! applies them from the end of the text toward its start.

use rand::rngs::StdRng;
use std::sync::Arc;
use vstd::prelude::*;

use crate::edit::{
    choices_ok, lemma_run_applied, lemma_run_prefix, lemma_single_char_edits_take_effect, run,
    single_char_site, splice_chars, swap_letters_at,
};
use crate::homophones::HomophoneSets;
use crate::models::{Mutation, MutationResult};
use crate::random::{entropy_rng, seeded_rng, shuffle_mutations};
use crate::scan::{
    candidates, clean_of, find_homophones, find_punctuation, find_swaps, lemma_punct_sites_fit,
    lemma_swap_sites_fit, letter_pairs_unpunctuated, punct_sites, trailing_punct_of, swap_sites,
};
use crate::text::{ascii_punctuation, chars_of, string_of};

verus! {

/// Whether edits are ordered by position, highest first.
pub open spec fn descending(ms: Seq<Mutation>) -> bool {
    forall|i: int, j: int|
        0 <= i < j < ms.len() ==> #[trigger] ms[i].spec_position() >= #[trigger] ms[j].spec_position()
}

/// How many of `n` candidates a rate of `num / den` selects: the floor of
/// `n * num / den`.
pub open spec fn target_count(n: nat, num: nat, den: nat) -> nat {
    if den == 0 {
        0
    } else {
        (n * num) / den
    }
}

/// Whether `sel` may be the selection of `k` edits out of `cands`: exactly
/// `k` of them, as a sub-multiset, ordered by position, highest first.
pub open spec fn selection_ok(cands: Seq<Mutation>, k: nat, sel: Seq<Mutation>) -> bool {
    &&& sel.len() == k
    &&& sel.to_multiset().subset_of(cands.to_multiset())
    &&& descending(sel)
}

/// The floor of `n * num / den`, for a rate `num / den` of at most one.
pub fn selected_count(n: usize, num: u32, den: u32) -> (r: usize)
    requires
        0 < den,
        num <= den,
    ensures
        r == target_count(n as nat, num as nat, den as nat),
        r <= n,
{
    assert((n as u128) * (num as u128) <= 0xffff_ffff_ffff_ffff_u128 * 0xffff_ffff_u128)
        by (nonlinear_arith)
        requires
            n <= 0xffff_ffff_ffff_ffff_u128,
            num <= 0xffff_ffff_u128,
    ;
    let p: u128 = (n as u128) * (num as u128);
    let q: u128 = p / (den as u128);
    proof {
        assert((n as nat) * (num as nat) <= (n as nat) * (den as nat)) by (nonlinear_arith)
            requires
                num <= den,
        ;
        assert(((n as nat) * (num as nat)) / (den as nat) <= n as nat) by (nonlinear_arith)
            requires
                (n as nat) * (num as nat) <= (n as nat) * (den as nat),
                0 < den,
        ;
    }
    q as usize
}

/// The edits of `v`, ordered by position, highest first; edits at the same
/// position keep their order.
pub fn sort_descending(v: &Vec<Mutation>) -> (r: Vec<Mutation>)
    ensures
        r@.to_multiset() == v@.to_multiset(),
        descending(r@),
{
    broadcast use vstd::seq_lib::group_to_multiset_ensures;

    let mut r: Vec<Mutation> = Vec::new();
    let mut k: usize = 0;
    while k < v.len()
        invariant
            k <= v.len(),
            r@.to_multiset() == v@.subrange(0, k as int).to_multiset(),
            descending(r@),
        decreases v.len() - k,
    {
        let x = v[k];
        let px = x.position();
        let mut p: usize = 0;
        while p < r.len() && r[p].position() >= px
            invariant
                p <= r.len(),
                forall|q: int| 0 <= q < p ==> #[trigger] r@[q].spec_position() >= px,
            decreases r.len() - p,
        {
            p += 1;
        }
        let ghost old_r = r@;
        r.insert(p, x);
        proof {
            vstd::seq_lib::to_multiset_insert(old_r, p as int, x);
            assert(v@.subrange(0, k + 1) =~= v@.subrange(0, k as int).push(x));
            vstd::seq_lib::to_multiset_build(v@.subrange(0, k as int), x);
            assert forall|i: int, j: int| 0 <= i < j < r@.len() implies #[trigger] r@[i].spec_position()
                >= #[trigger] r@[j].spec_position() by {
                if p < old_r.len() {
                    assert(old_r[p as int].spec_position() < px);
                }
                if i < p && j == p {
                } else if i == p && j > p {
                    assert(old_r[j - 1].spec_position() <= old_r[p as int].spec_position());
                } else if i < p && j > p {
                    assert(old_r[i].spec_position() >= old_r[j - 1].spec_position());
                } else if j < p {
                    assert(old_r[i].spec_position() >= old_r[j].spec_position());
                } else {
                    assert(old_r[i - 1].spec_position() >= old_r[j - 1].spec_position());
                }
            }
        }
        k += 1;
    }
    assert(v@.subrange(0, v.len() as int) =~= v@);
    r
}

/// A prefix of a sequence holds no item more often than the sequence does.
pub proof fn lemma_prefix_multiset(s: Seq<Mutation>, k: int)
    requires
        0 <= k <= s.len(),
    ensures
        s.subrange(0, k).to_multiset().subset_of(s.to_multiset()),
    decreases s.len(),
{
    broadcast use vstd::seq_lib::group_to_multiset_ensures;

    if k == s.len() {
        assert(s.subrange(0, k) =~= s);
    } else {
        let d = s.drop_last();
        lemma_prefix_multiset(d, k);
        assert(s.subrange(0, k) =~= d.subrange(0, k));
        assert(s =~= d.push(s.last()));
    }
}

/// Applies edits to text. Each engine owns its generator: the shuffle that
/// selects the edits and each homophone pick draw from it, in that order.
pub struct TextMutator {
    rate_numerator: u32,
    rate_denominator: u32,
    rng: StdRng,
    swap_letters: bool,
    remove_punctuation: bool,
    use_homophones: bool,
    homophones: Arc<HomophoneSets>,
}

impl TextMutator {
    /// The rate is a fraction of at most one, with a positive denominator.
    pub closed spec fn wf(&self) -> bool {
        0 < self.rate_denominator && self.rate_numerator <= self.rate_denominator
    }

    /// The numerator of the mutation rate.
    pub closed spec fn rate_num(&self) -> nat {
        self.rate_numerator as nat
    }

    /// The denominator of the mutation rate.
    pub closed spec fn rate_den(&self) -> nat {
        self.rate_denominator as nat
    }

    /// Whether letter swaps are enabled.
    pub closed spec fn swaps(&self) -> bool {
        self.swap_letters
    }

    /// Whether punctuation removal is enabled.
    pub closed spec fn puncts(&self) -> bool {
        self.remove_punctuation
    }

    /// Whether homophone replacement is enabled.
    pub closed spec fn homophone_kind(&self) -> bool {
        self.use_homophones
    }

    /// The homophone table the engine looks words up in.
    pub closed spec fn table(&self) -> Seq<Seq<Seq<char>>> {
        self.homophones.table()
    }

    /// The candidate edits of `t` under this engine's settings.
    pub open spec fn spec_candidates(&self, t: Seq<char>) -> Seq<Mutation> {
        candidates(self.table(), t, self.swaps(), self.puncts(), self.homophone_kind())
    }

    /// Whether two engines have the same settings (their generators aside).
    pub open spec fn same_settings(&self, other: &Self) -> bool {
        &&& self.wf() == other.wf()
        &&& self.rate_num() == other.rate_num()
        &&& self.rate_den() == other.rate_den()
        &&& self.swaps() == other.swaps()
        &&& self.puncts() == other.puncts()
        &&& self.homophone_kind() == other.homophone_kind()
        &&& self.table() == other.table()
    }

    /// An engine with rate `rate_numerator / rate_denominator`, the given
    /// kinds of edit enabled, and a generator seeded from `seed` when one is
    /// given, else from the operating system's entropy source. `None` only
    /// when no seed is given and the entropy source fails.
    pub fn new(
        rate_numerator: u32,
        rate_denominator: u32,
        seed: Option<u64>,
        swap_letters: bool,
        remove_punctuation: bool,
        homophones: bool,
        homophone_sets: Arc<HomophoneSets>,
    ) -> (r: Option<Self>)
        requires
            0 < rate_denominator,
            rate_numerator <= rate_denominator,
        ensures
            seed is Some ==> r is Some,
            r is Some ==> ({
                let e = r->0;
                &&& e.wf()
                &&& e.rate_num() == rate_numerator
                &&& e.rate_den() == rate_denominator
                &&& e.swaps() == swap_letters
                &&& e.puncts() == remove_punctuation
                &&& e.homophone_kind() == homophones
                &&& e.table() == homophone_sets.table()
            }),
    {
        let rng = match seed {
            Some(s) => seeded_rng(s),
            None => match entropy_rng() {
                Some(g) => g,
                None => {
                    return None;
                },
            },
        };
        Some(
            TextMutator {
                rate_numerator,
                rate_denominator,
                rng,
                swap_letters,
                remove_punctuation,
                use_homophones: homophones,
                homophones: homophone_sets,
            },
        )
    }

    /// Every candidate edit of `text`: swaps, then punctuation removals, then
    /// homophone replacements, for the kinds that are enabled.
    pub fn find_possible_mutations(&self, text: &str) -> (r: Vec<Mutation>)
        ensures
            r@ == self.spec_candidates(text@),
            self.swaps() ==> letter_pairs_unpunctuated(text@, text@.len() as int),
    {
        let t = chars_of(text);
        let mut r: Vec<Mutation> = Vec::new();
        if self.swap_letters {
            find_swaps(&t, &mut r);
        }
        let ghost a = r@;
        if self.remove_punctuation {
            find_punctuation(&t, &mut r);
        }
        let ghost b = r@;
        if self.use_homophones {
            find_homophones(&self.homophones, &t, &mut r);
        }
        assert(r@ =~= self.spec_candidates(text@));
        r
    }

    /// Applies `selected` to `text` in order, skipping each edit that does not
    /// take effect; returns the new text and the edits applied. Only
    /// homophone replacements draw from the generator.
    pub fn apply_mutations(&mut self, text: Vec<char>, selected: &Vec<Mutation>) -> (r: (
        Vec<char>,
        Vec<Mutation>,
    ))
        ensures
            final(self).same_settings(old(self)),
            (forall|j: int| 0 <= j < selected@.len() ==> !(#[trigger] selected@[j] is ReplaceHomophone))
                ==> *final(self) == *old(self),
            exists|ch: Seq<Seq<char>>|
                #![trigger run(old(self).table(), text@, selected@, ch, selected@.len() as int)]
                ch.len() == selected@.len() && choices_ok(
                    old(self).table(),
                    text@,
                    selected@,
                    ch,
                    selected@.len() as int,
                ) && run(old(self).table(), text@, selected@, ch, selected@.len() as int) == (
                    r.0@,
                    r.1@,
                ),
    {
        let ghost tbl = self.table();
        let ghost t0 = text@;
        let ghost ms = selected@;
        let ghost start = *self;
        let mut buf = text;
        let mut applied: Vec<Mutation> = Vec::new();
        let ghost mut ch: Seq<Seq<char>> = Seq::empty();
        let mut k: usize = 0;
        while k < selected.len()
            invariant
                k <= selected.len(),
                ms == selected@,
                self.same_settings(&start),
                tbl == self.table(),
                ch.len() == k,
                choices_ok(tbl, t0, ms, ch, k as int),
                run(tbl, t0, ms, ch, k as int) == (buf@, applied@),
                (forall|j: int| 0 <= j < k ==> !(#[trigger] ms[j] is ReplaceHomophone)) ==> *self
                    == start,
            decreases selected.len() - k,
        {
            let m = selected[k];
            let ghost b0 = buf@;
            let ghost mut a: Seq<char> = Seq::empty();
            match m {
                Mutation::SwapLetters(i) => {
                    if i < buf.len() && i + 1 < buf.len() {
                        swap_letters_at(&mut buf, i);
                        applied.push(m);
                    }
                },
                Mutation::RemovePunctuation(i) => {
                    if i < buf.len() && ascii_punctuation(buf[i]) {
                        buf.remove(i);
                        applied.push(m);
                    }
                },
                Mutation::ReplaceHomophone(i, len) => {
                    if i <= buf.len() && len <= buf.len() - i {
                        let word = clean_of(&buf, i, i + len);
                        let w = string_of(&word);
                        match self.homophones.get_alternative(w.as_str(), &mut self.rng) {
                            Some(alt) => {
                                let mut rep = chars_of(alt.as_str());
                                let mut tail = trailing_punct_of(&buf, i, i + len);
                                rep.append(&mut tail);
                                buf = splice_chars(&buf, i, i + len, &rep);
                                applied.push(m);
                                proof {
                                    a = alt@;
                                }
                            },
                            None => {},
                        }
                    }
                },
            }
            proof {
                lemma_run_prefix(tbl, t0, ms, ch, ch.push(a), k as int);
                ch = ch.push(a);
            }
            k += 1;
        }
        (buf, applied)
    }

    /// With homophones off, the candidates of a text are distinct single
    /// character edits (see [`single_char_site`]), at distinct positions.
    pub proof fn lemma_single_char_candidates(&self, t: Seq<char>)
        requires
            !self.homophone_kind(),
            t.len() <= usize::MAX,
            self.swaps() ==> letter_pairs_unpunctuated(t, t.len() as int),
        ensures
            self.spec_candidates(t).no_duplicates(),
            forall|j: int| 0 <= j < self.spec_candidates(t).len() ==> single_char_site(t, #[trigger] self.spec_candidates(t)[j]),
    {
        let sw = if self.swaps() { swap_sites(t, t.len() as int) } else { Seq::empty() };
        let pu = if self.puncts() { punct_sites(t, t.len() as int) } else { Seq::empty() };
        let c = self.spec_candidates(t);
        assert(c =~= sw + pu);
        lemma_swap_sites_fit(t, t.len() as int);
        lemma_punct_sites_fit(t, t.len() as int);
        assert forall|j: int| 0 <= j < c.len() implies single_char_site(t, #[trigger] c[j]) by {
            if j < sw.len() {
                assert(c[j] == sw[j]);
            } else {
                assert(c[j] == pu[j - sw.len()]);
            }
        }
        assert forall|a: int, b: int| 0 <= a < c.len() && 0 <= b < c.len() && a != b implies c[a] != c[b] by {
            let (x, y) = if a < b { (a, b) } else { (b, a) };
            if y < sw.len() {
                assert(sw[x].spec_position() < sw[y].spec_position());
            } else if x >= sw.len() {
                assert(pu[x - sw.len()].spec_position() < pu[y - sw.len()].spec_position());
            } else {
                assert(c[x] is SwapLetters);
                assert(c[y] is RemovePunctuation);
            }
        }
    }

    /// Mutates `text`. The number of edits to make is the floor of the number
    /// of candidates times the rate; when it is zero the text comes back
    /// unchanged. Otherwise that many candidates, picked by the generator,
    /// are applied from the highest position down, and the result reports
    /// the edits that took effect.
    pub fn mutate(&mut self, text: &str) -> (r: MutationResult)
        requires
            old(self).wf(),
        ensures
            final(self).same_settings(old(self)),
            ({
                let c = old(self).spec_candidates(text@);
                let k = target_count(c.len(), old(self).rate_num(), old(self).rate_den());
                &&& k == 0 ==> r.mutated_text@ == text@ && r.mutations@ == Seq::<Mutation>::empty()
                    && *final(self) == *old(self)
                &&& k > 0 ==> exists|sel: Seq<Mutation>, ch: Seq<Seq<char>>|
                    #![trigger run(old(self).table(), text@, sel, ch, k as int)]
                    selection_ok(c, k, sel) && ch.len() == k && choices_ok(
                        old(self).table(),
                        text@,
                        sel,
                        ch,
                        k as int,
                    ) && run(old(self).table(), text@, sel, ch, k as int) == (
                        r.mutated_text@,
                        r.mutations@,
                    )
                &&& r.mutations@.len() <= k
                &&& forall|m: Mutation| r.mutations@.contains(m) ==> c.contains(m)
                &&& old(self).rate_num() == 0 ==> r.mutated_text@ == text@ && r.mutations@.len() == 0
                &&& c.len() == 0 ==> r.mutated_text@ == text@ && r.mutations@.len() == 0
                &&& !old(self).homophone_kind() ==> r.mutations@.len() == k
            }),
    {
        broadcast use vstd::seq_lib::group_to_multiset_ensures;

        let chars = chars_of(text);
        assert(text@.len() == chars.len());
        let cands = self.find_possible_mutations(text);
        let ghost c = cands@;
        let k = selected_count(cands.len(), self.rate_numerator, self.rate_denominator);
        if cands.len() == 0 || k == 0 {
            let same = string_of(&chars);
            return MutationResult { mutated_text: same, mutations: Vec::new() };
        }
        proof {
            if self.rate_numerator == 0 {
                assert((c.len() as nat) * (self.rate_numerator as nat) == 0);
            }
        }
        let mut sel = cands;
        shuffle_mutations(&mut sel, &mut self.rng);
        let ghost shuffled = sel@;
        sel.truncate(k);
        proof {
            lemma_prefix_multiset(shuffled, k as int);
        }
        let ordered = sort_descending(&sel);
        let ghost tbl = self.table();
        proof {
            assert(sel@.len() == k);
            assert(ordered@.len() == ordered@.to_multiset().len());
            assert(sel@.len() == sel@.to_multiset().len());
        }
        let (buf, applied) = self.apply_mutations(chars, &ordered);
        proof {
            let ch = choose|ch: Seq<Seq<char>>|
                #![trigger run(tbl, text@, ordered@, ch, ordered@.len() as int)]
                ch.len() == ordered@.len() && choices_ok(
                    tbl,
                    text@,
                    ordered@,
                    ch,
                    ordered@.len() as int,
                ) && run(tbl, text@, ordered@, ch, ordered@.len() as int) == (buf@, applied@);
            lemma_run_applied(tbl, text@, ordered@, ch, k as int);
            assert forall|m: Mutation| applied@.contains(m) implies c.contains(m) by {
                assert(ordered@.contains(m));
                assert(ordered@.to_multiset().count(m) > 0);
                assert(c.to_multiset().count(m) > 0);
            }
            if !self.use_homophones {
                self.lemma_single_char_candidates(text@);
                c.lemma_multiset_has_no_duplicates();
                assert forall|x: Mutation| ordered@.to_multiset().contains(x) implies ordered@.to_multiset().count(x) == 1 by {
                    assert(ordered@.to_multiset().count(x) <= c.to_multiset().count(x));
                }
                ordered@.lemma_multiset_has_no_duplicates_conv();
                assert forall|j: int| 0 <= j < ordered@.len() implies single_char_site(text@, #[trigger] ordered@[j]) by {
                    let m = ordered@[j];
                    assert(ordered@.contains(m));
                    assert(ordered@.to_multiset().count(m) > 0);
                    assert(c.to_multiset().count(m) > 0);
                    assert(c.contains(m));
                    let idx = choose|idx: int| 0 <= idx < c.len() && c[idx] == m;
                    assert(single_char_site(text@, c[idx]));
                }
                assert forall|a: int, b: int| 0 <= a < b < ordered@.len() implies (#[trigger] ordered@[a]).spec_position()
                    > (#[trigger] ordered@[b]).spec_position() by {
                    assert(ordered@[a] != ordered@[b]);
                    assert(single_char_site(text@, ordered@[a]));
                    assert(single_char_site(text@, ordered@[b]));
                }
                lemma_single_char_edits_take_effect(tbl, text@, ordered@, ch, k as int);
            }
        }
        let mutated_text = string_of(&buf);
        MutationResult { mutated_text, mutations: applied }
    }
}

} // verus!
