//! The homophone table: groups of commonly confused spellings, looked up
//! without regard to case.

use rand::rngs::StdRng;
use vstd::prelude::*;

use crate::random::choose_word;
use crate::text::{
    chars_of, is_upper, lower_of, lowercase, string_of, to_upper_head, upper_head, uppercase,
};

verus! {

/// Groups of interchangeable spellings. Each group is kept in the order it
/// was written, and the groups are searched in order.
#[derive(Debug)]
pub struct HomophoneSets {
    pub sets: Vec<Vec<String>>,
}

/// The words of a table, as character sequences.
pub open spec fn table_view(sets: Seq<Vec<String>>) -> Seq<Seq<Seq<char>>> {
    sets.map_values(|set: Vec<String>| set@.map_values(|w: String| w@))
}

/// The table the engine ships with.
pub open spec fn standard_table() -> Seq<Seq<Seq<char>>> {
    seq![
        seq!["your"@, "you're"@],
        seq!["their"@, "there"@, "they're"@],
        seq!["its"@, "it's"@],
        seq!["to"@, "too"@, "two"@],
        seq!["than"@, "then"@],
        seq!["affect"@, "effect"@],
        seq!["accept"@, "except"@],
        seq!["who's"@, "whose"@],
        seq!["which"@, "witch"@],
        seq!["were"@, "we're"@, "where"@],
        seq!["lose"@, "loose"@],
    ]
}

/// The index of the first group, from `k` on, that holds `w`; -1 if none does.
pub open spec fn first_set_from(tbl: Seq<Seq<Seq<char>>>, w: Seq<char>, k: int) -> int
    decreases tbl.len() - k,
{
    if k < 0 || k >= tbl.len() {
        -1
    } else if tbl[k].contains(w) {
        k
    } else {
        first_set_from(tbl, w, k + 1)
    }
}

/// The alternatives of a word are members of its group.
pub proof fn lemma_others_members(set: Seq<Seq<char>>, lw: Seq<char>)
    ensures
        forall|x: Seq<char>| #[trigger] others(set, lw).contains(x) ==> set.contains(x),
    decreases set.len(),
{
    if set.len() > 0 {
        let d = set.drop_last();
        lemma_others_members(d, lw);
        assert forall|x: Seq<char>| #[trigger] others(set, lw).contains(x) implies set.contains(x) by {
            let o = others(d, lw);
            if lower_of(set.last()) != lw {
                let j = choose|j: int| 0 <= j < o.push(set.last()).len() && o.push(set.last())[j] == x;
                if j < o.len() {
                    assert(o.contains(x));
                    let i = choose|i: int| 0 <= i < d.len() && d[i] == x;
                    assert(set[i] == x);
                } else {
                    assert(set[set.len() - 1] == x);
                }
            } else {
                let i = choose|i: int| 0 <= i < d.len() && d[i] == x;
                assert(set[i] == x);
            }
        }
    }
}

/// Every word of the standard table starts with an ASCII small letter.
pub proof fn lemma_standard_words_lowercase()
    ensures
        forall|k: int, j: int|
            0 <= k < standard_table().len() && 0 <= j < standard_table()[k].len() ==> starts_lower(
                #[trigger] standard_table()[k][j],
            ),
{
    reveal_strlit("your");
    reveal_strlit("you're");
    reveal_strlit("their");
    reveal_strlit("there");
    reveal_strlit("they're");
    reveal_strlit("its");
    reveal_strlit("it's");
    reveal_strlit("to");
    reveal_strlit("too");
    reveal_strlit("two");
    reveal_strlit("than");
    reveal_strlit("then");
    reveal_strlit("affect");
    reveal_strlit("effect");
    reveal_strlit("accept");
    reveal_strlit("except");
    reveal_strlit("who's");
    reveal_strlit("whose");
    reveal_strlit("which");
    reveal_strlit("witch");
    reveal_strlit("were");
    reveal_strlit("we're");
    reveal_strlit("where");
    reveal_strlit("lose");
    reveal_strlit("loose");
}

/// A replacement of a word is a member of the word's group, other than the
/// word, whose first character is upper-cased when the word starts with an
/// uppercase character, and which is kept as written otherwise.
pub proof fn lemma_replacement_case(tbl: Seq<Seq<Seq<char>>>, word: Seq<char>, r: Seq<char>)
    requires
        is_replacement(tbl, word, r),
    ensures
        exists|m: Seq<char>|
            #![trigger tbl[set_index(tbl, word)].contains(m)]
            tbl[set_index(tbl, word)].contains(m) && lower_of(m) != lower_of(word) && (word.len() > 0
                && is_upper(word[0]) && m.len() > 0 ==> r.len() == m.len() && r[0] == upper_head(
                m[0],
            ) && r.subrange(1, r.len() as int) == m.subrange(1, m.len() as int)) && (!(word.len() > 0
                && is_upper(word[0])) ==> r == m),
{
    let alts = alternatives(tbl, word);
    let j = choose|j: int| 0 <= j < alts.len() && r == with_case_of(word, alts[j]);
    let k = set_index(tbl, word);
    let m = alts[j];
    assert(k >= 0);
    lemma_first_set_from_bounds(tbl, lower_of(word), 0);
    lemma_others_members(tbl[k], lower_of(word));
    lemma_others_differ(tbl[k], lower_of(word));
    assert(alts.contains(m));
    if word.len() > 0 && is_upper(word[0]) && m.len() > 0 {
        assert(r.subrange(1, r.len() as int) =~= m.subrange(1, m.len() as int));
    }
}

/// The alternatives of a word differ from it in lowercase.
pub proof fn lemma_others_differ(set: Seq<Seq<char>>, lw: Seq<char>)
    ensures
        forall|x: Seq<char>| #[trigger] others(set, lw).contains(x) ==> lower_of(x) != lw,
    decreases set.len(),
{
    if set.len() > 0 {
        let d = set.drop_last();
        lemma_others_differ(d, lw);
        assert forall|x: Seq<char>| #[trigger] others(set, lw).contains(x) implies lower_of(x) != lw by {
            let o = others(d, lw);
            if lower_of(set.last()) != lw {
                let j = choose|j: int| 0 <= j < o.push(set.last()).len() && o.push(set.last())[j] == x;
                if j < o.len() {
                    assert(o.contains(x));
                }
            }
        }
    }
}

/// A group index found from `k` on is a group of the table, at or after `k`.
pub proof fn lemma_first_set_from_bounds(tbl: Seq<Seq<Seq<char>>>, w: Seq<char>, k: int)
    ensures
        first_set_from(tbl, w, k) == -1 || (k <= first_set_from(tbl, w, k) < tbl.len()
            && tbl[first_set_from(tbl, w, k)].contains(w)),
    decreases tbl.len() - k,
{
    if 0 <= k < tbl.len() && !tbl[k].contains(w) {
        lemma_first_set_from_bounds(tbl, w, k + 1);
    }
}

/// The index of the first group that holds the lowercase form of `word`;
/// -1 if none does.
pub open spec fn set_index(tbl: Seq<Seq<Seq<char>>>, word: Seq<char>) -> int {
    first_set_from(tbl, lower_of(word), 0)
}

/// The members of `set` whose lowercase form differs from `lw`, in order.
pub open spec fn others(set: Seq<Seq<char>>, lw: Seq<char>) -> Seq<Seq<char>>
    decreases set.len(),
{
    if set.len() == 0 {
        Seq::empty()
    } else {
        let rest = others(set.drop_last(), lw);
        if lower_of(set.last()) != lw {
            rest.push(set.last())
        } else {
            rest
        }
    }
}

/// The alternatives a word may be replaced with: the other members of its group.
pub open spec fn alternatives(tbl: Seq<Seq<Seq<char>>>, word: Seq<char>) -> Seq<Seq<char>> {
    let k = set_index(tbl, word);
    if k < 0 {
        Seq::empty()
    } else {
        others(tbl[k], lower_of(word))
    }
}

/// `alt` written with the capitalization of `word`: when `word` starts with
/// an uppercase character, so does the result.
pub open spec fn with_case_of(word: Seq<char>, alt: Seq<char>) -> Seq<char> {
    if word.len() > 0 && is_upper(word[0]) && alt.len() > 0 {
        alt.update(0, upper_head(alt[0]))
    } else {
        alt
    }
}

/// Whether `r` is one of the replacements that `word` may get.
pub open spec fn is_replacement(tbl: Seq<Seq<Seq<char>>>, word: Seq<char>, r: Seq<char>) -> bool {
    exists|j: int|
        0 <= j < alternatives(tbl, word).len() && r == with_case_of(word, alternatives(tbl, word)[j])
}

/// Whether `s` starts with an ASCII capital.
pub open spec fn starts_upper(s: Seq<char>) -> bool {
    s.len() > 0 && 'A' <= s[0] <= 'Z'
}

/// Whether `s` starts with an ASCII small letter.
pub open spec fn starts_lower(s: Seq<char>) -> bool {
    s.len() > 0 && 'a' <= s[0] <= 'z'
}

/// `alt` with the capitalization of `word` (see [`with_case_of`]): a
/// capitalized word gives a capitalized alternative, and a word in small
/// letters gives the alternative as it is written.
pub fn match_case(word: &str, alt: &String) -> (r: String)
    ensures
        r@ == with_case_of(word@, alt@),
        starts_upper(word@) && starts_lower(alt@) ==> starts_upper(r@),
        starts_lower(word@) ==> r@ == alt@,
{
    let w = chars_of(word);
    let mut a = chars_of(alt.as_str());
    if w.len() > 0 && a.len() > 0 && uppercase(w[0]) {
        let head = to_upper_head(a[0]);
        a.set(0, head);
    }
    string_of(&a)
}

impl HomophoneSets {
    /// The groups, as character sequences.
    pub open spec fn table(&self) -> Seq<Seq<Seq<char>>> {
        table_view(self.sets@)
    }

    /// The standard table.
    pub fn new() -> (r: Self)
        ensures
            r.table() == standard_table(),
    {
        let sets = vec![
            vec!["your".to_owned(), "you're".to_owned()],
            vec!["their".to_owned(), "there".to_owned(), "they're".to_owned()],
            vec!["its".to_owned(), "it's".to_owned()],
            vec!["to".to_owned(), "too".to_owned(), "two".to_owned()],
            vec!["than".to_owned(), "then".to_owned()],
            vec!["affect".to_owned(), "effect".to_owned()],
            vec!["accept".to_owned(), "except".to_owned()],
            vec!["who's".to_owned(), "whose".to_owned()],
            vec!["which".to_owned(), "witch".to_owned()],
            vec!["were".to_owned(), "we're".to_owned(), "where".to_owned()],
            vec!["lose".to_owned(), "loose".to_owned()],
        ];
        let r = HomophoneSets { sets };
        assert(r.table() =~~= standard_table());
        r
    }

    /// The standard table, as the engine's own checks use it.
    pub fn new_for_tests() -> (r: Self)
        ensures
            r.table() == standard_table(),
    {
        HomophoneSets::new()
    }

    /// The first group that holds `word`, compared in lowercase.
    pub fn find_matching_set(&self, word: &str) -> (r: Option<&Vec<String>>)
        ensures
            set_index(self.table(), word@) < 0 ==> r is None,
            set_index(self.table(), word@) >= 0 ==> r == Some(
                &self.sets@[set_index(self.table(), word@)],
            ),
    {
        let lw = lowercase(word);
        let ghost tbl = self.table();
        let mut k: usize = 0;
        while k < self.sets.len()
            invariant
                k <= self.sets.len(),
                tbl == self.table(),
                lw@ == lower_of(word@),
                first_set_from(tbl, lw@, 0) == first_set_from(tbl, lw@, k as int),
            decreases self.sets.len() - k,
        {
            let set = &self.sets[k];
            let mut j: usize = 0;
            let mut found = false;
            while j < set.len()
                invariant
                    j <= set.len(),
                    set == self.sets@[k as int],
                    found <==> exists|i: int| 0 <= i < j && set@[i]@ == lw@,
                decreases set.len() - j,
            {
                if set[j] == lw {
                    found = true;
                }
                j += 1;
            }
            assert(tbl[k as int] == set@.map_values(|w: String| w@));
            if found {
                assert(tbl[k as int].contains(lw@)) by {
                    let i = choose|i: int| 0 <= i < j && set@[i]@ == lw@;
                    assert(tbl[k as int][i] == lw@);
                }
                return Some(set);
            }
            assert(!tbl[k as int].contains(lw@)) by {
                if tbl[k as int].contains(lw@) {
                    let i = choose|i: int| 0 <= i < tbl[k as int].len() && tbl[k as int][i] == lw@;
                    assert(set@[i]@ == lw@);
                }
            }
            k += 1;
        }
        None
    }

    /// The members of the group of `word` that differ from it in lowercase,
    /// in the table's order; empty when `word` belongs to no group.
    pub fn alternatives_of(&self, word: &str) -> (r: Vec<String>)
        ensures
            r@.map_values(|w: String| w@) == alternatives(self.table(), word@),
    {
        let lw = lowercase(word);
        let mut r: Vec<String> = Vec::new();
        match self.find_matching_set(word) {
            None => {
                assert(r@.map_values(|w: String| w@) =~= Seq::<Seq<char>>::empty());
            },
            Some(set) => {
                let ghost k = set_index(self.table(), word@);
                proof {
                    lemma_first_set_from_bounds(self.table(), lower_of(word@), 0);
                }
                let ghost sv = set@.map_values(|w: String| w@);
                assert(sv == self.table()[k]);
                let mut j: usize = 0;
                while j < set.len()
                    invariant
                        j <= set.len(),
                        sv == set@.map_values(|w: String| w@),
                        lw@ == lower_of(word@),
                        r@.map_values(|w: String| w@) == others(sv.subrange(0, j as int), lw@),
                    decreases set.len() - j,
                {
                    let lower = lowercase(set[j].as_str());
                    assert(sv.subrange(0, j + 1).drop_last() =~= sv.subrange(0, j as int));
                    assert(sv.subrange(0, j + 1).last() == set@[j as int]@);
                    if lower != lw {
                        r.push(set[j].clone());
                        assert(r@.map_values(|w: String| w@) =~= others(
                            sv.subrange(0, j as int),
                            lw@,
                        ).push(set@[j as int]@));
                    }
                    j += 1;
                }
                assert(sv.subrange(0, j as int) =~= sv);
            },
        }
        r
    }

    /// A replacement for `word`: another member of its group, picked by
    /// `rng`, with the capitalization of `word`. `None` when `word` belongs
    /// to no group or its group has no other member. When the members are
    /// written in small letters, the replacement of a capitalized word is
    /// capitalized and that of a word in small letters is not.
    pub fn get_alternative(&self, word: &str, rng: &mut StdRng) -> (r: Option<String>)
        ensures
            r is None <==> alternatives(self.table(), word@).len() == 0,
            r is None ==> *final(rng) == *old(rng),
            r is Some ==> is_replacement(self.table(), word@, r->0@),
            r is Some ==> exists|j: int|
                #![trigger alternatives(self.table(), word@)[j]]
                0 <= j < alternatives(self.table(), word@).len() && r->0@ == with_case_of(
                    word@,
                    alternatives(self.table(), word@)[j],
                ) && (starts_upper(word@) && starts_lower(alternatives(self.table(), word@)[j])
                    ==> starts_upper(r->0@)) && (starts_lower(word@) ==> r->0@
                    == alternatives(self.table(), word@)[j]),
            r is Some && self.table() == standard_table() ==> (starts_upper(word@) ==> starts_upper(
                r->0@,
            )) && (starts_lower(word@) ==> starts_lower(r->0@)),
    {
        let alts = self.alternatives_of(word);
        let ghost av = alts@.map_values(|w: String| w@);
        match choose_word(&alts, rng) {
            None => None,
            Some(alt) => {
                let r = match_case(word, &alt);
                proof {
                    let k = choose|k: int| 0 <= k < alts.len() && alt@ == alts[k]@;
                    assert(av[k] == alt@);
                    assert(alternatives(self.table(), word@)[k] == alt@);
                    if self.table() == standard_table() {
                        let tbl = self.table();
                        let g = set_index(tbl, word@);
                        lemma_first_set_from_bounds(tbl, lower_of(word@), 0);
                        lemma_others_members(tbl[g], lower_of(word@));
                        assert(alternatives(tbl, word@).contains(alt@));
                        let i = choose|i: int| 0 <= i < tbl[g].len() && tbl[g][i] == alt@;
                        lemma_standard_words_lowercase();
                        assert(starts_lower(tbl[g][i]));
                    }
                }
                Some(r)
            },
        }
    }
}

} // verus!
