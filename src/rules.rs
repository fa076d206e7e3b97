//! The rule set that drives name normalization: separators, words replaced
//! by the separator, and general term substitutions.
use vstd::prelude::*;
use crate::config::{sorted_order, term_ids, to_sep_ids};

verus! {

/// A normalization token; the one with the lowest id is the active one.
pub struct Separator {
    pub id: i32,
    pub value: String,
}

impl Separator {
    pub fn new(id: i32, value: String) -> (r: Separator)
        ensures
            r.id == id,
            r.value@ == value@,
    {
        Separator { id, value }
    }
}

impl Default for Separator {
    /// The separator used when none is configured: `_`.
    fn default() -> (r: Separator)
        ensures
            r.id == 0,
            r.value@ == default_separator_text(),
    {
        let mut value = String::new();
        value.append("_");
        proof {
            reveal_strlit("_");
        }
        Separator { id: 0, value }
    }
}

pub open spec fn default_separator_text() -> Seq<char> {
    seq!['_']
}

/// A literal substring that is replaced by the active separator.
pub struct ToSepWord {
    pub id: i32,
    pub value: String,
}

impl ToSepWord {
    pub fn new(id: i32, value: String) -> (r: ToSepWord)
        ensures
            r.id == id,
            r.value@ == value@,
    {
        ToSepWord { id, value }
    }
}

/// A literal substring `key` that is replaced by `value`.
pub struct TermWord {
    pub id: i32,
    pub key: String,
    pub value: String,
}

impl TermWord {
    pub fn new(id: i32, key: String, value: String) -> (r: TermWord)
        ensures
            r.id == id,
            r.key@ == key@,
            r.value@ == value@,
    {
        TermWord { id, key, value }
    }
}

/// The whole configuration consumed by the transformation engine.
pub struct Rules {
    pub separators: Vec<Separator>,
    pub to_sep_words: Vec<ToSepWord>,
    pub term_words: Vec<TermWord>,
}

/// Index of the first smallest id among the first `k` entries.
pub open spec fn lowest_index(ids: Seq<i32>, k: int) -> int
    decreases k,
{
    if k <= 1 {
        0
    } else {
        let j = lowest_index(ids, k - 1);
        if ids[k - 1] < ids[j] {
            k - 1
        } else {
            j
        }
    }
}

pub proof fn lemma_lowest_index(ids: Seq<i32>, k: int)
    requires
        1 <= k <= ids.len(),
    ensures
        0 <= lowest_index(ids, k) < k,
        forall|m: int| 0 <= m < k ==> ids[lowest_index(ids, k)] <= #[trigger] ids[m],
    decreases k,
{
    if k > 1 {
        lemma_lowest_index(ids, k - 1);
    }
}

impl Rules {
    pub open spec fn separator_ids(&self) -> Seq<i32> {
        self.separators@.map_values(|s: Separator| s.id)
    }

    /// The active separator: the configured one with the lowest id, or `_`.
    pub open spec fn separator_spec(&self) -> Seq<char> {
        if self.separators@.len() == 0 {
            default_separator_text()
        } else {
            self.separators@[lowest_index(self.separator_ids(), self.separators@.len() as int)].value@
        }
    }

    /// Each word to replace, by increasing id, paired with the active
    /// separator.
    pub open spec fn to_sep_pairs(&self) -> Seq<(Seq<char>, Seq<char>)> {
        let order = sorted_order(to_sep_ids(self.to_sep_words@), self.to_sep_words@.len() as int);
        Seq::new(
            order.len(),
            |i: int| (self.to_sep_words@[order[i] as int].value@, self.separator_spec()),
        )
    }

    /// Each term key, by increasing id, paired with its replacement.
    pub open spec fn term_pairs(&self) -> Seq<(Seq<char>, Seq<char>)> {
        let order = sorted_order(term_ids(self.term_words@), self.term_words@.len() as int);
        Seq::new(
            order.len(),
            |i: int| (self.term_words@[order[i] as int].key@, self.term_words@[order[i] as int].value@),
        )
    }

    pub fn new() -> (r: Rules)
        ensures
            r.separators@.len() == 0,
            r.to_sep_words@.len() == 0,
            r.term_words@.len() == 0,
    {
        Rules { separators: Vec::new(), to_sep_words: Vec::new(), term_words: Vec::new() }
    }

    /// The active separator's text.
    pub fn active_separator(&self) -> (r: String)
        ensures
            r@ == self.separator_spec(),
    {
        if self.separators.len() == 0 {
            return Separator::default().value;
        }
        let ghost ids = self.separator_ids();
        let mut best: usize = 0;
        let mut k: usize = 1;
        while k < self.separators.len()
            invariant
                1 <= k <= self.separators@.len(),
                ids == self.separator_ids(),
                best as int == lowest_index(ids, k as int),
            decreases self.separators@.len() - k,
        {
            proof {
                lemma_lowest_index(ids, k as int);
                assert(ids[k as int] == self.separators@[k as int].id);
                assert(ids[best as int] == self.separators@[best as int].id);
            }
            if self.separators[k].id < self.separators[best].id {
                best = k;
            }
            k = k + 1;
        }
        proof {
            lemma_lowest_index(ids, k as int);
        }
        self.separators[best].value.clone()
    }
}

} // verus!
