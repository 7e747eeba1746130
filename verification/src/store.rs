//! The License Text Store: a first-choice override source of license texts,
//! a table sorted by its lowercase key and searched by binary search.

use vstd::prelude::*;

use crate::strutil::{
    lemma_seq_lt_trans, lemma_seq_lt_trichotomy, lower_seq, lower_str, seq_lt, str_compare, Rank,
};

verus! {

/// One entry of the store: a lowercase license identifier and the full legal
/// text it maps to.
pub struct TextEntry {
    pub key: String,
    pub text: String,
}

/// Ghost image of a `TextEntry`.
pub ghost struct TextEntryV {
    pub key: Seq<char>,
    pub text: Seq<char>,
}

impl View for TextEntry {
    type V = TextEntryV;

    open spec fn view(&self) -> TextEntryV {
        TextEntryV { key: self.key@, text: self.text@ }
    }
}

/// The entries are strictly sorted by key, and every key is lowercase; this
/// is what the binary search of `lookup` rests on.
pub open spec fn entries_well_formed(s: Seq<TextEntryV>) -> bool {
    &&& forall|i: int, j: int| 0 <= i < j < s.len() ==> seq_lt(s[i].key, s[j].key)
    &&& forall|i: int| 0 <= i < s.len() ==> #[trigger] s[i].key == lower_seq(s[i].key)
}

/// A static, immutable mapping from lowercase license identifier to full
/// legal text, used as a first-choice override source before the secondary
/// reference database is consulted.
pub struct TextStore {
    entries: Vec<TextEntry>,
}

impl View for TextStore {
    type V = Seq<TextEntryV>;

    closed spec fn view(&self) -> Seq<TextEntryV> {
        self.entries@.map_values(|e: TextEntry| e@)
    }
}

/// What `lookup` returns: the text paired with the key, if the key is
/// present.
pub open spec fn lookup_spec(s: Seq<TextEntryV>, key: Seq<char>) -> Option<Seq<char>> {
    if exists|i: int| 0 <= i < s.len() && s[i].key == key {
        let i = choose|i: int| 0 <= i < s.len() && s[i].key == key;
        Some(s[i].text)
    } else {
        None
    }
}

impl TextStore {
    #[verifier::type_invariant]
    closed spec fn inv(&self) -> bool {
        entries_well_formed(self@)
    }

    /// The backing table of any store is sorted by its lowercase key: no
    /// construction admits another.
    pub fn check_well_formed(&self) -> (r: bool)
        ensures
            r,
            entries_well_formed(self@),
    {
        proof {
            use_type_invariant(self);
        }
        true
    }

    /// Builds a store after checking that the supplied table is sorted by
    /// its lowercase key; a table that is not sorted, not lowercase, or
    /// holds a repeated key is refused, since the search below would not be
    /// trustworthy over it.
    pub fn from_entries(entries: Vec<TextEntry>) -> (r: Option<TextStore>)
        ensures
            match r {
                Some(store) => store@ == entries@.map_values(|e: TextEntry| e@)
                    && entries_well_formed(store@),
                None => !entries_well_formed(entries@.map_values(|e: TextEntry| e@)),
            },
    {
        let ghost s = entries@.map_values(|e: TextEntry| e@);
        let n = entries.len();
        let mut i: usize = 0;
        while i < n
            invariant
                i <= n,
                n == entries.len(),
                s == entries@.map_values(|e: TextEntry| e@),
                forall|k: int, l: int| 0 <= k < l < i ==> seq_lt(s[k].key, s[l].key),
                forall|k: int| 0 <= k < i ==> #[trigger] s[k].key == lower_seq(s[k].key),
            decreases n - i,
        {
            let e = &entries[i];
            let lowered = lower_str(e.key.as_str());
            if let Rank::Equal = str_compare(e.key.as_str(), lowered.as_str()) {
            } else {
                assert(s[i as int].key != lower_seq(s[i as int].key));
                return None;
            }
            if i > 0 {
                let prev = &entries[i - 1];
                if let Rank::Less = str_compare(prev.key.as_str(), e.key.as_str()) {
                    assert forall|k: int| 0 <= k < i implies seq_lt(
                        s[k].key,
                        s[i as int].key,
                    ) by {
                        if k < i - 1 {
                            lemma_seq_lt_trans(s[k].key, s[i - 1].key, s[i as int].key);
                        }
                    }
                } else {
                    assert(!seq_lt(s[i - 1].key, s[i as int].key));
                    return None;
                }
            }
            i = i + 1;
        }
        Some(TextStore { entries })
    }

    /// A key present in the table always finds its paired text: with the
    /// keys strictly sorted, the matching index is the only one, so the
    /// lookup result is exactly the text stored beside the key.
    pub proof fn lemma_lookup_present(s: Seq<TextEntryV>, i: int)
        requires
            entries_well_formed(s),
            0 <= i < s.len(),
        ensures
            lookup_spec(s, s[i].key) == Some(s[i].text),
    {
        let k = s[i].key;
        assert(exists|j: int| 0 <= j < s.len() && s[j].key == k);
        let w = choose|j: int| 0 <= j < s.len() && s[j].key == k;
        if w < i {
            assert(seq_lt(s[w].key, s[i].key));
            lemma_seq_lt_trichotomy(s[w].key, s[i].key);
        } else if w > i {
            assert(seq_lt(s[i].key, s[w].key));
            lemma_seq_lt_trichotomy(s[i].key, s[w].key);
        }
        assert(w == i);
    }

    /// How many entries the store holds.
    pub fn len(&self) -> (n: usize)
        ensures
            n == self@.len(),
    {
        self.entries.len()
    }

    /// Looks an identifier up by its lowercased form, by binary search over
    /// the sorted table. Returns the paired text when the lowercased
    /// identifier is a key of the table, and nothing when it is absent; an
    /// absent identifier is not an error.
    pub fn lookup(&self, id: &str) -> (r: Option<&str>)
        ensures
            (r is Some) == (lookup_spec(self@, lower_seq(id@)) is Some),
            r matches Some(t) ==> Some(t@) == lookup_spec(self@, lower_seq(id@)),
    {
        proof {
            use_type_invariant(self);
        }
        let key = lower_str(id);
        let ghost k = lower_seq(id@);
        let ghost s = self@;
        let mut lo: usize = 0;
        let mut hi: usize = self.entries.len();
        while lo < hi
            invariant
                lo <= hi <= self.entries.len(),
                s == self@,
                k == key@,
                k == lower_seq(id@),
                entries_well_formed(s),
                forall|i: int| 0 <= i < s.len() && !(lo <= i < hi) ==> s[i].key != k,
            decreases hi - lo,
        {
            let mid = lo + (hi - lo) / 2;
            let e = &self.entries[mid];
            match str_compare(e.key.as_str(), key.as_str()) {
                Rank::Equal => {
                    assert(s[mid as int].key == k);
                    proof {
                        let w = choose|i: int| 0 <= i < s.len() && s[i].key == k;
                        assert(0 <= w < s.len() && s[w].key == k);
                        if w < mid as int {
                            assert(seq_lt(s[w].key, s[mid as int].key));
                            lemma_seq_lt_trichotomy(s[w].key, s[mid as int].key);
                        } else if w > mid as int {
                            assert(seq_lt(s[mid as int].key, s[w].key));
                            lemma_seq_lt_trichotomy(s[mid as int].key, s[w].key);
                        }
                        assert(w == mid as int);
                        assert(s[mid as int].text == self.entries@[mid as int]@.text);
                        assert(lookup_spec(s, k) == Some(s[mid as int].text));
                        assert(s[mid as int].text == self.entries@[mid as int].text@);
                    }
                    return Some(self.entries[mid].text.as_str());
                },
                Rank::Less => {
                    assert forall|i: int| 0 <= i <= mid implies s[i].key != k by {
                        if i < mid {
                            lemma_seq_lt_trans(s[i].key, s[mid as int].key, k);
                        }
                        lemma_seq_lt_trichotomy(s[i].key, k);
                    }
                    lo = mid + 1;
                },
                Rank::Greater => {
                    assert forall|i: int| mid <= i < s.len() implies s[i].key != k by {
                        if mid < i {
                            lemma_seq_lt_trans(k, s[mid as int].key, s[i].key);
                        }
                        lemma_seq_lt_trichotomy(s[i].key, k);
                    }
                    hi = mid;
                },
            }
        }
        assert(forall|i: int| 0 <= i < s.len() ==> s[i].key != k);
        None
    }
}

} // verus!
