//! The document model: a poem is a set of versions keyed by name, one of which,
//! under the key `canonical`, is the version shown by default.
use vstd::prelude::*;
use crate::text::{lex_lt, string_lt, lemma_lex_transitive, lemma_lex_irreflexive};

verus! {

/// One version of a poem: its text and the metadata that decides how it is
/// laid out.
#[derive(Debug)]
pub struct Version {
    pub title: String,
    pub author: String,
    pub language: String,
    pub epigraph: Option<String>,
    pub text: String,
    pub rtl: Option<bool>,
    pub vertical: Option<bool>,
}

/// A poem: its versions, each under a key, and the name of the file it came
/// from.
#[derive(Debug)]
pub struct Poem {
    pub versions: Vec<(String, Version)>,
    pub filename: String,
}

/// The key of the version shown by default.
pub open spec fn canonical_key() -> Seq<char> {
    "canonical"@
}

/// The key under which version `i` is stored.
pub open spec fn key_at(vs: Seq<(String, Version)>, i: int) -> Seq<char> {
    vs[i].0@
}

/// Position of the last version stored under `k`, or -1 where there is none.
pub open spec fn index_of_key(vs: Seq<(String, Version)>, k: Seq<char>) -> int
    decreases vs.len(),
{
    if vs.len() == 0 {
        -1
    } else if key_at(vs, vs.len() - 1) == k {
        vs.len() - 1
    } else {
        index_of_key(vs.drop_last(), k)
    }
}

pub proof fn lemma_index_of_key(vs: Seq<(String, Version)>, k: Seq<char>)
    ensures
        -1 <= index_of_key(vs, k) < vs.len(),
        index_of_key(vs, k) >= 0 ==> key_at(vs, index_of_key(vs, k)) == k,
        index_of_key(vs, k) < 0 <==> forall|i: int| 0 <= i < vs.len() ==> key_at(vs, i) != k,
    decreases vs.len(),
{
    if vs.len() > 0 {
        let d = vs.drop_last();
        lemma_index_of_key(d, k);
        assert forall|i: int| 0 <= i < vs.len() - 1 implies key_at(vs, i) == key_at(d, i) by {}
        if key_at(vs, vs.len() - 1) == k {
            assert(!(forall|i: int| 0 <= i < vs.len() ==> key_at(vs, i) != k));
        } else {
            if index_of_key(d, k) >= 0 {
                assert(key_at(vs, index_of_key(d, k)) == k);
            }
        }
    }
}

/// The poem has a version under key `k`.
pub open spec fn has_key(p: Poem, k: Seq<char>) -> bool {
    index_of_key(p.versions@, k) >= 0
}

/// No two versions share a key.
pub open spec fn keys_unique(vs: Seq<(String, Version)>) -> bool {
    forall|i: int, j: int|
        0 <= i < vs.len() && 0 <= j < vs.len() && i != j ==> key_at(vs, i) != key_at(vs, j)
}

/// The versions are stored in strictly ascending code-point order of key.
pub open spec fn keys_ascending(vs: Seq<(String, Version)>) -> bool {
    forall|i: int| 1 <= i < vs.len() ==> lex_lt(#[trigger] key_at(vs, i - 1), key_at(vs, i))
}

/// A poem that may be shown: distinct keys in ascending order, and a
/// canonical version.
pub open spec fn poem_wf(p: Poem) -> bool {
    keys_unique(p.versions@) && keys_ascending(p.versions@) && has_key(p, canonical_key())
}

proof fn lemma_ascending_pair(vs: Seq<(String, Version)>, i: int, j: int)
    requires
        keys_ascending(vs),
        0 <= i < j < vs.len(),
    ensures
        lex_lt(key_at(vs, i), key_at(vs, j)),
    decreases j - i,
{
    assert(lex_lt(key_at(vs, j - 1), key_at(vs, j)));
    if i < j - 1 {
        lemma_ascending_pair(vs, i, j - 1);
        lemma_lex_transitive(key_at(vs, i), key_at(vs, j - 1), key_at(vs, j));
    }
}

proof fn lemma_ascending_unique(vs: Seq<(String, Version)>)
    requires
        keys_ascending(vs),
    ensures
        keys_unique(vs),
{
    assert forall|i: int, j: int|
        0 <= i < vs.len() && 0 <= j < vs.len() && i != j implies key_at(vs, i) != key_at(vs, j) by {
        if i < j {
            lemma_ascending_pair(vs, i, j);
            if key_at(vs, i) == key_at(vs, j) {
                lemma_lex_irreflexive(key_at(vs, i));
            }
        } else {
            lemma_ascending_pair(vs, j, i);
            if key_at(vs, i) == key_at(vs, j) {
                lemma_lex_irreflexive(key_at(vs, i));
            }
        }
    }
}

/// The canonical version of a well-formed poem.
pub open spec fn canonical_version(p: Poem) -> Version {
    p.versions@[index_of_key(p.versions@, canonical_key())].1
}

/// The version stored under `k`, or the canonical version where there is none.
pub open spec fn resolved_version(p: Poem, k: Seq<char>) -> Version {
    if has_key(p, k) {
        p.versions@[index_of_key(p.versions@, k)].1
    } else {
        canonical_version(p)
    }
}

/// Whether two strings hold the same characters.
pub fn same_text(a: &str, b: &str) -> (r: bool)
    ensures
        r == (a@ == b@),
{
    String::from_str(a) == String::from_str(b)
}

/// A fresh string holding `canonical`.
pub fn canonical_key_string() -> (r: String)
    ensures
        r@ == canonical_key(),
{
    String::from_str("canonical")
}

impl Poem {
    /// Position of the version stored under `key`, if any.
    pub fn find_key(&self, key: &str) -> (r: Option<usize>)
        ensures
            r is Some <==> has_key(*self, key@),
            r is Some ==> r->0 == index_of_key(self.versions@, key@),
            r is Some ==> r->0 < self.versions@.len(),
    {
        let mut found: Option<usize> = None;
        let mut i: usize = 0;
        while i < self.versions.len()
            invariant
                i <= self.versions@.len(),
                found is Some <==> index_of_key(self.versions@.take(i as int), key@) >= 0,
                found is Some ==> found->0 == index_of_key(self.versions@.take(i as int), key@),
            decreases self.versions@.len() - i,
        {
            proof {
                assert(self.versions@.take(i + 1).drop_last() =~= self.versions@.take(i as int));
                lemma_index_of_key(self.versions@.take(i as int), key@);
            }
            if same_text(self.versions[i].0.as_str(), key) {
                found = Some(i);
            }
            i = i + 1;
        }
        assert(self.versions@.take(i as int) =~= self.versions@);
        proof {
            lemma_index_of_key(self.versions@, key@);
        }
        found
    }

    /// Whether the poem may be shown: keys in strictly ascending code-point
    /// order, and a canonical version.
    pub fn is_well_formed(&self) -> (r: bool)
        ensures
            r == poem_wf(*self),
    {
        let mut i: usize = 1;
        while i < self.versions.len()
            invariant
                1 <= i,
                i <= self.versions@.len() || self.versions@.len() == 0,
                forall|k: int| 1 <= k < i && k < self.versions@.len() ==> lex_lt(
                    #[trigger] key_at(self.versions@, k - 1),
                    key_at(self.versions@, k),
                ),
            decreases self.versions@.len() - i,
        {
            if !string_lt(&self.versions[i - 1].0, &self.versions[i].0) {
                assert(!lex_lt(key_at(self.versions@, i - 1), key_at(self.versions@, i as int)));
                assert(!keys_ascending(self.versions@));
                return false;
            }
            i = i + 1;
        }
        proof {
            lemma_ascending_unique(self.versions@);
        }
        self.has_canonical()
    }

    /// The canonical version, if the poem has one.
    pub fn canonical(&self) -> (r: Option<&Version>)
        ensures
            r is Some <==> has_key(*self, canonical_key()),
            r is Some ==> *r->0 == canonical_version(*self),
    {
        match self.find_key("canonical") {
            Some(i) => Some(&self.versions[i].1),
            None => None,
        }
    }

    /// Whether the poem has a canonical version.
    pub fn has_canonical(&self) -> (r: bool)
        ensures
            r == has_key(*self, canonical_key()),
    {
        self.find_key("canonical").is_some()
    }

    /// The version under `key`; the canonical version where `key` is
    /// `canonical` or names no version of the poem.
    pub fn resolve_version(&self, key: &str) -> (r: &Version)
        requires
            poem_wf(*self),
        ensures
            *r == resolved_version(*self, key@),
    {
        match self.find_key(key) {
            Some(i) => &self.versions[i].1,
            None => {
                let i = self.find_key("canonical").unwrap();
                &self.versions[i].1
            },
        }
    }
}

} // verus!
