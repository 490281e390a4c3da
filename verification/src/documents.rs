//! The open documents, by URI, as the editor last sent them.
use vstd::prelude::*;

verus! {

/// The texts of the open documents, keyed by document URI.
pub struct DocumentStore {
    docs: Vec<(String, String)>,
}

/// Whether no URI occurs twice.
pub open spec fn keys_distinct(v: Seq<(String, String)>) -> bool {
    forall|i: int, j: int| 0 <= i < j < v.len() ==> (#[trigger] v[i]).0@ != (#[trigger] v[j]).0@
}

/// The map from URI to text that the entries describe.
pub open spec fn docs_map(v: Seq<(String, String)>) -> Map<Seq<char>, Seq<char>>
    decreases v.len(),
{
    if v.len() == 0 {
        Map::empty()
    } else {
        docs_map(v.drop_last()).insert(v.last().0@, v.last().1@)
    }
}

proof fn lemma_docs_map_keys(v: Seq<(String, String)>)
    ensures
        forall|k: Seq<char>| #[trigger] docs_map(v).contains_key(k) <==> exists|i: int|
            0 <= i < v.len() && (#[trigger] v[i]).0@ == k,
    decreases v.len(),
{
    if v.len() > 0 {
        lemma_docs_map_keys(v.drop_last());
        assert forall|k: Seq<char>| #[trigger] docs_map(v).contains_key(k) implies exists|i: int|
            0 <= i < v.len() && (#[trigger] v[i]).0@ == k by {
            if k != v.last().0@ {
                assert(docs_map(v.drop_last()).contains_key(k));
                let i = choose|i: int| 0 <= i < v.drop_last().len() && (#[trigger] v.drop_last()[i]).0@ == k;
                assert(v[i] == v.drop_last()[i]);
            } else {
                assert(v[v.len() - 1].0@ == k);
            }
        }
        assert forall|k: Seq<char>| (exists|i: int| 0 <= i < v.len() && (#[trigger] v[i]).0@ == k) implies #[trigger] docs_map(
            v,
        ).contains_key(k) by {
            let i = choose|i: int| 0 <= i < v.len() && (#[trigger] v[i]).0@ == k;
            if i < v.len() - 1 {
                assert(v.drop_last()[i] == v[i]);
                assert(docs_map(v.drop_last()).contains_key(k));
            }
        }
    }
}

proof fn lemma_docs_map_value(v: Seq<(String, String)>, i: int)
    requires
        keys_distinct(v),
        0 <= i < v.len(),
    ensures
        docs_map(v).contains_key(v[i].0@),
        docs_map(v)[v[i].0@] == v[i].1@,
    decreases v.len(),
{
    if i < v.len() - 1 {
        assert(v.drop_last()[i] == v[i]);
        assert(keys_distinct(v.drop_last())) by {
            assert forall|a: int, b: int| 0 <= a < b < v.drop_last().len() implies (#[trigger] v.drop_last()[a]).0@
                != (#[trigger] v.drop_last()[b]).0@ by {
                assert(v.drop_last()[a] == v[a]);
                assert(v.drop_last()[b] == v[b]);
            }
        }
        lemma_docs_map_value(v.drop_last(), i);
        assert(v[i].0@ != v[v.len() - 1].0@);
    }
}

/// Two entry lists with distinct keys, the same keys and the same values
/// describe the same map.
proof fn lemma_docs_map_ext(v: Seq<(String, String)>, m: Map<Seq<char>, Seq<char>>)
    requires
        keys_distinct(v),
        forall|k: Seq<char>| #[trigger] m.contains_key(k) <==> exists|i: int| 0 <= i < v.len() && (#[trigger] v[i]).0@ == k,
        forall|i: int| 0 <= i < v.len() ==> m[(#[trigger] v[i]).0@] == v[i].1@,
    ensures
        docs_map(v) == m,
{
    lemma_docs_map_keys(v);
    assert forall|k: Seq<char>| #[trigger] docs_map(v).contains_key(k) implies docs_map(v)[k] == m[k] by {
        let i = choose|i: int| 0 <= i < v.len() && (#[trigger] v[i]).0@ == k;
        lemma_docs_map_value(v, i);
    }
    assert(docs_map(v) =~= m);
}

impl View for DocumentStore {
    type V = Map<Seq<char>, Seq<char>>;

    closed spec fn view(&self) -> Map<Seq<char>, Seq<char>> {
        docs_map(self.docs@)
    }
}

impl DocumentStore {
    #[verifier::type_invariant]
    spec fn wf(self) -> bool {
        keys_distinct(self.docs@)
    }

    /// An empty store.
    pub fn new() -> (r: DocumentStore)
        ensures
            r@ == Map::<Seq<char>, Seq<char>>::empty(),
    {
        DocumentStore { docs: Vec::new() }
    }

    fn index_of_uri(&self, uri: &String) -> (r: Option<usize>)
        ensures
            match r {
                Some(i) => i < self.docs@.len() && self.docs@[i as int].0@ == uri@,
                None => forall|i: int| 0 <= i < self.docs@.len() ==> (#[trigger] self.docs@[i]).0@ != uri@,
            },
    {
        let mut i: usize = 0;
        while i < self.docs.len()
            invariant
                i <= self.docs@.len(),
                forall|j: int| 0 <= j < i ==> (#[trigger] self.docs@[j]).0@ != uri@,
            decreases self.docs.len() - i,
        {
            if self.docs[i].0 == *uri {
                return Some(i);
            }
            i += 1;
        }
        None
    }

    /// The text of the document `uri`.
    pub fn get(&self, uri: &str) -> (r: Option<&String>)
        ensures
            match r {
                Some(t) => self@.contains_key(uri@) && t@ == self@[uri@],
                None => !self@.contains_key(uri@),
            },
    {
        proof {
            use_type_invariant(self);
            lemma_docs_map_keys(self.docs@);
        }
        let key = String::from_str(uri);
        match self.index_of_uri(&key) {
            Some(i) => {
                proof {
                    lemma_docs_map_value(self.docs@, i as int);
                }
                Some(&self.docs[i].1)
            },
            None => None,
        }
    }

    /// Records `text` as the text of document `uri`.
    pub fn insert(&mut self, uri: String, text: String)
        ensures
            final(self)@ == old(self)@.insert(uri@, text@),
    {
        proof {
            use_type_invariant(&*self);
        }
        let ghost before = self.docs@;
        let ghost m = docs_map(before).insert(uri@, text@);
        proof {
            lemma_docs_map_keys(before);
        }
        match self.index_of_uri(&uri) {
            Some(i) => {
                let mut docs = Vec::new();
                std::mem::swap(&mut docs, &mut self.docs);
                docs.set(i, (uri, text));
                proof {
                    let v = docs@;
                    assert(v =~= before.update(i as int, v[i as int]));
                    assert(keys_distinct(v)) by {
                        assert forall|a: int, b: int| 0 <= a < b < v.len() implies (#[trigger] v[a]).0@ != (
                        #[trigger] v[b]).0@ by {
                            if a != i && b != i {
                                assert(v[a] == before[a] && v[b] == before[b]);
                            } else if a == i {
                                assert(v[b] == before[b]);
                                assert(before[a].0@ == v[a].0@);
                            } else {
                                assert(v[a] == before[a]);
                                assert(before[b].0@ == v[b].0@);
                            }
                        }
                    }
                    assert forall|k: Seq<char>| #[trigger] m.contains_key(k) <==> exists|j: int|
                        0 <= j < v.len() && (#[trigger] v[j]).0@ == k by {
                        if m.contains_key(k) && k != v[i as int].0@ {
                            let j = choose|j: int| 0 <= j < before.len() && (#[trigger] before[j]).0@ == k;
                            assert(v[j] == before[j]);
                        }
                        if exists|j: int| 0 <= j < v.len() && (#[trigger] v[j]).0@ == k {
                            let j = choose|j: int| 0 <= j < v.len() && (#[trigger] v[j]).0@ == k;
                            if j != i {
                                assert(v[j] == before[j]);
                            }
                        }
                    }
                    assert forall|j: int| 0 <= j < v.len() implies m[(#[trigger] v[j]).0@] == v[j].1@ by {
                        if j != i {
                            assert(v[j] == before[j]);
                            lemma_docs_map_value(before, j);
                            assert(before[j].0@ != before[i as int].0@);
                        }
                    }
                    lemma_docs_map_ext(v, m);
                }
                self.docs = docs;
            },
            None => {
                let mut docs = Vec::new();
                std::mem::swap(&mut docs, &mut self.docs);
                docs.push((uri, text));
                proof {
                    let v = docs@;
                    assert(v.drop_last() =~= before);
                    assert(keys_distinct(v)) by {
                        assert forall|a: int, b: int| 0 <= a < b < v.len() implies (#[trigger] v[a]).0@ != (
                        #[trigger] v[b]).0@ by {
                            assert(v[a] == before[a]);
                            if b < before.len() {
                                assert(v[b] == before[b]);
                            }
                        }
                    }
                    assert(docs_map(v) == m);
                }
                self.docs = docs;
            },
        }
    }

    /// Forgets document `uri`.
    pub fn remove(&mut self, uri: &str)
        ensures
            final(self)@ == old(self)@.remove(uri@),
    {
        proof {
            use_type_invariant(&*self);
        }
        let ghost before = self.docs@;
        let ghost m = docs_map(before).remove(uri@);
        proof {
            lemma_docs_map_keys(before);
        }
        let key = String::from_str(uri);
        match self.index_of_uri(&key) {
            None => {
                proof {
                    assert(docs_map(before) =~= m);
                }
            },
            Some(i) => {
                let mut docs = Vec::new();
                std::mem::swap(&mut docs, &mut self.docs);
                let _ = docs.remove(i);
                proof {
                    let v = docs@;
                    assert(v =~= before.subrange(0, i as int) + before.subrange(i + 1, before.len() as int));
                    assert forall|j: int| 0 <= j < v.len() implies #[trigger] v[j] == before[if j < i {
                        j
                    } else {
                        j + 1
                    }] by {}
                    assert(keys_distinct(v)) by {
                        assert forall|a: int, b: int| 0 <= a < b < v.len() implies (#[trigger] v[a]).0@ != (
                        #[trigger] v[b]).0@ by {
                            assert(v[a] == before[if a < i {
                                a
                            } else {
                                a + 1
                            }]);
                            assert(v[b] == before[if b < i {
                                b
                            } else {
                                b + 1
                            }]);
                        }
                    }
                    assert forall|k: Seq<char>| #[trigger] m.contains_key(k) <==> exists|j: int|
                        0 <= j < v.len() && (#[trigger] v[j]).0@ == k by {
                        if m.contains_key(k) {
                            let j = choose|j: int| 0 <= j < before.len() && (#[trigger] before[j]).0@ == k;
                            assert(j != i);
                            let jj = if j < i {
                                j
                            } else {
                                j - 1
                            };
                            assert(v[jj] == before[j]);
                        }
                        if exists|j: int| 0 <= j < v.len() && (#[trigger] v[j]).0@ == k {
                            let j = choose|j: int| 0 <= j < v.len() && (#[trigger] v[j]).0@ == k;
                            let jj = if j < i {
                                j
                            } else {
                                j + 1
                            };
                            assert(v[j] == before[jj]);
                            assert(jj != i);
                        }
                    }
                    assert forall|j: int| 0 <= j < v.len() implies m[(#[trigger] v[j]).0@] == v[j].1@ by {
                        let jj = if j < i {
                            j
                        } else {
                            j + 1
                        };
                        assert(v[j] == before[jj]);
                        lemma_docs_map_value(before, jj);
                    }
                    lemma_docs_map_ext(v, m);
                }
                self.docs = docs;
            },
        }
    }
}

/// What a read gives back after a write: the text just recorded for a URI.
pub proof fn law_read_after_insert(store: Map<Seq<char>, Seq<char>>, uri: Seq<char>, text: Seq<char>)
    ensures
        store.insert(uri, text).contains_key(uri),
        store.insert(uri, text)[uri] == text,
{
}

/// Recording or forgetting one document leaves every other document as it was.
pub proof fn law_other_documents_unchanged(
    store: Map<Seq<char>, Seq<char>>,
    uri: Seq<char>,
    other: Seq<char>,
    text: Seq<char>,
)
    requires
        uri != other,
    ensures
        store.insert(uri, text).contains_key(other) == store.contains_key(other),
        store.insert(uri, text).contains_key(other) ==> store.insert(uri, text)[other] == store[other],
        store.remove(uri).contains_key(other) == store.contains_key(other),
        store.remove(uri).contains_key(other) ==> store.remove(uri)[other] == store[other],
{
}

/// A document that was closed is gone.
pub proof fn law_closed_document_gone(store: Map<Seq<char>, Seq<char>>, uri: Seq<char>)
    ensures
        !store.remove(uri).contains_key(uri),
{
}

} // verus!
