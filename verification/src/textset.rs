//! Sets of texts, kept in order.

use vstd::prelude::*;

use crate::text;

verus! {

/// Whether the texts are in strictly ascending order.
pub open spec fn ascending(texts: Seq<Seq<char>>) -> bool {
    forall|i: int, j: int|
        0 <= i < j < texts.len() ==> text::text_less(#[trigger] texts[i], #[trigger] texts[j])
}

/// A set of texts.
pub struct TextSet {
    items: Vec<String>,
}

impl TextSet {
    /// The texts in ascending order.
    pub closed spec fn texts(&self) -> Seq<Seq<char>> {
        text::strings_of(self.items@)
    }

    /// The texts in the set.
    pub open spec fn view(&self) -> Set<Seq<char>> {
        self.texts().to_set()
    }

    #[verifier::type_invariant]
    spec fn in_order(self) -> bool {
        ascending(self.texts())
    }

    /// An empty set.
    pub fn new() -> (r: TextSet)
        ensures
            r@ == Set::<Seq<char>>::empty(),
            r.texts() == Seq::<Seq<char>>::empty(),
    {
        let r = TextSet { items: Vec::new() };
        assert(r.texts() =~= Seq::empty());
        assert(r@ =~= Set::empty());
        r
    }

    /// How many texts of the set precede `key`.
    fn rank(&self, key: &str) -> (r: usize)
        ensures
            r <= self.texts().len(),
            forall|i: int| 0 <= i < r ==> text::text_less(#[trigger] self.texts()[i], key@),
            forall|i: int|
                r <= i < self.texts().len() ==> !text::text_less(#[trigger] self.texts()[i], key@),
    {
        let mut i: usize = 0;
        while i < self.items.len() && text::precedes(self.items[i].as_str(), key)
            invariant
                i <= self.texts().len(),
                self.texts() == text::strings_of(self.items@),
                forall|k: int| 0 <= k < i ==> text::text_less(#[trigger] self.texts()[k], key@),
            decreases self.items@.len() - i,
        {
            i = i + 1;
        }
        proof {
            use_type_invariant(self);
            assert forall|k: int| i <= k < self.texts().len() implies !text::text_less(
                #[trigger] self.texts()[k],
                key@,
            ) by {
                if text::text_less(self.texts()[k], key@) && i < k {
                    text::lemma_text_less_transitive(
                        self.texts()[i as int],
                        self.texts()[k],
                        key@,
                    );
                }
            }
        }
        i
    }

    /// Whether the text at position `i` is `key`.
    fn is_at(&self, i: usize, key: &str) -> (r: bool)
        ensures
            r == (i < self.texts().len() && self.texts()[i as int] == key@),
    {
        i < self.items.len() && text::same(self.items[i].as_str(), key)
    }

    /// Whether `key` is in the set.
    pub fn contains(&self, key: &str) -> (r: bool)
        ensures
            r == self@.contains(key@),
    {
        let at: usize = self.rank(key);
        proof {
            use_type_invariant(self);
            lemma_only_at(self.texts(), key@, at as int);
        }
        self.is_at(at, key)
    }

    /// Put `key` into the set; whether it was new.
    pub fn insert(&mut self, key: String) -> (r: bool)
        ensures
            r == !old(self)@.contains(key@),
            final(self)@ == old(self)@.insert(key@),
    {
        let at: usize = self.rank(key.as_str());
        proof {
            use_type_invariant(&*self);
            lemma_only_at(self.texts(), key@, at as int);
        }
        if self.is_at(at, key.as_str()) {
            assert(self@ =~= old(self)@.insert(key@));
            return false;
        }
        let ghost before = self.texts();
        let ghost word = key@;
        let mut items: Vec<String> = Vec::new();
        std::mem::swap(&mut items, &mut self.items);
        assert(text::strings_of(items@) =~= before);
        items.insert(at, key);
        proof {
            assert(text::strings_of(items@) =~= before.insert(at as int, word));
            lemma_inserted(before, word, at as int);
        }
        self.items = items;
        assert(self.texts() == before.insert(at as int, word));
        true
    }

    /// Take `key` out of the set; whether it was there.
    pub fn remove(&mut self, key: &str) -> (r: bool)
        ensures
            r == old(self)@.contains(key@),
            final(self)@ == old(self)@.remove(key@),
    {
        let at: usize = self.rank(key);
        proof {
            use_type_invariant(&*self);
            lemma_only_at(self.texts(), key@, at as int);
        }
        if !self.is_at(at, key) {
            assert(self@ =~= old(self)@.remove(key@));
            return false;
        }
        let ghost before = self.texts();
        let mut items: Vec<String> = Vec::new();
        std::mem::swap(&mut items, &mut self.items);
        assert(text::strings_of(items@) =~= before);
        let _ = items.remove(at);
        proof {
            assert(text::strings_of(items@) =~= before.remove(at as int));
            lemma_removed(before, key@, at as int);
        }
        self.items = items;
        assert(self.texts() == before.remove(at as int));
        true
    }

    /// Whether the set is empty.
    pub fn is_empty(&self) -> (r: bool)
        ensures
            r == (self@ == Set::<Seq<char>>::empty()),
    {
        proof {
            if self.texts().len() > 0 {
                assert(self@.contains(self.texts()[0]));
            } else {
                assert(self@ =~= Set::empty());
            }
        }
        self.items.len() == 0
    }

    /// The texts in ascending order.
    pub fn to_vec(&self) -> (r: Vec<String>)
        ensures
            text::strings_of(r@) == self.texts(),
            ascending(self.texts()),
    {
        proof {
            use_type_invariant(self);
        }
        let mut out: Vec<String> = Vec::new();
        let mut i: usize = 0;
        while i < self.items.len()
            invariant
                i <= self.items@.len(),
                text::strings_of(out@) =~= self.texts().subrange(0, i as int),
                self.texts() == text::strings_of(self.items@),
            decreases self.items@.len() - i,
        {
            let ghost before = out@;
            let copy: String = self.items[i].clone();
            out.push(copy);
            assert(text::strings_of(out@) =~= text::strings_of(before).push(copy@));
            assert(copy@ == self.texts()[i as int]);
            i = i + 1;
        }
        assert(self.texts().subrange(0, i as int) =~= self.texts());
        out
    }
}

impl Clone for TextSet {
    fn clone(&self) -> (r: TextSet)
        ensures
            r.texts() == self.texts(),
    {
        let items: Vec<String> = self.to_vec();
        TextSet { items }
    }
}

/// In an ascending list, a text can only be where the smaller ones end.
proof fn lemma_only_at(texts: Seq<Seq<char>>, key: Seq<char>, at: int)
    requires
        ascending(texts),
        0 <= at <= texts.len(),
        forall|i: int| 0 <= i < at ==> text::text_less(#[trigger] texts[i], key),
        forall|i: int| at <= i < texts.len() ==> !text::text_less(#[trigger] texts[i], key),
    ensures
        texts.to_set().contains(key) == (at < texts.len() && texts[at] == key),
        !texts.to_set().contains(key) ==> forall|i: int|
            at <= i < texts.len() ==> text::text_less(key, #[trigger] texts[i]),
{
    if texts.contains(key) {
        let k = choose|k: int| 0 <= k < texts.len() && texts[k] == key;
        text::lemma_text_less_irreflexive(key);
        if at < k {
            assert(text::text_less(texts[at], texts[k]));
        }
    } else {
        assert forall|i: int| at <= i < texts.len() implies text::text_less(
            key,
            #[trigger] texts[i],
        ) by {
            text::lemma_text_less_total(key, texts[i]);
            assert(texts.contains(texts[i]));
        }
    }
    assert(at < texts.len() ==> texts.contains(texts[at]));
}

/// A text put where the smaller ones end keeps the order.
proof fn lemma_inserted(texts: Seq<Seq<char>>, key: Seq<char>, at: int)
    requires
        ascending(texts),
        0 <= at <= texts.len(),
        forall|i: int| 0 <= i < at ==> text::text_less(#[trigger] texts[i], key),
        forall|i: int| at <= i < texts.len() ==> text::text_less(key, #[trigger] texts[i]),
    ensures
        ascending(texts.insert(at, key)),
        texts.insert(at, key).to_set() == texts.to_set().insert(key),
{
    let after = texts.insert(at, key);
    assert forall|i: int, j: int| 0 <= i < j < after.len() implies text::text_less(
        #[trigger] after[i],
        #[trigger] after[j],
    ) by {
        let a = if i < at {
            i
        } else {
            i - 1
        };
        let b = if j < at {
            j
        } else {
            j - 1
        };
        if i != at && j != at {
            assert(after[i] == texts[a] && after[j] == texts[b]);
        } else if i == at {
            assert(after[j] == texts[b]);
        } else {
            assert(after[i] == texts[a]);
        }
    }
    assert forall|t: Seq<char>| after.to_set().contains(t) == texts.to_set().insert(key).contains(
        t,
    ) by {
        if texts.contains(t) {
            let k = choose|k: int| 0 <= k < texts.len() && texts[k] == t;
            if k < at {
                assert(after[k] == t);
            } else {
                assert(after[k + 1] == t);
            }
        }
        assert(after[at] == key);
        if after.contains(t) {
            let k = choose|k: int| 0 <= k < after.len() && after[k] == t;
            if k < at {
                assert(texts[k] == t);
            } else if k > at {
                assert(texts[k - 1] == t);
            }
        }
    }
    assert(after.to_set() =~= texts.to_set().insert(key));
}

/// Taking a text out keeps the order.
proof fn lemma_removed(texts: Seq<Seq<char>>, key: Seq<char>, at: int)
    requires
        ascending(texts),
        0 <= at < texts.len(),
        texts[at] == key,
    ensures
        ascending(texts.remove(at)),
        texts.remove(at).to_set() == texts.to_set().remove(key),
{
    let after = texts.remove(at);
    assert forall|i: int, j: int| 0 <= i < j < after.len() implies text::text_less(
        #[trigger] after[i],
        #[trigger] after[j],
    ) by {
        let a = if i < at {
            i
        } else {
            i + 1
        };
        let b = if j < at {
            j
        } else {
            j + 1
        };
        assert(after[i] == texts[a] && after[j] == texts[b]);
    }
    text::lemma_text_less_irreflexive(key);
    assert forall|t: Seq<char>| after.to_set().contains(t) == texts.to_set().remove(key).contains(
        t,
    ) by {
        if texts.contains(t) && t != key {
            let k = choose|k: int| 0 <= k < texts.len() && texts[k] == t;
            if k < at {
                assert(after[k] == t);
            } else {
                assert(after[k - 1] == t);
            }
        }
        if after.contains(t) {
            let k = choose|k: int| 0 <= k < after.len() && after[k] == t;
            let b = if k < at {
                k
            } else {
                k + 1
            };
            assert(texts[b] == t);
            if b < at {
                assert(text::text_less(texts[b], texts[at]));
            } else {
                assert(text::text_less(texts[at], texts[b]));
            }
        }
    }
    assert(after.to_set() =~= texts.to_set().remove(key));
}

/// Two ascending lists with the same texts are the same list.
pub proof fn lemma_ascending_unique(a: Seq<Seq<char>>, b: Seq<Seq<char>>)
    requires
        ascending(a),
        ascending(b),
        a.to_set() == b.to_set(),
    ensures
        a == b,
    decreases a.len(),
{
    if a.len() == 0 {
        if b.len() > 0 {
            assert(b.contains(b[0]));
            assert(a.to_set().contains(b[0]));
        }
        assert(a =~= b);
    } else {
        assert(a.contains(a[0]));
        assert(b.to_set().contains(a[0]));
        let k = choose|k: int| 0 <= k < b.len() && b[k] == a[0];
        assert(b.contains(b[0]));
        assert(a.to_set().contains(b[0]));
        let m = choose|m: int| 0 <= m < a.len() && a[m] == b[0];
        if k > 0 {
            assert(text::text_less(b[0], b[k]));
            if m > 0 {
                assert(text::text_less(a[0], a[m]));
                text::lemma_text_less_asymmetric(a[0], b[0]);
            } else {
                text::lemma_text_less_irreflexive(a[0]);
            }
        }
        assert(a[0] == b[0]);
        lemma_removed(a, a[0], 0);
        lemma_removed(b, b[0], 0);
        lemma_ascending_unique(a.remove(0), b.remove(0));
        assert(a =~= seq![a[0]] + a.remove(0));
        assert(b =~= seq![b[0]] + b.remove(0));
    }
}

/// Sets with the same texts list them alike.
pub proof fn law_order_depends_on_the_texts_alone(a: Seq<Seq<char>>, b: Seq<Seq<char>>)
    requires
        ascending(a),
        ascending(b),
        forall|t: Seq<char>| a.contains(t) == b.contains(t),
    ensures
        a == b,
{
    assert(a.to_set() =~= b.to_set());
    lemma_ascending_unique(a, b);
}

} // verus!
