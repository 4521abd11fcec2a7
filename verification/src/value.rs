//! The value tree of a document, and the ordered map that holds the members
//! of an object.

use vstd::prelude::*;
use vstd::std_specs::iter::IteratorSpec;

verus! {

/// The order of keys: lexicographic, character by character, a proper
/// prefix before the longer text.
pub open spec fn precedes(a: Seq<char>, b: Seq<char>) -> bool
    decreases a.len(),
{
    if b.len() == 0 {
        false
    } else if a.len() == 0 {
        true
    } else if a[0] != b[0] {
        a[0] < b[0]
    } else {
        precedes(a.skip(1), b.skip(1))
    }
}

/// No text precedes itself.
pub proof fn lemma_precedes_irreflexive(a: Seq<char>)
    ensures
        !precedes(a, a),
    decreases a.len(),
{
    if a.len() > 0 {
        lemma_precedes_irreflexive(a.skip(1));
    }
}

/// Of two different texts, one precedes the other.
pub proof fn lemma_precedes_total(a: Seq<char>, b: Seq<char>)
    ensures
        a == b || precedes(a, b) || precedes(b, a),
    decreases a.len(),
{
    if a.len() > 0 && b.len() > 0 && a[0] == b[0] {
        lemma_precedes_total(a.skip(1), b.skip(1));
        if a.skip(1) == b.skip(1) {
            assert(a == seq![a[0]] + a.skip(1));
            assert(b == seq![b[0]] + b.skip(1));
        }
    } else if a.len() == 0 && b.len() == 0 {
        assert(a == b);
    }
}

/// The order of keys is transitive.
pub proof fn lemma_precedes_transitive(a: Seq<char>, b: Seq<char>, c: Seq<char>)
    requires
        precedes(a, b),
        precedes(b, c),
    ensures
        precedes(a, c),
    decreases a.len(),
{
    if a.len() > 0 && a[0] == b[0] && b[0] == c[0] {
        lemma_precedes_transitive(a.skip(1), b.skip(1), c.skip(1));
    }
}

/// How one text stands to another in the order of keys.
#[derive(Debug, PartialEq, Eq, Clone, Copy)]
pub enum Rank {
    Before,
    Same,
    After,
}

/// Finds how `a` stands to `b` in the order of keys.
pub fn rank(a: &str, b: &str) -> (r: Rank)
    ensures
        r is Before <==> precedes(a@, b@),
        r is Same <==> a@ == b@,
        r is After <==> precedes(b@, a@),
{
    broadcast use vstd::string::group_string_axioms;

    let mut left = a.chars();
    let mut right = b.chars();
    proof {
        lemma_precedes_total(a@, b@);
        lemma_precedes_irreflexive(a@);
        lemma_precedes_asymmetric(a@, b@);
    }
    loop
        invariant
            left.decrease() is Some,
            precedes(a@, b@) == precedes(left.remaining(), right.remaining()),
            precedes(b@, a@) == precedes(right.remaining(), left.remaining()),
            (a@ == b@) == (left.remaining() == right.remaining()),
        decreases left.decrease()->0,
    {
        let ghost l = left.remaining();
        let ghost r = right.remaining();
        proof {
            lemma_precedes_total(l, r);
            lemma_precedes_irreflexive(l);
            lemma_precedes_asymmetric(l, r);
        }
        match (left.next(), right.next()) {
            (None, None) => {
                assert(l == r);
                return Rank::Same;
            },
            (None, Some(_)) => {
                return Rank::Before;
            },
            (Some(_), None) => {
                return Rank::After;
            },
            (Some(x), Some(y)) => {
                if x < y {
                    return Rank::Before;
                } else if x > y {
                    return Rank::After;
                }
                assert(l.skip(1) == r.skip(1) ==> l == r) by {
                    assert(l == seq![l[0]] + l.skip(1));
                    assert(r == seq![r[0]] + r.skip(1));
                }
            },
        }
    }
}

/// Of two texts, at most one precedes the other.
pub proof fn lemma_precedes_asymmetric(a: Seq<char>, b: Seq<char>)
    ensures
        !(precedes(a, b) && precedes(b, a)),
{
    if precedes(a, b) && precedes(b, a) {
        lemma_precedes_transitive(a, b, a);
        lemma_precedes_irreflexive(a);
    }
}

/// A node of the value tree.
#[derive(Debug, PartialEq)]
pub enum Value {
    /// `null`.
    Null,
    /// `true` or `false`.
    Bool(bool),
    /// A number, as the decimal literal that was read.
    Number(String),
    /// A string.
    String(String),
    /// An array: its elements in order.
    Array(Vec<Value>),
    /// An object: its members by key.
    Object(Object),
}

/// The members of an object: a map from keys to values that keeps its
/// entries in the order of their keys.
#[derive(Debug, PartialEq)]
pub struct Object {
    /// The entries, by strictly rising key.
    entries: Vec<(String, Value)>,
}

/// The mathematical value of a [`Value`].
pub enum ValueView {
    Null,
    Bool(bool),
    Number(Seq<char>),
    String(Seq<char>),
    Array(Seq<ValueView>),
    Object(Map<Seq<char>, ValueView>),
}

/// The values of a sequence of nodes.
pub open spec fn value_views(items: Seq<Value>) -> Seq<ValueView> {
    Seq::new(items.len(), |i: int| items[i]@)
}

impl View for Value {
    type V = ValueView;

    open spec fn view(&self) -> ValueView
        decreases self,
    {
        match *self {
            Value::Null => ValueView::Null,
            Value::Bool(b) => ValueView::Bool(b),
            Value::Number(text) => ValueView::Number(text@),
            Value::String(text) => ValueView::String(text@),
            Value::Array(items) => ValueView::Array(
                Seq::new(
                    items@.len(),
                    |i: int|
                        if 0 <= i < items@.len() {
                            items@[i].view()
                        } else {
                            ValueView::Null
                        },
                ),
            ),
            Value::Object(members) => ValueView::Object(members.view()),
        }
    }
}

impl View for Object {
    type V = Map<Seq<char>, ValueView>;

    closed spec fn view(&self) -> Map<Seq<char>, ValueView>
        decreases self,
    {
        Map::new(
            |k: Seq<char>| self.holds(k),
            |k: Seq<char>|
                {
                    let i = self.place(k);
                    if 0 <= i < self.entries@.len() {
                        self.entries@[i].1.view()
                    } else {
                        ValueView::Null
                    }
                },
        )
    }
}

impl Object {
    #[verifier::type_invariant]
    spec fn keys_rise(self) -> bool {
        forall|i: int, j: int|
            0 <= i < j < self.entries@.len() ==> precedes(
                #[trigger] self.entries@[i].0@,
                #[trigger] self.entries@[j].0@,
            )
    }

    /// Whether some entry has the key `k`.
    spec fn holds(self, k: Seq<char>) -> bool {
        exists|i: int| 0 <= i < self.entries@.len() && self.entries@[i].0@ == k
    }

    /// The index of an entry with the key `k`.
    spec fn place(self, k: Seq<char>) -> int {
        choose|i: int| 0 <= i < self.entries@.len() && self.entries@[i].0@ == k
    }

    /// The keys of the entries, in the order in which they are kept.
    pub closed spec fn keys(&self) -> Seq<Seq<char>> {
        Seq::new(self.entries@.len(), |i: int| self.entries@[i].0@)
    }

    /// Each entry is found in the map under its key, with its value.
    proof fn lemma_entry(self, i: int)
        requires
            self.keys_rise(),
            0 <= i < self.entries@.len(),
        ensures
            self@.contains_key(self.entries@[i].0@),
            self@[self.entries@[i].0@] == self.entries@[i].1@,
    {
        let k = self.entries@[i].0@;
        let j = self.place(k);
        lemma_precedes_irreflexive(k);
        if j < i {
            assert(precedes(self.entries@[j].0@, self.entries@[i].0@));
        } else if i < j {
            assert(precedes(self.entries@[i].0@, self.entries@[j].0@));
        }
    }

    /// Whether the keys are kept in strictly rising order and are the keys of
    /// the map: the entries then come in lexicographic order of their keys,
    /// and no key occurs twice. This holds of every object.
    pub open spec fn in_key_order(&self) -> bool {
        &&& forall|i: int, j: int|
            0 <= i < j < self.keys().len() ==> precedes(
                #[trigger] self.keys()[i],
                #[trigger] self.keys()[j],
            )
        &&& forall|k: Seq<char>| self@.contains_key(k) <==> self.keys().contains(k)
    }

    proof fn lemma_in_key_order(self)
        requires
            self.keys_rise(),
        ensures
            self.in_key_order(),
    {
        assert forall|k: Seq<char>| self@.contains_key(k) <==> self.keys().contains(k) by {
            if self@.contains_key(k) {
                let i = self.place(k);
                assert(self.keys()[i] == k);
            }
            if self.keys().contains(k) {
                let i = choose|i: int| 0 <= i < self.keys().len() && self.keys()[i] == k;
                assert(self.entries@[i].0@ == k);
            }
        }
    }

    /// An object without members.
    pub fn new() -> (members: Object)
        ensures
            members@ == Map::<Seq<char>, ValueView>::empty(),
            members.keys() == Seq::<Seq<char>>::empty(),
    {
        let members = Object { entries: Vec::new() };
        assert(members@ =~= Map::<Seq<char>, ValueView>::empty());
        assert(members.keys() =~= Seq::<Seq<char>>::empty());
        members
    }

    /// The number of members.
    pub fn len(&self) -> (n: usize)
        ensures
            n == self.keys().len(),
            self.in_key_order(),
    {
        proof {
            use_type_invariant(self);
            self.lemma_in_key_order();
        }
        self.entries.len()
    }

    /// The member at place `i` in the order of the keys: its key and its
    /// value.
    pub fn entry(&self, i: usize) -> (r: (&String, &Value))
        requires
            i < self.keys().len(),
        ensures
            r.0@ == self.keys()[i as int],
            self@.contains_key(r.0@),
            self@[r.0@] == r.1@,
    {
        proof {
            use_type_invariant(self);
            self.lemma_entry(i as int);
        }
        let e = &self.entries[i];
        (&e.0, &e.1)
    }

    /// The value of the member with the given key, if there is one.
    pub fn get(&self, key: &str) -> (r: Option<&Value>)
        ensures
            match r {
                Some(value) => self@.contains_key(key@) && self@[key@] == value@,
                None => !self@.contains_key(key@),
            },
    {
        proof {
            use_type_invariant(self);
        }
        let mut i: usize = 0;
        while i < self.entries.len()
            invariant
                i <= self.entries.len(),
                forall|j: int| 0 <= j < i ==> (#[trigger] self.entries@[j]).0@ != key@,
            decreases self.entries.len() - i,
        {
            match rank(self.entries[i].0.as_str(), key) {
                Rank::Same => {
                    proof {
                        use_type_invariant(self);
                        self.lemma_entry(i as int);
                    }
                    return Some(&self.entries[i].1);
                },
                _ => {},
            }
            i += 1;
        }
        proof {
            if self@.contains_key(key@) {
                let j = self.place(key@);
                assert(self.entries@[j].0@ == key@);
            }
        }
        None
    }

    /// Sets the member with the given key to the given value: a member with
    /// that key is overwritten, and a new one takes its place in the order of
    /// the keys.
    pub fn insert(&mut self, key: String, value: Value)
        ensures
            final(self)@ == old(self)@.insert(key@, value@),
    {
        proof {
            use_type_invariant(&*self);
        }
        let ghost before = *self;
        let ghost k = key@;
        let ghost v = value@;
        let mut taken = Object { entries: Vec::new() };
        core::mem::swap(self, &mut taken);
        let mut entries = taken.entries;
        let mut i: usize = 0;
        let mut found: bool = false;
        while i < entries.len() && !found
            invariant
                entries == before.entries,
                i <= entries.len(),
                forall|j: int| 0 <= j < i ==> precedes(#[trigger] entries@[j].0@, key@),
                found ==> i < entries.len() && !precedes(entries@[i as int].0@, key@),
            decreases entries.len() - i + (if found { 0int } else { 1int }),
        {
            match rank(entries[i].0.as_str(), key.as_str()) {
                Rank::Before => {
                    i += 1;
                },
                _ => {
                    found = true;
                },
            }
        }
        let replace: bool = found && match rank(entries[i].0.as_str(), key.as_str()) {
            Rank::Same => true,
            _ => false,
        };
        if replace {
            entries.set(i, (key, value));
        } else {
            entries.insert(i, (key, value));
        }
        proof {
            let at = i as int;
            assert forall|a: int, b: int| 0 <= a < b < entries@.len() implies precedes(
                #[trigger] entries@[a].0@,
                #[trigger] entries@[b].0@,
            ) by {
                if replace {
                    assert(entries@[a].0@ == before.entries@[a].0@);
                    assert(entries@[b].0@ == before.entries@[b].0@);
                } else {
                    let a0 = if a < at { a } else { a - 1 };
                    let b0 = if b < at { b } else { b - 1 };
                    if a != at {
                        assert(entries@[a] == before.entries@[a0]);
                    }
                    if b != at {
                        assert(entries@[b] == before.entries@[b0]);
                    }
                    if a == at {
                        lemma_precedes_total(before.entries@[at].0@, k);
                        if at < b0 {
                            assert(precedes(before.entries@[at].0@, before.entries@[b0].0@));
                            lemma_precedes_transitive(
                                k,
                                before.entries@[at].0@,
                                before.entries@[b0].0@,
                            );
                        }
                    } else if b == at {
                    } else {
                        assert(precedes(before.entries@[a0].0@, before.entries@[b0].0@));
                    }
                }
            }
        }
        self.entries = entries;
        proof {
            let after = *self;
            let at = i as int;
            assert(after.entries@[at].0@ == k && after.entries@[at].1@ == v);
            assert(after.keys_rise());
            assert forall|q: Seq<char>| after@.contains_key(q) <==> (q == k || before@.contains_key(
                q,
            )) by {
                if after@.contains_key(q) && q != k {
                    let j = after.place(q);
                    let j0 = if replace || j < at { j } else { j - 1 };
                    assert(before.entries@[j0].0@ == q);
                }
                if before@.contains_key(q) && q != k {
                    let j0 = before.place(q);
                    let j = if replace || j0 < at { j0 } else { j0 + 1 };
                    assert(after.entries@[j].0@ == q);
                }
                if q == k {
                    after.lemma_entry(at);
                }
            }
            assert forall|q: Seq<char>| after@.contains_key(q) implies #[trigger] after@[q]
                == before@.insert(k, v)[q] by {
                if q == k {
                    after.lemma_entry(at);
                } else {
                    let j0 = before.place(q);
                    let j = if replace || j0 < at { j0 } else { j0 + 1 };
                    assert(before.entries@[j0].0@ == q);
                    assert(after.entries@[j] == before.entries@[j0]);
                    before.lemma_entry(j0);
                    after.lemma_entry(j);
                }
            }
            assert(after@ =~= before@.insert(k, v));
        }
    }
}

} // verus!
