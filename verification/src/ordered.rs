//! Ordered maps and sets over keys with a total order.
//!
//! The entries stand in one vector, sorted by key, so that iteration goes in
//! key order and look-up is a binary search.
use vstd::prelude::*;

verus! {

// ---------------------------------------------------------------------------
// Orders
// ---------------------------------------------------------------------------

/// A strict total order.
pub open spec fn strict_order<T>(lt: spec_fn(T, T) -> bool) -> bool {
    &&& forall|a: T| !#[trigger] lt(a, a)
    &&& forall|a: T, b: T, c: T| #[trigger] lt(a, b) && #[trigger] lt(b, c) ==> lt(a, c)
    &&& forall|a: T, b: T| #![trigger lt(a, b)] a == b || lt(a, b) || lt(b, a)
}

/// The lexicographic order on sequences: the first difference decides, and a
/// proper prefix comes first.
pub open spec fn lex<T>(a: Seq<T>, b: Seq<T>, lt: spec_fn(T, T) -> bool) -> bool
    decreases a.len(),
{
    if b.len() == 0 {
        false
    } else if a.len() == 0 {
        true
    } else if a[0] == b[0] {
        lex(a.skip(1), b.skip(1), lt)
    } else {
        lt(a[0], b[0])
    }
}

/// The lexicographic order as a relation.
pub open spec fn lex_order<T>(lt: spec_fn(T, T) -> bool) -> spec_fn(Seq<T>, Seq<T>) -> bool {
    |a: Seq<T>, b: Seq<T>| lex(a, b, lt)
}

proof fn lemma_lex_irreflexive<T>(a: Seq<T>, lt: spec_fn(T, T) -> bool)
    requires
        strict_order(lt),
    ensures
        !lex(a, a, lt),
    decreases a.len(),
{
    if a.len() > 0 {
        lemma_lex_irreflexive(a.skip(1), lt);
    }
}

proof fn lemma_lex_transitive<T>(a: Seq<T>, b: Seq<T>, c: Seq<T>, lt: spec_fn(T, T) -> bool)
    requires
        strict_order(lt),
        lex(a, b, lt),
        lex(b, c, lt),
    ensures
        lex(a, c, lt),
    decreases a.len(),
{
    if a.len() > 0 {
        if a[0] == b[0] && b[0] == c[0] {
            lemma_lex_transitive(a.skip(1), b.skip(1), c.skip(1), lt);
        } else if a[0] != b[0] && b[0] != c[0] {
            assert(lt(a[0], b[0]));
            assert(lt(b[0], c[0]));
            assert(!lt(a[0], a[0]));
        }
    }
}

proof fn lemma_lex_total<T>(a: Seq<T>, b: Seq<T>, lt: spec_fn(T, T) -> bool)
    requires
        strict_order(lt),
    ensures
        a == b || lex(a, b, lt) || lex(b, a, lt),
    decreases a.len(),
{
    if a.len() == 0 {
        assert(b.len() == 0 ==> a == b);
    } else if b.len() > 0 {
        if a[0] == b[0] {
            lemma_lex_total(a.skip(1), b.skip(1), lt);
            if a.skip(1) == b.skip(1) {
                assert(a == seq![a[0]] + a.skip(1));
                assert(b == seq![b[0]] + b.skip(1));
            }
        } else {
            assert(lt(a[0], b[0]) || lt(b[0], a[0]));
        }
    }
}

/// The lexicographic order over a strict total order is one too.
pub proof fn lemma_lex_order<T>(lt: spec_fn(T, T) -> bool)
    requires
        strict_order(lt),
    ensures
        strict_order(lex_order(lt)),
{
    let order = lex_order(lt);
    assert forall|a: Seq<T>| !#[trigger] order(a, a) by {
        lemma_lex_irreflexive(a, lt);
    }
    assert forall|a: Seq<T>, b: Seq<T>, c: Seq<T>|
        #[trigger] order(a, b) && #[trigger] order(b, c) implies order(a, c) by {
        lemma_lex_transitive(a, b, c, lt);
    }
    assert forall|a: Seq<T>, b: Seq<T>|
        #![trigger order(a, b)]
        a == b || order(a, b) || order(b, a) by {
        lemma_lex_total(a, b, lt);
    }
}

/// Where one key stands relative to another.
#[derive(Clone, Copy, Debug, PartialEq, Eq, Structural)]
pub enum Placement {
    Before,
    Same,
    After,
}

// ---------------------------------------------------------------------------
// Records and keys
// ---------------------------------------------------------------------------

/// A value with a mathematical model, which can be duplicated.
pub trait Record: Sized {
    type Model;

    /// What the value stands for.
    spec fn model(&self) -> Self::Model;

    /// A second value that stands for the same.
    fn duplicate(&self) -> (r: Self)
        ensures
            r.model() == self.model(),
    ;
}

/// A record that can be a key: its model has a name, and names are ordered.
pub trait Key: Record {
    type Name;

    /// What identifies a key.
    spec fn name(m: Self::Model) -> Self::Name;

    /// The order of the names.
    spec fn order() -> spec_fn(Self::Name, Self::Name) -> bool;

    /// The order of the names is a strict total order.
    proof fn order_laws()
        ensures
            strict_order(Self::order()),
    ;

    /// Where this key stands relative to another.
    fn place(&self, other: &Self) -> (r: Placement)
        ensures
            match r {
                Placement::Before => Self::order()(
                    Self::name(self.model()),
                    Self::name(other.model()),
                ),
                Placement::Same => Self::name(self.model()) == Self::name(other.model()),
                Placement::After => Self::order()(
                    Self::name(other.model()),
                    Self::name(self.model()),
                ),
            },
    ;
}

/// The name of a key.
pub open spec fn key_name<K: Key>(k: K) -> K::Name {
    K::name(k.model())
}

impl Record for () {
    type Model = ();

    open spec fn model(&self) -> () {
        ()
    }

    fn duplicate(&self) -> (r: Self) {
        ()
    }
}

impl Record for bool {
    type Model = bool;

    open spec fn model(&self) -> bool {
        *self
    }

    fn duplicate(&self) -> (r: Self) {
        *self
    }
}

impl Record for u32 {
    type Model = u32;

    open spec fn model(&self) -> u32 {
        *self
    }

    fn duplicate(&self) -> (r: Self) {
        *self
    }
}

impl Key for u32 {
    type Name = u32;

    open spec fn name(m: u32) -> u32 {
        m
    }

    open spec fn order() -> spec_fn(u32, u32) -> bool {
        |a: u32, b: u32| a < b
    }

    proof fn order_laws() {
    }

    fn place(&self, other: &Self) -> (r: Placement) {
        if *self < *other {
            Placement::Before
        } else if *self == *other {
            Placement::Same
        } else {
            Placement::After
        }
    }
}

impl Record for u64 {
    type Model = u64;

    open spec fn model(&self) -> u64 {
        *self
    }

    fn duplicate(&self) -> (r: Self) {
        *self
    }
}

impl Key for u64 {
    type Name = u64;

    open spec fn name(m: u64) -> u64 {
        m
    }

    open spec fn order() -> spec_fn(u64, u64) -> bool {
        |a: u64, b: u64| a < b
    }

    proof fn order_laws() {
    }

    fn place(&self, other: &Self) -> (r: Placement) {
        if *self < *other {
            Placement::Before
        } else if *self == *other {
            Placement::Same
        } else {
            Placement::After
        }
    }
}

impl Record for i32 {
    type Model = i32;

    open spec fn model(&self) -> i32 {
        *self
    }

    fn duplicate(&self) -> (r: Self) {
        *self
    }
}

impl Key for i32 {
    type Name = i32;

    open spec fn name(m: i32) -> i32 {
        m
    }

    open spec fn order() -> spec_fn(i32, i32) -> bool {
        |a: i32, b: i32| a < b
    }

    proof fn order_laws() {
    }

    fn place(&self, other: &Self) -> (r: Placement) {
        if *self < *other {
            Placement::Before
        } else if *self == *other {
            Placement::Same
        } else {
            Placement::After
        }
    }
}

/// The order of characters by code point.
pub open spec fn char_order() -> spec_fn(char, char) -> bool {
    |a: char, b: char| a < b
}

impl Record for String {
    type Model = Seq<char>;

    open spec fn model(&self) -> Seq<char> {
        self@
    }

    fn duplicate(&self) -> (r: Self) {
        self.clone()
    }
}

impl Key for String {
    type Name = Seq<char>;

    open spec fn name(m: Seq<char>) -> Seq<char> {
        m
    }

    open spec fn order() -> spec_fn(Seq<char>, Seq<char>) -> bool {
        lex_order(char_order())
    }

    proof fn order_laws() {
        lemma_lex_order(char_order());
    }

    fn place(&self, other: &Self) -> (r: Placement) {
        let a = crate::text::chars_of(self.as_str());
        let b = crate::text::chars_of(other.as_str());
        let mut i: usize = 0;
        proof {
            assert(a@.skip(0) == a@);
            assert(b@.skip(0) == b@);
        }
        while i < a.len() && i < b.len()
            invariant
                i <= a.len(),
                i <= b.len(),
                a@.take(i as int) == b@.take(i as int),
                lex(a@, b@, char_order()) == lex(a@.skip(i as int), b@.skip(i as int), char_order()),
                lex(b@, a@, char_order()) == lex(b@.skip(i as int), a@.skip(i as int), char_order()),
                a@ == self@,
                b@ == other@,
            decreases a.len() - i,
        {
            if a[i] < b[i] {
                return Placement::Before;
            }
            if a[i] > b[i] {
                return Placement::After;
            }
            proof {
                assert(a@.skip(i as int).skip(1) == a@.skip(i + 1));
                assert(b@.skip(i as int).skip(1) == b@.skip(i + 1));
                assert(a@.take(i + 1) == a@.take(i as int).push(a@[i as int]));
                assert(b@.take(i + 1) == b@.take(i as int).push(b@[i as int]));
            }
            i += 1;
        }
        if i < b.len() {
            Placement::Before
        } else if i < a.len() {
            Placement::After
        } else {
            assert(a@.take(i as int) == a@);
            assert(b@.take(i as int) == b@);
            Placement::Same
        }
    }
}

impl Record for Vec<String> {
    type Model = Seq<Seq<char>>;

    open spec fn model(&self) -> Seq<Seq<char>> {
        strings(self@)
    }

    fn duplicate(&self) -> (r: Self) {
        let mut r: Vec<String> = Vec::new();
        let mut i: usize = 0;
        while i < self.len()
            invariant
                i <= self.len(),
                r.len() == i,
                forall|k: int| 0 <= k < i ==> (#[trigger] r@[k])@ == self@[k]@,
            decreases self.len() - i,
        {
            r.push(self[i].clone());
            i += 1;
        }
        assert(strings(r@) == strings(self@));
        r
    }
}

/// The texts of a sequence of strings.
pub open spec fn strings(s: Seq<String>) -> Seq<Seq<char>> {
    Seq::new(s.len(), |i: int| s[i]@)
}

// ---------------------------------------------------------------------------
// Maps
// ---------------------------------------------------------------------------

/// Whether a sequence of names goes up strictly.
pub open spec fn increasing<N>(names: Seq<N>, lt: spec_fn(N, N) -> bool) -> bool {
    forall|i: int, j: int|
        #![trigger names[i], names[j]]
        0 <= i < j < names.len() ==> lt(names[i], names[j])
}

/// Whether a sequence lists the names of a map, each once, in order.
pub open spec fn lists<N, M>(names: Seq<N>, m: Map<N, M>, lt: spec_fn(N, N) -> bool) -> bool {
    &&& increasing(names, lt)
    &&& names.no_duplicates()
    &&& forall|n: N| #[trigger] m.contains_key(n) <==> names.contains(n)
    &&& names.len() == m.len()
}

/// A map from keys to values, iterated in key order.
#[derive(Debug, PartialEq, Eq)]
pub struct OrdMap<K: Key, V: Record> {
    entries: Vec<(K, V)>,
}

spec fn names_of<K: Key, V: Record>(entries: Seq<(K, V)>) -> Seq<K::Name> {
    Seq::new(entries.len(), |i: int| key_name(entries[i].0))
}

spec fn map_of<K: Key, V: Record>(entries: Seq<(K, V)>) -> Map<K::Name, V::Model> {
    Map::new(
        |n: K::Name| names_of(entries).contains(n),
        |n: K::Name| entries[names_of(entries).index_of(n)].1.model(),
    )
}

spec fn sorted<K: Key, V: Record>(entries: Seq<(K, V)>) -> bool {
    increasing(names_of(entries), K::order())
}

proof fn lemma_sorted_unique<K: Key, V: Record>(entries: Seq<(K, V)>)
    requires
        sorted(entries),
    ensures
        names_of(entries).no_duplicates(),
        map_of(entries).dom() == names_of(entries).to_set(),
        map_of(entries).len() == entries.len(),
        lists(names_of(entries), map_of(entries), K::order()),
        forall|i: int|
            0 <= i < entries.len() ==> map_of(entries).contains_key(
                key_name((#[trigger] entries[i]).0),
            ) && map_of(entries)[key_name(entries[i].0)] == entries[i].1.model(),
{
    K::order_laws();
    let names = names_of(entries);
    let lt = K::order();
    assert forall|i: int, j: int|
        0 <= i < names.len() && 0 <= j < names.len() && i != j implies names[i] != names[j] by {
        if i < j {
            assert(lt(names[i], names[j]));
        } else {
            assert(lt(names[j], names[i]));
        }
        assert(!lt(names[i], names[i]));
    }
    assert(map_of(entries).dom() =~= names.to_set());
    names.unique_seq_to_set();
    assert forall|i: int| 0 <= i < entries.len() implies map_of(entries).contains_key(
        key_name((#[trigger] entries[i]).0),
    ) && map_of(entries)[key_name(entries[i].0)] == entries[i].1.model() by {
        assert(names[i] == key_name(entries[i].0));
        assert(names.contains(names[i]));
        let k = names.index_of(names[i]);
        assert(0 <= k < names.len() && names[k] == names[i]);
        assert(k == i);
    }
}

impl<K: Key, V: Record> View for OrdMap<K, V> {
    type V = Map<K::Name, V::Model>;

    closed spec fn view(&self) -> Map<K::Name, V::Model> {
        map_of(self.entries@)
    }
}

impl<K: Key, V: Record> OrdMap<K, V> {
    #[verifier::type_invariant]
    spec fn inv(self) -> bool {
        sorted(self.entries@)
    }

    /// The names of the keys, in order.
    pub closed spec fn names(&self) -> Seq<K::Name> {
        names_of(self.entries@)
    }

    /// The models of the keys, in order.
    pub closed spec fn key_models(&self) -> Seq<K::Model> {
        Seq::new(self.entries@.len(), |i: int| self.entries@[i].0.model())
    }

    /// The empty map.
    pub fn new() -> (r: Self)
        ensures
            r@ == Map::<K::Name, V::Model>::empty(),
            r.names() == Seq::<K::Name>::empty(),
    {
        let entries: Vec<(K, V)> = Vec::new();
        let r = OrdMap { entries };
        proof {
            assert(r@ =~= Map::<K::Name, V::Model>::empty());
        }
        r
    }

    /// The number of keys.
    pub fn len(&self) -> (r: usize)
        ensures
            r == self@.len(),
            r == self.names().len(),
            r == self.key_models().len(),
            lists(self.names(), self@, K::order()),
            forall|i: int|
                0 <= i < r ==> #[trigger] self.names()[i] == K::name(self.key_models()[i]),
    {
        proof {
            use_type_invariant(self);
            lemma_sorted_unique(self.entries@);
        }
        self.entries.len()
    }

    /// Whether there is no key.
    pub fn is_empty(&self) -> (r: bool)
        ensures
            r == (self@ == Map::<K::Name, V::Model>::empty()),
            r == (self@.len() == 0),
    {
        proof {
            use_type_invariant(self);
            lemma_sorted_unique(self.entries@);
            if self.entries@.len() == 0 {
                assert(self@ =~= Map::<K::Name, V::Model>::empty());
            } else {
                assert(self@.contains_key(key_name(self.entries@[0].0)));
            }
        }
        self.entries.len() == 0
    }

    /// The position of the first key that does not stand before `key`.
    fn locate(&self, key: &K) -> (r: (usize, bool))
        ensures
            r.0 <= self.entries@.len(),
            forall|i: int|
                0 <= i < r.0 ==> #[trigger] K::order()(
                    names_of(self.entries@)[i],
                    key_name(*key),
                ),
            r.1 ==> r.0 < self.entries@.len() && key_name(self.entries@[r.0 as int].0) == key_name(
                *key,
            ),
            forall|i: int|
                r.0 <= i < self.entries@.len() && !(r.1 && i == r.0)
                    ==> #[trigger] K::order()(key_name(*key), names_of(self.entries@)[i]),
            r.1 == names_of(self.entries@).contains(key_name(*key)),
    {
        let ghost names = names_of(self.entries@);
        let ghost lt = K::order();
        let ghost name = key_name(*key);
        proof {
            use_type_invariant(self);
            K::order_laws();
            lemma_sorted_unique(self.entries@);
        }
        let mut low: usize = 0;
        let mut high: usize = self.entries.len();
        while low < high
            invariant
                low <= high <= self.entries@.len(),
                names == names_of(self.entries@),
                lt == K::order(),
                name == key_name(*key),
                strict_order(lt),
                increasing(names, lt),
                forall|i: int| 0 <= i < low ==> #[trigger] lt(names[i], name),
                forall|i: int| high <= i < names.len() ==> #[trigger] lt(name, names[i]),
            decreases high - low,
        {
            let mid: usize = low + (high - low) / 2;
            assert(names[mid as int] == key_name(self.entries@[mid as int].0));
            match self.entries[mid].0.place(key) {
                Placement::Before => {
                    assert forall|i: int| 0 <= i < mid + 1 implies #[trigger] lt(
                        names[i],
                        name,
                    ) by {
                        if i < mid {
                            assert(lt(names[i], names[mid as int]));
                        }
                    }
                    low = mid + 1;
                },
                Placement::Same => {
                    assert forall|i: int| 0 <= i < mid implies #[trigger] lt(names[i], name) by {
                        assert(lt(names[i], names[mid as int]));
                    }
                    assert forall|i: int| mid < i < names.len() implies #[trigger] lt(
                        name,
                        names[i],
                    ) by {
                        assert(lt(names[mid as int], names[i]));
                    }
                    assert(names.contains(names[mid as int]));
                    return (mid, true);
                },
                Placement::After => {
                    assert forall|i: int| mid <= i < names.len() implies #[trigger] lt(
                        name,
                        names[i],
                    ) by {
                        if mid < i {
                            assert(lt(names[mid as int], names[i]));
                        }
                    }
                    high = mid;
                },
            }
        }
        proof {
            if names.contains(name) {
                let i = choose|i: int| 0 <= i < names.len() && names[i] == name;
                if i < low {
                    assert(lt(names[i], name));
                } else {
                    assert(lt(name, names[i]));
                }
                assert(!lt(name, name));
            }
        }
        (low, false)
    }

    /// Whether a key is there.
    pub fn contains_key(&self, key: &K) -> (r: bool)
        ensures
            r == self@.contains_key(key_name(*key)),
    {
        self.locate(key).1
    }

    /// The value of a key.
    pub fn get(&self, key: &K) -> (r: Option<&V>)
        ensures
            match r {
                Some(v) => self@.contains_key(key_name(*key)) && self@[key_name(*key)]
                    == v.model(),
                None => !self@.contains_key(key_name(*key)),
            },
    {
        let (at, found) = self.locate(key);
        if found {
            proof {
                use_type_invariant(self);
                lemma_sorted_unique(self.entries@);
            }
            Some(&self.entries[at].1)
        } else {
            None
        }
    }

    /// The key at a position of the order.
    pub fn key_at(&self, i: usize) -> (r: &K)
        requires
            i < self.names().len(),
        ensures
            key_name(*r) == self.names()[i as int],
            r.model() == self.key_models()[i as int],
            self@.contains_key(key_name(*r)),
    {
        proof {
            use_type_invariant(self);
            lemma_sorted_unique(self.entries@);
        }
        &self.entries[i].0
    }

    /// The value at a position of the order.
    pub fn value_at(&self, i: usize) -> (r: &V)
        requires
            i < self.names().len(),
        ensures
            self@.contains_key(self.names()[i as int]),
            r.model() == self@[self.names()[i as int]],
    {
        proof {
            use_type_invariant(self);
            lemma_sorted_unique(self.entries@);
        }
        &self.entries[i].1
    }

    /// Gives a key a value. A key that is there already stays as it is and gets
    /// the new value.
    pub fn insert(&mut self, key: K, value: V)
        ensures
            final(self)@ == old(self)@.insert(key_name(key), value.model()),
    {
        let (at, found) = self.locate(&key);
        let ghost name = key_name(key);
        let ghost model = value.model();
        let ghost before = self.entries@;
        let ghost names = names_of(before);
        let ghost lt = K::order();
        proof {
            use_type_invariant(&*self);
            K::order_laws();
            lemma_sorted_unique(before);
        }
        let mut entries: Vec<(K, V)> = Vec::new();
        core::mem::swap(&mut entries, &mut self.entries);
        if found {
            let (kept, _) = entries.remove(at);
            entries.insert(at, (kept, value));
            proof {
                assert(names_of(entries@) =~= names);
                lemma_sorted_unique(entries@);
                assert(map_of(entries@) =~= map_of(before).insert(name, model)) by {
                    assert(map_of(entries@).dom() =~= map_of(before).insert(name, model).dom());
                    assert forall|n: K::Name| map_of(entries@).contains_key(n) implies map_of(
                        entries@,
                    )[n] == map_of(before).insert(name, model)[n] by {
                        let i = names.index_of(n);
                        assert(names[i] == n);
                        assert(names_of(entries@)[i] == n);
                        assert(entries@[i].1.model() == map_of(entries@)[n]);
                        assert(before[i].1.model() == map_of(before)[n]);
                        assert(names[at as int] == name);
                        if i != at {
                            assert(entries@[i] == before[i]);
                        }
                    }
                }
            }
        } else {
            entries.insert(at, (key, value));
            proof {
                assert(names_of(entries@) =~= names.insert(at as int, name));
                let after = names_of(entries@);
                assert forall|i: int, j: int|
                    #![trigger after[i], after[j]]
                    0 <= i < j < after.len() implies lt(after[i], after[j]) by {
                    if i == at {
                        assert(after[j] == names[j - 1]);
                        assert(lt(name, names[j - 1]));
                    } else if j == at {
                        assert(lt(names[i], name));
                    } else {
                        let a = if i < at { i } else { i - 1 };
                        let b = if j < at { j } else { j - 1 };
                        assert(after[i] == names[a]);
                        assert(after[j] == names[b]);
                        assert(lt(names[a], names[b]));
                    }
                }
                lemma_sorted_unique(entries@);
                assert(map_of(entries@) =~= map_of(before).insert(name, model)) by {
                    assert forall|n: K::Name| after.contains(n) <==> (n == name || names.contains(n)) by {
                        if after.contains(n) {
                            let i = after.index_of(n);
                            assert(after[i] == n);
                            if i < at {
                                assert(names[i] == n);
                            } else if i > at {
                                assert(names[i - 1] == n);
                            }
                        }
                        if n == name {
                            assert(after[at as int] == n);
                        } else if names.contains(n) {
                            let i = names.index_of(n);
                            if i < at {
                                assert(after[i] == n);
                            } else {
                                assert(after[i + 1] == n);
                            }
                        }
                    }
                    assert(map_of(entries@).dom() =~= map_of(before).insert(name, model).dom());
                    assert forall|n: K::Name| map_of(entries@).contains_key(n) implies map_of(
                        entries@,
                    )[n] == map_of(before).insert(name, model)[n] by {
                        let i = after.index_of(n);
                        assert(after[i] == n);
                        assert(entries@[i].1.model() == map_of(entries@)[n]);
                        if i < at {
                            assert(before[i] == entries@[i]);
                            assert(map_of(before)[key_name(before[i].0)] == before[i].1.model());
                            assert(!lt(name, name));
                            assert(lt(names[i], name));
                        } else if i > at {
                            assert(before[i - 1] == entries@[i]);
                            assert(map_of(before)[key_name(before[i - 1].0)] == before[i
                                - 1].1.model());
                            assert(!lt(name, name));
                            assert(lt(name, names[i - 1]));
                        }
                    }
                }
            }
        }
        self.entries = entries;
    }

    /// Takes a key out and hands back its value.
    pub fn remove(&mut self, key: &K) -> (r: Option<V>)
        ensures
            final(self)@ == old(self)@.remove(key_name(*key)),
            match r {
                Some(v) => old(self)@.contains_key(key_name(*key)) && old(self)@[key_name(*key)]
                    == v.model(),
                None => !old(self)@.contains_key(key_name(*key)),
            },
    {
        let (at, found) = self.locate(key);
        let ghost name = key_name(*key);
        let ghost before = self.entries@;
        let ghost names = names_of(before);
        let ghost lt = K::order();
        proof {
            use_type_invariant(&*self);
            K::order_laws();
            lemma_sorted_unique(before);
        }
        if !found {
            assert(map_of(before).remove(name) =~= map_of(before));
            return None;
        }
        let mut entries: Vec<(K, V)> = Vec::new();
        core::mem::swap(&mut entries, &mut self.entries);
        let (_, value) = entries.remove(at);
        proof {
            assert(names_of(entries@) =~= names.remove(at as int));
            let after = names_of(entries@);
            assert forall|i: int, j: int|
                #![trigger after[i], after[j]]
                0 <= i < j < after.len() implies lt(after[i], after[j]) by {
                let a = if i < at { i } else { i + 1 };
                let b = if j < at { j } else { j + 1 };
                assert(after[i] == names[a]);
                assert(after[j] == names[b]);
                assert(lt(names[a], names[b]));
            }
            lemma_sorted_unique(entries@);
            assert(names[at as int] == name);
            assert forall|n: K::Name| after.contains(n) <==> (n != name && names.contains(n)) by {
                if after.contains(n) {
                    let i = after.index_of(n);
                    let a = if i < at { i } else { i + 1 };
                    assert(names[a] == n);
                    assert(a != at);
                    assert(names[a] != names[at as int]);
                }
                if n != name && names.contains(n) {
                    let i = names.index_of(n);
                    if i < at {
                        assert(after[i] == n);
                    } else {
                        assert(after[i - 1] == n);
                    }
                }
            }
            assert(map_of(entries@) =~= map_of(before).remove(name)) by {
                assert(map_of(entries@).dom() =~= map_of(before).remove(name).dom());
                assert forall|n: K::Name| map_of(entries@).contains_key(n) implies map_of(
                    entries@,
                )[n] == map_of(before).remove(name)[n] by {
                    let i = after.index_of(n);
                    assert(after[i] == n);
                    assert(entries@[i].1.model() == map_of(entries@)[n]);
                    let a = if i < at { i } else { i + 1 };
                    assert(before[a] == entries@[i]);
                    assert(map_of(before)[key_name(before[a].0)] == before[a].1.model());
                }
            }
        }
        self.entries = entries;
        Some(value)
    }
}

impl<K: Key, V: Record> Record for OrdMap<K, V> {
    type Model = Map<K::Name, V::Model>;

    open spec fn model(&self) -> Map<K::Name, V::Model> {
        self@
    }

    fn duplicate(&self) -> (r: Self) {
        let mut r: OrdMap<K, V> = OrdMap::new();
        let n: usize = self.len();
        let mut i: usize = 0;
        while i < n
            invariant
                i <= n,
                n == self.names().len(),
                lists(self.names(), self@, K::order()),
                forall|m: K::Name| #[trigger]
                    r@.contains_key(m) <==> self.names().take(i as int).contains(m),
                forall|m: K::Name| #[trigger] r@.contains_key(m) ==> r@[m] == self@[m],
            decreases n - i,
        {
            let ghost was = r@;
            let key = self.key_at(i);
            r.insert(key.duplicate(), self.value_at(i).duplicate());
            proof {
                let names = self.names();
                assert(names.take(i + 1) == names.take(i as int).push(names[i as int]));
                assert forall|m: K::Name| #[trigger]
                    r@.contains_key(m) <==> names.take(i + 1).contains(m) by {
                    if m == names[i as int] {
                        assert(names.take(i + 1)[i as int] == m);
                    } else if was.contains_key(m) {
                        let k = names.take(i as int).index_of(m);
                        assert(names.take(i + 1)[k] == m);
                    } else if names.take(i + 1).contains(m) {
                        let k = names.take(i + 1).index_of(m);
                        assert(names.take(i as int)[k] == m);
                    }
                }
            }
            i += 1;
        }
        proof {
            assert(self.names().take(n as int) == self.names());
            assert(r@ =~= self@);
        }
        r
    }
}

impl<K: Key, V: Record> Clone for OrdMap<K, V> {
    fn clone(&self) -> (r: Self)
        ensures
            r@ == self@,
    {
        self.duplicate()
    }
}

// ---------------------------------------------------------------------------
// Sets
// ---------------------------------------------------------------------------

/// A set of keys, iterated in key order.
#[derive(Debug, PartialEq, Eq)]
pub struct OrdSet<K: Key> {
    map: OrdMap<K, ()>,
}

impl<K: Key> View for OrdSet<K> {
    type V = Set<K::Name>;

    closed spec fn view(&self) -> Set<K::Name> {
        self.map@.dom()
    }
}

/// Whether a sequence lists the names of a set, each once, in order.
pub open spec fn enumerates<N>(names: Seq<N>, s: Set<N>, lt: spec_fn(N, N) -> bool) -> bool {
    &&& increasing(names, lt)
    &&& names.no_duplicates()
    &&& forall|n: N| #[trigger] s.contains(n) <==> names.contains(n)
    &&& names.len() == s.len()
}

impl<K: Key> OrdSet<K> {
    /// The names, in order.
    pub closed spec fn names(&self) -> Seq<K::Name> {
        self.map.names()
    }

    /// The models of the keys, in order.
    pub closed spec fn key_models(&self) -> Seq<K::Model> {
        self.map.key_models()
    }

    /// The empty set.
    pub fn new() -> (r: Self)
        ensures
            r@ == Set::<K::Name>::empty(),
            r.names() == Seq::<K::Name>::empty(),
    {
        let r = OrdSet { map: OrdMap::new() };
        assert(r@ =~= Set::<K::Name>::empty());
        r
    }

    /// The set of the given keys.
    pub fn from_vec(keys: Vec<K>) -> (r: Self)
        ensures
            forall|n: K::Name| #[trigger]
                r@.contains(n) <==> exists|i: int|
                    0 <= i < keys@.len() && key_name(#[trigger] keys@[i]) == n,
    {
        let mut r: OrdSet<K> = OrdSet::new();
        let mut i: usize = 0;
        while i < keys.len()
            invariant
                i <= keys.len(),
                forall|n: K::Name| #[trigger]
                    r@.contains(n) <==> exists|k: int|
                        0 <= k < i && key_name(#[trigger] keys@[k]) == n,
            decreases keys.len() - i,
        {
            let ghost was = r@;
            let _ = r.insert(keys[i].duplicate());
            proof {
                assert forall|n: K::Name| #[trigger]
                    r@.contains(n) <==> exists|k: int|
                        0 <= k < i + 1 && key_name(#[trigger] keys@[k]) == n by {
                    if was.contains(n) {
                        let k = choose|k: int| 0 <= k < i && key_name(#[trigger] keys@[k]) == n;
                        assert(key_name(keys@[k]) == n);
                    } else if n == key_name(keys@[i as int]) {
                        assert(key_name(keys@[i as int]) == n);
                    }
                }
            }
            i += 1;
        }
        r
    }

    /// The number of keys.
    pub fn len(&self) -> (r: usize)
        ensures
            r == self@.len(),
            r == self.names().len(),
            r == self.key_models().len(),
            enumerates(self.names(), self@, K::order()),
            forall|i: int|
                0 <= i < r ==> #[trigger] self.names()[i] == K::name(self.key_models()[i]),
    {
        let r = self.map.len();
        proof {
            assert forall|n: K::Name| #[trigger] self@.contains(n) <==> self.names().contains(
                n,
            ) by {
                assert(self.map@.contains_key(n) <==> self.names().contains(n));
            }
        }
        r
    }

    /// Whether there is no key.
    pub fn is_empty(&self) -> (r: bool)
        ensures
            r == (self@ == Set::<K::Name>::empty()),
            r == (self@.len() == 0),
    {
        let r = self.map.is_empty();
        proof {
            if r {
                assert(self@ =~= Set::<K::Name>::empty());
            } else {
                if self@ == Set::<K::Name>::empty() {
                    assert(self.map@ =~= Map::<K::Name, ()>::empty());
                }
            }
        }
        r
    }

    /// Whether a key is there.
    pub fn contains(&self, key: &K) -> (r: bool)
        ensures
            r == self@.contains(key_name(*key)),
    {
        self.map.contains_key(key)
    }

    /// The key at a position of the order.
    pub fn key_at(&self, i: usize) -> (r: &K)
        requires
            i < self.names().len(),
        ensures
            key_name(*r) == self.names()[i as int],
            r.model() == self.key_models()[i as int],
            self@.contains(key_name(*r)),
    {
        self.map.key_at(i)
    }

    /// Adds a key; says whether it was not there before.
    pub fn insert(&mut self, key: K) -> (r: bool)
        ensures
            final(self)@ == old(self)@.insert(key_name(key)),
            r == !old(self)@.contains(key_name(key)),
    {
        let found = self.map.contains_key(&key);
        let ghost name = key_name(key);
        if !found {
            self.map.insert(key, ());
        }
        assert(self@ =~= old(self)@.insert(name));
        !found
    }

    /// Takes a key out; says whether it was there.
    pub fn remove(&mut self, key: &K) -> (r: bool)
        ensures
            final(self)@ == old(self)@.remove(key_name(*key)),
            r == old(self)@.contains(key_name(*key)),
    {
        let r = self.map.remove(key).is_some();
        assert(self@ =~= old(self)@.remove(key_name(*key)));
        r
    }
}

impl<K: Key> Record for OrdSet<K> {
    type Model = Set<K::Name>;

    open spec fn model(&self) -> Set<K::Name> {
        self@
    }

    fn duplicate(&self) -> (r: Self) {
        OrdSet { map: self.map.duplicate() }
    }
}

impl<K: Key> Clone for OrdSet<K> {
    fn clone(&self) -> (r: Self)
        ensures
            r@ == self@,
    {
        self.duplicate()
    }
}

/// The texts of a set, in order.
pub(crate) fn listed(set: &OrdSet<String>) -> (r: Vec<String>)
    ensures
        enumerates(strings(r@), set@, String::order()),
{
    let n: usize = set.len();
    let mut r: Vec<String> = Vec::new();
    let mut i: usize = 0;
    while i < n
        invariant
            i <= n,
            n == set.names().len(),
            strings(r@) == set.names().take(i as int),
        decreases n - i,
    {
        let ghost was = r@;
        r.push(set.key_at(i).clone());
        assert(strings(r@) =~= strings(was).push(set.names()[i as int]));
        i += 1;
        assert(set.names().take(i as int) == set.names().take(i - 1).push(set.names()[i - 1]));
    }
    assert(set.names().take(n as int) == set.names());
    r
}

/// A listing of a map or a set has every name once, none that is not there, and each
/// before those that are greater.
pub proof fn law_listing_is_complete_and_in_order<N, M>(
    names: Seq<N>,
    m: Map<N, M>,
    s: Set<N>,
    lt: spec_fn(N, N) -> bool,
    n: N,
    i: int,
    j: int,
)
    requires
        0 <= i < j < names.len(),
    ensures
        lists(names, m, lt) ==> lt(names[i], names[j]) && names[i] != names[j] && (m.contains_key(n)
            <==> exists|k: int| 0 <= k < names.len() && #[trigger] names[k] == n),
        enumerates(names, s, lt) ==> lt(names[i], names[j]) && names[i] != names[j] && (s.contains(n)
            <==> exists|k: int| 0 <= k < names.len() && #[trigger] names[k] == n),
{
    if names.contains(n) {
        let k = choose|k: int| 0 <= k < names.len() && names[k] == n;
        assert(names[k] == n);
    }
}

} // verus!
