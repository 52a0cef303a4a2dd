//! The open chats of the service, each found by its identifier.
use vstd::prelude::*;

verus! {

/// The chats that the service holds open, keyed by their identifiers.
///
/// An identifier occurs at most once; registering a chat under an
/// identifier that is already present replaces the chat held there.
pub struct ChatRegistry<C> {
    entries: Vec<(String, C)>,
}

/// The identifiers of a list of entries.
pub open spec fn entry_keys<C>(entries: Seq<(String, C)>) -> Seq<Seq<char>> {
    entries.map_values(|e: (String, C)| e.0@)
}

/// No identifier occurs twice among the entries.
pub open spec fn keys_unique<C>(entries: Seq<(String, C)>) -> bool {
    forall|i: int, j: int|
        0 <= i < entries.len() && 0 <= j < entries.len() && i != j
            ==> #[trigger] entries[i].0@ != #[trigger] entries[j].0@
}

/// The position of an identifier among the entries.
pub open spec fn position_of<C>(entries: Seq<(String, C)>, key: Seq<char>) -> int {
    choose|i: int| 0 <= i < entries.len() && entries[i].0@ == key
}

/// The entries read as a map from identifier to chat.
pub open spec fn entries_map<C>(entries: Seq<(String, C)>) -> Map<Seq<char>, C> {
    Map::new(
        |k: Seq<char>| exists|i: int| 0 <= i < entries.len() && entries[i].0@ == k,
        |k: Seq<char>| entries[position_of(entries, k)].1,
    )
}

proof fn lemma_map_at<C>(entries: Seq<(String, C)>, i: int)
    requires
        keys_unique(entries),
        0 <= i < entries.len(),
    ensures
        entries_map(entries).contains_key(entries[i].0@),
        entries_map(entries)[entries[i].0@] == entries[i].1,
{
    let k = entries[i].0@;
    assert(exists|j: int| 0 <= j < entries.len() && entries[j].0@ == k);
    let p = position_of(entries, k);
    assert(p == i);
}

#[verifier::spinoff_prover]
proof fn lemma_map_push<C>(entries: Seq<(String, C)>, key: String, chat: C)
    requires
        keys_unique(entries),
        !entries_map(entries).contains_key(key@),
    ensures
        keys_unique(entries.push((key, chat))),
        entries_map(entries.push((key, chat))) =~= entries_map(entries).insert(key@, chat),
{
    let s = entries.push((key, chat));
    assert forall|i: int| 0 <= i < entries.len() implies entries[i].0@ != key@ by {
        if entries[i].0@ == key@ {
            assert(entries_map(entries).contains_key(key@));
        }
    }
    assert(keys_unique(s));
    let m = entries_map(s);
    let n = entries_map(entries).insert(key@, chat);
    assert forall|k: Seq<char>| #[trigger] m.contains_key(k) <==> n.contains_key(k) by {
        if m.contains_key(k) {
            let i = choose|i: int| 0 <= i < s.len() && s[i].0@ == k;
            if i < entries.len() {
                assert(entries[i].0@ == k);
                assert(entries_map(entries).contains_key(k));
            }
        }
        if n.contains_key(k) {
            if k == key@ {
                assert(s[entries.len() as int].0@ == k);
            } else {
                let i = choose|i: int| 0 <= i < entries.len() && entries[i].0@ == k;
                assert(s[i].0@ == k);
            }
        }
    }
    assert forall|k: Seq<char>| #[trigger] m.contains_key(k) implies m[k] == n[k] by {
        let i = choose|i: int| 0 <= i < s.len() && s[i].0@ == k;
        lemma_map_at(s, i);
        if i < entries.len() {
            assert(s[i] == entries[i]);
            lemma_map_at(entries, i);
        }
    }
}

#[verifier::spinoff_prover]
proof fn lemma_map_replace<C>(entries: Seq<(String, C)>, i: int, key: String, chat: C)
    requires
        keys_unique(entries),
        0 <= i < entries.len(),
        entries[i].0@ == key@,
    ensures
        keys_unique(entries.update(i, (key, chat))),
        entries_map(entries.update(i, (key, chat))) =~= entries_map(entries).insert(key@, chat),
{
    let s = entries.update(i, (key, chat));
    assert(keys_unique(s));
    let m = entries_map(s);
    let n = entries_map(entries).insert(key@, chat);
    lemma_map_at(entries, i);
    assert forall|k: Seq<char>| #[trigger] m.contains_key(k) <==> n.contains_key(k) by {
        if m.contains_key(k) {
            let j = choose|j: int| 0 <= j < s.len() && s[j].0@ == k;
            if j != i {
                assert(entries[j].0@ == k);
            }
        }
        if n.contains_key(k) {
            if k == key@ {
                assert(s[i].0@ == k);
            } else {
                let j = choose|j: int| 0 <= j < entries.len() && entries[j].0@ == k;
                assert(s[j].0@ == k);
            }
        }
    }
    assert forall|k: Seq<char>| #[trigger] m.contains_key(k) implies m[k] == n[k] by {
        let j = choose|j: int| 0 <= j < s.len() && s[j].0@ == k;
        lemma_map_at(s, j);
        if j != i {
            lemma_map_at(entries, j);
        }
    }
}

impl<C> View for ChatRegistry<C> {
    type V = Map<Seq<char>, C>;

    closed spec fn view(&self) -> Map<Seq<char>, C> {
        entries_map(self.entries@)
    }
}

impl<C> ChatRegistry<C> {
    /// Identifiers are unique.
    pub closed spec fn wf(&self) -> bool {
        keys_unique(self.entries@)
    }

    /// An empty registry.
    pub fn new() -> (res: Self)
        ensures
            res.wf(),
            res@ == Map::<Seq<char>, C>::empty(),
    {
        let res = ChatRegistry { entries: Vec::new() };
        assert(res@ =~= Map::<Seq<char>, C>::empty());
        res
    }

    /// The number of chats held.
    pub fn len(&self) -> (n: usize)
        requires
            self.wf(),
        ensures
            n == self@.len(),
    {
        proof {
            self.lemma_len();
        }
        self.entries.len()
    }

#[verifier::spinoff_prover]
    proof fn lemma_len(&self)
        requires
            self.wf(),
        ensures
            self@.dom().finite(),
            self@.len() == self.entries@.len(),
    {
        let s = self.entries@;
        let keys = entry_keys(s);
        assert(keys.no_duplicates()) by {
            assert forall|i: int, j: int| 0 <= i < keys.len() && 0 <= j < keys.len() && i != j
                implies keys[i] != keys[j] by {
                assert(keys[i] == s[i].0@);
                assert(keys[j] == s[j].0@);
            }
        }
        assert(self@.dom() =~= keys.to_set()) by {
            assert forall|k: Seq<char>| self@.dom().contains(k) <==> keys.to_set().contains(k) by {
                if self@.dom().contains(k) {
                    let i = choose|i: int| 0 <= i < s.len() && s[i].0@ == k;
                    assert(keys[i] == k);
                }
                if keys.to_set().contains(k) {
                    let i = choose|i: int| 0 <= i < keys.len() && keys[i] == k;
                    assert(s[i].0@ == k);
                }
            }
        }
        keys.unique_seq_to_set();
    }

    /// Where the chat with this identifier stands, if it is held.
    fn find(&self, uid: &String) -> (res: Option<usize>)
        requires
            self.wf(),
        ensures
            res is None <==> !self@.contains_key(uid@),
            res matches Some(i) ==> i < self.entries@.len() && self.entries@[i as int].0@ == uid@,
    {
        let mut i: usize = 0;
        while i < self.entries.len()
            invariant
                i <= self.entries@.len(),
                forall|j: int| 0 <= j < i ==> self.entries@[j].0@ != uid@,
            decreases self.entries@.len() - i,
        {
            if self.entries[i].0 == *uid {
                return Some(i);
            }
            i = i + 1;
        }
        None
    }

    /// Whether a chat is held under this identifier.
    pub fn contains(&self, uid: &str) -> (res: bool)
        requires
            self.wf(),
        ensures
            res == self@.contains_key(uid@),
    {
        let key = String::from_str(uid);
        self.find(&key).is_some()
    }

    /// Holds `chat` under `uid`, in place of any chat held there before,
    /// which is handed back.
    pub fn insert(&mut self, uid: String, chat: C) -> (prev: Option<C>)
        requires
            old(self).wf(),
        ensures
            final(self).wf(),
            final(self)@ == old(self)@.insert(uid@, chat),
            prev is Some <==> old(self)@.contains_key(uid@),
            prev matches Some(c) ==> c == old(self)@[uid@],
    {
        match self.find(&uid) {
            Some(i) => {
                proof {
                    lemma_map_at(self.entries@, i as int);
                    lemma_map_replace(self.entries@, i as int, uid, chat);
                }
                let mut entry = (uid, chat);
                std::mem::swap(&mut self.entries[i], &mut entry);
                Some(entry.1)
            },
            None => {
                proof {
                    lemma_map_push(self.entries@, uid, chat);
                }
                self.entries.push((uid, chat));
                None
            },
        }
    }

    /// The chat held under `uid`, to work with in place.
    pub fn get_mut(&mut self, uid: &str) -> (res: Option<&mut C>)
        requires
            old(self).wf(),
        ensures
            res is Some <==> old(self)@.contains_key(uid@),
            res matches Some(c) ==> {
                &&& *c == old(self)@[uid@]
                &&& final(self).wf()
                &&& final(self)@ == old(self)@.insert(uid@, *final(c))
            },
            res is None ==> *final(self) == *old(self),
    {
        let key = String::from_str(uid);
        match self.find(&key) {
            Some(i) => {
                proof {
                    let s = self.entries@;
                    lemma_map_at(s, i as int);
                    assert forall|c: C|
                        keys_unique(#[trigger] s.update(i as int, (s[i as int].0, c)))
                            && entries_map(s.update(i as int, (s[i as int].0, c)))
                            == entries_map(s).insert(uid@, c) by {
                        lemma_map_replace(s, i as int, s[i as int].0, c);
                    }
                }
                Some(&mut self.entries[i].1)
            },
            None => None,
        }
    }
}


/// The map that inserting the pairs one after the other into an empty map
/// gives.
pub open spec fn map_of_pairs<C>(pairs: Seq<(Seq<char>, C)>) -> Map<Seq<char>, C>
    decreases pairs.len(),
{
    if pairs.len() == 0 {
        Map::empty()
    } else {
        map_of_pairs(pairs.drop_last()).insert(pairs.last().0, pairs.last().1)
    }
}

/// The pairs of a list of entries, as plain keys.
pub open spec fn pairs_of<C>(entries: Seq<(String, C)>) -> Seq<(Seq<char>, C)> {
    entries.map_values(|e: (String, C)| (e.0@, e.1))
}

#[verifier::spinoff_prover]
proof fn lemma_map_of_pairs_dom<C>(pairs: Seq<(Seq<char>, C)>, k: Seq<char>)
    ensures
        map_of_pairs(pairs).contains_key(k) <==> exists|i: int| 0 <= i < pairs.len() && pairs[i].0 == k,
    decreases pairs.len(),
{
    if pairs.len() > 0 {
        let init = pairs.drop_last();
        let n = pairs.len() - 1;
        lemma_map_of_pairs_dom(init, k);
        assert(map_of_pairs(pairs) == map_of_pairs(init).insert(pairs[n].0, pairs[n].1));
        if map_of_pairs(pairs).contains_key(k) {
            if k == pairs[n].0 {
                assert(0 <= n < pairs.len() && pairs[n].0 == k);
            } else {
                let i = choose|i: int| 0 <= i < init.len() && init[i].0 == k;
                assert(init[i] == pairs[i]);
                assert(0 <= i < pairs.len() && pairs[i].0 == k);
            }
        }
        if exists|i: int| 0 <= i < pairs.len() && pairs[i].0 == k {
            let i = choose|i: int| 0 <= i < pairs.len() && pairs[i].0 == k;
            if i < n {
                assert(init[i] == pairs[i]);
                assert(0 <= i < init.len() && init[i].0 == k);
            }
        }
    }
}

proof fn lemma_map_of_pairs_value<C>(pairs: Seq<(Seq<char>, C)>, i: int)
    requires
        0 <= i < pairs.len(),
        forall|j: int| i < j < pairs.len() ==> pairs[j].0 != pairs[i].0,
    ensures
        map_of_pairs(pairs)[pairs[i].0] == pairs[i].1,
    decreases pairs.len(),
{
    let init = pairs.drop_last();
    let n = pairs.len() - 1;
    assert(map_of_pairs(pairs) == map_of_pairs(init).insert(pairs[n].0, pairs[n].1));
    if i < n {
        assert(pairs[n].0 != pairs[i].0);
        assert(init[i] == pairs[i]);
        assert forall|j: int| i < j < init.len() implies init[j].0 != init[i].0 by {
            assert(init[j] == pairs[j]);
        }
        lemma_map_of_pairs_value(init, i);
    }
}

/// Inserting pairs one after the other holds exactly their keys, each with
/// the value of the last pair that has it.
pub proof fn lemma_map_of_pairs<C>(pairs: Seq<(Seq<char>, C)>)
    ensures
        forall|k: Seq<char>| #[trigger] map_of_pairs(pairs).contains_key(k)
            <==> exists|i: int| 0 <= i < pairs.len() && pairs[i].0 == k,
        forall|i: int| 0 <= i < pairs.len()
            && (forall|j: int| i < j < pairs.len() ==> pairs[j].0 != pairs[i].0)
            ==> map_of_pairs(pairs)[#[trigger] pairs[i].0] == pairs[i].1,
{
    assert forall|k: Seq<char>| #[trigger] map_of_pairs(pairs).contains_key(k)
        <==> exists|i: int| 0 <= i < pairs.len() && pairs[i].0 == k by {
        lemma_map_of_pairs_dom(pairs, k);
    }
    assert forall|i: int| 0 <= i < pairs.len()
        && (forall|j: int| i < j < pairs.len() ==> pairs[j].0 != pairs[i].0)
        implies map_of_pairs(pairs)[#[trigger] pairs[i].0] == pairs[i].1 by {
        lemma_map_of_pairs_value(pairs, i);
    }
}

impl<C> ChatRegistry<C> {
    /// A registry holding the given chats, inserted in order.
    pub fn from_entries(entries: Vec<(String, C)>) -> (res: Self)
        ensures
            res.wf(),
            res@ == map_of_pairs(pairs_of(entries@)),
    {
        let ghost pairs = pairs_of(entries@);
        let mut res = ChatRegistry::new();
        let mut rest = entries;
        let mut taken: Vec<(String, C)> = Vec::new();
        // Entries are taken from the back, so they are inserted from a
        // reversed list.
        while rest.len() > 0
            invariant
                pairs == pairs_of(rest@) + pairs_of(taken@.reverse()),
                taken@.len() + rest@.len() == pairs.len(),
            decreases rest.len(),
        {
            let e = rest.pop().unwrap();
            proof {
                let r = rest@;
                assert(pairs_of(r.push(e)) =~= pairs_of(r).push((e.0@, e.1)));
                assert(taken@.push(e).reverse() =~= seq![e] + taken@.reverse());
                assert(pairs_of(seq![e] + taken@.reverse()) =~= seq![(e.0@, e.1)] + pairs_of(taken@.reverse()));
                assert(pairs_of(r).push((e.0@, e.1)) + pairs_of(taken@.reverse())
                    =~= pairs_of(r) + (seq![(e.0@, e.1)] + pairs_of(taken@.reverse())));
            }
            taken.push(e);
        }
        assert(pairs_of(rest@) =~= Seq::<(Seq<char>, C)>::empty());
        assert(pairs =~= pairs_of(taken@.reverse()));
        let ghost n = taken@.len();
        while taken.len() > 0
            invariant
                res.wf(),
                taken@.len() <= n,
                pairs.len() == n,
                forall|j: int| 0 <= j < taken@.len() ==> pairs[n - 1 - j] == (taken@[j].0@, taken@[j].1),
                res@ == map_of_pairs(pairs.take(n - taken@.len())),
            decreases taken.len(),
        {
            let e = taken.pop().unwrap();
            proof {
                let k = n - taken@.len() - 1;
                assert(pairs[k] == (e.0@, e.1));
                assert(pairs.take(k + 1).drop_last() =~= pairs.take(k));
                assert(pairs.take(k + 1).last() == pairs[k]);
            }
            res.insert(e.0, e.1);
        }
        assert(pairs.take(n as int) =~= pairs);
        res
    }
}

} // verus!
