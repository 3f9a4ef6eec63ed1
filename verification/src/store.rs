//! The authoritative key-value state: an ordered collection of
//! (user, key) → value entries, partitioned per user, together with the
//! set of user identifiers known to the system. All mutation goes through
//! the methods here; their contracts speak of the state's map model.

use vstd::prelude::*;

use crate::order::{lex_le, pair_lt, pair_compare, str_compare, KeyOrder};
use crate::order::{lemma_pair_trichotomy, lemma_pair_lt_trans};

verus! {

/// A (user, key) pair at the specification level.
pub type PairModel = (Seq<char>, Seq<char>);

/// One stored record: a key in one user's namespace, and its value.
pub struct Entry {
    pub user: String,
    pub key: String,
    pub value: u64,
}

impl Entry {
    /// The (user, key) pair this entry is keyed on.
    pub open spec fn pair(self) -> PairModel {
        (self.user@, self.key@)
    }

    /// The entry as pure data: its pair and its value.
    pub open spec fn model(self) -> (PairModel, u64) {
        (self.pair(), self.value)
    }
}

/// The mathematical model of the store: the key-value mapping and the set
/// of known users.
pub struct StoreModel {
    pub kv: Map<PairModel, u64>,
    pub users: Set<Seq<char>>,
}

/// The authoritative entity. `kv` is kept strictly sorted by (user, key)
/// in lexicographic order, so one user's namespace is a contiguous run;
/// `users` holds each known user identifier once.
pub struct StoreState {
    pub kv: Vec<Entry>,
    pub users: Vec<String>,
}

impl StoreState {
    /// The entries as pure data, in storage (ascending) order.
    pub open spec fn entry_models(self) -> Seq<(PairModel, u64)> {
        self.kv@.map_values(|e: Entry| e.model())
    }

    /// The views of the user identifiers, in order.
    pub open spec fn users_view(self) -> Seq<Seq<char>> {
        self.users@.map_values(|u: String| u@)
    }

    /// The set of known user identifiers.
    pub open spec fn users_set(self) -> Set<Seq<char>> {
        self.users_view().to_set()
    }

    /// Some entry carries this (user, key) pair.
    pub open spec fn contains_pair(self, p: PairModel) -> bool {
        exists|i: int| 0 <= i < self.kv@.len() && self.kv@[i].pair() == p
    }

    /// The index of the entry carrying `p` (meaningful when such an entry
    /// exists and the entries are sorted, which makes it unique).
    pub open spec fn index_of(self, p: PairModel) -> int {
        choose|i: int| 0 <= i < self.kv@.len() && self.kv@[i].pair() == p
    }

    /// The key-value mapping the entries represent.
    pub open spec fn kv_map(self) -> Map<PairModel, u64> {
        Map::new(
            |p: PairModel| self.contains_pair(p),
            |p: PairModel| self.kv@[self.index_of(p)].value,
        )
    }

    /// The whole state as pure data.
    pub open spec fn model(self) -> StoreModel {
        StoreModel { kv: self.kv_map(), users: self.users_set() }
    }

    /// The entries are strictly sorted by (user, key).
    pub open spec fn kv_sorted(self) -> bool {
        forall|i: int, j: int|
            0 <= i < j < self.kv@.len() ==> pair_lt(
                #[trigger] self.kv@[i].pair(),
                #[trigger] self.kv@[j].pair(),
            )
    }

    /// No user identifier is listed twice.
    pub open spec fn users_unique(self) -> bool {
        forall|i: int, j: int|
            0 <= i < j < self.users@.len() ==> (#[trigger] self.users@[i]@) != (
            #[trigger] self.users@[j]@)
    }

    /// Well-formedness: sorted unique entries, unique users, and every
    /// entry's owning user is known.
    pub open spec fn wf(self) -> bool {
        &&& self.kv_sorted()
        &&& self.users_unique()
        &&& forall|i: int|
            0 <= i < self.kv@.len() ==> self.users_set().contains(#[trigger] self.kv@[i].user@)
    }

    /// An empty store: no entries, no users.
    pub fn new() -> (s: StoreState)
        ensures
            s.wf(),
            s.kv_map() == Map::<PairModel, u64>::empty(),
            s.users_set() == Set::<Seq<char>>::empty(),
            s.kv@.len() == 0,
            s.users@.len() == 0,
    {
        let s = StoreState { kv: Vec::new(), users: Vec::new() };
        proof {
            assert(s.kv_map() =~= Map::<PairModel, u64>::empty());
            assert(s.users@.map_values(|u: String| u@) =~= Seq::<Seq<char>>::empty());
            assert(s.users_set() =~= Set::<Seq<char>>::empty());
        }
        s
    }

    /// Whether this user identifier is known.
    pub fn user_known(&self, id: &str) -> (b: bool)
        ensures
            b == self.users_set().contains(id@),
    {
        let ghost mapped = self.users@.map_values(|u: String| u@);
        let mut i: usize = 0;
        while i < self.users.len()
            invariant
                i <= self.users@.len(),
                mapped == self.users@.map_values(|u: String| u@),
                forall|j: int| 0 <= j < i ==> self.users@[j]@ != id@,
            decreases self.users@.len() - i,
        {
            if matches!(str_compare(self.users[i].as_str(), id), KeyOrder::Equal) {
                assert(mapped[i as int] == id@);
                return true;
            }
            i = i + 1;
        }
        proof {
            assert(forall|j: int| 0 <= j < mapped.len() ==> mapped[j] != id@);
            assert(!mapped.contains(id@));
        }
        false
    }

    /// The first position whose entry is not below (user, key); everything
    /// before it is strictly below.
    fn find_pos(&self, user: &str, key: &str) -> (pos: usize)
        requires
            self.kv_sorted(),
        ensures
            pos <= self.kv@.len(),
            forall|j: int| 0 <= j < pos ==> pair_lt(#[trigger] self.kv@[j].pair(), (user@, key@)),
            pos < self.kv@.len() ==> !pair_lt(self.kv@[pos as int].pair(), (user@, key@)),
    {
        let mut i: usize = 0;
        while i < self.kv.len()
            invariant
                i <= self.kv@.len(),
                forall|j: int| 0 <= j < i ==> pair_lt(#[trigger] self.kv@[j].pair(), (user@, key@)),
            decreases self.kv@.len() - i,
        {
            let e = &self.kv[i];
            if !matches!(
                pair_compare(e.user.as_str(), e.key.as_str(), user, key),
                KeyOrder::Less
            ) {
                return i;
            }
            i = i + 1;
        }
        i
    }
}

/// In a sorted store, the entry at index `i` is the unique witness for its
/// pair, and the map model reads back exactly that entry.
pub proof fn lemma_kv_map_index(s: StoreState, i: int)
    requires
        s.kv_sorted(),
        0 <= i < s.kv@.len(),
    ensures
        s.contains_pair(s.kv@[i].pair()),
        s.index_of(s.kv@[i].pair()) == i,
        s.kv_map().dom().contains(s.kv@[i].pair()),
        s.kv_map()[s.kv@[i].pair()] == s.kv@[i].value,
{
    let p = s.kv@[i].pair();
    assert(s.contains_pair(p));
    let j = s.index_of(p);
    if j != i {
        if i < j {
            assert(pair_lt(s.kv@[i].pair(), s.kv@[j].pair()));
        } else {
            assert(pair_lt(s.kv@[j].pair(), s.kv@[i].pair()));
        }
        lemma_pair_trichotomy(p, p);
    }
}

impl StoreState {
    /// Looks up the value stored under (user, key); absence is not an
    /// error, it is an empty result.
    pub fn fetch_values(&self, user: &str, key: &str) -> (r: Option<u64>)
        requires
            self.kv_sorted(),
        ensures
            r == (if self.kv_map().dom().contains((user@, key@)) {
                Some(self.kv_map()[(user@, key@)])
            } else {
                None::<u64>
            }),
    {
        let ghost p: PairModel = (user@, key@);
        let mut i: usize = 0;
        while i < self.kv.len()
            invariant
                self.kv_sorted(),
                i <= self.kv@.len(),
                p == (user@, key@),
                forall|j: int| 0 <= j < i ==> (#[trigger] self.kv@[j].pair()) != p,
            decreases self.kv@.len() - i,
        {
            let e = &self.kv[i];
            let c = pair_compare(e.user.as_str(), e.key.as_str(), user, key);
            if matches!(c, KeyOrder::Equal) {
                proof {
                    lemma_kv_map_index(*self, i as int);
                }
                return Some(e.value);
            }
            proof {
                assert(self.kv@[i as int].pair() != p);
            }
            i = i + 1;
        }
        proof {
            assert(!self.contains_pair(p));
        }
        None
    }

    // Registers a user identifier if it is not yet known.
    pub(crate) fn ensure_user(&mut self, user: &str)
        requires
            old(self).users_unique(),
        ensures
            final(self).kv@ == old(self).kv@,
            final(self).users_unique(),
            final(self).users_set() == old(self).users_set().insert(user@),
            old(self).users_set().contains(user@) ==> final(self).users@ == old(self).users@,
    {
        if !self.user_known(user) {
            let owned = user.to_owned();
            self.users.push(owned);
            proof {
                let mapped_old = old(self).users@.map_values(|u: String| u@);
                let mapped_new = self.users@.map_values(|u: String| u@);
                assert(mapped_new =~= mapped_old.push(user@));
                assert forall|x: Seq<char>| mapped_new.contains(x) implies mapped_old.contains(
                    x,
                ) || x == user@ by {
                    let i = choose|i: int| 0 <= i < mapped_new.len() && mapped_new[i] == x;
                    if i < mapped_old.len() {
                        assert(mapped_old[i] == x);
                    }
                }
                assert forall|x: Seq<char>| mapped_old.contains(x) implies mapped_new.contains(
                    x,
                ) by {
                    let i = choose|i: int| 0 <= i < mapped_old.len() && mapped_old[i] == x;
                    assert(mapped_new[i] == x);
                }
                assert(mapped_new.contains(user@)) by {
                    assert(mapped_new[mapped_new.len() - 1] == user@);
                }
                assert(self.users_set() =~= old(self).users_set().insert(user@));
                assert forall|i: int| 0 <= i < mapped_old.len() implies mapped_old[i]
                    != user@ by {
                    if mapped_old[i] == user@ {
                        assert(mapped_old.contains(user@));
                    }
                }
                assert forall|i: int, j: int|
                    0 <= i < j < self.users@.len() implies (#[trigger] self.users@[i]@) != (
                #[trigger] self.users@[j]@) by {
                    if j < old(self).users@.len() {
                        assert(old(self).users@[i]@ != old(self).users@[j]@);
                    } else {
                        assert(self.users@[j]@ == user@);
                        assert(mapped_old[i] == old(self).users@[i]@);
                    }
                }
            }
        } else {
            proof {
                assert(self.users_set() =~= old(self).users_set().insert(user@));
            }
        }
    }

    /// Stores `value` under (user, key): an unconditional upsert. The
    /// owning user becomes known if it was not already.
    pub fn store_values(&mut self, user: String, key: String, value: u64) -> (r: Result<
        (),
        String,
    >)
        requires
            old(self).wf(),
        ensures
            final(self).wf(),
            r is Ok,
            final(self).kv_map() == old(self).kv_map().insert((user@, key@), value),
            final(self).users_set() == old(self).users_set().insert(user@),
    {
        let ghost p: PairModel = (user@, key@);
        self.ensure_user(user.as_str());
        let pos = self.find_pos(user.as_str(), key.as_str());
        let ghost mid = *self;
        if pos < self.kv.len() {
            let e = &self.kv[pos];
            if matches!(
                pair_compare(e.user.as_str(), e.key.as_str(), user.as_str(), key.as_str()),
                KeyOrder::Equal
            ) {
                self.kv.remove(pos);
            }
        }
        let ghost shrunk = *self;
        self.kv.insert(pos, Entry { user, key, value });
        proof {
            assert(self.kv@[pos as int].pair() == p);
            lemma_upsert_shape(mid, shrunk, *self, pos as int, self.kv@[pos as int]);
            assert(final(self).kv_map() =~= old(self).kv_map().insert(p, value));
            assert forall|i: int| 0 <= i < self.kv@.len() implies self.users_set().contains(
                #[trigger] self.kv@[i].user@,
            ) by {
                let q = self.kv@[i].pair();
                if q == p {
                    assert(self.kv@[i].user@ == p.0);
                } else {
                    assert(old(self).contains_pair(q));
                    let j = choose|j: int|
                        0 <= j < old(self).kv@.len() && old(self).kv@[j].pair() == q;
                    assert(old(self).users_set().contains(old(self).kv@[j].user@));
                }
            }
        }
        Ok(())
    }

    /// Updates (user, key) to `value`; like storing, this is an upsert and
    /// requires no prior entry.
    pub fn update_val(&mut self, user: String, key: String, value: u64) -> (r: Result<(), String>)
        requires
            old(self).wf(),
        ensures
            final(self).wf(),
            r is Ok,
            final(self).kv_map() == old(self).kv_map().insert((user@, key@), value),
            final(self).users_set() == old(self).users_set().insert(user@),
    {
        self.store_values(user, key, value)
    }

    /// Removes the entry under (user, key) and returns its value; absence
    /// is not an error.
    pub fn delete_val(&mut self, user: &str, key: &str) -> (r: Option<u64>)
        requires
            old(self).wf(),
        ensures
            final(self).wf(),
            final(self).kv_map() == old(self).kv_map().remove((user@, key@)),
            final(self).users_set() == old(self).users_set(),
            final(self).users@ == old(self).users@,
            r == (if old(self).kv_map().dom().contains((user@, key@)) {
                Some(old(self).kv_map()[(user@, key@)])
            } else {
                None::<u64>
            }),
    {
        let ghost p: PairModel = (user@, key@);
        let r = self.fetch_values(user, key);
        let pos = self.find_pos(user, key);
        if pos < self.kv.len() {
            let e = &self.kv[pos];
            if matches!(
                pair_compare(e.user.as_str(), e.key.as_str(), user, key),
                KeyOrder::Equal
            ) {
                proof {
                    lemma_kv_map_index(*self, pos as int);
                }
                self.kv.remove(pos);
                proof {
                    lemma_remove_shape(*old(self), *self, pos as int, p);
                    assert(final(self).kv_map() =~= old(self).kv_map().remove(p));
                    assert(self.users_set() == old(self).users_set());
                    assert forall|i: int| 0 <= i < self.kv@.len() implies self.users_set()
                        .contains(#[trigger] self.kv@[i].user@) by {
                        if i < pos {
                            assert(self.kv@[i] == old(self).kv@[i]);
                            assert(old(self).users_set().contains(old(self).kv@[i].user@));
                        } else {
                            assert(self.kv@[i] == old(self).kv@[i + 1]);
                            assert(old(self).users_set().contains(old(self).kv@[i + 1].user@));
                        }
                    }
                }
                return r;
            }
        }
        proof {
            assert forall|i: int|
                0 <= i < self.kv@.len() implies (#[trigger] self.kv@[i].pair()) != p by {
                lemma_find_pos_miss(*self, pos as int, p, i);
            }
            assert(!self.contains_pair(p));
            assert(final(self).kv_map() =~= old(self).kv_map().remove(p));
        }
        r
    }
}

impl StoreState {
    /// Session bootstrap: a known identifier is echoed back unchanged; any
    /// other request is answered with the freshly minted identifier, which
    /// becomes known. Never fails.
    pub fn hi(&mut self, user_id: Option<String>, fresh: String) -> (r: String)
        requires
            old(self).wf(),
        ensures
            final(self).wf(),
            final(self).kv@ == old(self).kv@,
            final(self).kv_map() == old(self).kv_map(),
            (match user_id {
                Some(id) if old(self).users_set().contains(id@) => {
                    &&& r@ == id@
                    &&& final(self).users_set() == old(self).users_set()
                },
                _ => {
                    &&& r@ == fresh@
                    &&& final(self).users_set() == old(self).users_set().insert(fresh@)
                },
            }),
    {
        match user_id {
            Some(id) => {
                if self.user_known(id.as_str()) {
                    return id;
                }
            },
            None => {},
        }
        self.ensure_user(fresh.as_str());
        fresh
    }

    /// The entries of one user's namespace, in ascending key order.
    pub open spec fn user_entries(self, user: Seq<char>) -> Seq<(PairModel, u64)> {
        self.entry_models().filter(user_pred(user))
    }

    /// The entries of one user's namespace whose key lies in the inclusive
    /// range [start, end], in ascending key order.
    pub open spec fn range_entries(
        self,
        user: Seq<char>,
        start: Seq<char>,
        end: Seq<char>,
    ) -> Seq<(PairModel, u64)> {
        self.entry_models().filter(range_pred(user, start, end))
    }

    /// All entries belonging to `user`, in ascending key order. Entries of
    /// other users never appear.
    pub fn list_all(&self, user: &str) -> (r: Vec<((String, String), u64)>)
        ensures
            r@.map_values(|t: ((String, String), u64)| ((t.0.0@, t.0.1@), t.1)) == self
                .user_entries(user@),
    {
        let mut r: Vec<((String, String), u64)> = Vec::new();
        let ghost pred = user_pred(user@);
        let mut i: usize = 0;
        while i < self.kv.len()
            invariant
                i <= self.kv@.len(),
                pred == user_pred(user@),
                r@.map_values(|t: ((String, String), u64)| ((t.0.0@, t.0.1@), t.1)) == self
                    .entry_models().take(i as int).filter(pred),
            decreases self.kv@.len() - i,
        {
            let ghost pre = r@.map_values(|t: ((String, String), u64)| ((t.0.0@, t.0.1@), t.1));
            let e = &self.kv[i];
            if matches!(str_compare(e.user.as_str(), user), KeyOrder::Equal) {
                r.push(((e.user.clone(), e.key.clone()), e.value));
            }
            proof {
                lemma_filter_step(self.entry_models(), pred, i as int);
                assert(r@.map_values(|t: ((String, String), u64)| ((t.0.0@, t.0.1@), t.1)) =~= (
                if pred(self.entry_models()[i as int]) {
                    pre.push(self.entry_models()[i as int])
                } else {
                    pre
                }));
            }
            i = i + 1;
        }
        proof {
            assert(self.entry_models().take(self.kv@.len() as int) =~= self.entry_models());
        }
        r
    }

    /// The entries of `user` whose key lies in [start, end] (inclusive,
    /// lexicographic), in ascending key order.
    pub fn range(&self, user: &str, start: &str, end: &str) -> (r: Vec<((String, String), u64)>)
        ensures
            r@.map_values(|t: ((String, String), u64)| ((t.0.0@, t.0.1@), t.1)) == self
                .range_entries(user@, start@, end@),
    {
        let mut r: Vec<((String, String), u64)> = Vec::new();
        let ghost pred = range_pred(user@, start@, end@);
        let mut i: usize = 0;
        while i < self.kv.len()
            invariant
                i <= self.kv@.len(),
                pred == range_pred(user@, start@, end@),
                r@.map_values(|t: ((String, String), u64)| ((t.0.0@, t.0.1@), t.1)) == self
                    .entry_models().take(i as int).filter(pred),
            decreases self.kv@.len() - i,
        {
            let ghost pre = r@.map_values(|t: ((String, String), u64)| ((t.0.0@, t.0.1@), t.1));
            let e = &self.kv[i];
            let same_user = matches!(str_compare(e.user.as_str(), user), KeyOrder::Equal);
            let above_start = !matches!(str_compare(e.key.as_str(), start), KeyOrder::Less);
            let below_end = !matches!(str_compare(end, e.key.as_str()), KeyOrder::Less);
            if same_user && above_start && below_end {
                r.push(((e.user.clone(), e.key.clone()), e.value));
            }
            proof {
                lemma_filter_step(self.entry_models(), pred, i as int);
                assert(r@.map_values(|t: ((String, String), u64)| ((t.0.0@, t.0.1@), t.1)) =~= (
                if pred(self.entry_models()[i as int]) {
                    pre.push(self.entry_models()[i as int])
                } else {
                    pre
                }));
            }
            i = i + 1;
        }
        proof {
            assert(self.entry_models().take(self.kv@.len() as int) =~= self.entry_models());
        }
        r
    }
}

/// The membership test for one user's namespace.
pub open spec fn user_pred(user: Seq<char>) -> spec_fn((PairModel, u64)) -> bool {
    |m: (PairModel, u64)| m.0.0 == user
}

/// The membership test for one user's keys in the inclusive range
/// [start, end].
pub open spec fn range_pred(user: Seq<char>, start: Seq<char>, end: Seq<char>) -> spec_fn(
    (PairModel, u64),
) -> bool {
    |m: (PairModel, u64)| m.0.0 == user && lex_le(start, m.0.1) && lex_le(m.0.1, end)
}

/// Namespace isolation: a listing or a range scan for user `a` returns
/// only entries of `a`'s namespace, so for any other user `b` none of
/// `b`'s entries ever appear in it.
pub proof fn lemma_namespace_isolation(s: StoreState, a: Seq<char>, b: Seq<char>)
    requires
        a != b,
    ensures
        forall|i: int|
            0 <= i < s.user_entries(a).len() ==> (#[trigger] s.user_entries(a)[i]).0.0 == a
                && s.user_entries(a)[i].0.0 != b,
        forall|start: Seq<char>, end: Seq<char>, i: int|
            0 <= i < s.range_entries(a, start, end).len() ==> (#[trigger] s.range_entries(
                a,
                start,
                end,
            )[i]).0.0 == a && s.range_entries(a, start, end)[i].0.0 != b,
{
    assert forall|i: int|
        0 <= i < s.user_entries(a).len() implies (#[trigger] s.user_entries(a)[i]).0.0 == a
        && s.user_entries(a)[i].0.0 != b by {
        s.entry_models().lemma_filter_pred(user_pred(a), i);
    }
    assert forall|start: Seq<char>, end: Seq<char>, i: int|
        0 <= i < s.range_entries(a, start, end).len() implies (#[trigger] s.range_entries(
        a,
        start,
        end,
    )[i]).0.0 == a && s.range_entries(a, start, end)[i].0.0 != b by {
        s.entry_models().lemma_filter_pred(range_pred(a, start, end), i);
    }
}

// Extending the scanned prefix by one element extends its filtered image
// by that element exactly when the predicate accepts it.
proof fn lemma_filter_step<A>(s: Seq<A>, pred: spec_fn(A) -> bool, i: int)
    requires
        0 <= i < s.len(),
    ensures
        s.take(i + 1).filter(pred) == (if pred(s[i]) {
            s.take(i).filter(pred).push(s[i])
        } else {
            s.take(i).filter(pred)
        }),
{
    reveal(Seq::filter);
    assert(s.take(i + 1).drop_last() =~= s.take(i));
    assert(s.take(i + 1).last() == s[i]);
    if pred(s[i]) {
        assert(s.take(i + 1).filter(pred) =~= s.take(i).filter(pred).push(s[i]));
    }
}

// After removing the (unique) entry for `p` at `pos`, the map model is the
// old model without `p`, and sortedness is kept.
proof fn lemma_remove_shape(pre: StoreState, post: StoreState, pos: int, p: PairModel)
    requires
        pre.kv_sorted(),
        0 <= pos < pre.kv@.len(),
        pre.kv@[pos].pair() == p,
        post.kv@ == pre.kv@.remove(pos),
    ensures
        post.kv_sorted(),
        post.kv_map() =~= pre.kv_map().remove(p),
{
    assert forall|i: int, j: int|
        0 <= i < j < post.kv@.len() implies pair_lt(
        #[trigger] post.kv@[i].pair(),
        #[trigger] post.kv@[j].pair(),
    ) by {
        let i0 = if i < pos { i } else { i + 1 };
        let j0 = if j < pos { j } else { j + 1 };
        assert(post.kv@[i] == pre.kv@[i0]);
        assert(post.kv@[j] == pre.kv@[j0]);
    }
    assert forall|q: PairModel| #[trigger] post.contains_pair(q) implies pre.contains_pair(q)
        && q != p by {
        let i = choose|i: int| 0 <= i < post.kv@.len() && post.kv@[i].pair() == q;
        let i0 = if i < pos { i } else { i + 1 };
        assert(pre.kv@[i0].pair() == q);
        if q == p {
            lemma_kv_map_index(pre, pos);
            lemma_kv_map_index(pre, i0);
        }
    }
    assert forall|q: PairModel| pre.contains_pair(q) && q != p implies #[trigger] post
        .contains_pair(q) by {
        let i0 = choose|i: int| 0 <= i < pre.kv@.len() && pre.kv@[i].pair() == q;
        if i0 < pos {
            assert(post.kv@[i0].pair() == q);
        } else {
            assert(i0 != pos);
            assert(post.kv@[i0 - 1].pair() == q);
        }
    }
    assert forall|q: PairModel| #[trigger] post.contains_pair(q) implies post.kv_map()[q]
        == pre.kv_map()[q] by {
        let i = choose|i: int| 0 <= i < post.kv@.len() && post.kv@[i].pair() == q;
        let i0 = if i < pos { i } else { i + 1 };
        assert(post.kv@[i] == pre.kv@[i0]);
        lemma_kv_map_index(post, i);
        lemma_kv_map_index(pre, i0);
    }
}

// After the upsert of `p` at `pos` (with any colliding entry removed
// first), the map model is the old model with `p` set, and sortedness is
// kept. `mid` is the state before, `shrunk` after the removal step.
proof fn lemma_upsert_shape(
    mid: StoreState,
    shrunk: StoreState,
    post: StoreState,
    pos: int,
    e: Entry,
)
    requires
        mid.kv_sorted(),
        0 <= pos <= mid.kv@.len(),
        forall|j: int| 0 <= j < pos ==> pair_lt(#[trigger] mid.kv@[j].pair(), e.pair()),
        pos < mid.kv@.len() ==> !pair_lt(mid.kv@[pos].pair(), e.pair()),
        (if pos < mid.kv@.len() && mid.kv@[pos].pair() == e.pair() {
            shrunk.kv@ == mid.kv@.remove(pos)
        } else {
            shrunk.kv@ == mid.kv@
        }),
        post.kv@ == shrunk.kv@.insert(pos, e),
    ensures
        post.kv_sorted(),
        post.kv_map() =~= mid.kv_map().insert(e.pair(), e.value),
{
    let p = e.pair();
    let value = e.value;
    assert(post.kv@[pos] == e);
    // Entries after `pos` in `shrunk` are strictly above `p`.
    assert forall|j: int| pos <= j < shrunk.kv@.len() implies pair_lt(
        p,
        #[trigger] shrunk.kv@[j].pair(),
    ) by {
        if pos < mid.kv@.len() && mid.kv@[pos].pair() == p {
            assert(shrunk.kv@[j] == mid.kv@[j + 1]);
            assert(pair_lt(mid.kv@[pos].pair(), mid.kv@[j + 1].pair()));
        } else {
            let q = mid.kv@[j].pair();
            if j == pos {
                lemma_pair_trichotomy(q, p);
            } else {
                assert(pair_lt(mid.kv@[pos].pair(), q));
                lemma_pair_trichotomy(mid.kv@[pos].pair(), p);
                lemma_pair_lt_trans(p, mid.kv@[pos].pair(), q);
            }
        }
    }
    // `shrunk` is sorted with the same prefix below `p`.
    assert forall|i: int, j: int|
        0 <= i < j < shrunk.kv@.len() implies pair_lt(
        #[trigger] shrunk.kv@[i].pair(),
        #[trigger] shrunk.kv@[j].pair(),
    ) by {
        if pos < mid.kv@.len() && mid.kv@[pos].pair() == p {
            let i0 = if i < pos { i } else { i + 1 };
            let j0 = if j < pos { j } else { j + 1 };
            assert(shrunk.kv@[i] == mid.kv@[i0]);
            assert(shrunk.kv@[j] == mid.kv@[j0]);
        }
    }
    assert forall|i: int, j: int|
        0 <= i < j < post.kv@.len() implies pair_lt(
        #[trigger] post.kv@[i].pair(),
        #[trigger] post.kv@[j].pair(),
    ) by {
        if i == pos {
            assert(post.kv@[j] == shrunk.kv@[j - 1]);
        } else if j == pos {
            assert(post.kv@[i] == shrunk.kv@[i]);
            if pos < mid.kv@.len() && mid.kv@[pos].pair() == p {
                assert(shrunk.kv@[i] == mid.kv@[i]);
            }
        } else {
            let i0 = if i < pos { i } else { i - 1 };
            let j0 = if j < pos { j } else { j - 1 };
            assert(post.kv@[i] == shrunk.kv@[i0]);
            assert(post.kv@[j] == shrunk.kv@[j0]);
            if i0 == j0 {
                assert(i < pos && j > pos);
                assert(pair_lt(post.kv@[i].pair(), p));
                assert(pair_lt(p, post.kv@[j].pair()));
                lemma_pair_lt_trans(post.kv@[i].pair(), p, post.kv@[j].pair());
            }
        }
    }
    // Map model: `post` holds `p` at `pos`, everything else as in `mid`.
    assert forall|q: PairModel| #[trigger] post.contains_pair(q) implies q == p
        || mid.contains_pair(q) by {
        let i = choose|i: int| 0 <= i < post.kv@.len() && post.kv@[i].pair() == q;
        if i != pos {
            let i0 = if i < pos { i } else { i - 1 };
            assert(post.kv@[i] == shrunk.kv@[i0]);
            if pos < mid.kv@.len() && mid.kv@[pos].pair() == p {
                let i1 = if i0 < pos { i0 } else { i0 + 1 };
                assert(shrunk.kv@[i0] == mid.kv@[i1]);
            }
        }
    }
    assert forall|q: PairModel| mid.contains_pair(q) && q != p implies #[trigger] post
        .contains_pair(q) by {
        let i0 = choose|i: int| 0 <= i < mid.kv@.len() && mid.kv@[i].pair() == q;
        if pos < mid.kv@.len() && mid.kv@[pos].pair() == p {
            if i0 < pos {
                assert(post.kv@[i0].pair() == q);
            } else {
                assert(i0 != pos);
                assert(shrunk.kv@[i0 - 1].pair() == q);
                assert(post.kv@[i0].pair() == q);
            }
        } else {
            if i0 < pos {
                assert(post.kv@[i0].pair() == q);
            } else {
                assert(shrunk.kv@[i0].pair() == q);
                assert(post.kv@[i0 + 1].pair() == q);
            }
        }
    }
    assert(post.contains_pair(p)) by {
        assert(post.kv@[pos].pair() == p);
    }
    lemma_kv_map_index(post, pos);
    assert forall|q: PairModel| #[trigger] post.contains_pair(q) && q != p implies post.kv_map()[q]
        == mid.kv_map()[q] by {
        let i = choose|i: int| 0 <= i < post.kv@.len() && post.kv@[i].pair() == q;
        assert(i != pos);
        let i0 = if i < pos { i } else { i - 1 };
        assert(post.kv@[i] == shrunk.kv@[i0]);
        lemma_kv_map_index(post, i);
        if pos < mid.kv@.len() && mid.kv@[pos].pair() == p {
            let i1 = if i0 < pos { i0 } else { i0 + 1 };
            assert(shrunk.kv@[i0] == mid.kv@[i1]);
            lemma_kv_map_index(mid, i1);
        } else {
            lemma_kv_map_index(mid, i0);
        }
    }
}

// When the probe position does not carry `p`, no entry does: below the
// position everything is strictly smaller, above it strictly larger.
proof fn lemma_find_pos_miss(s: StoreState, pos: int, p: PairModel, i: int)
    requires
        s.kv_sorted(),
        0 <= pos <= s.kv@.len(),
        forall|j: int| 0 <= j < pos ==> pair_lt(#[trigger] s.kv@[j].pair(), p),
        pos < s.kv@.len() ==> !pair_lt(s.kv@[pos].pair(), p),
        pos < s.kv@.len() ==> s.kv@[pos].pair() != p,
        0 <= i < s.kv@.len(),
    ensures
        s.kv@[i].pair() != p,
{
    if i < pos {
        lemma_pair_trichotomy(s.kv@[i].pair(), p);
    } else if i == pos {
    } else {
        assert(pair_lt(s.kv@[pos].pair(), s.kv@[i].pair()));
        lemma_pair_trichotomy(s.kv@[pos].pair(), p);
        if s.kv@[pos].pair() == p {
        } else {
            lemma_pair_lt_trans(p, s.kv@[pos].pair(), s.kv@[i].pair());
            lemma_pair_trichotomy(s.kv@[i].pair(), p);
        }
    }
}

} // verus!
