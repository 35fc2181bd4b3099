//! The offers of the move generator, keyed by destination.

use vstd::prelude::*;
use crate::action::{ActionRaw, ActionRawView, SingleAction};
use crate::chessboard::ChessBoard;

verus! {

/// The map that a list of entries stands for: each location leads to the
/// offer that was entered for it last.
pub open spec fn entries_map<B: ChessBoard>(entries: Seq<(B::Loc, ActionRaw<B::Rel>)>) -> Map<
    (int, int),
    ActionRawView,
>
    decreases entries.len(),
{
    if entries.len() == 0 {
        Map::empty()
    } else {
        entries_map::<B>(entries.drop_last()).insert(
            B::point(entries.last().0),
            entries.last().1@,
        )
    }
}

/// Whether no location occurs twice in a list of entries.
pub open spec fn distinct_keys<B: ChessBoard>(entries: Seq<(B::Loc, ActionRaw<B::Rel>)>) -> bool {
    forall|i: int, j: int|
        0 <= i < j < entries.len() ==> B::point(#[trigger] entries[i].0) != B::point(
            #[trigger] entries[j].0,
        )
}

/// A location is a key of the map exactly if it occurs in the list.
pub proof fn lemma_entries_dom<B: ChessBoard>(
    entries: Seq<(B::Loc, ActionRaw<B::Rel>)>,
    p: (int, int),
)
    ensures
        entries_map::<B>(entries).dom().contains(p) <==> exists|i: int|
            0 <= i < entries.len() && B::point(#[trigger] entries[i].0) == p,
    decreases entries.len(),
{
    if entries.len() > 0 {
        let front = entries.drop_last();
        lemma_entries_dom::<B>(front, p);
        if exists|i: int| 0 <= i < front.len() && B::point(#[trigger] front[i].0) == p {
            let i = choose|i: int| 0 <= i < front.len() && B::point(#[trigger] front[i].0) == p;
            assert(entries[i] == front[i]);
        }
        if exists|i: int| 0 <= i < entries.len() && B::point(#[trigger] entries[i].0) == p {
            let i = choose|i: int|
                0 <= i < entries.len() && B::point(#[trigger] entries[i].0) == p;
            if i < front.len() {
                assert(entries[i] == front[i]);
            }
        }
    }
}

/// Where no location occurs twice, every entry is found under its location.
pub proof fn lemma_entries_value<B: ChessBoard>(entries: Seq<(B::Loc, ActionRaw<B::Rel>)>, i: int)
    requires
        distinct_keys::<B>(entries),
        0 <= i < entries.len(),
    ensures
        entries_map::<B>(entries).dom().contains(B::point(entries[i].0)),
        entries_map::<B>(entries)[B::point(entries[i].0)] == entries[i].1@,
    decreases entries.len(),
{
    let front = entries.drop_last();
    if i < entries.len() - 1 {
        assert(front[i] == entries[i]);
        assert forall|a: int, b: int| 0 <= a < b < front.len() implies B::point(
            #[trigger] front[a].0,
        ) != B::point(#[trigger] front[b].0) by {
            assert(front[a] == entries[a]);
            assert(front[b] == entries[b]);
        }
        lemma_entries_value::<B>(front, i);
        assert(B::point(entries[i].0) != B::point(entries[entries.len() - 1].0));
    }
}

/// Where no location occurs twice, a changed offer changes the map at its
/// location and nowhere else.
pub proof fn lemma_entries_update<B: ChessBoard>(
    entries: Seq<(B::Loc, ActionRaw<B::Rel>)>,
    i: int,
    action: ActionRaw<B::Rel>,
)
    requires
        distinct_keys::<B>(entries),
        0 <= i < entries.len(),
    ensures
        distinct_keys::<B>(entries.update(i, (entries[i].0, action))),
        entries_map::<B>(entries.update(i, (entries[i].0, action))) == entries_map::<B>(
            entries,
        ).insert(B::point(entries[i].0), action@),
{
    let changed = entries.update(i, (entries[i].0, action));
    let left = entries_map::<B>(changed);
    let right = entries_map::<B>(entries).insert(B::point(entries[i].0), action@);
    assert(distinct_keys::<B>(changed)) by {
        assert forall|a: int, b: int| 0 <= a < b < changed.len() implies B::point(
            #[trigger] changed[a].0,
        ) != B::point(#[trigger] changed[b].0) by {
            assert(changed[a].0 == entries[a].0);
            assert(changed[b].0 == entries[b].0);
        }
    }
    assert forall|p: (int, int)| left.dom().contains(p) <==> right.dom().contains(p) by {
        lemma_entries_dom::<B>(changed, p);
        lemma_entries_dom::<B>(entries, p);
        if exists|j: int| 0 <= j < changed.len() && B::point(#[trigger] changed[j].0) == p {
            let j = choose|j: int| 0 <= j < changed.len() && B::point(#[trigger] changed[j].0) == p;
            assert(B::point(entries[j].0) == p);
        }
        if exists|j: int| 0 <= j < entries.len() && B::point(#[trigger] entries[j].0) == p {
            let j = choose|j: int| 0 <= j < entries.len() && B::point(#[trigger] entries[j].0) == p;
            assert(B::point(changed[j].0) == p);
        }
        if p == B::point(entries[i].0) {
            assert(B::point(changed[i].0) == p);
        }
    }
    assert forall|p: (int, int)| left.dom().contains(p) implies left[p] == right[p] by {
        lemma_entries_dom::<B>(changed, p);
        let j = choose|j: int| 0 <= j < changed.len() && B::point(#[trigger] changed[j].0) == p;
        lemma_entries_value::<B>(changed, j);
        if j != i {
            assert(changed[j] == entries[j]);
            lemma_entries_value::<B>(entries, j);
            assert(B::point(entries[i].0) != B::point(entries[j].0));
        }
    }
    assert(left =~= right);
}

/// A map from destinations to what the move generator offers there.
///
/// The map holds each location once; an offer that is entered for a location
/// that the map already holds takes the place of the earlier one.
pub struct ActionMap<B: ChessBoard> {
    entries: Vec<(B::Loc, ActionRaw<B::Rel>)>,
}

impl<B: ChessBoard> ActionMap<B> {
    /// The offers, keyed by the point of their destination.
    pub closed spec fn view(&self) -> Map<(int, int), ActionRawView> {
        entries_map::<B>(self.entries@)
    }

    /// The destinations in the order in which they were first entered.
    pub closed spec fn keys(&self) -> Seq<(int, int)> {
        self.entries@.map_values(|e: (B::Loc, ActionRaw<B::Rel>)| B::point(e.0))
    }

    /// Whether the map holds no location twice.
    pub closed spec fn wf(&self) -> bool {
        distinct_keys::<B>(self.entries@)
    }

    /// The keys are the destinations of the map, each once.
    pub proof fn lemma_keys(&self)
        requires
            self.wf(),
        ensures
            self.keys().no_duplicates(),
            forall|p: (int, int)| self@.dom().contains(p) <==> self.keys().contains(p),
            self@.dom().finite(),
            self@.dom().len() == self.keys().len(),
    {
        let keys = self.keys();
        assert forall|i: int, j: int| 0 <= i < keys.len() && 0 <= j < keys.len() && i != j implies keys[i]
            != keys[j] by {
            if i < j {
                assert(B::point(self.entries@[i].0) != B::point(self.entries@[j].0));
            } else {
                assert(B::point(self.entries@[j].0) != B::point(self.entries@[i].0));
            }
        }
        assert forall|p: (int, int)| self@.dom().contains(p) <==> keys.contains(p) by {
            lemma_entries_dom::<B>(self.entries@, p);
            if keys.contains(p) {
                let i = choose|i: int| 0 <= i < keys.len() && keys[i] == p;
                assert(B::point(self.entries@[i].0) == p);
            }
            if exists|i: int| 0 <= i < self.entries@.len() && B::point(#[trigger] self.entries@[i].0) == p {
                let i = choose|i: int|
                    0 <= i < self.entries@.len() && B::point(#[trigger] self.entries@[i].0) == p;
                assert(keys[i] == p);
            }
        }
        keys.unique_seq_to_set();
        assert(keys.to_set() =~= self@.dom());
    }

    /// The empty map.
    pub fn new() -> (map: Self)
        ensures
            map@ == Map::<(int, int), ActionRawView>::empty(),
            map.wf(),
    {
        ActionMap { entries: Vec::new() }
    }

    /// The number of destinations.
    pub fn len(&self) -> (n: usize)
        requires
            self.wf(),
        ensures
            n == self@.dom().len(),
            n == self.keys().len(),
    {
        proof {
            self.lemma_keys();
        }
        self.entries.len()
    }

    /// Where the location is found among the entries.
    fn position(&self, loc: B::Loc) -> (found: Option<usize>)
        ensures
            match found {
                Some(i) => i < self.entries@.len() && B::point(self.entries@[i as int].0)
                    == B::point(loc),
                None => !self@.dom().contains(B::point(loc)),
            },
    {
        let mut i: usize = 0;
        while i < self.entries.len()
            invariant
                i <= self.entries@.len(),
                forall|j: int| 0 <= j < i ==> B::point(#[trigger] self.entries@[j].0) != B::point(loc),
            decreases self.entries@.len() - i,
        {
            if B::same_loc(&self.entries[i].0, &loc) {
                return Some(i);
            }
            i += 1;
        }
        proof {
            lemma_entries_dom::<B>(self.entries@, B::point(loc));
        }
        None
    }

    /// Enters an offer for a destination, in place of any earlier one.
    pub fn insert(&mut self, loc: B::Loc, action: ActionRaw<B::Rel>)
        requires
            old(self).wf(),
        ensures
            final(self).wf(),
            final(self)@ == old(self)@.insert(B::point(loc), action@),
            final(self).keys() == if old(self)@.dom().contains(B::point(loc)) {
                old(self).keys()
            } else {
                old(self).keys().push(B::point(loc))
            },
    {
        proof {
            lemma_entries_dom::<B>(self.entries@, B::point(loc));
        }
        match self.position(loc) {
            Some(i) => {
                proof {
                    lemma_entries_update::<B>(self.entries@, i as int, action);
                }
                let key = self.entries[i].0;
                self.entries[i] = (key, action);
                assert(self.entries@ =~= old(self).entries@.update(i as int, (key, action)));
                assert(self.keys() =~= old(self).keys());
            },
            None => {
                proof {
                    assert forall|j: int| 0 <= j < self.entries@.len() implies B::point(
                        #[trigger] self.entries@[j].0,
                    ) != B::point(loc) by {
                        lemma_entries_dom::<B>(self.entries@, B::point(loc));
                    }
                }
                self.entries.push((loc, action));
                assert(self.entries@.drop_last() =~= old(self).entries@);
                assert(self.keys() =~= old(self).keys().push(B::point(loc)));
            },
        }
    }

    /// The offer for a destination, if there is one.
    pub fn get(&self, loc: B::Loc) -> (offer: Option<&ActionRaw<B::Rel>>)
        requires
            self.wf(),
        ensures
            match offer {
                Some(a) => self@.dom().contains(B::point(loc)) && a@ == self@[B::point(loc)],
                None => !self@.dom().contains(B::point(loc)),
            },
    {
        match self.position(loc) {
            Some(i) => {
                proof {
                    lemma_entries_value::<B>(self.entries@, i as int);
                }
                Some(&self.entries[i].1)
            },
            None => None,
        }
    }

    /// Whether there is an offer for a destination.
    pub fn contains_key(&self, loc: B::Loc) -> (found: bool)
        ensures
            found == self@.dom().contains(B::point(loc)),
    {
        match self.position(loc) {
            Some(i) => {
                proof {
                    lemma_entries_dom::<B>(self.entries@, B::point(loc));
                }
                true
            },
            None => false,
        }
    }

    /// The destination that was entered as the `i`-th.
    pub fn key_at(&self, i: usize) -> (loc: B::Loc)
        requires
            i < self.keys().len(),
        ensures
            B::point(loc) == self.keys()[i as int],
    {
        self.entries[i].0
    }

    /// The offer for the destination that was entered as the `i`-th.
    pub fn value_at(&self, i: usize) -> (offer: &ActionRaw<B::Rel>)
        requires
            self.wf(),
            i < self.keys().len(),
        ensures
            self@.dom().contains(self.keys()[i as int]),
            offer@ == self@[self.keys()[i as int]],
    {
        proof {
            lemma_entries_value::<B>(self.entries@, i as int);
        }
        &self.entries[i].1
    }

    /// The destinations, in the order in which they were first entered.
    pub fn locations(&self) -> (locs: Vec<B::Loc>)
        ensures
            locs@.map_values(|l: B::Loc| B::point(l)) == self.keys(),
    {
        let mut locs: Vec<B::Loc> = Vec::new();
        let mut i: usize = 0;
        while i < self.entries.len()
            invariant
                i <= self.entries@.len(),
                locs@.len() == i,
                forall|j: int| 0 <= j < i ==> B::point(#[trigger] locs@[j]) == self.keys()[j],
            decreases self.entries@.len() - i,
        {
            locs.push(self.entries[i].0);
            i += 1;
        }
        assert(locs@.map_values(|l: B::Loc| B::point(l)) =~= self.keys());
        locs
    }

    /// Whether some offer of the map is taken up by a submitted action.
    pub fn offers(&self, action: &SingleAction<B::Rel>) -> (found: bool)
        requires
            self.wf(),
        ensures
            found == exists|p: (int, int)|
                self@.dom().contains(p) && (#[trigger] self@[p]).contains(action@),
    {
        let mut i: usize = 0;
        while i < self.entries.len()
            invariant
                self.wf(),
                i <= self.entries@.len(),
                forall|j: int| 0 <= j < i ==> !(#[trigger] self.entries@[j]).1@.contains(action@),
            decreases self.entries@.len() - i,
        {
            if self.entries[i].1.contains(action) {
                proof {
                    lemma_entries_value::<B>(self.entries@, i as int);
                    let p = B::point(self.entries@[i as int].0);
                    assert(self@.dom().contains(p) && self@[p].contains(action@));
                }
                return true;
            }
            i += 1;
        }
        proof {
            assert forall|p: (int, int)| self@.dom().contains(p) implies !(#[trigger] self@[p]).contains(
                action@,
            ) by {
                lemma_entries_dom::<B>(self.entries@, p);
                let j = choose|j: int|
                    0 <= j < self.entries@.len() && B::point(#[trigger] self.entries@[j].0) == p;
                lemma_entries_value::<B>(self.entries@, j);
            }
        }
        false
    }
}

} // verus!
