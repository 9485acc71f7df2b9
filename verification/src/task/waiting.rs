//! Coroutines that wait for something.

use vstd::prelude::*;

verus! {

/// Waiting coroutines by their identity, each with the identity of its yielding point.
#[verifier::external_body]
pub struct Waiting {
    map: hashbrown::HashMap<u64, u64>,
}

/// What a `hashbrown::HashMap` of waiting coroutines holds.
pub uninterp spec fn waiting(map: Waiting) -> Map<u64, u64>;

/// The map without any coroutine.
pub open spec fn nobody() -> Map<u64, u64> {
    Map::empty()
}

/// Whether `drained` holds each pair of the map once and nothing else.
pub open spec fn enumerates(drained: Seq<(u64, u64)>, map: Map<u64, u64>) -> bool {
    &&& drained.no_duplicates()
    &&& forall|co: u64, yielding: u64| #[trigger]
        drained.contains((co, yielding)) <==> map.dom().contains(co) && map[co] == yielding
}

impl View for Waiting {
    type V = Map<u64, u64>;

    open spec fn view(&self) -> Map<u64, u64> {
        waiting(*self)
    }
}

impl Waiting {
    /// `hashbrown::HashMap::new`: the map is empty.
    #[verifier::external_body]
    pub(crate) fn new() -> (map: Self)
        ensures
            waiting(map) == nobody(),
    {
        Waiting { map: hashbrown::HashMap::new() }
    }

    /// `hashbrown::HashMap::is_empty`: whether the map holds no key.
    #[verifier::external_body]
    pub(crate) fn is_empty(&self) -> (empty: bool)
        ensures
            empty == (waiting(*self) == nobody()),
    {
        self.map.is_empty()
    }

    /// `hashbrown::HashMap::insert`: the key is mapped to the value, and what it was mapped to
    /// before is returned.
    #[verifier::external_body]
    pub(crate) fn insert(&mut self, co: u64, yielding: u64) -> (previous: Option<u64>)
        ensures
            waiting(*final(self)) == waiting(*old(self)).insert(co, yielding),
            previous == if waiting(*old(self)).dom().contains(co) {
                Some(waiting(*old(self))[co])
            } else {
                None
            },
    {
        self.map.insert(co, yielding)
    }

    /// `hashbrown::HashMap::remove`: the key is mapped to nothing, and what it was mapped to before
    /// is returned.
    #[verifier::external_body]
    pub(crate) fn remove(&mut self, co: u64) -> (previous: Option<u64>)
        ensures
            waiting(*final(self)) == waiting(*old(self)).remove(co),
            previous == if waiting(*old(self)).dom().contains(co) {
                Some(waiting(*old(self))[co])
            } else {
                None
            },
    {
        self.map.remove(&co)
    }

    /// `hashbrown::HashMap::drain`: all pairs are taken out, in an order that nothing is said of.
    #[verifier::external_body]
    pub(crate) fn drain(&mut self) -> (drained: Vec<(u64, u64)>)
        ensures
            waiting(*final(self)) == nobody(),
            enumerates(drained@, waiting(*old(self))),
    {
        self.map.drain().collect()
    }

    /// `hashbrown::HashMap::drain_filter` with the yielding points that `interrupt` answers true
    /// for: it is asked for each pair, in an order that nothing is said of. The pairs for which it
    /// holds are taken out, the others stay.
    #[verifier::external_body]
    pub(crate) fn drain_filter<F: Fn(u64, &'static str) -> bool>(
        &mut self,
        interrupt: &F,
        msg: &'static str,
    ) -> (drained: Vec<(u64, u64)>)
        requires
            forall|yielding: u64, msg: &'static str| #[trigger]
                call_requires(*interrupt, (yielding, msg)),
        ensures
            waiting(*final(self)).submap_of(waiting(*old(self))),
            enumerates(drained@, waiting(*old(self)).remove_keys(waiting(*final(self)).dom())),
            forall|co: u64| #[trigger]
                waiting(*old(self)).dom().contains(co) ==> call_ensures(
                    *interrupt,
                    (waiting(*old(self))[co], msg),
                    !waiting(*final(self)).dom().contains(co),
                ),
    {
        self.map.drain_filter(|_, yielding| interrupt(*yielding, msg)).collect()
    }
}

} // verus!
