//! The small sets that an incident keeps.
use crate::diagnostics::keys::{Cause, CAUSES};
use vstd::prelude::*;

verus! {

/// A set of causes.
pub struct CauseSet {
    present: [bool; 26],
}

impl View for CauseSet {
    type V = Set<Cause>;

    closed spec fn view(&self) -> Set<Cause> {
        Set::new(|cause: Cause| self.present[cause.position()])
    }
}

impl CauseSet {
    pub fn new() -> (set: CauseSet)
        ensures
            set@ == Set::<Cause>::empty(),
    {
        let set = CauseSet { present: [false; 26] };
        assert(set@ =~= Set::<Cause>::empty());
        set
    }

    pub fn contains(&self, cause: Cause) -> (found: bool)
        ensures
            found == self@.contains(cause),
    {
        self.present[cause.index()]
    }

    pub fn insert(&mut self, cause: Cause)
        ensures
            final(self)@ == old(self)@.insert(cause),
    {
        let index: usize = cause.index();
        self.present[index] = true;
        assert(self@ =~= old(self)@.insert(cause)) by {
            assert forall|other: Cause| self@.contains(other) == old(self)@.insert(cause).contains(
                other,
            ) by {
                cause_positions_differ(cause, other);
            }
        }
    }

    /// The causes in alphabetical order of their names.
    pub fn listed(&self) -> (causes: Vec<Cause>)
        ensures
            causes@.to_set() == self@,
            forall|i: int, j: int|
                0 <= i < j < causes@.len() ==> causes@[i].position() < causes@[j].position(),
    {
        let mut causes: Vec<Cause> = Vec::new();
        let mut i: usize = 0;
        while i < CAUSES
            invariant
                i <= CAUSES,
                forall|j: int| 0 <= j < causes@.len() ==> causes@[j].position() < i,
                forall|j: int| 0 <= j < causes@.len() ==> self@.contains(causes@[j]),
                forall|cause: Cause|
                    self@.contains(cause) && cause.position() < i ==> causes@.contains(cause),
                forall|j: int, k: int|
                    0 <= j < k < causes@.len() ==> causes@[j].position() < causes@[k].position(),
            decreases CAUSES - i,
        {
            let ghost before = causes@;
            if let Some(cause) = Cause::at(i) {
                if self.contains(cause) {
                    causes.push(cause);
                    assert(causes@[before.len() as int] == cause);
                    assert forall|other: Cause| before.contains(other) implies causes@.contains(
                        other,
                    ) by {
                        let j = choose|j: int| 0 <= j < before.len() && before[j] == other;
                        assert(causes@[j] == other);
                    }
                }
                assert forall|other: Cause|
                    self@.contains(other) && other.position() < i + 1 implies causes@.contains(
                    other,
                ) by {
                    if other.position() == i {
                        cause_positions_differ(cause, other);
                    }
                }
            }
            i = i + 1;
        }
        assert forall|cause: Cause| self@.contains(cause) implies causes@.contains(cause) by {
            assert(cause.position() < CAUSES);
        }
        assert(causes@.to_set() =~= self@);
        causes
    }
}

/// Each cause has a place of its own.
pub proof fn cause_positions_differ(a: Cause, b: Cause)
    ensures
        a.position() == b.position() <==> a == b,
        0 <= a.position() < CAUSES,
{
}

/// The order of frame keys: by session, then by sequence.
pub open spec fn key_before(a: [u64; 2], b: [u64; 2]) -> bool {
    a[0] < b[0] || (a[0] == b[0] && a[1] < b[1])
}

pub open spec fn in_order(keys: Seq<[u64; 2]>) -> bool {
    forall|i: int, j: int|
        0 <= i < j < keys.len() ==> key_before(#[trigger] keys[i], #[trigger] keys[j])
}

/// A set of frame keys, kept in order.
pub struct FrameKeySet {
    keys: Vec<[u64; 2]>,
}

impl View for FrameKeySet {
    type V = Set<[u64; 2]>;

    closed spec fn view(&self) -> Set<[u64; 2]> {
        self.keys@.to_set()
    }
}

impl FrameKeySet {
    pub closed spec fn wf(&self) -> bool {
        forall|i: int, j: int|
            0 <= i < j < self.keys@.len() ==> key_before(#[trigger] self.keys@[i], #[trigger] self.keys@[j])
    }

    pub fn new() -> (set: FrameKeySet)
        ensures
            set.wf(),
            set@ == Set::<[u64; 2]>::empty(),
    {
        let set = FrameKeySet { keys: Vec::new() };
        assert(set@ =~= Set::<[u64; 2]>::empty());
        set
    }

    pub fn len(&self) -> (len: usize)
        requires
            self.wf(),
        ensures
            len == self@.len(),
            self@.finite(),
    {
        proof {
            assert(self.keys@.no_duplicates()) by {
                assert forall|i: int, j: int|
                    0 <= i < self.keys@.len() && 0 <= j < self.keys@.len() && i != j implies self.keys@[i]
                    != self.keys@[j] by {
                    if i < j {
                        assert(key_before(self.keys@[i], self.keys@[j]));
                    } else {
                        assert(key_before(self.keys@[j], self.keys@[i]));
                    }
                }
            }
            self.keys@.unique_seq_to_set();
            vstd::seq_lib::seq_to_set_is_finite(self.keys@);
        }
        self.keys.len()
    }

    /// The first place whose key is not before `key`.
    fn place(&self, key: [u64; 2]) -> (place: usize)
        requires
            self.wf(),
        ensures
            place <= self.keys@.len(),
            forall|i: int| 0 <= i < place ==> key_before(#[trigger] self.keys@[i], key),
            forall|i: int|
                place <= i < self.keys@.len() ==> !key_before(#[trigger] self.keys@[i], key),
    {
        let mut place: usize = 0;
        while place < self.keys.len() && (self.keys[place][0] < key[0] || (self.keys[place][0]
            == key[0] && self.keys[place][1] < key[1]))
            invariant
                self.wf(),
                place <= self.keys@.len(),
                forall|i: int| 0 <= i < place ==> key_before(#[trigger] self.keys@[i], key),
            decreases self.keys@.len() - place,
        {
            place = place + 1;
        }
        proof {
            assert forall|i: int| place <= i < self.keys@.len() implies !key_before(
                #[trigger] self.keys@[i],
                key,
            ) by {
                if i > place {
                    assert(key_before(self.keys@[place as int], self.keys@[i]));
                }
            }
        }
        place
    }

    pub fn contains(&self, key: [u64; 2]) -> (found: bool)
        requires
            self.wf(),
        ensures
            found == self@.contains(key),
    {
        let place: usize = self.place(key);
        if place < self.keys.len() && self.keys[place][0] == key[0] && self.keys[place][1]
            == key[1] {
            assert(self.keys@[place as int] =~= key);
            true
        } else {
            proof {
                if self.keys@.contains(key) {
                    let i = choose|i: int| 0 <= i < self.keys@.len() && self.keys@[i] == key;
                    if i > place {
                        assert(key_before(self.keys@[place as int], self.keys@[i]));
                    }
                }
            }
            false
        }
    }

    pub fn insert(&mut self, key: [u64; 2])
        requires
            old(self).wf(),
        ensures
            final(self).wf(),
            final(self)@ == old(self)@.insert(key),
    {
        if self.contains(key) {
            assert(self@ =~= old(self)@.insert(key));
            return ;
        }
        let place: usize = self.place(key);
        let ghost before = self.keys@;
        proof {
            assert forall|i: int| place <= i < before.len() implies key_before(
                key,
                #[trigger] before[i],
            ) by {
                if before[i][0] == key[0] && before[i][1] == key[1] {
                    assert(before[i] =~= key);
                    assert(before.contains(key));
                }
            }
        }
        self.keys.insert(place, key);
        proof {
            let after = self.keys@;
            assert forall|i: int, j: int| 0 <= i < j < after.len() implies key_before(
                #[trigger] after[i],
                #[trigger] after[j],
            ) by {
                let a = if i < place { i } else { i - 1 };
                let b = if j < place { j } else { j - 1 };
                if i != place && j != place {
                    assert(after[i] == before[a] && after[j] == before[b]);
                } else if i == place {
                    assert(after[j] == before[b]);
                } else {
                    assert(after[i] == before[a]);
                }
            }
            assert forall|k: [u64; 2]|
                after.to_set().contains(k) == before.to_set().insert(key).contains(k) by {
                if after.contains(k) {
                    let i = choose|i: int| 0 <= i < after.len() && after[i] == k;
                    if i < place {
                        assert(before[i] == k);
                    } else if i > place {
                        assert(before[i - 1] == k);
                    }
                }
                if before.contains(k) {
                    let i = choose|i: int| 0 <= i < before.len() && before[i] == k;
                    if i < place {
                        assert(after[i] == k);
                    } else {
                        assert(after[i + 1] == k);
                    }
                }
                assert(after[place as int] == key);
            }
            assert(self@ =~= old(self)@.insert(key));
        }
    }

    /// The keys in order.
    pub fn listed(&self) -> (keys: &Vec<[u64; 2]>)
        requires
            self.wf(),
        ensures
            keys@.to_set() == self@,
            forall|i: int, j: int|
                0 <= i < j < keys@.len() ==> key_before(#[trigger] keys@[i], #[trigger] keys@[j]),
    {
        &self.keys
    }
}

/// There is one way to list a set of keys in order.
pub proof fn ordered_keys_are_unique(a: Seq<[u64; 2]>, b: Seq<[u64; 2]>)
    requires
        a.to_set() == b.to_set(),
        in_order(a),
        in_order(b),
    ensures
        a == b,
    decreases a.len(),
{
    if a.len() == 0 {
        if b.len() > 0 {
            assert(b.to_set().contains(b[0]));
            assert(a.contains(b[0]));
        }
        assert(a =~= b);
    } else {
        assert(a.to_set().contains(a.last()));
        assert(b.contains(a.last()));
        assert(b.to_set().contains(b.last()));
        assert(a.contains(b.last()));
        let i = choose|i: int| 0 <= i < b.len() && b[i] == a.last();
        let j = choose|j: int| 0 <= j < a.len() && a[j] == b.last();
        if i < b.len() - 1 {
            assert(key_before(b[i], b[b.len() - 1]));
            if j < a.len() - 1 {
                assert(key_before(a[j], a[a.len() - 1]));
            }
        }
        assert(i == b.len() - 1);
        let c = a.drop_last();
        let d = b.drop_last();
        assert forall|key: [u64; 2]| c.to_set().contains(key) == d.to_set().contains(key) by {
            front_lacks_last(a, key);
            front_lacks_last(b, key);
        }
        assert(c.to_set() =~= d.to_set());
        assert(in_order(c)) by {
            assert forall|i: int, j: int| 0 <= i < j < c.len() implies key_before(
                #[trigger] c[i],
                #[trigger] c[j],
            ) by {
                assert(key_before(a[i], a[j]));
            }
        }
        assert(in_order(d)) by {
            assert forall|i: int, j: int| 0 <= i < j < d.len() implies key_before(
                #[trigger] d[i],
                #[trigger] d[j],
            ) by {
                assert(key_before(b[i], b[j]));
            }
        }
        ordered_keys_are_unique(c, d);
        assert(a =~= c.push(a.last()));
        assert(b =~= d.push(b.last()));
    }
}

proof fn front_lacks_last(a: Seq<[u64; 2]>, key: [u64; 2])
    requires
        a.len() > 0,
        in_order(a),
    ensures
        a.drop_last().to_set().contains(key) == (a.to_set().contains(key) && key != a.last()),
{
    let c = a.drop_last();
    if c.contains(key) {
        let i = choose|i: int| 0 <= i < c.len() && c[i] == key;
        assert(a[i] == key);
        assert(key_before(a[i], a[a.len() - 1]));
    }
    if a.contains(key) && key != a.last() {
        let i = choose|i: int| 0 <= i < a.len() && a[i] == key;
        assert(c[i] == key);
    }
}

} // verus!
