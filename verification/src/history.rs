//! A fixed-capacity history of position keys for repetition detection.
use vstd::prelude::*;
use vstd::pervasive::VecAdditionalExecFns;
use crate::zobrist::ZobristKey;

verus! {

/// How many plies of key history are kept before the caller must reset.
pub const HISTORY_CAPACITY: usize = 100;

pub struct MoveHistory {
    pub keys: Vec<ZobristKey>,
    pub count: usize,
}

/// How many entries of `s` equal `key`.
pub open spec fn spec_repetitions(s: Seq<ZobristKey>, key: ZobristKey) -> nat
    decreases s.len(),
{
    if s.len() == 0 {
        0
    } else {
        spec_repetitions(s.drop_last(), key) + (if s.last() == key {
            1nat
        } else {
            0nat
        })
    }
}

impl MoveHistory {
    pub open spec fn wf(self) -> bool {
        self.count <= self.keys@.len()
    }

    /// The keys currently remembered, oldest first.
    pub open spec fn entries(self) -> Seq<ZobristKey> {
        self.keys@.subrange(0, self.count as int)
    }

    pub fn new() -> (r: MoveHistory)
        ensures
            r.wf(),
            r.entries() == Seq::<ZobristKey>::empty(),
    {
        let r = MoveHistory { keys: Vec::new(), count: 0 };
        proof {
            assert(r.entries() =~= Seq::<ZobristKey>::empty());
        }
        r
    }

    /// Remember one key.
    pub fn push(&mut self, key: ZobristKey)
        requires
            old(self).wf(),
            old(self).count < HISTORY_CAPACITY,
        ensures
            final(self).wf(),
            final(self).entries() == old(self).entries().push(key),
            final(self).count == old(self).count + 1,
    {
        if self.count < self.keys.len() {
            self.keys.set(self.count, key);
        } else {
            self.keys.push(key);
        }
        self.count = self.count + 1;
        proof {
            assert(self.entries() =~= old(self).entries().push(key));
        }
    }

    /// Forget every remembered key.
    pub fn reset(&mut self)
        requires
            old(self).wf(),
        ensures
            final(self).wf(),
            final(self).entries() == Seq::<ZobristKey>::empty(),
            final(self).count == 0,
    {
        self.count = 0;
        proof {
            assert(self.entries() =~= Seq::<ZobristKey>::empty());
        }
    }

    /// How many remembered keys equal `key`.
    pub fn get_key_repetitions(&self, key: ZobristKey) -> (r: i32)
        requires
            self.wf(),
            self.count <= HISTORY_CAPACITY,
        ensures
            r == spec_repetitions(self.entries(), key),
    {
        let mut repetitions: i32 = 0;
        let mut value: usize = 0;
        while value < self.count
            invariant
                self.wf(),
                self.count <= HISTORY_CAPACITY,
                value <= self.count,
                repetitions == spec_repetitions(self.keys@.subrange(0, value as int), key),
                repetitions <= value,
            decreases self.count - value,
        {
            let ghost pre = self.keys@.subrange(0, value as int);
            if self.keys[value].0 == key.0 {
                repetitions = repetitions + 1;
            }
            value = value + 1;
            proof {
                let cur = self.keys@.subrange(0, value as int);
                assert(cur.drop_last() =~= pre);
                assert(cur.last() == self.keys@[value - 1]);
            }
        }
        proof {
            assert(self.keys@.subrange(0, self.count as int) =~= self.entries());
        }
        repetitions
    }
}

impl Default for MoveHistory {
    /// An empty history.
    fn default() -> (r: Self)
        ensures
            r.wf(),
            r.entries() == Seq::<ZobristKey>::empty(),
    {
        MoveHistory::new()
    }
}

} // verus!
