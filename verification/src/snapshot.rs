//! Publish slot for a plugin's own state.
//!
//! The audio thread publishes a snapshot behind each block; a host saves from
//! the slot, and never has to wait for the plugin. Where the slot is contended, as
//! a reader holds it, a publish is skipped, and the snapshot before it stands.
use vstd::prelude::*;

verus! {

/// The latest snapshot, and whether there ever was one.
pub struct SnapshotSlot {
    pub bytes: Vec<u8>,
    pub supported: bool,
}

/// One publish: whether the slot was free, whether there was a snapshot, and what the
/// buffer held afterwards.
pub struct Publish {
    pub free: bool,
    pub wrote: bool,
    pub left: Seq<u8>,
}

/// What a slot holds, and whether there ever was a snapshot.
pub type Held = (Seq<u8>, bool);

/// What a slot holds after one publish. One that finds the slot taken changes nothing.
pub open spec fn published(held: Held, publish: Publish) -> Held {
    if publish.free {
        (publish.left, held.1 || publish.wrote)
    } else {
        held
    }
}

/// What a slot holds after some publishes, one after the other.
pub open spec fn all_published(held: Held, calls: Seq<Publish>) -> Held
    decreases calls.len(),
{
    if calls.len() == 0 {
        held
    } else {
        published(all_published(held, calls.drop_last()), calls.last())
    }
}

impl SnapshotSlot {
    /// What the slot holds.
    pub open spec fn held(&self) -> Held {
        (self.bytes@, self.supported)
    }

    /// What a reader gets: the latest snapshot, or nothing before the first.
    pub open spec fn latest(&self) -> Option<Seq<u8>> {
        if self.supported {
            Some(self.bytes@)
        } else {
            None
        }
    }

    /// An empty slot.
    #[must_use]
    pub fn new() -> (r: Self)
        ensures
            r.latest() is None,
            r.held() == (Seq::<u8>::empty(), false),
    {
        let r = SnapshotSlot { bytes: Vec::new(), supported: false };
        assert(r.bytes@ =~= Seq::<u8>::empty());
        r
    }

    /// Publishes a snapshot, to a slot that nobody else holds. `write` is handed the
    /// buffer, with what it held, to clear and fill, and answers whether there is a
    /// snapshot. The first `true` makes the slot a supported one for good.
    pub fn publish(&mut self, write: impl FnOnce(&mut Vec<u8>) -> bool)
        requires
            forall|buf: &mut Vec<u8>| #[trigger] call_requires(write, (buf,)),
        ensures
            exists|buf: &mut Vec<u8>, wrote: bool|
                {
                    &&& #[trigger] call_ensures(write, (buf,), wrote)
                    &&& *buf == old(self).bytes
                    &&& final(self).bytes == *final(buf)
                    &&& final(self).supported == (old(self).supported || wrote)
                    &&& final(self).held() == published(
                        old(self).held(),
                        Publish { free: true, wrote, left: final(buf)@ },
                    )
                },
    {
        if write(&mut self.bytes) {
            self.supported = true;
        }
    }

    /// Publishes a snapshot as `publish` does, where the slot is free. Where it is
    /// not, nothing happens: `write` is not called, and the snapshot before stands.
    pub fn try_publish(&mut self, free: bool, write: impl FnOnce(&mut Vec<u8>) -> bool)
        requires
            forall|buf: &mut Vec<u8>| #[trigger] call_requires(write, (buf,)),
        ensures
            !free ==> *final(self) == *old(self),
            free ==> exists|buf: &mut Vec<u8>, wrote: bool|
                {
                    &&& #[trigger] call_ensures(write, (buf,), wrote)
                    &&& *buf == old(self).bytes
                    &&& final(self).bytes == *final(buf)
                    &&& final(self).supported == (old(self).supported || wrote)
                    &&& final(self).held() == published(
                        old(self).held(),
                        Publish { free: true, wrote, left: final(buf)@ },
                    )
                },
    {
        if free {
            self.publish(write);
        }
    }

    /// Whether a snapshot was ever published.
    #[must_use]
    pub fn is_supported(&self) -> (r: bool)
        ensures
            r == self.supported,
            r == (self.latest() is Some),
    {
        self.supported
    }

    /// The latest snapshot, or nothing where none was ever published.
    #[must_use]
    pub fn read(&self) -> (r: Option<Vec<u8>>)
        ensures
            match r {
                Some(bytes) => self.latest() == Some(bytes@),
                None => self.latest() is None,
            },
    {
        if !self.supported {
            return None;
        }
        let mut copy: Vec<u8> = Vec::with_capacity(self.bytes.len());
        let mut i: usize = 0;
        while i < self.bytes.len()
            invariant
                i <= self.bytes@.len(),
                copy@ == self.bytes@.take(i as int),
            decreases self.bytes@.len() - i,
        {
            copy.push(self.bytes[i]);
            i = i + 1;
            proof {
                assert(copy@ =~= self.bytes@.take(i as int));
            }
        }
        proof {
            assert(self.bytes@.take(i as int) =~= self.bytes@);
        }
        Some(copy)
    }
}

/// Some publish of these was done, and had a snapshot.
pub open spec fn some_written(calls: Seq<Publish>) -> bool {
    exists|i: int| 0 <= i < calls.len() && (#[trigger] calls[i]).free && calls[i].wrote
}

/// After any publishes to a fresh slot it is supported exactly where one of them was
/// done and had a snapshot.
pub proof fn law_supported_once_written(calls: Seq<Publish>)
    ensures
        all_published((Seq::empty(), false), calls).1 == some_written(calls),
    decreases calls.len(),
{
    if calls.len() > 0 {
        let front = calls.drop_last();
        law_supported_once_written(front);
        if some_written(front) {
            let i = choose|i: int|
                0 <= i < front.len() && (#[trigger] front[i]).free && front[i].wrote;
            assert(calls[i] == front[i]);
        }
        if some_written(calls) {
            let i = choose|i: int|
                0 <= i < calls.len() && (#[trigger] calls[i]).free && calls[i].wrote;
            if i < front.len() {
                assert(front[i] == calls[i]);
            }
        }
        if calls.last().free && calls.last().wrote {
            assert(calls[calls.len() - 1] == calls.last());
        }
    }
}

/// A slot that is supported stays so, whatever is published to it.
pub proof fn law_supported_for_good(held: Held, calls: Seq<Publish>)
    requires
        held.1,
    ensures
        all_published(held, calls).1,
    decreases calls.len(),
{
    if calls.len() > 0 {
        law_supported_for_good(held, calls.drop_last());
    }
}

/// A reader gets nothing exactly where the slot is not supported, and otherwise what
/// the last publish that was done left.
pub proof fn law_reader_gets_the_last_publish(slot: SnapshotSlot, calls: Seq<Publish>, last: int)
    requires
        slot.held() == all_published((Seq::empty(), false), calls),
    ensures
        slot.latest() is None <==> !some_written(calls),
        0 <= last < calls.len() && calls[last].free && slot.supported && (forall|i: int|
            last < i < calls.len() ==> !(#[trigger] calls[i]).free) ==> slot.latest() == Some(
            calls[last].left,
        ),
{
    law_supported_once_written(calls);
    if 0 <= last < calls.len() && calls[last].free && (forall|i: int|
        last < i < calls.len() ==> !(#[trigger] calls[i]).free) {
        lemma_last_publish_stays((Seq::empty(), false), calls, last);
    }
}

proof fn lemma_last_publish_stays(held: Held, calls: Seq<Publish>, last: int)
    requires
        0 <= last < calls.len(),
        calls[last].free,
        forall|i: int| last < i < calls.len() ==> !(#[trigger] calls[i]).free,
    ensures
        all_published(held, calls).0 == calls[last].left,
    decreases calls.len(),
{
    if last < calls.len() - 1 {
        let front = calls.drop_last();
        assert(!calls[calls.len() - 1].free);
        assert forall|i: int| last < i < front.len() implies !(#[trigger] front[i]).free by {
            assert(front[i] == calls[i]);
        }
        lemma_last_publish_stays(held, front, last);
    }
}

} // verus!
