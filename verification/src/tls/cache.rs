//! Which TLS files have been read, and which are being read.
use crate::names::NameSet;
use crate::text;
use crate::tls::{contents, Bytes, TlsError};
use vstd::prelude::*;

verus! {

/// What a slot knows: the contents of the files read so far, and the files that are being read.
#[verifier::ext_equal]
pub struct SlotView {
    pub cache: Map<Seq<char>, Seq<u8>>,
    pub inflight: Set<Seq<char>>,
}

impl SlotView {
    /// Nothing read and nothing being read.
    pub open spec fn empty() -> SlotView {
        SlotView { cache: Map::empty(), inflight: Set::empty() }
    }

    /// The contents of a file, if it was read.
    pub open spec fn cached(self, path: Seq<char>) -> Option<Seq<u8>> {
        if self.cache.contains_key(path) {
            Some(self.cache[path])
        } else {
            None
        }
    }

    /// Whether asking for a file means reading it.
    pub open spec fn calls_for_read(self, path: Seq<char>) -> bool {
        self.cached(path) is None && !self.inflight.contains(path)
    }

    /// The state after a file was asked for.
    pub open spec fn begun(self, path: Seq<char>) -> SlotView {
        if self.calls_for_read(path) {
            SlotView { inflight: self.inflight.insert(path), ..self }
        } else {
            self
        }
    }

    /// The state after the read of a file ended, with its contents if it succeeded.
    pub open spec fn finished(self, path: Seq<char>, outcome: Option<Seq<u8>>) -> SlotView {
        SlotView {
            cache: match outcome {
                Some(bytes) => self.cache.insert(path, bytes),
                None => self.cache,
            },
            inflight: self.inflight.remove(path),
        }
    }
}

/// The contents that a read gave, if it succeeded.
pub open spec fn loaded_contents(outcome: Result<Bytes, String>) -> Option<Seq<u8>> {
    match outcome {
        Ok(bytes) => Some(bytes@),
        Err(_) => None,
    }
}

/// What to do for a file that was asked for.
pub enum LoadStep {
    /// Use these contents, which were read before.
    Cached(Bytes),
    /// Wait for the read that is under way, and share its outcome.
    Join,
    /// Read the file, and report how it ended.
    Read,
}

impl LoadStep {
    /// Whether this is what to do when a file is asked for in the given state.
    pub open spec fn answers(self, state: SlotView, path: Seq<char>) -> bool {
        match self {
            LoadStep::Cached(bytes) => state.cached(path) == Some(bytes@),
            LoadStep::Join => state.cached(path) is None && state.inflight.contains(path),
            LoadStep::Read => state.calls_for_read(path),
        }
    }
}

/// The files of one kind.
pub struct Slot {
    cache: Vec<(String, Bytes)>,
    inflight: NameSet,
}

/// The map that a list of pairs stands for; a later pair replaces an earlier one.
pub closed spec fn map_of(v: Seq<(String, Bytes)>) -> Map<Seq<char>, Seq<u8>>
    decreases v.len(),
{
    if v.len() == 0 {
        Map::empty()
    } else {
        map_of(v.drop_last()).insert(v.last().0@, v.last().1@)
    }
}

impl View for Slot {
    type V = SlotView;

    closed spec fn view(&self) -> SlotView {
        SlotView { cache: map_of(self.cache@), inflight: self.inflight@ }
    }
}

impl Slot {
    /// A slot that knows no file.
    pub fn new() -> (r: Self)
        ensures
            r@ == SlotView::empty(),
    {
        Slot { cache: Vec::new(), inflight: NameSet::new() }
    }

    /// The contents of a file, if it was read.
    pub fn get_cached(&self, path: &str) -> (r: Option<Bytes>)
        ensures
            contents(r) == self@.cached(path@),
    {
        let mut i: usize = self.cache.len();
        assert(self.cache@.take(i as int) == self.cache@);
        while i > 0
            invariant
                i <= self.cache.len(),
                map_of(self.cache@.take(i as int)).contains_key(path@) == map_of(
                    self.cache@,
                ).contains_key(path@),
                map_of(self.cache@).contains_key(path@) ==> map_of(
                    self.cache@.take(i as int),
                )[path@] == map_of(self.cache@)[path@],
            decreases i,
        {
            assert(self.cache@.take(i as int).drop_last() == self.cache@.take(i - 1));
            if text::same(self.cache[i - 1].0.as_str(), path) {
                return Some(self.cache[i - 1].1.clone());
            }
            i -= 1;
        }
        None
    }

    /// What to do for a file that is asked for. Of several requests for one file, only the first
    /// reads it.
    pub fn begin(&mut self, path: &str) -> (r: LoadStep)
        ensures
            final(self)@ == old(self)@.begun(path@),
            r.answers(old(self)@, path@),
    {
        if let Some(bytes) = self.get_cached(path) {
            return LoadStep::Cached(bytes);
        }
        if self.inflight.insert(path) {
            LoadStep::Read
        } else {
            LoadStep::Join
        }
    }

    /// Keeps the contents of a file.
    pub fn store(&mut self, path: &str, bytes: Bytes)
        ensures
            final(self)@ == (SlotView {
                cache: old(self)@.cache.insert(path@, bytes@),
                ..old(self)@
            }),
    {
        self.cache.push((path.to_owned(), bytes));
        assert(self.cache@.drop_last() == old(self).cache@);
    }

    /// Forgets that a file is being read.
    pub fn clear_inflight(&mut self, path: &str)
        ensures
            final(self)@ == (SlotView {
                inflight: old(self)@.inflight.remove(path@),
                ..old(self)@
            }),
    {
        let _ = self.inflight.remove(path);
    }

    /// Takes note of how the read of a file ended, with the reason if it failed: its contents are
    /// kept if it succeeded, and in either case the file is no longer being read. What is returned
    /// goes to everyone who asked for the file.
    pub fn finish(&mut self, path: &str, outcome: Result<Bytes, String>) -> (r: Result<
        Bytes,
        TlsError,
    >)
        ensures
            final(self)@ == old(self)@.finished(path@, loaded_contents(outcome)),
            match outcome {
                Ok(bytes) => r matches Ok(b) && b == bytes,
                Err(cause) => r matches Err(TlsError::UnreadableFile(p, c)) && p@ == path@ && c
                    == cause,
            },
    {
        let r = match outcome {
            Ok(bytes) => {
                self.store(path, bytes.clone());
                Ok(bytes)
            },
            Err(cause) => Err(TlsError::UnreadableFile(path.to_owned(), cause)),
        };
        self.clear_inflight(path);
        r
    }
}

/// Something that happens to a slot.
pub enum SlotEvent {
    /// A file is asked for.
    Begin(Seq<char>),
    /// The read of a file ends, with its contents if it succeeded.
    Finish(Seq<char>, Option<Seq<u8>>),
}

/// The state after a course of events.
pub open spec fn slot_after(state: SlotView, events: Seq<SlotEvent>) -> SlotView
    decreases events.len(),
{
    if events.len() == 0 {
        state
    } else {
        match events.last() {
            SlotEvent::Begin(path) => slot_after(state, events.drop_last()).begun(path),
            SlotEvent::Finish(path, outcome) => slot_after(state, events.drop_last()).finished(
                path,
                outcome,
            ),
        }
    }
}

/// Whether each read that ends in a course of events was called for and has not ended before.
pub open spec fn reads_are_paired(state: SlotView, events: Seq<SlotEvent>) -> bool
    decreases events.len(),
{
    events.len() == 0 || {
        &&& reads_are_paired(state, events.drop_last())
        &&& match events.last() {
            SlotEvent::Begin(_) => true,
            SlotEvent::Finish(path, _) => slot_after(state, events.drop_last()).inflight.contains(
                path,
            ),
        }
    }
}

/// A file that was read once is never read again: whatever happens afterwards, its contents stay
/// available, and asking for it again finds them.
pub proof fn a_file_is_read_once(state: SlotView, path: Seq<char>, events: Seq<SlotEvent>)
    requires
        state.cached(path) is Some,
        !state.inflight.contains(path),
        reads_are_paired(state, events),
    ensures
        slot_after(state, events).cached(path) == state.cached(path),
        !slot_after(state, events).inflight.contains(path),
        !slot_after(state, events).calls_for_read(path),
    decreases events.len(),
{
    if events.len() > 0 {
        a_file_is_read_once(state, path, events.drop_last());
    }
}

/// After a read succeeded its contents are available; after it failed the next request reads again.
/// While it lasts, no further request reads.
pub proof fn outcome_of_a_read(state: SlotView, path: Seq<char>, bytes: Seq<u8>)
    requires
        state.calls_for_read(path),
    ensures
        !state.begun(path).calls_for_read(path),
        state.begun(path).finished(path, Some(bytes)).cached(path) == Some(bytes),
        !state.begun(path).finished(path, Some(bytes)).calls_for_read(path),
        state.begun(path).finished(path, None) == state,
{
    assert(state.inflight.insert(path).remove(path) =~= state.inflight);
}

} // verus!
