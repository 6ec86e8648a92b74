//! The dictionary of the columns of a columnar file, and streams over it.

use crate::common::error::{Error, ErrorView};
use std::ops::Range;
use vstd::prelude::*;

verus! {

/// One column: its key, and the bytes of the column data that it takes.
pub struct ColumnEntry {
    /// The name of the column, a zero byte and the code of the column type.
    pub key: Vec<u8>,
    /// Where the column lies in the column data.
    pub range: Range<u64>,
}

/// What the contracts say of an entry.
pub struct Entry {
    pub key: Seq<u8>,
    pub start: u64,
    pub end: u64,
}

impl View for ColumnEntry {
    type V = Entry;

    open spec fn view(&self) -> Entry {
        Entry { key: self.key@, start: self.range.start, end: self.range.end }
    }
}

/// The entries by their views.
pub open spec fn entry_views(entries: Seq<ColumnEntry>) -> Seq<Entry> {
    Seq::new(entries.len(), |i: int| entries[i]@)
}

/// What a dictionary holds: the entries that can be read, in the order of the
/// file, and the error that is met behind them if the file is corrupt there.
pub struct Listing {
    pub entries: Seq<Entry>,
    pub error: Option<ErrorView>,
}

/// The view of an error that may be missing.
pub open spec fn error_view(error: Option<Error>) -> Option<ErrorView> {
    match error {
        Some(error) => Some(error@),
        None => None,
    }
}

/// A column dictionary.
pub struct ColumnDictionary {
    entries: Vec<ColumnEntry>,
    error: Option<Error>,
    num_terms: usize,
}

/// Where a stream stands.
pub struct Position {
    /// The entry that the stream stands on, if any.
    pub current: Option<Entry>,
    /// The entries to come.
    pub entries: Seq<Entry>,
    /// The error to be met behind them, if any.
    pub pending: Option<ErrorView>,
    /// The error that was met, if any.
    pub met: Option<ErrorView>,
}

/// The stream over a listing, before its first entry.
pub open spec fn stream_over(entries: Seq<Entry>, error: Option<ErrorView>) -> Position {
    Position { current: None, entries, pending: error, met: None }
}

/// A stream over a run of entries.
pub struct Streamer<'a> {
    entries: &'a Vec<ColumnEntry>,
    next: usize,
    end: usize,
    on_entry: bool,
    pending: Option<Error>,
    met: Option<Error>,
}

/// Whether `a` comes before `b` in the lexicographic order of bytes.
pub open spec fn key_less(a: Seq<u8>, b: Seq<u8>) -> bool
    decreases a.len(),
{
    if b.len() == 0 {
        false
    } else if a.len() == 0 {
        true
    } else if a[0] != b[0] {
        a[0] < b[0]
    } else {
        key_less(a.skip(1), b.skip(1))
    }
}

/// The number of leading entries whose keys come before `prefix`.
pub open spec fn num_below(entries: Seq<Entry>, prefix: Seq<u8>) -> nat
    decreases entries.len(),
{
    if entries.len() > 0 && key_less(entries[0].key, prefix) {
        1 + num_below(entries.skip(1), prefix)
    } else {
        0
    }
}

/// The number of leading entries whose keys begin with `prefix`.
pub open spec fn num_prefixed(entries: Seq<Entry>, prefix: Seq<u8>) -> nat
    decreases entries.len(),
{
    if entries.len() > 0 && prefix.is_prefix_of(entries[0].key) {
        1 + num_prefixed(entries.skip(1), prefix)
    } else {
        0
    }
}

impl Listing {
    /// Where a scan for `prefix` begins: at the first key that does not come
    /// before it.
    pub open spec fn run_start(self, prefix: Seq<u8>) -> nat {
        num_below(self.entries, prefix)
    }

    /// Where a scan for `prefix` ends: at the first key from there on that does
    /// not begin with it.
    pub open spec fn run_end(self, prefix: Seq<u8>) -> nat {
        self.run_start(prefix) + num_prefixed(
            self.entries.skip(self.run_start(prefix) as int),
            prefix,
        )
    }

    /// What a scan for `prefix` finds. It meets the error only if no other key
    /// ends it.
    pub open spec fn prefixed(self, prefix: Seq<u8>) -> Listing {
        Listing {
            entries: self.entries.subrange(
                self.run_start(prefix) as int,
                self.run_end(prefix) as int,
            ),
            error: if self.run_end(prefix) == self.entries.len() {
                self.error
            } else {
                None
            },
        }
    }

    /// Whether the keys strictly increase, as in every dictionary that was written.
    pub open spec fn sorted(self) -> bool {
        forall|i: int, j: int|
            0 <= i < j < self.entries.len() ==> key_less(
                (#[trigger] self.entries[i]).key,
                (#[trigger] self.entries[j]).key,
            )
    }
}

/// The leading entries whose keys come before `prefix`.
pub proof fn lemma_num_below(entries: Seq<Entry>, prefix: Seq<u8>)
    ensures
        num_below(entries, prefix) <= entries.len(),
        forall|i: int|
            0 <= i < num_below(entries, prefix) ==> key_less(
                (#[trigger] entries[i]).key,
                prefix,
            ),
        num_below(entries, prefix) < entries.len() ==> !key_less(
            entries[num_below(entries, prefix) as int].key,
            prefix,
        ),
    decreases entries.len(),
{
    if entries.len() > 0 && key_less(entries[0].key, prefix) {
        let rest = entries.skip(1);
        lemma_num_below(rest, prefix);
        assert forall|i: int| 0 <= i < num_below(entries, prefix) implies key_less(
            (#[trigger] entries[i]).key,
            prefix,
        ) by {
            if i > 0 {
                assert(entries[i] == rest[i - 1]);
            }
        }
    }
}

/// The leading entries whose keys begin with `prefix`.
pub proof fn lemma_num_prefixed(entries: Seq<Entry>, prefix: Seq<u8>)
    ensures
        num_prefixed(entries, prefix) <= entries.len(),
        forall|i: int|
            0 <= i < num_prefixed(entries, prefix) ==> prefix.is_prefix_of(
                (#[trigger] entries[i]).key,
            ),
        num_prefixed(entries, prefix) < entries.len() ==> !prefix.is_prefix_of(
            entries[num_prefixed(entries, prefix) as int].key,
        ),
    decreases entries.len(),
{
    if entries.len() > 0 && prefix.is_prefix_of(entries[0].key) {
        let rest = entries.skip(1);
        lemma_num_prefixed(rest, prefix);
        assert forall|i: int| 0 <= i < num_prefixed(entries, prefix) implies prefix.is_prefix_of(
            (#[trigger] entries[i]).key,
        ) by {
            if i > 0 {
                assert(entries[i] == rest[i - 1]);
            }
        }
    }
}

/// A scan stays within the dictionary.
pub proof fn lemma_run_bounds(listing: Listing, prefix: Seq<u8>)
    ensures
        listing.run_start(prefix) <= listing.run_end(prefix) <= listing.entries.len(),
{
    lemma_num_below(listing.entries, prefix);
    lemma_num_prefixed(listing.entries.skip(listing.run_start(prefix) as int), prefix);
}

/// No key comes before itself.
pub proof fn lemma_less_is_irreflexive(key: Seq<u8>)
    ensures
        !key_less(key, key),
    decreases key.len(),
{
    if key.len() > 0 {
        lemma_less_is_irreflexive(key.skip(1));
    }
}

proof fn lemma_less_is_transitive(a: Seq<u8>, b: Seq<u8>, c: Seq<u8>)
    requires
        key_less(a, b),
        key_less(b, c),
    ensures
        key_less(a, c),
    decreases a.len(),
{
    if a.len() > 0 && a[0] == b[0] && b[0] == c[0] {
        lemma_less_is_transitive(a.skip(1), b.skip(1), c.skip(1));
    }
}

/// A key that begins with `prefix` does not come before it.
proof fn lemma_prefixed_is_not_below(prefix: Seq<u8>, key: Seq<u8>)
    requires
        prefix.is_prefix_of(key),
    ensures
        !key_less(key, prefix),
    decreases prefix.len(),
{
    if prefix.len() > 0 {
        assert(key[0] == key.subrange(0, prefix.len() as int)[0]);
        assert(prefix.skip(1) =~= key.skip(1).subrange(0, prefix.len() - 1)) by {
            assert(prefix =~= key.subrange(0, prefix.len() as int));
            assert forall|i: int| 0 <= i < prefix.len() - 1 implies prefix.skip(1)[i]
                == key.skip(1).subrange(0, prefix.len() - 1)[i] by {
                assert(prefix[i + 1] == key.subrange(0, prefix.len() as int)[i + 1]);
            }
        }
        lemma_prefixed_is_not_below(prefix.skip(1), key.skip(1));
    }
}

/// Behind a key that is past all that begin with `prefix`, no key begins with it.
proof fn lemma_past_prefix(prefix: Seq<u8>, past: Seq<u8>, key: Seq<u8>)
    requires
        !key_less(past, prefix),
        !prefix.is_prefix_of(past),
        key_less(past, key),
    ensures
        !prefix.is_prefix_of(key),
    decreases prefix.len(),
{
    if prefix.is_prefix_of(key) {
        if prefix.len() == 0 {
            assert(prefix =~= past.subrange(0, 0));
        } else {
            assert(prefix[0] == key.subrange(0, prefix.len() as int)[0]);
            assert(past[0] == prefix[0]);
            let len = prefix.len() - 1;
            assert(prefix.skip(1) =~= key.skip(1).subrange(0, len)) by {
                assert forall|i: int| 0 <= i < len implies prefix.skip(1)[i] == key.skip(
                    1,
                ).subrange(0, len)[i] by {
                    assert(prefix[i + 1] == key.subrange(0, prefix.len() as int)[i + 1]);
                }
            }
            if prefix.skip(1).is_prefix_of(past.skip(1)) {
                assert(prefix =~= past.subrange(0, prefix.len() as int)) by {
                    assert forall|i: int| 0 <= i < prefix.len() implies prefix[i]
                        == past.subrange(0, prefix.len() as int)[i] by {
                        if i > 0 {
                            assert(prefix.skip(1)[i - 1] == past.skip(1).subrange(0, len)[i - 1]);
                        }
                    }
                }
            }
            lemma_past_prefix(prefix.skip(1), past.skip(1), key.skip(1));
        }
    }
}

/// A scan of a dictionary with increasing keys finds the entries whose keys begin
/// with the prefix, and no other.
pub proof fn law_scan_finds_the_prefixed(listing: Listing, prefix: Seq<u8>)
    requires
        listing.sorted(),
    ensures
        forall|i: int|
            0 <= i < listing.entries.len() ==> (prefix.is_prefix_of(
                (#[trigger] listing.entries[i]).key,
            ) <==> listing.run_start(prefix) <= i < listing.run_end(prefix)),
{
    let entries = listing.entries;
    let start = listing.run_start(prefix) as int;
    let end = listing.run_end(prefix) as int;
    let rest = entries.skip(start);
    lemma_run_bounds(listing, prefix);
    lemma_num_below(entries, prefix);
    lemma_num_prefixed(rest, prefix);
    assert forall|i: int| 0 <= i < entries.len() implies (prefix.is_prefix_of(
        (#[trigger] entries[i]).key,
    ) <==> start <= i < end) by {
        if i < start {
            if prefix.is_prefix_of(entries[i].key) {
                lemma_prefixed_is_not_below(prefix, entries[i].key);
            }
        } else if i < end {
            assert(rest[i - start] == entries[i]);
        } else {
            assert(rest[end - start] == entries[end]);
            if start < end {
                assert(rest[0] == entries[start]);
                if key_less(entries[end].key, prefix) {
                    lemma_less_is_transitive(entries[start].key, entries[end].key, prefix);
                }
            }
            if i > end {
                lemma_past_prefix(prefix, entries[end].key, entries[i].key);
            }
        }
    }
}

/// Whether `a` comes before `b` in the lexicographic order of bytes.
fn is_below(a: &[u8], b: &[u8]) -> (below: bool)
    ensures
        below == key_less(a@, b@),
{
    let mut i: usize = 0;
    assert(a@.skip(0) =~= a@ && b@.skip(0) =~= b@);
    while i < a.len() && i < b.len() && a[i] == b[i]
        invariant
            i <= a@.len(),
            i <= b@.len(),
            key_less(a@, b@) == key_less(a@.skip(i as int), b@.skip(i as int)),
        decreases a@.len() - i,
    {
        assert(a@.skip(i as int).skip(1) =~= a@.skip(i + 1));
        assert(b@.skip(i as int).skip(1) =~= b@.skip(i + 1));
        i += 1;
    }
    if i == b.len() {
        false
    } else if i == a.len() {
        true
    } else {
        a[i] < b[i]
    }
}

/// Whether `key` begins with `prefix`.
fn has_prefix(key: &[u8], prefix: &[u8]) -> (prefixed: bool)
    ensures
        prefixed == prefix@.is_prefix_of(key@),
{
    if prefix.len() > key.len() {
        return false;
    }
    let mut i: usize = 0;
    while i < prefix.len()
        invariant
            i <= prefix@.len() <= key@.len(),
            forall|k: int| 0 <= k < i ==> prefix@[k] == key@[k],
        decreases prefix@.len() - i,
    {
        if prefix[i] != key[i] {
            assert(key@.subrange(0, prefix@.len() as int)[i as int] == key@[i as int]);
            return false;
        }
        i += 1;
    }
    assert(prefix@ =~= key@.subrange(0, prefix@.len() as int));
    true
}

fn duplicate_error(error: &Option<Error>) -> (copy: Option<Error>)
    ensures
        error_view(copy) == error_view(*error),
{
    match error {
        Some(error) => Some(error.duplicate()),
        None => None,
    }
}

impl View for ColumnDictionary {
    type V = Listing;

    closed spec fn view(&self) -> Listing {
        Listing { entries: entry_views(self.entries@), error: error_view(self.error) }
    }
}

impl ColumnDictionary {
    /// The number of entries that the dictionary was written with.
    pub closed spec fn terms(self) -> usize {
        self.num_terms
    }

    /// A dictionary of `num_terms` entries of which `entries` can be read, in this
    /// order, before `error` is met.
    pub fn new(entries: Vec<ColumnEntry>, error: Option<Error>, num_terms: usize) -> (dictionary:
        ColumnDictionary)
        ensures
            dictionary@ == (Listing {
                entries: entry_views(entries@),
                error: error_view(error),
            }),
            dictionary.terms() == num_terms,
    {
        ColumnDictionary { entries, error, num_terms }
    }

    /// The number of entries that the dictionary was written with.
    pub fn num_terms(&self) -> (num_terms: usize)
        ensures
            num_terms == self.terms(),
    {
        self.num_terms
    }

    /// A stream over all entries.
    pub fn stream(&self) -> (stream: Streamer<'_>)
        ensures
            stream@ == stream_over(self@.entries, self@.error),
    {
        let stream = Streamer {
            entries: &self.entries,
            next: 0,
            end: self.entries.len(),
            on_entry: false,
            pending: duplicate_error(&self.error),
            met: None,
        };
        assert(stream@.entries =~= self@.entries);
        stream
    }

    /// A stream over the entries whose keys begin with `prefix`: from the first key
    /// that does not come before `prefix`, up to the first one from there on that
    /// does not begin with it.
    pub fn prefix_range(&self, prefix: &[u8]) -> (stream: Streamer<'_>)
        ensures
            stream@ == stream_over(
                self@.prefixed(prefix@).entries,
                self@.prefixed(prefix@).error,
            ),
    {
        let ghost entries = self@.entries;
        let mut start: usize = 0;
        assert(entries.skip(0) =~= entries);
        while start < self.entries.len() && is_below(self.entries[start].key.as_slice(), prefix)
            invariant
                entries == entry_views(self.entries@),
                start <= entries.len(),
                num_below(entries, prefix@) == start + num_below(
                    entries.skip(start as int),
                    prefix@,
                ),
            decreases entries.len() - start,
        {
            assert(entries.skip(start as int).skip(1) =~= entries.skip(start + 1));
            start += 1;
        }
        let mut end: usize = start;
        while end < self.entries.len() && has_prefix(self.entries[end].key.as_slice(), prefix)
            invariant
                entries == entry_views(self.entries@),
                start <= end <= entries.len(),
                num_prefixed(entries.skip(start as int), prefix@) == end - start + num_prefixed(
                    entries.skip(end as int),
                    prefix@,
                ),
            decreases entries.len() - end,
        {
            assert(entries.skip(end as int).skip(1) =~= entries.skip(end + 1));
            end += 1;
        }
        let pending: Option<Error> = if end == self.entries.len() {
            duplicate_error(&self.error)
        } else {
            None
        };
        let stream = Streamer {
            entries: &self.entries,
            next: start,
            end,
            on_entry: false,
            pending,
            met: None,
        };
        assert(stream@.entries =~= self@.prefixed(prefix@).entries);
        stream
    }
}

impl<'a> View for Streamer<'a> {
    type V = Position;

    closed spec fn view(&self) -> Position {
        Position {
            current: if self.on_entry {
                Some(self.entries@[self.next - 1]@)
            } else {
                None
            },
            entries: entry_views(self.entries@).subrange(self.next as int, self.end as int),
            pending: error_view(self.pending),
            met: error_view(self.met),
        }
    }
}

impl<'a> Streamer<'a> {
    #[verifier::type_invariant]
    spec fn in_bounds(self) -> bool {
        &&& self.next <= self.end <= self.entries@.len()
        &&& self.on_entry ==> self.next > 0
    }

    /// Moves to the next entry. Returns false at the end of the stream and on a
    /// corrupt block alike; only the latter leaves an error behind.
    pub fn advance(&mut self) -> (advanced: bool)
        ensures
            advanced == (old(self)@.entries.len() > 0),
            final(self)@ == (if old(self)@.entries.len() > 0 {
                Position {
                    current: Some(old(self)@.entries[0]),
                    entries: old(self)@.entries.skip(1),
                    ..old(self)@
                }
            } else {
                Position {
                    current: None,
                    pending: None,
                    met: if old(self)@.pending is Some {
                        old(self)@.pending
                    } else {
                        old(self)@.met
                    },
                    ..old(self)@
                }
            }),
    {
        proof {
            use_type_invariant(&*self);
        }
        if self.next < self.end {
            self.next = self.next + 1;
            self.on_entry = true;
            assert(self@.entries =~= old(self)@.entries.skip(1));
            true
        } else {
            self.on_entry = false;
            let pending: Option<Error> = duplicate_error(&self.pending);
            self.pending = None;
            if pending.is_some() {
                self.met = pending;
            }
            assert(self@.entries =~= old(self)@.entries);
            false
        }
    }

    /// The key of the current entry.
    pub fn key(&self) -> (key: &'a [u8])
        requires
            self@.current is Some,
        ensures
            key@ == self@.current->0.key,
    {
        proof {
            use_type_invariant(self);
        }
        self.entries[self.next - 1].key.as_slice()
    }

    /// The value of the current entry.
    pub fn value(&self) -> (range: &'a Range<u64>)
        requires
            self@.current is Some,
        ensures
            range.start == self@.current->0.start,
            range.end == self@.current->0.end,
    {
        proof {
            use_type_invariant(self);
        }
        &self.entries[self.next - 1].range
    }

    /// Takes the error that the stream has met, if any.
    pub fn take_error(&mut self) -> (error: Option<Error>)
        ensures
            error_view(error) == old(self)@.met,
            final(self)@ == (Position { met: None, ..old(self)@ }),
    {
        proof {
            use_type_invariant(&*self);
        }
        let error: Option<Error> = duplicate_error(&self.met);
        self.met = None;
        error
    }
}

} // verus!
