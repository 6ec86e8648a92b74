//! Reading the columns that a column dictionary lists.

use crate::columnar::column_handle::{
    column_handle_from_entry, entry_read, Column, DynamicColumnHandle, Handle,
};
use crate::columnar::dictionary::{Entry, Listing, Position, Streamer};
use crate::columnar::format_version::Version;
use crate::common::error::{Error, ErrorView};
use crate::common::file_slice::FileSlice;
use vstd::prelude::*;

verus! {

/// The number of leading entries that stand for a column.
pub open spec fn num_readable(
    entries: Seq<Entry>,
    column_data: Seq<u8>,
    format_version: Version,
) -> nat
    decreases entries.len(),
{
    if entries.len() > 0 && entry_read(entries[0], column_data, format_version) is Ok {
        1 + num_readable(entries.skip(1), column_data, format_version)
    } else {
        0
    }
}

/// The columns up to the first entry that stands for none.
pub open spec fn readable_columns(
    entries: Seq<Entry>,
    column_data: Seq<u8>,
    format_version: Version,
) -> Seq<Column> {
    Seq::new(
        num_readable(entries, column_data, format_version),
        |i: int| entry_read(entries[i], column_data, format_version)->Ok_0,
    )
}

/// What ends the reading of a listing early, if anything does: the first entry that
/// stands for no column, or else the error behind the entries.
pub open spec fn listing_failure(
    listing: Listing,
    column_data: Seq<u8>,
    format_version: Version,
) -> Option<ErrorView> {
    let readable = num_readable(listing.entries, column_data, format_version);
    if readable < listing.entries.len() {
        Some(entry_read(listing.entries[readable as int], column_data, format_version)->Err_0)
    } else {
        listing.error
    }
}

/// What reading all columns of a listing returns.
pub open spec fn columns_read(
    listing: Listing,
    column_data: Seq<u8>,
    format_version: Version,
) -> Result<Seq<Column>, ErrorView> {
    match listing_failure(listing, column_data, format_version) {
        Some(error) => Err(error),
        None => Ok(readable_columns(listing.entries, column_data, format_version)),
    }
}

/// What iterating over a listing yields: the columns, and at last the error that
/// ends the reading early, if any.
pub open spec fn columns_yielded(
    listing: Listing,
    column_data: Seq<u8>,
    format_version: Version,
) -> Seq<Result<Column, ErrorView>> {
    let columns = readable_columns(listing.entries, column_data, format_version).map_values(
        |column: Column| Ok::<Column, ErrorView>(column),
    );
    match listing_failure(listing, column_data, format_version) {
        Some(error) => columns.push(Err(error)),
        None => columns,
    }
}

/// The handles of columns.
pub open spec fn handles_of(columns: Seq<Column>) -> Seq<Handle> {
    columns.map_values(|column: Column| column.handle)
}

/// The views of handles.
pub open spec fn handle_views(handles: Seq<DynamicColumnHandle>) -> Seq<Handle> {
    handles.map_values(|handle: DynamicColumnHandle| handle@)
}

/// The views of named handles.
pub open spec fn column_views(columns: Seq<(String, DynamicColumnHandle)>) -> Seq<Column> {
    columns.map_values(
        |column: (String, DynamicColumnHandle)| Column { name: column.0@, handle: column.1@ },
    )
}

/// How reading one more entry adds to what was read.
proof fn lemma_read_first(listing: Listing, column_data: Seq<u8>, format_version: Version)
    requires
        listing.entries.len() > 0,
    ensures
        match entry_read(listing.entries[0], column_data, format_version) {
            Ok(column) => {
                let rest = Listing { entries: listing.entries.skip(1), ..listing };
                &&& listing_failure(listing, column_data, format_version) == listing_failure(
                    rest,
                    column_data,
                    format_version,
                )
                &&& readable_columns(listing.entries, column_data, format_version) == seq![column]
                    + readable_columns(rest.entries, column_data, format_version)
            },
            Err(error) => {
                &&& listing_failure(listing, column_data, format_version) == Some(error)
                &&& readable_columns(listing.entries, column_data, format_version) == Seq::<
                    Column,
                >::empty()
            },
        },
{
    let entries = listing.entries;
    if entry_read(entries[0], column_data, format_version) is Ok {
        let rest = entries.skip(1);
        let column = entry_read(entries[0], column_data, format_version)->Ok_0;
        lemma_num_readable(rest, column_data, format_version);
        assert(readable_columns(entries, column_data, format_version) =~= seq![column]
            + readable_columns(rest, column_data, format_version));
    }
}

proof fn lemma_num_readable(entries: Seq<Entry>, column_data: Seq<u8>, format_version: Version)
    ensures
        num_readable(entries, column_data, format_version) <= entries.len(),
        forall|i: int|
            0 <= i < num_readable(entries, column_data, format_version) ==> entry_read(
                #[trigger] entries[i],
                column_data,
                format_version,
            ) is Ok,
        num_readable(entries, column_data, format_version) < entries.len() ==> entry_read(
            entries[num_readable(entries, column_data, format_version) as int],
            column_data,
            format_version,
        ) is Err,
    decreases entries.len(),
{
    if entries.len() > 0 && entry_read(entries[0], column_data, format_version) is Ok {
        let rest = entries.skip(1);
        lemma_num_readable(rest, column_data, format_version);
        assert forall|i: int|
            0 <= i < num_readable(entries, column_data, format_version) implies entry_read(
            #[trigger] entries[i],
            column_data,
            format_version,
        ) is Ok by {
            if i > 0 {
                assert(entries[i] == rest[i - 1]);
            }
        }
    }
}

/// The columns of a listing can be read exactly if each entry stands for a column
/// and no error is met; then there is one column for each entry, in order.
pub proof fn law_all_or_nothing(listing: Listing, column_data: Seq<u8>, format_version: Version)
    ensures
        columns_read(listing, column_data, format_version) is Ok <==> (listing.error is None && (
        forall|i: int|
            0 <= i < listing.entries.len() ==> entry_read(
                #[trigger] listing.entries[i],
                column_data,
                format_version,
            ) is Ok)),
        columns_read(listing, column_data, format_version) matches Ok(columns) ==> {
            &&& columns.len() == listing.entries.len()
            &&& forall|i: int|
                0 <= i < columns.len() ==> entry_read(
                    listing.entries[i],
                    column_data,
                    format_version,
                ) == Ok::<Column, ErrorView>(#[trigger] columns[i])
        },
{
    lemma_num_readable(listing.entries, column_data, format_version);
}

/// An iteration over a listing yields errors at its end alone, and what it yields is
/// what reading the listing at once returns.
pub proof fn law_iteration_stops_at_the_first_error(
    listing: Listing,
    column_data: Seq<u8>,
    format_version: Version,
)
    ensures
        ({
            let yielded = columns_yielded(listing, column_data, format_version);
            &&& forall|i: int| 0 <= i < yielded.len() - 1 ==> (#[trigger] yielded[i]) is Ok
            &&& match columns_read(listing, column_data, format_version) {
                Ok(columns) => {
                    &&& yielded.len() == columns.len()
                    &&& forall|i: int|
                        0 <= i < columns.len() ==> yielded[i] == Ok::<Column, ErrorView>(
                            #[trigger] columns[i],
                        )
                },
                Err(error) => yielded.len() > 0 && yielded.last() == Err::<Column, ErrorView>(
                    error,
                ),
            }
        }),
{
}

/// An iterator over the columns of a columnar file.
pub struct ColumnIter<'a> {
    stream: Streamer<'a>,
    finished: bool,
    column_data: &'a FileSlice,
    format_version: Version,
}

/// What a stream is yet to list.
pub open spec fn to_come(position: Position) -> Listing {
    Listing {
        entries: position.entries,
        error: if position.pending is Some {
            position.pending
        } else {
            position.met
        },
    }
}

impl<'a> View for ColumnIter<'a> {
    type V = Seq<Result<Column, ErrorView>>;

    /// What the iterator is yet to yield.
    closed spec fn view(&self) -> Seq<Result<Column, ErrorView>> {
        if self.finished {
            Seq::empty()
        } else {
            columns_yielded(to_come(self.stream@), self.column_data@, self.format_version)
        }
    }
}

impl<'a> ColumnIter<'a> {
    /// An iterator over the columns that `stream` is yet to list.
    pub(crate) fn new(
        stream: Streamer<'a>,
        column_data: &'a FileSlice,
        format_version: Version,
    ) -> (columns: ColumnIter<'a>)
        ensures
            columns@ == columns_yielded(to_come(stream@), column_data@, format_version),
    {
        ColumnIter { stream, finished: false, column_data, format_version }
    }

    /// The next column, or the error that ends the iteration.
    pub fn next(&mut self) -> (item: Option<Result<(String, DynamicColumnHandle), Error>>)
        ensures
            match item {
                Some(Ok((name, handle))) => {
                    &&& old(self)@.len() > 0
                    &&& old(self)@[0] == Ok::<Column, ErrorView>(
                        Column { name: name@, handle: handle@ },
                    )
                    &&& final(self)@ == old(self)@.skip(1)
                },
                Some(Err(error)) => {
                    &&& old(self)@.len() == 1
                    &&& old(self)@[0] == Err::<Column, ErrorView>(error@)
                    &&& final(self)@ == Seq::<Result<Column, ErrorView>>::empty()
                },
                None => {
                    &&& old(self)@.len() == 0
                    &&& final(self)@ == old(self)@
                },
            },
    {
        if self.finished {
            return None;
        }
        let ghost listing = to_come(self.stream@);
        if self.stream.advance() {
            proof {
                lemma_read_first(listing, self.column_data@, self.format_version);
            }
            let entry: Result<(String, DynamicColumnHandle), Error> = column_handle_from_entry(
                self.stream.key(),
                self.stream.value(),
                self.column_data,
                self.format_version,
            );
            self.finished = entry.is_err();
            proof {
                if entry is Ok {
                    assert(self@ =~= old(self)@.skip(1));
                }
            }
            Some(entry)
        } else {
            self.finished = true;
            // `advance` returns false at the end of the stream and on a
            // corrupt block alike; only the latter leaves an error behind.
            match self.stream.take_error() {
                Some(error) => Some(Err(error)),
                None => None,
            }
        }
    }
}

/// Reads all columns that a stream of the column dictionary lists.
pub fn read_all_columns_in_stream(
    stream: Streamer<'_>,
    column_data: &FileSlice,
    format_version: Version,
) -> (handles: Result<Vec<DynamicColumnHandle>, Error>)
    ensures
        match handles {
            Ok(handles) => {
                &&& columns_read(to_come(stream@), column_data@, format_version) is Ok
                &&& handle_views(handles@) == handles_of(
                    columns_read(to_come(stream@), column_data@, format_version)->Ok_0,
                )
            },
            Err(error) => columns_read(to_come(stream@), column_data@, format_version) == Err::<
                Seq<Column>,
                ErrorView,
            >(error@),
        },
{
    let mut cursor = stream;
    let mut results: Vec<DynamicColumnHandle> = Vec::new();
    let ghost whole = to_come(stream@);
    let ghost all = readable_columns(whole.entries, column_data@, format_version);
    assert(handle_views(results@) + handles_of(all) =~= handles_of(all));
    loop
        invariant_except_break
            listing_failure(whole, column_data@, format_version) == listing_failure(
                to_come(cursor@),
                column_data@,
                format_version,
            ),
            handles_of(all) == handle_views(results@) + handles_of(
                readable_columns(cursor@.entries, column_data@, format_version),
            ),
        invariant
            whole == to_come(stream@),
        ensures
            listing_failure(whole, column_data@, format_version) == cursor@.met,
            handles_of(all) == handle_views(results@),
        decreases cursor@.entries.len(),
    {
        let ghost before = to_come(cursor@);
        if !cursor.advance() {
            assert(handles_of(all) =~= handle_views(results@));
            break;
        }
        proof {
            lemma_read_first(before, column_data@, format_version);
        }
        let ghost read = handle_views(results@);
        let (_column_name, dynamic_column_handle) = column_handle_from_entry(
            cursor.key(),
            cursor.value(),
            column_data,
            format_version,
        )?;
        results.push(dynamic_column_handle);
        assert(handle_views(results@) =~= read.push(dynamic_column_handle@));
        assert(read + handles_of(readable_columns(before.entries, column_data@, format_version))
            =~= handle_views(results@) + handles_of(
            readable_columns(cursor@.entries, column_data@, format_version),
        ));
    }
    // `advance` reports the end of the stream and a corrupt block the same way,
    // so ask which one it was rather than returning a short list as if the
    // columns simply were not there.
    if let Some(error) = cursor.take_error() {
        return Err(error);
    }
    Ok(results)
}

} // verus!
