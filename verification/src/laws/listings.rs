//! Laws of the column dictionary: the order of its keys, the streams over it, and the
//! columns that its entries stand for.

use crate::columnar::column_handle::{
    column_handle_from_entry, column_key, entry_read, Column, DynamicColumnHandle,
};
use crate::columnar::column_type::{law_code_roundtrip, ColumnType, InvalidData};
use crate::columnar::columns::{
    column_views, columns_yielded, handle_views, handles_of,
    law_iteration_stops_at_the_first_error, listing_failure, num_readable,
    read_all_columns_in_stream, readable_columns, to_come, ColumnIter,
};
use crate::columnar::dictionary::{
    key_less, law_scan_finds_the_prefixed, lemma_num_below, lemma_num_prefixed, lemma_run_bounds,
    ColumnDictionary, ColumnEntry, Entry, Listing, Streamer,
};
use crate::columnar::format_version::Version;
use crate::columnar::layout::ColumnarParts;
use crate::columnar::reader::{law_list_columns_gives_all, ColumnarReader};
use crate::columnar::text::{debug_quoted, read_text};
use crate::common::decimal::to_decimal;
use crate::common::error::{Error, ErrorKind, ErrorView};
use crate::common::file_slice::FileSlice;
use std::ops::Range;
use vstd::prelude::*;
use vstd::utf8::encode_utf8;

verus! {

/// Whether `a` and `b` first differ at `at`, where `a` ends or has the lesser byte.
pub open spec fn less_at(a: Seq<u8>, b: Seq<u8>, at: int) -> bool {
    &&& 0 <= at <= a.len()
    &&& at < b.len()
    &&& a.take(at) == b.take(at)
    &&& at < a.len() ==> a[at] < b[at]
}

/// A key comes before another one exactly if it ends, or has the lesser byte, where they
/// first differ.
pub proof fn law_key_order(a: Seq<u8>, b: Seq<u8>)
    ensures
        key_less(a, b) <==> exists|at: int| #[trigger] less_at(a, b, at),
    decreases a.len(),
{
    if b.len() > 0 && a.len() > 0 && a[0] == b[0] {
        let a1 = a.skip(1);
        let b1 = b.skip(1);
        law_key_order(a1, b1);
        if key_less(a1, b1) {
            let at = choose|at: int| #[trigger] less_at(a1, b1, at);
            let len = at + 1;
            assert forall|i: int| 0 <= i < len implies a.take(len)[i] == b.take(len)[i] by {
                if i > 0 {
                    assert(a1.take(at)[i - 1] == b1.take(at)[i - 1]);
                }
            }
            assert(a.take(at + 1) =~= b.take(at + 1));
            assert(less_at(a, b, at + 1));
        }
        if exists|at: int| #[trigger] less_at(a, b, at) {
            let at = choose|at: int| #[trigger] less_at(a, b, at);
            let len = at - 1;
            assert forall|i: int| 0 <= i < len implies a1.take(len)[i] == b1.take(len)[i] by {
                assert(a.take(at)[i + 1] == b.take(at)[i + 1]);
            }
            assert(a1.take(at - 1) =~= b1.take(at - 1));
            assert(less_at(a1, b1, at - 1));
        }
    } else {
        if key_less(a, b) {
            assert(a.take(0) =~= b.take(0));
            assert(less_at(a, b, 0));
        }
        if exists|at: int| #[trigger] less_at(a, b, at) {
            let at = choose|at: int| #[trigger] less_at(a, b, at);
            if at > 0 {
                assert(a.take(at)[0] == b.take(at)[0]);
            }
        }
    }
}

/// A columnar is made up of entries whose keys are the name of a column, a zero byte and
/// the code of its type, in increasing order, with ranges in the column data. Its reader
/// holds columns of these names and types.
pub proof fn law_entries_make_columns(
    names: Seq<Seq<char>>,
    types: Seq<ColumnType>,
    codes: Seq<u8>,
    entries: Vec<ColumnEntry>,
    dictionary: ColumnDictionary,
    parts: ColumnarParts,
    reader: ColumnarReader,
)
    requires
        names.len() == entries@.len() <= usize::MAX,
        types.len() == entries@.len(),
        codes.len() == entries@.len(),
        forall|i: int|
            0 <= i < entries@.len() ==> {
                &&& !(#[trigger] names[i]).contains('\0')
                &&& call_ensures(ColumnType::to_code, (types[i],), codes[i])
                &&& entries@[i].key@ == encode_utf8(names[i]) + seq![0u8, codes[i]]
                &&& entries@[i].range.start <= entries@[i].range.end <= parts.column_data@.len()
            },
        forall|i: int, j: int|
            0 <= i < j < entries@.len() ==> exists|at: int|
                less_at(
                    (#[trigger] entries@[i]).key@,
                    (#[trigger] entries@[j]).key@,
                    at,
                ),
        call_ensures(
            ColumnDictionary::new,
            (entries, None::<Error>, entries@.len() as usize),
            dictionary,
        ),
        call_ensures(ColumnarReader::from_parts, (parts, dictionary), reader),
    ensures
        reader@.holds(names, types),
        forall|i: int|
            0 <= i < entries@.len() ==> {
                &&& (#[trigger] reader@.listing.entries[i]).start == entries@[i].range.start
                &&& reader@.listing.entries[i].end == entries@[i].range.end
            },
        reader@.column_data == parts.column_data@,
        reader@.format_version == parts.format_version,
{
    let listing = reader@.listing;
    assert forall|i: int, j: int| 0 <= i < j < listing.entries.len() implies key_less(
        (#[trigger] listing.entries[i]).key,
        (#[trigger] listing.entries[j]).key,
    ) by {
        law_key_order(entries@[i].key@, entries@[j].key@);
    }
    assert forall|i: int| 0 <= i < names.len() implies {
        &&& !(#[trigger] names[i]).contains('\0')
        &&& listing.entries[i].key == column_key(
            names[i],
            types[i],
        )
        &&& listing.entries[i].start <= listing.entries[i].end <= reader@.column_data.len()
    } by {
        assert(entries@[i].key@ == encode_utf8(names[i]) + seq![0u8, codes[i]]);
    }
}

/// What an entry stands for. The last byte of its key is the code of a column type, the
/// one before it a separator, and the bytes in front of these are the name. Its range tells
/// which bytes of the column data are the column. A key that is too short, a code of no
/// type and a range that is not within the column data are refused, in this order.
pub proof fn law_entry(
    key: &[u8],
    range: Range<u64>,
    column_data: FileSlice,
    format_version: Version,
    column: Result<(String, DynamicColumnHandle), Error>,
    column_type: Result<ColumnType, InvalidData>,
    name_bytes: &[u8],
    name: String,
    key_len: String,
    code: String,
    start: String,
    end: String,
    data_len: String,
)
    requires
        call_ensures(
            column_handle_from_entry,
            (key, &range, &column_data, format_version),
            column,
        ),
        key@.len() >= 2 ==> {
            &&& call_ensures(ColumnType::try_from_code, (key@.last(),), column_type)
            &&& name_bytes@ == key@.take(key@.len() - 2)
            &&& call_ensures(to_decimal, (key@.last() as u64,), code)
        },
        call_ensures(read_text, (name_bytes,), name),
        key@.len() < 2 ==> call_ensures(to_decimal, (key@.len() as u64,), key_len),
        call_ensures(to_decimal, (range.start,), start),
        call_ensures(to_decimal, (range.end,), end),
        column_data@.len() <= u64::MAX,
        call_ensures(to_decimal, (column_data@.len() as u64,), data_len),
    ensures
        if key@.len() < 2 {
            &&& column matches Err(error)
            &&& error.kind == ErrorKind::InvalidData
            &&& error.message@ == "column dictionary key is "@ + key_len@
                + " byte(s), too short for the separator and column code"@
        } else if column_type is Err {
            &&& column matches Err(error)
            &&& error.kind == ErrorKind::InvalidData
            &&& error.message@ == "Unknown column code `"@ + code@ + "`"@
        } else if range.start > range.end || range.end > column_data@.len() {
            &&& column matches Err(error)
            &&& error.kind == ErrorKind::InvalidData
            &&& error.message@ == "column "@ + debug_quoted(name@) + " declares bytes "@ + start@
                + ".."@ + end@ + ", outside the "@ + data_len@ + " bytes of column data"@
        } else {
            &&& column matches Ok((column_name, handle))
            &&& column_name@ == name@
            &&& handle@.bytes == column_data@.subrange(range.start as int, range.end as int)
            &&& handle@.column_type == column_type->Ok_0
            &&& handle@.format_version == format_version
        },
{
    if key@.len() >= 2 && column_type is Ok {
        law_code_roundtrip(column_type->Ok_0);
    }
}

/// A stream over a dictionary has all of its entries to come, in order, and its error
/// behind them.
pub proof fn law_stream_lists_all(dictionary: ColumnDictionary, stream: Streamer<'_>)
    requires
        call_ensures(ColumnDictionary::stream, (&dictionary,), stream),
    ensures
        stream@.current is None,
        stream@.entries == dictionary@.entries,
        stream@.pending == dictionary@.error,
        stream@.met is None,
{
}

/// A stream over the keys with a prefix begins at the first key that does not come before
/// the prefix, and ends at the first one from there on that does not begin with it. The
/// error behind all entries is met if the last of them is reached. In a dictionary with
/// increasing keys these are the keys that begin with the prefix, all of them and no other.
///
/// The entries to come are those from the first number that is returned up to the second.
pub proof fn law_stream_with_prefix(
    dictionary: ColumnDictionary,
    prefix: &[u8],
    stream: Streamer<'_>,
) -> (run: (int, int))
    requires
        call_ensures(ColumnDictionary::prefix_range, (&dictionary, prefix), stream),
    ensures
        0 <= run.0 <= run.1 <= dictionary@.entries.len(),
        stream@.current is None,
        stream@.entries == dictionary@.entries.subrange(run.0, run.1),
        stream@.pending == if run.1 == dictionary@.entries.len() {
            dictionary@.error
        } else {
            None
        },
        stream@.met is None,
        forall|i: int|
            0 <= i < run.0 ==> key_less((#[trigger] dictionary@.entries[i]).key, prefix@),
        run.0 < dictionary@.entries.len() ==> !key_less(
            dictionary@.entries[run.0].key,
            prefix@,
        ),
        forall|i: int|
            run.0 <= i < run.1 ==> prefix@.is_prefix_of((#[trigger] dictionary@.entries[i]).key),
        run.1 < dictionary@.entries.len() ==> !prefix@.is_prefix_of(
            dictionary@.entries[run.1].key,
        ),
        (forall|i: int, j: int|
            0 <= i < j < dictionary@.entries.len() ==> key_less(
                (#[trigger] dictionary@.entries[i]).key,
                (#[trigger] dictionary@.entries[j]).key,
            )) ==> forall|i: int|
            0 <= i < dictionary@.entries.len() ==> (run.0 <= i < run.1 <==> prefix@.is_prefix_of(
                (#[trigger] dictionary@.entries[i]).key,
            )),
{
    let listing = dictionary@;
    let start = listing.run_start(prefix@) as int;
    let end = listing.run_end(prefix@) as int;
    lemma_run_bounds(listing, prefix@);
    lemma_run_edges(listing, prefix@);
    if listing.sorted() {
        law_scan_finds_the_prefixed(listing, prefix@);
    }
    (start, end)
}

/// Where the run of a prefix starts and ends.
proof fn lemma_run_edges(listing: Listing, prefix: Seq<u8>)
    ensures
        ({
            let start = listing.run_start(prefix) as int;
            let end = listing.run_end(prefix) as int;
            &&& forall|i: int|
                0 <= i < start ==> key_less((#[trigger] listing.entries[i]).key, prefix)
            &&& start < listing.entries.len() ==> !key_less(listing.entries[start].key, prefix)
            &&& forall|i: int|
                start <= i < end ==> prefix.is_prefix_of((#[trigger] listing.entries[i]).key)
            &&& end < listing.entries.len() ==> !prefix.is_prefix_of(listing.entries[end].key)
        }),
{
    let entries = listing.entries;
    let start = listing.run_start(prefix) as int;
    let end = listing.run_end(prefix) as int;
    let rest = entries.skip(start);
    lemma_run_bounds(listing, prefix);
    lemma_num_below(entries, prefix);
    lemma_num_prefixed(rest, prefix);
    assert forall|i: int| start <= i < end implies prefix.is_prefix_of(
        (#[trigger] entries[i]).key,
    ) by {
        assert(rest[i - start] == entries[i]);
    }
}

/// Advancing a stream moves it to the next entry, whose key and range it then shows. At
/// the end it shows none, and the error that was there to be met can be taken, once.
pub proof fn law_stream_advances(
    stream: &mut Streamer<'_>,
    advanced: bool,
    key: &[u8],
    range: &Range<u64>,
    ended: &mut Streamer<'_>,
    error: Option<Error>,
    again: Option<Error>,
    after: &mut Streamer<'_>,
)
    requires
        call_ensures(Streamer::advance, (stream,), advanced),
        call_ensures(Streamer::key, (&*final(stream),), key),
        call_ensures(Streamer::value, (&*final(stream),), range),
        *ended == *final(stream),
        call_ensures(Streamer::take_error, (ended,), error),
        *after == *final(ended),
        call_ensures(Streamer::take_error, (after,), again),
    ensures
        advanced <==> (*old(stream))@.entries.len() > 0,
        advanced ==> {
            &&& key@ == (*old(stream))@.entries[0].key
            &&& range.start == (*old(stream))@.entries[0].start
            &&& range.end == (*old(stream))@.entries[0].end
            &&& (*final(stream))@.entries == (*old(stream))@.entries.skip(1)
            &&& (*final(stream))@.pending == (*old(stream))@.pending
            &&& (*final(stream))@.met == (*old(stream))@.met
        },
        !advanced ==> {
            let met = if (*old(stream))@.pending is Some {
                (*old(stream))@.pending
            } else {
                (*old(stream))@.met
            };
            &&& (*final(stream))@.current is None
            &&& (*final(stream))@.entries.len() == 0
            &&& (*final(stream))@.pending is None
            &&& match error {
                Some(error) => met == Some((error.kind, error.message@)),
                None => met is None,
            }
        },
        again is None,
        (*final(ended))@.entries == (*old(ended))@.entries,
        (*final(ended))@.current == (*old(ended))@.current,
        (*final(ended))@.pending == (*old(ended))@.pending,
{
}

/// Reading the columns of a stream gives the handle of each entry, in order, if each of
/// them stands for a column and no error is met behind them. If not, the first error there
/// is is returned.
///
/// `columns` are what the entries to come stand for.
pub proof fn law_columns_in_stream(
    stream: Streamer<'_>,
    column_data: FileSlice,
    format_version: Version,
    handles: Result<Vec<DynamicColumnHandle>, Error>,
    keys: Seq<&[u8]>,
    ranges: Seq<Range<u64>>,
    columns: Seq<Result<(String, DynamicColumnHandle), Error>>,
    good: int,
)
    requires
        call_ensures(
            read_all_columns_in_stream,
            (stream, &column_data, format_version),
            handles,
        ),
        keys.len() == stream@.entries.len(),
        ranges.len() == stream@.entries.len(),
        columns.len() == stream@.entries.len(),
        forall|i: int|
            0 <= i < columns.len() ==> {
                &&& keys[i]@ == (#[trigger] stream@.entries[i]).key
                &&& ranges[i].start == stream@.entries[i].start
                &&& ranges[i].end == stream@.entries[i].end
                &&& call_ensures(
                    column_handle_from_entry,
                    (keys[i], &ranges[i], &column_data, format_version),
                    columns[i],
                )
            },
        // the first `good` of them are columns
        0 <= good <= columns.len(),
        forall|i: int| 0 <= i < good ==> (#[trigger] columns[i]) is Ok,
        good < columns.len() ==> columns[good] is Err,
    ensures
        ({
            let met = if stream@.pending is Some {
                stream@.pending
            } else {
                stream@.met
            };
            if good < columns.len() {
                &&& handles matches Err(error)
                &&& error.kind == columns[good]->Err_0.kind
                &&& error.message@ == columns[good]->Err_0.message@
            } else if met is Some {
                &&& handles matches Err(error)
                &&& Some((error.kind, error.message@)) == met
            } else {
                &&& handles matches Ok(handles)
                &&& handles@.len() == columns.len()
                &&& forall|k: int|
                    0 <= k < columns.len() ==> (#[trigger] handles@[k])@ == columns[k]->Ok_0.1@
            }
        }),
{
    let listing = to_come(stream@);
    let data = column_data@;
    assert forall|i: int| 0 <= i < columns.len() implies entry_read(
        #[trigger] listing.entries[i],
        data,
        format_version,
    ) == match columns[i] {
        Ok((name, handle)) => Ok::<Column, ErrorView>(Column { name: name@, handle: handle@ }),
        Err(error) => Err::<Column, ErrorView>(error@),
    } by {
        let entry = stream@.entries[i];
        assert(entry == Entry {
            key: keys[i]@,
            start: ranges[i].start,
            end: ranges[i].end,
        });
    }
    lemma_readable(listing.entries, data, format_version, good);
    if good == columns.len() && listing.error is None {
        let all = readable_columns(listing.entries, data, format_version);
        let found = handles->Ok_0@;
        let views = handle_views(found);
        let wanted = handles_of(all);
        assert(handles is Ok);
        assert(views.len() == wanted.len());
        assert forall|k: int| 0 <= k < columns.len() implies (#[trigger] found[k])@
            == columns[k]->Ok_0.1@ by {
            assert(views[k] == wanted[k]);
            assert(columns[k] is Ok);
            assert(entry_read(listing.entries[k], data, format_version) is Ok);
        }
    }
}

/// The number of leading entries that stand for a column.
proof fn lemma_readable(
    entries: Seq<Entry>,
    column_data: Seq<u8>,
    format_version: Version,
    good: int,
)
    requires
        0 <= good <= entries.len(),
        forall|i: int|
            0 <= i < good ==> entry_read(
                #[trigger] entries[i],
                column_data,
                format_version,
            ) is Ok,
        good < entries.len() ==> entry_read(entries[good], column_data, format_version) is Err,
    ensures
        num_readable(entries, column_data, format_version) == good,
    decreases entries.len(),
{
    if good > 0 {
        let rest = entries.skip(1);
        assert forall|i: int| 0 <= i < good - 1 implies entry_read(
            #[trigger] rest[i],
            column_data,
            format_version,
        ) is Ok by {
            assert(rest[i] == entries[i + 1]);
        }
        assert(entry_read(entries[0], column_data, format_version) is Ok);
        lemma_readable(rest, column_data, format_version, good - 1);
    }
}

/// An iteration over the columns gives each column in order, with its name and its handle,
/// and then nothing more.
///
/// `states` are what the iterator goes through, call by call of `nexts`.
pub proof fn law_iteration(
    reader: ColumnarReader,
    names: Seq<Seq<char>>,
    types: Seq<ColumnType>,
    states: Seq<ColumnIter<'_>>,
    nexts: Seq<&mut ColumnIter<'_>>,
    items: Seq<Option<Result<(String, DynamicColumnHandle), Error>>>,
)
    requires
        reader@.holds(names, types),
        states.len() == items.len() + 1,
        call_ensures(
            ColumnarReader::iter_columns,
            (&reader,),
            Ok::<ColumnIter<'_>, Error>(states[0]),
        ),
        nexts.len() == items.len(),
        forall|i: int|
            0 <= i < items.len() ==> {
                &&& *(#[trigger] nexts[i]) == states[i]
                &&& *final(nexts[i]) == states[i + 1]
                &&& call_ensures(ColumnIter::next, (nexts[i],), items[i])
            },
    ensures
        forall|k: int|
            0 <= k < items.len() ==> if k < names.len() {
                let entry = reader@.listing.entries[k];
                &&& #[trigger] items[k] matches Some(Ok((name, handle)))
                &&& name@ == names[k]
                &&& handle@.bytes == reader@.column_data.subrange(
                    entry.start as int,
                    entry.end as int,
                )
                &&& handle@.column_type == types[k]
                &&& handle@.format_version == reader@.format_version
            } else {
                items[k] is None
            },
{
    let yielded = columns_yielded(reader@.listing, reader@.column_data, reader@.format_version);
    law_list_columns_gives_all(reader@, names, types);
    law_iteration_stops_at_the_first_error(
        reader@.listing,
        reader@.column_data,
        reader@.format_version,
    );
    let run = reader@.run(names, types, 0, reader@.num_terms as int);
    assert forall|k: int| 0 <= k < yielded.len() implies (#[trigger] yielded[k]) == Ok::<
        Column,
        ErrorView,
    >(reader@.column(names, types, k)) by {
        assert(run[k] == reader@.column(names, types, k));
    }
    assert forall|k: int| 0 <= k < items.len() implies if k < names.len() {
        let entry = reader@.listing.entries[k];
        &&& #[trigger] items[k] matches Some(Ok((name, handle)))
        &&& name@ == names[k]
        &&& handle@.bytes == reader@.column_data.subrange(entry.start as int, entry.end as int)
        &&& handle@.column_type == types[k]
        &&& handle@.format_version == reader@.format_version
    } else {
        items[k] is None
    } by {
        lemma_yields(yielded, yielded.len() as int, states, nexts, items, k as nat);
        assert(*nexts[k] == states[k]);
        if k < names.len() {
            assert(states[k]@[0] == yielded[k]);
        }
    }
}

/// What comes of iterating over the columns and of listing them, whatever the dictionary
/// holds. The iteration gives the columns up to the first entry that stands for none, then
/// the error of that entry, or else the error behind all entries, if there is one, and
/// then nothing more. The list holds all columns if no error is met, and is
/// refused with that error if one is.
///
/// `columns` are what the entries stand for, of which the first `good` are columns.
pub proof fn law_listing_ends_at_the_first_error(
    reader: ColumnarReader,
    column_data: FileSlice,
    keys: Seq<&[u8]>,
    ranges: Seq<Range<u64>>,
    columns: Seq<Result<(String, DynamicColumnHandle), Error>>,
    good: int,
    states: Seq<ColumnIter<'_>>,
    nexts: Seq<&mut ColumnIter<'_>>,
    items: Seq<Option<Result<(String, DynamicColumnHandle), Error>>>,
    list: Result<Vec<(String, DynamicColumnHandle)>, Error>,
)
    requires
        column_data@ == reader@.column_data,
        keys.len() == reader@.listing.entries.len(),
        ranges.len() == reader@.listing.entries.len(),
        columns.len() == reader@.listing.entries.len(),
        forall|i: int|
            0 <= i < columns.len() ==> {
                &&& keys[i]@ == (#[trigger] reader@.listing.entries[i]).key
                &&& ranges[i].start == reader@.listing.entries[i].start
                &&& ranges[i].end == reader@.listing.entries[i].end
                &&& call_ensures(
                    column_handle_from_entry,
                    (keys[i], &ranges[i], &column_data, reader@.format_version),
                    columns[i],
                )
            },
        0 <= good <= columns.len(),
        forall|i: int| 0 <= i < good ==> (#[trigger] columns[i]) is Ok,
        good < columns.len() ==> columns[good] is Err,
        // the iteration
        states.len() == items.len() + 1,
        call_ensures(
            ColumnarReader::iter_columns,
            (&reader,),
            Ok::<ColumnIter<'_>, Error>(states[0]),
        ),
        nexts.len() == items.len(),
        forall|i: int|
            0 <= i < items.len() ==> {
                &&& *(#[trigger] nexts[i]) == states[i]
                &&& *final(nexts[i]) == states[i + 1]
                &&& call_ensures(ColumnIter::next, (nexts[i],), items[i])
            },
        // the list
        call_ensures(ColumnarReader::list_columns, (&reader,), list),
    ensures
        forall|k: int|
            0 <= k < items.len() && k < good ==> {
                &&& #[trigger] items[k] matches Some(Ok((name, handle)))
                &&& name@ == columns[k]->Ok_0.0@
                &&& handle@ == columns[k]->Ok_0.1@
            },
        good < items.len() ==> {
            if good < columns.len() {
                &&& items[good] matches Some(Err(error))
                &&& error.kind == columns[good]->Err_0.kind
                &&& error.message@ == columns[good]->Err_0.message@
            } else if reader@.listing.error is Some {
                &&& items[good] matches Some(Err(error))
                &&& Some((error.kind, error.message@)) == reader@.listing.error
            } else {
                items[good] is None
            }
        },
        forall|k: int| good < k < items.len() ==> (#[trigger] items[k]) is None,
        if good < columns.len() {
            &&& list matches Err(error)
            &&& error.kind == columns[good]->Err_0.kind
            &&& error.message@ == columns[good]->Err_0.message@
        } else if reader@.listing.error is Some {
            &&& list matches Err(error)
            &&& Some((error.kind, error.message@)) == reader@.listing.error
        } else {
            &&& list matches Ok(list)
            &&& list@.len() == columns.len()
            &&& forall|k: int|
                0 <= k < list@.len() ==> {
                    &&& (#[trigger] list@[k]).0@ == columns[k]->Ok_0.0@
                    &&& list@[k].1@ == columns[k]->Ok_0.1@
                }
        },
{
    let listing = reader@.listing;
    let data = column_data@;
    let version = reader@.format_version;
    let yielded = columns_yielded(listing, data, version);
    assert forall|i: int| 0 <= i < columns.len() implies entry_read(
        #[trigger] listing.entries[i],
        data,
        version,
    ) == match columns[i] {
        Ok((name, handle)) => Ok::<Column, ErrorView>(Column { name: name@, handle: handle@ }),
        Err(error) => Err::<Column, ErrorView>(error@),
    } by {
        assert(listing.entries[i] == Entry {
            key: keys[i]@,
            start: ranges[i].start,
            end: ranges[i].end,
        });
    }
    lemma_readable(listing.entries, data, version, good);
    let all = readable_columns(listing.entries, data, version);
    assert forall|k: int| 0 <= k < good implies #[trigger] yielded[k] == Ok::<Column, ErrorView>(
        Column { name: columns[k]->Ok_0.0@, handle: columns[k]->Ok_0.1@ },
    ) by {
        assert(columns[k] is Ok);
        assert(entry_read(listing.entries[k], data, version) is Ok);
        assert(yielded[k] == Ok::<Column, ErrorView>(all[k]));
    }
    assert(yielded.len() == good + if listing_failure(listing, data, version) is Some {
        1int
    } else {
        0int
    });
    assert forall|k: int| 0 <= k < items.len() implies (#[trigger] states[k])@ == if k
        <= yielded.len() {
        yielded.skip(k)
    } else {
        Seq::empty()
    } by {
        lemma_yields(yielded, good, states, nexts, items, k as nat);
    }
    assert forall|k: int| 0 <= k < items.len() && k < good implies {
        &&& #[trigger] items[k] matches Some(Ok((name, handle)))
        &&& name@ == columns[k]->Ok_0.0@
        &&& handle@ == columns[k]->Ok_0.1@
    } by {
        assert(*nexts[k] == states[k]);
        assert(states[k]@[0] == yielded[k]);
    }
    if good < items.len() {
        assert(*nexts[good] == states[good]);
        if good < yielded.len() {
            assert(states[good]@[0] == yielded[good]);
        }
    }
    assert forall|k: int| good < k < items.len() implies (#[trigger] items[k]) is None by {
        assert(*nexts[k] == states[k]);
        assert(states[k]@.len() == 0);
    }
    if good == columns.len() && listing.error is None {
        let found = list->Ok_0@;
        assert(list is Ok);
        assert(column_views(found) == all);
        assert(found.len() == column_views(found).len());
        assert forall|k: int| 0 <= k < found.len() implies {
            &&& (#[trigger] found[k]).0@ == columns[k]->Ok_0.0@
            &&& found[k].1@ == columns[k]->Ok_0.1@
        } by {
            assert(column_views(found)[k] == all[k]);
            assert(columns[k] is Ok);
            assert(entry_read(listing.entries[k], data, version) is Ok);
        }
    }
}

/// What is left to yield after `count` calls, where all but perhaps the last item are
/// columns.
proof fn lemma_yields(
    yielded: Seq<Result<Column, ErrorView>>,
    good: int,
    states: Seq<ColumnIter<'_>>,
    nexts: Seq<&mut ColumnIter<'_>>,
    items: Seq<Option<Result<(String, DynamicColumnHandle), Error>>>,
    count: nat,
)
    requires
        count <= items.len(),
        states.len() == items.len() + 1,
        states[0]@ == yielded,
        good <= yielded.len() <= good + 1,
        forall|i: int| 0 <= i < good ==> (#[trigger] yielded[i]) is Ok,
        nexts.len() == items.len(),
        forall|i: int|
            0 <= i < items.len() ==> {
                &&& *(#[trigger] nexts[i]) == states[i]
                &&& *final(nexts[i]) == states[i + 1]
                &&& call_ensures(ColumnIter::next, (nexts[i],), items[i])
            },
    ensures
        states[count as int]@ == if count <= yielded.len() {
            yielded.skip(count as int)
        } else {
            Seq::empty()
        },
    decreases count,
{
    if count == 0 {
        assert(yielded.skip(0) =~= yielded);
    } else {
        let before = (count - 1) as nat;
        lemma_yields(yielded, good, states, nexts, items, before);
        assert(*nexts[before as int] == states[before as int]);
        if before < yielded.len() {
            assert(states[before as int]@[0] == yielded[before as int]);
            assert(yielded.skip(before as int).skip(1) =~= yielded.skip(count as int));
            assert(before + 1 == yielded.len() ==> yielded.skip(count as int) =~= Seq::empty());
        } else if before == yielded.len() {
            assert(yielded.skip(before as int) =~= Seq::empty());
        }
    }
}

} // verus!
