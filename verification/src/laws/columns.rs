//! Laws of reading columns: which of them are found, and what is found of each.

use crate::columnar::column_handle::{Column, DynamicColumnHandle};
use crate::columnar::column_type::ColumnType;
use crate::columnar::columns::{
    column_views, handle_views, handles_of, read_all_columns_in_stream,
};
use crate::columnar::dictionary::{ColumnDictionary, Streamer};
use crate::columnar::format_version::Version;
use crate::columnar::reader::{
    column_dictionary_prefix_for_column_name, column_dictionary_prefix_for_subpath,
    elides_values, handles_read, law_list_columns_gives_all, law_read_columns_gives_the_named,
    law_read_subpath_columns_gives_those_below, name_prefix, subpath_prefix, Columnar,
    ColumnarReader, ColumnarSummary,
};
use crate::columnar::text::{law_text_roundtrip, read_text, utf8_lossy};
use crate::common::error::{Error, ErrorView};
use crate::common::file_slice::FileSlice;
use vstd::prelude::*;
use vstd::utf8::{decode_utf8, encode_utf8, valid_utf8};

verus! {

/// The keys of the columns of a name begin with the name and a zero character, those of
/// the columns below a path with the path and the character with the code 1.
pub proof fn law_key_prefixes(name: &str, of_name: String, path: &str, below_path: String)
    requires
        call_ensures(column_dictionary_prefix_for_column_name, (name,), of_name),
        call_ensures(column_dictionary_prefix_for_subpath, (path,), below_path),
    ensures
        of_name@ == name@ + seq!['\0'],
        below_path@ == path@ + seq!['\u{1}'],
{
    assert(of_name@ =~= name@ + seq!['\0']);
    assert(below_path@ =~= path@ + seq!['\u{1}']);
}

/// A handle answers with the bytes, the type and the version of its column, and so does a
/// copy of it.
pub proof fn law_handle_answers(
    handle: DynamicColumnHandle,
    copy: DynamicColumnHandle,
    column_type: ColumnType,
    format_version: Version,
    bytes: FileSlice,
)
    requires
        call_ensures(<DynamicColumnHandle as Clone>::clone, (&handle,), copy),
        call_ensures(DynamicColumnHandle::column_type, (&handle,), column_type),
        call_ensures(DynamicColumnHandle::format_version, (&handle,), format_version),
        call_ensures(DynamicColumnHandle::file_slice, (&handle,), bytes),
    ensures
        column_type == handle@.column_type,
        format_version == handle@.format_version,
        bytes@ == handle@.bytes,
        copy@.column_type == handle@.column_type,
        copy@.format_version == handle@.format_version,
        copy@.bytes == handle@.bytes,
{
}

/// Reading the columns of a name gives a handle for each column of that name, in order,
/// and no other: its bytes are those that its entry says in the column data, and its type
/// and version are those of the column.
///
/// The columns of the name are those from the first number that is returned up to the
/// second.
pub proof fn law_read_columns(
    reader: ColumnarReader,
    names: Seq<Seq<char>>,
    types: Seq<ColumnType>,
    column_name: &str,
    handles: Result<Vec<DynamicColumnHandle>, Error>,
) -> (run: (int, int))
    requires
        reader@.holds(names, types),
        !column_name@.contains('\0'),
        call_ensures(ColumnarReader::read_columns, (&reader, column_name), handles),
    ensures
        0 <= run.0 <= run.1 <= names.len(),
        forall|i: int|
            0 <= i < names.len() ==> (run.0 <= i < run.1 <==> #[trigger] names[i]
                == column_name@),
        handles matches Ok(handles) && handles@.len() == run.1 - run.0,
        forall|k: int|
            0 <= k < run.1 - run.0 ==> {
                let entry = reader@.listing.entries[run.0 + k];
                let handle = #[trigger] handles->Ok_0@[k]@;
                &&& handle.bytes == reader@.column_data.subrange(
                    entry.start as int,
                    entry.end as int,
                )
                &&& handle.column_type == types[run.0 + k]
                &&& handle.format_version == reader@.format_version
            },
        forall|k: int|
            0 <= k < run.1 - run.0 ==> #[trigger] handles->Ok_0@[k]@ == reader@.column(
                names,
                types,
                run.0 + k,
            ).handle,
{
    law_read_columns_gives_the_named(reader@, names, types, column_name@);
    let columns = reader@.columns_under(name_prefix(column_name@));
    let (start, end) = choose|start: int, end: int|
        {
            &&& 0 <= start <= end <= names.len()
            &&& columns == Ok::<Seq<Column>, ErrorView>(
                #[trigger] reader@.run(names, types, start, end),
            )
            &&& forall|i: int|
                0 <= i < names.len() ==> (start <= i < end <==> #[trigger] names[i]
                    == column_name@)
        };
    lemma_run_of_handles(reader@, names, types, start, end, handles);
    (start, end)
}

/// Reading the columns below a path gives a handle for each column whose name goes on
/// below that path, in order, and no other: the name is longer than the path, begins with
/// it and has the character with the code 1 right behind it. The handles are such as
/// those of [`law_read_columns`].
pub proof fn law_read_subpath_columns(
    reader: ColumnarReader,
    names: Seq<Seq<char>>,
    types: Seq<ColumnType>,
    root_path: &str,
    handles: Result<Vec<DynamicColumnHandle>, Error>,
) -> (run: (int, int))
    requires
        reader@.holds(names, types),
        !root_path@.contains('\0'),
        call_ensures(ColumnarReader::read_subpath_columns, (&reader, root_path), handles),
    ensures
        0 <= run.0 <= run.1 <= names.len(),
        forall|i: int|
            0 <= i < names.len() ==> (run.0 <= i < run.1 <==> {
                &&& (#[trigger] names[i]).len() > root_path@.len()
                &&& names[i].take(root_path@.len() as int) == root_path@
                &&& names[i][root_path@.len() as int] == '\u{1}'
            }),
        handles matches Ok(handles) && handles@.len() == run.1 - run.0,
        forall|k: int|
            0 <= k < run.1 - run.0 ==> {
                let entry = reader@.listing.entries[run.0 + k];
                let handle = #[trigger] handles->Ok_0@[k]@;
                &&& handle.bytes == reader@.column_data.subrange(
                    entry.start as int,
                    entry.end as int,
                )
                &&& handle.column_type == types[run.0 + k]
                &&& handle.format_version == reader@.format_version
            },
{
    law_read_subpath_columns_gives_those_below(reader@, names, types, root_path@);
    let prefix = subpath_prefix(root_path@);
    let columns = reader@.columns_under(prefix);
    let (start, end) = choose|start: int, end: int|
        {
            &&& 0 <= start <= end <= names.len()
            &&& columns == Ok::<Seq<Column>, ErrorView>(
                #[trigger] reader@.run(names, types, start, end),
            )
            &&& forall|i: int|
                0 <= i < names.len() ==> (start <= i < end <==> prefix.is_prefix_of(
                    #[trigger] names[i],
                ))
        };
    lemma_run_of_handles(reader@, names, types, start, end, handles);
    assert forall|i: int| 0 <= i < names.len() implies (start <= i < end <==> {
        &&& (#[trigger] names[i]).len() > root_path@.len()
        &&& names[i].take(root_path@.len() as int) == root_path@
        &&& names[i][root_path@.len() as int] == '\u{1}'
    }) by {
        lemma_goes_on(names[i], root_path@);
    }
    (start, end)
}

/// A name that begins with a path and the separator.
proof fn lemma_goes_on(name: Seq<char>, path: Seq<char>)
    ensures
        path.push('\u{1}').is_prefix_of(name) <==> {
            &&& name.len() > path.len()
            &&& name.take(path.len() as int) == path
            &&& name[path.len() as int] == '\u{1}'
        },
{
    let len = path.len() as int;
    let prefix = path.push('\u{1}');
    if prefix.is_prefix_of(name) {
        assert forall|i: int| 0 <= i < len implies name.take(len)[i] == path[i] by {
            assert(prefix[i] == name.subrange(0, len + 1)[i]);
        }
        assert(name.take(len) =~= path);
        assert(prefix[len] == name.subrange(0, len + 1)[len]);
    }
    if name.len() > len && name.take(len) == path && name[len] == '\u{1}' {
        assert forall|i: int| 0 <= i < len + 1 implies prefix[i] == name.subrange(
            0,
            len + 1,
        )[i] by {
            if i < len {
                assert(path[i] == name.take(len)[i]);
            }
        }
        assert(prefix =~= name.subrange(0, len + 1));
    }
}

/// The handles of a run of columns.
proof fn lemma_run_of_handles(
    columnar: Columnar,
    names: Seq<Seq<char>>,
    types: Seq<ColumnType>,
    start: int,
    end: int,
    handles: Result<Vec<DynamicColumnHandle>, Error>,
)
    requires
        0 <= start <= end,
        handles_read(
            Ok(columnar.run(names, types, start, end)),
            handles,
        ),
    ensures
        handles matches Ok(handles) && handles@.len() == end - start,
        forall|k: int|
            0 <= k < end - start ==> #[trigger] handles->Ok_0@[k]@ == columnar.column(
                names,
                types,
                start + k,
            ).handle,
{
    let found = handles->Ok_0@;
    let run = columnar.run(names, types, start, end);
    let views = handle_views(found);
    let wanted = handles_of(run);
    assert(views.len() == wanted.len());
    assert forall|k: int| 0 <= k < end - start implies #[trigger] found[k]@ == columnar.column(
        names,
        types,
        start + k,
    ).handle by {
        assert(views[k] == wanted[k]);
    }
}

/// All columns are listed in order, each with its name and its handle, whose bytes are
/// those that its entry says in the column data.
pub proof fn law_list_columns(
    reader: ColumnarReader,
    names: Seq<Seq<char>>,
    types: Seq<ColumnType>,
    columns: Result<Vec<(String, DynamicColumnHandle)>, Error>,
)
    requires
        reader@.holds(names, types),
        call_ensures(ColumnarReader::list_columns, (&reader,), columns),
    ensures
        columns matches Ok(columns) && columns@.len() == names.len(),
        forall|k: int|
            0 <= k < names.len() ==> {
                let entry = reader@.listing.entries[k];
                let column = #[trigger] columns->Ok_0@[k];
                &&& column.0@ == names[k]
                &&& column.1@.bytes == reader@.column_data.subrange(
                    entry.start as int,
                    entry.end as int,
                )
                &&& column.1@.column_type == types[k]
                &&& column.1@.format_version == reader@.format_version
            },
{
    law_list_columns_gives_all(reader@, names, types);
    let listed = columns->Ok_0@;
    let views = column_views(listed);
    let run = reader@.run(names, types, 0, reader@.num_terms as int);
    assert(columns is Ok);
    assert(views == run);
    assert(listed.len() == views.len());
    assert forall|k: int| 0 <= k < names.len() implies {
        let entry = reader@.listing.entries[k];
        let column = #[trigger] listed[k];
        &&& column.0@ == names[k]
        &&& column.1@.bytes == reader@.column_data.subrange(entry.start as int, entry.end as int)
        &&& column.1@.column_type == types[k]
        &&& column.1@.format_version == reader@.format_version
    } by {
        assert(views[k] == run[k]);
    }
}

/// A summary counts the rows and the columns, shows the first five columns as they are
/// listed, and says whether these are all. It fails as the listing does.
pub proof fn law_summary(
    reader: ColumnarReader,
    num_docs: u32,
    columns: Result<Vec<(String, DynamicColumnHandle)>, Error>,
    summary: Result<ColumnarSummary, Error>,
)
    requires
        call_ensures(ColumnarReader::num_docs, (&reader,), num_docs),
        call_ensures(ColumnarReader::list_columns, (&reader,), columns),
        call_ensures(ColumnarReader::summary, (&reader,), summary),
    ensures
        match columns {
            Ok(columns) => {
                &&& summary matches Ok(summary)
                &&& summary.num_rows == num_docs
                &&& summary.num_cols == columns@.len()
                &&& summary.exhaustive == (columns@.len() <= 5)
                &&& summary.columns@.len() == if columns@.len() <= 5 {
                    columns@.len()
                } else {
                    5
                }
                &&& forall|k: int|
                    0 <= k < summary.columns@.len() ==> {
                        &&& (#[trigger] summary.columns@[k]).0@ == columns@[k].0@
                        &&& summary.columns@[k].1@ == columns@[k].1@
                    }
            },
            Err(error) => {
                &&& summary matches Err(reported)
                &&& reported.kind == error.kind
                &&& reported.message@ == error.message@
            },
        },
{
    if let Ok(columns) = columns {
        let summary = summary->Ok_0;
        let all = column_views(columns@);
        let shown = column_views(summary.columns@);
        assert(shown.len() == if all.len() <= 5 { all.len() } else { 5 });
        assert forall|k: int| 0 <= k < summary.columns@.len() implies {
            &&& (#[trigger] summary.columns@[k]).0@ == columns@[k].0@
            &&& summary.columns@[k].1@ == columns@[k].1@
        } by {
            assert(shown[k] == all[k]);
        }
    }
}

/// The values of a column are shown if there are no more than ten of them.
pub proof fn law_elided_values(num_values: u32, elides: bool)
    requires
        call_ensures(elides_values, (num_values,), elides),
    ensures
        elides <==> num_values > 10,
{
}

/// Text that was encoded is read as it was, bytes that are UTF-8 as what they encode, and
/// other bytes with something in place of what is not.
pub proof fn law_read_text(bytes: &[u8], text: String)
    requires
        call_ensures(read_text, (bytes,), text),
    ensures
        valid_utf8(bytes@) ==> text@ == decode_utf8(bytes@),
        !valid_utf8(bytes@) ==> text@ == utf8_lossy(bytes@),
        forall|encoded: Seq<char>| bytes@ == #[trigger] encode_utf8(encoded) ==> text@ == encoded,
{
    assert forall|encoded: Seq<char>| bytes@ == #[trigger] encode_utf8(encoded) implies text@
        == encoded by {
        law_text_roundtrip(encoded);
    }
}

/// Reading the columns of a name, or below a path, is reading the columns of the stream
/// over the keys with their prefix, whatever the dictionary holds: it gives handles on the
/// same columns, or the same error.
///
/// `dictionary` and `column_data` are those of the reader.
pub proof fn law_read_columns_of_stream(
    reader: ColumnarReader,
    dictionary: ColumnDictionary,
    column_data: FileSlice,
    name: &str,
    prefix: &[u8],
    stream: Streamer<'_>,
    all: Result<Vec<DynamicColumnHandle>, Error>,
    named: Result<Vec<DynamicColumnHandle>, Error>,
    path_prefix: &[u8],
    path_stream: Streamer<'_>,
    path_all: Result<Vec<DynamicColumnHandle>, Error>,
    below: Result<Vec<DynamicColumnHandle>, Error>,
)
    requires
        dictionary@ == reader@.listing,
        column_data@ == reader@.column_data,
        prefix@ == encode_utf8(name@ + seq!['\0']),
        call_ensures(ColumnDictionary::prefix_range, (&dictionary, prefix), stream),
        call_ensures(
            read_all_columns_in_stream,
            (stream, &column_data, reader@.format_version),
            all,
        ),
        call_ensures(ColumnarReader::read_columns, (&reader, name), named),
        path_prefix@ == encode_utf8(name@ + seq!['\u{1}']),
        call_ensures(ColumnDictionary::prefix_range, (&dictionary, path_prefix), path_stream),
        call_ensures(
            read_all_columns_in_stream,
            (path_stream, &column_data, reader@.format_version),
            path_all,
        ),
        call_ensures(ColumnarReader::read_subpath_columns, (&reader, name), below),
    ensures
        match all {
            Ok(all) => {
                &&& named matches Ok(named)
                &&& named@.len() == all@.len()
                &&& forall|k: int|
                    0 <= k < named@.len() ==> (#[trigger] named@[k])@ == all@[k]@
            },
            Err(error) => {
                &&& named matches Err(reported)
                &&& reported.kind == error.kind
                &&& reported.message@ == error.message@
            },
        },
        match path_all {
            Ok(all) => {
                &&& below matches Ok(below)
                &&& below@.len() == all@.len()
                &&& forall|k: int|
                    0 <= k < below@.len() ==> (#[trigger] below@[k])@ == all@[k]@
            },
            Err(error) => {
                &&& below matches Err(reported)
                &&& reported.kind == error.kind
                &&& reported.message@ == error.message@
            },
        },
{
    assert(name@ + seq!['\0'] =~= name_prefix(name@));
    assert(name@ + seq!['\u{1}'] =~= subpath_prefix(name@));
    if all is Ok {
        lemma_same_handles(all->Ok_0@, named->Ok_0@);
    }
    if path_all is Ok {
        lemma_same_handles(path_all->Ok_0@, below->Ok_0@);
    }
}

/// Handles with the same views.
proof fn lemma_same_handles(a: Seq<DynamicColumnHandle>, b: Seq<DynamicColumnHandle>)
    requires
        handle_views(a) == handle_views(b),
    ensures
        a.len() == b.len(),
        forall|k: int| 0 <= k < a.len() ==> (#[trigger] b[k])@ == a[k]@,
{
    assert(handle_views(a).len() == a.len());
    assert(handle_views(b).len() == b.len());
    assert forall|k: int| 0 <= k < a.len() implies (#[trigger] b[k])@ == a[k]@ by {
        assert(handle_views(a)[k] == a[k]@);
        assert(handle_views(b)[k] == b[k]@);
    }
}

} // verus!
