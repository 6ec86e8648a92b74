//! Reading the columns of a columnar file.

use crate::columnar::column_handle::{
    column_key, entry_read, law_entry_of_column, Column, DynamicColumnHandle, Handle,
};
use crate::columnar::column_type::ColumnType;
use crate::columnar::columns::{
    column_views, columns_read, columns_yielded, handle_views, handles_of, law_all_or_nothing,
    law_iteration_stops_at_the_first_error, read_all_columns_in_stream, ColumnIter,
};
use crate::columnar::dictionary::{
    key_less, law_scan_finds_the_prefixed, lemma_less_is_irreflexive, lemma_run_bounds,
    ColumnDictionary, Listing, Streamer,
};
use crate::columnar::format_version::Version;
use crate::columnar::layout::{columnar_read, split_columnar, ColumnarParts, Parts};
use crate::columnar::stats::RowId;
use crate::common::error::{Error, ErrorView};
use crate::common::file_slice::FileSlice;
use crate::common::utf8::{law_encode_respects_prefixes, lemma_encode_ascii, lemma_encode_concat};
use std::sync::Arc;
use vstd::prelude::*;
use vstd::string::StringExecFns;
use vstd::utf8::encode_utf8;

verus! {

/// The byte that separates the segments of a JSON path in a column name.
pub const JSON_PATH_SEGMENT_SEP: u8 = 1;

/// The number of columns that are shown in a summary.
pub const NUM_SHOWN_COLUMNS: usize = 5;

/// The number of values up to which a column is shown in full.
pub const NUM_SHOWN_VALUES: u32 = 10;

/// The ColumnarReader makes it possible to access a set of columns
/// associated to field names.
pub struct ColumnarReader {
    column_dictionary: Arc<ColumnDictionary>,
    column_data: FileSlice,
    num_docs: RowId,
    format_version: Version,
}

/// What the contracts say of a reader.
pub struct Columnar {
    pub listing: Listing,
    pub num_terms: usize,
    pub column_data: Seq<u8>,
    pub num_docs: RowId,
    pub format_version: Version,
}

impl View for ColumnarReader {
    type V = Columnar;

    closed spec fn view(&self) -> Columnar {
        Columnar {
            listing: self.column_dictionary@,
            num_terms: self.column_dictionary.terms(),
            column_data: self.column_data@,
            num_docs: self.num_docs,
            format_version: self.format_version,
        }
    }
}

/// The prefix of the dictionary keys of the columns of a given name.
pub open spec fn name_prefix(column_name: Seq<char>) -> Seq<char> {
    column_name.push('\0')
}

/// The prefix of the dictionary keys of the columns below a given path.
pub open spec fn subpath_prefix(root_path: Seq<char>) -> Seq<char> {
    root_path.push(JSON_PATH_SEGMENT_SEP as char)
}

/// The prefix of the dictionary keys of the columns of the given name.
pub fn column_dictionary_prefix_for_column_name(column_name: &str) -> (prefix: String)
    ensures
        prefix@ == name_prefix(column_name@),
{
    // Each column is a associated to a given `column_key`,
    // that starts by `column_name\0column_header`.
    //
    // Listing the columns associated to the given column name is therefore equivalent to
    // listing `column_key` with the prefix `column_name\0`.
    let mut prefix: String = column_name.to_owned();
    prefix.append("\0");
    proof {
        reveal_strlit("\0");
        assert(prefix@ =~= name_prefix(column_name@));
    }
    prefix
}

/// The prefix of the dictionary keys of the columns below the given path.
pub fn column_dictionary_prefix_for_subpath(root_path: &str) -> (prefix: String)
    ensures
        prefix@ == subpath_prefix(root_path@),
{
    let mut prefix: String = root_path.to_owned();
    prefix.append("\u{1}");
    proof {
        reveal_strlit("\u{1}");
        assert(prefix@ =~= subpath_prefix(root_path@));
    }
    prefix
}

/// The key of a column is the encoding of its name, the separator and the code.
proof fn lemma_key_is_text(name: Seq<char>, column_type: ColumnType)
    ensures
        column_key(name, column_type) == encode_utf8(
            name.push('\0').push(column_type.code() as char),
        ),
{
    let code = column_type.code() as char;
    lemma_encode_ascii('\0');
    lemma_encode_ascii(code);
    lemma_encode_concat(seq!['\0'], seq![code]);
    lemma_encode_concat(name, seq!['\0'] + seq![code]);
    assert(name + (seq!['\0'] + seq![code]) =~= name.push('\0').push(code));
    assert(encode_utf8(seq!['\0'] + seq![code]) =~= seq![0u8, column_type.code()]);
}

/// Among columns whose names hold no zero character, the key of a column begins with
/// the prefix for a name exactly if the column has that name.
pub proof fn law_name_prefix_selects_the_name(
    column_name: Seq<char>,
    name: Seq<char>,
    column_type: ColumnType,
)
    requires
        !column_name.contains('\0'),
        !name.contains('\0'),
    ensures
        encode_utf8(name_prefix(column_name)).is_prefix_of(column_key(name, column_type)) <==> name
            == column_name,
{
    let prefix = name_prefix(column_name);
    let key = name.push('\0').push(column_type.code() as char);
    lemma_key_is_text(name, column_type);
    law_encode_respects_prefixes(prefix, key);
    if prefix.is_prefix_of(key) {
        let len = column_name.len() as int;
        assert(prefix[len] == key.subrange(0, len + 1)[len]);
        if len < name.len() {
            assert(name[len] == '\0');
        } else if len > name.len() {
            assert(prefix[name.len() as int] == key.subrange(0, len + 1)[name.len() as int]);
            assert(column_name[name.len() as int] == '\0');
        } else {
            assert forall|i: int| 0 <= i < len implies column_name[i] == name[i] by {
                assert(prefix[i] == key.subrange(0, len + 1)[i]);
            }
            assert(name =~= column_name);
        }
    }
    if name == column_name {
        assert(prefix =~= key.subrange(0, prefix.len() as int));
    }
}

/// The key of a column begins with the prefix for a path, one without a zero
/// character, exactly if the name of the column goes on below that path.
pub proof fn law_subpath_prefix_selects_the_names_below(
    root_path: Seq<char>,
    name: Seq<char>,
    column_type: ColumnType,
)
    requires
        !root_path.contains('\0'),
    ensures
        encode_utf8(subpath_prefix(root_path)).is_prefix_of(column_key(name, column_type))
            <==> subpath_prefix(root_path).is_prefix_of(name),
{
    let prefix = subpath_prefix(root_path);
    let key = name.push('\0').push(column_type.code() as char);
    lemma_key_is_text(name, column_type);
    law_encode_respects_prefixes(prefix, key);
    if prefix.is_prefix_of(key) {
        let len = root_path.len() as int;
        assert(prefix[len] == key.subrange(0, len + 1)[len]);
        if len > name.len() {
            assert(prefix[name.len() as int] == key.subrange(0, len + 1)[name.len() as int]);
            assert(root_path[name.len() as int] == '\0');
        } else if len < name.len() {
            assert(prefix =~= name.subrange(0, prefix.len() as int)) by {
                assert forall|i: int| 0 <= i < prefix.len() implies prefix[i] == name.subrange(
                    0,
                    prefix.len() as int,
                )[i] by {
                    assert(prefix[i] == key.subrange(0, len + 1)[i]);
                }
            }
        }
    }
    if prefix.is_prefix_of(name) {
        assert(prefix =~= key.subrange(0, prefix.len() as int)) by {
            assert forall|i: int| 0 <= i < prefix.len() implies prefix[i] == key.subrange(
                0,
                prefix.len() as int,
            )[i] by {
                assert(prefix[i] == name.subrange(0, prefix.len() as int)[i]);
            }
        }
    }
}

impl Columnar {
    /// What reading the columns whose keys begin with the text `prefix` returns.
    pub open spec fn columns_under(self, prefix: Seq<char>) -> Result<Seq<Column>, ErrorView> {
        columns_read(
            self.listing.prefixed(encode_utf8(prefix)),
            self.column_data,
            self.format_version,
        )
    }

    /// Whether this is a columnar whose columns have the given names and types: each
    /// entry has the key of a column and a range within the column data, the keys
    /// increase, the dictionary knows how many there are, and nothing is corrupt.
    pub open spec fn holds(self, names: Seq<Seq<char>>, types: Seq<ColumnType>) -> bool {
        &&& self.listing.error is None
        &&& self.listing.sorted()
        &&& self.num_terms == self.listing.entries.len()
        &&& names.len() == self.listing.entries.len()
        &&& types.len() == self.listing.entries.len()
        &&& forall|i: int|
            0 <= i < names.len() ==> {
                &&& !(#[trigger] names[i]).contains('\0')
                &&& self.listing.entries[i].key == column_key(names[i], types[i])
                &&& self.listing.entries[i].start <= self.listing.entries[i].end
                    <= self.column_data.len()
            }
    }

    /// The columns of the entries `start..end` of such a columnar.
    pub open spec fn run(
        self,
        names: Seq<Seq<char>>,
        types: Seq<ColumnType>,
        start: int,
        end: int,
    ) -> Seq<Column> {
        Seq::new((end - start) as nat, |k: int| self.column(names, types, start + k))
    }

    /// The column of entry `i` of such a columnar.
    pub open spec fn column(self, names: Seq<Seq<char>>, types: Seq<ColumnType>, i: int) -> Column {
        let entry = self.listing.entries[i];
        Column {
            name: names[i],
            handle: Handle {
                bytes: self.column_data.subrange(entry.start as int, entry.end as int),
                column_type: types[i],
                format_version: self.format_version,
            },
        }
    }
}

/// Columns that share a name differ in their types.
pub proof fn law_columns_of_one_name_differ_in_type(
    columnar: Columnar,
    names: Seq<Seq<char>>,
    types: Seq<ColumnType>,
    i: int,
    j: int,
)
    requires
        columnar.holds(names, types),
        0 <= i < j < names.len(),
        names[i] == names[j],
    ensures
        types[i] != types[j],
{
    let key = columnar.listing.entries[i].key;
    assert(key_less(key, columnar.listing.entries[j].key));
    assert(key == column_key(names[i], types[i]));
    assert(columnar.listing.entries[j].key == column_key(names[j], types[j]));
    lemma_less_is_irreflexive(key);
}

/// All columns of a columnar are listed, as many as the dictionary knows of, in the
/// order of their keys.
pub proof fn law_list_columns_gives_all(
    columnar: Columnar,
    names: Seq<Seq<char>>,
    types: Seq<ColumnType>,
)
    requires
        columnar.holds(names, types),
    ensures
        columns_read(columnar.listing, columnar.column_data, columnar.format_version) == Ok::<
            Seq<Column>,
            ErrorView,
        >(columnar.run(names, types, 0, columnar.num_terms as int)),
{
    lemma_entries_stand_for_columns(columnar, names, types);
    law_all_or_nothing(columnar.listing, columnar.column_data, columnar.format_version);
    let columns = columns_read(
        columnar.listing,
        columnar.column_data,
        columnar.format_version,
    )->Ok_0;
    assert(columns =~= columnar.run(names, types, 0, columnar.num_terms as int));
}

proof fn lemma_entries_stand_for_columns(
    columnar: Columnar,
    names: Seq<Seq<char>>,
    types: Seq<ColumnType>,
)
    requires
        columnar.holds(names, types),
    ensures
        forall|i: int|
            0 <= i < names.len() ==> entry_read(
                #[trigger] columnar.listing.entries[i],
                columnar.column_data,
                columnar.format_version,
            ) == Ok::<Column, ErrorView>(columnar.column(names, types, i)),
{
    assert forall|i: int| 0 <= i < names.len() implies entry_read(
        #[trigger] columnar.listing.entries[i],
        columnar.column_data,
        columnar.format_version,
    ) == Ok::<Column, ErrorView>(columnar.column(names, types, i)) by {
        let name = names[i];
        let entry = columnar.listing.entries[i];
        law_entry_of_column(
            name,
            types[i],
            entry.start,
            entry.end,
            columnar.column_data,
            columnar.format_version,
        );
    }
}

/// What is read under a prefix is the run of columns whose keys begin with it.
proof fn lemma_columns_under(
    columnar: Columnar,
    names: Seq<Seq<char>>,
    types: Seq<ColumnType>,
    prefix: Seq<char>,
)
    requires
        columnar.holds(names, types),
    ensures
        ({
            let start = columnar.listing.run_start(encode_utf8(prefix)) as int;
            let end = columnar.listing.run_end(encode_utf8(prefix)) as int;
            &&& 0 <= start <= end <= names.len()
            &&& columnar.columns_under(prefix) == Ok::<Seq<Column>, ErrorView>(
                Seq::new((end - start) as nat, |k: int| columnar.column(names, types, start + k)),
            )
            &&& forall|i: int|
                0 <= i < names.len() ==> (start <= i < end <==> encode_utf8(prefix).is_prefix_of(
                    column_key(#[trigger] names[i], types[i]),
                ))
        }),
{
    let bytes = encode_utf8(prefix);
    let start = columnar.listing.run_start(bytes) as int;
    let end = columnar.listing.run_end(bytes) as int;
    let listing = columnar.listing.prefixed(bytes);
    lemma_run_bounds(columnar.listing, bytes);
    law_scan_finds_the_prefixed(columnar.listing, bytes);
    lemma_entries_stand_for_columns(columnar, names, types);
    law_all_or_nothing(listing, columnar.column_data, columnar.format_version);
    assert forall|k: int| 0 <= k < listing.entries.len() implies entry_read(
        #[trigger] listing.entries[k],
        columnar.column_data,
        columnar.format_version,
    ) == Ok::<Column, ErrorView>(columnar.column(names, types, start + k)) by {
        assert(listing.entries[k] == columnar.listing.entries[start + k]);
    }
    let columns = columnar.columns_under(prefix)->Ok_0;
    assert(columns =~= Seq::new(
        (end - start) as nat,
        |k: int| columnar.column(names, types, start + k),
    ));
    assert forall|i: int| 0 <= i < names.len() implies (start <= i < end <==> bytes.is_prefix_of(
        column_key(#[trigger] names[i], types[i]),
    )) by {
        assert(columnar.listing.entries[i].key == column_key(names[i], types[i]));
    }
}

/// Reading the columns of a name gives the columns of that name, all of them and no
/// other, next to each other and in the order of their keys.
pub proof fn law_read_columns_gives_the_named(
    columnar: Columnar,
    names: Seq<Seq<char>>,
    types: Seq<ColumnType>,
    column_name: Seq<char>,
)
    requires
        columnar.holds(names, types),
        !column_name.contains('\0'),
    ensures
        exists|start: int, end: int|
            {
                &&& 0 <= start <= end <= names.len()
                &&& columnar.columns_under(name_prefix(column_name)) == Ok::<
                    Seq<Column>,
                    ErrorView,
                >(#[trigger] columnar.run(names, types, start, end))
                &&& forall|i: int|
                    0 <= i < names.len() ==> (start <= i < end <==> #[trigger] names[i]
                        == column_name)
            },
{
    let prefix = name_prefix(column_name);
    let start = columnar.listing.run_start(encode_utf8(prefix)) as int;
    let end = columnar.listing.run_end(encode_utf8(prefix)) as int;
    lemma_columns_under(columnar, names, types, prefix);
    assert forall|i: int| 0 <= i < names.len() implies (start <= i < end <==> #[trigger] names[i]
        == column_name) by {
        law_name_prefix_selects_the_name(column_name, names[i], types[i]);
    }
    assert(columnar.columns_under(prefix) == Ok::<Seq<Column>, ErrorView>(
        columnar.run(names, types, start, end),
    ));
}

/// Reading the columns below a path gives the columns whose names go on below it, all
/// of them and no other, next to each other and in the order of their keys.
pub proof fn law_read_subpath_columns_gives_those_below(
    columnar: Columnar,
    names: Seq<Seq<char>>,
    types: Seq<ColumnType>,
    root_path: Seq<char>,
)
    requires
        columnar.holds(names, types),
        !root_path.contains('\0'),
    ensures
        exists|start: int, end: int|
            {
                &&& 0 <= start <= end <= names.len()
                &&& columnar.columns_under(subpath_prefix(root_path)) == Ok::<
                    Seq<Column>,
                    ErrorView,
                >(#[trigger] columnar.run(names, types, start, end))
                &&& forall|i: int|
                    0 <= i < names.len() ==> (start <= i < end <==> subpath_prefix(
                        root_path,
                    ).is_prefix_of(#[trigger] names[i]))
            },
{
    let prefix = subpath_prefix(root_path);
    let start = columnar.listing.run_start(encode_utf8(prefix)) as int;
    let end = columnar.listing.run_end(encode_utf8(prefix)) as int;
    lemma_columns_under(columnar, names, types, prefix);
    assert forall|i: int| 0 <= i < names.len() implies (start <= i < end <==> prefix.is_prefix_of(
        #[trigger] names[i],
    )) by {
        law_subpath_prefix_selects_the_names_below(root_path, names[i], types[i]);
    }
    assert(columnar.columns_under(prefix) == Ok::<Seq<Column>, ErrorView>(
        columnar.run(names, types, start, end),
    ));
}

impl Clone for ColumnarReader {
    fn clone(&self) -> (copy: Self)
        ensures
            copy@ == self@,
    {
        ColumnarReader {
            column_dictionary: self.column_dictionary.clone(),
            column_data: self.column_data.share(),
            num_docs: self.num_docs,
            format_version: self.format_version,
        }
    }
}

/// What the reader of a file is, given the dictionary that was opened in it.
pub open spec fn reader_of(parts: Parts, listing: Listing, num_terms: usize) -> Columnar {
    Columnar {
        listing,
        num_terms,
        column_data: parts.column_data,
        num_docs: parts.num_rows,
        format_version: parts.format_version,
    }
}

impl ColumnarReader {
    /// A reader for a file of the given parts, whose dictionary was opened.
    pub fn from_parts(parts: ColumnarParts, column_dictionary: ColumnDictionary) -> (reader:
        ColumnarReader)
        ensures
            reader@ == reader_of(parts@, column_dictionary@, column_dictionary.terms()),
    {
        ColumnarReader {
            column_dictionary: Arc::new(column_dictionary),
            column_data: parts.column_data,
            num_docs: parts.num_rows,
            format_version: parts.format_version,
        }
    }

    /// Opens a new Columnar file, with `open_dictionary` to open the dictionary in it.
    pub fn open<D>(file: Vec<u8>, open_dictionary: D) -> (reader: Result<ColumnarReader, Error>)
        where D: FnOnce(FileSlice) -> Result<ColumnDictionary, Error>
        requires
            forall|sstable: FileSlice|
                (columnar_read(file@) matches Ok(parts) && sstable@ == parts.sstable)
                    ==> #[trigger] call_requires(open_dictionary, (sstable,)),
        ensures
            opened(columnar_read(file@), open_dictionary, reader),
    {
        Self::open_inner(FileSlice::new(file), open_dictionary)
    }

    /// Same as [`ColumnarReader::open`], for a file that is a slice of another one.
    pub fn open_inner<D>(file_slice: FileSlice, open_dictionary: D) -> (reader: Result<
        ColumnarReader,
        Error,
    >)
        where D: FnOnce(FileSlice) -> Result<ColumnDictionary, Error>
        requires
            forall|sstable: FileSlice|
                (columnar_read(file_slice@) matches Ok(parts) && sstable@ == parts.sstable)
                    ==> #[trigger] call_requires(open_dictionary, (sstable,)),
        ensures
            opened(columnar_read(file_slice@), open_dictionary, reader),
    {
        let parts: ColumnarParts = split_columnar(file_slice)?;
        let column_dictionary: ColumnDictionary = open_dictionary(parts.sstable.share())?;
        Ok(ColumnarReader::from_parts(parts, column_dictionary))
    }

    /// The number of documents in the file.
    pub fn num_docs(&self) -> (num_docs: RowId)
        ensures
            num_docs == self@.num_docs,
    {
        self.num_docs
    }

    /// Iterates over the columns in a sorted way.
    ///
    /// Each item is fallible: the dictionary entries come from the file, so one
    /// of them can be corrupt even though opening the columnar succeeded. The
    /// iterator stops at the first such entry rather than skipping it, since a
    /// columnar that disagrees with itself is not one to read partially.
    pub fn iter_columns(&self) -> (columns: Result<ColumnIter<'_>, Error>)
        ensures
            columns matches Ok(columns) && columns@ == columns_yielded(
                self@.listing,
                self@.column_data,
                self@.format_version,
            ),
    {
        let stream: Streamer<'_> = self.column_dictionary.stream();
        Ok(ColumnIter::new(stream, &self.column_data, self.format_version))
    }

    /// All columns, with their names.
    pub fn list_columns(&self) -> (columns: Result<Vec<(String, DynamicColumnHandle)>, Error>)
        ensures
            match columns {
                Ok(columns) => columns_read(
                    self@.listing,
                    self@.column_data,
                    self@.format_version,
                ) == Ok::<Seq<Column>, ErrorView>(column_views(columns@)),
                Err(error) => columns_read(
                    self@.listing,
                    self@.column_data,
                    self@.format_version,
                ) == Err::<Seq<Column>, ErrorView>(error@),
            },
    {
        let mut columns: Vec<(String, DynamicColumnHandle)> = Vec::new();
        let mut iter: ColumnIter<'_> = self.iter_columns()?;
        let ghost yielded = iter@;
        proof {
            law_iteration_stops_at_the_first_error(
                self@.listing,
                self@.column_data,
                self@.format_version,
            );
            assert(yielded.skip(0) =~= yielded);
        }
        loop
            invariant_except_break
                columns@.len() <= yielded.len(),
                iter@ == yielded.skip(columns@.len() as int),
                forall|i: int|
                    0 <= i < columns@.len() ==> yielded[i] == Ok::<Column, ErrorView>(
                        #[trigger] column_views(columns@)[i],
                    ),
            invariant
                yielded == columns_yielded(
                    self@.listing,
                    self@.column_data,
                    self@.format_version,
                ),
                forall|i: int| 0 <= i < yielded.len() - 1 ==> (#[trigger] yielded[i]) is Ok,
                match columns_read(self@.listing, self@.column_data, self@.format_version) {
                    Ok(columns) => {
                        &&& yielded.len() == columns.len()
                        &&& forall|i: int|
                            0 <= i < columns.len() ==> yielded[i] == Ok::<Column, ErrorView>(
                                #[trigger] columns[i],
                            )
                    },
                    Err(error) => yielded.len() > 0 && yielded.last() == Err::<Column, ErrorView>(
                        error,
                    ),
                },
            ensures
                columns_read(self@.listing, self@.column_data, self@.format_version) == Ok::<
                    Seq<Column>,
                    ErrorView,
                >(column_views(columns@)),
            decreases yielded.len() - columns@.len(),
        {
            let ghost before = column_views(columns@);
            match iter.next() {
                None => {
                    proof {
                        if let Ok(all) = columns_read(
                            self@.listing,
                            self@.column_data,
                            self@.format_version,
                        ) {
                            assert(all =~= column_views(columns@));
                        } else {
                            assert(yielded.last() == Ok::<Column, ErrorView>(
                                column_views(columns@)[columns@.len() - 1],
                            ));
                        }
                    }
                    break;
                },
                Some(Err(error)) => {
                    return Err(error);
                },
                Some(Ok(column)) => {
                    columns.push(column);
                    assert(column_views(columns@) =~= before.push(
                        Column { name: column.0@, handle: column.1@ },
                    ));
                    assert(iter@ =~= yielded.skip(columns@.len() as int));
                },
            }
        }
        Ok(columns)
    }

    /// Get all columns for the given column name.
    ///
    /// There can be more than one column associated to a given column name, provided they have
    /// different types.
    pub fn read_columns(&self, column_name: &str) -> (handles: Result<
        Vec<DynamicColumnHandle>,
        Error,
    >)
        ensures
            handles_read(self@.columns_under(name_prefix(column_name@)), handles),
    {
        let prefix: String = column_dictionary_prefix_for_column_name(column_name);
        let stream: Streamer<'_> = self.column_dictionary.prefix_range(prefix.as_str().as_bytes());
        read_all_columns_in_stream(stream, &self.column_data, self.format_version)
    }

    /// Get all inner columns for a given JSON prefix, i.e columns for which the name starts
    /// with the prefix then contain the [`JSON_PATH_SEGMENT_SEP`].
    ///
    /// There can be more than one column associated to each path within the JSON structure,
    /// provided they have different types.
    pub fn read_subpath_columns(&self, root_path: &str) -> (handles: Result<
        Vec<DynamicColumnHandle>,
        Error,
    >)
        ensures
            handles_read(self@.columns_under(subpath_prefix(root_path@)), handles),
    {
        let prefix: String = column_dictionary_prefix_for_subpath(root_path);
        let stream: Streamer<'_> = self.column_dictionary.prefix_range(prefix.as_str().as_bytes());
        read_all_columns_in_stream(stream, &self.column_data, self.format_version)
    }

    /// Return the number of columns in the columnar.
    pub fn num_columns(&self) -> (num_columns: usize)
        ensures
            num_columns == self@.num_terms,
    {
        self.column_dictionary.num_terms()
    }

    /// What a debug rendering shows of the columnar.
    pub fn summary(&self) -> (summary: Result<ColumnarSummary, Error>)
        ensures
            match columns_read(self@.listing, self@.column_data, self@.format_version) {
                Ok(columns) => {
                    &&& summary matches Ok(summary)
                    &&& summary.num_rows == self@.num_docs
                    &&& summary.num_cols == columns.len()
                    &&& column_views(summary.columns@) == if columns.len() > NUM_SHOWN_COLUMNS {
                        columns.take(NUM_SHOWN_COLUMNS as int)
                    } else {
                        columns
                    }
                    &&& summary.exhaustive == (columns.len() <= NUM_SHOWN_COLUMNS)
                },
                Err(error) => summary matches Err(reported) && reported@ == error,
            },
    {
        let mut columns: Vec<(String, DynamicColumnHandle)> = self.list_columns()?;
        let num_cols: usize = columns.len();
        let ghost all = column_views(columns@);
        columns.truncate(NUM_SHOWN_COLUMNS);
        assert(column_views(columns@) =~= if all.len() > NUM_SHOWN_COLUMNS {
            all.take(NUM_SHOWN_COLUMNS as int)
        } else {
            all
        });
        Ok(
            ColumnarSummary {
                num_rows: self.num_docs(),
                num_cols,
                columns,
                exhaustive: num_cols <= NUM_SHOWN_COLUMNS,
            },
        )
    }
}

/// What a debug rendering shows of a columnar: its first columns, and whether these
/// are all of them.
pub struct ColumnarSummary {
    pub num_rows: RowId,
    pub num_cols: usize,
    pub columns: Vec<(String, DynamicColumnHandle)>,
    pub exhaustive: bool,
}

/// Whether a debug rendering leaves out the values of a column with that many.
pub fn elides_values(num_values: u32) -> (elides: bool)
    ensures
        elides == (num_values > NUM_SHOWN_VALUES),
{
    num_values > NUM_SHOWN_VALUES
}

/// What opening a file returns, given what its footer makes of it: the error of the
/// footer or that of the dictionary, or else the reader of the parts with what
/// `open_dictionary` returned for the dictionary part.
pub open spec fn opened<D>(
    parts: Result<Parts, ErrorView>,
    open_dictionary: D,
    reader: Result<ColumnarReader, Error>,
) -> bool where D: FnOnce(FileSlice) -> Result<ColumnDictionary, Error> {
    match parts {
        Err(error) => reader matches Err(reported) && reported@ == error,
        Ok(parts) => exists|sstable: FileSlice, dictionary: Result<ColumnDictionary, Error>|
            {
                &&& sstable@ == parts.sstable
                &&& #[trigger] call_ensures(open_dictionary, (sstable,), dictionary)
                &&& match dictionary {
                    Err(error) => reader == Err::<ColumnarReader, Error>(error),
                    Ok(dictionary) => reader matches Ok(reader) && reader@ == reader_of(
                        parts,
                        dictionary@,
                        dictionary.terms(),
                    ),
                }
            },
    }
}

/// Whether `handles` is what reading the given columns returns.
pub open spec fn handles_read(
    columns: Result<Seq<Column>, ErrorView>,
    handles: Result<Vec<DynamicColumnHandle>, Error>,
) -> bool {
    match handles {
        Ok(handles) => columns is Ok && handle_views(handles@) == handles_of(columns->Ok_0),
        Err(error) => columns == Err::<Seq<Column>, ErrorView>(error@),
    }
}

} // verus!
