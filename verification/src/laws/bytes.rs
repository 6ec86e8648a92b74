//! Laws of the types that hold bytes, and of errors.

use crate::common::counting_writer::{append_bytes, CountingWriter};
use crate::common::error::{invalid_data, io_invalid_data, unexpected_eof, Error, ErrorKind};
use crate::common::file_slice::FileSlice;
use crate::common::owned_bytes::OwnedBytes;
use vstd::prelude::*;

verus! {

/// A window on a vector shows the vector, and says how long it is; so does a window that
/// shares its bytes.
pub proof fn law_window_shows_its_bytes(
    data: Vec<u8>,
    whole: OwnedBytes,
    shared: OwnedBytes,
    len: usize,
    shown: &[u8],
    shared_len: usize,
    shared_shown: &[u8],
)
    requires
        call_ensures(OwnedBytes::new, (data,), whole),
        call_ensures(OwnedBytes::share, (&whole,), shared),
        call_ensures(OwnedBytes::len, (&whole,), len),
        call_ensures(OwnedBytes::as_slice, (&whole,), shown),
        call_ensures(OwnedBytes::len, (&shared,), shared_len),
        call_ensures(OwnedBytes::as_slice, (&shared,), shared_shown),
    ensures
        shown@ == data@,
        len == data@.len(),
        shared_shown@ == data@,
        shared_len == data@.len(),
{
}

/// A window on nothing shows nothing.
pub proof fn law_empty_window(empty: OwnedBytes, len: usize, shown: &[u8])
    requires
        call_ensures(OwnedBytes::empty, (), empty),
        call_ensures(OwnedBytes::len, (&empty,), len),
        call_ensures(OwnedBytes::as_slice, (&empty,), shown),
    ensures
        len == 0,
        shown@.len() == 0,
{
}

/// Splitting a window parts its bytes in two: the left half has the length that was
/// asked for, and the halves make up the whole.
pub proof fn law_split_window(
    whole: OwnedBytes,
    left_len: usize,
    halves: (OwnedBytes, OwnedBytes),
    shown: &[u8],
    left: &[u8],
    right: &[u8],
)
    requires
        call_ensures(OwnedBytes::as_slice, (&whole,), shown),
        left_len <= shown@.len(),
        call_ensures(OwnedBytes::split, (whole, left_len), halves),
        call_ensures(OwnedBytes::as_slice, (&halves.0,), left),
        call_ensures(OwnedBytes::as_slice, (&halves.1,), right),
    ensures
        left@.len() == left_len,
        left@ + right@ == shown@,
{
    assert(left@ + right@ =~= shown@);
}

/// Splitting a window from the right parts its bytes in two: the right half has the
/// length that was asked for, and the halves make up the whole.
pub proof fn law_rsplit_window(
    whole: OwnedBytes,
    right_len: usize,
    halves: (OwnedBytes, OwnedBytes),
    shown: &[u8],
    left: &[u8],
    right: &[u8],
)
    requires
        call_ensures(OwnedBytes::as_slice, (&whole,), shown),
        right_len <= shown@.len(),
        call_ensures(OwnedBytes::rsplit, (whole, right_len), halves),
        call_ensures(OwnedBytes::as_slice, (&halves.0,), left),
        call_ensures(OwnedBytes::as_slice, (&halves.1,), right),
    ensures
        right@.len() == right_len,
        left@ + right@ == shown@,
{
    assert(left@ + right@ =~= shown@);
}

/// Advancing a window drops as many bytes from its front as was asked for.
pub proof fn law_advance_window(
    window: &mut OwnedBytes,
    num_bytes: usize,
    before: &[u8],
    after: &[u8],
)
    requires
        call_ensures(OwnedBytes::as_slice, (&*window,), before),
        num_bytes <= before@.len(),
        call_ensures(OwnedBytes::advance, (window, num_bytes), ()),
        call_ensures(OwnedBytes::as_slice, (&*final(window),), after),
    ensures
        after@.len() == before@.len() - num_bytes,
        forall|i: int| 0 <= i < after@.len() ==> after@[i] == before@[num_bytes + i],
{
}

/// A file shows the bytes it was made of, and says how many there are; so does a handle
/// that shares them.
pub proof fn law_file_shows_its_bytes(
    data: Vec<u8>,
    file: FileSlice,
    shared: FileSlice,
    len: usize,
    bytes: OwnedBytes,
    shown: &[u8],
    shared_bytes: OwnedBytes,
    shared_shown: &[u8],
)
    requires
        call_ensures(FileSlice::new, (data,), file),
        call_ensures(FileSlice::share, (&file,), shared),
        call_ensures(FileSlice::len, (&file,), len),
        call_ensures(FileSlice::read_bytes, (&file,), bytes),
        call_ensures(OwnedBytes::as_slice, (&bytes,), shown),
        call_ensures(FileSlice::read_bytes, (&shared,), shared_bytes),
        call_ensures(OwnedBytes::as_slice, (&shared_bytes,), shared_shown),
    ensures
        len == data@.len(),
        shown@ == data@,
        shared_shown@ == data@,
{
}

/// A slice of a file shows the bytes of the file from its start to its end.
pub proof fn law_file_slice(
    file: FileSlice,
    start: usize,
    end: usize,
    slice: FileSlice,
    bytes: OwnedBytes,
    shown: &[u8],
    slice_bytes: OwnedBytes,
    slice_shown: &[u8],
)
    requires
        call_ensures(FileSlice::read_bytes, (&file,), bytes),
        call_ensures(OwnedBytes::as_slice, (&bytes,), shown),
        start <= end <= shown@.len(),
        call_ensures(FileSlice::slice, (&file, start, end), slice),
        call_ensures(FileSlice::read_bytes, (&slice,), slice_bytes),
        call_ensures(OwnedBytes::as_slice, (&slice_bytes,), slice_shown),
    ensures
        slice_shown@.len() == end - start,
        forall|i: int| 0 <= i < end - start ==> slice_shown@[i] == shown@[start + i],
{
}

/// Splitting a file from its end parts its bytes in two: the right half has the length
/// that was asked for, and the halves make up the whole.
pub proof fn law_split_file_from_end(
    file: FileSlice,
    right_len: usize,
    halves: (FileSlice, FileSlice),
    bytes: OwnedBytes,
    shown: &[u8],
    left_bytes: OwnedBytes,
    left: &[u8],
    right_bytes: OwnedBytes,
    right: &[u8],
)
    requires
        call_ensures(FileSlice::read_bytes, (&file,), bytes),
        call_ensures(OwnedBytes::as_slice, (&bytes,), shown),
        right_len <= shown@.len(),
        call_ensures(FileSlice::split_from_end, (file, right_len), halves),
        call_ensures(FileSlice::read_bytes, (&halves.0,), left_bytes),
        call_ensures(OwnedBytes::as_slice, (&left_bytes,), left),
        call_ensures(FileSlice::read_bytes, (&halves.1,), right_bytes),
        call_ensures(OwnedBytes::as_slice, (&right_bytes,), right),
    ensures
        right@.len() == right_len,
        left@ + right@ == shown@,
{
    assert(left@ + right@ =~= shown@);
}

/// Appending puts bytes behind those that are there.
pub proof fn law_append_bytes(bytes: &[u8], output: &mut Vec<u8>)
    requires
        call_ensures(append_bytes, (bytes, output), ()),
    ensures
        (*final(output))@ == (*old(output))@ + bytes@,
{
}

/// A counting writer gives back what it was wrapped around, and counts nothing at first.
pub proof fn law_counting_writer_starts_empty(
    underlying: Vec<u8>,
    writer: CountingWriter,
    count: u64,
    output: Vec<u8>,
)
    requires
        call_ensures(CountingWriter::wrap, (underlying,), writer),
        call_ensures(CountingWriter::written_bytes, (&writer,), count),
        call_ensures(CountingWriter::finish, (writer,), output),
    ensures
        count == 0,
        output@ == underlying@,
{
    assert(output@ =~= underlying@);
}

/// Writing to a counting writer puts bytes behind its output and counts them.
pub proof fn law_counting_writer_counts(
    writer: &mut CountingWriter,
    bytes: &[u8],
    count: u64,
    output: Vec<u8>,
    count_after: u64,
    output_after: Vec<u8>,
)
    requires
        call_ensures(CountingWriter::written_bytes, (&*writer,), count),
        call_ensures(CountingWriter::finish, (*writer,), output),
        call_ensures(CountingWriter::write_all, (writer, bytes), ()),
        call_ensures(CountingWriter::written_bytes, (&*final(writer),), count_after),
        call_ensures(CountingWriter::finish, (*final(writer),), output_after),
    ensures
        output_after@ == output@ + bytes@,
        count_after == count + bytes@.len(),
{
    assert(output_after@ =~= output@ + bytes@);
}

/// An error is of the kind and has the message that it was made with, and so has a copy.
pub proof fn law_errors_keep_kind_and_message(
    kind: ErrorKind,
    message: String,
    error: Error,
    copy: Error,
    text: &str,
    invalid: Error,
    io_invalid: Error,
    eof: Error,
)
    requires
        call_ensures(Error::new, (kind, message), error),
        call_ensures(Error::duplicate, (&error,), copy),
        call_ensures(invalid_data, (text,), invalid),
        call_ensures(io_invalid_data, (message,), io_invalid),
        call_ensures(unexpected_eof, (text,), eof),
    ensures
        error.kind == kind && error.message@ == message@,
        copy.kind == kind && copy.message@ == message@,
        invalid.kind == ErrorKind::InvalidData && invalid.message@ == text@,
        io_invalid.kind == ErrorKind::InvalidData && io_invalid.message@ == message@,
        eof.kind == ErrorKind::UnexpectedEof && eof.message@ == text@,
{
}

} // verus!
