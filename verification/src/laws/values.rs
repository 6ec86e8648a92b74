//! Laws of the value sections: what is handed to a writer of values comes out of a reader.

use crate::common::error::{Error, ErrorKind, ErrorView};
use crate::common::le::{
    le_bytes, le_value, lemma_le_value_u32,
};
use crate::sstable::value::u64_monotonic::{
    ascending, deltas_bytes, encode_deltas, law_u64_monotonic_roundtrip, read_deltas,
};
use crate::sstable::value::vec_u32::{
    encode_lists, ids_at, ids_bytes, law_vec_u32_roundtrip, list_bytes, lists_bytes,
    read_list, read_lists,
};
use crate::sstable::value::{
    deserialize_vint_u64, read_vint_spec, U64MonotonicValueReader, U64MonotonicValueWriter,
    ValueReader, ValueWriter, VecU32ValueReader, VecU32ValueWriter, VoidValueReader,
    VoidValueWriter,
};
use crate::sstable::vint::{lemma_vint_len, serialize_into_vec, vint_bytes, vint_len};
use vstd::prelude::*;

verus! {

/// The number that the four bytes of `bytes` at `at` hold, the least significant first.
pub open spec fn le4(bytes: Seq<u8>, at: int) -> int {
    bytes[at] + 0x100 * bytes[at + 1] + 0x1_0000 * bytes[at + 2] + 0x100_0000 * bytes[at + 3]
}

/// What a writer and a reader record of a value is the value itself: its elements in
/// their order.
pub proof fn law_models_are_the_values(list: Vec<u32>, number: u64, void: ())
    ensures
        VecU32ValueWriter::model(list) == list@,
        VecU32ValueReader::model(list) == list@,
        U64MonotonicValueWriter::model(number) == number,
        U64MonotonicValueReader::model(number) == number,
        VoidValueWriter::model(void) == void,
        VoidValueReader::model(void) == void,
{
}

/// Lists that are handed to a new writer one after the other, and serialized, come out
/// of a reader that loads the section, whatever follows it: as many, in their order, each
/// with the elements it had. The reader consumes the section and no more.
///
/// `states` are what the writer goes through, call by call of `writes`.
pub proof fn law_lists_come_back(
    states: Seq<VecU32ValueWriter>,
    writes: Seq<&mut VecU32ValueWriter>,
    lists: Seq<Vec<u32>>,
    output: &mut Vec<u8>,
    data: &[u8],
    rest: Seq<u8>,
    reader: &mut VecU32ValueReader,
    consumed: Result<usize, Error>,
    count: Option<usize>,
)
    requires
        writes.len() == lists.len() <= u32::MAX,
        states.len() == lists.len() + 1,
        call_ensures(<VecU32ValueWriter as Default>::default, (), states[0]),
        forall|i: int|
            0 <= i < lists.len() ==> {
                &&& *(#[trigger] writes[i]) == states[i]
                &&& *final(writes[i]) == states[i + 1]
                &&& call_ensures(
                    <VecU32ValueWriter as ValueWriter>::write,
                    (writes[i], &lists[i]),
                    (),
                )
                &&& lists[i]@.len() <= u32::MAX
            },
        call_ensures(
            <VecU32ValueWriter as ValueWriter>::serialize_block,
            (&states.last(), output),
            (),
        ),
        data@ == (*final(output))@.skip((*old(output))@.len() as int) + rest,
        call_ensures(<VecU32ValueReader as ValueReader>::load, (reader, data), consumed),
        call_ensures(
            <VecU32ValueReader as ValueReader>::num_values,
            (&*final(reader),),
            count,
        ),
    ensures
        consumed matches Ok(num_bytes) && num_bytes == data@.len() - rest.len(),
        count == Some(lists.len() as usize),
        forall|i: usize, value: &Vec<u32>|
            i < lists.len() && #[trigger] call_ensures(
                <VecU32ValueReader as ValueReader>::value,
                (&*final(reader), i),
                value,
            ) ==> value@ == lists[i as int]@,
{
    let models = lists.map_values(|list: Vec<u32>| list@);
    assert(states.last().recorded() == models) by {
        lemma_lists_recorded(states, writes, lists, lists.len());
        assert(models =~= models.take(lists.len() as int));
    }
    assert forall|i: int| 0 <= i < models.len() implies (#[trigger] models[i]).len()
        <= u32::MAX by {
        assert(*writes[i] == states[i]);
    }
    let section = VecU32ValueWriter::encode(models);
    assert((*final(output))@.skip((*old(output))@.len() as int) =~= section);
    law_vec_u32_roundtrip(models, rest);
    assert((*final(reader)).loaded() == models);
}

proof fn lemma_lists_recorded(
    states: Seq<VecU32ValueWriter>,
    writes: Seq<&mut VecU32ValueWriter>,
    lists: Seq<Vec<u32>>,
    count: nat,
)
    requires
        count <= lists.len(),
        writes.len() == lists.len(),
        states.len() == lists.len() + 1,
        call_ensures(<VecU32ValueWriter as Default>::default, (), states[0]),
        forall|i: int|
            0 <= i < lists.len() ==> {
                &&& *(#[trigger] writes[i]) == states[i]
                &&& *final(writes[i]) == states[i + 1]
                &&& call_ensures(
                    <VecU32ValueWriter as ValueWriter>::write,
                    (writes[i], &lists[i]),
                    (),
                )
            },
    ensures
        states[count as int].recorded() == lists.map_values(|list: Vec<u32>| list@).take(
            count as int,
        ),
    decreases count,
{
    let models = lists.map_values(|list: Vec<u32>| list@);
    if count == 0 {
        assert(models.take(0) =~= Seq::empty());
    } else {
        let last = count - 1;
        lemma_lists_recorded(states, writes, lists, last as nat);
        assert(*writes[last] == states[last]);
        assert(models.take(count as int) =~= models.take(last).push(lists[last]@));
    }
}

/// The section of a new writer of lists is a count of zero; a list that is written adds
/// one to the count, and its length and its elements behind what was there. A writer that
/// was cleared is as a new one.
pub proof fn law_list_section(
    start: VecU32ValueWriter,
    none: &mut Vec<u8>,
    writer: &mut VecU32ValueWriter,
    list: Vec<u32>,
    before: &mut Vec<u8>,
    after: &mut Vec<u8>,
    cleared: &mut VecU32ValueWriter,
    cleared_output: &mut Vec<u8>,
)
    requires
        call_ensures(<VecU32ValueWriter as Default>::default, (), start),
        call_ensures(<VecU32ValueWriter as ValueWriter>::serialize_block, (&start, none), ()),
        (*old(none))@.len() == 0,
        call_ensures(<VecU32ValueWriter as ValueWriter>::serialize_block, (&*writer, before), ()),
        (*old(before))@.len() == 0,
        call_ensures(<VecU32ValueWriter as ValueWriter>::write, (writer, &list), ()),
        call_ensures(
            <VecU32ValueWriter as ValueWriter>::serialize_block,
            (&*final(writer), after),
            (),
        ),
        (*old(after))@.len() == 0,
        call_ensures(<VecU32ValueWriter as ValueWriter>::clear, (cleared,), ()),
        call_ensures(
            <VecU32ValueWriter as ValueWriter>::serialize_block,
            (&*final(cleared), cleared_output),
            (),
        ),
        (*old(cleared_output))@.len() == 0,
    ensures
        (*final(none))@ == seq![0u8, 0, 0, 0],
        (*final(cleared_output))@ == seq![0u8, 0, 0, 0],
        ({
            let old_bytes = (*final(before))@;
            let bytes = (*final(after))@;
            let at = old_bytes.len() as int;
            &&& at >= 4
            &&& bytes.len() == at + 4 + 4 * list@.len()
            &&& le4(bytes, 0) == (le4(old_bytes, 0) + 1) % 0x1_0000_0000
            &&& bytes.subrange(4, at) == old_bytes.skip(4)
            &&& le4(bytes, at) == list@.len() % 0x1_0000_0000
            &&& forall|i: int|
                0 <= i < list@.len() ==> le4(bytes, at + 4 + 4 * i) == #[trigger] list@[i]
        }),
{
    let lists = (*writer).recorded();
    lemma_zero_bytes();
    assert((*final(none))@ =~= seq![0u8, 0, 0, 0]);
    assert((*final(cleared_output))@ =~= seq![0u8, 0, 0, 0]);
    assert((*final(before))@ =~= encode_lists(lists));
    assert((*final(after))@ =~= encode_lists(lists.push(list@)));
    lemma_section_grows(lists, list@);
    lemma_next_count(lists.len());
}

proof fn lemma_zero_bytes()
    ensures
        le_bytes(0, 4) == seq![0u8, 0, 0, 0],
{
    reveal_with_fuel(le_bytes, 5);
    assert(le_bytes(0, 4) =~= seq![0u8, 0, 0, 0]);
}

/// How a section grows by a list.
#[verifier::spinoff_prover]
proof fn lemma_section_grows(lists: Seq<Seq<u32>>, list: Seq<u32>)
    ensures
        ({
            let old_bytes = encode_lists(lists);
            let bytes = encode_lists(lists.push(list));
            let at = old_bytes.len() as int;
            &&& at >= 4
            &&& bytes.len() == at + 4 + 4 * list.len()
            &&& le4(old_bytes, 0) == lists.len() % 0x1_0000_0000
            &&& le4(bytes, 0) == (lists.len() + 1) % 0x1_0000_0000
            &&& bytes.subrange(4, at) == old_bytes.skip(4)
            &&& le4(bytes, at) == list.len() % 0x1_0000_0000
            &&& forall|i: int|
                0 <= i < list.len() ==> le4(bytes, at + 4 + 4 * i) == #[trigger] list[i]
        }),
{
    let head = le_bytes(lists.len(), 4);
    let new_head = le_bytes(lists.len() + 1, 4);
    let len_bytes = le_bytes(list.len(), 4);
    lemma_lists_bytes_append(lists, list);
    lemma_ids_bytes(list);
    lemma_le4_of_bytes(lists.len());
    lemma_le4_of_bytes(lists.len() + 1);
    lemma_le4_of_bytes(list.len());
    assert(lists.push(list).len() == lists.len() + 1);
    assert(encode_lists(lists) == head + lists_bytes(lists));
    assert(encode_lists(lists.push(list)) == new_head + (lists_bytes(lists) + (len_bytes
        + ids_bytes(list))));
    lemma_section_bytes(head, new_head, lists_bytes(lists), len_bytes, ids_bytes(list), list);
}

proof fn lemma_next_count(count: nat)
    ensures
        (count + 1) % 0x1_0000_0000 == (count % 0x1_0000_0000 + 1) % 0x1_0000_0000,
{
}

/// Where the parts of a section are.
proof fn lemma_section_bytes(
    head: Seq<u8>,
    new_head: Seq<u8>,
    body: Seq<u8>,
    len_bytes: Seq<u8>,
    ids: Seq<u8>,
    list: Seq<u32>,
)
    requires
        head.len() == 4,
        new_head.len() == 4,
        len_bytes.len() == 4,
        ids.len() == 4 * list.len(),
        forall|i: int| 0 <= i < list.len() ==> le4(ids, 4 * i) == #[trigger] list[i],
    ensures
        ({
            let old_bytes = head + body;
            let bytes = new_head + (body + (len_bytes + ids));
            let at = old_bytes.len() as int;
            &&& bytes.len() == at + 4 + 4 * list.len()
            &&& le4(bytes, 0) == le4(new_head, 0)
            &&& le4(old_bytes, 0) == le4(head, 0)
            &&& bytes.subrange(4, at) == old_bytes.skip(4)
            &&& le4(bytes, at) == le4(len_bytes, 0)
            &&& forall|i: int|
                0 <= i < list.len() ==> le4(bytes, at + 4 + 4 * i) == #[trigger] list[i]
        }),
{
    let old_bytes = head + body;
    let bytes = new_head + (body + (len_bytes + ids));
    let at = old_bytes.len() as int;
    assert(bytes.subrange(4, at) =~= old_bytes.skip(4));
    assert(bytes.skip(at + 4) =~= ids);
    assert forall|i: int| 0 <= i < list.len() implies le4(bytes, at + 4 + 4 * i)
        == #[trigger] list[i] by {
        assert(le4(ids, 4 * i) == list[i]);
        lemma_le4_in_tail(bytes, at + 4, ids, 4 * i);
    }
}

/// Four bytes behind a head are four bytes of the tail.
proof fn lemma_le4_in_tail(bytes: Seq<u8>, at: int, tail: Seq<u8>, i: int)
    requires
        0 <= at <= bytes.len(),
        bytes.skip(at) == tail,
        0 <= i,
        i + 4 <= tail.len(),
    ensures
        le4(bytes, at + i) == le4(tail, i),
{
    assert(tail[i] == bytes[at + i]);
    assert(tail[i + 1] == bytes[at + i + 1]);
    assert(tail[i + 2] == bytes[at + i + 2]);
    assert(tail[i + 3] == bytes[at + i + 3]);
}

pub proof fn lemma_le4_of_bytes(number: nat)
    ensures
        le_bytes(number, 4).len() == 4,
        le4(le_bytes(number, 4), 0) == number % 0x1_0000_0000,
{
    reveal_with_fuel(le_bytes, 5);
}

proof fn lemma_lists_bytes_append(lists: Seq<Seq<u32>>, list: Seq<u32>)
    ensures
        lists_bytes(lists.push(list)) == lists_bytes(lists) + list_bytes(list),
    decreases lists.len(),
{
    let all = lists.push(list);
    if lists.len() == 0 {
        assert(all.skip(1) =~= Seq::empty());
        assert(lists_bytes(all.skip(1)) =~= Seq::empty());
        assert(lists_bytes(all) =~= lists_bytes(lists) + list_bytes(list));
    } else {
        lemma_lists_bytes_append(lists.skip(1), list);
        assert(all.skip(1) =~= lists.skip(1).push(list));
        assert(lists_bytes(all) =~= lists_bytes(lists) + list_bytes(list));
    }
}

proof fn lemma_ids_bytes(ids: Seq<u32>)
    ensures
        ids_bytes(ids).len() == 4 * ids.len(),
        forall|i: int| 0 <= i < ids.len() ==> le4(ids_bytes(ids), 4 * i) == #[trigger] ids[i],
    decreases ids.len(),
{
    if ids.len() > 0 {
        let tail = ids.skip(1);
        let bytes = ids_bytes(ids);
        lemma_ids_bytes(tail);
        lemma_le4_of_bytes(ids[0] as nat);
        assert forall|i: int| 0 <= i < ids.len() implies le4(bytes, 4 * i) == #[trigger] ids[i] by {
            if i > 0 {
                assert(tail[i - 1] == ids[i]);
                assert(le4(ids_bytes(tail), 4 * (i - 1)) == tail[i - 1]);
                assert(bytes.skip(4) =~= ids_bytes(tail));
                assert(bytes[4 * i] == bytes.skip(4)[4 * (i - 1)]);
                assert(bytes[4 * i + 1] == bytes.skip(4)[4 * (i - 1) + 1]);
                assert(bytes[4 * i + 2] == bytes.skip(4)[4 * (i - 1) + 2]);
                assert(bytes[4 * i + 3] == bytes.skip(4)[4 * (i - 1) + 3]);
            }
        }
    }
}

/// What a reader of lists makes of any bytes. A section that ends within a count or a
/// length, or announces more elements than there are, is refused. Otherwise the first
/// list is read element by element, and the others are what is read of a section that
/// counts one list less and goes on behind the first one.
pub proof fn law_list_load(
    data: &[u8],
    reader: &mut VecU32ValueReader,
    consumed: Result<usize, Error>,
    count: Option<usize>,
    others: &[u8],
    others_reader: &mut VecU32ValueReader,
    others_consumed: Result<usize, Error>,
    others_count: Option<usize>,
)
    requires
        call_ensures(<VecU32ValueReader as ValueReader>::load, (reader, data), consumed),
        call_ensures(<VecU32ValueReader as ValueReader>::num_values, (&*final(reader),), count),
        call_ensures(
            <VecU32ValueReader as ValueReader>::load,
            (others_reader, others),
            others_consumed,
        ),
        call_ensures(
            <VecU32ValueReader as ValueReader>::num_values,
            (&*final(others_reader),),
            others_count,
        ),
    ensures
        data@.len() < 4 || (le4(data@, 0) > 0 && data@.len() < 8) ==> {
            &&& consumed matches Err(error)
            &&& error.kind == ErrorKind::UnexpectedEof
            &&& error.message@ == "sstable value block ends in the middle of a u32"@
            &&& count == Some(0usize)
        },
        data@.len() >= 4 && le4(data@, 0) == 0 ==> {
            &&& consumed matches Ok(num_bytes)
            &&& num_bytes == 4
            &&& count == Some(0usize)
        },
        data@.len() >= 8 && le4(data@, 0) > 0 && (data@.len() - 8) / 4 < le4(data@, 4) ==> {
            &&& consumed matches Err(error)
            &&& error.kind == ErrorKind::InvalidData
            &&& error.message@ == "sstable value block announces more segment ids than it holds"@
            &&& count == Some(0usize)
        },
        data@.len() >= 8 && le4(data@, 0) > 0 && (data@.len() - 8) / 4 >= le4(data@, 4)
            && others@.len() >= 4 && le4(others@, 0) == le4(data@, 0) - 1 && others@.skip(4)
            == data@.skip(8 + 4 * le4(data@, 4)) ==> {
            let len = le4(data@, 4);
            &&& others_count matches Some(others_count)
            &&& count == Some((1 + others_count) as usize)
            &&& consumed is Ok <==> others_consumed is Ok
            &&& consumed matches Ok(num_bytes) ==> num_bytes == others_consumed->Ok_0 + 4 + 4 * len
            &&& consumed matches Err(error) ==> {
                &&& error.kind == others_consumed->Err_0.kind
                &&& error.message@ == others_consumed->Err_0.message@
            }
            &&& forall|value: &Vec<u32>| #[trigger]
                call_ensures(
                    <VecU32ValueReader as ValueReader>::value,
                    (&*final(reader), 0usize),
                    value,
                ) ==> value@.len() == len && forall|j: int|
                    0 <= j < len ==> #[trigger] value@[j] == le4(data@, 8 + 4 * j)
            &&& forall|i: usize, next: usize, value: &Vec<u32>, other: &Vec<u32>|
                i < others_count && next == i + 1 && #[trigger] call_ensures(
                    <VecU32ValueReader as ValueReader>::value,
                    (&*final(reader), next),
                    value,
                ) && #[trigger] call_ensures(
                    <VecU32ValueReader as ValueReader>::value,
                    (&*final(others_reader), i),
                    other,
                ) ==> value@ == other@
        },
{
    let bytes = data@;
    if bytes.len() >= 4 {
        lemma_le4_value(bytes, 0);
        assert(bytes.take(4) =~= bytes.subrange(0, 4));
        let body = bytes.skip(4);
        if le4(bytes, 0) > 0 && bytes.len() >= 8 {
            lemma_le4_value(bytes, 4);
            assert(body.take(4) =~= bytes.subrange(4, 8));
            let len = le4(bytes, 4);
            assert(body.skip(4) =~= bytes.skip(8));
            if (bytes.len() - 8) / 4 >= len && others@.len() >= 4 && le4(others@, 0) == le4(
                bytes,
                0,
            ) - 1 && others@.skip(4) == bytes.skip(8 + 4 * len) {
                lemma_le4_value(others@, 0);
                assert(others@.take(4) =~= others@.subrange(0, 4));
                assert(body.skip(4 + 4 * len) =~= bytes.skip(8 + 4 * len));
                lemma_read_lists_len(others@.skip(4), (le4(bytes, 0) - 1) as nat);
                assert forall|j: int| 0 <= j < len implies #[trigger] ids_at(
                    bytes.skip(8),
                    len as nat,
                )[j] == le4(bytes, 8 + 4 * j) by {
                    lemma_le4_value(bytes, 8 + 4 * j);
                    assert(bytes.skip(8).subrange(4 * j, 4 * j + 4) =~= bytes.subrange(
                        8 + 4 * j,
                        8 + 4 * j + 4,
                    ));
                }
            }
        }
    }
}

proof fn lemma_le4_value(bytes: Seq<u8>, at: int)
    requires
        0 <= at,
        at + 4 <= bytes.len(),
    ensures
        le_value(bytes.subrange(at, at + 4)) == le4(bytes, at),
        0 <= le4(bytes, at) <= u32::MAX,
{
    lemma_le_value_u32(bytes.subrange(at, at + 4));
}

/// What is left behind lists is a tail of the bytes.
proof fn lemma_read_lists_len(data: Seq<u8>, count: nat)
    ensures
        read_lists(data, count).1 matches Ok(rest) ==> rest.len() <= data.len(),
    decreases count,
{
    if count > 0 {
        if let Ok((list, rest)) = read_list(data) {
            lemma_read_lists_len(rest, (count - 1) as nat);
        }
    }
}

/// Numbers that never decrease and are handed to a new writer one after the other, and
/// serialized, come out of a reader that loads the section, whatever follows it: as many,
/// in their order. The reader consumes the section and no more.
///
/// `states` are what the writer goes through, call by call of `writes`.
pub proof fn law_numbers_come_back(
    states: Seq<U64MonotonicValueWriter>,
    writes: Seq<&mut U64MonotonicValueWriter>,
    numbers: Seq<u64>,
    output: &mut Vec<u8>,
    data: &[u8],
    rest: Seq<u8>,
    reader: &mut U64MonotonicValueReader,
    consumed: Result<usize, Error>,
    count: Option<usize>,
)
    requires
        writes.len() == numbers.len() <= usize::MAX,
        states.len() == numbers.len() + 1,
        forall|i: int, j: int| 0 <= i <= j < numbers.len() ==> numbers[i] <= numbers[j],
        call_ensures(<U64MonotonicValueWriter as Default>::default, (), states[0]),
        forall|i: int|
            0 <= i < numbers.len() ==> {
                &&& *(#[trigger] writes[i]) == states[i]
                &&& *final(writes[i]) == states[i + 1]
                &&& call_ensures(
                    <U64MonotonicValueWriter as ValueWriter>::write,
                    (writes[i], &numbers[i]),
                    (),
                )
            },
        call_ensures(
            <U64MonotonicValueWriter as ValueWriter>::serialize_block,
            (&states.last(), output),
            (),
        ),
        data@ == (*final(output))@.skip((*old(output))@.len() as int) + rest,
        call_ensures(<U64MonotonicValueReader as ValueReader>::load, (reader, data), consumed),
        call_ensures(
            <U64MonotonicValueReader as ValueReader>::num_values,
            (&*final(reader),),
            count,
        ),
    ensures
        consumed matches Ok(num_bytes) && num_bytes == data@.len() - rest.len(),
        count == Some(numbers.len() as usize),
        forall|i: usize, value: &u64|
            i < numbers.len() && #[trigger] call_ensures(
                <U64MonotonicValueReader as ValueReader>::value,
                (&*final(reader), i),
                value,
            ) ==> *value == numbers[i as int],
{
    assert(states.last().recorded() == numbers) by {
        lemma_numbers_recorded(states, writes, numbers, numbers.len());
        assert(numbers =~= numbers.take(numbers.len() as int));
    }
    lemma_ascending(numbers, 0);
    let section = U64MonotonicValueWriter::encode(numbers);
    assert((*final(output))@.skip((*old(output))@.len() as int) =~= section);
    law_u64_monotonic_roundtrip(numbers, rest);
    assert((*final(reader)).loaded() == numbers);
}

proof fn lemma_ascending(numbers: Seq<u64>, prev: u64)
    requires
        forall|i: int, j: int| 0 <= i <= j < numbers.len() ==> numbers[i] <= numbers[j],
        numbers.len() > 0 ==> prev <= numbers[0],
    ensures
        ascending(numbers, prev),
    decreases numbers.len(),
{
    if numbers.len() > 0 {
        lemma_ascending(numbers.skip(1), numbers[0]);
    }
}

proof fn lemma_numbers_recorded(
    states: Seq<U64MonotonicValueWriter>,
    writes: Seq<&mut U64MonotonicValueWriter>,
    numbers: Seq<u64>,
    count: nat,
)
    requires
        count <= numbers.len(),
        writes.len() == numbers.len(),
        states.len() == numbers.len() + 1,
        call_ensures(<U64MonotonicValueWriter as Default>::default, (), states[0]),
        forall|i: int|
            0 <= i < numbers.len() ==> {
                &&& *(#[trigger] writes[i]) == states[i]
                &&& *final(writes[i]) == states[i + 1]
                &&& call_ensures(
                    <U64MonotonicValueWriter as ValueWriter>::write,
                    (writes[i], &numbers[i]),
                    (),
                )
            },
    ensures
        states[count as int].recorded() == numbers.take(count as int),
    decreases count,
{
    if count == 0 {
        assert(numbers.take(0) =~= Seq::empty());
    } else {
        let last = count - 1;
        lemma_numbers_recorded(states, writes, numbers, last as nat);
        assert(*writes[last] == states[last]);
        assert(numbers.take(count as int) =~= numbers.take(last).push(numbers[last]));
    }
}

/// The section of a new writer of numbers is a count of zero; a number that is written
/// adds one to the count, and its difference to the number before it, or to zero, behind
/// what was there. Counts and differences are continue-bit vints. A writer that was
/// cleared is as a new one.
///
/// `count` and `more` are the vints of the old and of the new count, `delta` is that of
/// the difference.
pub proof fn law_number_section(
    start: U64MonotonicValueWriter,
    none: &mut Vec<u8>,
    writer: &mut U64MonotonicValueWriter,
    number: u64,
    before: &mut Vec<u8>,
    after: &mut Vec<u8>,
    cleared: &mut U64MonotonicValueWriter,
    cleared_output: &mut Vec<u8>,
    count: &mut Vec<u8>,
    more: &mut Vec<u8>,
    delta: &mut Vec<u8>,
)
    requires
        call_ensures(<U64MonotonicValueWriter as Default>::default, (), start),
        call_ensures(
            <U64MonotonicValueWriter as ValueWriter>::serialize_block,
            (&start, none),
            (),
        ),
        (*old(none))@.len() == 0,
        call_ensures(
            <U64MonotonicValueWriter as ValueWriter>::serialize_block,
            (&*writer, before),
            (),
        ),
        (*old(before))@.len() == 0,
        call_ensures(<U64MonotonicValueWriter as ValueWriter>::write, (writer, &number), ()),
        call_ensures(
            <U64MonotonicValueWriter as ValueWriter>::serialize_block,
            (&*final(writer), after),
            (),
        ),
        (*old(after))@.len() == 0,
        call_ensures(<U64MonotonicValueWriter as ValueWriter>::clear, (cleared,), ()),
        call_ensures(
            <U64MonotonicValueWriter as ValueWriter>::serialize_block,
            (&*final(cleared), cleared_output),
            (),
        ),
        (*old(cleared_output))@.len() == 0,
        (*writer).recorded().len() < u64::MAX,
        U64MonotonicValueWriter::encodable((*final(writer)).recorded()),
        call_ensures(serialize_into_vec, ((*writer).recorded().len() as u64, count), ()),
        (*old(count))@.len() == 0,
        call_ensures(serialize_into_vec, (((*writer).recorded().len() + 1) as u64, more), ()),
        (*old(more))@.len() == 0,
        call_ensures(
            serialize_into_vec,
            (
                (number - (if (*writer).recorded().len() == 0 {
                    0
                } else {
                    (*writer).recorded().last()
                })) as u64,
                delta,
            ),
            (),
        ),
        (*old(delta))@.len() == 0,
    ensures
        start.recorded().len() == 0,
        (*final(cleared)).recorded().len() == 0,
        (*final(writer)).recorded() == (*old(writer)).recorded().push(number),
        (*final(none))@ == seq![0u8],
        (*final(cleared_output))@ == seq![0u8],
        (*final(before))@.take((*final(count))@.len() as int) == (*final(count))@,
        (*final(after))@ == (*final(more))@ + (*final(before))@.skip(
            (*final(count))@.len() as int,
        ) + (*final(delta))@,
{
    let numbers = (*writer).recorded();
    assert((*final(none))@ =~= seq![0u8]);
    assert((*final(cleared_output))@ =~= seq![0u8]);
    assert((*final(before))@ =~= encode_deltas(numbers));
    assert((*final(after))@ =~= encode_deltas(numbers.push(number)));
    lemma_deltas_append(numbers, number, 0);
    assert((*final(count))@ =~= vint_bytes(numbers.len()));
    assert((*final(more))@ =~= vint_bytes(numbers.len() + 1));
    assert((*final(before))@.skip((*final(count))@.len() as int) =~= deltas_bytes(numbers, 0));
    assert((*final(before))@.take((*final(count))@.len() as int) =~= (*final(count))@);
    assert((*final(after))@ =~= (*final(more))@ + (*final(before))@.skip(
        (*final(count))@.len() as int,
    ) + (*final(delta))@);
}

proof fn lemma_deltas_append(numbers: Seq<u64>, number: u64, prev: u64)
    requires
        ascending(numbers.push(number), prev),
    ensures
        ({
            let last = if numbers.len() == 0 {
                prev
            } else {
                numbers.last()
            };
            &&& last <= number
            &&& deltas_bytes(numbers.push(number), prev) == deltas_bytes(numbers, prev)
                + vint_bytes((number - last) as nat)
        }),
    decreases numbers.len(),
{
    let all = numbers.push(number);
    if numbers.len() == 0 {
        assert(all.skip(1) =~= Seq::empty());
        assert(deltas_bytes(all.skip(1), number) =~= Seq::empty());
        assert(deltas_bytes(all, prev) =~= deltas_bytes(numbers, prev) + vint_bytes(
            (number - prev) as nat,
        ));
    } else {
        assert(all.skip(1) =~= numbers.skip(1).push(number));
        lemma_deltas_append(numbers.skip(1), number, numbers[0]);
        if numbers.len() > 1 {
            assert(numbers.skip(1).last() == numbers.last());
        }
        assert(deltas_bytes(all, prev) =~= deltas_bytes(numbers, prev) + vint_bytes(
            (number - numbers.last()) as nat,
        ));
    }
}

/// What a reader of numbers makes of any bytes: it reads a count and then as many
/// differences, each by the checked vint, and adds them up. The first vint that cannot be
/// read, or sum that is no `u64`, ends the reading with its error; the numbers before it
/// stay.
///
/// `first` reads the count, `reads` the differences that can be read and added up; `sums`
/// are the numbers so far. `next` reads the difference behind them, if one is due.
pub proof fn law_number_load(
    data: &[u8],
    reader: &mut U64MonotonicValueReader,
    consumed: Result<usize, Error>,
    count: Option<usize>,
    first: &mut &[u8],
    num_values: Result<u64, Error>,
    reads: Seq<&mut &[u8]>,
    deltas: Seq<u64>,
    rests: Seq<Seq<u8>>,
    sums: Seq<u64>,
    next: &mut &[u8],
    next_delta: Result<u64, Error>,
)
    requires
        call_ensures(<U64MonotonicValueReader as ValueReader>::load, (reader, data), consumed),
        call_ensures(
            <U64MonotonicValueReader as ValueReader>::num_values,
            (&*final(reader),),
            count,
        ),
        (*old(first))@ == data@,
        call_ensures(deserialize_vint_u64, (first,), num_values),
        reads.len() == deltas.len() == sums.len(),
        rests.len() == deltas.len() + 1,
        num_values matches Ok(num_values) ==> deltas.len() <= num_values,
        rests[0] == (*final(first))@,
        forall|i: int|
            0 <= i < deltas.len() ==> {
                &&& (*(#[trigger] reads[i]))@ == rests[i]
                &&& (*final(reads[i]))@ == rests[i + 1]
                &&& call_ensures(
                    deserialize_vint_u64,
                    (reads[i],),
                    Ok::<u64, Error>(deltas[i]),
                )
                &&& sums[i] == deltas[i] + (if i == 0 {
                    0
                } else {
                    sums[i - 1] as int
                })
            },
        (*old(next))@ == rests.last(),
        call_ensures(deserialize_vint_u64, (next,), next_delta),
    ensures
        num_values matches Err(error) ==> {
            &&& consumed matches Err(reported)
            &&& reported.kind == error.kind
            &&& reported.message@ == error.message@
            &&& count == Some(0usize)
        },
        num_values matches Ok(num_values) ==> {
            &&& forall|i: usize, value: &u64|
                i < sums.len() && #[trigger] call_ensures(
                    <U64MonotonicValueReader as ValueReader>::value,
                    (&*final(reader), i),
                    value,
                ) ==> *value == sums[i as int]
            &&& deltas.len() == num_values ==> {
                &&& consumed matches Ok(num_bytes)
                &&& num_bytes == data@.len() - rests.last().len()
                &&& count == Some(num_values as usize)
            }
            &&& deltas.len() < num_values && next_delta is Err ==> {
                &&& consumed matches Err(reported)
                &&& reported.kind == next_delta->Err_0.kind
                &&& reported.message@ == next_delta->Err_0.message@
                &&& count == Some(deltas.len() as usize)
            }
            &&& deltas.len() < num_values && next_delta is Ok && (if sums.len() == 0 {
                0
            } else {
                sums.last() as int
            }) + next_delta->Ok_0 > u64::MAX ==> {
                &&& consumed matches Err(reported)
                &&& reported.kind == ErrorKind::InvalidData
                &&& reported.message@ == "sstable value block overflows a u64"@
                &&& count == Some(deltas.len() as usize)
            }
        },
{
    if let Ok(total) = num_values {
        let models = read_deltas(rests[0], total as nat, 0);
        assert forall|i: int| 0 <= i < deltas.len() implies {
            &&& read_vint_spec(#[trigger] rests[i]) == Ok::<u64, ErrorView>(deltas[i])
            &&& rests[i + 1] == rests[i].skip(vint_len(rests[i]) as int)
        } by {
            assert((*reads[i])@ == rests[i]);
        }
        assert forall|i: int| 0 <= i < deltas.len() implies #[trigger] sums[i] == deltas[i] + (
        if i == 0 {
            0
        } else {
            sums[i - 1] as int
        }) by {
            assert((*reads[i])@ == rests[i]);
        }
        lemma_read_deltas(rests, deltas, sums, total as nat, 0);
        lemma_vint_len(data@);
        lemma_rests_shrink(rests);
        let last = if sums.len() == 0 {
            0
        } else {
            sums.last()
        };
        let left = (total - deltas.len()) as nat;
        let (others, end) = read_deltas(rests.last(), left, last);
        assert(models.0 == sums + others);
        assert(models.1 == end);
        assert((*final(reader)).loaded() == models.0);
        assert(forall|i: int| 0 <= i < sums.len() ==> models.0[i] == #[trigger] sums[i]);
        if left == 0 {
            assert(models.0 =~= sums);
            assert(end == Ok::<Seq<u8>, ErrorView>(rests.last()));
        } else if next_delta is Err {
            assert(models.0 =~= sums);
        } else if last + next_delta->Ok_0 > u64::MAX {
            assert(models.0 =~= sums);
        }
    }
}

proof fn lemma_rests_shrink(rests: Seq<Seq<u8>>)
    requires
        rests.len() > 0,
        forall|i: int|
            0 <= i < rests.len() - 1 ==> rests[i + 1] == (#[trigger] rests[i]).skip(
                vint_len(rests[i]) as int,
            ),
    ensures
        rests.last().len() <= rests[0].len(),
    decreases rests.len(),
{
    if rests.len() > 1 {
        let tail = rests.skip(1);
        lemma_vint_len(rests[0]);
        assert forall|i: int| 0 <= i < tail.len() - 1 implies tail[i + 1] == (
        #[trigger] tail[i]).skip(vint_len(tail[i]) as int) by {
            assert(tail[i] == rests[i + 1]);
        }
        lemma_rests_shrink(tail);
        assert(rests[1] == rests[0].skip(vint_len(rests[0]) as int));
        assert(tail.last() == rests.last());
    }
}

proof fn lemma_read_deltas(
    rests: Seq<Seq<u8>>,
    deltas: Seq<u64>,
    sums: Seq<u64>,
    total: nat,
    prev: u64,
)
    requires
        deltas.len() == sums.len() <= total,
        rests.len() == deltas.len() + 1,
        forall|i: int|
            0 <= i < deltas.len() ==> {
                &&& read_vint_spec(#[trigger] rests[i]) == Ok::<u64, ErrorView>(deltas[i])
                &&& rests[i + 1] == rests[i].skip(vint_len(rests[i]) as int)
            },
        forall|i: int|
            0 <= i < deltas.len() ==> #[trigger] sums[i] == deltas[i] + (if i == 0 {
                prev as int
            } else {
                sums[i - 1] as int
            }),
    ensures
        ({
            let (found, end) = read_deltas(rests[0], total, prev);
            let (others, tail_end) = read_deltas(
                rests.last(),
                (total - deltas.len()) as nat,
                if sums.len() == 0 {
                    prev
                } else {
                    sums.last()
                },
            );
            &&& found == sums + others
            &&& end == tail_end
        }),
    decreases deltas.len(),
{
    if deltas.len() == 0 {
        assert(rests.last() == rests[0]);
        assert(sums + read_deltas(rests[0], total, prev).0 =~= read_deltas(
            rests[0],
            total,
            prev,
        ).0);
    } else {
        let rests1 = rests.skip(1);
        let deltas1 = deltas.skip(1);
        let sums1 = sums.skip(1);
        assert forall|i: int| 0 <= i < deltas1.len() implies {
            &&& read_vint_spec(#[trigger] rests1[i]) == Ok::<u64, ErrorView>(deltas1[i])
            &&& rests1[i + 1] == rests1[i].skip(vint_len(rests1[i]) as int)
        } by {
            assert(rests1[i] == rests[i + 1]);
        }
        assert forall|i: int| 0 <= i < deltas1.len() implies #[trigger] sums1[i] == deltas1[i] + (
        if i == 0 {
            sums[0] as int
        } else {
            sums1[i - 1] as int
        }) by {
            assert(sums1[i] == sums[i + 1]);
        }
        assert(sums[0] == deltas[0] + prev);
        assert(read_vint_spec(rests[0]) == Ok::<u64, ErrorView>(deltas[0]));
        lemma_read_deltas(rests1, deltas1, sums1, (total - 1) as nat, sums[0]);
        assert(rests1.last() == rests.last());
        assert(sums1.len() > 0 ==> sums1.last() == sums.last());
        let others = read_deltas(
            rests.last(),
            (total - deltas.len()) as nat,
            sums.last(),
        ).0;
        assert(seq![sums[0]] + (sums1 + others) =~= sums + others);
    }
}

/// Values that hold nothing take no bytes: their section is empty however many were
/// written, and a reader consumes nothing and does not count.
pub proof fn law_voids_take_nothing(
    writer: &mut VoidValueWriter,
    before: &mut Vec<u8>,
    after: &mut Vec<u8>,
    data: &[u8],
    reader: &mut VoidValueReader,
    consumed: Result<usize, Error>,
    count_before: Option<usize>,
    count: Option<usize>,
)
    requires
        call_ensures(<VoidValueWriter as ValueWriter>::serialize_block, (&*writer, before), ()),
        call_ensures(<VoidValueWriter as ValueWriter>::write, (writer, &()), ()),
        call_ensures(
            <VoidValueWriter as ValueWriter>::serialize_block,
            (&*final(writer), after),
            (),
        ),
        call_ensures(<VoidValueReader as ValueReader>::num_values, (&*reader,), count_before),
        call_ensures(<VoidValueReader as ValueReader>::load, (reader, data), consumed),
        call_ensures(<VoidValueReader as ValueReader>::num_values, (&*final(reader),), count),
    ensures
        (*final(before))@ == (*old(before))@,
        (*final(after))@ == (*old(after))@,
        consumed matches Ok(num_bytes) && num_bytes == 0,
        count_before is None,
        count is None,
{
    assert((*final(before))@ =~= (*old(before))@);
    assert((*final(after))@ =~= (*old(after))@);
}

} // verus!
