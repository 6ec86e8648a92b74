//! Values that are lists of `u32`, such as segment ids.

use crate::common::error::{invalid_data, Error, ErrorKind, ErrorView};
use crate::common::le::{law_le_u32_roundtrip, le_bytes, le_value, push_u32_le};
use crate::sstable::value::{read_u32, read_u32_spec, ValueReader, ValueWriter};
use vstd::prelude::*;

verus! {

/// Reads blocks of `Vec<u32>` values.
pub struct VecU32ValueReader {
    vals: Vec<Vec<u32>>,
}

/// The lists that `vals` hold.
pub open spec fn lists(vals: Seq<Vec<u32>>) -> Seq<Seq<u32>> {
    vals.map_values(|list: Vec<u32>| list@)
}

/// The list of `len` little-endian `u32` that `data` starts with.
pub open spec fn ids_at(data: Seq<u8>, len: nat) -> Seq<u32> {
    Seq::new(len, |i: int| le_value(data.subrange(4 * i, 4 * i + 4)) as u32)
}

/// Reads one list from the start of `data`: its ids and the bytes that follow.
pub open spec fn read_list(data: Seq<u8>) -> Result<(Seq<u32>, Seq<u8>), ErrorView> {
    match read_u32_spec(data) {
        Err(error) => Err(error),
        Ok(len) => if data.skip(4).len() / 4 < len {
            Err(
                (
                    ErrorKind::InvalidData,
                    "sstable value block announces more segment ids than it holds"@,
                ),
            )
        } else {
            Ok((ids_at(data.skip(4), len as nat), data.skip(4 + 4 * len)))
        },
    }
}

/// Reads `count` lists from the start of `data`: the lists up to the first
/// failure, and the bytes that follow them or that failure.
pub open spec fn read_lists(data: Seq<u8>, count: nat) -> (
    Seq<Seq<u32>>,
    Result<Seq<u8>, ErrorView>,
)
    decreases count,
{
    if count == 0 {
        (Seq::empty(), Ok(data))
    } else {
        match read_list(data) {
            Err(error) => (Seq::empty(), Err(error)),
            Ok((list, rest)) => {
                let (others, end) = read_lists(rest, (count - 1) as nat);
                (seq![list] + others, end)
            },
        }
    }
}

/// What loading `data` gives.
pub open spec fn decode_lists(data: Seq<u8>) -> (Seq<Seq<u32>>, Result<nat, ErrorView>) {
    match read_u32_spec(data) {
        Err(error) => (Seq::empty(), Err(error)),
        Ok(count) => {
            let (lists, end) = read_lists(data.skip(4), count as nat);
            match end {
                Err(error) => (lists, Err(error)),
                Ok(rest) => (lists, Ok((data.len() - rest.len()) as nat)),
            }
        },
    }
}

/// The bytes of one list: its length, then its ids.
pub open spec fn list_bytes(list: Seq<u32>) -> Seq<u8> {
    le_bytes(list.len(), 4) + ids_bytes(list)
}

/// The bytes of `ids`, one after the other.
pub open spec fn ids_bytes(ids: Seq<u32>) -> Seq<u8>
    decreases ids.len(),
{
    if ids.len() == 0 {
        Seq::empty()
    } else {
        le_bytes(ids[0] as nat, 4) + ids_bytes(ids.skip(1))
    }
}

/// The bytes of `lists`, one after the other.
pub open spec fn lists_bytes(lists: Seq<Seq<u32>>) -> Seq<u8>
    decreases lists.len(),
{
    if lists.len() == 0 {
        Seq::empty()
    } else {
        list_bytes(lists[0]) + lists_bytes(lists.skip(1))
    }
}

/// The value section that holds `lists`: their number, then the lists.
pub open spec fn encode_lists(lists: Seq<Seq<u32>>) -> Seq<u8> {
    le_bytes(lists.len(), 4) + lists_bytes(lists)
}

impl Default for VecU32ValueReader {
    fn default() -> (reader: Self)
        ensures
            reader.loaded() == Seq::<Seq<u32>>::empty(),
    {
        let reader = VecU32ValueReader { vals: Vec::new() };
        assert(lists(reader.vals@) =~= Seq::empty());
        reader
    }
}

impl ValueReader for VecU32ValueReader {
    type Value = Vec<u32>;

    type Model = Seq<u32>;

    open spec fn model(value: Vec<u32>) -> Seq<u32> {
        value@
    }

    closed spec fn loaded(&self) -> Seq<Seq<u32>> {
        lists(self.vals@)
    }

    open spec fn decode(data: Seq<u8>) -> (Seq<Seq<u32>>, Result<nat, ErrorView>) {
        decode_lists(data)
    }

    open spec fn counts_values(&self) -> bool {
        true
    }

    open spec fn decode_counts(data: Seq<u8>) -> bool {
        true
    }

    fn value(&self, idx: usize) -> (value: &Vec<u32>) {
        &self.vals[idx]
    }

    fn num_values(&self) -> (num_values: Option<usize>)
        ensures
            num_values is Some,
    {
        Some(self.vals.len())
    }

    proof fn lemma_num_values(&self, num_values: Option<usize>) {
    }

    fn load(&mut self, data: &[u8]) -> (consumed: Result<usize, Error>) {
        let mut rest: &[u8] = data;
        self.vals.clear();
        assert(lists(self.vals@) =~= Seq::empty());

        // The first 4 bytes are the number of blocks
        let num_blocks: u32 = match read_u32(&mut rest) {
            Ok(num_blocks) => num_blocks,
            Err(error) => return Err(error),
        };
        let ghost whole = read_lists(rest@, num_blocks as nat);
        assert(lists(self.vals@) + whole.0 =~= whole.0);

        let mut block: u32 = 0;
        while block < num_blocks
            invariant
                block <= num_blocks,
                data@.len() >= 4,
                read_u32_spec(data@) == Ok::<u32, ErrorView>(num_blocks),
                whole == read_lists(data@.skip(4), num_blocks as nat),
                rest@.len() <= data@.len(),
                lists(self.vals@) + read_lists(rest@, (num_blocks - block) as nat).0 == whole.0,
                read_lists(rest@, (num_blocks - block) as nat).1 == whole.1,
            decreases num_blocks - block,
        {
            let ghost before = rest@;
            let ghost done = lists(self.vals@);
            // Each block starts with a 4-byte length
            let segment_len: u32 = match read_u32(&mut rest) {
                Ok(segment_len) => segment_len,
                Err(error) => {
                    assert(done + Seq::<Seq<u32>>::empty() =~= done);
                    return Err(error);
                },
            };
            // `segment_len` comes out of the block, so make sure the ids it
            // announces are actually there before reserving room for them.
            if rest.len() / 4 < segment_len as usize {
                assert(done + Seq::<Seq<u32>>::empty() =~= done);
                return Err(
                    invalid_data("sstable value block announces more segment ids than it holds"),
                );
            }
            // Read the segment IDs for this block
            let ghost ids = rest@;
            let mut segment_ids: Vec<u32> = Vec::with_capacity(segment_len as usize);
            let mut id: u32 = 0;
            while id < segment_len
                invariant
                    id <= segment_len,
                    segment_len <= ids.len() / 4,
                    rest@ == ids.skip(4 * id),
                    segment_ids@ == ids_at(ids, id as nat),
                decreases segment_len - id,
            {
                let segment_id: u32 = match read_u32(&mut rest) {
                    Ok(segment_id) => segment_id,
                    Err(error) => {
                        assert(false);
                        return Err(error);
                    },
                };
                assert(ids.skip(4 * id).take(4) =~= ids.subrange(4 * id, 4 * id + 4));
                segment_ids.push(segment_id);
                assert(segment_ids@ =~= ids_at(ids, (id + 1) as nat));
                assert(ids.skip(4 * id).skip(4) =~= ids.skip(4 * (id + 1)));
                id += 1;
            }
            let ghost list = segment_ids@;
            self.vals.push(segment_ids);
            proof {
                let remaining = (num_blocks - block) as nat;
                assert(before.skip(4).skip(4 * segment_len) =~= before.skip(4 + 4 * segment_len));
                assert(lists(self.vals@) =~= done.push(list));
                let others = read_lists(rest@, (remaining - 1) as nat).0;
                assert(done.push(list) + others =~= done + (seq![list] + others));
            }
            block += 1;
        }

        // Return the number of bytes consumed
        assert(lists(self.vals@) + Seq::<Seq<u32>>::empty() =~= lists(self.vals@));
        Ok(data.len() - rest.len())
    }
}

/// Writes blocks of `Vec<u32>` values.
pub struct VecU32ValueWriter {
    vals: Vec<Vec<u32>>,
}

impl Default for VecU32ValueWriter {
    fn default() -> (writer: Self)
        ensures
            writer.recorded() == Seq::<Seq<u32>>::empty(),
    {
        let writer = VecU32ValueWriter { vals: Vec::new() };
        assert(lists(writer.vals@) =~= Seq::empty());
        writer
    }
}

impl ValueWriter for VecU32ValueWriter {
    type Value = Vec<u32>;

    type Model = Seq<u32>;

    open spec fn model(value: Vec<u32>) -> Seq<u32> {
        value@
    }

    closed spec fn recorded(&self) -> Seq<Seq<u32>> {
        lists(self.vals@)
    }

    open spec fn encodable(values: Seq<Seq<u32>>) -> bool {
        true
    }

    open spec fn encode(values: Seq<Seq<u32>>) -> Seq<u8> {
        encode_lists(values)
    }

    proof fn lemma_default_is_empty(writer: Self) {
    }

    fn write(&mut self, val: &Vec<u32>) {
        let copy: Vec<u32> = vstd::slice::slice_to_vec(val.as_slice());
        self.vals.push(copy);
        assert(lists(self.vals@) =~= lists(old(self).vals@).push(val@));
    }

    fn serialize_block(&self, output: &mut Vec<u8>) {
        let ghost start = output@;
        push_u32_le(self.vals.len() as u64, output);
        let ghost all = lists(self.vals@);
        assert(all.skip(0) =~= all);
        assert(output@ + lists_bytes(all) =~= start + encode_lists(all));
        let mut i: usize = 0;
        while i < self.vals.len()
            invariant
                i <= self.vals@.len(),
                all == lists(self.vals@),
                output@ + lists_bytes(all.skip(i as int)) == start + encode_lists(all),
            decreases self.vals@.len() - i,
        {
            let vals: &Vec<u32> = &self.vals[i];
            let ghost before = output@;
            push_u32_le(vals.len() as u64, output);
            assert(vals@.skip(0) =~= vals@);
            assert(output@ + ids_bytes(vals@) =~= before + list_bytes(vals@));
            let mut j: usize = 0;
            while j < vals.len()
                invariant
                    j <= vals@.len(),
                    output@ + ids_bytes(vals@.skip(j as int)) == before + list_bytes(vals@),
                decreases vals@.len() - j,
            {
                let ghost sofar = output@;
                push_u32_le(vals[j] as u64, output);
                assert(vals@.skip(j as int).skip(1) =~= vals@.skip(j + 1));
                assert(output@ + ids_bytes(vals@.skip(j + 1)) =~= sofar + ids_bytes(
                    vals@.skip(j as int),
                ));
                j += 1;
            }
            assert(output@ =~= before + list_bytes(vals@));
            assert(all.skip(i as int).skip(1) =~= all.skip(i + 1));
            assert(output@ + lists_bytes(all.skip(i + 1)) =~= before + lists_bytes(
                all.skip(i as int),
            ));
            i += 1;
        }
        assert(output@ =~= start + encode_lists(all));
    }

    fn clear(&mut self) {
        self.vals.clear();
        assert(lists(self.vals@) =~= Seq::empty());
    }
}

/// The ids are read back from their bytes, whatever follows them.
proof fn lemma_ids_roundtrip(ids: Seq<u32>, rest: Seq<u8>)
    ensures
        ids_bytes(ids).len() == 4 * ids.len(),
        ids_at(ids_bytes(ids) + rest, ids.len()) == ids,
    decreases ids.len(),
{
    if ids.len() > 0 {
        let others = ids.skip(1);
        lemma_ids_roundtrip(others, rest);
        law_le_u32_roundtrip(ids[0]);
        let data = ids_bytes(ids) + rest;
        let tail = ids_bytes(others) + rest;
        assert forall|i: int| 0 <= i < ids.len() implies ids_at(data, ids.len())[i] == ids[i] by {
            if i == 0 {
                assert(data.subrange(0, 4) =~= le_bytes(ids[0] as nat, 4));
            } else {
                assert(data.subrange(4 * i, 4 * i + 4) =~= tail.subrange(
                    4 * (i - 1),
                    4 * (i - 1) + 4,
                ));
                assert(ids_at(tail, others.len())[i - 1] == others[i - 1]);
            }
        }
    }
    assert(ids_at(ids_bytes(ids) + rest, ids.len()) =~= ids);
}

/// A list is read back from its bytes, whatever follows them.
proof fn lemma_list_roundtrip(list: Seq<u32>, rest: Seq<u8>)
    requires
        list.len() <= u32::MAX,
    ensures
        read_list(list_bytes(list) + rest) == Ok::<(Seq<u32>, Seq<u8>), ErrorView>((list, rest)),
{
    let data = list_bytes(list) + rest;
    law_le_u32_roundtrip(list.len() as u32);
    lemma_ids_roundtrip(list, rest);
    assert(data.take(4) =~= le_bytes(list.len(), 4));
    assert(data.skip(4) =~= ids_bytes(list) + rest);
    assert(data.skip((4 + 4 * list.len()) as int) =~= rest);
}

/// Lists are read back from their bytes, whatever follows them.
proof fn lemma_lists_roundtrip(lists: Seq<Seq<u32>>, rest: Seq<u8>)
    requires
        forall|i: int| 0 <= i < lists.len() ==> (#[trigger] lists[i]).len() <= u32::MAX,
    ensures
        read_lists(lists_bytes(lists) + rest, lists.len()) == (
            lists,
            Ok::<Seq<u8>, ErrorView>(rest),
        ),
    decreases lists.len(),
{
    if lists.len() == 0 {
        assert(lists =~= Seq::empty());
        assert(lists_bytes(lists) + rest =~= rest);
    } else {
        let others = lists.skip(1);
        lemma_lists_roundtrip(others, rest);
        lemma_list_roundtrip(lists[0], lists_bytes(others) + rest);
        assert(lists_bytes(lists) + rest =~= list_bytes(lists[0]) + (lists_bytes(others) + rest));
        assert(seq![lists[0]] + others =~= lists);
    }
}

/// A value section gives back the lists that were written, and nothing but the
/// section is consumed, whatever follows it.
///
/// The number of lists and the length of each are stored in 32 bits.
pub proof fn law_vec_u32_roundtrip(values: Seq<Seq<u32>>, rest: Seq<u8>)
    requires
        values.len() <= u32::MAX,
        forall|i: int| 0 <= i < values.len() ==> (#[trigger] values[i]).len() <= u32::MAX,
    ensures
        VecU32ValueReader::decode(VecU32ValueWriter::encode(values) + rest) == (
            values,
            Ok::<nat, ErrorView>(VecU32ValueWriter::encode(values).len()),
        ),
{
    let data = encode_lists(values) + rest;
    law_le_u32_roundtrip(values.len() as u32);
    lemma_lists_roundtrip(values, rest);
    assert(data.take(4) =~= le_bytes(values.len(), 4));
    assert(data.skip(4) =~= lists_bytes(values) + rest);
}

} // verus!
