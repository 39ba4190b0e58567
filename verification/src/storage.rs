//! The index as bytes, for keeping it between runs.
//!
//! The layout is: a magic number (4 bytes), the dimension (8 bytes), the
//! number of entries (8 bytes), then the entries one after the other. An entry
//! is one byte for the kind of record, 8 bytes for the identifier and 4 bytes
//! for each component of the vector. Numbers are little-endian. Signed numbers
//! are stored with an offset that makes them unsigned: the smallest value is
//! stored as zero.

use vstd::prelude::*;
use vstd::bytes::{
    lemma_auto_spec_u32_to_from_le_bytes,
    lemma_auto_spec_u64_to_from_le_bytes,
    spec_u32_from_le_bytes,
    spec_u32_to_le_bytes,
    spec_u64_from_le_bytes,
    spec_u64_to_le_bytes,
    u32_from_le_bytes,
    u32_to_le_bytes,
    u64_from_le_bytes,
    u64_to_le_bytes,
};
use vstd::slice::slice_subrange;
use crate::index::{EntryModel, IndexEntry, IndexModel, entry_models, uniform_dimension};
use crate::tag::{RecordKind, Tag};

verus! {

/// The number that every stored index starts with.
pub const STORAGE_MAGIC: u32 = 0x4958_4c48;

/// Number of bytes before the first entry.
pub const HEADER_LEN: usize = 20;

/// What is added to a component to store it.
pub open spec fn component_offset() -> int {
    0x8000_0000
}

/// What is added to an identifier to store it.
pub open spec fn id_offset() -> int {
    0x8000_0000_0000_0000
}

/// The byte that stands for a kind of record.
pub open spec fn kind_byte(kind: RecordKind) -> u8 {
    match kind {
        RecordKind::Activity => 0u8,
        RecordKind::Document => 1u8,
    }
}

/// The kind of record that a byte stands for, if any.
pub open spec fn kind_of_byte(byte: u8) -> Option<RecordKind> {
    if byte == 0 {
        Some(RecordKind::Activity)
    } else if byte == 1 {
        Some(RecordKind::Document)
    } else {
        None
    }
}

/// Number of bytes of an entry of an index of the given dimension.
pub open spec fn entry_len(dimension: nat) -> nat {
    9 + 4 * dimension
}

/// The bytes of one component.
pub open spec fn encoded_component(component: i32) -> Seq<u8> {
    spec_u32_to_le_bytes((component + component_offset()) as u32)
}

/// The bytes of a vector: those of its components, one after the other.
pub open spec fn encoded_vector(vector: Seq<i32>) -> Seq<u8>
    decreases vector.len(),
{
    if vector.len() == 0 {
        Seq::empty()
    } else {
        encoded_vector(vector.drop_last()) + encoded_component(vector.last())
    }
}

/// The bytes of an entry: kind, identifier, vector.
pub open spec fn encoded_entry(entry: EntryModel) -> Seq<u8> {
    seq![kind_byte(entry.tag.kind)] + spec_u64_to_le_bytes((entry.tag.id + id_offset()) as u64)
        + encoded_vector(entry.vector)
}

/// The bytes of a list of entries, one after the other.
pub open spec fn encoded_entries(entries: Seq<EntryModel>) -> Seq<u8>
    decreases entries.len(),
{
    if entries.len() == 0 {
        Seq::empty()
    } else {
        encoded_entries(entries.drop_last()) + encoded_entry(entries.last())
    }
}

/// The bytes of an index.
pub open spec fn encoded_index(model: IndexModel) -> Seq<u8> {
    spec_u32_to_le_bytes(STORAGE_MAGIC) + spec_u64_to_le_bytes(model.dimension as u64)
        + spec_u64_to_le_bytes(model.entries.len() as u64) + encoded_entries(model.entries)
}

/// The 32-bit number stored at `at`.
pub open spec fn read_u32(bytes: Seq<u8>, at: int) -> u32 {
    spec_u32_from_le_bytes(bytes.subrange(at, at + 4))
}

/// The 64-bit number stored at `at`.
pub open spec fn read_u64(bytes: Seq<u8>, at: int) -> u64 {
    spec_u64_from_le_bytes(bytes.subrange(at, at + 8))
}

/// The component stored at `at`.
pub open spec fn component_at(bytes: Seq<u8>, at: int) -> i32 {
    (read_u32(bytes, at) - component_offset()) as i32
}

/// The vector of `dimension` components stored from `at` on.
pub open spec fn vector_at(bytes: Seq<u8>, at: int, dimension: nat) -> Seq<i32> {
    Seq::new(dimension, |j: int| component_at(bytes, at + 4 * j))
}

/// The entry stored from `at` on, if the byte for its kind stands for one.
pub open spec fn entry_at(bytes: Seq<u8>, at: int, dimension: nat) -> Option<EntryModel> {
    match kind_of_byte(bytes[at]) {
        Some(kind) => Some(
            EntryModel {
                tag: Tag { kind, id: (read_u64(bytes, at + 1) - id_offset()) as i64 },
                vector: vector_at(bytes, at + 9, dimension),
            },
        ),
        None => None,
    }
}

/// Where entry number `i` starts.
pub open spec fn entry_start(dimension: nat, i: int) -> int {
    HEADER_LEN + i * entry_len(dimension)
}

/// Whether `bytes` holds a stored index: it starts with the magic number, the
/// dimension it names fits this machine, it is exactly as long as the number
/// of entries it names takes, and each entry's kind is one that exists.
pub open spec fn is_stored_index(bytes: Seq<u8>) -> bool {
    &&& bytes.len() >= HEADER_LEN
    &&& read_u32(bytes, 0) == STORAGE_MAGIC
    &&& read_u64(bytes, 4) <= usize::MAX
    &&& bytes.len() == entry_start(read_u64(bytes, 4) as nat, read_u64(bytes, 12) as int)
    &&& forall|i: int|
        0 <= i < read_u64(bytes, 12) ==> (#[trigger] entry_at(
            bytes,
            entry_start(read_u64(bytes, 4) as nat, i),
            read_u64(bytes, 4) as nat,
        )) is Some
}

/// The index that `bytes` holds, if it holds one.
pub open spec fn decoded_index(bytes: Seq<u8>) -> Option<IndexModel> {
    if is_stored_index(bytes) {
        let dimension = read_u64(bytes, 4) as nat;
        Some(
            IndexModel {
                dimension,
                entries: Seq::new(
                    read_u64(bytes, 12) as nat,
                    |i: int| entry_at(bytes, entry_start(dimension, i), dimension)->0,
                ),
            },
        )
    } else {
        None
    }
}

/// Appends the bytes of a vector.
fn append_vector(out: &mut Vec<u8>, vector: &Vec<i32>)
    ensures
        final(out)@ == old(out)@ + encoded_vector(vector@),
{
    let n: usize = vector.len();
    let mut i: usize = 0;
    proof {
        assert(vector@.subrange(0, 0) =~= Seq::<i32>::empty());
        assert(out@ =~= old(out)@ + encoded_vector(vector@.subrange(0, 0)));
    }
    while i < n
        invariant
            n == vector@.len(),
            i <= n,
            out@ == old(out)@ + encoded_vector(vector@.subrange(0, i as int)),
        decreases n - i,
    {
        let shifted: u32 = (vector[i] as i64 + 0x8000_0000) as u32;
        let mut piece = u32_to_le_bytes(shifted);
        proof {
            let longer = vector@.subrange(0, i + 1);
            assert(longer.drop_last() =~= vector@.subrange(0, i as int));
            assert(longer.last() == vector@[i as int]);
            assert(old(out)@ + encoded_vector(vector@.subrange(0, i as int)) + piece@ =~= old(out)@
                + encoded_vector(longer));
        }
        out.append(&mut piece);
        i = i + 1;
    }
    proof {
        assert(vector@.subrange(0, n as int) =~= vector@);
    }
}

/// Appends the bytes of an entry.
fn append_entry(out: &mut Vec<u8>, entry: &IndexEntry)
    ensures
        final(out)@ == old(out)@ + encoded_entry(entry@),
{
    let kind: u8 = match entry.tag.kind {
        RecordKind::Activity => 0,
        RecordKind::Document => 1,
    };
    out.push(kind);
    let shifted: u64 = (entry.tag.id as i128 + 0x8000_0000_0000_0000) as u64;
    let mut id = u64_to_le_bytes(shifted);
    out.append(&mut id);
    let ghost before = out@;
    append_vector(out, &entry.vector);
    proof {
        assert(before =~= old(out)@ + seq![kind_byte(entry@.tag.kind)] + spec_u64_to_le_bytes(
            (entry@.tag.id + id_offset()) as u64,
        ));
        assert(out@ =~= old(out)@ + encoded_entry(entry@));
    }
}

/// Writes an index of the given dimension and entries as bytes.
pub fn encode(dimension: usize, entries: &Vec<IndexEntry>) -> (bytes: Vec<u8>)
    ensures
        bytes@ == encoded_index(
            IndexModel { dimension: dimension as nat, entries: entry_models(entries@) },
        ),
{
    let ghost all = entry_models(entries@);
    let mut out = u32_to_le_bytes(STORAGE_MAGIC);
    let mut piece = u64_to_le_bytes(dimension as u64);
    out.append(&mut piece);
    let n: usize = entries.len();
    let mut piece = u64_to_le_bytes(n as u64);
    out.append(&mut piece);
    let ghost header = out@;
    let mut i: usize = 0;
    proof {
        assert(all.subrange(0, 0) =~= Seq::<EntryModel>::empty());
        assert(out@ =~= header + encoded_entries(all.subrange(0, 0)));
    }
    while i < n
        invariant
            n == entries@.len(),
            all == entry_models(entries@),
            i <= n,
            out@ == header + encoded_entries(all.subrange(0, i as int)),
        decreases n - i,
    {
        proof {
            let longer = all.subrange(0, i + 1);
            assert(longer.drop_last() =~= all.subrange(0, i as int));
            assert(longer.last() == entries@[i as int]@);
            assert(header + encoded_entries(all.subrange(0, i as int)) + encoded_entry(
                entries@[i as int]@,
            ) =~= header + encoded_entries(longer));
        }
        append_entry(&mut out, &entries[i]);
        i = i + 1;
    }
    proof {
        assert(all.subrange(0, n as int) =~= all);
    }
    out
}

/// Reads a stored index: its dimension and its entries in the order in which
/// they are stored. Bytes that hold no index give `None`.
pub fn decode(bytes: &Vec<u8>) -> (stored: Option<(usize, Vec<IndexEntry>)>)
    ensures
        match stored {
            Some((dimension, entries)) => decoded_index(bytes@) == Some(
                IndexModel { dimension: dimension as nat, entries: entry_models(entries@) },
            ),
            None => decoded_index(bytes@) is None,
        },
{
    let n: usize = bytes.len();
    if n < HEADER_LEN {
        return None;
    }
    let all = bytes.as_slice();
    if u32_from_le_bytes(slice_subrange(all, 0, 4)) != STORAGE_MAGIC {
        return None;
    }
    let stored_dimension: u64 = u64_from_le_bytes(slice_subrange(all, 4, 12));
    let stored_count: u64 = u64_from_le_bytes(slice_subrange(all, 12, 20));
    if stored_dimension > usize::MAX as u64 {
        return None;
    }
    let dimension: usize = stored_dimension as usize;
    let body: usize = n - HEADER_LEN;
    let ghost d = dimension as nat;
    let ghost c = stored_count as int;
    let ghost size = entry_len(d) as int;
    let mut entries: Vec<IndexEntry> = Vec::new();
    if stored_count == 0 {
        if body != 0 {
            return None;
        }
        proof {
            assert(is_stored_index(bytes@));
            assert(entry_models(entries@) =~= decoded_index(bytes@)->0.entries);
        }
        return Some((dimension, entries));
    }
    if body < 9 || dimension > (body - 9) / 4 {
        proof {
            assert(size > body);
            assert(c * size >= size) by (nonlinear_arith)
                requires
                    c >= 1,
                    size >= 0,
            ;
        }
        return None;
    }
    let each: usize = 9 + 4 * dimension;
    if body % each != 0 || (body / each) as u64 != stored_count {
        proof {
            if body == c * size {
                lemma_exact_division(body as int, size, c);
            }
        }
        return None;
    }
    let count: usize = body / each;
    proof {
        assert(body as int == count * each) by (nonlinear_arith)
            requires
                body % each == 0,
                count == body / each,
                each > 0,
        ;
    }
    let mut at: usize = HEADER_LEN;
    let mut i: usize = 0;
    while i < count
        invariant
            n == bytes@.len(),
            all@ == bytes@,
            each == size,
            size == entry_len(d),
            d == dimension,
            count == c,
            c == read_u64(bytes@, 12),
            d == read_u64(bytes@, 4),
            read_u32(bytes@, 0) == STORAGE_MAGIC,
            n == HEADER_LEN + count * each,
            i <= count,
            at == entry_start(d, i as int),
            entries@.len() == i,
            forall|k: int|
                0 <= k < i ==> entry_at(bytes@, entry_start(d, k), d) == Some(
                    (#[trigger] entries@[k])@,
                ),
        decreases count - i,
    {
        proof {
            assert((i + 1) * each <= count * each) by (nonlinear_arith)
                requires
                    i + 1 <= count,
                    each >= 0,
            ;
            assert((i + 1) * each == i * each + each) by (nonlinear_arith);
        }
        let kind = if bytes[at] == 0 {
            RecordKind::Activity
        } else if bytes[at] == 1 {
            RecordKind::Document
        } else {
            proof {
                assert(entry_at(bytes@, entry_start(d, i as int), d) is None);
            }
            return None;
        };
        let raw: u64 = u64_from_le_bytes(slice_subrange(all, at + 1, at + 9));
        let id: i64 = (raw as i128 - 0x8000_0000_0000_0000) as i64;
        let mut vector: Vec<i32> = Vec::new();
        let mut j: usize = 0;
        while j < dimension
            invariant
                n == bytes@.len(),
                all@ == bytes@,
                d == dimension,
                each == 9 + 4 * dimension,
                at + each <= n,
                j <= dimension,
                vector@.len() == j,
                forall|t: int|
                    0 <= t < j ==> #[trigger] vector@[t] == component_at(bytes@, at + 9 + 4 * t),
            decreases dimension - j,
        {
            let from: usize = at + 9 + 4 * j;
            let stored: u32 = u32_from_le_bytes(slice_subrange(all, from, from + 4));
            vector.push((stored as i64 - 0x8000_0000) as i32);
            j = j + 1;
        }
        proof {
            assert(vector@ =~= vector_at(bytes@, at + 9, d));
        }
        entries.push(IndexEntry { tag: Tag { kind, id }, vector });
        at = at + each;
        i = i + 1;
    }
    proof {
        assert forall|k: int| 0 <= k < c implies (#[trigger] entry_at(
            bytes@,
            entry_start(d, k),
            d,
        )) is Some by {
            assert(entry_at(bytes@, entry_start(d, k), d) == Some(entries@[k]@));
        }
        assert(is_stored_index(bytes@));
        assert(entry_models(entries@) =~= decoded_index(bytes@)->0.entries);
    }
    Some((dimension, entries))
}

/// If `whole` is `count` pieces of `size` each, then `count` is the quotient
/// and nothing is left over.
proof fn lemma_exact_division(whole: int, size: int, count: int)
    requires
        whole == count * size,
        size > 0,
        count >= 0,
    ensures
        whole % size == 0,
        whole / size == count,
{
    vstd::arithmetic::div_mod::lemma_fundamental_div_mod_converse(whole, size, count, 0);
}

/// The part of a part is a part of the whole.
proof fn lemma_subrange_within(whole: Seq<u8>, at: int, part: Seq<u8>, from: int, to: int)
    requires
        0 <= at,
        at + part.len() <= whole.len(),
        whole.subrange(at, at + part.len()) == part,
        0 <= from <= to <= part.len(),
    ensures
        whole.subrange(at + from, at + to) == part.subrange(from, to),
{
    assert(whole.subrange(at + from, at + to) =~= whole.subrange(at, at + part.len()).subrange(
        from,
        to,
    ));
}

/// How the bytes of a vector are laid out: four for each component, in order.
proof fn lemma_encoded_vector_layout(vector: Seq<i32>)
    ensures
        encoded_vector(vector).len() == 4 * vector.len(),
        forall|j: int|
            0 <= j < vector.len() ==> #[trigger] encoded_vector(vector).subrange(4 * j, 4 * j + 4)
                == encoded_component(vector[j]),
    decreases vector.len(),
{
    lemma_auto_spec_u32_to_from_le_bytes();
    if vector.len() > 0 {
        let front = vector.drop_last();
        let last = encoded_component(vector.last());
        lemma_encoded_vector_layout(front);
        let whole = encoded_vector(vector);
        assert(whole == encoded_vector(front) + last);
        assert forall|j: int| 0 <= j < vector.len() implies #[trigger] whole.subrange(
            4 * j,
            4 * j + 4,
        ) == encoded_component(vector[j]) by {
            if j < front.len() {
                assert(whole.subrange(4 * j, 4 * j + 4) =~= encoded_vector(front).subrange(
                    4 * j,
                    4 * j + 4,
                ));
                assert(front[j] == vector[j]);
            } else {
                assert(whole.subrange(4 * j, 4 * j + 4) =~= last);
            }
        }
    }
}

/// How the bytes of an entry are laid out.
proof fn lemma_encoded_entry_layout(entry: EntryModel)
    ensures
        encoded_entry(entry).len() == entry_len(entry.vector.len()),
        encoded_entry(entry)[0] == kind_byte(entry.tag.kind),
        encoded_entry(entry).subrange(1, 9) == spec_u64_to_le_bytes(
            (entry.tag.id + id_offset()) as u64,
        ),
        forall|j: int|
            0 <= j < entry.vector.len() ==> #[trigger] encoded_entry(entry).subrange(
                9 + 4 * j,
                9 + 4 * j + 4,
            ) == encoded_component(entry.vector[j]),
{
    lemma_auto_spec_u64_to_from_le_bytes();
    lemma_encoded_vector_layout(entry.vector);
    let whole = encoded_entry(entry);
    let id = spec_u64_to_le_bytes((entry.tag.id + id_offset()) as u64);
    let vector = encoded_vector(entry.vector);
    assert(whole.subrange(1, 9) =~= id);
    assert forall|j: int| 0 <= j < entry.vector.len() implies #[trigger] whole.subrange(
        9 + 4 * j,
        9 + 4 * j + 4,
    ) == encoded_component(entry.vector[j]) by {
        assert(whole.subrange(9 + 4 * j, 9 + 4 * j + 4) =~= vector.subrange(4 * j, 4 * j + 4));
    }
}

/// How the bytes of a list of entries of one dimension are laid out: each
/// entry takes `entry_len(dimension)` bytes, in order.
proof fn lemma_encoded_entries_layout(entries: Seq<EntryModel>, dimension: nat)
    requires
        uniform_dimension(entries, dimension),
    ensures
        encoded_entries(entries).len() == entries.len() * entry_len(dimension),
        forall|i: int|
            0 <= i < entries.len() ==> #[trigger] encoded_entries(entries).subrange(
                i * entry_len(dimension),
                i * entry_len(dimension) + entry_len(dimension),
            ) == encoded_entry(entries[i]),
    decreases entries.len(),
{
    let size = entry_len(dimension) as int;
    if entries.len() == 0 {
        assert(entries.len() * entry_len(dimension) == 0) by (nonlinear_arith)
            requires
                entries.len() == 0,
        ;
    } else {
        let front = entries.drop_last();
        let last = encoded_entry(entries.last());
        assert forall|i: int| 0 <= i < front.len() implies (#[trigger] front[i]).vector.len()
            == dimension by {
            assert(front[i] == entries[i]);
        }
        lemma_encoded_entries_layout(front, dimension);
        lemma_encoded_entry_layout(entries.last());
        assert(entries[entries.len() - 1].vector.len() == dimension);
        let whole = encoded_entries(entries);
        assert(whole == encoded_entries(front) + last);
        assert(entries.len() * size == front.len() * size + size) by (nonlinear_arith)
            requires
                entries.len() == front.len() + 1,
        ;
        assert forall|i: int| 0 <= i < entries.len() implies #[trigger] whole.subrange(
            i * entry_len(dimension),
            i * entry_len(dimension) + entry_len(dimension),
        ) == encoded_entry(entries[i]) by {
            assert((i + 1) * size == i * size + size) by (nonlinear_arith);
            if i < front.len() {
                assert((i + 1) * size <= front.len() * size) by (nonlinear_arith)
                    requires
                        i + 1 <= front.len(),
                        size >= 0,
                ;
                assert(0 <= i * size) by (nonlinear_arith)
                    requires
                        0 <= i,
                        size >= 0,
                ;
                assert(whole.subrange(i * size, i * size + size) =~= encoded_entries(
                    front,
                ).subrange(i * size, i * size + size));
                assert(front[i] == entries[i]);
            } else {
                assert(whole.subrange(i * size, i * size + size) =~= last);
            }
        }
    }
}

/// What was written can be read back: the bytes of an index whose entries all
/// have its dimension hold exactly that index, provided the dimension fits
/// this machine and the number of entries fits 64 bits.
pub proof fn lemma_decode_restores(model: IndexModel)
    requires
        uniform_dimension(model.entries, model.dimension),
        model.dimension <= usize::MAX,
        model.entries.len() <= u64::MAX,
    ensures
        decoded_index(encoded_index(model)) == Some(model),
{
    lemma_auto_spec_u32_to_from_le_bytes();
    lemma_auto_spec_u64_to_from_le_bytes();
    let d = model.dimension;
    let c = model.entries.len();
    let size = entry_len(d) as int;
    let bytes = encoded_index(model);
    let body = encoded_entries(model.entries);
    lemma_encoded_entries_layout(model.entries, d);
    assert(bytes.len() == HEADER_LEN + c * size);
    assert(bytes.subrange(0, 4) =~= spec_u32_to_le_bytes(STORAGE_MAGIC));
    assert(bytes.subrange(4, 12) =~= spec_u64_to_le_bytes(d as u64));
    assert(bytes.subrange(12, 20) =~= spec_u64_to_le_bytes(c as u64));
    assert(bytes.subrange(HEADER_LEN as int, HEADER_LEN + body.len()) =~= body);
    assert forall|i: int| 0 <= i < c implies #[trigger] entry_at(bytes, entry_start(d, i), d)
        == Some(model.entries[i]) by {
        let entry = model.entries[i];
        let part = encoded_entry(entry);
        let at = entry_start(d, i);
        assert((i + 1) * size <= c * size) by (nonlinear_arith)
            requires
                i + 1 <= c,
                size >= 0,
        ;
        assert((i + 1) * size == i * size + size) by (nonlinear_arith);
        assert(0 <= i * size) by (nonlinear_arith)
            requires
                0 <= i,
                size >= 0,
        ;
        lemma_encoded_entry_layout(entry);
        assert(entry.vector.len() == d);
        assert(body.subrange(i * size, i * size + size) == part);
        lemma_subrange_within(bytes, HEADER_LEN as int, body, i * size, i * size + size);
        assert(bytes.subrange(at, at + part.len()) == part);
        assert(bytes[at] == part[0]) by {
            assert(bytes.subrange(at, at + part.len())[0] == bytes[at]);
        }
        lemma_subrange_within(bytes, at, part, 1, 9);
        assert forall|j: int| 0 <= j < d implies component_at(bytes, at + 9 + 4 * j)
            == entry.vector[j] by {
            lemma_subrange_within(bytes, at, part, 9 + 4 * j, 9 + 4 * j + 4);
            assert(part.subrange(9 + 4 * j, 9 + 4 * j + 4) == encoded_component(entry.vector[j]));
        }
        assert(vector_at(bytes, at + 9, d) =~= entry.vector);
    }
    assert(is_stored_index(bytes));
    assert(decoded_index(bytes)->0.entries =~= model.entries);
}

} // verus!
