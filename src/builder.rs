//! The table builder of the `flatbuffers` crate, as the writer uses it.
//!
//! A builder moves between three phases: between tables, inside a table, and
//! finished. Each call below is only valid in some phase (the crate panics
//! otherwise), so the phase is tracked as ghost state and every call states the
//! phase it needs. Offsets handed back by the crate are carried as plain `u32`.
//!
//! Every call is recorded in a ghost log with its arguments and with the
//! offset it handed back. A call that takes an offset requires one that the
//! builder handed back for a finished item: the crate subtracts it from the
//! bytes written so far, and a larger one would underflow.
//!
//! The ghost `used` is a bound on the bytes the builder holds: each call adds
//! at most its stated cost. Calls require the bound to stay within
//! `MAX_BUILDER_BYTES`, so that every offset and the size prefix fit in a `u32`.
//!
//! The builder is deterministic, so the finished bytes are named as a function
//! of the log (`finished_buffer`), and the writer's contracts say which calls,
//! wired to which offsets, built each record.
use vstd::prelude::*;
use crate::wire::{is_framed};

verus! {

#[verifier::external_type_specification]
#[verifier::external_body]
pub struct ExFlatBufferBuilder<'fbb>(flatbuffers::FlatBufferBuilder<'fbb>);

/// Where a builder stands.
pub enum Phase {
    /// No table is open and the buffer is not finished.
    Idle,
    /// The table started at `start` is open and `slots` fields were pushed.
    InTable { start: u32, slots: nat },
    /// The buffer was finished with a size prefix.
    Finished,
}

/// One call on a builder, with its arguments and, last, the offset it handed
/// back where it hands one back. The bytes of a finished buffer are a
/// function of the calls that built it, in order.
pub enum BuildCall {
    CreateVectorU64(Seq<u64>, u32),
    CreateVectorU8(Seq<u8>, u32),
    CreateVectorTables(Seq<u32>, u32),
    CreateString(Seq<char>, u32),
    StartTable(u32),
    PushSlotU64(u16, u64, u64),
    PushSlotU16(u16, u16, u16),
    PushSlotU8(u16, u8, u8),
    PushSlotOffset(u16, u32),
    EndTable(u32, u32),
    FinishSizePrefixed(u32),
}

/// `c` handed back `o` as the offset of a finished vector, string or table.
pub open spec fn made(c: BuildCall, o: u32) -> bool {
    match c {
        BuildCall::CreateVectorU64(_, r) => r == o,
        BuildCall::CreateVectorU8(_, r) => r == o,
        BuildCall::CreateVectorTables(_, r) => r == o,
        BuildCall::CreateString(_, r) => r == o,
        BuildCall::EndTable(_, r) => r == o,
        _ => false,
    }
}

/// `o` is the offset of an item finished by one of `calls`.
pub open spec fn created(calls: Seq<BuildCall>, o: u32) -> bool {
    exists|i: int| 0 <= i < calls.len() && made(#[trigger] calls[i], o)
}

pub proof fn lemma_created_push(calls: Seq<BuildCall>, c: BuildCall, o: u32)
    ensures
        created(calls, o) ==> created(calls.push(c), o),
        made(c, o) ==> created(calls.push(c), o),
{
    if created(calls, o) {
        let i = choose|i: int| 0 <= i < calls.len() && made(#[trigger] calls[i], o);
        assert(calls.push(c)[i] == calls[i]);
    }
    if made(c, o) {
        assert(calls.push(c)[calls.len() as int] == c);
    }
}

/// The bytes `FlatBufferBuilder::finished_data` returns after `calls`.
pub uninterp spec fn finished_buffer(calls: Seq<BuildCall>) -> Seq<u8>;

/// Bound on all the bytes one builder may hold: offsets and the size prefix
/// are `u32`, and one request may not pass 2 GiB.
pub const MAX_BUILDER_BYTES: usize = 0x4000_0000;

/// Most bytes a vector of `n` items of `size` bytes adds: up to 7 bytes of
/// alignment, the items, then the `u32` length with up to 3 bytes of alignment.
pub open spec fn vector_cost(n: nat, size: nat) -> nat {
    n * size + 16
}

/// Most bytes a string of `n` UTF-8 bytes adds: alignment, the bytes, a zero
/// terminator and the `u32` length.
pub open spec fn string_cost(n: nat) -> nat {
    n + 16
}

/// Most bytes a scalar field adds: up to 8 bytes and its alignment.
pub open spec fn slot_cost() -> nat {
    16
}

/// Most bytes an offset field adds: 4 bytes and its alignment.
pub open spec fn offset_slot_cost() -> nat {
    8
}

/// Most bytes ending a table adds: the `i32` offset to the vtable with its
/// alignment, and a vtable of at most `MAX_SLOT + 2` bytes.
pub open spec fn end_table_cost() -> nat {
    280
}

/// Most bytes finishing adds: alignment to the largest alignment used, the
/// root offset and the size prefix, each with its alignment.
pub open spec fn finish_cost() -> nat {
    32
}

/// Fields are vtable byte offsets: even, past the vtable's own 4-byte header,
/// and here below 256 so that a vtable stays small.
pub const MAX_SLOT: u16 = 254;

pub open spec fn slot_ok(slot: u16) -> bool {
    4 <= slot <= MAX_SLOT && slot % 2 == 0
}

/// Fields one table may hold here; with at most 16 bytes each, the table's
/// inline data stays under the 64 KiB a vtable can address.
pub const MAX_TABLE_SLOTS: usize = 1024;

pub(crate) struct TableBuilder {
    pub(crate) fbb: flatbuffers::FlatBufferBuilder<'static>,
    pub(crate) phase: Ghost<Phase>,
    pub(crate) calls: Ghost<Seq<BuildCall>>,
    pub(crate) used: Ghost<nat>,
}

impl TableBuilder {
    pub(crate) open spec fn idle(&self) -> bool {
        self.phase@ is Idle
    }

    /// The table started at `start` is open and may take one more field.
    pub(crate) open spec fn in_table(&self) -> bool {
        self.phase@ matches Phase::InTable { slots, .. } && slots < MAX_TABLE_SLOTS
    }

    pub(crate) open spec fn table_start(&self) -> u32 {
        match self.phase@ {
            Phase::InTable { start, .. } => start,
            _ => 0,
        }
    }

    /// The phase after one more field in the open table.
    pub(crate) open spec fn next_slot(&self) -> Phase {
        match self.phase@ {
            Phase::InTable { start, slots } => Phase::InTable { start, slots: slots + 1 },
            _ => self.phase@,
        }
    }

    /// `cost` more bytes stay within the bound.
    pub(crate) open spec fn fits(&self, cost: nat) -> bool {
        self.used@ + cost <= MAX_BUILDER_BYTES
    }

    /// Relies on `FlatBufferBuilder::new`: an empty builder, between tables.
    #[verifier::external_body]
    pub(crate) fn new() -> (r: TableBuilder)
        ensures
            r.idle(),
            r.calls@ == Seq::<BuildCall>::empty(),
            r.used@ == 0,
    {
        TableBuilder {
            fbb: flatbuffers::FlatBufferBuilder::new(),
            phase: Ghost(Phase::Idle),
            calls: Ghost(Seq::empty()),
            used: Ghost(0),
        }
    }

    /// Relies on `FlatBufferBuilder::create_vector` for `u64` items: it aligns,
    /// writes the items and their count, and hands back the vector's offset.
    #[verifier::external_body]
    pub(crate) fn create_vector_u64(&mut self, items: &[u64]) -> (r: u32)
        requires
            old(self).idle(),
            old(self).fits(vector_cost(items@.len(), 8)),
        ensures
            final(self).idle(),
            final(self).calls@ == old(self).calls@.push(BuildCall::CreateVectorU64(items@, r)),
            final(self).used@ == old(self).used@ + vector_cost(items@.len(), 8),
    {
        self.fbb.create_vector(items).value()
    }

    /// Relies on `FlatBufferBuilder::create_vector` for `u8` items.
    #[verifier::external_body]
    pub(crate) fn create_vector_u8(&mut self, items: &[u8]) -> (r: u32)
        requires
            old(self).idle(),
            old(self).fits(vector_cost(items@.len(), 1)),
        ensures
            final(self).idle(),
            final(self).calls@ == old(self).calls@.push(BuildCall::CreateVectorU8(items@, r)),
            final(self).used@ == old(self).used@ + vector_cost(items@.len(), 1),
    {
        self.fbb.create_vector(items).value()
    }

    /// Relies on `FlatBufferBuilder::create_vector` for offsets of finished
    /// tables; each is written relative to its own position, which lies past
    /// every item finished before.
    #[verifier::external_body]
    pub(crate) fn create_vector_tables(&mut self, tables: &[u32]) -> (r: u32)
        requires
            old(self).idle(),
            old(self).fits(vector_cost(tables@.len(), 4)),
            forall|i: int| 0 <= i < tables@.len() ==> created(old(self).calls@, #[trigger] tables@[i]),
        ensures
            final(self).idle(),
            final(self).calls@ == old(self).calls@.push(BuildCall::CreateVectorTables(tables@, r)),
            final(self).used@ == old(self).used@ + vector_cost(tables@.len(), 4),
    {
        let offsets: Vec<flatbuffers::WIPOffset<flatbuffers::TableFinishedWIPOffset>> =
            tables.iter().map(|t| flatbuffers::WIPOffset::new(*t)).collect();
        self.fbb.create_vector(&offsets).value()
    }

    /// Relies on `FlatBufferBuilder::create_string`, which asserts that no table is open.
    #[verifier::external_body]
    pub(crate) fn create_string(&mut self, s: &str) -> (r: u32)
        requires
            old(self).idle(),
            old(self).fits(string_cost(vstd::utf8::encode_utf8(s@).len())),
        ensures
            final(self).idle(),
            final(self).calls@ == old(self).calls@.push(BuildCall::CreateString(s@, r)),
            final(self).used@ == old(self).used@ + string_cost(vstd::utf8::encode_utf8(s@).len()),
    {
        self.fbb.create_string(s).value()
    }

    /// Relies on `FlatBufferBuilder::start_table`, which asserts that no table
    /// is open and hands back the bytes written so far.
    #[verifier::external_body]
    pub(crate) fn start_table(&mut self) -> (r: u32)
        requires
            old(self).idle(),
        ensures
            final(self).phase@ == (Phase::InTable { start: r, slots: 0 }),
            final(self).calls@ == old(self).calls@.push(BuildCall::StartTable(r)),
            final(self).used@ == old(self).used@,
    {
        self.fbb.start_table().value()
    }

    /// Relies on `FlatBufferBuilder::push_slot` for a `u64` field, which asserts
    /// an open table and writes nothing when `x` is the default.
    #[verifier::external_body]
    pub(crate) fn push_slot_u64(&mut self, slot: u16, x: u64, default: u64)
        requires
            old(self).in_table(),
            slot_ok(slot),
            old(self).fits(slot_cost()),
        ensures
            final(self).phase@ == old(self).next_slot(),
            final(self).calls@ == old(self).calls@.push(BuildCall::PushSlotU64(slot, x, default)),
            final(self).used@ == old(self).used@ + slot_cost(),
    {
        self.fbb.push_slot::<u64>(slot, x, default)
    }

    /// Relies on `FlatBufferBuilder::push_slot` for a `u16` field.
    #[verifier::external_body]
    pub(crate) fn push_slot_u16(&mut self, slot: u16, x: u16, default: u16)
        requires
            old(self).in_table(),
            slot_ok(slot),
            old(self).fits(slot_cost()),
        ensures
            final(self).phase@ == old(self).next_slot(),
            final(self).calls@ == old(self).calls@.push(BuildCall::PushSlotU16(slot, x, default)),
            final(self).used@ == old(self).used@ + slot_cost(),
    {
        self.fbb.push_slot::<u16>(slot, x, default)
    }

    /// Relies on `FlatBufferBuilder::push_slot` for a `u8` field.
    #[verifier::external_body]
    pub(crate) fn push_slot_u8(&mut self, slot: u16, x: u8, default: u8)
        requires
            old(self).in_table(),
            slot_ok(slot),
            old(self).fits(slot_cost()),
        ensures
            final(self).phase@ == old(self).next_slot(),
            final(self).calls@ == old(self).calls@.push(BuildCall::PushSlotU8(slot, x, default)),
            final(self).used@ == old(self).used@ + slot_cost(),
    {
        self.fbb.push_slot::<u8>(slot, x, default)
    }

    /// Relies on `FlatBufferBuilder::push_slot_always` for an offset field,
    /// which asserts an open table; the offset is written relative to its own
    /// position (`WIPOffset::push`), so it must be that of a finished item.
    #[verifier::external_body]
    pub(crate) fn push_slot_offset(&mut self, slot: u16, offset: u32)
        requires
            old(self).in_table(),
            slot_ok(slot),
            created(old(self).calls@, offset),
            old(self).fits(offset_slot_cost()),
        ensures
            final(self).phase@ == old(self).next_slot(),
            final(self).calls@ == old(self).calls@.push(BuildCall::PushSlotOffset(slot, offset)),
            final(self).used@ == old(self).used@ + offset_slot_cost(),
    {
        self.fbb.push_slot_always::<flatbuffers::WIPOffset<flatbuffers::TableFinishedWIPOffset>>(
            slot,
            flatbuffers::WIPOffset::new(offset),
        )
    }

    /// Relies on `FlatBufferBuilder::end_table`, which asserts an open table and
    /// measures the table from `start`, the offset `start_table` handed back.
    #[verifier::external_body]
    pub(crate) fn end_table(&mut self, start: u32) -> (r: u32)
        requires
            old(self).phase@ is InTable,
            start == old(self).table_start(),
            old(self).fits(end_table_cost()),
        ensures
            final(self).idle(),
            final(self).calls@ == old(self).calls@.push(BuildCall::EndTable(start, r)),
            final(self).used@ == old(self).used@ + end_table_cost(),
    {
        self.fbb.end_table(flatbuffers::WIPOffset::new(start)).value()
    }

    /// Relies on `FlatBufferBuilder::finish_size_prefixed`, which asserts that
    /// no table is open and the buffer is not yet finished.
    #[verifier::external_body]
    pub(crate) fn finish_size_prefixed(&mut self, root: u32)
        requires
            old(self).idle(),
            created(old(self).calls@, root),
            old(self).fits(finish_cost()),
        ensures
            final(self).phase@ is Finished,
            final(self).calls@ == old(self).calls@.push(BuildCall::FinishSizePrefixed(root)),
            final(self).used@ == old(self).used@ + finish_cost(),
    {
        self.fbb.finish_size_prefixed(
            flatbuffers::WIPOffset::<flatbuffers::TableFinishedWIPOffset>::new(root),
            None,
        )
    }

    /// Relies on `FlatBufferBuilder::finished_data`: after `finish_size_prefixed`
    /// the data begins with a little-endian `u32` counting the bytes after it
    /// (`finish_with_opts` pushes `used_space()`, under 4 GiB by the bound), and
    /// the builder is deterministic: the same calls give the same bytes.
    #[verifier::external_body]
    pub(crate) fn finished_data(&self) -> (r: Vec<u8>)
        requires
            self.phase@ is Finished,
            self.used@ <= MAX_BUILDER_BYTES,
        ensures
            is_framed(r@),
            r@ == finished_buffer(self.calls@),
    {
        self.fbb.finished_data().to_vec()
    }
}

} // verus!
