//! A forward-only, bounds-checked cursor over a byte buffer.

use vstd::prelude::*;
use vstd::slice::slice_subrange;
use vstd::slice::slice_to_vec;
use vstd::std_specs::convert::FromSpecImpl;
use std::marker::PhantomData;

verus! {

/// A type that has a name for diagnostics.
pub trait Named {
    /// The name, as contracts see it.
    spec fn spec_name() -> Seq<char>;

    /// The name of the type.
    fn name() -> (name: &'static str)
        ensures
            name@ == Self::spec_name(),
    ;
}

/// A read that asked for more bytes than the buffer had left.
#[derive(Debug, Clone, Copy, PartialEq, Eq)]
pub struct ConversionError {
    /// Name of the type that was being decoded.
    pub record: &'static str,
    /// Number of bytes the read asked for.
    pub requested: usize,
    /// Number of bytes that were left in the buffer.
    pub available: usize,
}

/// The version of a format, as the readers of versioned records compare it.
#[derive(Debug, Clone, Copy, PartialEq, Eq, Structural)]
pub struct InternalVersion {
    pub major: u8,
    pub minor: u8,
}

impl InternalVersion {
    /// Whether the version is `major.minor` or a later one.
    pub fn equals_or_above(&self, major: u8, minor: u8) -> (result: bool)
        ensures
            result == (self.major > major || (self.major == major && self.minor >= minor)),
    {
        self.major > major || (self.major == major && self.minor >= minor)
    }

    /// Whether the version is an earlier one than `major.minor`.
    pub fn smaller(&self, major: u8, minor: u8) -> (result: bool)
        ensures
            result == (self.major < major || (self.major == major && self.minor < minor)),
    {
        self.major < major || (self.major == major && self.minor < minor)
    }
}

/// The version of a format of kind `T`.
pub struct Version<T> {
    pub major: u8,
    pub minor: u8,
    pub marker: PhantomData<T>,
}

impl<T> Version<T> {
    /// The version `major.minor`.
    pub fn new(major: u8, minor: u8) -> (version: Self)
        ensures
            version.major == major,
            version.minor == minor,
    {
        Version { major, minor, marker: PhantomData }
    }
}

impl<T> From<Version<T>> for InternalVersion {
    fn from(version: Version<T>) -> (internal: InternalVersion) {
        InternalVersion { major: version.major, minor: version.minor }
    }
}

impl<T> FromSpecImpl<Version<T>> for InternalVersion {
    open spec fn obeys_from_spec() -> bool {
        true
    }

    open spec fn from_spec(version: Version<T>) -> InternalVersion {
        InternalVersion { major: version.major, minor: version.minor }
    }
}

/// A packet that came in while a stream was read, as the packet history
/// shows it.
#[derive(Debug, Clone, Copy, PartialEq, Eq)]
pub struct PacketEntry {
    /// Name of the packet.
    pub name: &'static str,
    /// Whether the packet only keeps the connection alive.
    pub is_ping: bool,
}

/// The last `capacity` of some entries.
pub open spec fn kept<T>(entries: Seq<T>, capacity: nat) -> Seq<T> {
    if entries.len() <= capacity {
        entries
    } else {
        entries.subrange(entries.len() - capacity, entries.len() as int)
    }
}

/// Keeping the last entries after each push keeps the same entries as
/// keeping them once at the end.
pub proof fn lemma_kept_push<T>(entries: Seq<T>, entry: T, capacity: nat)
    ensures
        kept(kept(entries, capacity).push(entry), capacity) == kept(entries.push(entry), capacity),
{
    assert(kept(kept(entries, capacity).push(entry), capacity) =~= kept(
        entries.push(entry),
        capacity,
    ));
}

/// A history of at most `N` packets: a new one pushes the oldest out.
pub struct RingBuffer<const N: usize> {
    entries: Vec<PacketEntry>,
}

impl<const N: usize> View for RingBuffer<N> {
    type V = Seq<PacketEntry>;

    /// The packets that are kept, oldest first.
    closed spec fn view(&self) -> Seq<PacketEntry> {
        kept(self.entries@, N as nat)
    }
}

impl<const N: usize> RingBuffer<N> {
    /// An empty history.
    pub fn new() -> (buffer: Self)
        ensures
            buffer@ == Seq::<PacketEntry>::empty(),
    {
        RingBuffer { entries: Vec::new() }
    }

    /// Number of packets in the history.
    pub fn len(&self) -> (length: usize)
        ensures
            length == self@.len(),
            length <= N,
    {
        if self.entries.len() <= N {
            self.entries.len()
        } else {
            N
        }
    }

    /// The packet at `index`, the oldest being at 0.
    pub fn get(&self, index: usize) -> (entry: Option<PacketEntry>)
        ensures
            entry == if index < self@.len() {
                Some(self@[index as int])
            } else {
                None
            },
    {
        let length = self.entries.len();
        if length <= N {
            if index < length {
                Some(self.entries[index])
            } else {
                None
            }
        } else if index < N {
            Some(self.entries[length - N + index])
        } else {
            None
        }
    }

    /// Adds a packet as the newest. Where the history is full the oldest
    /// one leaves.
    pub fn push(&mut self, entry: PacketEntry)
        ensures
            final(self)@ == kept(old(self)@.push(entry), N as nat),
    {
        proof {
            lemma_kept_push(self.entries@, entry, N as nat);
        }
        while self.entries.len() > 0 && self.entries.len() >= N
            invariant
                kept(self.entries@.push(entry), N as nat) == kept(
                    old(self).entries@.push(entry),
                    N as nat,
                ),
            decreases self.entries.len(),
        {
            let ghost before = self.entries@;
            self.entries.remove(0);
            assert(kept(self.entries@.push(entry), N as nat) =~= kept(
                before.push(entry),
                N as nat,
            ));
        }
        self.entries.push(entry);
        assert(kept(self.entries@, N as nat) =~= kept(kept(self.entries@, N as nat), N as nat));
    }
}

/// What a [`ByteStream`] is to a contract.
pub struct ByteStreamView {
    /// The whole buffer, read or not.
    pub data: Seq<u8>,
    /// Index of the next byte to read. It may lie past the end.
    pub offset: nat,
    /// The version of the format that is read, once it is known.
    pub version: Option<InternalVersion>,
    /// The packets that came in and were not handed on yet, oldest first.
    pub packet_history: Seq<PacketEntry>,
}

impl ByteStreamView {
    /// Number of bytes between the offset and the end of the buffer.
    pub open spec fn available(self) -> nat {
        if self.offset <= self.data.len() {
            (self.data.len() - self.offset) as nat
        } else {
            0
        }
    }

    /// The bytes between the offset and the end of the buffer.
    pub open spec fn remaining(self) -> Seq<u8> {
        if self.offset <= self.data.len() {
            self.data.subrange(self.offset as int, self.data.len() as int)
        } else {
            Seq::empty()
        }
    }

    /// The same buffer with the offset moved to `offset`.
    pub open spec fn at(self, offset: int) -> ByteStreamView {
        ByteStreamView { offset: offset as nat, ..self }
    }

    /// The same buffer with the offset moved forward by `count`.
    pub open spec fn advanced(self, count: int) -> ByteStreamView {
        self.at(self.offset + count)
    }
}

/// A cursor over an immutable byte buffer.
pub struct ByteStream<'b> {
    data: &'b [u8],
    offset: usize,
    version: Option<InternalVersion>,
    packet_history: Vec<PacketEntry>,
}

impl<'b> View for ByteStream<'b> {
    type V = ByteStreamView;

    closed spec fn view(&self) -> ByteStreamView {
        ByteStreamView {
            data: self.data@,
            offset: self.offset as nat,
            version: self.version,
            packet_history: self.packet_history@,
        }
    }
}

impl<'b> ByteStream<'b> {
    /// A cursor at the start of `data`.
    pub fn new(data: &'b [u8]) -> (stream: Self)
        ensures
            stream@ == (ByteStreamView {
                data: data@,
                offset: 0,
                version: None,
                packet_history: Seq::empty(),
            }),
    {
        ByteStream { data, offset: 0, version: None, packet_history: Vec::new() }
    }

    /// Number of bytes left to read.
    pub fn available(&self) -> (count: usize)
        ensures
            count == self@.available(),
    {
        if self.offset <= self.data.len() {
            self.data.len() - self.offset
        } else {
            0
        }
    }

    /// Reads one byte, or fails without moving when none is left.
    pub fn next<S: Named>(&mut self) -> (result: Result<u8, Box<ConversionError>>)
        ensures
            match result {
                Ok(byte) => {
                    &&& old(self)@.offset < old(self)@.data.len()
                    &&& byte == old(self)@.data[old(self)@.offset as int]
                    &&& final(self)@ == old(self)@.advanced(1)
                },
                Err(error) => {
                    &&& old(self)@.offset >= old(self)@.data.len()
                    &&& final(self)@ == old(self)@
                    &&& error.record@ == S::spec_name()
                    &&& error.requested == 1
                    &&& error.available == 0
                },
            },
    {
        if self.offset >= self.data.len() {
            return Err(Box::new(ConversionError { record: S::name(), requested: 1, available: 0 }));
        }
        let byte = self.data[self.offset];
        self.offset += 1;
        Ok(byte)
    }

    /// Reads the next `count` bytes, or fails without moving when fewer are
    /// left. The bytes are borrowed from the buffer, not copied.
    pub fn slice<S: Named>(&mut self, count: usize) -> (result: Result<&'b [u8], Box<ConversionError>>)
        ensures
            match result {
                Ok(bytes) => {
                    &&& old(self)@.offset + count <= old(self)@.data.len()
                    &&& bytes@ == old(self)@.data.subrange(
                        old(self)@.offset as int,
                        old(self)@.offset + count,
                    )
                    &&& final(self)@ == old(self)@.advanced(count as int)
                },
                Err(error) => {
                    &&& old(self)@.offset + count > old(self)@.data.len()
                    &&& final(self)@ == old(self)@
                    &&& error.record@ == S::spec_name()
                    &&& error.requested == count
                    &&& error.available == old(self)@.available()
                },
            },
    {
        let available = self.available();
        if self.offset > self.data.len() || count > available {
            return Err(Box::new(ConversionError { record: S::name(), requested: count, available }));
        }
        let start_index = self.offset;
        self.offset += count;
        Ok(slice_subrange(self.data, start_index, self.offset))
    }

    /// Moves the offset forward by `count` without looking at the buffer: the
    /// offset may end up past its end, and every later read then fails.
    pub fn skip(&mut self, count: usize)
        requires
            old(self)@.offset + count <= usize::MAX,
        ensures
            final(self)@ == old(self)@.advanced(count as int),
    {
        self.offset += count;
    }

    /// Whether no byte is left to read.
    pub fn is_empty(&self) -> (empty: bool)
        ensures
            empty == (self@.offset >= self@.data.len()),
    {
        self.offset >= self.data.len()
    }

    /// Index of the next byte to read.
    pub fn get_offset(&self) -> (offset: usize)
        ensures
            offset == self@.offset,
    {
        self.offset
    }

    /// Moves the offset to `offset`, which need not lie inside the buffer.
    pub fn set_offset(&mut self, offset: usize)
        ensures
            final(self)@ == old(self)@.at(offset as int),
    {
        self.offset = offset
    }

    /// Copies out every byte that is left and moves the offset to the end of
    /// the buffer.
    pub fn remaining_bytes(&mut self) -> (bytes: Vec<u8>)
        ensures
            bytes@ == old(self)@.remaining(),
            final(self)@ == old(self)@.at(old(self)@.data.len() as int),
    {
        let end_index = self.data.len();
        let start_index = if self.offset <= end_index {
            self.offset
        } else {
            end_index
        };
        let bytes = slice_to_vec(slice_subrange(self.data, start_index, end_index));
        self.offset = end_index;
        bytes
    }

    /// Notes the version of the format that is read, for the records whose
    /// layout depends on it.
    pub fn set_version<T>(&mut self, version: Version<T>)
        ensures
            final(self)@ == (ByteStreamView {
                version: Some(InternalVersion { major: version.major, minor: version.minor }),
                ..old(self)@
            }),
    {
        self.version = Some(InternalVersion::from(version));
    }

    /// The version that was noted. To ask before one was noted is an error
    /// of the caller.
    pub fn get_version(&mut self) -> (version: InternalVersion)
        requires
            old(self)@.version is Some,
        ensures
            Some(version) == old(self)@.version,
            final(self)@ == old(self)@,
    {
        match self.version {
            Some(version) => version,
            None => InternalVersion { major: 0, minor: 0 },
        }
    }

    /// The version that was noted, if one was.
    pub fn version(&self) -> (version: Option<InternalVersion>)
        ensures
            version == self@.version,
    {
        self.version
    }

    /// Notes a packet that was read from the stream.
    pub fn incoming_packet(&mut self, name: &'static str, is_ping: bool)
        ensures
            final(self)@ == (ByteStreamView {
                packet_history: old(self)@.packet_history.push(PacketEntry { name, is_ping }),
                ..old(self)@
            }),
    {
        self.packet_history.push(PacketEntry { name, is_ping });
    }

    /// Hands the packets that were noted on to a history, oldest first, and
    /// forgets them. Tells whether there were any, so that the history is
    /// shown anew.
    pub fn transfer_packet_history<const N: usize>(&mut self, packet_history: &mut RingBuffer<N>) -> (changed:
        bool)
        ensures
            changed == (old(self)@.packet_history.len() > 0),
            final(self)@ == (ByteStreamView { packet_history: Seq::empty(), ..old(self)@ }),
            final(packet_history)@ == kept(
                old(packet_history)@ + old(self)@.packet_history,
                N as nat,
            ),
    {
        let count = self.packet_history.len();
        let mut index: usize = 0;
        assert(old(packet_history)@ + old(self)@.packet_history.subrange(0, 0) =~= old(
            packet_history,
        )@);
        while index < count
            invariant
                index <= count,
                count == self.packet_history@.len(),
                *self == *old(self),
                packet_history@ == kept(
                    old(packet_history)@ + self.packet_history@.subrange(0, index as int),
                    N as nat,
                ),
            decreases count - index,
        {
            let entry = self.packet_history[index];
            proof {
                let moved = old(packet_history)@ + self.packet_history@.subrange(0, index as int);
                lemma_kept_push(moved, entry, N as nat);
                assert(moved.push(entry) =~= old(packet_history)@
                    + self.packet_history@.subrange(0, index + 1));
            }
            packet_history.push(entry);
            index += 1;
        }
        assert(self.packet_history@.subrange(0, count as int) =~= self.packet_history@);
        self.packet_history = Vec::new();
        count > 0
    }

    /// The number of bytes that were not read, where the buffer was not read
    /// to its end: a record that leaves bytes over was not decoded in full.
    pub fn assert_empty(&self) -> (remaining: Option<usize>)
        ensures
            remaining == if self@.available() == 0 {
                None
            } else {
                Some(self@.available() as usize)
            },
    {
        let remaining = self.available();
        if remaining != 0 {
            Some(remaining)
        } else {
            None
        }
    }
}

} // verus!
