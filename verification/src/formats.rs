//! The fixed-layout records of the container: what each one is in bytes, and
//! how it is read from a cursor and written back.

use vstd::prelude::*;
use crate::stream::ByteStream;
use crate::stream::ConversionError;
use crate::stream::Named;

verus! {

/// The value of four bytes read as a little-endian integer.
pub open spec fn le_u32(bytes: Seq<u8>) -> u32
    recommends
        bytes.len() == 4,
{
    (bytes[0] + bytes[1] * 0x100 + bytes[2] * 0x1_0000 + bytes[3] * 0x100_0000) as u32
}

/// The four bytes that hold `value` as a little-endian integer.
pub open spec fn u32_le(value: u32) -> Seq<u8> {
    seq![
        (value % 0x100) as u8,
        (value / 0x100 % 0x100) as u8,
        (value / 0x1_0000 % 0x100) as u8,
        (value / 0x100_0000) as u8,
    ]
}

/// Writing an integer and reading it back gives the integer.
pub proof fn lemma_u32_round_trip(value: u32)
    ensures
        u32_le(value).len() == 4,
        le_u32(u32_le(value)) == value,
{
}

/// Reads the little-endian integer in the four bytes from `at` on.
fn read_u32(bytes: &[u8], at: usize) -> (value: u32)
    requires
        at + 4 <= bytes@.len(),
    ensures
        value == le_u32(bytes@.subrange(at as int, at + 4)),
{
    let b0 = bytes[at] as u32;
    let b1 = bytes[at + 1] as u32;
    let b2 = bytes[at + 2] as u32;
    let b3 = bytes[at + 3] as u32;
    b0 + b1 * 0x100 + b2 * 0x1_0000 + b3 * 0x100_0000
}

/// Appends `value` to `out` as four little-endian bytes.
fn write_u32(out: &mut Vec<u8>, value: u32)
    ensures
        final(out)@ == old(out)@ + u32_le(value),
{
    out.push((value % 0x100) as u8);
    out.push((value / 0x100 % 0x100) as u8);
    out.push((value / 0x1_0000 % 0x100) as u8);
    out.push((value / 0x100_0000) as u8);
    assert(out@ =~= old(out)@ + u32_le(value));
}

/// Sizes of the packed entry table, as stored in front of it.
#[derive(Debug, Clone, Copy, PartialEq, Eq)]
pub struct AssetTable {
    /// Length in bytes of the table as it lies in the container.
    pub compressed_size: u32,
    /// Length in bytes of the table once inflated.
    pub uncompressed_size: u32,
}

impl Named for AssetTable {
    open spec fn spec_name() -> Seq<char> {
        "AssetTable"@
    }

    fn name() -> &'static str {
        "AssetTable"
    }
}

impl AssetTable {
    /// What the first bytes of `data` hold, when there are enough of them.
    pub open spec fn parse(data: Seq<u8>) -> Option<AssetTable> {
        if data.len() < 8 {
            None
        } else {
            Some(
                AssetTable {
                    compressed_size: le_u32(data.subrange(0, 4)),
                    uncompressed_size: le_u32(data.subrange(4, 8)),
                },
            )
        }
    }

    /// The bytes that hold this record.
    pub open spec fn encode(self) -> Seq<u8> {
        u32_le(self.compressed_size) + u32_le(self.uncompressed_size)
    }

    /// Number of bytes the record takes in the container.
    pub fn size_in_bytes() -> (size: usize)
        ensures
            size == 8,
    {
        8
    }

    /// Reads the record at the cursor. On failure the cursor has not moved.
    pub fn from_bytes(stream: &mut ByteStream) -> (result: Result<AssetTable, Box<ConversionError>>)
        ensures
            match result {
                Ok(table) => {
                    &&& Self::parse(old(stream)@.remaining()) == Some(table)
                    &&& final(stream)@ == old(stream)@.advanced(8)
                },
                Err(error) => {
                    &&& Self::parse(old(stream)@.remaining()) is None
                    &&& final(stream)@ == old(stream)@
                    &&& error.record@ == Self::spec_name()
                    &&& error.requested == 8
                    &&& error.available == old(stream)@.available()
                },
            },
    {
        let bytes = stream.slice::<AssetTable>(8)?;
        proof {
            let rest = old(stream)@.remaining();
            assert(bytes@.subrange(0, 4) =~= rest.subrange(0, 4));
            assert(bytes@.subrange(4, 8) =~= rest.subrange(4, 8));
        }
        Ok(AssetTable { compressed_size: read_u32(bytes, 0), uncompressed_size: read_u32(bytes, 4) })
    }

    /// Writes the record out.
    pub fn to_bytes(&self) -> (bytes: Vec<u8>)
        ensures
            bytes@ == self.encode(),
    {
        let mut bytes = Vec::new();
        write_u32(&mut bytes, self.compressed_size);
        write_u32(&mut bytes, self.uncompressed_size);
        bytes
    }

    /// Reading back what was written gives the record.
    pub proof fn lemma_round_trip(self)
        ensures
            Self::parse(self.encode()) == Some(self),
    {
        lemma_u32_round_trip(self.compressed_size);
        lemma_u32_round_trip(self.uncompressed_size);
        assert(self.encode().subrange(0, 4) =~= u32_le(self.compressed_size));
        assert(self.encode().subrange(4, 8) =~= u32_le(self.uncompressed_size));
    }
}

/// The record at the start of the container.
#[derive(Debug, Clone, Copy, PartialEq, Eq)]
pub struct Header {
    /// The sixteen bytes that mark the file as a container.
    pub signature: [u8; 16],
    /// Key material of the container; entries are not enciphered with it.
    pub encryption: [u8; 14],
    /// Distance in bytes from the end of the header to the table record.
    pub file_table_offset: u32,
    /// Number that the stored file count is raised by.
    pub reserved_files: u32,
    /// File count as stored: the number of entries, `reserved_files` and seven.
    pub file_count: u32,
    /// Version of the container format.
    pub version: u32,
}

/// What a [`Header`] is to a contract.
pub struct HeaderView {
    pub signature: Seq<u8>,
    pub encryption: Seq<u8>,
    pub file_table_offset: u32,
    pub reserved_files: u32,
    pub file_count: u32,
    pub version: u32,
}

impl View for Header {
    type V = HeaderView;

    open spec fn view(&self) -> HeaderView {
        HeaderView {
            signature: self.signature@,
            encryption: self.encryption@,
            file_table_offset: self.file_table_offset,
            reserved_files: self.reserved_files,
            file_count: self.file_count,
            version: self.version,
        }
    }
}

impl Named for Header {
    open spec fn spec_name() -> Seq<char> {
        "Header"@
    }

    fn name() -> &'static str {
        "Header"
    }
}

impl HeaderView {
    /// Whether the two byte runs have the lengths they have in a header.
    pub open spec fn well_formed(self) -> bool {
        self.signature.len() == 16 && self.encryption.len() == 14
    }

    /// The bytes that hold this record.
    pub open spec fn encode(self) -> Seq<u8> {
        self.signature + self.encryption + u32_le(self.file_table_offset) + u32_le(
            self.reserved_files,
        ) + u32_le(self.file_count) + u32_le(self.version)
    }

    /// Number of entries in the table, when the stored count is large enough
    /// to hold one.
    pub open spec fn entry_count(self) -> Option<nat> {
        if self.file_count - self.reserved_files >= 7 {
            Some((self.file_count - self.reserved_files - 7) as nat)
        } else {
            None
        }
    }
}

impl Header {
    /// What the first bytes of `data` hold, when there are enough of them.
    pub open spec fn parse(data: Seq<u8>) -> Option<HeaderView> {
        if data.len() < 46 {
            None
        } else {
            Some(
                HeaderView {
                    signature: data.subrange(0, 16),
                    encryption: data.subrange(16, 30),
                    file_table_offset: le_u32(data.subrange(30, 34)),
                    reserved_files: le_u32(data.subrange(34, 38)),
                    file_count: le_u32(data.subrange(38, 42)),
                    version: le_u32(data.subrange(42, 46)),
                },
            )
        }
    }

    /// Number of bytes the record takes in the container.
    pub fn size_in_bytes() -> (size: usize)
        ensures
            size == 46,
    {
        46
    }

    /// Reads the record at the cursor. On failure the cursor has not moved.
    pub fn from_bytes(stream: &mut ByteStream) -> (result: Result<Header, Box<ConversionError>>)
        ensures
            match result {
                Ok(header) => {
                    &&& Self::parse(old(stream)@.remaining()) == Some(header@)
                    &&& final(stream)@ == old(stream)@.advanced(46)
                },
                Err(error) => {
                    &&& Self::parse(old(stream)@.remaining()) is None
                    &&& final(stream)@ == old(stream)@
                    &&& error.record@ == Self::spec_name()
                    &&& error.requested == 46
                    &&& error.available == old(stream)@.available()
                },
            },
    {
        let bytes = stream.slice::<Header>(46)?;
        let ghost rest = old(stream)@.remaining();
        let mut signature = [0u8; 16];
        let mut index: usize = 0;
        while index < 16
            invariant
                index <= 16,
                bytes@.len() == 46,
                forall|i: int| 0 <= i < index ==> signature@[i] == bytes@[i],
            decreases 16 - index,
        {
            signature[index] = bytes[index];
            index += 1;
        }
        let mut encryption = [0u8; 14];
        let mut index: usize = 0;
        while index < 14
            invariant
                index <= 14,
                bytes@.len() == 46,
                forall|i: int| 0 <= i < index ==> encryption@[i] == bytes@[16 + i],
            decreases 14 - index,
        {
            encryption[index] = bytes[16 + index];
            index += 1;
        }
        proof {
            assert(signature@ =~= rest.subrange(0, 16));
            assert(encryption@ =~= rest.subrange(16, 30));
            assert(bytes@.subrange(30, 34) =~= rest.subrange(30, 34));
            assert(bytes@.subrange(34, 38) =~= rest.subrange(34, 38));
            assert(bytes@.subrange(38, 42) =~= rest.subrange(38, 42));
            assert(bytes@.subrange(42, 46) =~= rest.subrange(42, 46));
        }
        Ok(
            Header {
                signature,
                encryption,
                file_table_offset: read_u32(bytes, 30),
                reserved_files: read_u32(bytes, 34),
                file_count: read_u32(bytes, 38),
                version: read_u32(bytes, 42),
            },
        )
    }

    /// Writes the record out.
    pub fn to_bytes(&self) -> (bytes: Vec<u8>)
        ensures
            bytes@ == self@.encode(),
    {
        let mut bytes: Vec<u8> = Vec::new();
        let mut index: usize = 0;
        while index < 16
            invariant
                index <= 16,
                bytes@ == self.signature@.subrange(0, index as int),
            decreases 16 - index,
        {
            bytes.push(self.signature[index]);
            index += 1;
        }
        assert(bytes@ == self.signature@);
        let mut index: usize = 0;
        while index < 14
            invariant
                index <= 14,
                bytes@ == self.signature@ + self.encryption@.subrange(0, index as int),
            decreases 14 - index,
        {
            bytes.push(self.encryption[index]);
            index += 1;
        }
        assert(bytes@ == self.signature@ + self.encryption@);
        write_u32(&mut bytes, self.file_table_offset);
        write_u32(&mut bytes, self.reserved_files);
        write_u32(&mut bytes, self.file_count);
        write_u32(&mut bytes, self.version);
        bytes
    }

    /// Number of entries in the table, when the stored count is large enough
    /// to hold one.
    pub fn get_file_count(&self) -> (count: Option<usize>)
        ensures
            match count {
                Some(count) => self@.entry_count() == Some(count as nat),
                None => self@.entry_count() is None,
            },
    {
        if self.file_count >= self.reserved_files && self.file_count - self.reserved_files >= 7 {
            Some((self.file_count - self.reserved_files - 7) as usize)
        } else {
            None
        }
    }

    /// Reading back what was written gives the record.
    pub proof fn lemma_round_trip(header: HeaderView)
        requires
            header.well_formed(),
        ensures
            header.encode().len() == 46,
            Self::parse(header.encode()) == Some(header),
    {
        let bytes = header.encode();
        lemma_u32_round_trip(header.file_table_offset);
        lemma_u32_round_trip(header.reserved_files);
        lemma_u32_round_trip(header.file_count);
        lemma_u32_round_trip(header.version);
        assert(bytes.subrange(0, 16) =~= header.signature);
        assert(bytes.subrange(16, 30) =~= header.encryption);
        assert(bytes.subrange(30, 34) =~= u32_le(header.file_table_offset));
        assert(bytes.subrange(34, 38) =~= u32_le(header.reserved_files));
        assert(bytes.subrange(38, 42) =~= u32_le(header.file_count));
        assert(bytes.subrange(42, 46) =~= u32_le(header.version));
    }
}

/// `String::push` appends the character to the text and changes nothing else
/// of it, as the standard library documents.
pub assume_specification[ String::push ](text: &mut String, character: char)
    ensures
        final(text)@ == old(text)@.push(character),
;

/// The text that a run of bytes stands for: each byte is the character with
/// that code point, so every run of bytes is some text.
pub open spec fn text_of(bytes: Seq<u8>) -> Seq<char> {
    Seq::new(bytes.len(), |i: int| bytes[i] as char)
}

/// Whether `text` can be stored as a name: no character is the terminator
/// and each fits one byte.
pub open spec fn storable(text: Seq<char>) -> bool {
    forall|i: int| 0 <= i < text.len() ==> fits_byte(#[trigger] text[i])
}

/// Whether the character is one that a single byte other than zero stands for.
pub open spec fn fits_byte(character: char) -> bool {
    0 < character as int && (character as int) < 0x100
}

/// The bytes that store `text`, without the terminator.
pub open spec fn bytes_of(text: Seq<char>) -> Seq<u8> {
    Seq::new(text.len(), |i: int| text[i] as u8)
}

/// Index of the first zero byte of `data` at or after `from`.
pub open spec fn terminator(data: Seq<u8>, from: int) -> Option<int>
    decreases data.len() - from,
{
    if from < 0 || from >= data.len() {
        None
    } else if data[from] == 0 {
        Some(from)
    } else {
        terminator(data, from + 1)
    }
}

/// One row of the entry table: where an entry lies and how it is packed.
#[derive(Debug, Clone, PartialEq, Eq)]
pub struct FileTableRow {
    /// Logical path of the entry, as stored.
    pub file_name: String,
    /// Length in bytes of the deflated entry.
    pub compressed_size: u32,
    /// Length in bytes that the entry takes in the container: the compressed
    /// size, rounded up to whole cipher blocks.
    pub compressed_size_aligned: u32,
    /// Length in bytes of the entry once inflated.
    pub uncompressed_size: u32,
    /// Bit 0 marks a file, bits 1 and 2 say how it is enciphered.
    pub flags: u8,
    /// Distance in bytes from the end of the header to the entry.
    pub offset: u32,
}

/// What a [`FileTableRow`] is to a contract.
pub struct FileTableRowView {
    pub file_name: Seq<char>,
    pub compressed_size: u32,
    pub compressed_size_aligned: u32,
    pub uncompressed_size: u32,
    pub flags: u8,
    pub offset: u32,
}

impl View for FileTableRow {
    type V = FileTableRowView;

    open spec fn view(&self) -> FileTableRowView {
        FileTableRowView {
            file_name: self.file_name@,
            compressed_size: self.compressed_size,
            compressed_size_aligned: self.compressed_size_aligned,
            uncompressed_size: self.uncompressed_size,
            flags: self.flags,
            offset: self.offset,
        }
    }
}

impl Named for FileTableRow {
    open spec fn spec_name() -> Seq<char> {
        "FileTableRow"@
    }

    fn name() -> &'static str {
        "FileTableRow"
    }
}

impl FileTableRowView {
    /// Whether the row stands for a file and not for a directory.
    pub open spec fn is_file(self) -> bool {
        self.flags & 0x01 == 0x01
    }

    /// The bytes that hold this record.
    pub open spec fn encode(self) -> Seq<u8> {
        bytes_of(self.file_name) + seq![0u8] + u32_le(self.compressed_size) + u32_le(
            self.compressed_size_aligned,
        ) + u32_le(self.uncompressed_size) + seq![self.flags] + u32_le(self.offset)
    }
}

impl FileTableRow {
    /// What the first bytes of `data` hold, and how many of them the record
    /// takes: a name up to the first zero byte, then seventeen bytes.
    pub open spec fn parse(data: Seq<u8>) -> Option<(FileTableRowView, int)> {
        match terminator(data, 0) {
            Some(end) => if end + 18 <= data.len() {
                Some(
                    (
                        FileTableRowView {
                            file_name: text_of(data.subrange(0, end)),
                            compressed_size: le_u32(data.subrange(end + 1, end + 5)),
                            compressed_size_aligned: le_u32(data.subrange(end + 5, end + 9)),
                            uncompressed_size: le_u32(data.subrange(end + 9, end + 13)),
                            flags: data[end + 13],
                            offset: le_u32(data.subrange(end + 14, end + 18)),
                        },
                        end + 18,
                    ),
                )
            } else {
                None
            },
            None => None,
        }
    }

    /// Whether the row stands for a file and not for a directory.
    pub fn is_file(&self) -> (file: bool)
        ensures
            file == self@.is_file(),
    {
        self.flags & 0x01 == 0x01
    }

    /// Reads the record at the cursor.
    ///
    /// Where the name has no terminator the cursor ends at the end of the
    /// buffer; where fewer than seventeen bytes follow the name it ends
    /// behind the terminator.
    pub fn from_bytes(stream: &mut ByteStream) -> (result: Result<FileTableRow, Box<ConversionError>>)
        ensures
            match result {
                Ok(row) => {
                    &&& Self::parse(old(stream)@.remaining()) matches Some((view, length))
                    &&& row@ == view
                    &&& 18 <= length <= old(stream)@.available()
                    &&& final(stream)@ == old(stream)@.advanced(length)
                },
                Err(error) => {
                    &&& Self::parse(old(stream)@.remaining()) is None
                    &&& error.record@ == Self::spec_name()
                    &&& match terminator(old(stream)@.remaining(), 0) {
                        None => {
                            &&& final(stream)@ == old(stream)@.advanced(
                                old(stream)@.available() as int,
                            )
                            &&& error.requested == 1
                            &&& error.available == 0
                        },
                        Some(end) => {
                            &&& final(stream)@ == old(stream)@.advanced(end + 1)
                            &&& error.requested == 17
                            &&& error.available == old(stream)@.available() - end - 1
                        },
                    }
                },
            },
    {
        let ghost start = old(stream)@;
        let ghost rest = old(stream)@.remaining();
        let mut file_name = String::new();
        let mut terminated = false;
        while !terminated
            invariant
                start == old(stream)@,
                rest == start.remaining(),
                file_name@.len() <= rest.len(),
                stream@ == start.advanced(file_name@.len() + if terminated { 1int } else { 0 }),
                file_name@ == text_of(rest.subrange(0, file_name@.len() as int)),
                terminator(rest, 0) == terminator(rest, file_name@.len() as int),
                terminated ==> file_name@.len() < rest.len() && rest[file_name@.len() as int] == 0,
            decreases rest.len() - file_name@.len(), if terminated { 0int } else { 1 },
        {
            let ghost length = file_name@.len() as int;
            let byte = match stream.next::<FileTableRow>() {
                Ok(byte) => byte,
                Err(error) => {
                    return Err(error);
                },
            };
            assert(byte == rest[length]);
            if byte == 0 {
                terminated = true;
            } else {
                file_name.push(byte as char);
                assert(file_name@ =~= text_of(rest.subrange(0, length + 1)));
            }
        }
        let ghost end = file_name@.len() as int;
        let fields = match stream.slice::<FileTableRow>(17) {
            Ok(fields) => fields,
            Err(error) => {
                return Err(error);
            },
        };
        proof {
            assert(fields@.subrange(0, 4) =~= rest.subrange(end + 1, end + 5));
            assert(fields@.subrange(4, 8) =~= rest.subrange(end + 5, end + 9));
            assert(fields@.subrange(8, 12) =~= rest.subrange(end + 9, end + 13));
            assert(fields@.subrange(13, 17) =~= rest.subrange(end + 14, end + 18));
            assert(fields@[12] == rest[end + 13]);
        }
        Ok(
            FileTableRow {
                file_name,
                compressed_size: read_u32(fields, 0),
                compressed_size_aligned: read_u32(fields, 4),
                uncompressed_size: read_u32(fields, 8),
                flags: fields[12],
                offset: read_u32(fields, 13),
            },
        )
    }

    /// Writes the record out, or nothing where the name cannot be stored.
    pub fn to_bytes(&self) -> (bytes: Option<Vec<u8>>)
        ensures
            match bytes {
                Some(bytes) => storable(self@.file_name) && bytes@ == self@.encode(),
                None => !storable(self@.file_name),
            },
    {
        let name = self.file_name.as_str();
        let length = name.unicode_len();
        let mut bytes: Vec<u8> = Vec::new();
        let mut index: usize = 0;
        while index < length
            invariant
                index <= length,
                length == name@.len(),
                name@ == self@.file_name,
                storable(name@.subrange(0, index as int)),
                bytes@ == bytes_of(name@.subrange(0, index as int)),
            decreases length - index,
        {
            let character = name.get_char(index);
            let code = character as u32;
            if code == 0 || code >= 0x100 {
                return None;
            }
            bytes.push(code as u8);
            proof {
                let before = name@.subrange(0, index as int);
                let after = name@.subrange(0, index + 1);
                assert(bytes@ =~= bytes_of(after));
                assert forall|i: int| 0 <= i < after.len() implies fits_byte(
                    #[trigger] after[i],
                ) by {
                    if i < index {
                        assert(after[i] == before[i]);
                    }
                }
            }
            index += 1;
        }
        assert(name@.subrange(0, length as int) =~= name@);
        bytes.push(0);
        write_u32(&mut bytes, self.compressed_size);
        write_u32(&mut bytes, self.compressed_size_aligned);
        write_u32(&mut bytes, self.uncompressed_size);
        bytes.push(self.flags);
        write_u32(&mut bytes, self.offset);
        assert(bytes@ =~= self@.encode());
        Some(bytes)
    }

    /// A stored name holds no zero byte, so the search for the terminator
    /// passes over it.
    pub proof fn lemma_terminator_after(data: Seq<u8>, from: int, end: int)
        requires
            0 <= from <= end < data.len(),
            forall|i: int| from <= i < end ==> data[i] != 0,
            data[end] == 0,
        ensures
            terminator(data, from) == Some(end),
        decreases end - from,
    {
        if from < end {
            Self::lemma_terminator_after(data, from + 1, end);
        }
    }

    /// Reading back what was written gives the record and takes every byte.
    pub proof fn lemma_round_trip(row: FileTableRowView)
        requires
            storable(row.file_name),
        ensures
            Self::parse(row.encode()) == Some((row, row.encode().len() as int)),
    {
        let bytes = row.encode();
        let end = row.file_name.len() as int;
        assert(bytes.len() == end + 18);
        assert(bytes.subrange(0, end) =~= bytes_of(row.file_name));
        assert forall|i: int| 0 <= i < end implies bytes[i] != 0 by {
            assert(bytes[i] == bytes.subrange(0, end)[i]);
            assert(fits_byte(row.file_name[i]));
        }
        assert(bytes[end] == 0);
        Self::lemma_terminator_after(bytes, 0, end);
        assert(text_of(bytes_of(row.file_name)) =~= row.file_name) by {
            assert forall|i: int| 0 <= i < end implies text_of(bytes_of(row.file_name))[i]
                == row.file_name[i] by {
                assert(fits_byte(row.file_name[i]));
            }
        }
        lemma_u32_round_trip(row.compressed_size);
        lemma_u32_round_trip(row.compressed_size_aligned);
        lemma_u32_round_trip(row.uncompressed_size);
        lemma_u32_round_trip(row.offset);
        assert(bytes.subrange(end + 1, end + 5) =~= u32_le(row.compressed_size));
        assert(bytes.subrange(end + 5, end + 9) =~= u32_le(row.compressed_size_aligned));
        assert(bytes.subrange(end + 9, end + 13) =~= u32_le(row.uncompressed_size));
        assert(bytes.subrange(end + 14, end + 18) =~= u32_le(row.offset));
        assert(bytes[end + 13] == row.flags);
    }
}

} // verus!
