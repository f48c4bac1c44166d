//! The index of a container and what is read through it.

use vstd::prelude::*;
use vstd::hash_map::StringHashMap;
use crate::formats::AssetTable;
use crate::formats::FileTableRow;
use crate::formats::FileTableRowView;
use crate::formats::Header;
use crate::formats::le_u32;
use crate::formats::terminator;
use crate::mixcrypt::decrypt_file;
use crate::mixcrypt::deciphered;
use crate::stream::ByteStream;
use crate::stream::ConversionError;
use crate::stream::Named;
use crate::text::ends_with;
use crate::text::lowercase;
use crate::zlib::inflate;
use crate::zlib::inflate_outcome;
use crate::zlib::inflated;

verus! {

/// Why an archive could not be opened or an entry not be read.
#[derive(Debug, Clone, Copy, PartialEq, Eq)]
pub enum ArchiveError {
    /// The file does not reach as far as a read went.
    IoError,
    /// The header names a version other than the supported one, or a file
    /// count that leaves no room for the reserved entries.
    FormatError,
    /// The entry table ended inside a row.
    TruncatedRecord(ConversionError),
    /// A packed run of bytes is no zlib stream, or not of the recorded length.
    DecompressError,
}

/// What an [`ArchiveError`] is to a contract.
pub enum Failure {
    Io,
    Format,
    Truncated { record: Seq<char>, requested: nat, available: nat },
    Decompress,
}

impl View for ArchiveError {
    type V = Failure;

    open spec fn view(&self) -> Failure {
        match *self {
            ArchiveError::IoError => Failure::Io,
            ArchiveError::FormatError => Failure::Format,
            ArchiveError::TruncatedRecord(error) => Failure::Truncated {
                record: error.record@,
                requested: error.requested as nat,
                available: error.available as nat,
            },
            ArchiveError::DecompressError => Failure::Decompress,
        }
    }
}

/// The failure that reading a row from `data` ends in, where it fails: the
/// last read that was tried and what was left for it.
pub open spec fn row_failure(data: Seq<u8>) -> Failure {
    match terminator(data, 0) {
        None => Failure::Truncated { record: FileTableRow::spec_name(), requested: 1, available: 0 },
        Some(end) => Failure::Truncated {
            record: FileTableRow::spec_name(),
            requested: 17,
            available: (data.len() - end - 1) as nat,
        },
    }
}

/// The first `count` rows of a table and the number of bytes that they take,
/// or the failure that reading them ends in.
pub open spec fn parse_rows(data: Seq<u8>, count: nat) -> Result<(Seq<FileTableRowView>, int), Failure>
    decreases count,
{
    if count == 0 {
        Ok((Seq::empty(), 0))
    } else {
        match parse_rows(data, (count - 1) as nat) {
            Ok((rows, used)) => {
                let rest = data.subrange(used, data.len() as int);
                match FileTableRow::parse(rest) {
                    Some((row, length)) => Ok((rows.push(row), used + length)),
                    None => Err(row_failure(rest)),
                }
            },
            Err(failure) => Err(failure),
        }
    }
}

/// Once reading the rows of a table has failed, asking for more rows fails in
/// the same way.
pub proof fn lemma_parse_rows_failure_stays(data: Seq<u8>, count: nat, more: nat)
    requires
        count <= more,
        parse_rows(data, count) is Err,
    ensures
        parse_rows(data, more) == parse_rows(data, count),
    decreases more,
{
    if count < more {
        lemma_parse_rows_failure_stays(data, count, (more - 1) as nat);
    }
}

/// What a [`NativeArchive`] is to a contract.
pub struct NativeArchiveView {
    /// The row of each entry, by its name in lower case.
    pub rows: Map<Seq<char>, FileTableRowView>,
    /// The names in the order in which the table first brought them.
    pub names: Seq<Seq<char>>,
}

impl NativeArchiveView {
    /// An archive without entries.
    pub open spec fn empty() -> NativeArchiveView {
        NativeArchiveView { rows: Map::empty(), names: Seq::empty() }
    }

    /// The archive with one more row. A row whose name is there already, in
    /// whatever case, takes the place of the earlier one.
    pub open spec fn with(self, row: FileTableRowView) -> NativeArchiveView {
        let name = lowercase(row.file_name);
        NativeArchiveView {
            rows: self.rows.insert(name, row),
            names: if self.rows.contains_key(name) {
                self.names
            } else {
                self.names.push(name)
            },
        }
    }

    /// Whether the names are those of the rows, each once.
    pub open spec fn well_formed(self) -> bool {
        &&& self.names.no_duplicates()
        &&& forall|name: Seq<char>| self.rows.contains_key(name) <==> self.names.contains(name)
    }

    /// The row that a path leads to, whatever its case.
    pub open spec fn lookup(self, path: Seq<char>) -> Option<FileTableRowView> {
        if self.rows.contains_key(lowercase(path)) {
            Some(self.rows[lowercase(path)])
        } else {
            None
        }
    }

    /// Whether the entry under `name` is a file whose name ends with
    /// `extension`.
    pub open spec fn listed(self, name: Seq<char>, extension: Seq<char>) -> bool {
        extension.is_suffix_of(name) && self.rows[name].is_file()
    }

    /// The first `count` names, without those that are not listed.
    pub open spec fn select(self, count: nat, extension: Seq<char>) -> Seq<Seq<char>>
        decreases count,
    {
        if count == 0 {
            Seq::empty()
        } else {
            let earlier = self.select((count - 1) as nat, extension);
            let name = self.names[count - 1];
            if self.listed(name, extension) {
                earlier.push(name)
            } else {
                earlier
            }
        }
    }

    /// The names of the files whose name ends with `extension`.
    pub open spec fn files_with_extension(self, extension: Seq<char>) -> Seq<Seq<char>> {
        self.select(self.names.len(), extension)
    }
}

/// The archive that a table of rows makes.
pub open spec fn index_rows(rows: Seq<FileTableRowView>) -> NativeArchiveView
    decreases rows.len(),
{
    if rows.len() == 0 {
        NativeArchiveView::empty()
    } else {
        index_rows(rows.drop_last()).with(rows.last())
    }
}

/// Adding a row keeps the names those of the rows, each once.
pub proof fn lemma_with_well_formed(archive: NativeArchiveView, row: FileTableRowView)
    requires
        archive.well_formed(),
    ensures
        archive.with(row).well_formed(),
{
    let name = lowercase(row.file_name);
    let after = archive.with(row);
    if !archive.rows.contains_key(name) {
        assert(!archive.names.contains(name));
        assert(after.names.no_duplicates());
        assert forall|other: Seq<char>| after.rows.contains_key(other) <==> after.names.contains(
            other,
        ) by {
            if other == name {
                assert(after.names[archive.names.len() as int] == name);
            } else if archive.names.contains(other) {
                let i = choose|i: int| 0 <= i < archive.names.len() && archive.names[i] == other;
                assert(after.names[i] == other);
            }
        }
    }
}

/// In the archive that a table makes, the names are those of the rows, each
/// once.
pub proof fn lemma_index_well_formed(rows: Seq<FileTableRowView>)
    ensures
        index_rows(rows).well_formed(),
    decreases rows.len(),
{
    if rows.len() > 0 {
        lemma_index_well_formed(rows.drop_last());
        lemma_with_well_formed(index_rows(rows.drop_last()), rows.last());
    }
}

/// The index of a container: where each entry lies, by its name.
pub struct NativeArchive {
    file_table: StringHashMap<FileTableRow>,
    file_names: Vec<String>,
}

impl View for NativeArchive {
    type V = NativeArchiveView;

    closed spec fn view(&self) -> NativeArchiveView {
        NativeArchiveView {
            rows: self.file_table@.map_values(|row: FileTableRow| row@),
            names: self.file_names.deep_view(),
        }
    }
}

impl NativeArchive {
    #[verifier::type_invariant]
    spec fn names_are_keys(self) -> bool {
        self@.well_formed()
    }

    /// An archive without entries.
    pub fn new() -> (archive: NativeArchive)
        ensures
            archive@ == NativeArchiveView::empty(),
    {
        let archive = NativeArchive { file_table: StringHashMap::new(), file_names: Vec::new() };
        assert(archive@.rows =~= Map::empty());
        assert(archive@.names =~= Seq::empty());
        archive
    }

    /// The archive with one more row, filed under its name in lower case in
    /// place of any row that is there under that name.
    pub fn with_row(self, row: FileTableRow) -> (archive: NativeArchive)
        ensures
            archive@ == self@.with(row@),
    {
        proof {
            use_type_invariant(&self);
            lemma_with_well_formed(self@, row@);
        }
        let ghost before = self@;
        let NativeArchive { mut file_table, mut file_names } = self;
        let name = row.file_name.as_str().to_lowercase();
        if !file_table.contains_key(name.as_str()) {
            file_names.push(name.clone());
            assert(file_names.deep_view() =~= before.names.push(name@));
        }
        file_table.insert(name, row);
        assert(file_table@.map_values(|row: FileTableRow| row@) =~= before.rows.insert(
            lowercase(row@.file_name),
            row@,
        ));
        NativeArchive { file_table, file_names }
    }

    /// Reads `file_count` rows from an inflated table and files each under
    /// its name in lower case. Of rows with one name the last one stays.
    pub fn from_table(file_count: usize, table: &[u8]) -> (result: Result<NativeArchive, ArchiveError>)
        ensures
            match result {
                Ok(archive) => {
                    &&& parse_rows(table@, file_count as nat) matches Ok((rows, _))
                    &&& archive@ == index_rows(rows)
                },
                Err(error) => {
                    &&& parse_rows(table@, file_count as nat) matches Err(failure)
                    &&& error@ == failure
                },
            },
    {
        let mut stream = ByteStream::new(table);
        let mut archive = NativeArchive::new();
        let mut index: usize = 0;
        let ghost mut rows: Seq<FileTableRowView> = Seq::empty();
        while index < file_count
            invariant
                index <= file_count,
                stream@.data == table@,
                stream@.offset <= table@.len(),
                parse_rows(table@, index as nat) == Ok::<_, Failure>((rows, stream@.offset as int)),
                archive@ == index_rows(rows),
            decreases file_count - index,
        {
            assert(stream@.remaining() == table@.subrange(stream@.offset as int, table@.len() as int));
            match FileTableRow::from_bytes(&mut stream) {
                Ok(row) => {
                    proof {
                        assert(rows.push(row@).drop_last() =~= rows);
                        rows = rows.push(row@);
                    }
                    archive = archive.with_row(row);
                },
                Err(error) => {
                    proof {
                        assert(parse_rows(table@, (index + 1) as nat) is Err);
                        lemma_parse_rows_failure_stays(
                            table@,
                            (index + 1) as nat,
                            file_count as nat,
                        );
                    }
                    return Err(ArchiveError::TruncatedRecord(*error));
                },
            }
            index += 1;
        }
        Ok(archive)
    }

    /// The row of the entry that a path names, whatever its case.
    pub fn get(&self, asset_path: &str) -> (row: Option<&FileTableRow>)
        ensures
            self@.well_formed(),
            match row {
                Some(row) => self@.lookup(asset_path@) == Some(row@),
                None => self@.lookup(asset_path@) is None,
            },
    {
        proof {
            use_type_invariant(self);
        }
        let name = asset_path.to_lowercase();
        self.file_table.get(name.as_str())
    }

    /// Appends to `files` the name of each file in the archive whose name
    /// ends with `extension`. Directories are left out.
    pub fn get_files_with_extension(&self, files: &mut Vec<String>, extension: &str)
        ensures
            self@.well_formed(),
            final(files).deep_view() == old(files).deep_view() + self@.files_with_extension(
                extension@,
            ),
    {
        proof {
            use_type_invariant(self);
        }
        let mut index: usize = 0;
        while index < self.file_names.len()
            invariant
                index <= self.file_names.len(),
                self@.well_formed(),
                files.deep_view() == old(files).deep_view() + self@.select(
                    index as nat,
                    extension@,
                ),
            decreases self.file_names.len() - index,
        {
            let name = &self.file_names[index];
            assert(self@.names[index as int] == name@);
            assert(self@.names.contains(name@));
            let ghost before = files.deep_view();
            match self.file_table.get(name.as_str()) {
                Some(row) => {
                    if ends_with(name.as_str(), extension) && row.is_file() {
                        files.push(name.clone());
                        assert(files.deep_view() =~= before.push(name@));
                    }
                },
                None => {},
            }
            index += 1;
            assert(files.deep_view() =~= old(files).deep_view() + self@.select(
                index as nat,
                extension@,
            ));
        }
    }
}

/// The one version of the container format that is read.
pub const SUPPORTED_VERSION: u32 = 0x200;

/// A run of bytes of the container file that is to be read in one piece.
#[derive(Debug, Clone, Copy, PartialEq, Eq)]
pub struct ReadRequest {
    /// Index in the file of the first byte.
    pub position: u64,
    /// Number of bytes.
    pub length: usize,
}

impl ReadRequest {
    /// The bytes of `image` that the request names, where it holds them all.
    pub open spec fn of(self, image: Seq<u8>) -> Option<Seq<u8>> {
        if self.position + self.length <= image.len() {
            Some(image.subrange(self.position as int, self.position + self.length))
        } else {
            None
        }
    }

    /// Takes the bytes that the request names out of a file that is held in
    /// memory.
    pub fn read<'a>(&self, image: &'a [u8]) -> (bytes: Option<&'a [u8]>)
        ensures
            match bytes {
                Some(bytes) => self.of(image@) == Some(bytes@),
                None => self.of(image@) is None,
            },
    {
        if self.position > image.len() as u64 {
            return None;
        }
        let start = self.position as usize;
        if self.length > image.len() - start {
            return None;
        }
        Some(vstd::slice::slice_subrange(image, start, start + self.length))
    }
}

/// The bytes that the inflater made, if it made any.
pub open spec fn unpacked_view(unpacked: Option<Vec<u8>>) -> Option<Seq<u8>> {
    match unpacked {
        Some(bytes) => Some(bytes@),
        None => None,
    }
}

/// What an inflated table of `file_count` rows makes, given what the inflater
/// made of the packed table: the archive, or the failure.
pub open spec fn table_outcome(file_count: nat, table: AssetTable, unpacked: Option<Seq<u8>>) -> Result<
    NativeArchiveView,
    Failure,
> {
    match unpacked {
        None => Err(Failure::Decompress),
        Some(bytes) => if bytes.len() != table.uncompressed_size {
            Err(Failure::Decompress)
        } else {
            match parse_rows(bytes, file_count) {
                Ok((rows, _)) => Ok(index_rows(rows)),
                Err(failure) => Err(failure),
            }
        },
    }
}

/// How far the opening of an archive has come. Each state but the last asks
/// for a run of bytes of the file and goes on when it is supplied.
pub enum ArchiveLoader {
    /// Nothing was read yet.
    Header,
    /// The header was read: the table record lies `file_table_offset` bytes
    /// behind it.
    Table { file_table_offset: u32, file_count: usize },
    /// The table record was read: the packed table lies behind it.
    Rows { file_table_offset: u32, file_count: usize, table: AssetTable },
    /// The archive is open.
    Done { archive: NativeArchive },
}

/// What an [`ArchiveLoader`] is to a contract.
pub enum LoaderView {
    Header,
    Table { file_table_offset: u32, file_count: usize },
    Rows { file_table_offset: u32, file_count: usize, table: AssetTable },
    Done { archive: NativeArchiveView },
}

impl View for ArchiveLoader {
    type V = LoaderView;

    open spec fn view(&self) -> LoaderView {
        match self {
            ArchiveLoader::Header => LoaderView::Header,
            ArchiveLoader::Table { file_table_offset, file_count } => LoaderView::Table {
                file_table_offset: *file_table_offset,
                file_count: *file_count,
            },
            ArchiveLoader::Rows { file_table_offset, file_count, table } => LoaderView::Rows {
                file_table_offset: *file_table_offset,
                file_count: *file_count,
                table: *table,
            },
            ArchiveLoader::Done { archive } => LoaderView::Done { archive: archive@ },
        }
    }
}

impl LoaderView {
    /// The bytes that the state asks for.
    pub open spec fn request(self) -> Option<ReadRequest> {
        match self {
            LoaderView::Header => Some(ReadRequest { position: 0, length: 46 }),
            LoaderView::Table { file_table_offset, .. } => Some(
                ReadRequest { position: (46 + file_table_offset) as u64, length: 8 },
            ),
            LoaderView::Rows { file_table_offset, table, .. } => Some(
                ReadRequest {
                    position: (54 + file_table_offset) as u64,
                    length: table.compressed_size as usize,
                },
            ),
            LoaderView::Done { .. } => None,
        }
    }

    /// The state that follows when `bytes` are supplied, or the failure that
    /// they lead to.
    pub open spec fn supply(self, bytes: Seq<u8>) -> Result<LoaderView, Failure> {
        match self {
            LoaderView::Header => match Header::parse(bytes) {
                None => Err(
                    Failure::Truncated {
                        record: Header::spec_name(),
                        requested: 46,
                        available: bytes.len(),
                    },
                ),
                Some(header) => if header.version != SUPPORTED_VERSION {
                    Err(Failure::Format)
                } else {
                    match header.entry_count() {
                        None => Err(Failure::Format),
                        Some(count) => Ok(
                            LoaderView::Table {
                                file_table_offset: header.file_table_offset,
                                file_count: count as usize,
                            },
                        ),
                    }
                },
            },
            LoaderView::Table { file_table_offset, file_count } => match AssetTable::parse(bytes) {
                None => Err(
                    Failure::Truncated {
                        record: AssetTable::spec_name(),
                        requested: 8,
                        available: bytes.len(),
                    },
                ),
                Some(table) => Ok(LoaderView::Rows { file_table_offset, file_count, table }),
            },
            LoaderView::Rows { file_count, table, .. } => match table_outcome(
                file_count as nat,
                table,
                inflate_outcome(bytes, inflated(bytes)),
            ) {
                Ok(archive) => Ok(LoaderView::Done { archive }),
                Err(failure) => Err(failure),
            },
            LoaderView::Done { .. } => Ok(self),
        }
    }

    /// The state that follows when the bytes asked for are read from `image`.
    pub open spec fn feed(self, image: Seq<u8>) -> Result<LoaderView, Failure> {
        match self.request() {
            None => Ok(self),
            Some(request) => match request.of(image) {
                None => Err(Failure::Io),
                Some(bytes) => self.supply(bytes),
            },
        }
    }
}

/// What opening a container that is held in memory gives: the header is read
/// at the start, the table record at the place that the header names, the
/// packed table behind it.
pub open spec fn opened(image: Seq<u8>) -> Result<NativeArchiveView, Failure> {
    match LoaderView::Header.feed(image) {
        Err(failure) => Err(failure),
        Ok(table) => match table.feed(image) {
            Err(failure) => Err(failure),
            Ok(rows) => match rows.feed(image) {
                Err(failure) => Err(failure),
                Ok(done) => Ok(done->archive),
            },
        },
    }
}

impl ArchiveLoader {
    /// The state in which nothing was read yet.
    pub fn new() -> (loader: ArchiveLoader)
        ensures
            loader@ == LoaderView::Header,
    {
        ArchiveLoader::Header
    }

    /// The bytes that are to be read next, or nothing once the archive is
    /// open.
    pub fn request(&self) -> (request: Option<ReadRequest>)
        ensures
            request == self@.request(),
    {
        match self {
            ArchiveLoader::Header => Some(ReadRequest { position: 0, length: 46 }),
            ArchiveLoader::Table { file_table_offset, .. } => Some(
                ReadRequest { position: 46 + *file_table_offset as u64, length: 8 },
            ),
            ArchiveLoader::Rows { file_table_offset, table, .. } => Some(
                ReadRequest {
                    position: 54 + *file_table_offset as u64,
                    length: table.compressed_size as usize,
                },
            ),
            ArchiveLoader::Done { .. } => None,
        }
    }

    /// Goes on with the bytes that were read.
    pub fn supply(self, bytes: &[u8]) -> (result: Result<ArchiveLoader, ArchiveError>)
        ensures
            match result {
                Ok(loader) => self@.supply(bytes@) == Ok::<_, Failure>(loader@),
                Err(error) => self@.supply(bytes@) == Err::<LoaderView, _>(error@),
            },
    {
        match self {
            ArchiveLoader::Header => {
                let mut stream = ByteStream::new(bytes);
                assert(stream@.remaining() =~= bytes@);
                let header = match Header::from_bytes(&mut stream) {
                    Ok(header) => header,
                    Err(error) => {
                        return Err(ArchiveError::TruncatedRecord(*error));
                    },
                };
                if header.version != SUPPORTED_VERSION {
                    return Err(ArchiveError::FormatError);
                }
                match header.get_file_count() {
                    None => Err(ArchiveError::FormatError),
                    Some(file_count) => Ok(
                        ArchiveLoader::Table {
                            file_table_offset: header.file_table_offset,
                            file_count,
                        },
                    ),
                }
            },
            ArchiveLoader::Table { file_table_offset, file_count } => {
                let mut stream = ByteStream::new(bytes);
                assert(stream@.remaining() =~= bytes@);
                match AssetTable::from_bytes(&mut stream) {
                    Ok(table) => Ok(ArchiveLoader::Rows { file_table_offset, file_count, table }),
                    Err(error) => Err(ArchiveError::TruncatedRecord(*error)),
                }
            },
            ArchiveLoader::Rows { file_count, table, .. } => {
                match NativeArchive::from_inflated_table(file_count, &table, inflate(bytes)) {
                    Ok(archive) => Ok(ArchiveLoader::Done { archive }),
                    Err(error) => Err(error),
                }
            },
            ArchiveLoader::Done { archive } => Ok(ArchiveLoader::Done { archive }),
        }
    }

    /// The archive, once it is open.
    pub fn finish(self) -> (archive: Option<NativeArchive>)
        ensures
            match archive {
                Some(archive) => self@ == (LoaderView::Done { archive: archive@ }),
                None => !(self@ is Done),
            },
    {
        match self {
            ArchiveLoader::Done { archive } => Some(archive),
            _ => None,
        }
    }
}

impl NativeArchive {
    /// Makes the archive of an inflated table, where the inflater made one
    /// and it has the length that the table record names.
    pub fn from_inflated_table(file_count: usize, table: &AssetTable, unpacked: Option<Vec<u8>>) -> (result:
        Result<NativeArchive, ArchiveError>)
        ensures
            match result {
                Ok(archive) => table_outcome(
                    file_count as nat,
                    *table,
                    unpacked_view(unpacked),
                ) == Ok::<_, Failure>(archive@),
                Err(error) => table_outcome(
                    file_count as nat,
                    *table,
                    unpacked_view(unpacked),
                ) == Err::<NativeArchiveView, _>(error@),
            },
    {
        match unpacked {
            None => Err(ArchiveError::DecompressError),
            Some(bytes) => {
                if bytes.len() != table.uncompressed_size as usize {
                    return Err(ArchiveError::DecompressError);
                }
                NativeArchive::from_table(file_count, bytes.as_slice())
            },
        }
    }

    /// Opens a container that is held in memory.
    pub fn from_bytes(image: &[u8]) -> (result: Result<NativeArchive, ArchiveError>)
        ensures
            match result {
                Ok(archive) => opened(image@) == Ok::<_, Failure>(archive@),
                Err(error) => opened(image@) == Err::<NativeArchiveView, _>(error@),
            },
    {
        let loader = ArchiveLoader::new().feed(image)?;
        let loader = loader.feed(image)?;
        let loader = loader.feed(image)?;
        match loader.finish() {
            Some(archive) => Ok(archive),
            None => Err(ArchiveError::IoError),
        }
    }
}

impl ArchiveLoader {
    /// Reads the bytes asked for from a file that is held in memory and goes
    /// on with them.
    pub fn feed(self, image: &[u8]) -> (result: Result<ArchiveLoader, ArchiveError>)
        ensures
            match result {
                Ok(loader) => self@.feed(image@) == Ok::<_, Failure>(loader@),
                Err(error) => self@.feed(image@) == Err::<LoaderView, _>(error@),
            },
    {
        match self.request() {
            None => Ok(self),
            Some(request) => match request.read(image) {
                None => Err(ArchiveError::IoError),
                Some(bytes) => self.supply(bytes),
            },
        }
    }
}

/// Where the stored bytes of an entry lie in the file.
pub open spec fn file_request_of(row: FileTableRowView) -> ReadRequest {
    ReadRequest { position: (46 + row.offset) as u64, length: row.compressed_size_aligned as usize }
}

/// The content of an entry, given its stored bytes: the cipher is taken off
/// and the rest inflated. Nothing where the inflater makes nothing of it.
pub open spec fn file_outcome(row: FileTableRowView, stored: Seq<u8>) -> Option<Seq<u8>> {
    inflate_outcome(deciphered(row, stored), inflated(deciphered(row, stored)))
}

impl NativeArchiveView {
    /// What fetching a path from a container that is held in memory gives:
    /// nothing where the archive has no such entry, else its content.
    pub open spec fn fetched(self, image: Seq<u8>, path: Seq<char>) -> Result<Option<Seq<u8>>, Failure> {
        match self.lookup(path) {
            None => Ok(None),
            Some(row) => match file_request_of(row).of(image) {
                None => Err(Failure::Io),
                Some(stored) => match file_outcome(row, stored) {
                    Some(content) => Ok(Some(content)),
                    None => Err(Failure::Decompress),
                },
            },
        }
    }
}

/// The bytes of a fetched entry, if there are any.
pub open spec fn content_view(content: Option<Vec<u8>>) -> Option<Seq<u8>> {
    match content {
        Some(bytes) => Some(bytes@),
        None => None,
    }
}

impl NativeArchive {
    /// Where the stored bytes of an entry lie in the file.
    pub fn file_request(row: &FileTableRow) -> (request: ReadRequest)
        ensures
            request == file_request_of(row@),
    {
        ReadRequest {
            position: 46 + row.offset as u64,
            length: row.compressed_size_aligned as usize,
        }
    }

    /// Makes the content of an entry from its stored bytes: takes the cipher
    /// off them and inflates the rest.
    pub fn unpack_file(row: &FileTableRow, stored: Vec<u8>) -> (result: Result<Vec<u8>, ArchiveError>)
        ensures
            match result {
                Ok(content) => file_outcome(row@, stored@) == Some(content@),
                Err(error) => file_outcome(row@, stored@) is None && error@ == Failure::Decompress,
            },
    {
        let mut buffer = stored;
        decrypt_file(row, &mut buffer);
        match inflate(buffer.as_slice()) {
            Some(content) => Ok(content),
            None => Err(ArchiveError::DecompressError),
        }
    }

    /// Fetches the content of the entry that a path names, whatever its
    /// case, from a container that is held in memory. A path that names no
    /// entry gives nothing, and no error.
    pub fn get_file_by_path(&self, image: &[u8], asset_path: &str) -> (result: Result<
        Option<Vec<u8>>,
        ArchiveError,
    >)
        ensures
            match result {
                Ok(content) => self@.fetched(image@, asset_path@) == Ok::<_, Failure>(
                    content_view(content),
                ),
                Err(error) => self@.fetched(image@, asset_path@) == Err::<Option<Seq<u8>>, _>(
                    error@,
                ),
            },
            self@.lookup(asset_path@) is None ==> result == Ok::<_, ArchiveError>(None::<Vec<u8>>),
    {
        let row = match self.get(asset_path) {
            Some(row) => row,
            None => {
                return Ok(None);
            },
        };
        let stored = match Self::file_request(row).read(image) {
            Some(stored) => stored,
            None => {
                return Err(ArchiveError::IoError);
            },
        };
        match Self::unpack_file(row, vstd::slice::slice_to_vec(stored)) {
            Ok(content) => Ok(Some(content)),
            Err(error) => Err(error),
        }
    }
}

/// Whether a container that is held in memory opens: it holds a header of
/// the supported version with room for its file count, the table record and
/// the packed table where the header says, and the table inflates to the
/// recorded length and holds the rows.
pub open spec fn well_formed_image(image: Seq<u8>) -> bool {
    &&& Header::parse(image) matches Some(header)
    &&& header.version == SUPPORTED_VERSION
    &&& header.entry_count() matches Some(count)
    &&& image.len() >= 54 + header.file_table_offset
    &&& AssetTable::parse(image.subrange(46 + header.file_table_offset, 54 + header.file_table_offset))
        matches Some(table)
    &&& image.len() >= 54 + header.file_table_offset + table.compressed_size
    &&& table_outcome(count, table, unpacked_table(image, header.file_table_offset, table)) is Ok
}

/// What the inflater makes of the packed table of a container.
pub open spec fn unpacked_table(image: Seq<u8>, file_table_offset: u32, table: AssetTable) -> Option<Seq<u8>> {
    let packed = image.subrange(
        54 + file_table_offset,
        54 + file_table_offset + table.compressed_size,
    );
    inflate_outcome(packed, inflated(packed))
}

/// A container whose header names another version than the supported one
/// does not open: the format is refused.
pub proof fn lemma_other_version_refused(image: Seq<u8>)
    requires
        image.len() >= 46,
        le_u32(image.subrange(42, 46)) != SUPPORTED_VERSION,
    ensures
        opened(image) == Err::<NativeArchiveView, _>(Failure::Format),
{
    let bytes = image.subrange(0, 46);
    assert(bytes.subrange(42, 46) =~= image.subrange(42, 46));
}

/// A well-formed container opens.
pub proof fn lemma_well_formed_opens(image: Seq<u8>)
    requires
        well_formed_image(image),
    ensures
        opened(image) is Ok,
{
    let bytes = image.subrange(0, 46);
    assert(bytes.subrange(0, 16) =~= image.subrange(0, 16));
    assert(bytes.subrange(16, 30) =~= image.subrange(16, 30));
    assert(bytes.subrange(30, 34) =~= image.subrange(30, 34));
    assert(bytes.subrange(34, 38) =~= image.subrange(34, 38));
    assert(bytes.subrange(38, 42) =~= image.subrange(38, 42));
    assert(bytes.subrange(42, 46) =~= image.subrange(42, 46));
    assert(Header::parse(bytes) == Header::parse(image));
}

/// Two paths that differ in case only lead to the same entry.
pub proof fn lemma_lookup_ignores_case(archive: NativeArchiveView, first: Seq<char>, second: Seq<char>)
    requires
        lowercase(first) == lowercase(second),
    ensures
        archive.lookup(first) == archive.lookup(second),
{
}

/// The row that a table brings last under a name is the one that a path
/// with that name leads to, whatever the case of either.
pub proof fn lemma_last_row_found(rows: Seq<FileTableRowView>, path: Seq<char>)
    requires
        rows.len() > 0,
        lowercase(path) == lowercase(rows.last().file_name),
    ensures
        index_rows(rows).lookup(path) == Some(rows.last()),
{
}

/// A path that names no entry fetches nothing, and that is no failure.
pub proof fn lemma_absent_is_no_failure(archive: NativeArchiveView, image: Seq<u8>, path: Seq<char>)
    requires
        archive.lookup(path) is None,
    ensures
        archive.fetched(image, path) == Ok::<_, Failure>(None::<Seq<u8>>),
{
}

/// Whether the content of an entry is stored in `image` as its row says: the
/// stored bytes are all there and make a content of the recorded length.
pub open spec fn stored_as_recorded(row: FileTableRowView, image: Seq<u8>) -> bool {
    &&& file_request_of(row).of(image) matches Some(stored)
    &&& file_outcome(row, stored) matches Some(content)
    &&& content.len() == row.uncompressed_size
}

/// An entry that is stored as its row says is fetched, and what is fetched
/// has the length that the row records.
pub proof fn lemma_fetched_length(archive: NativeArchiveView, image: Seq<u8>, path: Seq<char>)
    requires
        archive.lookup(path) matches Some(row) && stored_as_recorded(row, image),
    ensures
        archive.fetched(image, path) matches Ok(Some(content)) && content.len()
            == archive.lookup(path)->0.uncompressed_size,
{
}

/// The names that are listed for an extension are those of the listed
/// entries among the first `count`.
pub proof fn lemma_select_exact(archive: NativeArchiveView, count: nat, extension: Seq<char>, name: Seq<char>)
    requires
        count <= archive.names.len(),
    ensures
        archive.select(count, extension).contains(name) <==> exists|i: int|
            0 <= i < count && archive.names[i] == name && archive.listed(name, extension),
    decreases count,
{
    if count > 0 {
        let earlier = archive.select((count - 1) as nat, extension);
        let last = archive.names[count - 1];
        lemma_select_exact(archive, (count - 1) as nat, extension, name);
        if archive.listed(last, extension) {
            let now = earlier.push(last);
            if now.contains(name) {
                let j = choose|j: int| 0 <= j < now.len() && now[j] == name;
                if j < earlier.len() {
                    assert(earlier[j] == name);
                    assert(earlier.contains(name));
                } else {
                    assert(name == last);
                    assert(archive.names[count - 1] == name);
                }
            }
            if exists|i: int| 0 <= i < count && archive.names[i] == name && archive.listed(name, extension) {
                let i = choose|i: int|
                    0 <= i < count && archive.names[i] == name && archive.listed(name, extension);
                if i < count - 1 {
                    assert(earlier.contains(name));
                    let j = choose|j: int| 0 <= j < earlier.len() && earlier[j] == name;
                    assert(now[j] == name);
                } else {
                    assert(now[earlier.len() as int] == name);
                }
            }
        }
    }
}

/// Listing by extension gives exactly the files whose name ends with the
/// extension: no directory, no other name, and no file of that kind is
/// missing.
pub proof fn lemma_listing_exact(archive: NativeArchiveView, extension: Seq<char>, name: Seq<char>)
    requires
        archive.well_formed(),
    ensures
        archive.files_with_extension(extension).contains(name) <==> {
            &&& archive.rows.contains_key(name)
            &&& extension.is_suffix_of(name)
            &&& archive.rows[name].is_file()
        },
{
    lemma_select_exact(archive, archive.names.len(), extension, name);
    if archive.rows.contains_key(name) && archive.listed(name, extension) {
        assert(archive.names.contains(name));
        let i = choose|i: int| 0 <= i < archive.names.len() && archive.names[i] == name;
        assert(0 <= i < archive.names.len() && archive.names[i] == name && archive.listed(
            name,
            extension,
        ));
    }
    if archive.files_with_extension(extension).contains(name) {
        let i = choose|i: int|
            0 <= i < archive.names.len() && archive.names[i] == name && archive.listed(
                name,
                extension,
            );
        assert(archive.names.contains(name));
    }
}

} // verus!
