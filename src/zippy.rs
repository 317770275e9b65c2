use vstd::prelude::*;
use vstd::string::StrSliceExecFns;

verus! {

/// rawzip's archive writer, held opaque.
#[verifier::external_type_specification]
#[verifier::external_body]
#[verifier::reject_recursive_types(W)]
pub struct ExZipArchiveWriter<W>(rawzip::ZipArchiveWriter<W>);

/// rawzip's error, held opaque.
#[verifier::external_type_specification]
#[verifier::external_body]
pub struct ExZipError(rawzip::Error);

/// The entries that an archive writer holds, in the order written: the stored path, and
/// the bytes of a file or nothing for a directory.
pub uninterp spec fn archive_entries(w: rawzip::ZipArchiveWriter<Vec<u8>>) -> Seq<
    (Seq<char>, Option<Seq<u8>>),
>;

/// The bytes of a finished archive that holds `entries`, files deflated at the default
/// level, without timestamps.
pub uninterp spec fn archive_bytes(entries: Seq<(Seq<char>, Option<Seq<u8>>)>) -> Seq<u8>;

/// Whether rawzip stores path `p` exactly as given and accepts it: no `\\` or `:`, no
/// empty segment, no segment that starts with `.`, at most 16383 characters (so at most
/// 65535 bytes); a directory path ends in `/`, a file path does not.
pub open spec fn stored_as_given(p: Seq<char>, dir: bool) -> bool {
    &&& p.len() <= 16383
    &&& forall|i: int| 0 <= i < p.len() ==> #[trigger] p[i] != '\\' && p[i] != ':'
    &&& forall|i: int| 0 <= i < p.len() && #[trigger] p[i] == '/' ==> i > 0 && p[i - 1] != '/'
    &&& forall|i: int|
        0 <= i < p.len() && #[trigger] p[i] == '.' ==> i > 0 && p[i - 1] != '/' && p[i - 1]
            != '.'
    &&& if dir {
        p.len() > 0 && p.last() == '/'
    } else {
        p.len() == 0 || p.last() != '/'
    }
}

/// A zip archive being written into memory; only the library writes it, so its buffer
/// starts empty and holds nothing but the entries written.
pub struct Zip {
    pub(crate) writer: rawzip::ZipArchiveWriter<Vec<u8>>,
}

impl Zip {
    /// Relies on rawzip's `ZipArchiveWriter::new`: a new writer holds no entry.
    #[verifier::external_body]
    pub(crate) fn new() -> (r: Zip)
        ensures
            archive_entries(r.writer) == Seq::<(Seq<char>, Option<Seq<u8>>)>::empty(),
    {
        Zip { writer: rawzip::ZipArchiveWriter::new(Vec::new()) }
    }

    /// Relies on rawzip's `new_file`, `ZipDataWriter::finish` and `ZipEntryWriter::finish`
    /// with flate2's `DeflateEncoder`: writing into memory, a path that rawzip stores as
    /// given and that fits its length field never fails, and the file is the next entry.
    #[verifier::external_body]
    pub(crate) fn write_file(&mut self, path: &str, bytes: &[u8]) -> (r: Result<(), rawzip::Error>)
        requires
            stored_as_given(path@, false),
        ensures
            r is Ok,
            r is Ok ==> archive_entries(final(self).writer) == archive_entries(old(self).writer).push(
                (path@, Some(bytes@)),
            ),
    {
        let (mut entry, config) = self.writer.new_file(path).compression_method(
            rawzip::CompressionMethod::DEFLATE,
        ).start()?;
        let encoder = flate2::write::DeflateEncoder::new(&mut entry, flate2::Compression::default());
        let mut writer = config.wrap(encoder);
        std::io::Write::write_all(&mut writer, bytes)?;
        let (encoder, descriptor) = writer.finish()?;
        encoder.finish()?;
        entry.finish(descriptor)?;
        Ok(())
    }

    /// Relies on rawzip's `new_dir` and `ZipDirBuilder::create`: writing into memory, a
    /// directory path that rawzip stores as given, ending in `/`, never fails, and the
    /// directory is the next entry.
    #[verifier::external_body]
    pub(crate) fn write_dir(&mut self, path: &str) -> (r: Result<(), rawzip::Error>)
        requires
            stored_as_given(path@, true),
        ensures
            r is Ok,
            r is Ok ==> archive_entries(final(self).writer) == archive_entries(old(self).writer).push(
                (path@, None),
            ),
    {
        self.writer.new_dir(path).create()?;
        Ok(())
    }

    /// Relies on rawzip's `ZipArchiveWriter::finish`: writing the central directory into
    /// memory, with no archive comment, never fails, and it hands back the bytes of the
    /// archive that holds the entries written.
    #[verifier::external_body]
    pub(crate) fn finish(self) -> (r: Result<Vec<u8>, rawzip::Error>)
        ensures
            r is Ok,
            r matches Ok(b) ==> b@ == archive_bytes(archive_entries(self.writer)),
    {
        self.writer.finish()
    }
}

/// One item to pack: a directory, or a file with its bytes.
pub enum ArchiveItem {
    Directory(String),
    File(String, Vec<u8>),
}

/// The archive entry of an item.
pub open spec fn item_entry(i: ArchiveItem) -> (Seq<char>, Option<Seq<u8>>) {
    match i {
        ArchiveItem::Directory(p) => (p@, None),
        ArchiveItem::File(p, b) => (p@, Some(b@)),
    }
}

/// The archive entries of a list of items.
pub open spec fn item_entries(items: Seq<ArchiveItem>) -> Seq<(Seq<char>, Option<Seq<u8>>)>
    decreases items.len(),
{
    if items.len() == 0 {
        Seq::empty()
    } else {
        item_entries(items.drop_last()).push(item_entry(items.last()))
    }
}

/// Whether an item's path is one that rawzip stores as given.
pub open spec fn item_admissible(i: ArchiveItem) -> bool {
    match i {
        ArchiveItem::Directory(p) => stored_as_given(p@, true),
        ArchiveItem::File(p, _) => stored_as_given(p@, false),
    }
}

/// Why packing failed: a path that the archive would not store as given, or closing the
/// archive (which never fails for the in-memory archives that `archive` writes).
pub enum ArchiveError {
    Path(String),
    Finish(rawzip::Error),
}

/// Whether `p` is a path that rawzip stores as given (see `stored_as_given`).
pub fn path_stored_as_given(p: &String, dir: bool) -> (r: bool)
    ensures
        r == stored_as_given(p@, dir),
{
    let s = p.as_str();
    let n = s.unicode_len();
    if n > 16383 {
        return false;
    }
    let mut i: usize = 0;
    let mut prev: char = '/';
    while i < n
        invariant
            s@ == p@,
            n == p@.len(),
            n <= 16383,
            i <= n,
            i > 0 ==> prev == p@[i - 1],
            forall|k: int| 0 <= k < i ==> #[trigger] p@[k] != '\\' && p@[k] != ':',
            forall|k: int| 0 <= k < i && #[trigger] p@[k] == '/' ==> k > 0 && p@[k - 1] != '/',
            forall|k: int|
                0 <= k < i && #[trigger] p@[k] == '.' ==> k > 0 && p@[k - 1] != '/' && p@[k - 1]
                    != '.',
        decreases n - i,
    {
        let c = s.get_char(i);
        if c == '\\' || c == ':' {
            return false;
        }
        if c == '/' && (i == 0 || prev == '/') {
            return false;
        }
        if c == '.' && (i == 0 || prev == '/' || prev == '.') {
            return false;
        }
        prev = c;
        i = i + 1;
    }
    if dir {
        n > 0 && prev == '/'
    } else {
        n == 0 || prev != '/'
    }
}

/// Packs the items, in order, into one archive. Every path is checked first: the first
/// one that rawzip would not store as given fails the packing with `Path`; otherwise the
/// packing succeeds.
pub fn archive(items: &Vec<ArchiveItem>) -> (r: Result<Vec<u8>, ArchiveError>)
    ensures
        r is Ok <==> forall|k: int| 0 <= k < items@.len() ==> item_admissible(#[trigger] items@[k]),
        r matches Ok(b) ==> b@ == archive_bytes(item_entries(items@)),
        r matches Err(ArchiveError::Path(p)) ==> exists|k: int|
            0 <= k < items@.len() && !item_admissible(items@[k]) && item_entry(items@[k]).0 == p@,
        !(r is Err && r->Err_0 is Finish),
{
    let mut zip = Zip::new();
    let mut i: usize = 0;
    while i < items.len()
        invariant
            i <= items@.len(),
            archive_entries(zip.writer) == item_entries(items@.take(i as int)),
            forall|k: int| 0 <= k < i ==> item_admissible(#[trigger] items@[k]),
        decreases items@.len() - i,
    {
        assert(items@.take(i + 1).drop_last() =~= items@.take(i as int));
        match &items[i] {
            ArchiveItem::Directory(path) => {
                if !path_stored_as_given(path, true) {
                    return Err(ArchiveError::Path(path.clone()));
                }
                let written = zip.write_dir(path.as_str());
            },
            ArchiveItem::File(path, bytes) => {
                if !path_stored_as_given(path, false) {
                    return Err(ArchiveError::Path(path.clone()));
                }
                let written = zip.write_file(path.as_str(), bytes.as_slice());
            },
        }
        i = i + 1;
    }
    assert(items@.take(i as int) =~= items@);
    match zip.finish() {
        Ok(b) => Ok(b),
        Err(e) => Err(ArchiveError::Finish(e)),
    }
}

} // verus!
