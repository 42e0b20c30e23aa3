use vstd::prelude::*;

verus! {

/// One record of an archive: its declared name (`/`-separated), whether it
/// is a directory, and its contents (empty for a directory).
#[derive(Debug, PartialEq, Eq)]
pub struct Entry {
    pub name: String,
    pub is_dir: bool,
    pub data: Vec<u8>,
}

/// The model of an entry: name characters, directory flag, content bytes.
pub type EntryModel = (Seq<char>, bool, Seq<u8>);

impl View for Entry {
    type V = EntryModel;

    open spec fn view(&self) -> EntryModel {
        (self.name@, self.is_dir, self.data@)
    }
}

impl DeepView for Entry {
    type V = EntryModel;

    open spec fn deep_view(&self) -> EntryModel {
        self@
    }
}

impl Entry {
    pub fn new(name: String, is_dir: bool, data: Vec<u8>) -> (r: Entry)
        ensures
            r@ == (name@, is_dir, data@),
    {
        Entry { name, is_dir, data }
    }
}

/// The entry list the zip reader yields for a byte buffer, in index order;
/// `None` when the buffer is not a zip archive the reader accepts or some
/// entry cannot be decompressed. Reading an in-memory buffer is a function
/// of the bytes alone.
pub uninterp spec fn zip_parse(b: Seq<u8>) -> Option<Seq<EntryModel>>;

/// Relies on zip::ZipArchive: `new` parses an in-memory buffer's central
/// directory and `by_index` yields each entry in index order, whose
/// declared name, directory flag and decompressed contents come from
/// `ZipFile::name`, `ZipFile::is_dir` and `Read::read_to_end`.
#[verifier::external_body]
pub(crate) fn zip_entries(bytes: &Vec<u8>) -> (r: Option<Vec<Entry>>)
    ensures
        match r {
            Some(es) => zip_parse(bytes@) == Some(es.deep_view()),
            None => zip_parse(bytes@) is None,
        },
{
    let mut zip = zip::ZipArchive::new(std::io::Cursor::new(bytes.as_slice())).ok()?;
    let mut out: Vec<Entry> = Vec::new();
    for i in 0..zip.len() {
        let mut f = zip.by_index(i).ok()?;
        let name = f.name().to_string();
        let is_dir = f.is_dir();
        let mut data = Vec::new();
        if !is_dir {
            std::io::Read::read_to_end(&mut f, &mut data).ok()?;
        }
        out.push(Entry { name, is_dir, data });
    }
    Some(out)
}

/// The entry list the tar reader yields for a byte buffer, in stream
/// order; `None` when the stream is not a readable tar archive. Reading an
/// in-memory buffer is a function of the bytes alone.
pub uninterp spec fn tar_parse(b: Seq<u8>) -> Option<Seq<EntryModel>>;

/// Relies on tar::Archive: `entries` yields the archive's entries in
/// stream order, whose declared path bytes, type flag and contents come
/// from `Entry::path_bytes`, `EntryType::is_dir` and `Read::read_to_end`.
#[verifier::external_body]
pub(crate) fn tar_entry_list(bytes: &Vec<u8>) -> (r: Option<Vec<Entry>>)
    ensures
        match r {
            Some(es) => tar_parse(bytes@) == Some(es.deep_view()),
            None => tar_parse(bytes@) is None,
        },
{
    let mut ar = tar::Archive::new(bytes.as_slice());
    let mut out: Vec<Entry> = Vec::new();
    let entries = ar.entries().ok()?;
    for ent in entries {
        let mut ent = ent.ok()?;
        let name = String::from_utf8_lossy(&ent.path_bytes()).into_owned();
        let is_dir = ent.header().entry_type().is_dir();
        let mut data = Vec::new();
        std::io::Read::read_to_end(&mut ent, &mut data).ok()?;
        out.push(Entry { name, is_dir, data });
    }
    Some(out)
}

/// The bytes a gzip member decompresses to; `None` when the bytes are not
/// a well-formed gzip stream. Decompression is a function of the bytes
/// alone.
pub uninterp spec fn gunzip_of(b: Seq<u8>) -> Option<Seq<u8>>;

/// Relies on flate2::read::GzDecoder: reading it to the end yields the
/// gzip member's decompressed bytes.
#[verifier::external_body]
pub(crate) fn gunzip(bytes: &Vec<u8>) -> (r: Option<Vec<u8>>)
    ensures
        match r {
            Some(d) => gunzip_of(bytes@) == Some(d@),
            None => gunzip_of(bytes@) is None,
        },
{
    let mut dec = flate2::read::GzDecoder::new(bytes.as_slice());
    let mut out: Vec<u8> = Vec::new();
    match std::io::Read::read_to_end(&mut dec, &mut out) {
        Ok(_) => Some(out),
        Err(_) => None,
    }
}

} // verus!
