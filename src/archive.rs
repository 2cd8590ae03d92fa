//! The delivery archive: a zip container whose entries are all stored uncompressed,
//! with a reserved entry holding the chapter's metadata record.
use vstd::prelude::*;
use std::io::Cursor;
use zip::{ZipArchive, ZipWriter};
use vstd::utf8::{decode_utf8, encode_utf8, valid_utf8};
use crate::json::{JsonNode, JsonShape, json_at, json_quoted, json_shape, json_text, quote_json, text_at};
use crate::text::{same_text, split_on, split_text, texts};

verus! {

#[verifier::external_type_specification]
#[verifier::external_body]
#[verifier::reject_recursive_types(T)]
pub struct ExCursor<T>(std::io::Cursor<T>);

/// A zip archive being written into memory.
#[verifier::external_body]
pub struct ArchiveWriter {
    inner: ZipWriter<Cursor<Vec<u8>>>,
}

/// How an entry's content is stored.
#[derive(Clone, Copy, Debug, PartialEq, Eq)]
pub enum Compression {
    /// As is, without compression.
    Stored,
}

/// The method every entry of a delivery archive is stored with.
pub const ENTRY_METHOD: Compression = Compression::Stored;

/// The permission bits every entry of a delivery archive carries.
pub const ENTRY_PERMISSIONS: u32 = 0o755;

/// The entries a writer has written so far, each with its name, content, permission
/// bits, whether it is a directory, and its storage method; `None` once writing failed.
pub uninterp spec fn written(w: ArchiveWriter) -> Option<Seq<(Seq<char>, Seq<u8>, nat, bool, Compression)>>;

/// What a zip reader finds in `bytes`: `None` when they are not a zip archive;
/// otherwise, in archive order, each entry's name and content, or `None` for an entry
/// that cannot be read.
pub uninterp spec fn zip_entries(bytes: Seq<u8>) -> Option<Seq<Option<(Seq<char>, Seq<u8>)>>>;

/// The name a directory entry gets: a `/` is added unless the name ends in `/` or `\`.
pub open spec fn dir_entry_name(name: Seq<char>) -> Seq<char> {
    if name.len() > 0 && (name.last() == '/' || name.last() == '\\') {
        name
    } else {
        name.push('/')
    }
}

/// The name of the entry that holds the metadata record.
pub const METADATA_ENTRY: &'static str = "_metadata";

#[derive(Clone, Copy, Debug, PartialEq, Eq)]
pub enum ArchiveError {
    /// The zip layer refused to write or read an entry.
    Zip,
    /// Writing an entry's content failed.
    Io,
    /// The entry looked for is absent, or its content is not what was expected.
    NotFound,
}

/// One thing to store: a file with its content, or a directory (`content` is `None`).
/// `name` is the path relative to the packed directory, with `/` between components;
/// the directory itself has the empty name.
pub struct ArchiveItem {
    pub name: String,
    pub content: Option<Vec<u8>>,
}

/// The record embedded in each archive, compared on later runs to decide whether a
/// chapter must be fetched again.
#[derive(Clone, Debug, PartialEq, Eq)]
pub struct ArchiveMetadata {
    pub language: String,
    /// `"true"` or `"false"`: whether the data-saver image quality was used.
    pub saver: String,
    pub scanlation_group: String,
    pub chapter: String,
}

/// Relies on zip::ZipWriter::new: a writer over an empty in-memory buffer, with nothing
/// written.
#[verifier::external_body]
fn new_writer() -> (r: ArchiveWriter)
    ensures
        written(r) == Some(Seq::<(Seq<char>, Seq<u8>, nat, bool, Compression)>::empty()),
{
    ArchiveWriter { inner: ZipWriter::new(Cursor::new(Vec::new())) }
}

/// Relies on zip::ZipWriter::start_file: begins a file entry with the given method and
/// permission bits. Writing into memory, it cannot fail while the writer is sound. The
/// name's length must fit the 16-bit field zip writes it in.
#[verifier::external_body]
fn start_file(w: &mut ArchiveWriter, name: &str, method: Compression, permissions: u32) -> (r: bool)
    requires
        encode_utf8(name@).len() < 0x1_0000,
    ensures
        written(*old(w)) matches Some(s) ==> r && written(*final(w)) == Some(
            s.push((name@, Seq::<u8>::empty(), permissions as nat, false, method)),
        ),
{
    let method = match method {
        Compression::Stored => zip::CompressionMethod::Stored,
    };
    let options = zip::write::FileOptions::default().compression_method(method).unix_permissions(
        permissions,
    );
    w.inner.start_file(name, options).is_ok()
}

/// The written entries with `bytes` added to the content of the last one.
pub open spec fn append_to_last(s: Seq<(Seq<char>, Seq<u8>, nat, bool, Compression)>, bytes: Seq<u8>) -> Seq<
    (Seq<char>, Seq<u8>, nat, bool, Compression),
> {
    s.update(s.len() - 1, (s.last().0, s.last().1 + bytes, s.last().2, s.last().3, s.last().4))
}

/// Relies on std::io::Write::write_all as zip::ZipWriter implements it: appends the
/// bytes to the file entry begun last. It fails only once that file would exceed
/// 0xFFFF_FFFF bytes.
#[verifier::external_body]
fn write_content(w: &mut ArchiveWriter, bytes: &Vec<u8>) -> (r: bool)
    ensures
        written(*old(w)) matches Some(s) ==> (s.len() > 0 && !s.last().3 && s.last().1.len()
            + bytes@.len() < 0xFFFF_FFFF ==> r && written(*final(w)) == Some(
            append_to_last(s, bytes@),
        )),
{
    std::io::Write::write_all(&mut w.inner, bytes.as_slice()).is_ok()
}

/// Relies on zip::ZipWriter::add_directory: adds a directory entry, stored, with the
/// given permission bits, its name ending in `/`.
#[verifier::external_body]
fn add_directory(w: &mut ArchiveWriter, name: &str, permissions: u32) -> (r: bool)
    requires
        encode_utf8(name@).len() < 0xFFFF,
    ensures
        written(*old(w)) matches Some(s) ==> r && written(*final(w)) == Some(
            s.push((dir_entry_name(name@), Seq::<u8>::empty(), permissions as nat, true, Compression::Stored)),
        ),
{
    let options = zip::write::FileOptions::default().unix_permissions(permissions);
    w.inner.add_directory(name, options).is_ok()
}

/// The bytes zip writes for an archive of `entries`: the result depends on the entries
/// alone, no time of writing being recorded in this build.
pub uninterp spec fn zip_written(entries: Seq<(Seq<char>, Seq<u8>, nat, bool, Compression)>) -> Seq<u8>;

/// Relies on zip::ZipWriter::finish: writes the central directory and hands back the
/// archive's bytes. Writing into memory, it cannot fail while the writer is sound.
#[verifier::external_body]
fn finish_archive(w: ArchiveWriter) -> (r: Option<Vec<u8>>)
    ensures
        written(w) is Some ==> r is Some,
        r matches Some(b) ==> (written(w) is Some ==> b@ == zip_written(written(w)->Some_0)),
{
    let mut inner = w.inner;
    inner.finish().ok().map(|c| c.into_inner())
}

/// Relies on zip::ZipArchive::new, zip::ZipArchive::len and
/// zip::ZipArchive::by_index_decrypt (with an empty password, which zip discards for an
/// entry that is not encrypted): the number of entries of the archive in `bytes`, with
/// the name and content of entry `i` (`None` past the end, or when it cannot be read);
/// `None` when the bytes are not an archive.
#[verifier::external_body]
fn read_entry(bytes: &Vec<u8>, i: usize) -> (r: Option<(usize, Option<(String, Vec<u8>)>)>)
    ensures
        r is None <==> zip_entries(bytes@) is None,
        r matches Some((n, e)) ==> (zip_entries(bytes@) matches Some(es) && n == es.len() && (i
            < n ==> es[i as int] == entry_view(e)) && (i >= n ==> e is None)),
{
    let mut a = ZipArchive::new(Cursor::new(bytes.as_slice())).ok()?;
    let n = a.len();
    let mut content = Vec::new();
    let e = match a.by_index_decrypt(i, b"") {
        Ok(Ok(mut f)) => match std::io::Read::read_to_end(&mut f, &mut content) {
            Ok(_) => Some((f.name().to_string(), content)),
            Err(_) => None,
        },
        _ => None,
    };
    Some((n, e))
}

pub open spec fn entry_view(e: Option<(String, Vec<u8>)>) -> Option<(Seq<char>, Seq<u8>)> {
    match e {
        Some((n, c)) => Some((n@, c@)),
        None => None,
    }
}

/// What `str::to_lowercase` makes of a text.
pub uninterp spec fn lower_of(s: Seq<char>) -> Seq<char>;

/// Relies on str::to_lowercase: the result depends on the characters alone.
#[verifier::external_body]
fn lowercase(s: &str) -> (r: String)
    ensures
        r@ == lower_of(s@),
{
    s.to_lowercase()
}

/// Relies on rand's SliceRandom::shuffle, driven by rand::thread_rng: the same items,
/// in some order.
#[verifier::external_body]
fn shuffle(v: &mut Vec<Vec<u8>>)
    ensures
        byte_seqs(final(v)@).to_multiset() == byte_seqs(old(v)@).to_multiset(),
{
    rand::seq::SliceRandom::shuffle(v.as_mut_slice(), &mut rand::thread_rng());
}

/// The entries an archive of `items` holds, in order: each file under its name with its
/// content, each named directory under its directory name with no content.
pub open spec fn stored(items: Seq<ArchiveItem>) -> Seq<(Seq<char>, Seq<u8>)>
    decreases items.len(),
{
    if items.len() == 0 {
        Seq::empty()
    } else {
        let rest = stored(items.drop_last());
        let it = items.last();
        match it.content {
            Some(c) => rest.push((it.name@, c@)),
            None => if it.name@.len() > 0 {
                rest.push((dir_entry_name(it.name@), Seq::empty()))
            } else {
                rest
            },
        }
    }
}

/// The entries of the archive in `bytes` when every one of them can be read.
pub open spec fn archive_contents(bytes: Seq<u8>) -> Option<Seq<(Seq<char>, Seq<u8>)>> {
    match zip_entries(bytes) {
        None => None,
        Some(es) => if forall|i: int| 0 <= i < es.len() ==> (#[trigger] es[i]) is Some {
            Some(es.map_values(|e: Option<(Seq<char>, Seq<u8>)>| e->Some_0))
        } else {
            None
        },
    }
}

pub open spec fn written_pairs(ws: Seq<(Seq<char>, Seq<u8>, nat, bool, Compression)>) -> Seq<(Seq<char>, Seq<u8>)> {
    ws.map_values(|e: (Seq<char>, Seq<u8>, nat, bool, Compression)| (e.0, e.1))
}

/// What `pack` writes for `items`, in order: each file under its name with its content,
/// each named directory under its directory name, all stored with permissions 0o755.
pub open spec fn planned(items: Seq<ArchiveItem>) -> Seq<(Seq<char>, Seq<u8>, nat, bool, Compression)>
    decreases items.len(),
{
    if items.len() == 0 {
        Seq::empty()
    } else {
        let rest = planned(items.drop_last());
        let it = items.last();
        match it.content {
            Some(c) => rest.push((it.name@, c@, ENTRY_PERMISSIONS as nat, false, ENTRY_METHOD)),
            None => if it.name@.len() > 0 {
                rest.push(
                    (dir_entry_name(it.name@), Seq::empty(), ENTRY_PERMISSIONS as nat, true, Compression::Stored),
                )
            } else {
                rest
            },
        }
    }
}

proof fn lemma_planned_pairs(items: Seq<ArchiveItem>)
    ensures
        written_pairs(planned(items)) == stored(items),
    decreases items.len(),
{
    if items.len() > 0 {
        lemma_planned_pairs(items.drop_last());
        let rest = planned(items.drop_last());
        let it = items.last();
        match it.content {
            Some(c) => {
                assert(written_pairs(rest.push((it.name@, c@, ENTRY_PERMISSIONS as nat, false, ENTRY_METHOD)))
                    =~= written_pairs(rest).push((it.name@, c@)));
            },
            None => {
                if it.name@.len() > 0 {
                    assert(written_pairs(
                        rest.push((dir_entry_name(it.name@), Seq::empty(), ENTRY_PERMISSIONS as nat, true, Compression::Stored)),
                    ) =~= written_pairs(rest).push((dir_entry_name(it.name@), Seq::<u8>::empty())));
                }
            },
        }
    }
}

/// The name a directory entry gets, as `dir_entry_name` states.
fn directory_name(name: &String) -> (r: String)
    ensures
        r@ == dir_entry_name(name@),
{
    let n = name.as_str().unicode_len();
    if n > 0 {
        let c = name.as_str().get_char(n - 1);
        if c == '/' || c == '\\' {
            return name.clone();
        }
    }
    let mut r = name.clone();
    r.append("/");
    proof {
        reveal_strlit("/");
    }
    assert(r@ =~= name@.push('/'));
    r
}

/// Whether the two byte vectors hold the same bytes.
pub fn same_bytes(a: &Vec<u8>, b: &Vec<u8>) -> (r: bool)
    ensures
        r == (a@ == b@),
{
    if a.len() != b.len() {
        return false;
    }
    let mut i: usize = 0;
    while i < a.len()
        invariant
            i <= a.len(),
            a.len() == b.len(),
            forall|k: int| 0 <= k < i ==> a@[k] == b@[k],
        decreases a.len() - i,
    {
        if a[i] != b[i] {
            return false;
        }
        i = i + 1;
    }
    assert(a@ =~= b@);
    true
}

/// Whether two lists of entries are the same, name for name and content for content.
fn same_entries(names: &Vec<String>, contents: &Vec<Vec<u8>>, en: &Vec<String>, ec: &Vec<Vec<u8>>) -> (r: bool)
    requires
        names.len() == contents.len(),
        en.len() == ec.len(),
    ensures
        r == (entry_pairs(names@, contents@) == entry_pairs(en@, ec@)),
{
    if names.len() != en.len() {
        assert(entry_pairs(names@, contents@).len() != entry_pairs(en@, ec@).len());
        return false;
    }
    let mut i: usize = 0;
    while i < names.len()
        invariant
            i <= names.len(),
            names.len() == contents.len(),
            en.len() == ec.len(),
            names.len() == en.len(),
            forall|k: int| 0 <= k < i ==> entry_pairs(names@, contents@)[k] == entry_pairs(en@, ec@)[k],
        decreases names.len() - i,
    {
        if !same_text(names[i].as_str(), en[i].as_str()) || !same_bytes(&contents[i], &ec[i]) {
            assert(entry_pairs(names@, contents@)[i as int] != entry_pairs(en@, ec@)[i as int]);
            return false;
        }
        i = i + 1;
    }
    assert(entry_pairs(names@, contents@) =~= entry_pairs(en@, ec@));
    true
}

/// Builds the archive of `items`, in their order: each file with its content, each
/// directory as an entry of its own, the packed directory itself (empty name) left
/// out, every entry stored uncompressed with permissions 0o755. The archive is read
/// back before it is handed out: it fails unless a zip reader finds exactly those
/// entries in it, and it succeeds whenever a reader does and no file reaches
/// 0xFFFF_FFFF bytes.
pub fn pack(items: &Vec<ArchiveItem>) -> (r: Result<Vec<u8>, ArchiveError>)
    requires
        forall|i: int| 0 <= i < items.len() ==> encode_utf8((#[trigger] items@[i]).name@).len() < 0xFFFF,
    ensures
        r matches Ok(b) ==> b@ == zip_written(planned(items@)) && archive_contents(b@) == Some(
            stored(items@),
        ),
        (forall|i: int|
            0 <= i < items.len() ==> ((#[trigger] items@[i]).content matches Some(c) ==> c@.len()
                < 0xFFFF_FFFF)) && archive_contents(zip_written(planned(items@))) == Some(
            stored(items@),
        ) ==> r is Ok,
{
    let mut w = new_writer();
    let mut en: Vec<String> = Vec::new();
    let mut ec: Vec<Vec<u8>> = Vec::new();
    let mut i: usize = 0;
    assert(entry_pairs(en@, ec@) =~= Seq::<(Seq<char>, Seq<u8>)>::empty());
    while i < items.len()
        invariant
            i <= items.len(),
            forall|k: int| 0 <= k < items.len() ==> encode_utf8((#[trigger] items@[k]).name@).len() < 0xFFFF,
            written(w) == Some(planned(items@.take(i as int))),
            en.len() == ec.len(),
            entry_pairs(en@, ec@) == stored(items@.take(i as int)),
        decreases items.len() - i,
    {
        let item = &items[i];
        let ghost ws = written(w)->Some_0;
        let ghost ep = entry_pairs(en@, ec@);
        assert(items@.take(i + 1).drop_last() =~= items@.take(i as int));
        assert(items@.take(i + 1).last() == *item);
        match &item.content {
            Some(bytes) => {
                if bytes.len() >= 0xFFFF_FFFF {
                    return Err(ArchiveError::Io);
                }
                if !start_file(&mut w, item.name.as_str(), ENTRY_METHOD, ENTRY_PERMISSIONS) {
                    return Err(ArchiveError::Zip);
                }
                if !write_content(&mut w, bytes) {
                    return Err(ArchiveError::Io);
                }
                assert(Seq::<u8>::empty() + bytes@ =~= bytes@);
                assert(written(w)->Some_0 =~= ws.push(
                    (item.name@, bytes@, ENTRY_PERMISSIONS as nat, false, ENTRY_METHOD),
                ));
                en.push(item.name.clone());
                ec.push(bytes.clone());
                assert(entry_pairs(en@, ec@) =~= ep.push((item.name@, bytes@)));
            },
            None => {
                if item.name.as_str().unicode_len() > 0 {
                    if !add_directory(&mut w, item.name.as_str(), ENTRY_PERMISSIONS) {
                        return Err(ArchiveError::Zip);
                    }
                    en.push(directory_name(&item.name));
                    ec.push(Vec::new());
                    assert(entry_pairs(en@, ec@) =~= ep.push((dir_entry_name(item.name@), Seq::<u8>::empty())));
                }
            },
        }
        i = i + 1;
    }
    assert(items@.take(items.len() as int) =~= items@);
    let bytes = match finish_archive(w) {
        Some(b) => b,
        None => {
            return Err(ArchiveError::Zip);
        },
    };
    match read_entries(&bytes) {
        Ok((names, contents)) => {
            if same_entries(&names, &contents, &en, &ec) {
                Ok(bytes)
            } else {
                Err(ArchiveError::Zip)
            }
        },
        Err(e) => Err(e),
    }
}

pub open spec fn is_image_extension(ext: Seq<char>) -> bool {
    ext == "jpg"@ || ext == "jpeg"@ || ext == "png"@ || ext == "gif"@ || ext == "bmp"@ || ext
        == "webp"@
}

/// Whether an already lower-cased entry name ends in an image extension: the text
/// after its last `.` is one of jpg, jpeg, png, gif, bmp and webp.
pub fn has_image_extension(lowered: &str) -> (r: bool)
    ensures
        r == is_image_extension(split_on(lowered@, '.').last()),
{
    let pieces = split_text(lowered, '.');
    proof {
        crate::text::lemma_split_on_nonempty(lowered@, '.');
    }
    let last = &pieces[pieces.len() - 1];
    assert(last@ == texts(pieces@).last());
    let e = last.as_str();
    same_text(e, "jpg") || same_text(e, "jpeg") || same_text(e, "png") || same_text(e, "gif")
        || same_text(e, "bmp") || same_text(e, "webp")
}

/// Whether an entry name is that of an image, its extension compared without regard
/// to case.
pub fn is_image_name(name: &str) -> (r: bool)
    ensures
        r == is_image_extension(split_on(lower_of(name@), '.').last()),
{
    let lowered = lowercase(name);
    has_image_extension(lowered.as_str())
}

/// Whether the entry name is an image's, as `is_image_name` decides.
pub open spec fn image_name(name: Seq<char>) -> bool {
    is_image_extension(split_on(lower_of(name), '.').last())
}

/// The position of the first name that is an image's.
pub fn first_image(names: &Vec<String>) -> (r: Option<usize>)
    ensures
        match r {
            Some(i) => i < names.len() && image_name(names@[i as int]@) && forall|j: int|
                0 <= j < i ==> !image_name(#[trigger] names@[j]@),
            None => forall|j: int| 0 <= j < names.len() ==> !image_name(#[trigger] names@[j]@),
        },
{
    let mut i: usize = 0;
    while i < names.len()
        invariant
            i <= names.len(),
            forall|j: int| 0 <= j < i ==> !image_name(#[trigger] names@[j]@),
        decreases names.len() - i,
    {
        if is_image_name(names[i].as_str()) {
            return Some(i);
        }
        i = i + 1;
    }
    None
}

/// The positions of all names that are images', in order.
pub fn image_positions(names: &Vec<String>) -> (r: Vec<usize>)
    ensures
        forall|k: int| 0 <= k < r.len() ==> (#[trigger] r@[k]) < names.len() && image_name(names@[r@[k] as int]@),
        forall|k: int, l: int| 0 <= k < l < r.len() ==> r@[k] < r@[l],
        forall|j: int| 0 <= j < names.len() && image_name(#[trigger] names@[j]@) ==> r@.contains(j as usize),
{
    let mut out: Vec<usize> = Vec::new();
    let mut i: usize = 0;
    while i < names.len()
        invariant
            i <= names.len(),
            forall|k: int| 0 <= k < out.len() ==> (#[trigger] out@[k]) < i && image_name(names@[out@[k] as int]@),
            forall|k: int, l: int| 0 <= k < l < out.len() ==> out@[k] < out@[l],
            forall|j: int| 0 <= j < i && image_name(#[trigger] names@[j]@) ==> out@.contains(j as usize),
        decreases names.len() - i,
    {
        if is_image_name(names[i].as_str()) {
            let ghost before = out@;
            out.push(i);
            assert forall|j: int| 0 <= j < i + 1 && image_name(#[trigger] names@[j]@) implies out@.contains(j as usize) by {
                if j < i {
                    let k = choose|k: int| 0 <= k < before.len() && before[k] == j as usize;
                    assert(out@[k] == j as usize);
                } else {
                    assert(out@[out@.len() - 1] == j as usize);
                }
            }
        }
        i = i + 1;
    }
    out
}

pub open spec fn entry_pairs(names: Seq<String>, contents: Seq<Vec<u8>>) -> Seq<(Seq<char>, Seq<u8>)> {
    Seq::new(names.len(), |i: int| (names[i]@, contents[i]@))
}

/// Reads the names and contents of all entries of an archive, in archive order.
fn read_entries(archive: &Vec<u8>) -> (r: Result<(Vec<String>, Vec<Vec<u8>>), ArchiveError>)
    ensures
        r is Ok <==> archive_contents(archive@) is Some,
        r is Err ==> r == Err::<(Vec<String>, Vec<Vec<u8>>), ArchiveError>(ArchiveError::Zip),
        r matches Ok(e) ==> e.0.len() == e.1.len() && archive_contents(archive@) == Some(
            entry_pairs(e.0@, e.1@),
        ),
{
    let n = match read_entry(archive, 0) {
        Some((n, _)) => n,
        None => {
            return Err(ArchiveError::Zip);
        },
    };
    let ghost es = zip_entries(archive@)->Some_0;
    let mut names: Vec<String> = Vec::new();
    let mut contents: Vec<Vec<u8>> = Vec::new();
    let mut i: usize = 0;
    while i < n
        invariant
            i <= n,
            zip_entries(archive@) == Some(es),
            n == es.len(),
            names.len() == i,
            contents.len() == i,
            forall|k: int| 0 <= k < i ==> es[k] == Some((names@[k]@, contents@[k]@)),
        decreases n - i,
    {
        match read_entry(archive, i) {
            Some((_, Some((name, content)))) => {
                names.push(name);
                contents.push(content);
            },
            _ => {
                proof {
                    assert(!(forall|k: int| 0 <= k < es.len() ==> (#[trigger] es[k]) is Some));
                }
                return Err(ArchiveError::Zip);
            },
        }
        i = i + 1;
    }
    assert forall|k: int| 0 <= k < es.len() implies (#[trigger] es[k]) is Some by {}
    assert(es.map_values(|e: Option<(Seq<char>, Seq<u8>)>| e->Some_0) =~= entry_pairs(names@, contents@));
    Ok((names, contents))
}

/// The content of the first entry of `es` whose name is an image's.
pub open spec fn first_image_content(es: Seq<(Seq<char>, Seq<u8>)>) -> Option<Seq<u8>>
    decreases es.len(),
{
    if es.len() == 0 {
        None
    } else {
        match first_image_content(es.drop_last()) {
            Some(c) => Some(c),
            None => if image_name(es.last().0) {
                Some(es.last().1)
            } else {
                None
            },
        }
    }
}

/// What `extract_representative_image` yields for the archive in `bytes`.
pub open spec fn representative_image(bytes: Seq<u8>) -> Result<Seq<u8>, ArchiveError> {
    match archive_contents(bytes) {
        None => Err(ArchiveError::Zip),
        Some(es) => match first_image_content(es) {
            Some(c) => Ok(c),
            None => Err(ArchiveError::NotFound),
        },
    }
}

/// The content of the first entry, in archive order, whose name is an image's.
pub fn extract_representative_image(archive: Vec<u8>) -> (r: Result<Vec<u8>, ArchiveError>)
    ensures
        match r {
            Ok(c) => representative_image(archive@) == Ok::<Seq<u8>, ArchiveError>(c@),
            Err(e) => representative_image(archive@) == Err::<Seq<u8>, ArchiveError>(e),
        },
{
    let (names, mut contents) = match read_entries(&archive) {
        Ok(e) => e,
        Err(e) => {
            return Err(e);
        },
    };
    let ghost es = entry_pairs(names@, contents@);
    let mut i: usize = 0;
    while i < names.len()
        invariant
            i <= names.len(),
            names.len() == contents.len(),
            es == entry_pairs(names@, contents@),
            archive_contents(archive@) == Some(es),
            first_image_content(es.take(i as int)) is None,
        decreases names.len() - i,
    {
        assert(es.take(i + 1).drop_last() =~= es.take(i as int));
        assert(es.take(i + 1).last() == es[i as int]);
        if is_image_name(names[i].as_str()) {
            assert(es[i as int] == (names@[i as int]@, contents@[i as int]@));
            let c = contents.remove(i);
            assert(first_image_content(es.take(i + 1)) == Some(c@));
            proof {
                lemma_first_image_prefix(es, i + 1);
            }
            return Ok(c);
        }
        i = i + 1;
    }
    assert(es.take(names.len() as int) =~= es);
    Err(ArchiveError::NotFound)
}

proof fn lemma_first_image_prefix(es: Seq<(Seq<char>, Seq<u8>)>, k: int)
    requires
        0 <= k <= es.len(),
        first_image_content(es.take(k)) is Some,
    ensures
        first_image_content(es) == first_image_content(es.take(k)),
    decreases es.len(),
{
    if k < es.len() {
        assert(es.drop_last().take(k) =~= es.take(k));
        lemma_first_image_prefix(es.drop_last(), k);
    } else {
        assert(es.take(k) =~= es);
    }
}

/// The contents of the image entries of `es`, in order.
pub open spec fn image_contents(es: Seq<(Seq<char>, Seq<u8>)>) -> Seq<Seq<u8>>
    decreases es.len(),
{
    if es.len() == 0 {
        Seq::empty()
    } else if image_name(es.last().0) {
        image_contents(es.drop_last()).push(es.last().1)
    } else {
        image_contents(es.drop_last())
    }
}

/// The image contents of all the archives, in order; `None` when one of them cannot be
/// read.
pub open spec fn all_images(archives: Seq<Seq<u8>>) -> Option<Seq<Seq<u8>>>
    decreases archives.len(),
{
    if archives.len() == 0 {
        Some(Seq::empty())
    } else {
        match all_images(archives.drop_last()) {
            None => None,
            Some(acc) => match archive_contents(archives.last()) {
                None => None,
                Some(es) => Some(acc + image_contents(es)),
            },
        }
    }
}

pub open spec fn byte_seqs(v: Seq<Vec<u8>>) -> Seq<Seq<u8>> {
    v.map_values(|x: Vec<u8>| x@)
}

/// Appends the content of every image entry of `archive`, in archive order.
fn collect_images(archive: &Vec<u8>, images: &mut Vec<Vec<u8>>) -> (r: Result<(), ArchiveError>)
    ensures
        r is Ok <==> archive_contents(archive@) is Some,
        r is Err ==> r == Err::<(), ArchiveError>(ArchiveError::Zip),
        r is Ok ==> byte_seqs(final(images)@) == byte_seqs(old(images)@) + image_contents(
            archive_contents(archive@)->Some_0,
        ),
{
    let (names, contents) = match read_entries(archive) {
        Ok(e) => e,
        Err(e) => {
            return Err(e);
        },
    };
    let ghost es = entry_pairs(names@, contents@);
    let ghost before = byte_seqs(images@);
    let mut i: usize = 0;
    assert(es.take(0) =~= Seq::<(Seq<char>, Seq<u8>)>::empty());
    assert(before + Seq::<Seq<u8>>::empty() =~= before);
    while i < names.len()
        invariant
            i <= names.len(),
            names.len() == contents.len(),
            es == entry_pairs(names@, contents@),
            archive_contents(archive@) == Some(es),
            before == byte_seqs(old(images)@),
            byte_seqs(images@) == before + image_contents(es.take(i as int)),
        decreases names.len() - i,
    {
        assert(es.take(i + 1).drop_last() =~= es.take(i as int));
        assert(es.take(i + 1).last() == es[i as int]);
        if is_image_name(names[i].as_str()) {
            let ghost prev = images@;
            let c = contents[i].clone();
            images.push(c);
            assert(byte_seqs(images@) =~= byte_seqs(prev).push(c@));
            assert(before + image_contents(es.take(i + 1)) =~= (before + image_contents(
                es.take(i as int),
            )).push(es[i as int].1));
        }
        i = i + 1;
    }
    assert(es.take(names.len() as int) =~= es);
    Ok(())
}

proof fn lemma_take_submultiset(s: Seq<Seq<u8>>, k: int)
    requires
        0 <= k <= s.len(),
    ensures
        s.take(k).to_multiset().subset_of(s.to_multiset()),
    decreases s.len(),
{
    broadcast use vstd::seq_lib::to_multiset_build;

    if k < s.len() {
        let d = s.drop_last();
        assert(d.take(k) =~= s.take(k));
        lemma_take_submultiset(d, k);
        assert(s =~= d.push(s.last()));
    } else {
        assert(s.take(k) =~= s);
    }
}

/// A random sample of `max_count` images (all of them when there are fewer) drawn from
/// the image entries of the given archives; fails when an archive cannot be read.
pub fn preview_images(archives: Vec<Vec<u8>>, max_count: usize) -> (r: Result<Vec<Vec<u8>>, ArchiveError>)
    ensures
        r is Ok <==> all_images(byte_seqs(archives@)) is Some,
        r is Err ==> r == Err::<Vec<Vec<u8>>, ArchiveError>(ArchiveError::Zip),
        r matches Ok(v) ==> ({
            let all = all_images(byte_seqs(archives@))->Some_0;
            &&& v@.len() == if all.len() < max_count {
                all.len()
            } else {
                max_count as nat
            }
            &&& byte_seqs(v@).to_multiset().subset_of(all.to_multiset())
        }),
{
    let mut images: Vec<Vec<u8>> = Vec::new();
    let ghost arch = byte_seqs(archives@);
    let mut i: usize = 0;
    assert(arch.take(0) =~= Seq::<Seq<u8>>::empty());
    assert(byte_seqs(images@) =~= Seq::<Seq<u8>>::empty());
    while i < archives.len()
        invariant
            i <= archives.len(),
            arch == byte_seqs(archives@),
            all_images(arch.take(i as int)) == Some(byte_seqs(images@)),
        decreases archives.len() - i,
    {
        assert(arch.take(i + 1).drop_last() =~= arch.take(i as int));
        assert(arch.take(i + 1).last() == archives@[i as int]@);
        match collect_images(&archives[i], &mut images) {
            Ok(()) => {},
            Err(e) => {
                proof {
                    lemma_all_images_prefix(arch, i + 1);
                }
                return Err(e);
            },
        }
        i = i + 1;
    }
    assert(arch.take(archives.len() as int) =~= arch);
    let ghost all = byte_seqs(images@);
    shuffle(&mut images);
    let ghost shuffled = byte_seqs(images@);
    let k = if images.len() < max_count {
        images.len()
    } else {
        max_count
    };
    images.truncate(k);
    assert(byte_seqs(images@) =~= shuffled.take(k as int));
    proof {
        lemma_take_submultiset(shuffled, k as int);
        vstd::seq_lib::to_multiset_len(all);
        vstd::seq_lib::to_multiset_len(shuffled);
    }
    Ok(images)
}

proof fn lemma_all_images_prefix(arch: Seq<Seq<u8>>, k: int)
    requires
        0 <= k <= arch.len(),
        all_images(arch.take(k)) is None,
    ensures
        all_images(arch) is None,
    decreases arch.len(),
{
    if k < arch.len() {
        assert(arch.drop_last().take(k) =~= arch.take(k));
        lemma_all_images_prefix(arch.drop_last(), k);
    } else {
        assert(arch.take(k) =~= arch);
    }
}

pub open spec fn metadata_json(language: Seq<char>, saver: Seq<char>, group: Seq<char>, chapter: Seq<char>) -> Seq<char> {
    "{\"language\":"@ + json_quoted(language) + ",\"saver\":"@ + json_quoted(saver)
        + ",\"scanlation_group\":"@ + json_quoted(group) + ",\"chapter\":"@ + json_quoted(
        chapter,
    ) + "}"@
}

impl ArchiveMetadata {
    /// The record as the JSON document stored under the metadata entry.
    pub fn to_json(&self) -> (r: String)
        ensures
            r@ == metadata_json(self.language@, self.saver@, self.scanlation_group@, self.chapter@),
    {
        let mut s = String::from_str("{\"language\":");
        let q = quote_json(self.language.as_str());
        s.append(q.as_str());
        s.append(",\"saver\":");
        let q = quote_json(self.saver.as_str());
        s.append(q.as_str());
        s.append(",\"scanlation_group\":");
        let q = quote_json(self.scanlation_group.as_str());
        s.append(q.as_str());
        s.append(",\"chapter\":");
        let q = quote_json(self.chapter.as_str());
        s.append(q.as_str());
        s.append("}");
        s
    }
}

/// Whether a recorded data-saver flag differs from the one in use. A flag that is
/// neither `true` nor `false` is no difference.
pub fn saver_mismatch(recorded: &str, saver: bool) -> (r: bool)
    ensures
        r == ((recorded@ == "true"@ && !saver) || (recorded@ == "false"@ && saver)),
{
    proof {
        reveal_strlit("true");
        reveal_strlit("false");
        assert("true"@.len() != "false"@.len());
    }
    if same_text(recorded, "true") {
        !saver
    } else if same_text(recorded, "false") {
        saver
    } else {
        false
    }
}

/// Relies on String::from_utf8: the text the bytes encode, `None` when they are not
/// UTF-8.
#[verifier::external_body]
fn utf8_text(bytes: Vec<u8>) -> (r: Option<String>)
    ensures
        r is Some <==> valid_utf8(bytes@),
        r matches Some(t) ==> t@ == decode_utf8(bytes@),
{
    String::from_utf8(bytes).ok()
}

/// The content of the first entry of `es` called `name`.
pub open spec fn named_content(es: Seq<(Seq<char>, Seq<u8>)>, name: Seq<char>) -> Option<Seq<u8>>
    decreases es.len(),
{
    if es.len() == 0 {
        None
    } else {
        match named_content(es.drop_last(), name) {
            Some(c) => Some(c),
            None => if es.last().0 == name {
                Some(es.last().1)
            } else {
                None
            },
        }
    }
}

/// The four texts of a metadata record as serde_json reads them from `text`.
pub open spec fn record_fields(text: Seq<char>) -> Option<(Seq<char>, Seq<char>, Seq<char>, Seq<char>)> {
    match (
        json_text(text, seq!["language"@]),
        json_text(text, seq!["saver"@]),
        json_text(text, seq!["scanlation_group"@]),
        json_text(text, seq!["chapter"@]),
    ) {
        (Some(l), Some(s), Some(g), Some(c)) => Some((l, s, g, c)),
        _ => None,
    }
}

/// The text of the archive's metadata entry: `Zip` when the archive cannot be read,
/// `NotFound` when it has no metadata entry or that entry is not UTF-8.
pub open spec fn metadata_text_of(bytes: Seq<u8>) -> Result<Seq<char>, ArchiveError> {
    match archive_contents(bytes) {
        None => Err(ArchiveError::Zip),
        Some(es) => match named_content(es, METADATA_ENTRY@) {
            None => Err(ArchiveError::NotFound),
            Some(c) => if valid_utf8(c) {
                Ok(decode_utf8(c))
            } else {
                Err(ArchiveError::NotFound)
            },
        },
    }
}

/// What `extract_metadata` yields for the archive in `bytes`: the errors of
/// `metadata_text_of`; `NotFound` when the text does not hold the four fields as text;
/// the four fields otherwise.
pub open spec fn archive_metadata(bytes: Seq<u8>) -> Result<(Seq<char>, Seq<char>, Seq<char>, Seq<char>), ArchiveError> {
    match metadata_text_of(bytes) {
        Err(e) => Err(e),
        Ok(t) => match record_fields(t) {
            Some(f) => Ok(f),
            None => Err(ArchiveError::NotFound),
        },
    }
}

fn field(text: &str, key: &str) -> (r: Option<String>)
    ensures
        match r {
            Some(s) => json_text(text@, seq![key@]) == Some(s@),
            None => json_text(text@, seq![key@]) is None,
        },
{
    let keys: Vec<&str> = vec![key];
    assert(keys@.map_values(|k: &str| k@) =~= seq![key@]);
    text_at(text, &keys)
}

/// The text of the archive's metadata entry, as `metadata_text_of` describes.
fn metadata_text(archive: &Vec<u8>) -> (r: Result<String, ArchiveError>)
    ensures
        match r {
            Ok(t) => metadata_text_of(archive@) == Ok::<Seq<char>, ArchiveError>(t@),
            Err(e) => metadata_text_of(archive@) == Err::<Seq<char>, ArchiveError>(e),
        },
{
    let (names, mut contents) = match read_entries(archive) {
        Ok(e) => e,
        Err(e) => {
            return Err(e);
        },
    };
    let ghost es = entry_pairs(names@, contents@);
    let mut i: usize = 0;
    while i < names.len()
        invariant
            i <= names.len(),
            names.len() == contents.len(),
            es == entry_pairs(names@, contents@),
            archive_contents(archive@) == Some(es),
            named_content(es.take(i as int), METADATA_ENTRY@) is None,
        decreases names.len() - i,
    {
        assert(es.take(i + 1).drop_last() =~= es.take(i as int));
        assert(es.take(i + 1).last() == es[i as int]);
        if same_text(names[i].as_str(), METADATA_ENTRY) {
            assert(es[i as int] == (names@[i as int]@, contents@[i as int]@));
            let c = contents.remove(i);
            assert(named_content(es.take(i + 1), METADATA_ENTRY@) == Some(c@));
            proof {
                lemma_named_prefix(es, METADATA_ENTRY@, i + 1);
            }
            return match utf8_text(c) {
                Some(t) => Ok(t),
                None => Err(ArchiveError::NotFound),
            };
        }
        i = i + 1;
    }
    assert(es.take(names.len() as int) =~= es);
    Err(ArchiveError::NotFound)
}

/// Reads the metadata record of an archive, as `archive_metadata` describes.
pub fn extract_metadata(archive: Vec<u8>) -> (r: Result<ArchiveMetadata, ArchiveError>)
    ensures
        match r {
            Ok(m) => archive_metadata(archive@) == Ok::<(Seq<char>, Seq<char>, Seq<char>, Seq<char>), ArchiveError>(
                (m.language@, m.saver@, m.scanlation_group@, m.chapter@),
            ),
            Err(e) => archive_metadata(archive@) == Err::<(Seq<char>, Seq<char>, Seq<char>, Seq<char>), ArchiveError>(e),
        },
{
    let text = match metadata_text(&archive) {
        Ok(t) => t,
        Err(e) => {
            return Err(e);
        },
    };
    let language = field(text.as_str(), "language");
    let saver = field(text.as_str(), "saver");
    let scanlation_group = field(text.as_str(), "scanlation_group");
    let chapter = field(text.as_str(), "chapter");
    match (language, saver, scanlation_group, chapter) {
        (Some(language), Some(saver), Some(scanlation_group), Some(chapter)) => Ok(
            ArchiveMetadata { language, saver, scanlation_group, chapter },
        ),
        _ => Err(ArchiveError::NotFound),
    }
}

proof fn lemma_named_prefix(es: Seq<(Seq<char>, Seq<u8>)>, name: Seq<char>, k: int)
    requires
        0 <= k <= es.len(),
        named_content(es.take(k), name) is Some,
    ensures
        named_content(es, name) == named_content(es.take(k), name),
    decreases es.len(),
{
    if k < es.len() {
        assert(es.drop_last().take(k) =~= es.take(k));
        lemma_named_prefix(es.drop_last(), name, k);
    } else {
        assert(es.take(k) =~= es);
    }
}

pub open spec fn saver_differs(recorded: Seq<char>, saver: bool) -> bool {
    (recorded == "true"@ && !saver) || (recorded == "false"@ && saver)
}

/// The content of the first file among `items` called `name`.
pub open spec fn file_named(items: Seq<ArchiveItem>, name: Seq<char>) -> Option<Seq<u8>>
    decreases items.len(),
{
    if items.len() == 0 {
        None
    } else {
        match file_named(items.drop_last(), name) {
            Some(c) => Some(c),
            None => match items.last().content {
                Some(c) => if items.last().name@ == name {
                    Some(c@)
                } else {
                    None
                },
                None => None,
            },
        }
    }
}

proof fn lemma_named_stored(items: Seq<ArchiveItem>)
    ensures
        named_content(stored(items), METADATA_ENTRY@) == file_named(items, METADATA_ENTRY@),
    decreases items.len(),
{
    reveal_strlit("_metadata");
    if items.len() > 0 {
        let rest = stored(items.drop_last());
        lemma_named_stored(items.drop_last());
        let it = items.last();
        match it.content {
            Some(c) => {
                assert(rest.push((it.name@, c@)).drop_last() =~= rest);
            },
            None => {
                if it.name@.len() > 0 {
                    let d = dir_entry_name(it.name@);
                    assert(rest.push((d, Seq::<u8>::empty())).drop_last() =~= rest);
                    assert(d.last() == '/' || d.last() == '\\');
                    assert(METADATA_ENTRY@.last() == 'a');
                    assert(d != METADATA_ENTRY@);
                }
            },
        }
    }
}

/// The metadata read back from an archive that `pack` made of `items` is what
/// serde_json reads from the first file among them called `_metadata`: the four fields
/// when it is UTF-8 text holding them as text, `NotFound` otherwise.
pub proof fn lemma_packed_metadata(items: Seq<ArchiveItem>, bytes: Seq<u8>)
    requires
        archive_contents(bytes) == Some(stored(items)),
    ensures
        archive_metadata(bytes) == match file_named(items, METADATA_ENTRY@) {
            None => Err(ArchiveError::NotFound),
            Some(c) => if !valid_utf8(c) {
                Err(ArchiveError::NotFound)
            } else {
                match record_fields(decode_utf8(c)) {
                    Some(f) => Ok(f),
                    None => Err(ArchiveError::NotFound),
                }
            },
        },
{
    lemma_named_stored(items);
}

/// What `check_for_metadata_saver` yields for the archive in `bytes`: the errors of
/// `metadata_text_of`; `NotFound` when the metadata text is not a JSON object;
/// otherwise whether its `saver` text differs from `saver` (no difference when there is
/// no such text).
pub open spec fn saver_check(bytes: Seq<u8>, saver: bool) -> Result<bool, ArchiveError> {
    match metadata_text_of(bytes) {
        Err(e) => Err(e),
        Ok(t) => if json_shape(t, Seq::empty()) is Object {
            Ok(
                match json_text(t, seq!["saver"@]) {
                    Some(v) => saver_differs(v, saver),
                    None => false,
                },
            )
        } else {
            Err(ArchiveError::NotFound)
        },
    }
}

/// Whether the archive was made with a data-saver setting other than `saver`, as
/// `saver_check` describes.
pub fn check_for_metadata_saver(archive: Vec<u8>, saver: bool) -> (r: Result<bool, ArchiveError>)
    ensures
        match r {
            Ok(b) => saver_check(archive@, saver) == Ok::<bool, ArchiveError>(b),
            Err(e) => saver_check(archive@, saver) == Err::<bool, ArchiveError>(e),
        },
{
    let text = match metadata_text(&archive) {
        Ok(t) => t,
        Err(e) => {
            return Err(e);
        },
    };
    let top: Vec<String> = Vec::new();
    assert(texts(top@) =~= Seq::<Seq<char>>::empty());
    match json_at(text.as_str(), &top) {
        JsonNode::Object => {},
        _ => {
            return Err(ArchiveError::NotFound);
        },
    }
    match field(text.as_str(), "saver") {
        Some(v) => Ok(saver_mismatch(v.as_str(), saver)),
        None => Ok(false),
    }
}

/// The most archives sampled for previews.
pub const PREVIEW_ARCHIVES: usize = 10;

pub open spec fn is_cbz(path: Seq<char>) -> bool {
    path.len() >= 4 && path.skip(path.len() - 4) == ".cbz"@
}

/// The paths among `paths` that name `.cbz` archives, in order.
pub open spec fn cbz_paths(paths: Seq<Seq<char>>) -> Seq<Seq<char>>
    decreases paths.len(),
{
    if paths.len() == 0 {
        paths
    } else if is_cbz(paths.last()) {
        cbz_paths(paths.drop_last()).push(paths.last())
    } else {
        cbz_paths(paths.drop_last())
    }
}

/// Whether a path ends in `.cbz`.
pub fn ends_with_cbz(path: &str) -> (r: bool)
    ensures
        r == is_cbz(path@),
{
    let n = path.unicode_len();
    if n < 4 {
        return false;
    }
    let tail = path.substring_char(n - 4, n);
    assert(tail@ =~= path@.skip(n - 4));
    same_text(tail, ".cbz")
}

/// The archives a preview is drawn from: of the first ten paths, those of `.cbz` files.
pub fn preview_candidates(paths: &Vec<String>) -> (r: Vec<String>)
    ensures
        texts(r@) == cbz_paths(texts(paths@).take(
            if paths.len() < PREVIEW_ARCHIVES {
                paths.len() as int
            } else {
                PREVIEW_ARCHIVES as int
            },
        )),
{
    let limit = if paths.len() < PREVIEW_ARCHIVES {
        paths.len()
    } else {
        PREVIEW_ARCHIVES
    };
    let ghost ps = texts(paths@);
    let mut out: Vec<String> = Vec::new();
    let mut i: usize = 0;
    while i < limit
        invariant
            i <= limit,
            limit <= paths.len(),
            ps == texts(paths@),
            texts(out@) == cbz_paths(ps.take(i as int)),
        decreases limit - i,
    {
        assert(ps.take(i + 1).drop_last() =~= ps.take(i as int));
        assert(ps.take(i + 1).last() == paths@[i as int]@);
        if ends_with_cbz(paths[i].as_str()) {
            let p = paths[i].clone();
            assert(texts(out@.push(p)) =~= texts(out@).push(p@));
            out.push(p);
        }
        i = i + 1;
    }
    out
}

} // verus!
