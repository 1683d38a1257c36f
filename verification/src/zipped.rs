//! Zip archives of conversion and crop results, through the `zip` crate:
//! one file per successful result, named after it, in the order given.

use vstd::prelude::*;
use vstd::utf8::encode_utf8;
use std::io::Cursor;
use std::io::Write;
use zip::result::ZipError;
use zip::ZipWriter;

verus! {

#[verifier::external_type_specification]
#[verifier::external_body]
pub struct ExZipError(ZipError);

#[verifier::external_type_specification]
#[verifier::external_body]
pub struct ExIoError(std::io::Error);

/// A zip archive being written in memory. Verus cannot take the `zip`
/// crate's writer type itself (its parameter is bound by `Write + Seek`),
/// so the writer is held here, out of Verus's sight.
#[verifier::external_body]
pub struct ZipBuilder {
    inner: ZipWriter<Cursor<Vec<u8>>>,
}

/// The files written into the builder so far, in order: name and contents.
pub uninterp spec fn zip_entries(z: ZipBuilder) -> Seq<(Seq<char>, Seq<u8>)>;

/// The writer is neither closed nor left broken by a failed call.
pub uninterp spec fn zip_usable(z: ZipBuilder) -> bool;

/// A file has been started and is open for its contents.
pub uninterp spec fn zip_writing(z: ZipBuilder) -> bool;

/// Bytes of names and contents together that keep every size and offset of
/// the archive far below the 4 GiB at which the `zip` crate needs its
/// large-file option (which these calls leave off).
pub open spec fn zip_size_limit() -> nat {
    0x4000_0000
}

/// Longest file name, in bytes, that fits the 64 KiB local header with room to spare.
pub open spec fn zip_name_limit() -> nat {
    60000
}

/// Most files an archive is given here (the zip format's plain 16-bit count).
pub open spec fn zip_count_limit() -> nat {
    65535
}

/// Bytes of the files' names and contents.
pub open spec fn zip_total(entries: Seq<(Seq<char>, Seq<u8>)>) -> nat
    decreases entries.len(),
{
    if entries.len() == 0 {
        0
    } else {
        zip_total(entries.drop_last()) + encode_utf8(entries.last().0).len() + entries.last().1.len()
    }
}

/// `bytes` form a zip archive whose files, in order, have exactly these names
/// and contents. (The bytes themselves are not one fixed function of the
/// files: the `zip` crate records whether it ran on Windows or Unix.)
pub uninterp spec fn zip_archive_of(bytes: Seq<u8>, entries: Seq<(Seq<char>, Seq<u8>)>) -> bool;

/// The names of the files.
pub open spec fn entry_names(entries: Seq<(Seq<char>, Seq<u8>)>) -> Seq<Seq<char>> {
    entries.map_values(|e: (Seq<char>, Seq<u8>)| e.0)
}

/// `ZipWriter::new` over an empty in-memory buffer: an archive with no files.
#[verifier::external_body]
pub(crate) fn new_zip() -> (z: ZipBuilder)
    ensures
        zip_entries(z) == Seq::<(Seq<char>, Seq<u8>)>::empty(),
        zip_usable(z),
{
    ZipBuilder { inner: ZipWriter::new(Cursor::new(Vec::new())) }
}

/// `ZipWriter::start_file` with Deflate compression: on success a new, empty
/// file named `name` follows the others and is open for its contents. The
/// crate refuses a name already in the archive. On an in-memory buffer it
/// fails otherwise only on a local header of 64 KiB or more, or on sizes that
/// need the large-file option, so a usable writer succeeds for a new name
/// within the limits above. Nothing is claimed of the builder after a failure.
#[verifier::external_body]
pub(crate) fn zip_start_file(z: &mut ZipBuilder, name: &str) -> (r: Result<(), ZipError>)
    ensures
        entry_names(zip_entries(*old(z))).contains(name@) ==> r is Err,
        zip_usable(*old(z)) && !entry_names(zip_entries(*old(z))).contains(name@) && encode_utf8(
            name@,
        ).len() <= zip_name_limit() && zip_entries(*old(z)).len() < zip_count_limit() && zip_total(
            zip_entries(*old(z)),
        ) + encode_utf8(name@).len() <= zip_size_limit() ==> r is Ok,
        r is Ok ==> zip_entries(*final(z)) == zip_entries(*old(z)).push((name@, Seq::<u8>::empty())),
        r is Ok ==> zip_usable(*final(z)) && zip_writing(*final(z)),
{
    let opts = zip::write::SimpleFileOptions::default().compression_method(zip::CompressionMethod::Deflated);
    z.inner.start_file(name, opts)
}

/// `Write::write_all` on the writer: on success `data` is appended to the file
/// last started. Writing to memory fails only with no file open or when a
/// file's data reaches 4 GiB without the large-file option, so an open file
/// within the size limit takes the data. Nothing is claimed of the builder
/// after a failure.
#[verifier::external_body]
pub(crate) fn zip_write(z: &mut ZipBuilder, data: &[u8]) -> (r: Result<(), std::io::Error>)
    requires
        zip_entries(*old(z)).len() > 0,
    ensures
        zip_usable(*old(z)) && zip_writing(*old(z)) && zip_total(zip_entries(*old(z))) + data@.len()
            <= zip_size_limit() ==> r is Ok,
        r is Ok ==> zip_entries(*final(z)) == zip_entries(*old(z)).update(
            zip_entries(*old(z)).len() - 1,
            (zip_entries(*old(z)).last().0, zip_entries(*old(z)).last().1 + data@),
        ),
        r is Ok ==> zip_usable(*final(z)) && zip_writing(*final(z)),
{
    z.inner.write_all(data)
}

/// `ZipWriter::finish`: on success the in-memory buffer, an archive of the
/// files written. A usable writer within the limits above finishes: the last
/// file and the central directory are written to memory.
#[verifier::external_body]
pub(crate) fn zip_finish(z: ZipBuilder) -> (r: Result<Vec<u8>, ZipError>)
    ensures
        zip_usable(z) && zip_entries(z).len() <= zip_count_limit() && zip_total(zip_entries(z))
            <= zip_size_limit() ==> r is Ok,
        r matches Ok(b) ==> zip_archive_of(b@, zip_entries(z)),
{
    Ok(z.inner.finish()?.into_inner())
}

/// The `Display` text of a `zip` error; nothing is claimed about it.
#[verifier::external_body]
pub(crate) fn zip_error_text(e: &ZipError) -> String {
    e.to_string()
}

/// The `Display` text of an I/O error; nothing is claimed about it.
#[verifier::external_body]
pub(crate) fn io_error_text(e: &std::io::Error) -> String {
    e.to_string()
}

/// The files for a batch of conversions: `<name>.svg` holding the SVG of each
/// one that succeeded, in order; failures are left out.
pub open spec fn svg_entries(results: Seq<(String, Result<String, String>)>) -> Seq<(Seq<char>, Seq<u8>)>
    decreases results.len(),
{
    if results.len() == 0 {
        Seq::empty()
    } else {
        let rest = svg_entries(results.drop_last());
        match results.last().1 {
            Ok(svg) => rest.push((results.last().0@ + ".svg"@, encode_utf8(svg@))),
            Err(_) => rest,
        }
    }
}

/// The files for a batch of crops: `<name>.png` holding the PNG of each one
/// that succeeded, in order; failures are left out.
pub open spec fn png_entries(results: Seq<(String, Result<Vec<u8>, String>)>) -> Seq<(Seq<char>, Seq<u8>)>
    decreases results.len(),
{
    if results.len() == 0 {
        Seq::empty()
    } else {
        let rest = png_entries(results.drop_last());
        match results.last().1 {
            Ok(png) => rest.push((results.last().0@ + ".png"@, png@)),
            Err(_) => rest,
        }
    }
}

/// Files the `zip` crate takes without fail: distinct names within the name
/// limit, no more files than the count limit, and names and contents within
/// the size limit.
pub open spec fn zip_fits(entries: Seq<(Seq<char>, Seq<u8>)>) -> bool {
    &&& entry_names(entries).no_duplicates()
    &&& forall|i: int| 0 <= i < entries.len() ==> encode_utf8(#[trigger] entries[i].0).len() <= zip_name_limit()
    &&& entries.len() <= zip_count_limit()
    &&& zip_total(entries) <= zip_size_limit()
}

proof fn lemma_total_prefix(s: Seq<(Seq<char>, Seq<u8>)>, m: int)
    requires
        0 <= m <= s.len(),
    ensures
        zip_total(s.take(m)) <= zip_total(s),
    decreases s.len(),
{
    if m == s.len() {
        assert(s.take(m) =~= s);
    } else {
        assert(s.drop_last().take(m) =~= s.take(m));
        lemma_total_prefix(s.drop_last(), m);
    }
}

/// The next file of a batch that fits meets every condition for being added.
proof fn lemma_fits_next(full: Seq<(Seq<char>, Seq<u8>)>, p: Seq<(Seq<char>, Seq<u8>)>, e: (Seq<char>, Seq<u8>))
    requires
        zip_fits(full),
        p.len() < full.len(),
        full.take(p.len() + 1 as int) == p.push(e),
    ensures
        !entry_names(p).contains(e.0),
        encode_utf8(e.0).len() <= zip_name_limit(),
        p.len() < zip_count_limit(),
        zip_total(p) + encode_utf8(e.0).len() + e.1.len() <= zip_size_limit(),
{
    let m = p.len() as int;
    assert(full[m] == full.take(m + 1)[m]);
    assert(full[m] == e);
    if entry_names(p).contains(e.0) {
        let k = choose|k: int| 0 <= k < entry_names(p).len() && entry_names(p)[k] == e.0;
        assert(p[k] == full.take(m + 1)[k]);
        assert(entry_names(full)[k] == entry_names(full)[m]);
    }
    assert(encode_utf8(full[m].0).len() <= zip_name_limit());
    lemma_total_prefix(full, m + 1);
    assert(p.push(e).drop_last() =~= p);
}

proof fn lemma_svg_prefix(results: Seq<(String, Result<String, String>)>, i: int)
    requires
        0 <= i <= results.len(),
    ensures
        svg_entries(results.take(i)).len() <= svg_entries(results).len(),
        svg_entries(results).take(svg_entries(results.take(i)).len() as int) == svg_entries(results.take(i)),
    decreases results.len() - i,
{
    if i == results.len() {
        assert(results.take(i) =~= results);
        assert(svg_entries(results).take(svg_entries(results).len() as int) =~= svg_entries(results));
    } else {
        lemma_svg_prefix(results, i + 1);
        assert(results.take(i + 1).drop_last() =~= results.take(i));
        let a = svg_entries(results.take(i));
        let b = svg_entries(results.take(i + 1));
        let f = svg_entries(results);
        assert(f.take(a.len() as int) =~= b.take(a.len() as int));
        assert(b.take(a.len() as int) =~= a);
    }
}

proof fn lemma_png_prefix(results: Seq<(String, Result<Vec<u8>, String>)>, i: int)
    requires
        0 <= i <= results.len(),
    ensures
        png_entries(results.take(i)).len() <= png_entries(results).len(),
        png_entries(results).take(png_entries(results.take(i)).len() as int) == png_entries(results.take(i)),
    decreases results.len() - i,
{
    if i == results.len() {
        assert(results.take(i) =~= results);
        assert(png_entries(results).take(png_entries(results).len() as int) =~= png_entries(results));
    } else {
        lemma_png_prefix(results, i + 1);
        assert(results.take(i + 1).drop_last() =~= results.take(i));
        let a = png_entries(results.take(i));
        let b = png_entries(results.take(i + 1));
        let f = png_entries(results);
        assert(f.take(a.len() as int) =~= b.take(a.len() as int));
        assert(b.take(a.len() as int) =~= a);
    }
}

/// Adds one file with the given name and contents.
fn add_file(z: &mut ZipBuilder, name: &str, data: &[u8]) -> (r: Result<(), String>)
    ensures
        entry_names(zip_entries(*old(z))).contains(name@) ==> r is Err,
        zip_usable(*old(z)) && !entry_names(zip_entries(*old(z))).contains(name@) && encode_utf8(
            name@,
        ).len() <= zip_name_limit() && zip_entries(*old(z)).len() < zip_count_limit() && zip_total(
            zip_entries(*old(z)),
        ) + encode_utf8(name@).len() + data@.len() <= zip_size_limit() ==> r is Ok,
        r is Ok ==> zip_entries(*final(z)) == zip_entries(*old(z)).push((name@, data@)),
        r is Ok ==> zip_usable(*final(z)),
{
    match zip_start_file(z, name) {
        Ok(()) => {},
        Err(e) => return Err(zip_error_text(&e)),
    }
    let ghost mid = zip_entries(*z);
    assert(mid.drop_last() =~= zip_entries(*old(z)));
    assert(zip_total(mid) == zip_total(zip_entries(*old(z))) + encode_utf8(name@).len());
    match zip_write(z, data) {
        Ok(()) => {
            assert(Seq::<u8>::empty() + data@ =~= data@);
            assert(zip_entries(*z) =~= zip_entries(*old(z)).push((name@, data@)));
            Ok(())
        },
        Err(e) => Err(io_error_text(&e)),
    }
}

proof fn lemma_names_push(entries: Seq<(Seq<char>, Seq<u8>)>, e: (Seq<char>, Seq<u8>))
    ensures
        entry_names(entries.push(e)) == entry_names(entries).push(e.0),
{
    assert(entry_names(entries.push(e)) =~= entry_names(entries).push(e.0));
}

/// A zip archive of the SVGs of a batch of conversions, as `<name>.svg`:
/// built whenever those files fit (distinct names, within the limits), and
/// refused when two successful conversions share a name.
pub fn build_zip(results: &Vec<(String, Result<String, String>)>) -> (r: Result<Vec<u8>, String>)
    ensures
        zip_fits(svg_entries(results@)) ==> r is Ok,
        r matches Ok(b) ==> zip_archive_of(b@, svg_entries(results@)),
        r is Ok ==> entry_names(svg_entries(results@)).no_duplicates(),
{
    let ghost full = svg_entries(results@);
    let mut z = new_zip();
    for i in 0..results.len()
        invariant
            full == svg_entries(results@),
            zip_entries(z) == svg_entries(results@.take(i as int)),
            entry_names(zip_entries(z)).no_duplicates(),
            zip_usable(z),
    {
        let ghost before = zip_entries(z);
        proof {
            lemma_svg_prefix(results@, i + 1);
        }
        assert(results@.take(i + 1).drop_last() =~= results@.take(i as int));
        assert(results@.take(i + 1).last() == results@[i as int]);
        let (name, res) = &results[i];
        if let Ok(svg) = res {
            let mut file_name = name.clone();
            file_name.append(".svg");
            assert(file_name@ == name@ + ".svg"@);
            proof {
                if zip_fits(full) {
                    lemma_fits_next(full, before, (file_name@, encode_utf8(svg@)));
                }
            }
            match add_file(&mut z, file_name.as_str(), svg.as_str().as_bytes()) {
                Ok(()) => {
                    proof {
                        lemma_names_push(before, (file_name@, encode_utf8(svg@)));
                    }
                },
                Err(e) => return Err(e),
            }
        }
    }
    assert(results@.take(results.len() as int) =~= results@);
    match zip_finish(z) {
        Ok(b) => Ok(b),
        Err(e) => Err(zip_error_text(&e)),
    }
}

/// A zip archive of the PNGs of a batch of crops, as `<name>.png`: built
/// whenever those files fit (distinct names, within the limits), and refused
/// when two successful crops share a name.
pub fn build_crop_zip(results: &Vec<(String, Result<Vec<u8>, String>)>) -> (r: Result<Vec<u8>, String>)
    ensures
        zip_fits(png_entries(results@)) ==> r is Ok,
        r matches Ok(b) ==> zip_archive_of(b@, png_entries(results@)),
        r is Ok ==> entry_names(png_entries(results@)).no_duplicates(),
{
    let ghost full = png_entries(results@);
    let mut z = new_zip();
    for i in 0..results.len()
        invariant
            full == png_entries(results@),
            zip_entries(z) == png_entries(results@.take(i as int)),
            entry_names(zip_entries(z)).no_duplicates(),
            zip_usable(z),
    {
        let ghost before = zip_entries(z);
        proof {
            lemma_png_prefix(results@, i + 1);
        }
        assert(results@.take(i + 1).drop_last() =~= results@.take(i as int));
        assert(results@.take(i + 1).last() == results@[i as int]);
        let (name, res) = &results[i];
        if let Ok(png) = res {
            let mut file_name = name.clone();
            file_name.append(".png");
            assert(file_name@ == name@ + ".png"@);
            proof {
                if zip_fits(full) {
                    lemma_fits_next(full, before, (file_name@, png@));
                }
            }
            match add_file(&mut z, file_name.as_str(), png.as_slice()) {
                Ok(()) => {
                    proof {
                        lemma_names_push(before, (file_name@, png@));
                    }
                },
                Err(e) => return Err(e),
            }
        }
    }
    assert(results@.take(results.len() as int) =~= results@);
    match zip_finish(z) {
        Ok(b) => Ok(b),
        Err(e) => Err(zip_error_text(&e)),
    }
}

} // verus!
