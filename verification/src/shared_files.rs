//! Shared file list encoding / decoding.
//!
//! The wire format is zlib-compressed. This module handles the
//! inner (uncompressed) layout used by [`SharedFileListResponse`] and
//! [`crate::peer::FileSearchResponse`].
use vstd::prelude::*;
use crate::codec::{read_string, read_u32_le, read_u64_le, read_u8, write_string, write_u32_le, write_u64_le, write_u8, ByteReader};
use crate::error::{Error, Result};
use crate::types::{FileAttribute, FileAttributeType, SharedFile};
use crate::wire::{
    decode_matches, lemma_list_err, list_bytes, p_list, p_list_lenient, p_string, p_u32, p_u64, p_u8,
    step_matches, step_matches_list, string_field, u32_le, u64_le, views, Decoded, Step, fits, lemma_sub_at,
    lemma_u8_at, lemma_u32_at, lemma_u64_at, lemma_string_at, lemma_list_at, lemma_list_lenient_at, lemma_piece_at,
};
use crate::zlib::{deflate, inflate, zlib_deflate, zlib_inflate};

verus! {

// ── File entries ──────────────────────────────────────────────────────────────

/// A file entry, by value: code, file name, size, extension, attributes.
pub type FileEntryView = (u8, Seq<char>, u64, Seq<char>, Seq<FileAttribute>);

/// `n` attribute pairs (type code, value); pairs whose type code is unknown
/// are skipped.
pub open spec fn p_attrs(d: Seq<u8>, p: int, n: nat) -> Step<Seq<FileAttribute>>
    decreases n,
{
    if n == 0 {
        Ok((Seq::empty(), p))
    } else {
        match p_attrs(d, p, (n - 1) as nat) {
            Ok((xs, q)) => match p_u32(d, q) {
                Ok((c, q1)) => match p_u32(d, q1) {
                    Ok((v, q2)) => Ok((
                        match FileAttributeType::spec_from_wire(c) {
                            Some(t) => xs.push(FileAttribute { code: t, value: v }),
                            None => xs,
                        },
                        q2,
                    )),
                    Err(e) => Err(e),
                },
                Err(e) => Err(e),
            },
            Err(e) => Err(e),
        }
    }
}

/// Once an attribute read has failed, reading more attributes fails the same way.
pub proof fn lemma_attrs_err(d: Seq<u8>, p: int, i: nat, j: nat)
    requires
        i <= j,
        p_attrs(d, p, i) is Err,
    ensures
        p_attrs(d, p, j) == p_attrs(d, p, i),
    decreases j,
{
    if i < j {
        lemma_attrs_err(d, p, i, (j - 1) as nat);
    }
}

/// A file entry: code byte, file name, size, extension, attribute count, attributes.
pub open spec fn p_file_entry(d: Seq<u8>, p: int) -> Step<FileEntryView> {
    match p_u8(d, p) {
        Ok((code, p1)) => match p_string(d, p1) {
            Ok((filename, p2)) => match p_u64(d, p2) {
                Ok((size, p3)) => match p_string(d, p3) {
                    Ok((extension, p4)) => match p_u32(d, p4) {
                        Ok((n, p5)) => match p_attrs(d, p5, n as nat) {
                            Ok((attributes, p6)) => Ok(((code, filename, size, extension, attributes), p6)),
                            Err(e) => Err(e),
                        },
                        Err(e) => Err(e),
                    },
                    Err(e) => Err(e),
                },
                Err(e) => Err(e),
            },
            Err(e) => Err(e),
        },
        Err(e) => Err(e),
    }
}

/// The file entry item reader.
pub open spec fn file_entry_item() -> spec_fn(Seq<u8>, int) -> Step<FileEntryView> {
    |d: Seq<u8>, p: int| p_file_entry(d, p)
}

/// The bytes of an attribute: type code, value.
pub open spec fn attr_bytes(a: FileAttribute) -> Seq<u8> {
    u32_le(a.code.wire()) + u32_le(a.value)
}

/// The bytes of a file entry.
pub open spec fn file_entry_bytes(f: FileEntryView) -> Seq<u8> {
    seq![f.0] + string_field(f.1) + u64_le(f.2) + string_field(f.3) + u32_le(f.4.len() as u32)
        + list_bytes(f.4, |a: FileAttribute| attr_bytes(a))
}

/// Reads the attribute pairs of a file entry.
fn read_attributes(cur: &mut ByteReader, n: u32) -> (res: Result<Vec<FileAttribute>>)
    ensures
        final(cur).bytes() == old(cur).bytes(),
        step_matches_list(res, final(cur).pos(), p_attrs(old(cur).bytes(), old(cur).pos(), n as nat)),
{
    let ghost d = cur.bytes();
    let ghost p0 = cur.pos();
    let mut attributes: Vec<FileAttribute> = Vec::new();
    let mut i: u32 = 0;
    assert(views(attributes@) =~= Seq::empty());
    while i < n
        invariant
            d == old(cur).bytes(),
            p0 == old(cur).pos(),
            cur.bytes() == d,
            i <= n,
            p_attrs(d, p0, i as nat) == Step::Ok((views(attributes@), cur.pos())),
        decreases n - i,
    {
        let ghost before = attributes@;
        let attr_code = match read_u32_le(cur) {
            Ok(c) => c,
            Err(e) => {
                proof {
                    lemma_attrs_err(d, p0, (i + 1) as nat, n as nat);
                }
                return Err(e);
            },
        };
        let attr_value = match read_u32_le(cur) {
            Ok(v) => v,
            Err(e) => {
                proof {
                    lemma_attrs_err(d, p0, (i + 1) as nat, n as nat);
                }
                return Err(e);
            },
        };
        if let Ok(t) = FileAttributeType::try_from(attr_code) {
            attributes.push(FileAttribute { code: t, value: attr_value });
            assert(views(attributes@) =~= views(before).push(FileAttribute { code: t, value: attr_value }));
        }
        i = i + 1;
    }
    Ok(attributes)
}

pub fn decode_shared_file(cur: &mut ByteReader) -> (res: Result<SharedFile>)
    ensures
        final(cur).bytes() == old(cur).bytes(),
        step_matches(res, final(cur).pos(), p_file_entry(old(cur).bytes(), old(cur).pos())),
{
    let code = read_u8(cur)?;
    let filename = read_string(cur)?;
    let size = read_u64_le(cur)?;
    let extension = read_string(cur)?;
    let n_attr = read_u32_le(cur)?;
    let attributes = read_attributes(cur, n_attr)?;
    proof {
        assert(attributes@ =~= views(attributes@));
    }
    Ok(SharedFile { code, filename, size, extension, attributes })
}

/// Appends the attribute pairs.
pub(crate) fn write_attributes(out: &mut Vec<u8>, attributes: &Vec<FileAttribute>)
    ensures
        final(out)@ == old(out)@ + list_bytes(attributes@, |a: FileAttribute| attr_bytes(a)),
{
    let ghost enc = |a: FileAttribute| attr_bytes(a);
    let mut i: usize = 0;
    assert(attributes@.take(0) =~= Seq::empty());
    while i < attributes.len()
        invariant
            i <= attributes@.len(),
            enc == (|a: FileAttribute| attr_bytes(a)),
            out@ == old(out)@ + list_bytes(attributes@.take(i as int), enc),
        decreases attributes@.len() - i,
    {
        let a = attributes[i];
        write_u32_le(out, a.code.to_wire());
        write_u32_le(out, a.value);
        assert(attributes@.take(i + 1).drop_last() =~= attributes@.take(i as int));
        i = i + 1;
    }
    assert(attributes@.take(attributes@.len() as int) =~= attributes@);
}

pub fn encode_shared_file(f: &SharedFile, out: &mut Vec<u8>)
    ensures
        final(out)@ == old(out)@ + file_entry_bytes(f@),
{
    write_u8(out, f.code);
    write_string(out, f.filename.as_str());
    write_u64_le(out, f.size);
    write_string(out, f.extension.as_str());
    write_u32_le(out, f.attributes.len() as u32);
    write_attributes(out, &f.attributes);
}

/// A file entry whose strings and attribute count fit their `u32` prefixes.
pub open spec fn file_entry_ok(v: FileEntryView) -> bool {
    fits(v.1) && fits(v.3) && v.4.len() <= u32::MAX
}

/// Reading attribute pairs where known attributes were written gives them back.
pub proof fn lemma_attrs_at(d: Seq<u8>, p: int, attrs: Seq<FileAttribute>)
    requires
        0 <= p,
        p + list_bytes(attrs, |a: FileAttribute| attr_bytes(a)).len() <= d.len(),
        d.subrange(p, p + list_bytes(attrs, |a: FileAttribute| attr_bytes(a)).len()) == list_bytes(
            attrs,
            |a: FileAttribute| attr_bytes(a),
        ),
    ensures
        p_attrs(d, p, attrs.len()) == Step::Ok((attrs, p + list_bytes(attrs, |a: FileAttribute| attr_bytes(a)).len())),
    decreases attrs.len(),
{
    let enc = |a: FileAttribute| attr_bytes(a);
    if attrs.len() > 0 {
        let ys = attrs.drop_last();
        let a = attrs.last();
        let ly = list_bytes(ys, enc);
        let q = p + ly.len();
        let whole = list_bytes(attrs, enc);
        assert(whole == ly + attr_bytes(a));
        assert(whole.subrange(0, ly.len() as int) =~= ly);
        lemma_sub_at(d, p, whole, 0, ly);
        lemma_attrs_at(d, p, ys);
        assert(whole.subrange(ly.len() as int, ly.len() + 4int) =~= u32_le(a.code.wire()));
        lemma_sub_at(d, p, whole, ly.len() as int, u32_le(a.code.wire()));
        lemma_u32_at(d, q, a.code.wire());
        assert(whole.subrange(ly.len() + 4int, ly.len() + 8int) =~= u32_le(a.value));
        lemma_sub_at(d, p, whole, ly.len() + 4int, u32_le(a.value));
        lemma_u32_at(d, q + 4, a.value);
        FileAttributeType::lemma_wire_roundtrip(a.code);
        assert(ys.push(FileAttribute { code: a.code, value: a.value }) =~= attrs);
    } else {
        assert(attrs =~= Seq::<FileAttribute>::empty());
    }
}

/// Reading a file entry where one was written gives it back.
pub proof fn lemma_file_entry_at(d: Seq<u8>, p: int, v: FileEntryView)
    requires
        0 <= p,
        file_entry_ok(v),
        p + file_entry_bytes(v).len() <= d.len(),
        d.subrange(p, p + file_entry_bytes(v).len()) == file_entry_bytes(v),
    ensures
        p_file_entry(d, p) == Step::Ok((v, p + file_entry_bytes(v).len())),
{
    let f = file_entry_bytes(v);
    let la = list_bytes(v.4, |a: FileAttribute| attr_bytes(a));
    let o1 = 1int;
    let o2 = o1 + string_field(v.1).len();
    let o3 = o2 + 8;
    let o4 = o3 + string_field(v.3).len();
    let o5 = o4 + 4;
    assert(f.subrange(0, o1) =~= seq![v.0]);
    lemma_sub_at(d, p, f, 0, seq![v.0]);
    lemma_u8_at(d, p, v.0);
    assert(f.subrange(o1, o2) =~= string_field(v.1));
    lemma_sub_at(d, p, f, o1, string_field(v.1));
    lemma_string_at(d, p + o1, v.1);
    assert(f.subrange(o2, o3) =~= u64_le(v.2));
    lemma_sub_at(d, p, f, o2, u64_le(v.2));
    lemma_u64_at(d, p + o2, v.2);
    assert(f.subrange(o3, o4) =~= string_field(v.3));
    lemma_sub_at(d, p, f, o3, string_field(v.3));
    lemma_string_at(d, p + o3, v.3);
    assert(f.subrange(o4, o5) =~= u32_le(v.4.len() as u32));
    lemma_sub_at(d, p, f, o4, u32_le(v.4.len() as u32));
    lemma_u32_at(d, p + o4, v.4.len() as u32);
    assert(f.subrange(o5, o5 + la.len()) =~= la);
    lemma_sub_at(d, p, f, o5, la);
    lemma_attrs_at(d, p + o5, v.4);
}

// ── Directory entry ───────────────────────────────────────────────────────────

#[derive(Debug, Clone)]
pub struct SharedDirectory {
    pub name: String,
    pub files: Vec<SharedFile>,
}

/// A directory, by value: name, file entries.
pub type DirectoryView = (Seq<char>, Seq<FileEntryView>);

impl View for SharedDirectory {
    type V = DirectoryView;

    open spec fn view(&self) -> DirectoryView {
        (self.name@, views(self.files@))
    }
}

/// A directory: name, file count, file entries.
pub open spec fn p_directory(d: Seq<u8>, p: int) -> Step<DirectoryView> {
    match p_string(d, p) {
        Ok((name, p1)) => match p_u32(d, p1) {
            Ok((n, p2)) => match p_list(d, p2, n as nat, file_entry_item()) {
                Ok((files, p3)) => Ok(((name, files), p3)),
                Err(e) => Err(e),
            },
            Err(e) => Err(e),
        },
        Err(e) => Err(e),
    }
}

/// The directory item reader.
pub open spec fn directory_item() -> spec_fn(Seq<u8>, int) -> Step<DirectoryView> {
    |d: Seq<u8>, p: int| p_directory(d, p)
}

/// The bytes of a list of file entries, one after another.
pub open spec fn entries_bytes(xs: Seq<FileEntryView>) -> Seq<u8> {
    list_bytes(xs, |f: FileEntryView| file_entry_bytes(f))
}

/// The bytes of a directory.
pub open spec fn directory_bytes(v: DirectoryView) -> Seq<u8> {
    string_field(v.0) + u32_le(v.1.len() as u32) + entries_bytes(v.1)
}

/// The bytes of a list of directories, one after another.
pub open spec fn dirs_bytes(ds: Seq<DirectoryView>) -> Seq<u8> {
    list_bytes(ds, |v: DirectoryView| directory_bytes(v))
}

/// A directory whose name, file count and files fit their `u32` prefixes.
pub open spec fn directory_ok(v: DirectoryView) -> bool {
    fits(v.0) && v.1.len() <= u32::MAX && forall|k: int| 0 <= k < v.1.len() ==> #[trigger] file_entry_ok(v.1[k])
}

/// A list of directories that fits its `u32` count prefix, each fitting too.
pub open spec fn dirs_ok(ds: Seq<DirectoryView>) -> bool {
    ds.len() <= u32::MAX && forall|k: int| 0 <= k < ds.len() ==> #[trigger] directory_ok(ds[k])
}

/// Reading a directory where one was written gives it back.
pub proof fn lemma_directory_at(d: Seq<u8>, p: int, v: DirectoryView)
    requires
        0 <= p,
        directory_ok(v),
        p + directory_bytes(v).len() <= d.len(),
        d.subrange(p, p + directory_bytes(v).len()) == directory_bytes(v),
    ensures
        p_directory(d, p) == Step::Ok((v, p + directory_bytes(v).len())),
{
    let f = directory_bytes(v);
    let enc = |x: FileEntryView| file_entry_bytes(x);
    let lf = list_bytes(v.1, enc);
    let o1 = string_field(v.0).len() as int;
    let o2 = o1 + 4;
    assert(f.subrange(0, o1) =~= string_field(v.0));
    lemma_sub_at(d, p, f, 0, string_field(v.0));
    lemma_string_at(d, p, v.0);
    assert(f.subrange(o1, o2) =~= u32_le(v.1.len() as u32));
    lemma_sub_at(d, p, f, o1, u32_le(v.1.len() as u32));
    lemma_u32_at(d, p + o1, v.1.len() as u32);
    assert(f.subrange(o2, o2 + lf.len()) =~= lf);
    lemma_sub_at(d, p, f, o2, lf);
    let good = |x: FileEntryView| file_entry_ok(x);
    assert forall|k: int| 0 <= k < v.1.len() implies #[trigger] good(v.1[k]) by {
        assert(file_entry_ok(v.1[k]));
    }
    assert forall|x: FileEntryView, q: int|
        #![trigger good(x), file_entry_item()(d, q)]
        good(x) && 0 <= q && q + enc(x).len() <= d.len() && d.subrange(q, q + enc(x).len()) == enc(x) implies file_entry_item()(
            d,
            q,
        ) == Step::Ok((x, q + enc(x).len())) by {
        lemma_file_entry_at(d, q, x);
    }
    lemma_list_at(d, p + o2, v.1, enc, file_entry_item(), good);
}

/// A list of file entries that fits its `u32` count prefix, each fitting too.
pub open spec fn entries_ok(xs: Seq<FileEntryView>) -> bool {
    xs.len() <= u32::MAX && forall|k: int| 0 <= k < xs.len() ==> #[trigger] file_entry_ok(xs[k])
}

/// Reading file entries where they were written one after another gives them
/// back; a lenient read gives them all too.
pub proof fn lemma_file_entries_at(d: Seq<u8>, p: int, xs: Seq<FileEntryView>)
    requires
        0 <= p,
        entries_ok(xs),
        p + entries_bytes(xs).len() <= d.len(),
        d.subrange(p, p + entries_bytes(xs).len()) == entries_bytes(xs),
    ensures
        p_list(d, p, xs.len(), file_entry_item()) == Step::Ok(
            (xs, p + entries_bytes(xs).len()),
        ),
        p_list_lenient(d, p, xs.len(), file_entry_item()) == (
            xs,
            p + entries_bytes(xs).len(),
        ),
{
    let enc = |v: FileEntryView| file_entry_bytes(v);
    let good = |v: FileEntryView| file_entry_ok(v);
    assert forall|k: int| 0 <= k < xs.len() implies #[trigger] good(xs[k]) by {
        assert(file_entry_ok(xs[k]));
    }
    assert forall|x: FileEntryView, q: int|
        #![trigger good(x), file_entry_item()(d, q)]
        good(x) && 0 <= q && q + enc(x).len() <= d.len() && d.subrange(q, q + enc(x).len()) == enc(x) implies file_entry_item()(
            d,
            q,
        ) == Step::Ok((x, q + enc(x).len())) by {
        lemma_file_entry_at(d, q, x);
    }
    lemma_list_at(d, p, xs, enc, file_entry_item(), good);
    lemma_list_lenient_at(d, p, xs, enc, file_entry_item(), good);
}

/// Reading directories where they were written one after another gives them
/// back; a lenient read gives them all too.
pub proof fn lemma_directories_at(d: Seq<u8>, p: int, ds: Seq<DirectoryView>)
    requires
        0 <= p,
        dirs_ok(ds),
        p + dirs_bytes(ds).len() <= d.len(),
        d.subrange(p, p + dirs_bytes(ds).len()) == dirs_bytes(ds),
    ensures
        p_list(d, p, ds.len(), directory_item()) == Step::Ok(
            (ds, p + dirs_bytes(ds).len()),
        ),
        p_list_lenient(d, p, ds.len(), directory_item()) == (
            ds,
            p + dirs_bytes(ds).len(),
        ),
{
    let enc = |v: DirectoryView| directory_bytes(v);
    let good = |v: DirectoryView| directory_ok(v);
    assert forall|k: int| 0 <= k < ds.len() implies #[trigger] good(ds[k]) by {
        assert(directory_ok(ds[k]));
    }
    assert forall|x: DirectoryView, q: int|
        #![trigger good(x), directory_item()(d, q)]
        good(x) && 0 <= q && q + enc(x).len() <= d.len() && d.subrange(q, q + enc(x).len()) == enc(x) implies directory_item()(
            d,
            q,
        ) == Step::Ok((x, q + enc(x).len())) by {
        lemma_directory_at(d, q, x);
    }
    lemma_list_at(d, p, ds, enc, directory_item(), good);
    lemma_list_lenient_at(d, p, ds, enc, directory_item(), good);
}

/// Reads `n` file entries.
fn read_shared_files(cur: &mut ByteReader, n: u32) -> (res: Result<Vec<SharedFile>>)
    ensures
        final(cur).bytes() == old(cur).bytes(),
        step_matches_list(res, final(cur).pos(), p_list(old(cur).bytes(), old(cur).pos(), n as nat, file_entry_item())),
{
    let ghost d = cur.bytes();
    let ghost p0 = cur.pos();
    let mut files: Vec<SharedFile> = Vec::new();
    let mut i: u32 = 0;
    assert(views(files@) =~= Seq::empty());
    while i < n
        invariant
            d == old(cur).bytes(),
            p0 == old(cur).pos(),
            cur.bytes() == d,
            i <= n,
            p_list(d, p0, i as nat, file_entry_item()) == Step::Ok((views(files@), cur.pos())),
        decreases n - i,
    {
        let ghost before = files@;
        match decode_shared_file(cur) {
            Ok(f) => {
                let ghost fv = f@;
                files.push(f);
                i = i + 1;
                assert(views(files@) =~= views(before).push(fv));
            },
            Err(e) => {
                proof {
                    lemma_list_err(d, p0, (i + 1) as nat, n as nat, file_entry_item());
                }
                return Err(e);
            },
        }
    }
    Ok(files)
}

pub fn decode_directory(cur: &mut ByteReader) -> (res: Result<SharedDirectory>)
    ensures
        final(cur).bytes() == old(cur).bytes(),
        step_matches(res, final(cur).pos(), p_directory(old(cur).bytes(), old(cur).pos())),
{
    let name = read_string(cur)?;
    let n = read_u32_le(cur)?;
    let files = read_shared_files(cur, n)?;
    Ok(SharedDirectory { name, files })
}

pub fn encode_directory(dir: &SharedDirectory, out: &mut Vec<u8>)
    ensures
        final(out)@ == old(out)@ + directory_bytes(dir@),
{
    write_string(out, dir.name.as_str());
    write_u32_le(out, dir.files.len() as u32);
    let ghost enc = |f: FileEntryView| file_entry_bytes(f);
    let ghost vs = views(dir.files@);
    let ghost start = out@;
    let mut i: usize = 0;
    assert(vs.take(0) =~= Seq::empty());
    while i < dir.files.len()
        invariant
            i <= dir.files@.len(),
            vs == views(dir.files@),
            enc == (|f: FileEntryView| file_entry_bytes(f)),
            out@ == start + list_bytes(vs.take(i as int), enc),
        decreases dir.files@.len() - i,
    {
        encode_shared_file(&dir.files[i], out);
        assert(vs.take(i + 1).drop_last() =~= vs.take(i as int));
        i = i + 1;
    }
    assert(vs.take(vs.len() as int) =~= vs);
}

/// Reads `n` directories.
fn read_directories(cur: &mut ByteReader, n: u32) -> (res: Result<Vec<SharedDirectory>>)
    ensures
        final(cur).bytes() == old(cur).bytes(),
        step_matches_list(res, final(cur).pos(), p_list(old(cur).bytes(), old(cur).pos(), n as nat, directory_item())),
{
    let ghost d = cur.bytes();
    let ghost p0 = cur.pos();
    let mut dirs: Vec<SharedDirectory> = Vec::new();
    let mut i: u32 = 0;
    assert(views(dirs@) =~= Seq::empty());
    while i < n
        invariant
            d == old(cur).bytes(),
            p0 == old(cur).pos(),
            cur.bytes() == d,
            i <= n,
            p_list(d, p0, i as nat, directory_item()) == Step::Ok((views(dirs@), cur.pos())),
        decreases n - i,
    {
        let ghost before = dirs@;
        match decode_directory(cur) {
            Ok(x) => {
                let ghost xv = x@;
                dirs.push(x);
                i = i + 1;
                assert(views(dirs@) =~= views(before).push(xv));
            },
            Err(e) => {
                proof {
                    lemma_list_err(d, p0, (i + 1) as nat, n as nat, directory_item());
                }
                return Err(e);
            },
        }
    }
    Ok(dirs)
}

/// Reads `n` directories, skipping those that fail to decode.
fn read_directories_lenient(cur: &mut ByteReader, n: u32) -> (dirs: Vec<SharedDirectory>)
    ensures
        final(cur).bytes() == old(cur).bytes(),
        p_list_lenient(old(cur).bytes(), old(cur).pos(), n as nat, directory_item()) == (views(dirs@), final(cur).pos()),
{
    let ghost d = cur.bytes();
    let ghost p0 = cur.pos();
    let mut dirs: Vec<SharedDirectory> = Vec::new();
    let mut i: u32 = 0;
    assert(views(dirs@) =~= Seq::empty());
    while i < n
        invariant
            d == old(cur).bytes(),
            p0 == old(cur).pos(),
            cur.bytes() == d,
            i <= n,
            p_list_lenient(d, p0, i as nat, directory_item()) == (views(dirs@), cur.pos()),
        decreases n - i,
    {
        let ghost before = dirs@;
        if let Ok(x) = decode_directory(cur) {
            let ghost xv = x@;
            dirs.push(x);
            assert(views(dirs@) =~= views(before).push(xv));
        }
        i = i + 1;
    }
    dirs
}

/// Appends a count and the directories.
fn write_directories(out: &mut Vec<u8>, dirs: &Vec<SharedDirectory>)
    ensures
        final(out)@ == old(out)@ + u32_le(dirs@.len() as u32) + dirs_bytes(views(dirs@)),
{
    write_u32_le(out, dirs.len() as u32);
    let ghost enc = |v: DirectoryView| directory_bytes(v);
    let ghost vs = views(dirs@);
    let ghost start = out@;
    let mut i: usize = 0;
    assert(vs.take(0) =~= Seq::empty());
    while i < dirs.len()
        invariant
            i <= dirs@.len(),
            vs == views(dirs@),
            enc == (|v: DirectoryView| directory_bytes(v)),
            out@ == start + list_bytes(vs.take(i as int), enc),
        decreases dirs@.len() - i,
    {
        encode_directory(&dirs[i], out);
        assert(vs.take(i + 1).drop_last() =~= vs.take(i as int));
        i = i + 1;
    }
    assert(vs.take(vs.len() as int) =~= vs);
}

/// A `u32`, or 0 where none can be read; with the position after the attempt.
pub open spec fn p_u32_or_zero(d: Seq<u8>, p: int) -> (u32, int) {
    match p_u32(d, p) {
        Ok((v, q)) => (v, q),
        Err((_, q)) => (0, q),
    }
}

// ── SharedFileListResponse ────────────────────────────────────────────────────

#[derive(Debug, Clone)]
pub struct SharedFileListResponse {
    pub directories: Vec<SharedDirectory>,
    pub unknown: u32,
    pub private_directories: Vec<SharedDirectory>,
}

impl View for SharedFileListResponse {
    type V = (Seq<DirectoryView>, u32, Seq<DirectoryView>);

    open spec fn view(&self) -> Self::V {
        (views(self.directories@), self.unknown, views(self.private_directories@))
    }
}

impl SharedFileListResponse {
    /// The uncompressed layout: directory count and directories, a `u32`, private
    /// directory count and private directories.
    pub open spec fn spec_raw(&self) -> Seq<u8> {
        u32_le(self.directories@.len() as u32) + dirs_bytes(views(self.directories@))
            + u32_le(self.unknown) + u32_le(self.private_directories@.len() as u32)
            + dirs_bytes(views(self.private_directories@))
    }

    /// The bytes on the wire, written out field by field, in this order.
    pub proof fn lemma_body_layout(m: Self)
        ensures
            m.spec_raw() == (u32_le(m.directories@.len() as u32) + dirs_bytes(views(m.directories@))
                + u32_le(m.unknown) + u32_le(m.private_directories@.len() as u32)
                + dirs_bytes(views(m.private_directories@))),
    {
    }

    /// The uncompressed layout read back. The directories must all decode;
    /// a missing trailing `u32` reads as 0, and private directories that fail
    /// to decode are skipped.
    #[verifier::opaque]
    pub open spec fn spec_decode_raw(d: Seq<u8>) -> Decoded<(Seq<DirectoryView>, u32, Seq<DirectoryView>)> {
        match p_u32(d, 0) {
            Ok((n, p1)) => match p_list(d, p1, n as nat, directory_item()) {
                Ok((directories, p2)) => {
                    let (unknown, p3) = p_u32_or_zero(d, p2);
                    let (n_priv, p4) = p_u32_or_zero(d, p3);
                    let (private_directories, _) = p_list_lenient(d, p4, n_priv as nat, directory_item());
                    Ok((directories, unknown, private_directories))
                },
                Err((f, _)) => Err(f),
            },
            Err((f, _)) => Err(f),
        }
    }

    /// Where each field of `m` was written in its place in `d` (the places
    /// ending at the offsets `o`), reading `d` gives back `m`.
    proof fn lemma_decode_at(d: Seq<u8>, m: Self, o: (int, int, int, int))
        requires
            dirs_ok(views(m.directories@)),
            dirs_ok(views(m.private_directories@)),
            o.0 == 4,
            o.1 == o.0 + dirs_bytes(views(m.directories@)).len(),
            o.2 == o.1 + 4,
            o.3 == o.2 + 4,
            o.3 + dirs_bytes(views(m.private_directories@)).len() == d.len(),
            d.subrange(0, o.0) == u32_le(views(m.directories@).len() as u32),
            d.subrange(o.0, o.1) == dirs_bytes(views(m.directories@)),
            d.subrange(o.1, o.2) == u32_le(m.unknown),
            d.subrange(o.2, o.3) == u32_le(views(m.private_directories@).len() as u32),
            d.subrange(o.3, d.len() as int) == dirs_bytes(views(m.private_directories@)),
        ensures
            Self::spec_decode_raw(d) == Decoded::Ok(m@),
    {
        reveal(SharedFileListResponse::spec_decode_raw);
        let ds = views(m.directories@);
        let ps = views(m.private_directories@);
        lemma_u32_at(d, 0, ds.len() as u32);
        lemma_directories_at(d, o.0, ds);
        lemma_u32_at(d, o.1, m.unknown);
        lemma_u32_at(d, o.2, ps.len() as u32);
        lemma_directories_at(d, o.3, ps);
    }

    /// Decoding the uncompressed layout gives back the response, when its
    /// lists and strings fit their `u32` prefixes.
    pub proof fn lemma_roundtrip(m: Self)
        requires
            dirs_ok(views(m.directories@)),
            dirs_ok(views(m.private_directories@)),
        ensures
            Self::spec_decode_raw(m.spec_raw()) == Decoded::Ok(m@),
    {
        let d = m.spec_raw();
        let ds = views(m.directories@);
        let ps = views(m.private_directories@);
        let q1 = u32_le(ds.len() as u32);
        let q2 = q1 + dirs_bytes(ds);
        let q3 = q2 + u32_le(m.unknown);
        let q4 = q3 + u32_le(ps.len() as u32);
        assert(d.subrange(0, d.len() as int) =~= q4 + dirs_bytes(ps));
        lemma_piece_at(d, q4, dirs_bytes(ps));
        lemma_piece_at(d, q3, u32_le(ps.len() as u32));
        lemma_piece_at(d, q2, u32_le(m.unknown));
        lemma_piece_at(d, q1, dirs_bytes(ds));
        Self::lemma_decode_at(d, m, (q1.len() as int, q2.len() as int, q3.len() as int, q4.len() as int));
    }

    /// What [`Self::encode_compressed`] hands back decompresses to the
    /// uncompressed layout, and that decodes to the response again.
    pub proof fn lemma_compressed_roundtrip(m: Self, c: Seq<u8>)
        requires
            dirs_ok(views(m.directories@)),
            dirs_ok(views(m.private_directories@)),
            c == zlib_deflate(m.spec_raw()),
            zlib_inflate(c) == Some(m.spec_raw()),
        ensures
            zlib_inflate(c) matches Some(raw) && Self::spec_decode_raw(raw) == Decoded::Ok(m@),
    {
        Self::lemma_roundtrip(m);
    }

    /// Decodes the uncompressed layout.
    pub fn decode_uncompressed(raw: &[u8]) -> (res: Result<Self>)
        ensures
            decode_matches(res, Self::spec_decode_raw(raw@)),
    {
        proof {
            reveal(SharedFileListResponse::spec_decode_raw);
        }
        let mut cur = ByteReader::new(raw);
        let n_dirs = read_u32_le(&mut cur)?;
        let directories = read_directories(&mut cur, n_dirs)?;
        let unknown = match read_u32_le(&mut cur) {
            Ok(v) => v,
            Err(_) => 0,
        };
        let n_priv = match read_u32_le(&mut cur) {
            Ok(v) => v,
            Err(_) => 0,
        };
        let private_directories = read_directories_lenient(&mut cur, n_priv);
        Ok(Self { directories, unknown, private_directories })
    }

    /// Decompresses and decodes.
    pub fn decode_compressed(data: &[u8]) -> (res: Result<Self>)
        ensures
            match zlib_inflate(data@) {
                Some(raw) => decode_matches(res, Self::spec_decode_raw(raw)),
                None => res matches Err(Error::Zlib(_)),
            },
    {
        match inflate(data) {
            Ok(raw) => Self::decode_uncompressed(raw.as_slice()),
            Err(msg) => Err(Error::Zlib(msg)),
        }
    }

    /// The uncompressed layout.
    pub fn encode_uncompressed(&self) -> (raw: Vec<u8>)
        ensures
            raw@ == self.spec_raw(),
    {
        let mut raw = Vec::new();
        write_directories(&mut raw, &self.directories);
        write_u32_le(&mut raw, self.unknown);
        write_directories(&mut raw, &self.private_directories);
        raw
    }

    /// Encodes and compresses.
    pub fn encode_compressed(&self) -> (res: Result<Vec<u8>>)
        ensures
            res matches Ok(c) && c@ == zlib_deflate(self.spec_raw()) && zlib_inflate(c@) == Some(self.spec_raw()),
    {
        let raw = self.encode_uncompressed();
        match deflate(raw.as_slice()) {
            Ok(c) => Ok(c),
            Err(msg) => Err(Error::Zlib(msg)),
        }
    }
}

// ── FolderContentsResponse ────────────────────────────────────────────────────

#[derive(Debug, Clone)]
pub struct FolderContentsResponse {
    pub token: u32,
    pub folder: String,
    pub directories: Vec<SharedDirectory>,
}

impl View for FolderContentsResponse {
    type V = (u32, Seq<char>, Seq<DirectoryView>);

    open spec fn view(&self) -> Self::V {
        (self.token, self.folder@, views(self.directories@))
    }
}

impl FolderContentsResponse {
    /// The uncompressed layout: token, folder, directory count and directories.
    pub open spec fn spec_raw(&self) -> Seq<u8> {
        u32_le(self.token) + string_field(self.folder@) + u32_le(self.directories@.len() as u32)
            + dirs_bytes(views(self.directories@))
    }

    /// The bytes on the wire, written out field by field, in this order.
    pub proof fn lemma_body_layout(m: Self)
        ensures
            m.spec_raw() == (u32_le(m.token) + string_field(m.folder@) + u32_le(m.directories@.len() as u32)
                + dirs_bytes(views(m.directories@))),
    {
    }

    /// The uncompressed layout read back.
    #[verifier::opaque]
    pub open spec fn spec_decode_raw(d: Seq<u8>) -> Decoded<(u32, Seq<char>, Seq<DirectoryView>)> {
        match p_u32(d, 0) {
            Ok((token, p1)) => match p_string(d, p1) {
                Ok((folder, p2)) => match p_u32(d, p2) {
                    Ok((n, p3)) => match p_list(d, p3, n as nat, directory_item()) {
                        Ok((directories, _)) => Ok((token, folder, directories)),
                        Err((f, _)) => Err(f),
                    },
                    Err((f, _)) => Err(f),
                },
                Err((f, _)) => Err(f),
            },
            Err((f, _)) => Err(f),
        }
    }

    /// Where each field of `m` was written in its place in `d` (the places
    /// ending at the offsets `o`), reading `d` gives back `m`.
    proof fn lemma_decode_at(d: Seq<u8>, m: Self, o: (int, int, int))
        requires
            fits(m.folder@),
            dirs_ok(views(m.directories@)),
            o.0 == 4,
            o.1 == o.0 + string_field(m.folder@).len(),
            o.2 == o.1 + 4,
            o.2 + dirs_bytes(views(m.directories@)).len() == d.len(),
            d.subrange(0, o.0) == u32_le(m.token),
            d.subrange(o.0, o.1) == string_field(m.folder@),
            d.subrange(o.1, o.2) == u32_le(views(m.directories@).len() as u32),
            d.subrange(o.2, d.len() as int) == dirs_bytes(views(m.directories@)),
        ensures
            Self::spec_decode_raw(d) == Decoded::Ok(m@),
    {
        reveal(FolderContentsResponse::spec_decode_raw);
        let ds = views(m.directories@);
        lemma_u32_at(d, 0, m.token);
        lemma_string_at(d, o.0, m.folder@);
        lemma_u32_at(d, o.1, ds.len() as u32);
        lemma_directories_at(d, o.2, ds);
    }

    /// Decoding the uncompressed layout gives back the response, when its
    /// lists and strings fit their `u32` prefixes.
    pub proof fn lemma_roundtrip(m: Self)
        requires
            fits(m.folder@),
            dirs_ok(views(m.directories@)),
        ensures
            Self::spec_decode_raw(m.spec_raw()) == Decoded::Ok(m@),
    {
        let d = m.spec_raw();
        let ds = views(m.directories@);
        let q1 = u32_le(m.token);
        let q2 = q1 + string_field(m.folder@);
        let q3 = q2 + u32_le(ds.len() as u32);
        assert(d.subrange(0, d.len() as int) =~= q3 + dirs_bytes(ds));
        lemma_piece_at(d, q3, dirs_bytes(ds));
        lemma_piece_at(d, q2, u32_le(ds.len() as u32));
        lemma_piece_at(d, q1, string_field(m.folder@));
        Self::lemma_decode_at(d, m, (q1.len() as int, q2.len() as int, q3.len() as int));
    }

    /// What [`Self::encode_compressed`] hands back decompresses to the
    /// uncompressed layout, and that decodes to the response again.
    pub proof fn lemma_compressed_roundtrip(m: Self, c: Seq<u8>)
        requires
            fits(m.folder@),
            dirs_ok(views(m.directories@)),
            c == zlib_deflate(m.spec_raw()),
            zlib_inflate(c) == Some(m.spec_raw()),
        ensures
            zlib_inflate(c) matches Some(raw) && Self::spec_decode_raw(raw) == Decoded::Ok(m@),
    {
        Self::lemma_roundtrip(m);
    }

    /// Decodes the uncompressed layout.
    pub fn decode_uncompressed(raw: &[u8]) -> (res: Result<Self>)
        ensures
            decode_matches(res, Self::spec_decode_raw(raw@)),
    {
        proof {
            reveal(FolderContentsResponse::spec_decode_raw);
        }
        let mut cur = ByteReader::new(raw);
        let token = read_u32_le(&mut cur)?;
        let folder = read_string(&mut cur)?;
        let n = read_u32_le(&mut cur)?;
        let directories = read_directories(&mut cur, n)?;
        Ok(Self { token, folder, directories })
    }

    /// Decompresses and decodes.
    pub fn decode_compressed(data: &[u8]) -> (res: Result<Self>)
        ensures
            match zlib_inflate(data@) {
                Some(raw) => decode_matches(res, Self::spec_decode_raw(raw)),
                None => res matches Err(Error::Zlib(_)),
            },
    {
        match inflate(data) {
            Ok(raw) => Self::decode_uncompressed(raw.as_slice()),
            Err(msg) => Err(Error::Zlib(msg)),
        }
    }

    /// The uncompressed layout.
    pub fn encode_uncompressed(&self) -> (raw: Vec<u8>)
        ensures
            raw@ == self.spec_raw(),
    {
        let mut raw = Vec::new();
        write_u32_le(&mut raw, self.token);
        write_string(&mut raw, self.folder.as_str());
        write_directories(&mut raw, &self.directories);
        raw
    }

    /// Encodes and compresses.
    pub fn encode_compressed(&self) -> (res: Result<Vec<u8>>)
        ensures
            res matches Ok(c) && c@ == zlib_deflate(self.spec_raw()) && zlib_inflate(c@) == Some(self.spec_raw()),
    {
        let raw = self.encode_uncompressed();
        match deflate(raw.as_slice()) {
            Ok(c) => Ok(c),
            Err(msg) => Err(Error::Zlib(msg)),
        }
    }
}

} // verus!
