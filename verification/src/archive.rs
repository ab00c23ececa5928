use vstd::prelude::*;

use crate::discovery::{has_component, has_component_exec};
use crate::text::chars_of;
use crate::MainError;
use vstd::string::StringExecFns;

verus! {

/// An entry name the archive writer stores unchanged: relative, with no
/// empty, `.` or `..` component, no trailing separator, and none of the
/// characters the writer rejects or reinterprets. The writer normalizes any
/// other name, so only these are promised to read back as given.
pub open spec fn wellformed_name(s: Seq<char>) -> bool {
    &&& s.len() > 0
    &&& s[0] != '/'
    &&& s[s.len() - 1] != '/'
    &&& forall|i: int| 0 <= i < s.len() ==> s[i] != '\u{0}' && s[i] != '\\'
    &&& forall|i: int| 0 <= i < s.len() - 1 ==> !((#[trigger] s[i]) == '/' && s[i + 1] == '/')
    &&& !has_component(s, "."@)
    &&& !has_component(s, ".."@)
}

/// Decides whether the archive writer stores a name unchanged.
pub fn wellformed_name_exec(v: &Vec<char>) -> (r: bool)
    ensures
        r == wellformed_name(v@),
{
    let n: usize = v.len();
    if n == 0 {
        return false;
    }
    if v[0] == '/' || v[n - 1] == '/' {
        return false;
    }
    let mut i: usize = 0;
    while i < n
        invariant
            n == v@.len(),
            i <= n,
            forall|k: int| 0 <= k < i ==> v@[k] != '\u{0}' && v@[k] != '\\',
            forall|k: int| 0 <= k < i && k < n - 1 ==> !((#[trigger] v@[k]) == '/' && v@[k + 1]
                == '/'),
        decreases n - i,
    {
        let c = v[i];
        if c == '\u{0}' || c == '\\' {
            return false;
        }
        if i + 1 < n && c == '/' && v[i + 1] == '/' {
            return false;
        }
        i += 1;
    }
    proof {
        reveal_strlit(".");
        reveal_strlit("..");
    }
    let dot = chars_of(".");
    let dotdot = chars_of("..");
    if has_component_exec(v, &dot) {
        return false;
    }
    if has_component_exec(v, &dotdot) {
        return false;
    }
    true
}

// ---------------------------------------------------------------------------
// The outside archive writer and compressor, behind trusted items
// ---------------------------------------------------------------------------

/// An archive being written into an in-memory buffer.
#[verifier::external_body]
pub struct ArchiveWriter {
    inner: tar::Builder<Vec<u8>>,
}

/// The entries appended to an in-memory archive builder so far: each entry's
/// name and its byte content, in order.
pub uninterp spec fn tar_building(b: ArchiveWriter) -> Seq<(Seq<char>, Seq<u8>)>;

/// What reading an archive byte stream yields: the entries it holds, each
/// with its name and byte content, in order; or nothing for a stream that is
/// no archive.
pub uninterp spec fn tar_parse(bytes: Seq<u8>) -> Option<Seq<(Seq<char>, Seq<u8>)>>;

/// What decompressing a byte stream yields: the bytes it was compressed
/// from, or nothing for a stream that is not compressed data.
pub uninterp spec fn gzip_decode(bytes: Seq<u8>) -> Option<Seq<u8>>;

/// Relies on `tar::Builder::new`: a builder over a fresh buffer holds no
/// entries.
#[verifier::external_body]
fn tar_new() -> (b: ArchiveWriter)
    ensures
        tar_building(b) == Seq::<(Seq<char>, Seq<u8>)>::empty(),
{
    ArchiveWriter { inner: tar::Builder::new(Vec::new()) }
}

/// Relies on `tar::Builder::append_data`: for a well-formed name it stores
/// the name unchanged and appends exactly one entry with the given bytes as
/// its content; for such a name, writing into the in-memory buffer cannot
/// fail.
#[verifier::external_body]
fn tar_append(b: &mut ArchiveWriter, name: &str, data: &Vec<u8>)
    requires
        wellformed_name(name@),
    ensures
        tar_building(*final(b)) == tar_building(*old(b)).push((name@, data@)),
{
    let mut header = tar::Header::new_gnu();
    header.set_size(data.len() as u64);
    header.set_mode(0o644);
    header.set_mtime(0);
    b.inner
        .append_data(&mut header, name, data.as_slice())
        .expect("appending a well-formed name to an in-memory archive cannot fail");
}

/// Relies on `tar::Builder::into_inner`: it finishes the archive with its
/// terminator, which into the in-memory buffer cannot fail, and the byte
/// stream reads back as exactly the appended entries.
#[verifier::external_body]
fn tar_finish(b: ArchiveWriter) -> (r: Vec<u8>)
    ensures
        tar_parse(r@) == Some(tar_building(b)),
{
    b.inner.into_inner().expect("finishing an in-memory archive cannot fail")
}

/// Relies on `libflate::gzip::Encoder`: compressing into an in-memory buffer
/// cannot fail, and decompressing the returned stream gives back exactly the
/// input bytes.
#[verifier::external_body]
fn gzip_compress(data: &Vec<u8>) -> (r: Vec<u8>)
    ensures
        gzip_decode(r@) == Some(data@),
{
    let mut enc = libflate::gzip::Encoder::new(Vec::new())
        .expect("opening an in-memory compressed stream cannot fail");
    std::io::Write::write_all(&mut enc, data.as_slice())
        .expect("compressing into memory cannot fail");
    enc.finish().into_result().expect("closing an in-memory compressed stream cannot fail")
}

// ---------------------------------------------------------------------------
// Verified archive building
// ---------------------------------------------------------------------------

/// The name-and-content pairs a set of files stands for.
pub open spec fn entry_views(es: Seq<(String, Vec<u8>)>) -> Seq<(Seq<char>, Seq<u8>)> {
    es.map_values(|e: (String, Vec<u8>)| (e.0@, e.1@))
}

/// Each entry's label put under the archive prefix, so extraction reproduces
/// the prefixed directory layout.
pub open spec fn archive_entries(prefix: Seq<char>, es: Seq<(Seq<char>, Seq<u8>)>) -> Seq<
    (Seq<char>, Seq<u8>),
> {
    es.map_values(|e: (Seq<char>, Seq<u8>)| (prefix.push('/') + e.0, e.1))
}

/// Every entry's archive name — the label under the prefix — is one the
/// archive writer stores unchanged.
pub open spec fn wellformed_entries(prefix: Seq<char>, es: Seq<(Seq<char>, Seq<u8>)>) -> bool {
    forall|j: int| 0 <= j < es.len() ==> wellformed_name(prefix.push('/') + (#[trigger] es[j]).0)
}

/// Writes one uncompressed archive holding one entry per input file, each
/// named `<prefix>/<label>`, in order. It succeeds exactly when every entry
/// name is one the archive writer stores unchanged.
pub fn build_archive(entries: &Vec<(String, Vec<u8>)>, prefix: &str) -> (r: Result<
    Vec<u8>,
    MainError,
>)
    ensures
        r is Ok <==> wellformed_entries(prefix@, entry_views(entries@)),
        r matches Ok(bytes) ==> tar_parse(bytes@) == Some(
            archive_entries(prefix@, entry_views(entries@)),
        ),
        r is Err ==> r == Err::<Vec<u8>, MainError>(MainError::IOError),
{
    let n: usize = entries.len();
    let mut b = tar_new();
    let mut i: usize = 0;
    proof {
        assert(archive_entries(prefix@, entry_views(entries@.take(0))) =~= Seq::<
            (Seq<char>, Seq<u8>),
        >::empty());
    }
    while i < n
        invariant
            n == entries@.len(),
            i <= n,
            tar_building(b) == archive_entries(prefix@, entry_views(entries@.take(i as int))),
            forall|k: int| 0 <= k < i ==> wellformed_name(
                prefix@.push('/') + (#[trigger] entry_views(entries@)[k]).0,
            ),
        decreases n - i,
    {
        let entry = &entries[i];
        let name = String::from_str(prefix).concat("/").concat(entry.0.as_str());
        proof {
            reveal_strlit("/");
            assert("/"@ =~= seq!['/']);
            assert(name@ =~= prefix@.push('/') + entries@[i as int].0@);
        }
        let nv = chars_of(name.as_str());
        if !wellformed_name_exec(&nv) {
            proof {
                assert(!wellformed_name(prefix@.push('/') + entry_views(entries@)[i as int].0));
            }
            return Err(MainError::IOError);
        }
        tar_append(&mut b, name.as_str(), &entry.1);
        proof {
            assert(entries@.take(i + 1) =~= entries@.take(i as int).push(entries@[i as int]));
            assert(archive_entries(prefix@, entry_views(entries@.take(i + 1))) =~= archive_entries(
                prefix@,
                entry_views(entries@.take(i as int)),
            ).push((prefix@.push('/') + entries@[i as int].0@, entries@[i as int].1@)));
        }
        i += 1;
    }
    proof {
        assert(entries@.take(n as int) =~= entries@);
    }
    Ok(tar_finish(b))
}

/// Compresses an archive byte stream; the input is left to the caller to
/// keep or discard. Compressing in memory always succeeds.
pub fn compress_archive(bytes: &Vec<u8>) -> (r: Result<Vec<u8>, MainError>)
    ensures
        r is Ok,
        r matches Ok(g) ==> gzip_decode(g@) == Some(bytes@),
{
    Ok(gzip_compress(bytes))
}

/// The whole archive phase on in-memory contents: builds the uncompressed
/// archive, then its compressed copy. It succeeds exactly when every entry
/// name is one the archive writer stores unchanged, and then the pair
/// round-trips: decompressing the second gives the first, and reading the
/// first gives exactly the prefixed entries.
pub fn archive_and_compress(entries: &Vec<(String, Vec<u8>)>, prefix: &str) -> (r: Result<
    (Vec<u8>, Vec<u8>),
    MainError,
>)
    ensures
        r is Ok <==> wellformed_entries(prefix@, entry_views(entries@)),
        r matches Ok(p) ==> tar_parse(p.0@) == Some(
            archive_entries(prefix@, entry_views(entries@)),
        ) && gzip_decode(p.1@) == Some(p.0@),
        r is Err ==> r == Err::<(Vec<u8>, Vec<u8>), MainError>(MainError::IOError),
{
    let tar_bytes = match build_archive(entries, prefix) {
        Ok(t) => t,
        Err(_) => return Err(MainError::IOError),
    };
    let gz_bytes = match compress_archive(&tar_bytes) {
        Ok(g) => g,
        Err(e) => return Err(e),
    };
    Ok((tar_bytes, gz_bytes))
}

} // verus!
