//! What input a path names: refused sources, and outer compression wrappers.

use vstd::prelude::*;

use crate::cli::{ArgView, OsArg};
use crate::error::{IoFailure, RunError};
use crate::text::text_is;

verus! {

/// The outer wrapper around a Parquet file, told by the file name.
#[derive(Clone, Copy, PartialEq, Eq, Structural, Debug)]
pub enum Compression {
    Plain,
    Gzip,
    Zstd,
}

pub open spec fn ends_with<T>(s: Seq<T>, suffix: Seq<T>) -> bool {
    suffix.len() <= s.len() && s.skip(s.len() - suffix.len()) == suffix
}

pub open spec fn byte_string(t: Seq<char>) -> Seq<u8> {
    t.map_values(|c: char| c as u8)
}

/// `.gz` names a gzip file, `.zst` and `.zstd` a zstd file.
pub open spec fn compression_of(path: ArgView) -> Compression {
    match path {
        ArgView::Text(t) => if ends_with(t, ".gz"@) {
            Compression::Gzip
        } else if ends_with(t, ".zst"@) || ends_with(t, ".zstd"@) {
            Compression::Zstd
        } else {
            Compression::Plain
        },
        ArgView::Raw(b) => if ends_with(b, byte_string(".gz"@)) {
            Compression::Gzip
        } else if ends_with(b, byte_string(".zst"@)) || ends_with(b, byte_string(".zstd"@)) {
            Compression::Zstd
        } else {
            Compression::Plain
        },
    }
}

fn text_ends_with(s: &str, suffix: &str) -> (b: bool)
    ensures
        b == ends_with(s@, suffix@),
{
    let n = s.unicode_len();
    let m = suffix.unicode_len();
    if m > n {
        return false;
    }
    let mut i: usize = 0;
    while i < m
        invariant
            n == s@.len(),
            m == suffix@.len(),
            m <= n,
            i <= m,
            forall|k: int| 0 <= k < i ==> s@[n - m + k] == suffix@[k],
        decreases m - i,
    {
        if s.get_char(n - m + i) != suffix.get_char(i) {
            assert(s@.skip(n - m)[i as int] != suffix@[i as int]);
            return false;
        }
        i = i + 1;
    }
    assert(s@.skip(n - m) =~= suffix@);
    true
}

fn bytes_end_with(b: &Vec<u8>, suffix: &str) -> (r: bool)
    requires
        suffix@.len() < 8,
        forall|k: int| 0 <= k < suffix@.len() ==> (suffix@[k] as int) < 128,
    ensures
        r == ends_with(b@, byte_string(suffix@)),
{
    let ghost sb = byte_string(suffix@);
    let n = b.len();
    let m = suffix.unicode_len();
    if m > n {
        return false;
    }
    let mut i: usize = 0;
    while i < m
        invariant
            n == b@.len(),
            m == suffix@.len(),
            m < 8,
            m <= n,
            i <= m,
            sb == byte_string(suffix@),
            forall|k: int| 0 <= k < suffix@.len() ==> (suffix@[k] as int) < 128,
            forall|k: int| 0 <= k < i ==> b@[n - m + k] == sb[k],
        decreases m - i,
    {
        let c = suffix.get_char(i);
        let code = c as u32;
        if b[n - m + i] as u32 != code {
            assert(b@.skip(n - m)[i as int] != sb[i as int]);
            return false;
        }
        i = i + 1;
    }
    assert(b@.skip(n - m) =~= sb);
    true
}

/// The wrapper that the file name of `path` announces.
pub fn outer_compression(path: &OsArg) -> (c: Compression)
    ensures
        c == compression_of(path@),
{
    proof {
        reveal_strlit(".gz");
        reveal_strlit(".zst");
        reveal_strlit(".zstd");
    }
    match path {
        OsArg::Text(s) => {
            let t = s.as_str();
            if text_ends_with(t, ".gz") {
                Compression::Gzip
            } else if text_ends_with(t, ".zst") || text_ends_with(t, ".zstd") {
                Compression::Zstd
            } else {
                Compression::Plain
            }
        },
        OsArg::Raw(b) => {
            if bytes_end_with(b, ".gz") {
                Compression::Gzip
            } else if bytes_end_with(b, ".zst") || bytes_end_with(b, ".zstd") {
                Compression::Zstd
            } else {
                Compression::Plain
            }
        },
    }
}

pub open spec fn stdin_refusal_text() -> Seq<char> {
    "stdin is not supported in v1; provide a local Parquet file path"@
}

pub open spec fn directory_refusal_text() -> Seq<char> {
    "directories are not supported"@
}

/// Whether a path names standard input: by its components it is the path
/// `-`, that is `-` followed by nothing but separators and `.` segments
/// (which path comparison leaves out), as in `-`, `-/` or `-/./`.
pub open spec fn names_stdin(t: Seq<char>) -> bool {
    &&& t.len() >= 1
    &&& t[0] == '-'
    &&& forall|i: int| 1 <= i < t.len() ==> #[trigger] t[i] == '/' || t[i] == '.'
    &&& forall|i: int|
        1 <= i < t.len() && #[trigger] t[i] == '.' ==> t[i - 1] == '/' && (i + 1 == t.len() || t[i
            + 1] == '/')
}

/// The characters of a path's bytes, one per byte.
pub open spec fn byte_chars(b: Seq<u8>) -> Seq<char> {
    b.map_values(|x: u8| x as char)
}

/// Whether a path argument names standard input.
pub open spec fn path_names_stdin(path: ArgView) -> bool {
    match path {
        ArgView::Text(t) => names_stdin(t),
        ArgView::Raw(b) => names_stdin(byte_chars(b)),
    }
}

/// Whether the text `t` names standard input.
fn text_names_stdin(t: &str) -> (b: bool)
    ensures
        b == names_stdin(t@),
{
    let n = t.unicode_len();
    if n == 0 || t.get_char(0) != '-' {
        return false;
    }
    let mut i: usize = 1;
    while i < n
        invariant
            n == t@.len(),
            1 <= i <= n,
            t@[0] == '-',
            forall|k: int| 1 <= k < i ==> #[trigger] t@[k] == '/' || t@[k] == '.',
            forall|k: int|
                1 <= k < i && #[trigger] t@[k] == '.' ==> t@[k - 1] == '/' && (k + 1 == n || t@[k
                    + 1] == '/'),
        decreases n - i,
    {
        let c = t.get_char(i);
        if c == '.' {
            if t.get_char(i - 1) != '/' {
                return false;
            }
            if i + 1 < n && t.get_char(i + 1) != '/' {
                return false;
            }
        } else if c != '/' {
            return false;
        }
        i = i + 1;
    }
    true
}

proof fn lemma_byte_char(x: u8)
    ensures
        (x as char == '-') == (x == 45),
        (x as char == '/') == (x == 47),
        (x as char == '.') == (x == 46),
{
}

/// Whether the bytes `b` name standard input.
fn bytes_name_stdin(b: &Vec<u8>) -> (r: bool)
    ensures
        r == names_stdin(byte_chars(b@)),
{
    let ghost t = byte_chars(b@);
    let n = b.len();
    assert(t.len() == n);
    if n == 0 {
        return false;
    }
    proof {
        lemma_byte_char(b@[0]);
        assert(t[0] == b@[0] as char);
    }
    if b[0] != 45 {
        return false;
    }
    let mut i: usize = 1;
    while i < n
        invariant
            n == b@.len(),
            t == byte_chars(b@),
            t.len() == n,
            1 <= i <= n,
            t[0] == '-',
            forall|k: int| 1 <= k < i ==> #[trigger] t[k] == '/' || t[k] == '.',
            forall|k: int|
                1 <= k < i && #[trigger] t[k] == '.' ==> t[k - 1] == '/' && (k + 1 == n || t[k + 1]
                    == '/'),
        decreases n - i,
    {
        proof {
            lemma_byte_char(b@[i as int]);
            lemma_byte_char(b@[i - 1]);
            assert(t[i as int] == b@[i as int] as char);
            assert(t[i - 1] == b@[i - 1] as char);
            if i + 1 < n {
                lemma_byte_char(b@[i + 1]);
                assert(t[i + 1] == b@[i + 1] as char);
            }
        }
        let x = b[i];
        if x == 46 {
            if b[i - 1] != 47 {
                return false;
            }
            if i + 1 < n && b[i + 1] != 47 {
                return false;
            }
        } else if x != 47 {
            return false;
        }
        i = i + 1;
    }
    true
}

/// Refuses a path that names standard input (`-`, also written as `-/` or
/// `-/.`); any other path may be opened.
pub fn check_path(path: &OsArg) -> (r: Result<(), RunError>)
    ensures
        path_names_stdin(path@) ==> (r matches Err(RunError::Unsupported(m)) && m@
            == stdin_refusal_text()),
        !path_names_stdin(path@) ==> r is Ok,
{
    let stdin = match path {
        OsArg::Text(s) => text_names_stdin(s.as_str()),
        OsArg::Raw(b) => bytes_name_stdin(b),
    };
    if stdin {
        Err(
            RunError::Unsupported(
                String::from_str("stdin is not supported in v1; provide a local Parquet file path"),
            ),
        )
    } else {
        Ok(())
    }
}

/// Refuses a path that names a directory.
pub fn check_not_directory(is_dir: bool) -> (r: Result<(), RunError>)
    ensures
        is_dir ==> (r matches Err(RunError::Unsupported(m)) && m@ == directory_refusal_text()),
        !is_dir ==> r is Ok,
{
    if is_dir {
        Err(RunError::Unsupported(String::from_str("directories are not supported")))
    } else {
        Ok(())
    }
}

/// What gzip decoding (flate2's `GzDecoder`) makes of `data`; `None` when it fails.
pub uninterp spec fn gzip_decoded(data: Seq<u8>) -> Option<Seq<u8>>;

/// What zstd decoding (zstd's `decode_all`) makes of `data`; `None` when it fails.
pub uninterp spec fn zstd_decoded(data: Seq<u8>) -> Option<Seq<u8>>;

/// flate2's `read::GzDecoder::new(data)` read to the end. The contract names
/// the result; the decoding itself is flate2's.
#[verifier::external_body]
fn gunzip(data: &[u8]) -> (r: Result<Vec<u8>, std::io::Error>)
    ensures
        match r {
            Ok(v) => gzip_decoded(data@) == Some(v@),
            Err(_) => gzip_decoded(data@) is None,
        },
{
    let mut out = Vec::new();
    match std::io::Read::read_to_end(&mut flate2::read::GzDecoder::new(data), &mut out) {
        Ok(_) => Ok(out),
        Err(e) => Err(e),
    }
}

/// zstd's `stream::decode_all(data)`. The contract names the result; the
/// decoding itself is zstd's.
#[verifier::external_body]
fn unzstd(data: &[u8]) -> (r: Result<Vec<u8>, std::io::Error>)
    ensures
        match r {
            Ok(v) => zstd_decoded(data@) == Some(v@),
            Err(_) => zstd_decoded(data@) is None,
        },
{
    zstd::stream::decode_all(data)
}

/// The Parquet bytes inside an outer wrapper.
pub fn decompress(kind: Compression, data: &[u8]) -> (r: Result<Vec<u8>, RunError>)
    ensures
        match kind {
            Compression::Plain => r matches Ok(v) && v@ == data@,
            Compression::Gzip => match gzip_decoded(data@) {
                Some(d) => r matches Ok(v) && v@ == d,
                None => r matches Err(e) && e is Io,
            },
            Compression::Zstd => match zstd_decoded(data@) {
                Some(d) => r matches Ok(v) && v@ == d,
                None => r matches Err(e) && e is Io,
            },
        },
{
    match kind {
        Compression::Plain => {
            let mut v: Vec<u8> = Vec::new();
            let mut i: usize = 0;
            while i < data.len()
                invariant
                    i <= data@.len(),
                    v@ == data@.take(i as int),
                decreases data@.len() - i,
            {
                v.push(data[i]);
                i = i + 1;
                assert(v@ =~= data@.take(i as int));
            }
            assert(data@.take(data@.len() as int) =~= data@);
            Ok(v)
        },
        Compression::Gzip => match gunzip(data) {
            Ok(v) => Ok(v),
            Err(e) => Err(RunError::Io(IoFailure::new(e))),
        },
        Compression::Zstd => match unzstd(data) {
            Ok(v) => Ok(v),
            Err(e) => Err(RunError::Io(IoFailure::new(e))),
        },
    }
}

} // verus!
