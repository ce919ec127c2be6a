//! The dashboard's files: which are included in a build, what their entity
//! tags are, and how a request for one is answered.
use vstd::prelude::*;
use vstd::string::StringSliceAdditionalSpecFns;
use crate::config::BuildFeatures;
use crate::http::{StatusCode, empty_response, empty_response_spec, file_response, file_response_spec, content_type_spec, path_extension};
use crate::text::{
    decimal_digits, ends_with, has_prefix, has_suffix, join_sep, join_strings, push_char,
    push_str, starts_with, str_eq, strip_prefix_or_self, strip_prefix_spec, string_views,
    u128_to_decimal, u64_to_decimal,
};

verus! {

/// What a request for a file finds.
pub enum FileResult {
    NotFound,
    /// The file's entity tag is the one the request already has.
    NotModified,
    Found { contents: String, etag: String },
}

/// A file's result once the request's `If-None-Match` value is taken into
/// account: a found file whose entity tag is that value is not modified;
/// anything else is the file's result as read.
pub fn file_contents<E>(read: Result<FileResult, E>, if_none_match: Option<&str>) -> (res: Result<
    FileResult,
    E,
>)
    ensures
        match (read, if_none_match) {
            (Ok(FileResult::Found { etag, .. }), Some(inm)) => if etag@ == inm@ {
                res matches Ok(FileResult::NotModified)
            } else {
                res == read
            },
            _ => res == read,
        },
{
    match if_none_match {
        Some(inm) => match read {
            Ok(FileResult::Found { contents, etag }) => {
                if str_eq(etag.as_str(), inm) {
                    Ok(FileResult::NotModified)
                } else {
                    Ok(FileResult::Found { contents, etag })
                }
            },
            other => other,
        },
        None => read,
    }
}

/// Whether files are read from the frontend directory on disk rather than
/// from those included in the build: always in a development build, and
/// wherever a frontend directory is set.
pub fn reads_from_disk(f: &BuildFeatures, root: Option<&str>) -> (res: bool)
    ensures
        res == (f.debug_assertions || root is Some),
{
    f.debug_assertions || root.is_some()
}

/// A file included in the build: its name in the frontend directory, its
/// contents and its entity tag.
pub struct IncludedFile {
    pub path: String,
    pub contents: String,
    pub etag: String,
}

/// The first included file named `path`.
pub open spec fn included_lookup(files: Seq<IncludedFile>, path: Seq<char>) -> Option<IncludedFile>
    decreases files.len(),
{
    if files.len() == 0 {
        None
    } else if files[0].path@ == path {
        Some(files[0])
    } else {
        included_lookup(files.drop_first(), path)
    }
}

/// The included file named `path`, where there is one.
pub fn read_included(files: &Vec<IncludedFile>, path: &str) -> (res: FileResult)
    ensures
        match included_lookup(files@, path@) {
            Some(f) => res matches FileResult::Found { contents, etag } && contents@ == f.contents@
                && etag@ == f.etag@,
            None => res is NotFound,
        },
{
    let mut i: usize = 0;
    assert(files@.skip(0) =~= files@);
    while i < files.len()
        invariant
            i <= files@.len(),
            included_lookup(files@, path@) == included_lookup(files@.skip(i as int), path@),
        decreases files@.len() - i,
    {
        assert(files@.skip(i as int)[0] == files@[i as int]);
        assert(files@.skip(i as int).drop_first() =~= files@.skip(i + 1));
        if str_eq(files[i].path.as_str(), path) {
            return FileResult::Found {
                contents: files[i].contents.clone(),
                etag: files[i].etag.clone(),
            };
        }
        i = i + 1;
    }
    assert(files@.skip(i as int) =~= Seq::<IncludedFile>::empty());
    FileResult::NotFound
}

/// How a request for the file `path` is answered, given what was found: the
/// status and the whole response.
pub fn file_reply(path: &str, file: &FileResult) -> (res: (StatusCode, String))
    ensures
        match file {
            FileResult::NotFound => res.0 == StatusCode::NOT_FOUND && res.1@ == empty_response_spec(
                StatusCode::NOT_FOUND,
            ),
            FileResult::NotModified => res.0 == StatusCode::NOT_MODIFIED && res.1@
                == empty_response_spec(StatusCode::NOT_MODIFIED),
            FileResult::Found { contents, etag } => res.0 == StatusCode::OK && res.1@
                == file_response_spec(
                vstd::utf8::encode_utf8(contents@).len(),
                etag@,
                content_type_spec(path_extension(path@)),
                contents@,
            ),
        },
{
    match file {
        FileResult::NotFound => (StatusCode::NOT_FOUND, empty_response(StatusCode::NOT_FOUND)),
        FileResult::NotModified => (
            StatusCode::NOT_MODIFIED,
            empty_response(StatusCode::NOT_MODIFIED),
        ),
        FileResult::Found { contents, etag } => (
            StatusCode::OK,
            file_response(path, contents.as_str(), etag.as_str()),
        ),
    }
}

// ---------------------------------------------------------------------------
// Entity tags
// ---------------------------------------------------------------------------

/// The weak entity tag of a file on disk, from its modification time in
/// milliseconds (counted back where it lies before 1970) and its length:
/// `W/"<ms>-<len>"`, with a `-` before the time where it lies before 1970.
pub open spec fn weak_etag_spec(before_epoch: bool, millis: nat, len: nat) -> Seq<char> {
    "W/\""@ + (if before_epoch {
        "-"@
    } else {
        Seq::empty()
    }) + decimal_digits(millis) + "-"@ + decimal_digits(len) + "\""@
}

/// The weak entity tag of a file on disk.
pub fn weak_etag(before_epoch: bool, millis: u128, len: u64) -> (res: String)
    ensures
        res@ == weak_etag_spec(before_epoch, millis as nat, len as nat),
{
    let mut s = String::from_str("W/\"");
    if before_epoch {
        push_str(&mut s, "-");
    }
    let ms = u128_to_decimal(millis);
    push_str(&mut s, ms.as_str());
    push_str(&mut s, "-");
    let l = u64_to_decimal(len);
    push_str(&mut s, l.as_str());
    push_str(&mut s, "\"");
    proof {
        reveal_strlit("");
    }
    s
}

/// The 128-bit XXH3 hash of some bytes.
pub uninterp spec fn xxh3_128_of(bytes: Seq<u8>) -> u128;

/// `xxhash_rust::xxh3::xxh3_128`. Its result is given the name `xxh3_128_of`.
#[verifier::external_body]
fn xxh3_128(bytes: &[u8]) -> (res: u128)
    ensures
        res == xxh3_128_of(bytes@),
{
    xxhash_rust::xxh3::xxh3_128(bytes)
}

/// A lower-case hexadecimal digit.
pub open spec fn hex_digit(d: u8) -> char {
    if d < 10 {
        (d + 48) as char
    } else {
        (d + 87) as char
    }
}

/// The lowest `n` bytes of `x`, least significant first, each as two
/// hexadecimal digits, high half first.
pub open spec fn hex_le(x: u128, n: nat) -> Seq<char>
    decreases n,
{
    if n == 0 {
        Seq::empty()
    } else {
        let b = (x % 256) as u8;
        seq![hex_digit(b / 16), hex_digit(b % 16)] + hex_le(x / 256, (n - 1) as nat)
    }
}

/// The strong entity tag of a file's contents: the little-endian bytes of
/// their XXH3 hash in hexadecimal, in double quotes.
pub open spec fn strong_etag_spec(contents: Seq<u8>) -> Seq<char> {
    seq!['"'] + hex_le(xxh3_128_of(contents), 16) + seq!['"']
}

/// A strong entity tag is 34 characters long: two quotes around 32
/// hexadecimal digits.
pub proof fn lemma_strong_etag_shape(contents: Seq<u8>)
    ensures
        strong_etag_spec(contents).len() == 34,
        strong_etag_spec(contents)[0] == '"',
        strong_etag_spec(contents)[33] == '"',
        forall|i: int|
            1 <= i < 33 ==> {
                let c = #[trigger] strong_etag_spec(contents)[i];
                ('0' <= c <= '9') || ('a' <= c <= 'f')
            },
{
    lemma_hex_le_shape(xxh3_128_of(contents), 16);
}

proof fn lemma_hex_le_shape(x: u128, n: nat)
    ensures
        hex_le(x, n).len() == 2 * n,
        forall|i: int|
            0 <= i < 2 * n ==> {
                let c = #[trigger] hex_le(x, n)[i];
                ('0' <= c <= '9') || ('a' <= c <= 'f')
            },
    decreases n,
{
    if n > 0 {
        lemma_hex_le_shape(x / 256, (n - 1) as nat);
        let b = (x % 256) as u8;
        assert(b / 16 < 16 && b % 16 < 16);
        assert forall|i: int| 0 <= i < 2 * n implies {
            let c = #[trigger] hex_le(x, n)[i];
            ('0' <= c <= '9') || ('a' <= c <= 'f')
        } by {
            if i >= 2 {
                assert(hex_le(x, n)[i] == hex_le(x / 256, (n - 1) as nat)[i - 2]);
            } else {
                let d = if i == 0 { b / 16 } else { b % 16 };
                assert(hex_le(x, n)[i] == hex_digit(d));
                assert(d < 16);
            }
        }
    }
}

fn hex_digit_exec(d: u8) -> (res: char)
    requires
        d < 16,
    ensures
        res == hex_digit(d),
{
    if d < 10 {
        (d + 48) as char
    } else {
        (d + 87) as char
    }
}

/// The entity tag of a hash: its little-endian bytes in hexadecimal, in
/// double quotes.
pub fn etag_from_hash(h: u128) -> (res: String)
    ensures
        res@ == seq!['"'] + hex_le(h, 16) + seq!['"'],
{
    let mut s = String::new();
    push_char(&mut s, '"');
    let mut x: u128 = h;
    let mut k: usize = 0;
    while k < 16
        invariant
            k <= 16,
            s@ + hex_le(x, (16 - k) as nat) == seq!['"'] + hex_le(h, 16),
        decreases 16 - k,
    {
        let b = (x % 256) as u8;
        let hi = hex_digit_exec(b / 16);
        let lo = hex_digit_exec(b % 16);
        let ghost before = s@;
        push_char(&mut s, hi);
        push_char(&mut s, lo);
        assert(hex_le(x, (16 - k) as nat) == seq![hi, lo] + hex_le(x / 256, (16 - k - 1) as nat));
        assert(s@ + hex_le(x / 256, (16 - k - 1) as nat) =~= before + hex_le(x, (16 - k) as nat));
        x = x / 256;
        k = k + 1;
    }
    assert(hex_le(x, 0) =~= Seq::<char>::empty());
    assert(s@ =~= seq!['"'] + hex_le(h, 16));
    push_char(&mut s, '"');
    s
}

/// The strong entity tag of a file's contents.
pub fn strong_etag(contents: &str) -> (res: String)
    ensures
        res@ == strong_etag_spec(contents.spec_bytes()),
{
    let h = xxh3_128(contents.as_bytes());
    etag_from_hash(h)
}

// ---------------------------------------------------------------------------
// Which files a build includes
// ---------------------------------------------------------------------------

/// Whether a file of the frontend directory is included in a build: hidden
/// files and source maps are not.
pub open spec fn include_spec(file_name: Seq<char>) -> bool {
    !has_prefix(file_name, "."@) && !has_suffix(file_name, ".js.map"@)
}

/// Whether a file of the frontend directory is included in a build.
pub fn should_include(file_name: &str) -> (res: bool)
    ensures
        res == include_spec(file_name@),
{
    !starts_with(file_name, ".") && !ends_with(file_name, ".js.map")
}

/// A path's components joined with `/`.
pub fn url_path(components: &Vec<String>) -> (res: String)
    ensures
        res@ == join_sep(string_views(components@), '/'),
{
    join_strings(components, '/')
}

/// The name an included file is found by: its path with the frontend
/// directory, then one `/`, taken off the front.
pub open spec fn included_key_spec(url_path: Seq<char>, frontend_dir: Seq<char>) -> Seq<char> {
    strip_prefix_spec(strip_prefix_spec(url_path, frontend_dir), "/"@)
}

/// The name an included file is found by.
pub fn included_key(url_path: &str, frontend_dir: &str) -> (res: String)
    ensures
        res@ == included_key_spec(url_path@, frontend_dir@),
{
    let rest = strip_prefix_or_self(url_path, frontend_dir);
    let rest = strip_prefix_or_self(rest, "/");
    String::from_str(rest)
}

/// A file included in a build, found by `key`, with its strong entity tag.
pub fn included_file(key: String, contents: String) -> (res: IncludedFile)
    ensures
        res.path == key,
        res.contents == contents,
        res.etag@ == strong_etag_spec(vstd::utf8::encode_utf8(contents@)),
{
    let etag = strong_etag(contents.as_str());
    IncludedFile { path: key, contents, etag }
}

} // verus!
