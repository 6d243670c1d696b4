//! Where the task file is kept: a `todo` directory inside the user's data
//! directory, holding `todo.yml`. Paths are held as the bytes of the
//! operating system's encoding, so that any directory name is kept as it is.
use vstd::prelude::*;

verus! {

/// A path, as the bytes of the operating system's encoding of it.
pub type PathBytes = Vec<u8>;

/// `sep` is a main path separator of some platform: `/`, or `\` on Windows.
pub open spec fn platform_separator(sep: u8) -> bool {
    sep == 0x2fu8 || sep == 0x5cu8
}

/// `b` separates path components where `sep` is the main separator: `/`
/// always does.
pub open spec fn is_separator(b: u8, sep: u8) -> bool {
    b == sep || b == 0x2fu8
}

/// `part`, a relative path, placed under `base`: the separator `sep` goes
/// between them unless `base` is empty or already ends in a separator.
pub open spec fn joined(base: Seq<u8>, part: Seq<u8>, sep: u8) -> Seq<u8> {
    if base.len() == 0 || is_separator(base.last(), sep) {
        base + part
    } else {
        base + seq![sep] + part
    }
}

/// `todo`, the name of the task file's directory.
pub open spec fn dir_name() -> Seq<u8> {
    seq![0x74u8, 0x6f, 0x64, 0x6f]
}

/// `todo.yml`, the name of the task file.
pub open spec fn file_name() -> Seq<u8> {
    seq![0x74u8, 0x6f, 0x64, 0x6f, 0x2e, 0x79, 0x6d, 0x6c]
}

/// The directory of the task file, for a given user data directory.
pub open spec fn data_dir_spec(base: Seq<u8>, sep: u8) -> Seq<u8> {
    joined(base, dir_name(), sep)
}

/// The task file, for a given user data directory.
pub open spec fn data_file_spec(base: Seq<u8>, sep: u8) -> Seq<u8> {
    joined(data_dir_spec(base, sep), file_name(), sep)
}

/// Calls `dirs::data_dir`, which looks up the user's data directory in the
/// environment (on Linux `$XDG_DATA_HOME`, else `$HOME/.local/share`), and
/// hands the path back as its encoded bytes. Nothing is promised of the
/// result: it depends on the environment.
#[verifier::external_body]
fn user_data_dir() -> (r: Option<PathBytes>) {
    match dirs::data_dir() {
        Some(p) => Some(p.into_os_string().into_encoded_bytes()),
        None => None,
    }
}

/// Reads `std::path::MAIN_SEPARATOR`, which std documents as `/` on Unix
/// and `\` on Windows; the contract claims only that it is one of the two.
/// Both are ASCII, so the character is its one encoded byte.
#[verifier::external_body]
fn main_separator() -> (r: u8)
    ensures
        platform_separator(r),
{
    std::path::MAIN_SEPARATOR as u8
}

/// `part` placed under `base`, with `sep` as the main separator.
pub fn join_path(base: &Vec<u8>, part: &Vec<u8>, sep: u8) -> (r: PathBytes)
    ensures
        r@ == joined(base@, part@, sep),
{
    let mut out: Vec<u8> = Vec::new();
    let mut i: usize = 0;
    while i < base.len()
        invariant
            i <= base.len(),
            out@ == base@.take(i as int),
        decreases base.len() - i,
    {
        out.push(base[i]);
        i = i + 1;
        assert(out@ =~= base@.take(i as int));
    }
    assert(base@.take(base.len() as int) =~= base@);
    if base.len() > 0 && base[base.len() - 1] != sep && base[base.len() - 1] != 0x2fu8 {
        out.push(sep);
    }
    let ghost with_sep = out@;
    let mut j: usize = 0;
    while j < part.len()
        invariant
            j <= part.len(),
            out@ == with_sep + part@.take(j as int),
        decreases part.len() - j,
    {
        out.push(part[j]);
        j = j + 1;
        assert(out@ =~= with_sep + part@.take(j as int));
    }
    assert(part@.take(part.len() as int) =~= part@);
    out
}

/// The directory of the task file under the data directory `base`, with
/// `sep` as the main separator.
pub fn data_dir_in(base: &Vec<u8>, sep: u8) -> (r: PathBytes)
    ensures
        r@ == data_dir_spec(base@, sep),
{
    let name: Vec<u8> = vec![0x74u8, 0x6f, 0x64, 0x6f];
    assert(name@ =~= dir_name());
    join_path(base, &name, sep)
}

/// The task file under the data directory `base`, with `sep` as the main
/// separator.
pub fn data_file_in(base: &Vec<u8>, sep: u8) -> (r: PathBytes)
    ensures
        r@ == data_file_spec(base@, sep),
{
    let dir = data_dir_in(base, sep);
    let name: Vec<u8> = vec![0x74u8, 0x6f, 0x64, 0x6f, 0x2e, 0x79, 0x6d, 0x6c];
    assert(name@ =~= file_name());
    join_path(&dir, &name, sep)
}

/// The directory of the task file, under the user's data directory; `None`
/// when the environment names no data directory.
pub fn get_data_dir() -> (r: Option<PathBytes>)
    ensures
        r matches Some(p) ==> exists|base: Seq<u8>, sep: u8|
            platform_separator(sep) && p@ == data_dir_spec(base, sep),
{
    match user_data_dir() {
        Some(base) => Some(data_dir_in(&base, main_separator())),
        None => None,
    }
}

/// The task file, under the user's data directory; `None` when the
/// environment names no data directory.
pub fn get_data_file() -> (r: Option<PathBytes>)
    ensures
        r matches Some(p) ==> exists|base: Seq<u8>, sep: u8|
            platform_separator(sep) && p@ == data_file_spec(base, sep),
{
    match user_data_dir() {
        Some(base) => Some(data_file_in(&base, main_separator())),
        None => None,
    }
}

/// The task file lies inside the given data directory: its path starts
/// with `base` unchanged; then comes the separator `sep` unless `base` is
/// empty or already ends in a separator; then `todo`, `sep`, `todo.yml`. The
/// directory of the task file is that path without `sep` and `todo.yml`.
pub proof fn lemma_data_file_under_base(base: Seq<u8>, sep: u8)
    requires
        platform_separator(sep),
    ensures
        data_file_spec(base, sep).subrange(0, base.len() as int) == base,
        data_file_spec(base, sep) == data_dir_spec(base, sep) + seq![sep] + seq![
            0x74u8,
            0x6f,
            0x64,
            0x6f,
            0x2e,
            0x79,
            0x6d,
            0x6c,
        ],
        data_dir_spec(base, sep) == base + (if base.len() == 0 || base.last() == sep || base.last() == 0x2fu8 {
            Seq::<u8>::empty()
        } else {
            seq![sep]
        }) + seq![0x74u8, 0x6f, 0x64, 0x6f],
{
    let dir = data_dir_spec(base, sep);
    assert(dir.len() > 0);
    assert(dir.last() == 0x6fu8);
    assert(dir.last() != sep && dir.last() != 0x2fu8);
    assert(data_file_spec(base, sep) =~= dir + seq![sep] + file_name());
    assert(data_dir_spec(base, sep) =~= base + (if base.len() == 0 || base.last() == sep || base.last() == 0x2fu8 {
        Seq::<u8>::empty()
    } else {
        seq![sep]
    }) + seq![0x74u8, 0x6f, 0x64, 0x6f]);
    assert(data_file_spec(base, sep).subrange(0, base.len() as int) =~= base);
}

} // verus!
