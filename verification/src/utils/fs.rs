//! File system utilities over a [`System`].

use vstd::prelude::*;
use crate::error::{ErrorKind, GraftError, IoError, IoErrorKind};
use crate::git::repository::io_to_graft;
use crate::path::{components, extension, parent, path_extension, path_parent};
use crate::system::System;
use crate::text::{decimal, is_ascii_bytes, lowercase, owned, seq_starts_with, str_eq, to_lowercase, u128_to_decimal};

verus! {

/// A yes/no answer of the system, its error as an `Other` error with the
/// same message.
fn io_bool(r: Result<bool, IoError>) -> (out: Result<bool, GraftError>)
    ensures
        match r {
            Ok(b) => out == Ok::<bool, GraftError>(b),
            Err(e) => out matches Err(g) && g.is(ErrorKind::Other, e.message@),
        },
{
    match r {
        Ok(b) => Ok(b),
        Err(e) => Err(io_to_graft(e)),
    }
}

/// Known text file extensions for binary detection.
pub open spec fn is_text_extension(e: Seq<char>) -> bool {
    ||| e == "bash"@ || e == "c"@ || e == "cc"@ || e == "cjs"@ || e == "conf"@ || e == "config"@
            ||e == "cpp"@ || e == "css"@ || e == "cxx"@ || e == "csv"@ || e == "dockerfile"@ || e == "dockerignore"@
            ||e == "editorconfig"@ || e == "env"@ || e == "fish"@ || e == "gemfile"@ || e == "gitignore"@ || e == "go"@
            ||e == "graphql"@ || e == "h"@ || e == "htm"@ || e == "html"@ || e == "ini"@ || e == "java"@
            ||e == "js"@ || e == "json"@ || e == "jsx"@ || e == "kt"@ || e == "less"@ || e == "log"@
            ||e == "makefile"@ || e == "markdown"@ || e == "md"@ || e == "mjs"@ || e == "php"@ || e == "pl"@
            ||e == "properties"@ || e == "proto"@ || e == "py"@ || e == "pyi"@ || e == "rakefile"@ || e == "rb"@
            ||e == "rs"@ || e == "rst"@ || e == "sass"@ || e == "scala"@ || e == "scss"@ || e == "sh"@
            ||e == "sql"@ || e == "swift"@ || e == "thrift"@ || e == "toml"@ || e == "ts"@ || e == "tsv"@
            ||e == "tsx"@ || e == "txt"@ || e == "xml"@ || e == "yaml"@ || e == "yml"@ || e == "zsh"@
}

/// Is `e` a known text file extension?
pub fn text_extension(e: &str) -> (r: bool)
    ensures
        r == is_text_extension(e@),
{
    str_eq(e, "bash") || str_eq(e, "c") || str_eq(e, "cc") || str_eq(e, "cjs") || str_eq(e, "conf")
        || str_eq(e, "config") || str_eq(e, "cpp") || str_eq(e, "css") || str_eq(e, "cxx") || str_eq(e, "csv")
        || str_eq(e, "dockerfile") || str_eq(e, "dockerignore") || str_eq(e, "editorconfig") || str_eq(e, "env") || str_eq(e, "fish")
        || str_eq(e, "gemfile") || str_eq(e, "gitignore") || str_eq(e, "go") || str_eq(e, "graphql") || str_eq(e, "h")
        || str_eq(e, "htm") || str_eq(e, "html") || str_eq(e, "ini") || str_eq(e, "java") || str_eq(e, "js")
        || str_eq(e, "json") || str_eq(e, "jsx") || str_eq(e, "kt") || str_eq(e, "less") || str_eq(e, "log")
        || str_eq(e, "makefile") || str_eq(e, "markdown") || str_eq(e, "md") || str_eq(e, "mjs") || str_eq(e, "php")
        || str_eq(e, "pl") || str_eq(e, "properties") || str_eq(e, "proto") || str_eq(e, "py") || str_eq(e, "pyi")
        || str_eq(e, "rakefile") || str_eq(e, "rb") || str_eq(e, "rs") || str_eq(e, "rst") || str_eq(e, "sass")
        || str_eq(e, "scala") || str_eq(e, "scss") || str_eq(e, "sh") || str_eq(e, "sql") || str_eq(e, "swift")
        || str_eq(e, "thrift") || str_eq(e, "toml") || str_eq(e, "ts") || str_eq(e, "tsv") || str_eq(e, "tsx")
        || str_eq(e, "txt") || str_eq(e, "xml") || str_eq(e, "yaml") || str_eq(e, "yml") || str_eq(e, "zsh")
}


/// Is the lowercased extension of the path a known text extension?
pub open spec fn has_text_extension(path: Seq<char>) -> bool {
    extension(path) matches Some(e) && is_text_extension(lowercase(e))
}

/// A continuation byte of UTF-8 (`10xxxxxx`).
pub open spec fn is_cont(b: u8) -> bool {
    0x80 <= b <= 0xBF
}

/// The length of the well-formed UTF-8 sequence that `b` starts with, or 0
/// when it starts with none (the table of well-formed byte sequences of the
/// Unicode standard, which `std::str::from_utf8` follows: no overlong forms,
/// no surrogates, nothing above U+10FFFF).
pub open spec fn utf8_seq_len(b: Seq<u8>) -> nat {
    if b.len() == 0 {
        0
    } else {
        let b0 = b[0];
        if b0 <= 0x7F {
            1
        } else if 0xC2 <= b0 <= 0xDF {
            if b.len() >= 2 && is_cont(b[1]) { 2 } else { 0 }
        } else if 0xE0 <= b0 <= 0xEF {
            let lo: u8 = if b0 == 0xE0 { 0xA0 } else { 0x80 };
            let hi: u8 = if b0 == 0xED { 0x9F } else { 0xBF };
            if b.len() >= 3 && lo <= b[1] <= hi && is_cont(b[2]) { 3 } else { 0 }
        } else if 0xF0 <= b0 <= 0xF4 {
            let lo: u8 = if b0 == 0xF0 { 0x90 } else { 0x80 };
            let hi: u8 = if b0 == 0xF4 { 0x8F } else { 0xBF };
            if b.len() >= 4 && lo <= b[1] <= hi && is_cont(b[2]) && is_cont(b[3]) { 4 } else { 0 }
        } else {
            0
        }
    }
}

/// Whether bytes are valid UTF-8, as `std::str::from_utf8` decides: a run
/// of well-formed sequences.
pub open spec fn valid_utf8(bytes: Seq<u8>) -> bool
    decreases bytes.len(),
{
    if bytes.len() == 0 {
        true
    } else {
        let n = utf8_seq_len(bytes);
        n > 0 && valid_utf8(bytes.skip(n as int))
    }
}

/// ASCII bytes are valid UTF-8.
pub proof fn ascii_is_valid_utf8(b: Seq<u8>)
    requires
        is_ascii_bytes(b),
    ensures
        valid_utf8(b),
    decreases b.len(),
{
    if b.len() > 0 {
        assert(b[0] < 128);
        assert(utf8_seq_len(b) == 1);
        let rest = b.skip(1);
        assert forall|i: int| 0 <= i < rest.len() implies #[trigger] rest[i] < 128 by {
            assert(rest[i] == b[i + 1]);
        }
        ascii_is_valid_utf8(rest);
    }
}

/// `std::str::from_utf8(bytes).is_ok()`: whether the bytes are valid UTF-8
/// (see `valid_utf8`).
#[verifier::external_body]
pub(crate) fn is_valid_utf8(bytes: &[u8]) -> (r: bool)
    ensures
        r == valid_utf8(bytes@),
{
    std::str::from_utf8(bytes).is_ok()
}

/// How many bytes of a file are looked at to tell text from binary.
pub const SNIFF_LEN: usize = 8192;

/// Content is binary when it is not empty and holds a zero byte or is not
/// valid UTF-8.
pub open spec fn content_is_binary(bytes: Seq<u8>) -> bool {
    bytes.len() > 0 && (bytes.contains(0u8) || !valid_utf8(bytes))
}

/// Decide from its first bytes whether content is binary.
pub fn binary_content(bytes: &[u8]) -> (r: bool)
    ensures
        r == content_is_binary(bytes@),
{
    if bytes.len() == 0 {
        return false;
    }
    let mut i: usize = 0;
    while i < bytes.len()
        invariant
            i <= bytes.len(),
            forall|j: int| 0 <= j < i ==> bytes@[j] != 0u8,
        decreases bytes.len() - i,
    {
        if bytes[i] == 0u8 {
            assert(bytes@.contains(0u8)) by {
                assert(bytes@[i as int] == 0u8);
            }
            return true;
        }
        i = i + 1;
    }
    !is_valid_utf8(bytes)
}

/// The first `n` bytes (all of them when there are fewer).
fn prefix_bytes(v: &Vec<u8>, n: usize) -> (r: Vec<u8>)
    ensures
        r@ == v@.take(if v.len() < n { v.len() as int } else { n as int }),
{
    let end = if v.len() < n { v.len() } else { n };
    let mut out: Vec<u8> = Vec::new();
    let mut i: usize = 0;
    while i < end
        invariant
            i <= end,
            end <= v.len(),
            out@ == v@.take(i as int),
        decreases end - i,
    {
        out.push(v[i]);
        assert(out@ =~= v@.take(i as int + 1));
        i = i + 1;
    }
    out
}

/// The system holds a binary file at the path: a file without a known text
/// extension whose first bytes are binary.
pub open spec fn file_is_binary<S: System>(system: S, path: Seq<char>) -> bool {
    &&& system.fs_files().contains_key(components(path))
    &&& !has_text_extension(path)
    &&& content_is_binary(
        system.fs_files()[components(path)].take(
            if system.fs_files()[components(path)].len() < SNIFF_LEN {
                system.fs_files()[components(path)].len() as int
            } else {
                SNIFF_LEN as int
            },
        ),
    )
}

/// Check whether a file is binary: not for a non-file or a known text
/// extension; otherwise by its first bytes.
pub fn is_binary_file<S: System>(system: &S, file_path: &str) -> (r: Result<bool, GraftError>)
    ensures
        r matches Ok(true) ==> !has_text_extension(file_path@),
        S::keeps_model() ==> (r matches Ok(b) ==> b == file_is_binary(*system, file_path@)),
{
    if !io_bool(system.is_file(file_path))? {
        return Ok(false);
    }
    if let Some(ext) = path_extension(file_path) {
        let lower = to_lowercase(ext.as_str());
        if text_extension(lower.as_str()) {
            return Ok(false);
        }
    }
    let content = match system.read(file_path) {
        Ok(c) => c,
        Err(e) => {
            let mut m = owned("Failed to open file: ");
            m.append(file_path);
            m.append(": ");
            m.append(e.message.as_str());
            return Err(GraftError::other(m));
        },
    };
    let head = prefix_bytes(&content, SNIFF_LEN);
    Ok(binary_content(head.as_slice()))
}

/// Create the parent directories of a file path when they do not exist.
pub fn create_parent_directories<S: System>(system: &mut S, file_path: &str) -> (r: Result<
    (),
    GraftError,
>)
    ensures
        parent(file_path@) is None ==> r is Ok,
        r matches Err(e) ==> e.kind_of() == ErrorKind::Other,
        S::keeps_model() ==> (r is Ok ==> final(system).fs_files() == old(system).fs_files() && old(
            system,
        ).fs_dirs().subset_of(final(system).fs_dirs())),
{
    if let Some(p) = path_parent(file_path) {
        if !io_bool(system.path_exists(p.as_str()))? {
            if let Err(e) = system.create_dir_all(p.as_str()) {
                let mut m = owned("Failed to create parent directories for: ");
                m.append(file_path);
                m.append(": ");
                m.append(e.message.as_str());
                return Err(GraftError::other(m));
            }
        }
    }
    Ok(())
}

/// The unit a size is shown in: the largest of B, KB, MB, GB and TB (powers
/// of 1024) that the size reaches, given by its exponent.
pub open spec fn size_exponent(bytes: nat) -> nat {
    if bytes < 1024 {
        0
    } else if bytes < 1048576 {
        1
    } else if bytes < 1073741824 {
        2
    } else if bytes < 1099511627776 {
        3
    } else {
        4
    }
}

/// 1024 to the power of a unit's exponent.
pub open spec fn unit_bytes(k: nat) -> nat {
    if k == 0 {
        1
    } else if k == 1 {
        1024
    } else if k == 2 {
        1048576
    } else if k == 3 {
        1073741824
    } else {
        1099511627776
    }
}

/// The name of a unit.
pub open spec fn unit_name(k: nat) -> Seq<char> {
    if k == 0 {
        "B"@
    } else if k == 1 {
        "KB"@
    } else if k == 2 {
        "MB"@
    } else if k == 3 {
        "GB"@
    } else {
        "TB"@
    }
}

/// The size in tenths of the unit, rounded to the nearest tenth (a tie to
/// the even one).
pub open spec fn size_tenths(bytes: nat, k: nat) -> nat {
    let q = (bytes * 10) / unit_bytes(k);
    let r = (bytes * 10) % unit_bytes(k);
    if 2 * r > unit_bytes(k) || (2 * r == unit_bytes(k) && q % 2 == 1) {
        q + 1
    } else {
        q
    }
}

/// A size as it is shown: in bytes below 1 KB (`512 B`), else in the
/// largest unit it reaches with one decimal (`1.5 KB`, `2.0 MB`).
pub open spec fn file_size_text(bytes: nat) -> Seq<char> {
    let k = size_exponent(bytes);
    if k == 0 {
        decimal(bytes) + " B"@
    } else {
        decimal(size_tenths(bytes, k) / 10) + "."@ + decimal(size_tenths(bytes, k) % 10) + " "@ + unit_name(k)
    }
}

/// A human-readable file size (see [`file_size_text`]).
pub fn format_file_size(bytes: u64) -> (r: String)
    ensures
        r@ == file_size_text(bytes as nat),
{
    if bytes == 0 {
        let r = owned("0 B");
        proof {
            reveal_strlit("0 B");
            reveal_strlit(" B");
            assert(decimal(0) =~= seq!['0']);
            assert(r@ =~= decimal(0) + " B"@);
        }
        return r;
    }
    let (k, unit, name): (u32, u128, &str) = if bytes < 1024 {
        (0, 1, "B")
    } else if bytes < 1048576 {
        (1, 1024, "KB")
    } else if bytes < 1073741824 {
        (2, 1048576, "MB")
    } else if bytes < 1099511627776 {
        (3, 1073741824, "GB")
    } else {
        (4, 1099511627776, "TB")
    };
    assert(k as nat == size_exponent(bytes as nat));
    assert(unit as nat == unit_bytes(k as nat));
    assert(name@ == unit_name(k as nat));
    if k == 0 {
        let mut r = u128_to_decimal(bytes as u128);
        r.append(" B");
        return r;
    }
    let scaled: u128 = (bytes as u128) * 10;
    let q = scaled / unit;
    let rem = scaled % unit;
    let t: u128 = if 2 * rem > unit || (2 * rem == unit && q % 2 == 1) {
        q + 1
    } else {
        q
    };
    assert(t as nat == size_tenths(bytes as nat, k as nat));
    let mut r = u128_to_decimal(t / 10);
    r.append(".");
    r.append(u128_to_decimal(t % 10).as_str());
    r.append(" ");
    r.append(name);
    r
}

/// Get a file's size in bytes.
pub fn get_file_size<S: System>(system: &S, file_path: &str) -> (r: Result<u64, GraftError>)
    ensures
        r matches Err(e) ==> e.kind_of() == ErrorKind::Other && seq_starts_with(
            e.message_of(),
            "Failed to get metadata for: "@ + file_path@ + ": "@,
        ),
{
    match system.file_len(file_path) {
        Ok(n) => Ok(n),
        Err(e) => {
            let mut m = owned("Failed to get metadata for: ");
            m.append(file_path);
            m.append(": ");
            let ghost head = m@;
            m.append(e.message.as_str());
            assert(m@.subrange(0, head.len() as int) =~= head);
            Err(GraftError::other(m))
        },
    }
}

/// Check whether a directory is empty (a path that is not a directory is
/// not an empty directory).
pub fn is_directory_empty<S: System>(system: &S, dir_path: &str) -> (r: Result<bool, GraftError>)
    ensures
        r matches Err(e) ==> e.kind_of() == ErrorKind::Other,
{
    if !io_bool(system.is_dir(dir_path))? {
        return Ok(false);
    }
    match system.read_dir(dir_path) {
        Ok(entries) => Ok(entries.len() == 0),
        Err(e) => {
            let mut m = owned("Failed to read directory: ");
            m.append(dir_path);
            m.append(": ");
            m.append(e.message.as_str());
            Err(GraftError::other(m))
        },
    }
}

/// Remove a directory and all its contents, when it exists and is a
/// directory.
pub fn remove_dir_safe<S: System>(system: &mut S, dir_path: &str) -> (r: Result<(), GraftError>)
    ensures
        r matches Err(e) ==> e.kind_of() == ErrorKind::Other,
{
    if io_bool(system.path_exists(dir_path))? && io_bool(system.is_dir(
        dir_path,
    ))? {
        if let Err(e) = system.remove_dir_all(dir_path) {
            let mut m = owned("Failed to remove directory: ");
            m.append(dir_path);
            m.append(": ");
            m.append(e.message.as_str());
            return Err(GraftError::other(m));
        }
    }
    Ok(())
}

/// How many bytes each progress report of a copy stands for.
pub const COPY_CHUNK: u64 = 65536;

/// Copy a file, creating the target's parent directories, and report the
/// bytes copied so far out of the source's size to the callback after each
/// chunk. Gives the bytes copied.
pub fn copy_file_with_progress<S: System, F: Fn(u64, u64)>(
    system: &mut S,
    source: &str,
    target: &str,
    progress_callback: F,
) -> (r: Result<u64, GraftError>)
    requires
        forall|a: u64, b: u64| progress_callback.requires((a, b)),
    ensures
        r matches Err(e) ==> e.kind_of() == ErrorKind::Other,
{
    let source_size = get_file_size(system, source)?;
    let content = match system.read(source) {
        Ok(c) => c,
        Err(e) => {
            let mut m = owned("Failed to open source file: ");
            m.append(source);
            m.append(": ");
            m.append(e.message.as_str());
            return Err(GraftError::other(m));
        },
    };
    create_parent_directories(system, target)?;
    if let Err(e) = system.write(target, content.as_slice()) {
        let mut m = owned("Failed to create target file: ");
        m.append(target);
        m.append(": ");
        m.append(e.message.as_str());
        return Err(GraftError::other(m));
    }
    let total: u64 = content.len() as u64;
    let mut copied: u64 = 0;
    while copied < total
        invariant
            copied <= total,
            forall|a: u64, b: u64| progress_callback.requires((a, b)),
        decreases total - copied,
    {
        let step: u64 = if total - copied < COPY_CHUNK { total - copied } else { COPY_CHUNK };
        copied = copied + step;
        progress_callback(copied, source_size);
    }
    Ok(total)
}

/// Check whether two paths resolve to the same file or directory.
pub fn paths_are_same<S: System>(system: &S, path1: &str, path2: &str) -> (r: Result<bool, GraftError>)
    ensures
        r matches Err(e) ==> e.kind_of() == ErrorKind::Other,
{
    let c1 = match system.canonicalize(path1) {
        Ok(c) => c,
        Err(e) => {
            let mut m = owned("Failed to canonicalize path: ");
            m.append(path1);
            m.append(": ");
            m.append(e.message.as_str());
            return Err(GraftError::other(m));
        },
    };
    let c2 = match system.canonicalize(path2) {
        Ok(c) => c,
        Err(e) => {
            let mut m = owned("Failed to canonicalize path: ");
            m.append(path2);
            m.append(": ");
            m.append(e.message.as_str());
            return Err(GraftError::other(m));
        },
    };
    Ok(str_eq(c1.as_str(), c2.as_str()))
}

/// Make sure a directory exists, creating it when the path does not exist.
pub fn ensure_dir_exists<S: System>(system: &mut S, dir_path: &str) -> (r: Result<(), GraftError>)
    ensures
        r matches Err(e) ==> e.kind_of() == ErrorKind::Other,
{
    if !io_bool(system.path_exists(dir_path))? {
        if let Err(e) = system.create_dir_all(dir_path) {
            let mut m = owned("Failed to create directory: ");
            m.append(dir_path);
            m.append(": ");
            m.append(e.message.as_str());
            return Err(GraftError::other(m));
        }
    } else if !io_bool(system.is_dir(dir_path))? {
        let mut m = owned("Path exists but is not a directory: ");
        m.append(dir_path);
        return Err(GraftError::other(m));
    }
    Ok(())
}

} // verus!
