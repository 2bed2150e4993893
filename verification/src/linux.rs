//! Mounting helpers: the file system type of each special file system and
//! the option strings handed to `mount`.
use vstd::prelude::*;

use crate::text::{copy_strings, join, join_strings, push_str, texts};

verus! {

/// The special file systems the system mounts.
#[derive(Debug, Clone, Copy, PartialEq, Eq, Structural)]
pub enum SpecialFs {
    Sys,
    Proc,
    Dev,
    Cgroup2,
    Tmp,
    DevPts,
    Hugetlbfs,
    Bpf,
    Trace,
    Config,
    Debug,
    Security,
    Overlay,
    Iso,
    Squashfs,
}

pub open spec fn fs_type(fs: SpecialFs) -> Seq<char> {
    match fs {
        SpecialFs::Sys => "sysfs"@,
        SpecialFs::Proc => "proc"@,
        SpecialFs::Dev => "devtmpfs"@,
        SpecialFs::Cgroup2 => "cgroup2"@,
        SpecialFs::Tmp => "tmpfs"@,
        SpecialFs::DevPts => "devpts"@,
        SpecialFs::Hugetlbfs => "hugetlbfs"@,
        SpecialFs::Bpf => "bpf"@,
        SpecialFs::Trace => "tracefs"@,
        SpecialFs::Config => "configfs"@,
        SpecialFs::Debug => "debufs"@,
        SpecialFs::Security => "securityfs"@,
        SpecialFs::Overlay => "overlay"@,
        SpecialFs::Iso => "iso9660"@,
        SpecialFs::Squashfs => "squashfs"@,
    }
}

impl SpecialFs {
    /// The type of the file system, as `mount` takes it.
    pub fn as_str(&self) -> (r: &'static str)
        ensures
            r@ == fs_type(*self),
    {
        match self {
            SpecialFs::Sys => "sysfs",
            SpecialFs::Proc => "proc",
            SpecialFs::Dev => "devtmpfs",
            SpecialFs::Cgroup2 => "cgroup2",
            SpecialFs::Tmp => "tmpfs",
            SpecialFs::DevPts => "devpts",
            SpecialFs::Hugetlbfs => "hugetlbfs",
            SpecialFs::Bpf => "bpf",
            SpecialFs::Trace => "tracefs",
            SpecialFs::Config => "configfs",
            SpecialFs::Debug => "debufs",
            SpecialFs::Security => "securityfs",
            SpecialFs::Overlay => "overlay",
            SpecialFs::Iso => "iso9660",
            SpecialFs::Squashfs => "squashfs",
        }
    }
}

/// Mount options cannot hold a NUL character (they are passed as a C
/// string).
#[derive(Debug, Clone, Copy, PartialEq, Eq, Structural)]
pub struct NulInOptions;

/// Whether a text holds a NUL character.
pub open spec fn has_nul(s: Seq<char>) -> bool {
    s.contains('\0')
}

fn contains_nul(s: &str) -> (r: bool)
    ensures
        r == has_nul(s@),
{
    let chars = crate::text::chars_of(s);
    let mut i: usize = 0;
    while i < chars.len()
        invariant
            chars@ == s@,
            i <= chars@.len(),
            forall|j: int| 0 <= j < i ==> chars@[j] != '\0',
        decreases chars@.len() - i,
    {
        if chars[i] == '\0' {
            assert(s@[i as int] == '\0');
            return true;
        }
        i = i + 1;
    }
    false
}

/// The data argument of `mount` for `options`: none without options, else
/// the options joined with commas; refused when they hold a NUL character.
pub open spec fn mount_data_spec(options: Seq<Seq<char>>) -> Result<Option<Seq<char>>, NulInOptions> {
    if has_nul(join(options, ","@)) {
        Err(NulInOptions)
    } else if options.len() == 0 {
        Ok(None)
    } else {
        Ok(Some(join(options, ","@)))
    }
}

/// Builds the data argument of `mount` for `options`.
pub fn mount_data(options: &Vec<String>) -> (r: Result<Option<String>, NulInOptions>)
    ensures
        (match r {
            Ok(Some(s)) => mount_data_spec(texts(options@)) == Ok::<Option<Seq<char>>, NulInOptions>(Some(s@)),
            Ok(None) => mount_data_spec(texts(options@)) == Ok::<Option<Seq<char>>, NulInOptions>(None),
            Err(e) => mount_data_spec(texts(options@)) == Err::<Option<Seq<char>>, NulInOptions>(e),
        }),
{
    let joined = join_strings(options, ",");
    if contains_nul(joined.as_str()) {
        Err(NulInOptions)
    } else if options.len() == 0 {
        Ok(None)
    } else {
        Ok(Some(joined))
    }
}

/// The options of an overlay mount: the given ones, then the lower
/// directories joined with colons, then (when writable) the upper and work
/// directories.
pub open spec fn overlay_options_spec(options: Seq<Seq<char>>, lower: Seq<Seq<char>>, writable: Option<(Seq<char>, Seq<char>)>) -> Seq<Seq<char>> {
    let with_lower = options.push("lowerdir="@ + join(lower, ":"@));
    match writable {
        Some((upper, work)) => with_lower.push("upperdir="@ + upper + ",workdir="@ + work),
        None => with_lower,
    }
}

/// Builds the data argument of an overlay mount; refused when it holds a
/// NUL character.
pub fn overlay_data(options: &Vec<String>, lower: &Vec<String>, writable: &Option<(String, String)>) -> (r: Result<String, NulInOptions>)
    ensures
        (match r {
            Ok(s) => {
                let full = join(overlay_options_spec(texts(options@), texts(lower@), match writable {
                    Some((u, w)) => Some((u@, w@)),
                    None => None,
                }), ","@);
                !has_nul(full) && s@ == full
            },
            Err(_) => has_nul(join(overlay_options_spec(texts(options@), texts(lower@), match writable {
                Some((u, w)) => Some((u@, w@)),
                None => None,
            }), ","@)),
        }),
{
    let mut all = copy_strings(options);
    let mut low = String::new();
    push_str(&mut low, "lowerdir=");
    let joined = join_strings(lower, ":");
    push_str(&mut low, joined.as_str());
    let ghost first = texts(all@);
    all.push(low);
    assert(texts(all@) =~= first.push("lowerdir="@ + join(texts(lower@), ":"@)));
    match writable {
        Some((upper, work)) => {
            let mut w = String::new();
            push_str(&mut w, "upperdir=");
            push_str(&mut w, upper.as_str());
            push_str(&mut w, ",workdir=");
            push_str(&mut w, work.as_str());
            let ghost second = texts(all@);
            let ghost wv = w@;
            all.push(w);
            assert(texts(all@) =~= second.push(wv));
            assert(wv =~= "upperdir="@ + upper@ + ",workdir="@ + work@);
        },
        None => {},
    }
    let data = join_strings(&all, ",");
    if contains_nul(data.as_str()) {
        Err(NulInOptions)
    } else {
        Ok(data)
    }
}

} // verus!
