//! The archiver's naming rules: the archive file name a pack gets, and the
//! normalization of entry paths.

use vstd::prelude::*;

verus! {

use vstd::string::StringExecFns;
use crate::pack_formats::get_version_info;
use crate::pack_formats::spec_is_valid_format;
use crate::pack_formats::spec_versions_of;
use crate::strings::spec_ends_with;
use crate::strings::ends_with_lit;
use crate::strings::to_chars;
use crate::strings::chars_to_string;

/// Why an archive request is refused.
#[derive(Debug)]
pub enum ZipError {
    NameNotZip(String),
}

impl ZipError {
    /// The line reported for this failure.
    pub fn message(&self) -> (r: String)
        ensures
            match *self {
                ZipError::NameNotZip(n) => r@ == "The zip file name must end with '.zip'. Provided name: '"@
                    + n@ + "'"@,
            },
    {
        match self {
            ZipError::NameNotZip(n) => {
                let mut s = String::from_str(
                    "The zip file name must end with '.zip'. Provided name: '",
                );
                s.append(n.as_str());
                s.append("'");
                s
            },
        }
    }
}

/// One path separator normalized: a backslash becomes a forward slash.
pub open spec fn spec_normal_sep() -> spec_fn(char) -> char {
    |c: char|
        if c == '\\' {
            '/'
        } else {
            c
        }
}

/// Normalize a path for an archive entry: every backslash becomes a
/// forward slash, whatever the host writes.
pub fn normalize_separators(path: &str) -> (r: String)
    ensures
        r@ == path@.map_values(spec_normal_sep()),
{
    let cs = to_chars(path);
    let mut out: Vec<char> = Vec::new();
    let mut i: usize = 0;
    assert(out@ =~= cs@.take(0).map_values(spec_normal_sep()));
    while i < cs.len()
        invariant
            i <= cs@.len(),
            out@ == cs@.take(i as int).map_values(spec_normal_sep()),
        decreases cs@.len() - i,
    {
        let c = cs[i];
        if c == '\\' {
            out.push('/');
        } else {
            out.push(c);
        }
        i = i + 1;
        assert(out@ =~= cs@.take(i as int).map_values(spec_normal_sep()));
    }
    assert(cs@.take(cs@.len() as int) =~= cs@);
    chars_to_string(&out)
}

/// The suffix the pack's format contributes to a derived archive name: an
/// underscore and the latest version the format stands for, or nothing for
/// an unknown format.
pub open spec fn spec_zip_suffix(pack_format: u8) -> Seq<char> {
    if spec_is_valid_format(pack_format) {
        "_"@ + spec_versions_of(pack_format).last()
    } else {
        Seq::empty()
    }
}

/// The archive file name for a pack: a custom name must end in `.zip`; a
/// derived one is the pack's own name, the latest version of its format,
/// and the `.zip` extension.
pub fn archive_file_name(datapack_name: &str, pack_format: u8, custom: &Option<String>) -> (r:
    Result<String, ZipError>)
    ensures
        match r {
            Ok(n) => match custom {
                Some(c) => spec_ends_with(c@, ".zip"@) && n@ == c@,
                None => n@ == datapack_name@ + spec_zip_suffix(pack_format) + ".zip"@,
            },
            Err(e) => match e {
                ZipError::NameNotZip(c0) => match custom {
                    Some(c) => !spec_ends_with(c@, ".zip"@) && c0@ == c@,
                    None => false,
                },
            },
        },
{
    match custom {
        Some(c) => {
            let cs = to_chars(c.as_str());
            if ends_with_lit(&cs, ".zip") {
                Ok(c.clone())
            } else {
                Err(ZipError::NameNotZip(c.clone()))
            }
        },
        None => {
            let mut s = String::from_str(datapack_name);
            match get_version_info(pack_format) {
                Some(versions) => {
                    s.append("_");
                    proof {
                        assert(spec_versions_of(pack_format).len() > 0);
                        assert(versions@.len() == versions.deep_view().len());
                    }
                    let last = &versions[versions.len() - 1];
                    proof {
                        assert(versions.deep_view()[versions@.len() - 1] =~= versions@[versions@.len()
                            - 1]@);
                    }
                    s.append(last.as_str());
                },
                None => {},
            }
            s.append(".zip");
            Ok(s)
        },
    }
}

/// A path with the archive extension: unchanged when it already ends in
/// `.zip`, else with `.zip` added.
pub fn ensure_zip_extension(path: &str) -> (r: String)
    ensures
        r@ == (if spec_ends_with(path@, ".zip"@) {
            path@
        } else {
            path@ + ".zip"@
        }),
{
    let cs = to_chars(path);
    if ends_with_lit(&cs, ".zip") {
        String::from_str(path)
    } else {
        let mut s = String::from_str(path);
        s.append(".zip");
        s
    }
}

} // verus!
