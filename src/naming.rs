//! The default name of the converted file.

use crate::text::{chars_of, ends_with, has_suffix, push_chars, string_of, sub_chars};
use vstd::prelude::*;

verus! {

/// What `Path::file_stem` gives for a path.
pub uninterp spec fn stem_of(path: Seq<char>) -> Option<Seq<char>>;

/// What `Path::extension` gives for a path.
pub uninterp spec fn extension_of(path: Seq<char>) -> Option<Seq<char>>;

/// Relies on `std::path::Path::file_stem`: the file name without its
/// extension, a function of the path alone; the path is a `&str`, so the stem
/// is valid UTF-8.
#[verifier::external_body]
fn path_stem(path: &str) -> (r: Option<String>)
    ensures
        match r {
            Some(s) => stem_of(path@) == Some(s@),
            None => stem_of(path@) is None,
        },
{
    std::path::Path::new(path).file_stem().map(|s| s.to_string_lossy().into_owned())
}

/// Relies on `std::path::Path::extension`: the file name's extension, a
/// function of the path alone.
#[verifier::external_body]
fn path_extension(path: &str) -> (r: Option<String>)
    ensures
        match r {
            Some(s) => extension_of(path@) == Some(s@),
            None => extension_of(path@) is None,
        },
{
    std::path::Path::new(path).extension().map(|s| s.to_string_lossy().into_owned())
}

/// The marker of the newer schema generation in a file name.
pub open spec fn marker() -> Seq<char> {
    ".cd2"@
}

/// The source path with the marker put before its extension, directory
/// kept: `dir/foo.json` gives `dir/foo.cd2.json`, `dir/foo` gives
/// `dir/foo.cd2`. `None` where the path names no file, or does not end with
/// its file name (a final `/` or `.`).
pub open spec fn default_name(source: Seq<char>) -> Option<Seq<char>> {
    match stem_of(source) {
        None => None,
        Some(_) => match extension_of(source) {
            Some(ext) => if ends_with(source, "."@ + ext) {
                Some(source.take(source.len() - ext.len() - 1) + marker() + ("."@ + ext))
            } else {
                None
            },
            None => if source.len() > 0 && source.last() != '/' && source.last() != '.' {
                Some(source + marker())
            } else {
                None
            },
        },
    }
}

/// The name that the converted file takes: the one given, or the default
/// derived from the source path.
pub open spec fn target_name(source: Seq<char>, target: Option<Seq<char>>) -> Option<Seq<char>> {
    match target {
        Some(t) => Some(t),
        None => default_name(source),
    }
}

pub open spec fn opt_view(o: Option<&str>) -> Option<Seq<char>> {
    match o {
        Some(t) => Some(t@),
        None => None,
    }
}

/// The name of the file to write.
pub fn file_name(source: &str, target: Option<&str>) -> (r: Option<String>)
    ensures
        match r {
            Some(s) => target_name(source@, opt_view(target)) == Some(s@),
            None => target_name(source@, opt_view(target)) is None,
        },
{
    match target {
        Some(name) => Some(name.to_string()),
        None => match path_stem(source) {
            None => None,
            Some(_) => {
                let src = chars_of(source);
                let mark = chars_of(".cd2");
                match path_extension(source) {
                    Some(ext) => {
                        let mut dot_ext = chars_of(".");
                        let e = chars_of(ext.as_str());
                        push_chars(&mut dot_ext, &e);
                        if !has_suffix(&src, &dot_ext) {
                            return None;
                        }
                        let mut cs = sub_chars(&src, 0, src.len() - dot_ext.len());
                        proof {
                            reveal_strlit(".");
                            assert(cs@ =~= source@.take(source@.len() - ext@.len() - 1));
                        }
                        push_chars(&mut cs, &mark);
                        push_chars(&mut cs, &dot_ext);
                        proof {
                            assert(cs@ =~= source@.take(source@.len() - ext@.len() - 1) + marker() + (
                            "."@ + ext@));
                        }
                        Some(string_of(&cs))
                    },
                    None => {
                        let n = src.len();
                        if n == 0 || src[n - 1] == '/' || src[n - 1] == '.' {
                            return None;
                        }
                        let mut cs = sub_chars(&src, 0, n);
                        push_chars(&mut cs, &mark);
                        proof {
                            assert(src@.subrange(0, n as int) =~= source@);
                        }
                        Some(string_of(&cs))
                    },
                }
            },
        },
    }
}

} // verus!
