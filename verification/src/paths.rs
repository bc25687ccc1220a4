//! Deriving the companion paths of an input document — the exclusion-word
//! file, the output file and the backup file — by fixed string substitution
//! on the input's file name. A path is taken literally: its file name is
//! what follows the last `/`.

use vstd::prelude::*;
use vstd::string::{StrSliceExecFns, StringExecFns};
use crate::text::{spec_ends_with, spec_starts_with, str_ends_with, str_eq, str_starts_with};

verus! {

/// Why a companion path could not be derived.
#[derive(Clone, Copy, PartialEq, Eq, Debug)]
pub enum PathError {
    /// The path has no usable file name.
    InvalidPath,
    /// The file name does not begin with the tag-file prefix.
    InvalidName,
}

/// The index where the file name begins: one past the last separator.
pub open spec fn file_name_start(p: Seq<char>) -> int
    decreases p.len(),
{
    if p.len() == 0 {
        0
    } else if p[p.len() - 1] == '/' {
        p.len() as int
    } else {
        file_name_start(p.drop_last())
    }
}

/// The file name: what follows the last separator.
pub open spec fn spec_file_name(p: Seq<char>) -> Seq<char> {
    p.skip(file_name_start(p))
}

/// The directory part: everything up to and including the last separator.
pub open spec fn spec_dir(p: Seq<char>) -> Seq<char> {
    p.take(file_name_start(p))
}

/// The first `.` at or after position `i`, or the length when there is none.
pub open spec fn first_dot_from(name: Seq<char>, i: int) -> int
    decreases name.len() - i,
{
    if i < 0 || i >= name.len() {
        name.len() as int
    } else if name[i] == '.' {
        i
    } else {
        first_dot_from(name, i + 1)
    }
}

/// Where the file prefix ends: at the first `.` that does not begin the name.
pub open spec fn prefix_end(name: Seq<char>) -> int {
    first_dot_from(name, 1)
}

/// The file prefix: the name up to its first non-leading `.`.
pub open spec fn spec_file_prefix(name: Seq<char>) -> Seq<char> {
    name.take(prefix_end(name))
}

/// A file name a companion path can be derived from: not empty and not a
/// relative-direction component.
pub open spec fn valid_file_name(name: Seq<char>) -> bool {
    name.len() > 0 && name != "."@ && name != ".."@
}

/// One past the last `/` of `p`, scanned from the end.
fn find_file_name_start(p: &str) -> (r: usize)
    ensures
        r == file_name_start(p@),
        r <= p@.len(),
{
    let len = p.unicode_len();
    let mut i = len;
    proof {
        assert(p@.take(len as int) =~= p@);
    }
    while i > 0
        invariant
            len == p@.len(),
            i <= len,
            file_name_start(p@) == file_name_start(p@.take(i as int)),
        decreases i,
    {
        if p.get_char(i - 1) == '/' {
            proof {
                assert(p@.take(i as int)[i - 1] == p@[i - 1]);
            }
            return i;
        }
        proof {
            assert(p@.take(i as int)[i - 1] == p@[i - 1]);
            assert(p@.take(i as int).drop_last() =~= p@.take(i - 1));
        }
        i = i - 1;
    }
    proof {
        assert(p@.take(0).len() == 0);
    }
    0
}

/// Where the prefix of `name` ends, scanned from its second character.
fn find_prefix_end(name: &str) -> (r: usize)
    ensures
        r == prefix_end(name@),
        r <= name@.len(),
{
    let len = name.unicode_len();
    if len == 0 {
        return 0;
    }
    let mut j: usize = 1;
    while j < len
        invariant
            len == name@.len(),
            1 <= j <= len,
            prefix_end(name@) == first_dot_from(name@, j as int),
        decreases len - j,
    {
        if name.get_char(j) == '.' {
            return j;
        }
        j = j + 1;
    }
    len
}

/// The file prefix of the path's file name, or an error when the path has no
/// usable file name.
pub fn get_input_path_prefix(input_path: &str) -> (r: Result<String, PathError>)
    ensures
        valid_file_name(spec_file_name(input_path@)) ==> (r matches Ok(p) && p@
            == spec_file_prefix(spec_file_name(input_path@))),
        !valid_file_name(spec_file_name(input_path@)) ==> r == Err::<String, _>(
            PathError::InvalidPath,
        ),
{
    let len = input_path.unicode_len();
    let fstart = find_file_name_start(input_path);
    let name = input_path.substring_char(fstart, len);
    proof {
        assert(name@ =~= spec_file_name(input_path@));
    }
    if name.unicode_len() == 0 || str_eq(name, ".") || str_eq(name, "..") {
        return Err(PathError::InvalidPath);
    }
    let pend = find_prefix_end(name);
    let prefix = name.substring_char(0, pend);
    proof {
        assert(prefix@ =~= spec_file_prefix(name@));
    }
    Ok(prefix.to_owned())
}

/// The path with its file name replaced by the file prefix followed by
/// `suffix`.
fn with_prefix_suffix(input_path: &str, suffix: &str) -> (r: Result<String, PathError>)
    ensures
        valid_file_name(spec_file_name(input_path@)) ==> (r matches Ok(p) && p@ == spec_dir(
            input_path@,
        ) + spec_file_prefix(spec_file_name(input_path@)) + suffix@),
        !valid_file_name(spec_file_name(input_path@)) ==> r == Err::<String, _>(
            PathError::InvalidPath,
        ),
{
    let len = input_path.unicode_len();
    let fstart = find_file_name_start(input_path);
    let name = input_path.substring_char(fstart, len);
    proof {
        assert(name@ =~= spec_file_name(input_path@));
    }
    if name.unicode_len() == 0 || str_eq(name, ".") || str_eq(name, "..") {
        return Err(PathError::InvalidPath);
    }
    let pend = find_prefix_end(name);
    let mut out = input_path.substring_char(0, fstart).to_owned();
    proof {
        assert(out@ =~= spec_dir(input_path@));
    }
    out.append(name.substring_char(0, pend));
    out.append(suffix);
    proof {
        assert(name@.subrange(0, pend as int) =~= spec_file_prefix(spec_file_name(input_path@)));
    }
    Ok(out)
}

/// The output path: the input's file name replaced by its prefix followed by
/// `_excluded` and the tag-file extension.
pub fn make_output_path(input_path: &str) -> (r: Result<String, PathError>)
    ensures
        valid_file_name(spec_file_name(input_path@)) ==> (r matches Ok(p) && p@ == spec_dir(
            input_path@,
        ) + spec_file_prefix(spec_file_name(input_path@)) + "_excluded.obci.tag"@),
        !valid_file_name(spec_file_name(input_path@)) ==> r == Err::<String, _>(
            PathError::InvalidPath,
        ),
{
    with_prefix_suffix(input_path, "_excluded.obci.tag")
}

/// The backup path: the input's file name replaced by its prefix followed by
/// `_backup` and the tag-file extension.
pub fn make_backup_path(input_path: &str) -> (r: Result<String, PathError>)
    ensures
        valid_file_name(spec_file_name(input_path@)) ==> (r matches Ok(p) && p@ == spec_dir(
            input_path@,
        ) + spec_file_prefix(spec_file_name(input_path@)) + "_backup.obci.tag"@),
        !valid_file_name(spec_file_name(input_path@)) ==> r == Err::<String, _>(
            PathError::InvalidPath,
        ),
{
    with_prefix_suffix(input_path, "_backup.obci.tag")
}

/// The exclusion-word-list path: the tag-file prefix of the input's file
/// name replaced by `exclude_words_`, with a `.txt` extension.
pub fn make_exclude_words_path(input_path: &str) -> (r: Result<String, PathError>)
    ensures
        ({
            let name = spec_file_name(input_path@);
            let pre = spec_file_prefix(name);
            &&& !valid_file_name(name) ==> r == Err::<String, _>(PathError::InvalidPath)
            &&& valid_file_name(name) && !spec_starts_with(pre, "N400_"@) ==> r == Err::<
                String,
                _,
            >(PathError::InvalidName)
            &&& valid_file_name(name) && spec_starts_with(pre, "N400_"@) ==> (r matches Ok(p)
                && p@ == spec_dir(input_path@) + "exclude_words_"@ + pre.skip(
                    "N400_"@.len() as int,
                ) + ".txt"@)
        }),
{
    let len = input_path.unicode_len();
    let fstart = find_file_name_start(input_path);
    let name = input_path.substring_char(fstart, len);
    proof {
        assert(name@ =~= spec_file_name(input_path@));
    }
    if name.unicode_len() == 0 || str_eq(name, ".") || str_eq(name, "..") {
        return Err(PathError::InvalidPath);
    }
    let pend = find_prefix_end(name);
    let prefix = name.substring_char(0, pend);
    proof {
        assert(prefix@ =~= spec_file_prefix(name@));
    }
    if !str_starts_with(prefix, "N400_") {
        return Err(PathError::InvalidName);
    }
    let plen = "N400_".unicode_len();
    let middle = prefix.substring_char(plen, prefix.unicode_len());
    proof {
        assert(middle@ =~= prefix@.skip("N400_"@.len() as int));
    }
    let mut out = input_path.substring_char(0, fstart).to_owned();
    proof {
        assert(out@ =~= spec_dir(input_path@));
    }
    out.append("exclude_words_");
    out.append(middle);
    out.append(".txt");
    Ok(out)
}

/// The file names the discovery step accepts: the tag-file prefix and the
/// tag-file extension.
pub fn is_tag_file_name(name: &str) -> (r: bool)
    ensures
        r == (spec_starts_with(name@, "N400_"@) && spec_ends_with(name@, ".obci.tag"@)),
{
    str_starts_with(name, "N400_") && str_ends_with(name, ".obci.tag")
}

} // verus!
