//! File names: which entries of a directory are ASS files, and what the SRT
//! file of each is called.
use vstd::prelude::*;
use vstd::string::*;
use crate::text::{chars_of, matches_at, occurs_at};

verus! {

/// One entry of a directory: its name, without any directory before it, and
/// whether it is itself a directory.
#[derive(Debug, PartialEq, Eq)]
pub struct DirectoryEntry {
    pub name: String,
    pub is_dir: bool,
}

/// The ending of the name of an ASS file.
pub open spec fn ass_ending() -> Seq<char> {
    ".ass"@
}

/// The ending of the name of an SRT file.
pub open spec fn srt_ending() -> Seq<char> {
    ".srt"@
}

/// Whether a file name has the extension `ass`: it ends in `.ass`, in lower
/// case, and at least one character stands before that dot.
pub open spec fn has_ass_extension(name: Seq<char>) -> bool {
    &&& name.len() > ass_ending().len()
    &&& occurs_at(name, name.len() - ass_ending().len(), ass_ending())
}

/// The name of the SRT file that belongs to the ASS file `name`: the same
/// name with the extension `srt` in place of `ass`.
pub open spec fn srt_name(name: Seq<char>) -> Seq<char> {
    name.take(name.len() - ass_ending().len()) + srt_ending()
}

/// Whether an entry is an ASS file: no directory, and named like one.
pub open spec fn is_ass_file(entry: DirectoryEntry) -> bool {
    !entry.is_dir && has_ass_extension(entry.name@)
}

/// The names of the ASS files among `entries`, in the order of the entries.
pub open spec fn ass_file_names(entries: Seq<DirectoryEntry>) -> Seq<Seq<char>>
    decreases entries.len(),
{
    if entries.len() == 0 {
        Seq::<Seq<char>>::empty()
    } else if is_ass_file(entries.last()) {
        ass_file_names(entries.drop_last()).push(entries.last().name@)
    } else {
        ass_file_names(entries.drop_last())
    }
}

/// The texts of a sequence of names.
pub open spec fn name_texts(names: Seq<String>) -> Seq<Seq<char>> {
    names.map_values(|name: String| name@)
}

/// Tests whether a file name has the extension `ass`.
pub fn is_ass_file_name(name: &str) -> (yes: bool)
    ensures
        yes == has_ass_extension(name@),
{
    let chars = chars_of(name);
    let ending = chars_of(".ass");
    proof {
        reveal_strlit(".ass");
    }
    chars.len() > 4 && matches_at(&chars, chars.len() - 4, &ending)
}

/// The name of the SRT file for the ASS file `name`; `None` where `name` is
/// not the name of an ASS file.
pub fn srt_file_name(name: &str) -> (res: Option<String>)
    ensures
        res is Some <==> has_ass_extension(name@),
        res matches Some(out) ==> out@ == srt_name(name@),
{
    if !is_ass_file_name(name) {
        return None;
    }
    proof {
        reveal_strlit(".ass");
    }
    let count = name.unicode_len();
    let mut out = String::from_str(name.substring_char(0, count - 4));
    out.append(".srt");
    Some(out)
}

/// Picks the ASS files among the entries of a directory and returns their
/// names, in the order of the entries.
pub fn get_ass_files(entries: &Vec<DirectoryEntry>) -> (names: Vec<String>)
    ensures
        name_texts(names@) == ass_file_names(entries@),
{
    let mut names: Vec<String> = Vec::new();
    let mut i: usize = 0;
    while i < entries.len()
        invariant
            i <= entries@.len(),
            name_texts(names@) == ass_file_names(entries@.take(i as int)),
        decreases entries.len() - i,
    {
        proof {
            assert(entries@.take(i + 1).drop_last() == entries@.take(i as int));
        }
        let entry = &entries[i];
        if !entry.is_dir && is_ass_file_name(entry.name.as_str()) {
            let ghost before = names@;
            let name = entry.name.clone();
            names.push(name);
            proof {
                assert(name_texts(names@) == name_texts(before).push(entry.name@));
            }
        }
        i += 1;
    }
    proof {
        assert(entries@.take(i as int) == entries@);
    }
    names
}

} // verus!
