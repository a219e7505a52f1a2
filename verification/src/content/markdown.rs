//! Markdown files of a content directory.

use vstd::prelude::*;
use crate::order::{is_stable_order, is_stable_sort, stable_order};
use crate::duplicate::{permute, Duplicate};
use crate::text::{chars_of, find_last, last_index_of, slice_chars, string_of};

verus! {

/// What a failed filesystem operation reported: whether the thing was not
/// found, and the error's text.
#[derive(Debug)]
pub struct IoFailure {
    pub not_found: bool,
    pub message: String,
}

/// An entry of a directory listing: its full path and its file name.
#[derive(Debug)]
pub struct DirEntry {
    pub path: String,
    pub file_name: String,
}

/// The front matter of a document as it was read: absent, present but not
/// of the expected shape (with the reason), or read.
#[derive(Debug)]
pub enum FrontMatter<F> {
    Missing,
    Invalid(String),
    Parsed(F),
}

/// A document: its front matter and its body.
#[derive(Debug)]
pub struct Document<F> {
    pub front_matter: FrontMatter<F>,
    pub body: String,
}

/// A markdown file of a content directory: its path, its file name, and
/// its document, or why it could not be read.
#[derive(Debug)]
pub struct ContentFile<F> {
    pub path: String,
    pub file_name: String,
    pub contents: Result<Document<F>, IoFailure>,
}

/// The extension of a file name, as `Path::extension` reads it: the text
/// after the last `.`, unless the name has no `.` beyond its first
/// character, or is `..`.
pub open spec fn extension_of(name: Seq<char>) -> Option<Seq<char>> {
    if name.len() == 0 || name == seq!['.', '.'] {
        None
    } else {
        match last_index_of(name, '.') {
            Some(i) => if i > 0 { Some(name.skip(i + 1)) } else { None },
            None => None,
        }
    }
}

/// The stem of a file name, as `Path::file_stem` reads it: the text before
/// the last `.`, or the whole name when it has no `.` beyond its first
/// character; nothing for an empty name, `.` or `..`, which name no file.
pub open spec fn stem_of(name: Seq<char>) -> Option<Seq<char>> {
    if name.len() == 0 || name == seq!['.'] || name == seq!['.', '.'] {
        None
    } else {
        match last_index_of(name, '.') {
            Some(i) => if i > 0 { Some(name.take(i)) } else { Some(name) },
            None => Some(name),
        }
    }
}

/// Is a file with this name a markdown document (`.md` or `.mdx`)?
pub open spec fn is_markdown_name(name: Seq<char>) -> bool {
    extension_of(name) == Some(seq!['m', 'd']) || extension_of(name) == Some(seq!['m', 'd', 'x'])
}

fn is_dot_dot(name: &Vec<char>) -> (r: bool)
    ensures
        r == (name@ == seq!['.', '.']),
{
    let r = name.len() == 2 && name[0] == '.' && name[1] == '.';
    proof {
        if name@.len() == 2 && name@[0] == '.' && name@[1] == '.' {
            assert(name@ == seq!['.', '.']);
        }
    }
    r
}

/// The extension of a file name.
pub fn file_extension(name: &str) -> (r: Option<String>)
    ensures
        r matches Some(e) ==> extension_of(name@) == Some(e@),
        r is None ==> extension_of(name@) is None,
{
    let chars = chars_of(name);
    if chars.len() == 0 || is_dot_dot(&chars) {
        return None;
    }
    match find_last(&chars, '.') {
        Some(i) => if i > 0 {
            Some(string_of(&slice_chars(&chars, i + 1, chars.len())))
        } else {
            None
        },
        None => None,
    }
}

/// The stem of a file name.
pub fn file_stem(name: &str) -> (r: Option<String>)
    ensures
        r matches Some(s) ==> stem_of(name@) == Some(s@),
        r is None ==> stem_of(name@) is None,
{
    let chars = chars_of(name);
    if chars.len() == 0 || is_dot_dot(&chars) {
        return None;
    }
    if chars.len() == 1 && chars[0] == '.' {
        assert(chars@ == seq!['.']);
        return None;
    }
    match find_last(&chars, '.') {
        Some(i) => if i > 0 {
            Some(string_of(&slice_chars(&chars, 0, i)))
        } else {
            Some(string_of(&chars))
        },
        None => Some(string_of(&chars)),
    }
}

/// Is a file with this name a markdown document (`.md` or `.mdx`)?
pub fn is_markdown_file(name: &str) -> (r: bool)
    ensures
        r == is_markdown_name(name@),
{
    match file_extension(name) {
        Some(ext) => {
            let e = chars_of(ext.as_str());
            let r = (e.len() == 2 && e[0] == 'm' && e[1] == 'd') || (e.len() == 3 && e[0] == 'm'
                && e[1] == 'd' && e[2] == 'x');
            proof {
                if e@.len() == 2 && e@[0] == 'm' && e@[1] == 'd' {
                    assert(e@ == seq!['m', 'd']);
                }
                if e@.len() == 3 && e@[0] == 'm' && e@[1] == 'd' && e@[2] == 'x' {
                    assert(e@ == seq!['m', 'd', 'x']);
                }
            }
            r
        },
        None => false,
    }
}

/// The entries of `entries` whose file name is a markdown document's, in
/// their order.
pub open spec fn markdown_entries(entries: Seq<DirEntry>) -> Seq<DirEntry> {
    entries.filter(|e: DirEntry| is_markdown_name(e.file_name@))
}

/// The markdown files of a directory listing, ordered by file name; a
/// missing directory lists as empty when `missing_directory_is_empty`.
pub fn markdown_files(
    listing: Result<Vec<DirEntry>, IoFailure>,
    missing_directory_is_empty: bool,
) -> (r: Result<Vec<DirEntry>, IoFailure>)
    ensures
        listing matches Err(e) ==> {
            if missing_directory_is_empty && e.not_found {
                r matches Ok(v) && v@.len() == 0
            } else {
                r == Err::<Vec<DirEntry>, IoFailure>(e)
            }
        },
        listing matches Ok(entries) ==> r matches Ok(v) && is_stable_sort(
            markdown_entries(entries@),
            markdown_entries(entries@).map_values(|e: DirEntry| e.file_name),
            false,
            v@,
        ),
{
    let entries = match listing {
        Ok(entries) => entries,
        Err(e) => {
            if missing_directory_is_empty && e.not_found {
                return Ok(Vec::new());
            }
            return Err(e);
        },
    };
    let ghost all = entries@;
    let mut found: Vec<DirEntry> = Vec::new();
    let mut names: Vec<String> = Vec::new();
    for entry in it: entries
        invariant
            it.seq() == all,
            found@ == markdown_entries(all.take(it.index() as int)),
            names@.len() == found@.len(),
            forall|k: int| 0 <= k < names@.len() ==> #[trigger] names@[k]@ == found@[k].file_name@,
    {
        proof {
            reveal_with_fuel(Seq::<_>::filter, 1);
            assert(all.take(it.index() + 1).drop_last() == all.take(it.index() as int));
        }
        if is_markdown_file(entry.file_name.as_str()) {
            names.push(entry.file_name.duplicate());
            found.push(entry);
        }
    }
    assert(all.take(all.len() as int) == all);
    let order = stable_order(&names, false);
    let ghost found_view = found@;
    let ghost keys = found_view.map_values(|e: DirEntry| e.file_name);
    assert(is_stable_order(keys, false, order@)) by {
        assert forall|a: int, b: int| 0 <= a < b < order@.len() implies #[trigger] crate::order::comes_before(keys, false, order@[a] as int, order@[b] as int) by {
            assert(crate::order::comes_before(names@, false, order@[a] as int, order@[b] as int));
        }
    }
    let sorted = permute(found, &order);
    Ok(sorted)
}

} // verus!
