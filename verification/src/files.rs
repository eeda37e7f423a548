//! Lists that stand in files, an item to a line.
use vstd::prelude::*;

use crate::error::{SpiderError, SpiderErrorView};
use crate::text::{blank, is_blank, is_white, joined, texts};

verus! {

/// What came of reading a file.
#[derive(Debug)]
pub enum FileRead {
    /// There is no such file.
    Missing,
    /// The file cannot be opened; the words of the error.
    Unreadable(String),
    /// The lines up to the first that cannot be read.
    Lines(Vec<String>),
}

/// What came of reading a file, taken by the text.
pub enum FileReadView {
    /// There is no such file.
    Missing,
    /// The file cannot be opened; the words of the error.
    Unreadable(Seq<char>),
    /// The lines up to the first that cannot be read.
    Lines(Seq<Seq<char>>),
}

impl View for FileRead {
    type V = FileReadView;

    open spec fn view(&self) -> FileReadView {
        match self {
            FileRead::Missing => FileReadView::Missing,
            FileRead::Unreadable(e) => FileReadView::Unreadable(e@),
            FileRead::Lines(lines) => FileReadView::Lines(texts(lines@)),
        }
    }
}

/// The lines that are not blank.
pub open spec fn items(lines: Seq<Seq<char>>) -> Seq<Seq<char>>
    decreases lines.len(),
{
    if lines.len() == 0 {
        Seq::empty()
    } else if is_blank(lines.last()) {
        items(lines.drop_last())
    } else {
        items(lines.drop_last()).push(lines.last())
    }
}

/// The items of a file, or the error where it has none; `missing` are the words for a
/// file that is not there.
pub open spec fn items_or_error(
    read: FileReadView,
    missing: Seq<char>,
    path: Seq<char>,
) -> Result<Seq<Seq<char>>, SpiderErrorView> {
    match read {
        FileReadView::Missing => Err(SpiderErrorView::IoError(missing + path)),
        FileReadView::Unreadable(e) => Err(SpiderErrorView::IoError(e)),
        FileReadView::Lines(lines) => Ok(items(lines)),
    }
}

/// The lines that are not blank.
fn items_of(lines: &Vec<String>) -> (r: Vec<String>)
    ensures
        texts(r@) == items(texts(lines@)),
{
    let mut r: Vec<String> = Vec::new();
    let mut i: usize = 0;
    assert(texts(lines@).take(0) =~= Seq::empty());
    assert(texts(r@) =~= Seq::empty());
    while i < lines.len()
        invariant
            i <= lines.len(),
            texts(r@) == items(texts(lines@).take(i as int)),
        decreases lines.len() - i,
    {
        let ghost all = texts(lines@);
        assert(all.take(i + 1).drop_last() =~= all.take(i as int));
        assert(all.take(i + 1).last() == lines@[i as int]@);
        if !blank(lines[i].as_str()) {
            let ghost before = texts(r@);
            r.push(lines[i].clone());
            assert(texts(r@) =~= before.push(lines@[i as int]@));
        }
        i += 1;
    }
    assert(texts(lines@).take(i as int) =~= texts(lines@));
    r
}

/// The items of a file, or the error where it has none.
pub fn load_items(read: &FileRead, missing: &str, path: &str) -> (r: Result<
    Vec<String>,
    SpiderError,
>)
    ensures
        match items_or_error(read@, missing@, path@) {
            Ok(list) => r matches Ok(v) && texts(v@) == list,
            Err(e) => r matches Err(f) && f@ == e,
        },
{
    match read {
        FileRead::Missing => Err(SpiderError::IoError(joined(missing, path))),
        FileRead::Unreadable(e) => Err(SpiderError::IoError(e.clone())),
        FileRead::Lines(lines) => Ok(items_of(lines)),
    }
}

/// A copy of a list of texts.
pub fn copy_texts(list: &Vec<String>) -> (r: Vec<String>)
    ensures
        r@ == list@,
{
    let mut r: Vec<String> = Vec::new();
    let mut i: usize = 0;
    while i < list.len()
        invariant
            i <= list.len(),
            r@ == list@.take(i as int),
        decreases list.len() - i,
    {
        r.push(list[i].clone());
        i += 1;
        assert(r@ == list@.take(i as int));
    }
    assert(r@ == list@);
    r
}

/// Whether a text has a character that is no white space.
pub open spec fn says_something(line: Seq<char>) -> bool {
    exists|k: int| 0 <= k < line.len() && !is_white(#[trigger] line[k])
}

/// The items of lines are those that say something, in their order and as they stand.
pub proof fn items_are_what_lines_say(lines: Seq<Seq<char>>)
    ensures
        items(lines) == lines.filter(|line: Seq<char>| says_something(line)),
    decreases lines.len(),
{
    let says = |line: Seq<char>| says_something(line);
    reveal(Seq::filter);
    if lines.len() > 0 {
        items_are_what_lines_say(lines.drop_last());
        let last = lines.last();
        if is_blank(last) {
            assert(!says(last));
        } else {
            let k = choose|k: int| 0 <= k < last.len() && !is_white(#[trigger] last[k]);
            assert(says(last));
        }
    } else {
        assert(lines.filter(says) =~= Seq::empty());
    }
}

/// A file's items are the lines that say something, in their order. A file that is not there
/// is an error that names its path, and one that cannot be opened the error that came.
pub proof fn files_give_their_lines(
    read: FileRead,
    missing: &str,
    path: &str,
    r: Result<Vec<String>, SpiderError>,
)
    requires
        call_ensures(load_items, (&read, missing, path), r),
    ensures
        match read {
            FileRead::Missing => r matches Err(SpiderError::IoError(e)) && e@ == missing@ + path@,
            FileRead::Unreadable(words) => r matches Err(SpiderError::IoError(e)) && e@ == words@,
            FileRead::Lines(lines) => r matches Ok(list) && texts(list@) == texts(
                lines@,
            ).filter(|line: Seq<char>| says_something(line)),
        },
{
    if let FileRead::Lines(lines) = read {
        items_are_what_lines_say(texts(lines@));
    }
}

/// A copy of a list has its texts, in their order.
pub proof fn copied_texts_are_the_same(list: Vec<String>, copy: Vec<String>)
    requires
        call_ensures(copy_texts, (&list,), copy),
    ensures
        copy@.len() == list@.len(),
        forall|i: int| 0 <= i < list@.len() ==> (#[trigger] copy@[i])@ == list@[i]@,
{
}

} // verus!
