use vstd::prelude::*;

use crate::link::{
    lemma_split_on_nonempty, split_on, split_text, FilePart, FilePartView, HeadingPart,
    UnresolvedLink,
};
use crate::path_parts::{push_char, views};

verus! {

/// A place in a document: a line and a character in it, both counted from zero.
#[derive(Debug, Clone, Copy, PartialEq, Eq)]
pub struct Position {
    pub line: u32,
    pub character: u32,
}

/// A document open in an editor.
#[derive(Debug, Clone, PartialEq)]
pub struct Document {
    /// The root of the project that holds the document; `None` where it lies
    /// in no project and is ignored.
    pub project_root: Option<String>,
    pub path: String,
    pub version: i32,
    pub language_id: String,
    /// The text, one entry per line.
    pub lines: Vec<String>,
}

/// What an unresolved place inside a node holds, as plain sequences.
pub enum HeadingPartView {
    Heading(Seq<char>),
    PathAndHeading(Seq<Seq<char>>, Seq<char>),
}

impl View for HeadingPart {
    type V = HeadingPartView;

    open spec fn view(&self) -> HeadingPartView {
        match self {
            HeadingPart::Heading(h) => HeadingPartView::Heading(h@),
            HeadingPart::PathAndHeading(dirs, h) => HeadingPartView::PathAndHeading(views(dirs@), h@),
        }
    }
}

/// Whether a character can stand in a reference to a label.
pub open spec fn is_ref_char(c: char) -> bool {
    ('a' <= c && c <= 'z') || ('A' <= c && c <= 'Z') || ('0' <= c && c <= '9') || c == '_' || c
        == '-' || c == ':' || c == '.'
}

/// Whether a character can stand in a reference to a label.
pub fn is_typst_ref_char(c: char) -> (r: bool)
    ensures
        r == is_ref_char(c),
{
    ('a' <= c && c <= 'z') || ('A' <= c && c <= 'Z') || ('0' <= c && c <= '9') || c == '_' || c
        == '-' || c == ':' || c == '.'
}

/// The `@` that starts the reference around index `k`: going left over
/// reference characters, the first `@`; `None` where another character or
/// the start of the line comes first.
pub open spec fn scan_back(line: Seq<char>, k: int) -> Option<int>
    decreases k + 1,
{
    if k < 0 || k >= line.len() {
        None
    } else if line[k] == '@' {
        Some(k)
    } else if is_ref_char(line[k]) {
        scan_back(line, k - 1)
    } else {
        None
    }
}

/// Where the reference from index `k` ends: going right over reference
/// characters and `@`.
pub open spec fn scan_forward(line: Seq<char>, k: int) -> int
    decreases line.len() - k,
{
    if 0 <= k < line.len() && (is_ref_char(line[k]) || line[k] == '@') {
        scan_forward(line, k + 1)
    } else {
        k
    }
}

/// A list of names as a target: one name alone, or directories and a name.
pub open spec fn file_part_of(segs: Seq<Seq<char>>) -> FilePartView {
    if segs.len() == 1 {
        FilePartView::Name(segs[0])
    } else {
        FilePartView::PathAndName(segs.drop_last(), segs.last())
    }
}

/// A list of names as a place: one heading alone, or headings and a heading.
pub open spec fn heading_part_of(segs: Seq<Seq<char>>) -> HeadingPartView {
    if segs.len() == 1 {
        HeadingPartView::Heading(segs[0])
    } else {
        HeadingPartView::PathAndHeading(segs.drop_last(), segs.last())
    }
}

/// The text `@omni.` that starts a link.
pub open spec fn link_preamble() -> Seq<char> {
    seq!['@', 'o', 'm', 'n', 'i', '.']
}

/// The link under the cursor at `character` in `line`: the reference around it
/// must start with `@omni.`; what follows is a target, then optionally a `:`
/// and a place, each written as names separated by dots.
pub open spec fn cursor_link(line: Seq<char>, character: int) -> Option<(FilePartView, HeadingPartView)> {
    match scan_back(line, character) {
        None => None,
        Some(start) => {
            let end = scan_forward(line, character);
            let text = line.subrange(start, end);
            if text.len() < 6 || text.subrange(0, 6) != link_preamble() {
                None
            } else {
                let parts = split_on(text.skip(6), ':');
                let heading = if parts.len() > 1 {
                    parts[1]
                } else {
                    Seq::empty()
                };
                Some((file_part_of(split_on(parts[0], '.')), heading_part_of(split_on(heading, '.'))))
            }
        },
    }
}

/// The characters of a text.
fn chars_of(text: &str) -> (r: Vec<char>)
    ensures
        r@ == text@,
{
    let mut out: Vec<char> = Vec::new();
    for c in it: text.chars()
        invariant
            it.seq() == text@,
            out@ == text@.subrange(0, it.index() as int),
    {
        out.push(c);
        proof {
            assert(out@ =~= text@.subrange(0, it.index() as int + 1));
        }
    }
    proof {
        assert(out@ =~= text@);
    }
    out
}

/// The characters from `lo` to `hi` as a string.
fn string_of(chars: &Vec<char>, lo: usize, hi: usize) -> (r: String)
    requires
        lo <= hi <= chars@.len(),
    ensures
        r@ == chars@.subrange(lo as int, hi as int),
{
    let mut out = String::new();
    let mut k: usize = lo;
    while k < hi
        invariant
            lo <= k <= hi <= chars@.len(),
            out@ == chars@.subrange(lo as int, k as int),
        decreases hi - k,
    {
        push_char(&mut out, chars[k]);
        proof {
            assert(out@ =~= chars@.subrange(lo as int, k + 1));
        }
        k = k + 1;
    }
    out
}

/// The target that a list of names spells.
fn file_part_from(mut segs: Vec<String>) -> (r: FilePart)
    requires
        segs@.len() >= 1,
    ensures
        r@ == file_part_of(views(segs@)),
{
    let ghost sv = views(segs@);
    let name = segs.pop().unwrap();
    if segs.len() == 0 {
        FilePart::Name(name)
    } else {
        proof {
            assert(views(segs@) =~= sv.drop_last());
        }
        FilePart::PathAndName(segs, name)
    }
}

/// The place that a list of names spells.
fn heading_part_from(mut segs: Vec<String>) -> (r: HeadingPart)
    requires
        segs@.len() >= 1,
    ensures
        r@ == heading_part_of(views(segs@)),
{
    let ghost sv = views(segs@);
    let name = segs.pop().unwrap();
    if segs.len() == 0 {
        HeadingPart::Heading(name)
    } else {
        proof {
            assert(views(segs@) =~= sv.drop_last());
        }
        HeadingPart::PathAndHeading(segs, name)
    }
}

impl Document {
    /// The link under the cursor, if there is one. Only Typst documents hold
    /// links here, written `@omni.` then the target and, after a `:`, the place;
    /// such a link has no alias.
    pub fn link_under_cursor(&self, pos: Position) -> (r: Option<UnresolvedLink>)
        ensures
            self.language_id@ != seq!['t', 'y', 'p', 's', 't'] ==> r is None,
            self.language_id@ == seq!['t', 'y', 'p', 's', 't'] ==> match r {
                None => pos.line >= self.lines@.len() || cursor_link(
                    self.lines@[pos.line as int]@,
                    pos.character as int,
                ) is None,
                Some(l) => {
                    &&& pos.line < self.lines@.len()
                    &&& l.from == self.path
                    &&& l.alias is None
                    &&& l.heading_part is Some
                    &&& cursor_link(self.lines@[pos.line as int]@, pos.character as int) == Some(
                        (l.file_part@, l.heading_part->Some_0@),
                    )
                },
            },
    {
        proof {
            reveal_strlit("typst");
            assert("typst"@ =~= seq!['t', 'y', 'p', 's', 't']);
        }
        let typst = String::from_str("typst");
        if !(self.language_id == typst) {
            return None;
        }
        let line_no = pos.line as usize;
        if line_no >= self.lines.len() {
            return None;
        }
        let line = chars_of(self.lines[line_no].as_str());
        let ghost lv = line@;
        let p = pos.character as usize;

        // go left over reference characters to the `@`
        let mut start: usize = p;
        proof {
            assert(scan_back(lv, p as int) == scan_back(lv, start as int));
        }
        loop
            invariant
                line@ == lv,
                lv == self.lines@[pos.line as int]@,
                pos.line < self.lines@.len(),
                self.language_id@ == seq!['t', 'y', 'p', 's', 't'],
                p == pos.character,
                start <= p,
                scan_back(lv, p as int) == scan_back(lv, start as int),
            ensures
                line@ == lv,
                start <= p,
                start < lv.len(),
                lv[start as int] == '@',
                scan_back(lv, p as int) == scan_back(lv, start as int),
            decreases start,
        {
            if start >= line.len() {
                return None;
            }
            let c = line[start];
            if c == '@' {
                break;
            }
            if !is_typst_ref_char(c) || start == 0 {
                return None;
            }
            start = start - 1;
        }

        proof {
            assert(scan_back(lv, start as int) == Some(start as int));
            assert(p < lv.len());
        }
        // go right over reference characters and `@`
        let mut end: usize = p;
        while end < line.len() && (is_typst_ref_char(line[end]) || line[end] == '@')
            invariant
                line@ == lv,
                p <= end <= lv.len(),
                scan_forward(lv, p as int) == scan_forward(lv, end as int),
            decreases lv.len() - end,
        {
            end = end + 1;
        }
        let ghost text = lv.subrange(start as int, end as int);
        if end - start < 6 {
            return None;
        }
        if !(line[start] == '@' && line[start + 1] == 'o' && line[start + 2] == 'm' && line[start + 3]
            == 'n' && line[start + 4] == 'i' && line[start + 5] == '.') {
            proof {
                assert(text.subrange(0, 6) != link_preamble()) by {
                    if text.subrange(0, 6) == link_preamble() {
                        assert(text.subrange(0, 6)[1] == 'o');
                        assert(text.subrange(0, 6)[2] == 'm');
                        assert(text.subrange(0, 6)[3] == 'n');
                        assert(text.subrange(0, 6)[4] == 'i');
                        assert(text.subrange(0, 6)[5] == '.');
                    }
                }
            }
            return None;
        }
        proof {
            assert(text.subrange(0, 6) =~= link_preamble());
        }
        let rest = string_of(&line, start + 6, end);
        proof {
            assert(rest@ =~= text.skip(6));
        }
        let parts = split_text(rest.as_str(), ':');
        proof {
            lemma_split_on_nonempty(rest@, ':');
        }
        let file_segs = split_text(parts[0].as_str(), '.');
        let heading = if parts.len() > 1 {
            parts[1].clone()
        } else {
            String::new()
        };
        let heading_segs = split_text(heading.as_str(), '.');
        proof {
            lemma_split_on_nonempty(parts@[0]@, '.');
            lemma_split_on_nonempty(heading@, '.');
        }
        let file_part = file_part_from(file_segs);
        let heading_part = heading_part_from(heading_segs);
        Some(
            UnresolvedLink {
                from: self.path.clone(),
                file_part,
                heading_part: Some(heading_part),
                alias: None,
            },
        )
    }
}

} // verus!
