//! The page parser: deciding whether a body is markup, and the two
//! extraction rules that turn directory markup into entries.
//!
//! Both rules are total: markup that fits neither shape yields an empty
//! entry list, never an error.  Each rule has a functional specification
//! over `Seq<char>`, and the executable scanners are proved to return
//! exactly the specified entries.

use vstd::prelude::*;

use crate::text::{
    append_chars, chars_to_string, contains_char, contains_char_x, find_pat, find_pat_x,
    has_prefix, has_prefix_ci, lemma_find_pat, lemma_prefix_ci_shift,
    matches_ci_at_x, scan_to_space, scan_to_space_x, seq_eq_x, skip_spaces, skip_spaces_x,
    rskip_slashes, rskip_slashes_x, str_to_chars, strip_tags, strip_tags_x,
    strip_trailing_slashes, subrange_vec, trim_seq, trim_start_seq, trim_vec, upper_seq,
    upper_vec,
};

verus! {

/// One entry of a directory listing: a display name, the absolute location
/// it leads to, an optional annotation, and whether it is a directory.
#[derive(Debug, Clone)]
pub struct DirEntry {
    pub name: String,
    pub url: String,
    pub description: String,
    pub is_dir: bool,
}

/// The mathematical shape of an entry: its strings as character sequences.
pub ghost struct EntryV {
    pub name: Seq<char>,
    pub url: Seq<char>,
    pub description: Seq<char>,
    pub is_dir: bool,
}

impl View for DirEntry {
    type V = EntryV;

    open spec fn view(&self) -> EntryV {
        EntryV {
            name: self.name@,
            url: self.url@,
            description: self.description@,
            is_dir: self.is_dir,
        }
    }
}

/// The entries of a sequence, each as its mathematical shape.
pub open spec fn entries_view(es: Seq<DirEntry>) -> Seq<EntryV> {
    es.map_values(|e: DirEntry| e@)
}

proof fn lemma_entries_view_push(es: Seq<DirEntry>, e: DirEntry)
    ensures
        entries_view(es.push(e)) == entries_view(es).push(e@),
{
    assert(entries_view(es.push(e)) =~= entries_view(es).push(e@));
}

pub open spec fn pat_td_open() -> Seq<char> {
    "<td"@
}

pub open spec fn pat_td_close() -> Seq<char> {
    "</td"@
}

pub open spec fn pat_tr_open() -> Seq<char> {
    "<tr"@
}

pub open spec fn pat_tr_close() -> Seq<char> {
    "</tr"@
}

pub open spec fn pat_a_open() -> Seq<char> {
    "<a"@
}

pub open spec fn pat_a_close() -> Seq<char> {
    "</a"@
}

pub open spec fn pat_i_open() -> Seq<char> {
    "<i"@
}

pub open spec fn pat_i_close() -> Seq<char> {
    "</i"@
}

pub open spec fn pat_title_open() -> Seq<char> {
    "<title"@
}

pub open spec fn pat_title_close() -> Seq<char> {
    "</title"@
}

pub open spec fn pat_gt() -> Seq<char> {
    ">"@
}

pub open spec fn pat_href() -> Seq<char> {
    "href"@
}

/// The root under which the top-level directory resolves its children.
pub open spec fn site_root() -> Seq<char> {
    "http://textfiles.com/"@
}

/// The value of the `href` attribute inside one tag, if the tag has one:
/// after the attribute name come optional spaces, `=`, optional spaces,
/// then a quoted value, or a bare value running to the next space.
pub open spec fn attr_href(tag: Seq<char>) -> Option<Seq<char>> {
    match find_pat(tag, 0, pat_href(), true) {
        None => None,
        Some(h) => {
            let i = skip_spaces(tag, h + pat_href().len());
            if i < tag.len() && tag[i] == '=' {
                let j = skip_spaces(tag, i + 1);
                if j < tag.len() && (tag[j] == '"' || tag[j] == '\'') {
                    match find_pat(tag, j + 1, seq![tag[j]], false) {
                        Some(k) => Some(tag.subrange(j + 1, k)),
                        None => Some(tag.subrange(j + 1, tag.len() as int)),
                    }
                } else {
                    Some(tag.subrange(j, scan_to_space(tag, j)))
                }
            } else {
                None
            }
        },
    }
}

/// Exec counterpart of `attr_href`.
pub fn attr_href_x(tag: &[char]) -> (r: Option<Vec<char>>)
    ensures
        match r {
            Some(v) => attr_href(tag@) == Some(v@),
            None => attr_href(tag@) is None,
        },
{
    let n = tag.len();
    let hp = str_to_chars("href");
    match find_pat_x(tag, 0, hp.as_slice(), true) {
        None => None,
        Some(h) => {
            proof {
                lemma_find_pat(tag@, 0, pat_href(), true);
            }
            let i = skip_spaces_x(tag, h + hp.len());
            if i < n {
                let ci = tag[i];
                if ci == '=' {
                    let j = skip_spaces_x(tag, i + 1);
                    if j < n && (tag[j] == '"' || tag[j] == '\'') {
                        let mut q: Vec<char> = Vec::new();
                        q.push(tag[j]);
                        assert(q@ =~= seq![tag@[j as int]]);
                        match find_pat_x(tag, j + 1, q.as_slice(), false) {
                            Some(k) => {
                                proof {
                                    lemma_find_pat(tag@, j + 1, seq![tag@[j as int]], false);
                                }
                                Some(subrange_vec(tag, j + 1, k))
                            },
                            None => Some(subrange_vec(tag, j + 1, n)),
                        }
                    } else {
                        let k = scan_to_space_x(tag, j);
                        Some(subrange_vec(tag, j, k))
                    }
                } else {
                    None
                }
            } else {
                None
            }
        },
    }
}

/// The content range of a cell- or row-like region: `p` is the position of
/// the opening pattern; the content runs from just past the tag's `>` to
/// the next opening or closing pattern of the same name, or to the end.
pub open spec fn region_bounds(s: Seq<char>, p: int, opent: Seq<char>, closet: Seq<char>) -> (
    int,
    int,
) {
    let lo = match find_pat(s, p, pat_gt(), false) {
        Some(g) => g + 1,
        None => s.len() as int,
    };
    let hi = match (find_pat(s, lo, opent, true), find_pat(s, lo, closet, true)) {
        (Some(x), Some(y)) => if x <= y {
            x
        } else {
            y
        },
        (Some(x), None) => x,
        (None, Some(y)) => y,
        (None, None) => s.len() as int,
    };
    (lo, hi)
}

pub proof fn lemma_region_bounds(s: Seq<char>, p: int, opent: Seq<char>, closet: Seq<char>)
    requires
        0 <= p < s.len(),
    ensures
        ({
            let (lo, hi) = region_bounds(s, p, opent, closet);
            p < lo <= hi <= s.len()
        }),
{
    lemma_find_pat(s, p, pat_gt(), false);
    let lo = match find_pat(s, p, pat_gt(), false) {
        Some(g) => g + 1,
        None => s.len() as int,
    };
    lemma_find_pat(s, lo, opent, true);
    lemma_find_pat(s, lo, closet, true);
}

/// Exec counterpart of `region_bounds`.
fn region_bounds_x(s: &[char], p: usize, opent: &[char], closet: &[char], gt: &[char]) -> (r: (
    usize,
    usize,
))
    requires
        p < s@.len(),
        gt@ == pat_gt(),
    ensures
        ({
            let (lo, hi) = region_bounds(s@, p as int, opent@, closet@);
            r.0 == lo && r.1 == hi && p < r.0 <= r.1 <= s@.len()
        }),
{
    proof {
        lemma_region_bounds(s@, p as int, opent@, closet@);
    }
    let n = s.len();
    let lo = match find_pat_x(s, p, gt, false) {
        Some(g) => {
            proof {
                lemma_find_pat(s@, p as int, pat_gt(), false);
            }
            g + 1
        },
        None => n,
    };
    let x1 = find_pat_x(s, lo, opent, true);
    let y1 = find_pat_x(s, lo, closet, true);
    let hi = match (x1, y1) {
        (Some(x), Some(y)) => if x <= y {
            x
        } else {
            y
        },
        (Some(x), None) => x,
        (None, Some(y)) => y,
        (None, None) => n,
    };
    (lo, hi)
}

/// The description inside a directory cell: the text of its first italic
/// region, trimmed; empty when the cell has none.
pub open spec fn dir_cell_desc(cell: Seq<char>) -> Seq<char> {
    match find_pat(cell, 0, pat_i_open(), true) {
        None => Seq::empty(),
        Some(p) => match find_pat(cell, p, pat_gt(), false) {
            None => Seq::empty(),
            Some(g) => {
                let e = match find_pat(cell, g + 1, pat_i_close(), true) {
                    Some(x) => x,
                    None => cell.len() as int,
                };
                trim_seq(strip_tags(cell.subrange(g + 1, e)))
            },
        },
    }
}

/// Exec counterpart of `dir_cell_desc`.
fn dir_cell_desc_x(cell: &[char]) -> (r: Vec<char>)
    ensures
        r@ == dir_cell_desc(cell@),
{
    let n = cell.len();
    let io = str_to_chars("<i");
    let ic = str_to_chars("</i");
    let gt = str_to_chars(">");
    match find_pat_x(cell, 0, io.as_slice(), true) {
        None => Vec::new(),
        Some(p) => {
            match find_pat_x(cell, p, gt.as_slice(), false) {
                None => Vec::new(),
                Some(g) => {
                    proof {
                        lemma_find_pat(cell@, p as int, pat_gt(), false);
                    }
                    let e = match find_pat_x(cell, g + 1, ic.as_slice(), true) {
                        Some(x) => x,
                        None => cell.len(),
                    };
                    proof {
                        lemma_find_pat(cell@, g + 1, pat_i_close(), true);
                    }
                    let inner = subrange_vec(cell, g + 1, e);
                    let stripped = strip_tags_x(inner.as_slice());
                    trim_vec(stripped.as_slice())
                },
            }
        },
    }
}

/// The entry one cell of the top-level directory page yields, if any: the
/// cell's first link, whose target must be a bare child name (no dot,
/// slash or colon), with a name of 1 to 50 characters, resolved under the
/// site root.
pub open spec fn dir_cell_entry(cell: Seq<char>) -> Option<EntryV> {
    match find_pat(cell, 0, pat_a_open(), true) {
        None => None,
        Some(a) => match find_pat(cell, a, pat_gt(), false) {
            None => None,
            Some(g) => match attr_href(cell.subrange(a, g)) {
                None => None,
                Some(h) => {
                    if h.len() == 0 || contains_char(h, '.') || contains_char(h, '/')
                        || contains_char(h, ':') {
                        None
                    } else {
                        let te = match find_pat(cell, g + 1, pat_a_close(), true) {
                            Some(x) => x,
                            None => cell.len() as int,
                        };
                        let name = trim_seq(strip_tags(cell.subrange(g + 1, te)));
                        if name.len() == 0 || name.len() > 50 {
                            None
                        } else {
                            Some(
                                EntryV {
                                    name,
                                    url: site_root() + h + "/"@,
                                    description: dir_cell_desc(cell),
                                    is_dir: true,
                                },
                            )
                        }
                    }
                },
            },
        },
    }
}

/// Exec counterpart of `dir_cell_entry`.
fn dir_cell_entry_x(cell: &[char]) -> (r: Option<DirEntry>)
    ensures
        match r {
            Some(e) => dir_cell_entry(cell@) == Some(e@),
            None => dir_cell_entry(cell@) is None,
        },
{
    let n = cell.len();
    let ao = str_to_chars("<a");
    let gt = str_to_chars(">");
    let a = match find_pat_x(cell, 0, ao.as_slice(), true) {
        Some(a) => a,
        None => {
            return None;
        },
    };
    let g = match find_pat_x(cell, a, gt.as_slice(), false) {
        Some(g) => g,
        None => {
            return None;
        },
    };
    proof {
        lemma_find_pat(cell@, 0, pat_a_open(), true);
        lemma_find_pat(cell@, a as int, pat_gt(), false);
    }
    let tag = subrange_vec(cell, a, g);
    let h = match attr_href_x(tag.as_slice()) {
        Some(h) => h,
        None => {
            return None;
        },
    };
    if h.len() == 0 || contains_char_x(h.as_slice(), '.') || contains_char_x(h.as_slice(), '/')
        || contains_char_x(h.as_slice(), ':') {
        return None;
    }
    let ac = str_to_chars("</a");
    let te = match find_pat_x(cell, g + 1, ac.as_slice(), true) {
        Some(x) => x,
        None => cell.len(),
    };
    proof {
        lemma_find_pat(cell@, g + 1, pat_a_close(), true);
    }
    let raw = subrange_vec(cell, g + 1, te);
    let stripped = strip_tags_x(raw.as_slice());
    let name = trim_vec(stripped.as_slice());
    if name.len() == 0 || name.len() > 50 {
        return None;
    }
    let desc = dir_cell_desc_x(cell);
    let mut u = str_to_chars("http://textfiles.com/");
    append_chars(&mut u, h.as_slice());
    u.push('/');
    proof {
        reveal_strlit("/");
        assert(u@ =~= site_root() + h@ + "/"@);
    }
    Some(
        DirEntry {
            name: chars_to_string(name.as_slice()),
            url: chars_to_string(u.as_slice()),
            description: chars_to_string(desc.as_slice()),
            is_dir: true,
        },
    )
}

/// Entries of the top-level directory page, scanning cells from `from`.
pub open spec fn dir_entries_from(s: Seq<char>, from: int) -> Seq<EntryV>
    decreases s.len() - from,
    via dir_entries_from_dec
{
    match find_pat(s, from, pat_td_open(), true) {
        None => Seq::empty(),
        Some(p) => {
            let (lo, hi) = region_bounds(s, p, pat_td_open(), pat_td_close());
            let rest = dir_entries_from(s, hi);
            match dir_cell_entry(s.subrange(lo, hi)) {
                Some(e) => seq![e] + rest,
                None => rest,
            }
        },
    }
}

#[via_fn]
proof fn dir_entries_from_dec(s: Seq<char>, from: int) {
    if 0 <= from {
        lemma_find_pat(s, from, pat_td_open(), true);
        if let Some(p) = find_pat(s, from, pat_td_open(), true) {
            lemma_region_bounds(s, p, pat_td_open(), pat_td_close());
        }
    }
}

/// All entries of the top-level directory page.
pub open spec fn dir_entries(body: Seq<char>) -> Seq<EntryV> {
    dir_entries_from(body, 0)
}

/// A link target fit for the directory layout: non-empty, and free of
/// dots, slashes and colons.
pub open spec fn dir_href_ok(h: Seq<char>) -> bool {
    h.len() > 0 && !contains_char(h, '.') && !contains_char(h, '/') && !contains_char(h, ':')
}

/// What holds of every entry the directory layout emits: it is a
/// directory, its name has 1 to 50 characters, and its location is the
/// site root with a clean child segment and a trailing slash appended.
pub open spec fn dir_entry_wf(e: EntryV) -> bool {
    &&& e.is_dir
    &&& 1 <= e.name.len() <= 50
    &&& exists|h: Seq<char>| #[trigger] dir_href_ok(h) && e.url == site_root() + h + "/"@
}

proof fn lemma_dir_cell_entry_wf(cell: Seq<char>)
    ensures
        dir_cell_entry(cell) matches Some(e) ==> dir_entry_wf(e),
{
    match find_pat(cell, 0, pat_a_open(), true) {
        None => {},
        Some(a) => match find_pat(cell, a, pat_gt(), false) {
            None => {},
            Some(g) => match attr_href(cell.subrange(a, g)) {
                None => {},
                Some(h) => {
                    if !(h.len() == 0 || contains_char(h, '.') || contains_char(h, '/')
                        || contains_char(h, ':')) {
                        let te = match find_pat(cell, g + 1, pat_a_close(), true) {
                            Some(x) => x,
                            None => cell.len() as int,
                        };
                        let name = trim_seq(strip_tags(cell.subrange(g + 1, te)));
                        if !(name.len() == 0 || name.len() > 50) {
                            assert(dir_href_ok(h));
                        }
                    }
                },
            },
        },
    }
}

/// The directory layout never emits an entry whose link target holds a
/// dot, a slash or a colon, nor one with an empty or over-long name.
pub proof fn lemma_dir_entries_wf(s: Seq<char>, from: int)
    requires
        0 <= from,
    ensures
        forall|k: int|
            0 <= k < dir_entries_from(s, from).len() ==> dir_entry_wf(
                #[trigger] dir_entries_from(s, from)[k],
            ),
    decreases s.len() - from,
{
    lemma_find_pat(s, from, pat_td_open(), true);
    match find_pat(s, from, pat_td_open(), true) {
        None => {},
        Some(p) => {
            lemma_region_bounds(s, p, pat_td_open(), pat_td_close());
            let (lo, hi) = region_bounds(s, p, pat_td_open(), pat_td_close());
            lemma_dir_cell_entry_wf(s.subrange(lo, hi));
            lemma_dir_entries_wf(s, hi);
            let rest = dir_entries_from(s, hi);
            let whole = dir_entries_from(s, from);
            assert forall|k: int| 0 <= k < whole.len() implies dir_entry_wf(whole[k]) by {
                match dir_cell_entry(s.subrange(lo, hi)) {
                    Some(e) => {
                        if k > 0 {
                            assert(whole[k] == rest[k - 1]);
                        }
                    },
                    None => {
                        assert(whole[k] == rest[k]);
                    },
                }
            }
        },
    }
}

/// Extract the entries of the top-level directory page. (directory layout)
pub fn parse_directory_html(html: &str) -> (r: Vec<DirEntry>)
    ensures
        entries_view(r@) == dir_entries(html@),
        forall|k: int|
            0 <= k < dir_entries(html@).len() ==> dir_entry_wf(#[trigger] dir_entries(html@)[k]),
{
    proof {
        lemma_dir_entries_wf(html@, 0);
        assert forall|k: int|
            0 <= k < dir_entries(html@).len() implies dir_entry_wf(
            #[trigger] dir_entries(html@)[k],
        ) by {
            assert(dir_entries(html@)[k] == dir_entries_from(html@, 0)[k]);
        }
    }
    let cs = str_to_chars(html);
    let s: &[char] = cs.as_slice();
    let tdo = str_to_chars("<td");
    let tdc = str_to_chars("</td");
    let gt = str_to_chars(">");
    let mut r: Vec<DirEntry> = Vec::new();
    let mut i: usize = 0;
    proof {
        assert(entries_view(r@) + dir_entries_from(s@, 0) =~= dir_entries_from(s@, 0));
    }
    loop
        invariant
            s@ == html@,
            tdo@ == pat_td_open(),
            tdc@ == pat_td_close(),
            gt@ == pat_gt(),
            i <= s@.len(),
            entries_view(r@) + dir_entries_from(s@, i as int) == dir_entries(html@),
            forall|k: int|
                0 <= k < dir_entries(html@).len() ==> dir_entry_wf(
                    #[trigger] dir_entries(html@)[k],
                ),
        decreases s@.len() - i,
    {
        let p = match find_pat_x(s, i, tdo.as_slice(), true) {
            Some(p) => p,
            None => {
                assert(dir_entries_from(s@, i as int) =~= Seq::<EntryV>::empty());
                assert(entries_view(r@) =~= entries_view(r@) + Seq::<EntryV>::empty());
                return r;
            },
        };
        proof {
            lemma_find_pat(s@, i as int, pat_td_open(), true);
        }
        let (lo, hi) = region_bounds_x(s, p, tdo.as_slice(), tdc.as_slice(), gt.as_slice());
        let cell = subrange_vec(s, lo, hi);
        let ghost prev = r@;
        match dir_cell_entry_x(cell.as_slice()) {
            Some(e) => {
                proof {
                    lemma_entries_view_push(prev, e);
                }
                r.push(e);
                proof {
                    let ghost ev = e@;
                    assert(dir_entries_from(s@, i as int) == seq![ev] + dir_entries_from(
                        s@,
                        hi as int,
                    ));
                    assert(entries_view(r@) + dir_entries_from(s@, hi as int)
                        =~= entries_view(prev) + (seq![ev] + dir_entries_from(s@, hi as int)));
                }
            },
            None => {
                proof {
                    assert(dir_entries_from(s@, i as int) == dir_entries_from(s@, hi as int));
                }
            },
        }
        i = hi;
    }
}

/// Content ranges of the cells of one row.
pub open spec fn row_cells_from(row: Seq<char>, from: int) -> Seq<(int, int)>
    decreases row.len() - from,
    via row_cells_from_dec
{
    match find_pat(row, from, pat_td_open(), true) {
        None => Seq::empty(),
        Some(p) => {
            let (lo, hi) = region_bounds(row, p, pat_td_open(), pat_td_close());
            seq![(lo, hi)] + row_cells_from(row, hi)
        },
    }
}

#[via_fn]
proof fn row_cells_from_dec(row: Seq<char>, from: int) {
    if 0 <= from {
        lemma_find_pat(row, from, pat_td_open(), true);
        if let Some(p) = find_pat(row, from, pat_td_open(), true) {
            lemma_region_bounds(row, p, pat_td_open(), pat_td_close());
        }
    }
}

pub proof fn lemma_row_cells_bounds(row: Seq<char>, from: int)
    requires
        0 <= from,
    ensures
        forall|k: int|
            0 <= k < row_cells_from(row, from).len() ==> {
                let c = #[trigger] row_cells_from(row, from)[k];
                0 <= c.0 <= c.1 <= row.len()
            },
    decreases row.len() - from,
{
    lemma_find_pat(row, from, pat_td_open(), true);
    match find_pat(row, from, pat_td_open(), true) {
        None => {},
        Some(p) => {
            lemma_region_bounds(row, p, pat_td_open(), pat_td_close());
            let (lo, hi) = region_bounds(row, p, pat_td_open(), pat_td_close());
            lemma_row_cells_bounds(row, hi);
            let rest = row_cells_from(row, hi);
            let whole = row_cells_from(row, from);
            assert forall|k: int|
                0 <= k < whole.len() implies 0 <= (#[trigger] whole[k]).0 <= whole[k].1
                <= row.len() by {
                if k > 0 {
                    assert(whole[k] == rest[k - 1]);
                }
            }
        },
    }
}

/// The ranges of a cell vector, as mathematical pairs.
pub open spec fn cells_view(v: Seq<(usize, usize)>) -> Seq<(int, int)> {
    v.map_values(|c: (usize, usize)| (c.0 as int, c.1 as int))
}

/// Exec counterpart of `row_cells_from` started at 0.
fn row_cells_x(row: &[char]) -> (r: Vec<(usize, usize)>)
    ensures
        cells_view(r@) == row_cells_from(row@, 0),
{
    let tdo = str_to_chars("<td");
    let tdc = str_to_chars("</td");
    let gt = str_to_chars(">");
    let mut r: Vec<(usize, usize)> = Vec::new();
    let mut i: usize = 0;
    proof {
        assert(cells_view(r@) + row_cells_from(row@, 0) =~= row_cells_from(row@, 0));
    }
    loop
        invariant
            tdo@ == pat_td_open(),
            tdc@ == pat_td_close(),
            gt@ == pat_gt(),
            i <= row@.len(),
            cells_view(r@) + row_cells_from(row@, i as int) == row_cells_from(row@, 0),
        decreases row@.len() - i,
    {
        let p = match find_pat_x(row, i, tdo.as_slice(), true) {
            Some(p) => p,
            None => {
                assert(row_cells_from(row@, i as int) =~= Seq::<(int, int)>::empty());
                assert(cells_view(r@) =~= cells_view(r@) + Seq::<(int, int)>::empty());
                return r;
            },
        };
        proof {
            lemma_find_pat(row@, i as int, pat_td_open(), true);
        }
        let (lo, hi) = region_bounds_x(row, p, tdo.as_slice(), tdc.as_slice(), gt.as_slice());
        let ghost prev = r@;
        r.push((lo, hi));
        proof {
            assert(cells_view(r@) =~= cells_view(prev).push((lo as int, hi as int)));
            assert(row_cells_from(row@, i as int) == seq![(lo as int, hi as int)]
                + row_cells_from(row@, hi as int));
            assert(cells_view(r@) + row_cells_from(row@, hi as int) =~= cells_view(prev) + (seq![
                (lo as int, hi as int),
            ] + row_cells_from(row@, hi as int)));
        }
        i = hi;
    }
}

/// A link target names a scheme when, scanning from the front, a `:` ends
/// its first segment before any `/` does.
pub open spec fn scheme_qualified_from(h: Seq<char>, i: int) -> bool
    decreases h.len() - i,
{
    if i < 0 || i >= h.len() {
        false
    } else if h[i] == ':' {
        true
    } else if h[i] == '/' {
        false
    } else {
        scheme_qualified_from(h, i + 1)
    }
}

/// The target is scheme-qualified (`http:`, `ftp:`, `mailto:`, ...): a
/// `:` ends its first segment, before any `/`.
pub open spec fn scheme_qualified(h: Seq<char>) -> bool {
    scheme_qualified_from(h, 0)
}

/// Exec counterpart of `scheme_qualified`.
pub fn scheme_qualified_x(h: &[char]) -> (r: bool)
    ensures
        r == scheme_qualified(h@),
{
    let mut i: usize = 0;
    loop
        invariant
            i <= h@.len(),
            scheme_qualified(h@) == scheme_qualified_from(h@, i as int),
        decreases h@.len() - i,
    {
        if i >= h.len() {
            return false;
        }
        let c = h[i];
        if c == ':' {
            return true;
        }
        if c == '/' {
            return false;
        }
        i += 1;
    }
}

/// The entry one row of a file listing yields, if any: the first cell's
/// first link, skipping the parent marker, query links, absolute targets
/// (scheme-qualified or root-relative) and header rows; the description
/// comes from the last of at least three cells; the location joins the
/// base URL with the raw target.
pub open spec fn row_entry(row: Seq<char>, base: Seq<char>) -> Option<EntryV> {
    let cells = row_cells_from(row, 0);
    if cells.len() == 0 {
        None
    } else {
        let c0 = row.subrange(cells[0].0, cells[0].1);
        match find_pat(c0, 0, pat_a_open(), true) {
            None => None,
            Some(a) => match find_pat(c0, a, pat_gt(), false) {
                None => None,
                Some(g) => match attr_href(c0.subrange(a, g)) {
                    None => None,
                    Some(h) => {
                        if h == "../"@ || (h.len() > 0 && h[0] == '?') || scheme_qualified(h)
                            || (h.len() > 0 && h[0] == '/') {
                            None
                        } else {
                            let te = match find_pat(c0, g + 1, pat_a_close(), true) {
                                Some(x) => x,
                                None => c0.len() as int,
                            };
                            let name = trim_seq(strip_tags(c0.subrange(g + 1, te)));
                            if name.len() == 0 || name == "Name"@ || name == "Filename"@ {
                                None
                            } else {
                                let desc = if cells.len() >= 3 {
                                    trim_seq(
                                        strip_tags(
                                            row.subrange(
                                                cells[cells.len() - 1].0,
                                                cells[cells.len() - 1].1,
                                            ),
                                        ),
                                    )
                                } else {
                                    Seq::empty()
                                };
                                Some(
                                    EntryV {
                                        name: strip_trailing_slashes(name),
                                        url: strip_trailing_slashes(base) + "/"@ + h,
                                        description: desc,
                                        is_dir: h.len() > 0 && h[h.len() - 1] == '/',
                                    },
                                )
                            }
                        }
                    },
                },
            },
        }
    }
}

/// Exec counterpart of `row_entry`.
fn row_entry_x(row: &[char], base: &[char]) -> (r: Option<DirEntry>)
    ensures
        match r {
            Some(e) => row_entry(row@, base@) == Some(e@),
            None => row_entry(row@, base@) is None,
        },
{
    proof {
        lemma_row_cells_bounds(row@, 0);
    }
    let cells = row_cells_x(row);
    if cells.len() == 0 {
        return None;
    }
    let c0b = cells[0];
    proof {
        assert(cells_view(cells@)[0] == (c0b.0 as int, c0b.1 as int));
    }
    let c0v = subrange_vec(row, c0b.0, c0b.1);
    let ao = str_to_chars("<a");
    let gt = str_to_chars(">");
    let a = match find_pat_x(c0v.as_slice(), 0, ao.as_slice(), true) {
        Some(a) => a,
        None => {
            return None;
        },
    };
    let g = match find_pat_x(c0v.as_slice(), a, gt.as_slice(), false) {
        Some(g) => g,
        None => {
            return None;
        },
    };
    proof {
        lemma_find_pat(c0v@, 0, pat_a_open(), true);
        lemma_find_pat(c0v@, a as int, pat_gt(), false);
    }
    let tag = subrange_vec(c0v.as_slice(), a, g);
    let h = match attr_href_x(tag.as_slice()) {
        Some(h) => h,
        None => {
            return None;
        },
    };
    let parent = str_to_chars("../");
    if seq_eq_x(h.as_slice(), parent.as_slice()) {
        return None;
    }
    if h.len() > 0 && (h[0] == '?' || h[0] == '/') {
        return None;
    }
    if scheme_qualified_x(h.as_slice()) {
        return None;
    }
    let ac = str_to_chars("</a");
    let te = match find_pat_x(c0v.as_slice(), g + 1, ac.as_slice(), true) {
        Some(x) => x,
        None => c0v.len(),
    };
    proof {
        lemma_find_pat(c0v@, g + 1, pat_a_close(), true);
    }
    let raw = subrange_vec(c0v.as_slice(), g + 1, te);
    let stripped = strip_tags_x(raw.as_slice());
    let name = trim_vec(stripped.as_slice());
    if name.len() == 0 {
        return None;
    }
    let header1 = str_to_chars("Name");
    let header2 = str_to_chars("Filename");
    if seq_eq_x(name.as_slice(), header1.as_slice()) || seq_eq_x(
        name.as_slice(),
        header2.as_slice(),
    ) {
        return None;
    }
    let desc: Vec<char> = if cells.len() >= 3 {
        let cl = cells[cells.len() - 1];
        proof {
            assert(cells_view(cells@)[cells@.len() - 1] == (cl.0 as int, cl.1 as int));
        }
        let lastv = subrange_vec(row, cl.0, cl.1);
        let st = strip_tags_x(lastv.as_slice());
        trim_vec(st.as_slice())
    } else {
        Vec::new()
    };
    let bk = rskip_slashes_x(base);
    let mut u = subrange_vec(base, 0, bk);
    u.push('/');
    append_chars(&mut u, h.as_slice());
    proof {
        reveal_strlit("/");
        assert(u@ =~= strip_trailing_slashes(base@) + "/"@ + h@);
    }
    let nk = rskip_slashes_x(name.as_slice());
    let stored = subrange_vec(name.as_slice(), 0, nk);
    let isdir = h.len() > 0 && h[h.len() - 1] == '/';
    Some(
        DirEntry {
            name: chars_to_string(stored.as_slice()),
            url: chars_to_string(u.as_slice()),
            description: chars_to_string(desc.as_slice()),
            is_dir: isdir,
        },
    )
}

/// Entries of a file-listing page, scanning rows from `from`.
pub open spec fn listing_entries_from(s: Seq<char>, from: int, base: Seq<char>) -> Seq<EntryV>
    decreases s.len() - from,
    via listing_entries_from_dec
{
    match find_pat(s, from, pat_tr_open(), true) {
        None => Seq::empty(),
        Some(p) => {
            let (lo, hi) = region_bounds(s, p, pat_tr_open(), pat_tr_close());
            let rest = listing_entries_from(s, hi, base);
            match row_entry(s.subrange(lo, hi), base) {
                Some(e) => seq![e] + rest,
                None => rest,
            }
        },
    }
}

#[via_fn]
proof fn listing_entries_from_dec(s: Seq<char>, from: int, base: Seq<char>) {
    if 0 <= from {
        lemma_find_pat(s, from, pat_tr_open(), true);
        if let Some(p) = find_pat(s, from, pat_tr_open(), true) {
            lemma_region_bounds(s, p, pat_tr_open(), pat_tr_close());
        }
    }
}

/// All entries of a file-listing page.
pub open spec fn listing_entries(body: Seq<char>, base: Seq<char>) -> Seq<EntryV> {
    listing_entries_from(body, 0, base)
}

/// A link target fit for a file listing: not the parent marker, not a
/// query link, and not absolute — neither scheme-qualified nor
/// root-relative.  Only same-directory relative children pass.
pub open spec fn listing_href_ok(h: Seq<char>) -> bool {
    &&& h != "../"@
    &&& !(h.len() > 0 && h[0] == '?')
    &&& !scheme_qualified(h)
    &&& !(h.len() > 0 && h[0] == '/')
}

/// What holds of every entry a file listing emits: its link target passed
/// the filters, its name is a non-header link text with trailing slashes
/// stripped, its location joins the base with the target, and it is a
/// directory exactly when the target ends in a slash.
pub open spec fn listing_entry_wf(e: EntryV, base: Seq<char>) -> bool {
    exists|h: Seq<char>, n: Seq<char>|
        #![trigger listing_href_ok(h), strip_trailing_slashes(n)]
        {
            &&& listing_href_ok(h)
            &&& n.len() > 0
            &&& n != "Name"@
            &&& n != "Filename"@
            &&& e.name == strip_trailing_slashes(n)
            &&& e.url == strip_trailing_slashes(base) + "/"@ + h
            &&& e.is_dir == (h.len() > 0 && h[h.len() - 1] == '/')
        }
}

proof fn lemma_row_entry_wf(row: Seq<char>, base: Seq<char>)
    ensures
        row_entry(row, base) matches Some(e) ==> listing_entry_wf(e, base),
{
    let cells = row_cells_from(row, 0);
    if cells.len() > 0 {
        let c0 = row.subrange(cells[0].0, cells[0].1);
        match find_pat(c0, 0, pat_a_open(), true) {
            None => {},
            Some(a) => match find_pat(c0, a, pat_gt(), false) {
                None => {},
                Some(g) => match attr_href(c0.subrange(a, g)) {
                    None => {},
                    Some(h) => {
                        if !(h == "../"@ || (h.len() > 0 && h[0] == '?') || scheme_qualified(h)
                            || (h.len() > 0 && h[0] == '/')) {
                            let te = match find_pat(c0, g + 1, pat_a_close(), true) {
                                Some(x) => x,
                                None => c0.len() as int,
                            };
                            let name = trim_seq(strip_tags(c0.subrange(g + 1, te)));
                            if !(name.len() == 0 || name == "Name"@ || name == "Filename"@) {
                                assert(listing_href_ok(h));
                                let e = row_entry(row, base)->Some_0;
                                assert(e.name == strip_trailing_slashes(name));
                            }
                        }
                    },
                },
            },
        }
    }
}

/// A file listing never emits an entry for a header row (`Name` or
/// `Filename`), nor for the parent marker, a query link or an absolute
/// target — one that names a scheme or starts at the root.
pub proof fn lemma_listing_entries_wf(s: Seq<char>, from: int, base: Seq<char>)
    requires
        0 <= from,
    ensures
        forall|k: int|
            0 <= k < listing_entries_from(s, from, base).len() ==> listing_entry_wf(
                #[trigger] listing_entries_from(s, from, base)[k],
                base,
            ),
    decreases s.len() - from,
{
    lemma_find_pat(s, from, pat_tr_open(), true);
    match find_pat(s, from, pat_tr_open(), true) {
        None => {},
        Some(p) => {
            lemma_region_bounds(s, p, pat_tr_open(), pat_tr_close());
            let (lo, hi) = region_bounds(s, p, pat_tr_open(), pat_tr_close());
            lemma_row_entry_wf(s.subrange(lo, hi), base);
            lemma_listing_entries_wf(s, hi, base);
            let rest = listing_entries_from(s, hi, base);
            let whole = listing_entries_from(s, from, base);
            assert forall|k: int| 0 <= k < whole.len() implies listing_entry_wf(whole[k], base) by {
                match row_entry(s.subrange(lo, hi), base) {
                    Some(e) => {
                        if k > 0 {
                            assert(whole[k] == rest[k - 1]);
                        }
                    },
                    None => {
                        assert(whole[k] == rest[k]);
                    },
                }
            }
        },
    }
}

/// Extract the entries of a file-listing page rooted at `base_url`.
/// (file-listing layout)
pub fn parse_file_listing(html: &str, base_url: &str) -> (r: Vec<DirEntry>)
    ensures
        entries_view(r@) == listing_entries(html@, base_url@),
        forall|k: int|
            0 <= k < listing_entries(html@, base_url@).len() ==> listing_entry_wf(
                #[trigger] listing_entries(html@, base_url@)[k],
                base_url@,
            ),
{
    proof {
        lemma_listing_entries_wf(html@, 0, base_url@);
        assert forall|k: int|
            0 <= k < listing_entries(html@, base_url@).len() implies listing_entry_wf(
            #[trigger] listing_entries(html@, base_url@)[k],
            base_url@,
        ) by {
            assert(listing_entries(html@, base_url@)[k] == listing_entries_from(
                html@,
                0,
                base_url@,
            )[k]);
        }
    }
    let cs = str_to_chars(html);
    let s: &[char] = cs.as_slice();
    let bs = str_to_chars(base_url);
    let tro = str_to_chars("<tr");
    let trc = str_to_chars("</tr");
    let gt = str_to_chars(">");
    let mut r: Vec<DirEntry> = Vec::new();
    let mut i: usize = 0;
    proof {
        assert(entries_view(r@) + listing_entries_from(s@, 0, base_url@) =~= listing_entries_from(
            s@,
            0,
            base_url@,
        ));
    }
    loop
        invariant
            s@ == html@,
            bs@ == base_url@,
            tro@ == pat_tr_open(),
            trc@ == pat_tr_close(),
            gt@ == pat_gt(),
            i <= s@.len(),
            entries_view(r@) + listing_entries_from(s@, i as int, base_url@) == listing_entries(
                html@,
                base_url@,
            ),
            forall|k: int|
                0 <= k < listing_entries(html@, base_url@).len() ==> listing_entry_wf(
                    #[trigger] listing_entries(html@, base_url@)[k],
                    base_url@,
                ),
        decreases s@.len() - i,
    {
        let p = match find_pat_x(s, i, tro.as_slice(), true) {
            Some(p) => p,
            None => {
                assert(listing_entries_from(s@, i as int, base_url@) =~= Seq::<EntryV>::empty());
                assert(entries_view(r@) =~= entries_view(r@) + Seq::<EntryV>::empty());
                return r;
            },
        };
        proof {
            lemma_find_pat(s@, i as int, pat_tr_open(), true);
        }
        let (lo, hi) = region_bounds_x(s, p, tro.as_slice(), trc.as_slice(), gt.as_slice());
        let rowv = subrange_vec(s, lo, hi);
        let ghost prev = r@;
        match row_entry_x(rowv.as_slice(), bs.as_slice()) {
            Some(e) => {
                proof {
                    lemma_entries_view_push(prev, e);
                }
                r.push(e);
                proof {
                    let ghost ev = e@;
                    assert(listing_entries_from(s@, i as int, base_url@) == seq![ev]
                        + listing_entries_from(s@, hi as int, base_url@));
                    assert(entries_view(r@) + listing_entries_from(s@, hi as int, base_url@)
                        =~= entries_view(prev) + (seq![ev] + listing_entries_from(
                        s@,
                        hi as int,
                        base_url@,
                    )));
                }
            },
            None => {
                proof {
                    assert(listing_entries_from(s@, i as int, base_url@) == listing_entries_from(
                        s@,
                        hi as int,
                        base_url@,
                    ));
                }
            },
        }
        i = hi;
    }
}

/// A scheme-qualified absolute location: it begins with `http`.
pub open spec fn is_absolute_url(u: Seq<char>) -> bool {
    has_prefix(u, "http"@)
}

/// Round trip for the directory layout: every location it emits is
/// already an absolute URL, so feeding it back into a navigation needs no
/// further transformation.
pub proof fn lemma_dir_entry_location_absolute(e: EntryV)
    requires
        dir_entry_wf(e),
    ensures
        is_absolute_url(e.url),
{
    reveal_strlit("http://textfiles.com/");
    reveal_strlit("http");
    let h = choose|h: Seq<char>| #[trigger] dir_href_ok(h) && e.url == site_root() + h + "/"@;
    assert forall|i: int| 0 <= i < "http"@.len() implies e.url[i] == "http"@[i] by {
        assert(e.url[i] == site_root()[i]);
    }
}

/// Round trip for the file-listing layout: with an absolute base, every
/// location it emits is absolute as well.
pub proof fn lemma_listing_entry_location_absolute(e: EntryV, base: Seq<char>)
    requires
        listing_entry_wf(e, base),
        is_absolute_url(base),
    ensures
        is_absolute_url(e.url),
{
    reveal_strlit("http");
    reveal_strlit("/");
    let (h, n) = choose|h: Seq<char>, n: Seq<char>|
        #![trigger listing_href_ok(h), strip_trailing_slashes(n)]
        {
            &&& listing_href_ok(h)
            &&& n.len() > 0
            &&& n != "Name"@
            &&& n != "Filename"@
            &&& e.name == strip_trailing_slashes(n)
            &&& e.url == strip_trailing_slashes(base) + "/"@ + h
            &&& e.is_dir == (h.len() > 0 && h[h.len() - 1] == '/')
        };
    let t = strip_trailing_slashes(base);
    crate::text::lemma_rskip_slashes(base, base.len() as int);
    let k = rskip_slashes(base, base.len() as int);
    assert(base[3] == "http"@[3]);
    if k < 4 {
        assert(base[3] == '/');
        assert(false);
    }
    assert forall|i: int| 0 <= i < "http"@.len() implies e.url[i] == "http"@[i] by {
        assert(t[i] == base[i]);
        assert(e.url[i] == t[i]);
    }
}

/// The document's title metadata, trimmed, if a title region exists.
pub open spec fn page_title(body: Seq<char>) -> Option<Seq<char>> {
    match find_pat(body, 0, pat_title_open(), true) {
        None => None,
        Some(t) => match find_pat(body, t, pat_gt(), false) {
            None => None,
            Some(g) => {
                let e = match find_pat(body, g + 1, pat_title_close(), true) {
                    Some(x) => x,
                    None => body.len() as int,
                };
                Some(trim_seq(strip_tags(body.subrange(g + 1, e))))
            },
        },
    }
}

/// Extract the document's title metadata, trimmed.
pub fn parse_page_title(html: &str) -> (r: Option<String>)
    ensures
        match r {
            Some(t) => page_title(html@) == Some(t@),
            None => page_title(html@) is None,
        },
{
    let cs = str_to_chars(html);
    let s = cs.as_slice();
    let to = str_to_chars("<title");
    let gt = str_to_chars(">");
    let tc = str_to_chars("</title");
    let t = match find_pat_x(s, 0, to.as_slice(), true) {
        Some(t) => t,
        None => {
            return None;
        },
    };
    let g = match find_pat_x(s, t, gt.as_slice(), false) {
        Some(g) => g,
        None => {
            return None;
        },
    };
    proof {
        lemma_find_pat(s@, t as int, pat_gt(), false);
    }
    let e = match find_pat_x(s, g + 1, tc.as_slice(), true) {
        Some(x) => x,
        None => s.len(),
    };
    proof {
        lemma_find_pat(s@, g + 1, pat_title_close(), true);
    }
    let inner = subrange_vec(s, g + 1, e);
    let st = strip_tags_x(inner.as_slice());
    let tr = trim_vec(st.as_slice());
    Some(chars_to_string(tr.as_slice()))
}

/// A body is markup when its first characters after leading whitespace,
/// compared without regard to ASCII case, begin with `<!doctype` or
/// `<html>`. (classification heuristic)
pub open spec fn is_markup(body: Seq<char>) -> bool {
    has_prefix_ci(trim_start_seq(body), "<!doctype"@) || has_prefix_ci(
        trim_start_seq(body),
        "<html>"@,
    )
}

/// Decide whether a response body is markup or plain text.  Markup bodies
/// go through entry extraction; all others are shown as raw text, whatever
/// their actual shape.
pub fn classify_markup(body: &str) -> (b: bool)
    ensures
        b == is_markup(body@),
{
    let cs = str_to_chars(body);
    let s = cs.as_slice();
    let a = skip_spaces_x(s, 0);
    let d = str_to_chars("<!doctype");
    let h = str_to_chars("<html>");
    proof {
        lemma_prefix_ci_shift(s@, a as int, "<!doctype"@);
        lemma_prefix_ci_shift(s@, a as int, "<html>"@);
    }
    let n = s.len();
    let b1 = if d.len() <= n - a {
        matches_ci_at_x(s, a, d.as_slice())
    } else {
        false
    };
    let b2 = if h.len() <= n - a {
        matches_ci_at_x(s, a, h.as_slice())
    } else {
        false
    };
    b1 || b2
}

/// Start of the last `/`-separated segment of `s` before `i`: the index
/// just past the last slash, or 0.
pub open spec fn seg_start(s: Seq<char>, i: int) -> int
    decreases i,
{
    if i <= 0 || i > s.len() {
        0
    } else if s[i - 1] == '/' {
        i
    } else {
        seg_start(s, i - 1)
    }
}

/// Exec counterpart of `seg_start` applied at the end of the slice.
fn seg_start_x(s: &[char]) -> (r: usize)
    ensures
        r == seg_start(s@, s@.len() as int),
        r <= s@.len(),
{
    let mut k: usize = s.len();
    loop
        invariant
            k <= s@.len(),
            seg_start(s@, s@.len() as int) == seg_start(s@, k as int),
        decreases k,
    {
        if k == 0 {
            return k;
        }
        if s[k - 1] == '/' {
            return k;
        }
        k -= 1;
    }
}

/// Title synthesised from the URL when the markup supplies none: the last
/// path segment with trailing slashes stripped, upper-cased, or the site
/// name for a URL with no segment.
pub open spec fn synth_title(url: Seq<char>) -> Seq<char> {
    let t = strip_trailing_slashes(url);
    if t.len() == 0 {
        "TEXTFILES.COM"@
    } else {
        upper_seq(t.subrange(seg_start(t, t.len() as int), t.len() as int))
    }
}

/// Exec counterpart of `synth_title`.
pub fn synth_title_x(url: &str) -> (r: String)
    ensures
        r@ == synth_title(url@),
{
    let cs = str_to_chars(url);
    let k = rskip_slashes_x(cs.as_slice());
    let t = subrange_vec(cs.as_slice(), 0, k);
    if t.len() == 0 {
        let f = str_to_chars("TEXTFILES.COM");
        chars_to_string(f.as_slice())
    } else {
        let a = seg_start_x(t.as_slice());
        let seg = subrange_vec(t.as_slice(), a, t.len());
        let u = upper_vec(seg.as_slice());
        chars_to_string(u.as_slice())
    }
}

/// Title of a plain-text page: the last non-empty path segment of its
/// URL, or a fixed fallback for a URL with none.
pub open spec fn text_title(url: Seq<char>) -> Seq<char> {
    let t = strip_trailing_slashes(url);
    if t.len() == 0 {
        "file"@
    } else {
        t.subrange(seg_start(t, t.len() as int), t.len() as int)
    }
}

/// Exec counterpart of `text_title`.
pub fn text_title_x(url: &str) -> (r: String)
    ensures
        r@ == text_title(url@),
{
    let cs = str_to_chars(url);
    let k = rskip_slashes_x(cs.as_slice());
    let t = subrange_vec(cs.as_slice(), 0, k);
    if t.len() == 0 {
        let f = str_to_chars("file");
        chars_to_string(f.as_slice())
    } else {
        let a = seg_start_x(t.as_slice());
        let seg = subrange_vec(t.as_slice(), a, t.len());
        chars_to_string(seg.as_slice())
    }
}

} // verus!
