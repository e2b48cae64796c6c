//! Navigation state and page assembly.
//!
//! The browser owns the location on display and the stack of previously
//! visited locations.  Moving is deliberately not rolled back when the
//! load that follows fails: the location always reflects the attempted
//! target, and the caller decides what to show.  The fetch itself is I/O
//! and lives outside; `load` turns a fetched body into a page and is
//! total.

use vstd::prelude::*;
use vstd::string::StrSliceExecFns;
use vstd::string::StringExecFns;

use crate::parser::{
    classify_markup, dir_entries, entries_view, is_markup, listing_entries, page_title,
    parse_directory_html, parse_file_listing, parse_page_title, synth_title, synth_title_x,
    text_title, text_title_x, DirEntry,
};
use crate::text::{has_suffix, has_suffix_x, str_to_chars};

verus! {

/// The classified content of a page: the entries of a directory listing,
/// or the raw text of a document.  Exactly one variant is populated.
#[derive(Debug, Clone)]
pub enum Content {
    Directory(Vec<DirEntry>),
    TextFile(String),
}

/// The result of a successful load: a display title and the content.
#[derive(Debug, Clone)]
pub struct Page {
    pub title: String,
    pub content: Content,
}

/// The home location: the site's top-level directory page.
pub open spec fn spec_home_url() -> Seq<char> {
    "http://textfiles.com/directory.html"@
}

/// The URL suffix that selects the directory layout over the file-listing
/// layout.
pub open spec fn dir_page_suffix() -> Seq<char> {
    "directory.html"@
}

/// The title a markup page gets: its metadata title when present and
/// non-empty, else one synthesised from the URL.
pub open spec fn markup_title(body: Seq<char>, url: Seq<char>) -> Seq<char> {
    match page_title(body) {
        Some(t) => if t.len() > 0 {
            t
        } else {
            synth_title(url)
        },
        None => synth_title(url),
    }
}

/// What `load` promises of the page assembled from `url` and `body`.
pub open spec fn page_spec(url: Seq<char>, body: Seq<char>, p: Page) -> bool {
    if is_markup(body) {
        &&& p.title@ == markup_title(body, url)
        &&& if has_suffix(url, dir_page_suffix()) {
            p.content matches Content::Directory(es) && entries_view(es@) == dir_entries(body)
        } else {
            p.content matches Content::Directory(es) && entries_view(es@) == listing_entries(
                body,
                url,
            )
        }
    } else {
        &&& p.title@ == text_title(url)
        &&& p.content matches Content::TextFile(t) && t@ == body
    }
}

/// What `navigate` does to the state: the location on display is pushed
/// as the previous one and the target becomes current.
pub open spec fn navigate_post(pre: Browser, post: Browser, url: Seq<char>) -> bool {
    &&& post.history@ == pre.history@.push(pre.current_url)
    &&& post.current_url@ == url
}

/// What `go_back` does to the state: on empty history nothing changes and
/// nothing is returned; otherwise the most recent location is popped,
/// becomes current, and is returned.
pub open spec fn go_back_post(pre: Browser, post: Browser, r: Option<String>) -> bool {
    if pre.history@.len() == 0 {
        r is None && post.current_url == pre.current_url && post.history@ == pre.history@
    } else {
        &&& r == Some(pre.history@.last())
        &&& post.current_url == pre.history@.last()
        &&& post.history@ == pre.history@.drop_last()
    }
}

/// The navigation state: the location on display and the stack of
/// previously visited locations.  The stack may hold duplicates; it is
/// never deduplicated.
pub struct Browser {
    pub history: Vec<String>,
    pub current_url: String,
}

impl Browser {
    /// A browser at the home location with no history.
    pub fn new() -> (b: Browser)
        ensures
            b.history@ == Seq::<String>::empty(),
            b.current_url@ == spec_home_url(),
    {
        Browser {
            history: Vec::new(),
            current_url: String::from_str("http://textfiles.com/directory.html"),
        }
    }

    /// Classify `body` fetched from `url` and assemble the page.
    /// Classification and both extraction rules are total, so assembling
    /// never fails; only the fetch that produced `body` can.
    pub fn load(&self, url: &str, body: &str) -> (p: Page)
        ensures
            page_spec(url@, body@, p),
    {
        if classify_markup(body) {
            let sfx = str_to_chars("directory.html");
            let cs = str_to_chars(url);
            let entries = if has_suffix_x(cs.as_slice(), sfx.as_slice()) {
                parse_directory_html(body)
            } else {
                parse_file_listing(body, url)
            };
            let title = match parse_page_title(body) {
                Some(t) => if t.as_str().unicode_len() > 0 {
                    t
                } else {
                    synth_title_x(url)
                },
                None => synth_title_x(url),
            };
            Page { title, content: Content::Directory(entries) }
        } else {
            Page { title: text_title_x(url), content: Content::TextFile(String::from_str(body)) }
        }
    }

    /// Record a move to `url`.  The change is immediate and is not rolled
    /// back if the load that follows fails: the location on display
    /// always reflects the attempted target.
    pub fn navigate(&mut self, url: &str)
        ensures
            navigate_post(*old(self), *final(self), url@),
    {
        let prev = self.current_url.clone();
        self.history.push(prev);
        self.current_url = String::from_str(url);
    }

    /// Pop the most recent location and make it current, handing it back
    /// so the caller can load it; on empty history, nothing changes and
    /// nothing is returned.  The pop stands whether or not the load that
    /// follows succeeds.
    pub fn go_back(&mut self) -> (r: Option<String>)
        ensures
            go_back_post(*old(self), *final(self), r),
    {
        match self.history.pop() {
            Some(prev) => {
                self.current_url = prev.clone();
                proof {
                    assert(final(self).history@ =~= old(self).history@.drop_last());
                }
                Some(prev)
            },
            None => None,
        }
    }

    /// The location to fetch again.  Refreshing repeats the load of the
    /// current location; it takes the state immutably, so neither the
    /// history nor the location can change, whatever the load's outcome.
    pub fn refresh(&self) -> (u: String)
        ensures
            u@ == self.current_url@,
    {
        self.current_url.clone()
    }

    /// Whether a previous location exists to go back to.
    pub fn can_go_back(&self) -> (b: bool)
        ensures
            b == (self.history@.len() > 0),
    {
        self.history.len() > 0
    }
}

/// Push/pop symmetry of navigation: after `navigate(a)`, `navigate(b)`
/// and one `go_back`, the first target `a` is on display again, and the
/// history is the starting history with the starting location pushed —
/// one navigate and one back cancel, leaving only the first navigate's
/// push in the stack depth.
pub proof fn lemma_navigate_navigate_back(
    b0: Browser,
    b1: Browser,
    b2: Browser,
    b3: Browser,
    a: Seq<char>,
    b: Seq<char>,
    r: Option<String>,
)
    requires
        navigate_post(b0, b1, a),
        navigate_post(b1, b2, b),
        go_back_post(b2, b3, r),
    ensures
        b3.current_url@ == a,
        r matches Some(u) && u@ == a,
        b3.history@ == b0.history@.push(b0.current_url),
        b3.history@.len() == b0.history@.len() + 1,
{
    assert(b2.history@.last() == b1.current_url);
    assert(b3.history@ =~= b0.history@.push(b0.current_url));
}

} // verus!
