//! Pure text-layout helpers of the terminal interface: wrapping document
//! lines to a column width, and the marquee window for over-long lines.
//! The rendering loop itself lives outside the library.

use vstd::prelude::*;
use vstd::string::StringExecFns;

use crate::text::{append_chars, chars_to_string, str_to_chars, subrange_vec};

verus! {

/// The chunks of `s`, `width` characters each in order, the last possibly
/// shorter; an empty sequence yields no chunk.
pub open spec fn chunks_of(s: Seq<char>, width: nat) -> Seq<Seq<char>>
    decreases s.len(),
    when width >= 1
{
    if s.len() == 0 {
        Seq::empty()
    } else if s.len() <= width {
        seq![s]
    } else {
        seq![s.subrange(0, width as int)] + chunks_of(
            s.subrange(width as int, s.len() as int),
            width,
        )
    }
}

/// The strings of a sequence, each as its characters.
pub open spec fn strings_view(v: Seq<String>) -> Seq<Seq<char>> {
    v.map_values(|s: String| s@)
}

/// Break a line into rows of at most `width` characters.  An empty line
/// still occupies one (empty) row.
pub fn wrap_line(line: &str, width: usize) -> (r: Vec<String>)
    requires
        width >= 1,
    ensures
        line@.len() == 0 ==> r@.len() == 1 && r@[0]@ == Seq::<char>::empty(),
        line@.len() > 0 ==> strings_view(r@) == chunks_of(line@, width as nat),
{
    let cs = str_to_chars(line);
    let mut r: Vec<String> = Vec::new();
    if cs.len() == 0 {
        r.push(String::new());
        return r;
    }
    let n = cs.len();
    let mut start: usize = 0;
    proof {
        assert(cs@.subrange(0, n as int) =~= cs@);
        assert(strings_view(r@) + chunks_of(cs@, width as nat) =~= chunks_of(
            line@,
            width as nat,
        ));
    }
    loop
        invariant
            width >= 1,
            n == cs@.len(),
            cs@ == line@,
            start < n,
            strings_view(r@) + chunks_of(cs@.subrange(start as int, n as int), width as nat)
                == chunks_of(line@, width as nat),
        decreases n - start,
    {
        let ghost rest = cs@.subrange(start as int, n as int);
        let ghost prev = r@;
        if n - start <= width {
            let chunk = subrange_vec(cs.as_slice(), start, n);
            r.push(chars_to_string(chunk.as_slice()));
            proof {
                assert(chunks_of(rest, width as nat) == seq![rest]);
                assert(strings_view(r@) =~= strings_view(prev).push(rest));
                assert(strings_view(r@) =~= strings_view(prev) + seq![rest]);
            }
            return r;
        }
        let chunk = subrange_vec(cs.as_slice(), start, start + width);
        r.push(chars_to_string(chunk.as_slice()));
        proof {
            let tail = cs@.subrange(start + width, n as int);
            assert(rest.subrange(0, width as int) =~= cs@.subrange(
                start as int,
                start + width,
            ));
            assert(rest.subrange(width as int, rest.len() as int) =~= tail);
            assert(chunks_of(rest, width as nat) == seq![rest.subrange(0, width as int)]
                + chunks_of(tail, width as nat));
            assert(strings_view(r@) =~= strings_view(prev).push(cs@.subrange(
                start as int,
                start + width,
            )));
            assert(strings_view(r@) + chunks_of(tail, width as nat) =~= strings_view(prev) + (seq![
                rest.subrange(0, width as int),
            ] + chunks_of(tail, width as nat)));
        }
        start = start + width;
    }
}

/// The marquee window over `text`: when the text fits the width it is
/// shown whole; otherwise `width` characters are read, starting at
/// `offset` modulo the length of the text padded with three spaces, and
/// wrapping around that padded text.
pub open spec fn marquee_spec(text: Seq<char>, width: int, offset: int) -> Seq<char> {
    if text.len() <= width {
        text
    } else {
        let padded = text + "   "@;
        let start = offset % (padded.len() as int);
        Seq::new(width as nat, |i: int| padded[(start + i) % (padded.len() as int)])
    }
}

/// Sliding window of a line that is too long to show at once.
pub fn marquee(text: &str, width: usize, offset: usize) -> (r: String)
    requires
        text@.len() + 3 + width <= usize::MAX,
    ensures
        r@ == marquee_spec(text@, width as int, offset as int),
{
    let cs = str_to_chars(text);
    if cs.len() <= width {
        return String::from_str(text);
    }
    let mut padded = cs;
    let sp = str_to_chars("   ");
    append_chars(&mut padded, sp.as_slice());
    proof {
        reveal_strlit("   ");
    }
    let pl = padded.len();
    let start = offset % pl;
    let mut out: Vec<char> = Vec::new();
    let mut i: usize = 0;
    while i < width
        invariant
            out@.len() == i,
            i <= width,
            pl == padded@.len(),
            padded@ == text@ + "   "@,
            pl == text@.len() + 3,
            text@.len() > width,
            text@.len() + 3 + width <= usize::MAX,
            start == (offset as int) % (pl as int),
            start < pl,
            forall|k: int|
                0 <= k < i ==> out@[k] == padded@[(start + k) % (pl as int)],
        decreases width - i,
    {
        out.push(padded[(start + i) % pl]);
        i += 1;
    }
    proof {
        assert(out@ =~= marquee_spec(text@, width as int, offset as int));
    }
    chars_to_string(out.as_slice())
}

} // verus!
