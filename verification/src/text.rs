//! Character-level scanning primitives shared by the page parser: character
//! classes, case-insensitive matching, substring search, tag stripping and
//! trimming, all specified over `Seq<char>`.

use vstd::prelude::*;

verus! {

/// The whitespace characters that trimming recognises.
pub open spec fn is_space(c: char) -> bool {
    c == ' ' || c == '\t' || c == '\n' || c == '\r'
}

/// Characters that may continue a tag or attribute name; a match of a name
/// pattern only counts when the next character is not one of these.
pub open spec fn is_name_char(c: char) -> bool {
    (97 <= c as u32 && c as u32 <= 122) || (65 <= c as u32 && c as u32 <= 90) || (48 <= c as u32
        && c as u32 <= 57)
}

/// The code point of `c` with an ASCII capital letter folded to lower case.
pub open spec fn lower_code(c: char) -> u32 {
    if 65 <= c as u32 && c as u32 <= 90 {
        (c as u32 + 32) as u32
    } else {
        c as u32
    }
}

/// Two characters are equal up to ASCII case.
pub open spec fn chars_eq_ci(a: char, b: char) -> bool {
    lower_code(a) == lower_code(b)
}

/// `pat` occurs at position `i` of `s`, compared up to ASCII case.
pub open spec fn matches_ci_at(s: Seq<char>, i: int, pat: Seq<char>) -> bool {
    &&& 0 <= i
    &&& i + pat.len() <= s.len()
    &&& forall|j: int| 0 <= j < pat.len() ==> chars_eq_ci(s[i + j], #[trigger] pat[j])
}

/// A match of `pat` at `i`, and when `bound` is set the match must not be
/// followed directly by a further name character (so a search for `<td`
/// does not stop inside `<tdx`).
pub open spec fn pat_at(s: Seq<char>, i: int, pat: Seq<char>, bound: bool) -> bool {
    &&& matches_ci_at(s, i, pat)
    &&& (bound ==> i + pat.len() == s.len() || !is_name_char(s[i + pat.len()]))
}

/// Position of the first occurrence of `pat` at or after `from`.
pub open spec fn find_pat(s: Seq<char>, from: int, pat: Seq<char>, bound: bool) -> Option<int>
    decreases s.len() - from,
{
    if from < 0 || from >= s.len() {
        None
    } else if pat_at(s, from, pat, bound) {
        Some(from)
    } else {
        find_pat(s, from + 1, pat, bound)
    }
}

/// What a `find_pat` result means: a hit is the first one, a miss means no
/// position at or after `from` matches.
pub proof fn lemma_find_pat(s: Seq<char>, from: int, pat: Seq<char>, bound: bool)
    requires
        0 <= from,
    ensures
        match find_pat(s, from, pat, bound) {
            Some(j) => from <= j < s.len() && j + pat.len() <= s.len() && pat_at(s, j, pat, bound)
                && forall|k: int| from <= k < j ==> !pat_at(s, k, pat, bound),
            None => forall|k: int| from <= k < s.len() ==> !pat_at(s, k, pat, bound),
        },
    decreases s.len() - from,
{
    if from < 0 || from >= s.len() {
    } else if pat_at(s, from, pat, bound) {
    } else {
        lemma_find_pat(s, from + 1, pat, bound);
    }
}

/// Exec counterpart of `lower_code`.
pub fn lower_code_x(c: char) -> (r: u32)
    ensures
        r == lower_code(c),
{
    let u = c as u32;
    if 65 <= u && u <= 90 {
        u + 32
    } else {
        u
    }
}

/// Exec counterpart of `matches_ci_at`.
pub fn matches_ci_at_x(s: &[char], i: usize, pat: &[char]) -> (b: bool)
    requires
        i + pat@.len() <= s@.len(),
    ensures
        b == matches_ci_at(s@, i as int, pat@),
{
    let n = s.len();
    let mut j: usize = 0;
    while j < pat.len()
        invariant
            j <= pat@.len(),
            i + pat@.len() <= s@.len(),
            n == s@.len(),
            forall|k: int| 0 <= k < j ==> chars_eq_ci(s@[i + k], #[trigger] pat@[k]),
        decreases pat@.len() - j,
    {
        if lower_code_x(s[i + j]) != lower_code_x(pat[j]) {
            assert(!chars_eq_ci(s@[i as int + j as int], pat@[j as int]));
            return false;
        }
        j += 1;
    }
    true
}

/// Exec counterpart of `pat_at`.
pub fn pat_at_x(s: &[char], i: usize, pat: &[char], bound: bool) -> (b: bool)
    requires
        i + pat@.len() <= s@.len(),
    ensures
        b == pat_at(s@, i as int, pat@, bound),
{
    if !matches_ci_at_x(s, i, pat) {
        return false;
    }
    if bound && pat.len() < s.len() - i {
        let c = s[i + pat.len()];
        let u = c as u32;
        let name = (97 <= u && u <= 122) || (65 <= u && u <= 90) || (48 <= u && u <= 57);
        !name
    } else {
        true
    }
}

/// Exec counterpart of `find_pat`.
pub fn find_pat_x(s: &[char], from: usize, pat: &[char], bound: bool) -> (r: Option<usize>)
    ensures
        match r {
            Some(j) => find_pat(s@, from as int, pat@, bound) == Some(j as int),
            None => find_pat(s@, from as int, pat@, bound) is None,
        },
{
    let mut i: usize = from;
    loop
        invariant
            from <= i,
            find_pat(s@, from as int, pat@, bound) == find_pat(s@, i as int, pat@, bound),
        decreases s@.len() - i,
    {
        if i >= s.len() {
            return None;
        }
        if pat.len() <= s.len() - i {
            if pat_at_x(s, i, pat, bound) {
                return Some(i);
            }
        } else {
            assert(!pat_at(s@, i as int, pat@, bound));
        }
        i += 1;
    }
}

/// Index of the first non-space character at or after `i`, or `s.len()`.
pub open spec fn skip_spaces(s: Seq<char>, i: int) -> int
    decreases s.len() - i,
{
    if i < 0 || i >= s.len() {
        s.len() as int
    } else if is_space(s[i]) {
        skip_spaces(s, i + 1)
    } else {
        i
    }
}

pub proof fn lemma_skip_spaces(s: Seq<char>, i: int)
    requires
        0 <= i <= s.len(),
    ensures
        i <= skip_spaces(s, i) <= s.len(),
        skip_spaces(s, i) < s.len() ==> !is_space(s[skip_spaces(s, i)]),
        forall|k: int| i <= k < skip_spaces(s, i) ==> is_space(s[k]),
    decreases s.len() - i,
{
    if i < s.len() && is_space(s[i]) {
        lemma_skip_spaces(s, i + 1);
    }
}

/// Exec counterpart of `skip_spaces`.
pub fn skip_spaces_x(s: &[char], i: usize) -> (r: usize)
    requires
        i <= s@.len(),
    ensures
        r == skip_spaces(s@, i as int),
        i <= r <= s@.len(),
{
    let mut k: usize = i;
    loop
        invariant
            i <= k <= s@.len(),
            skip_spaces(s@, i as int) == skip_spaces(s@, k as int),
        decreases s@.len() - k,
    {
        if k >= s.len() {
            return k;
        }
        let c = s[k];
        if c == ' ' || c == '\t' || c == '\n' || c == '\r' {
            k += 1;
        } else {
            return k;
        }
    }
}

/// One past the last non-space character before `i`, or 0.
pub open spec fn rskip_spaces(s: Seq<char>, i: int) -> int
    decreases i,
{
    if i <= 0 || i > s.len() {
        0
    } else if is_space(s[i - 1]) {
        rskip_spaces(s, i - 1)
    } else {
        i
    }
}

pub proof fn lemma_rskip_spaces(s: Seq<char>, i: int)
    requires
        0 <= i <= s.len(),
    ensures
        0 <= rskip_spaces(s, i) <= i,
        rskip_spaces(s, i) > 0 ==> !is_space(s[rskip_spaces(s, i) - 1]),
        forall|k: int| rskip_spaces(s, i) <= k < i ==> is_space(s[k]),
    decreases i,
{
    if 0 < i <= s.len() && is_space(s[i - 1]) {
        lemma_rskip_spaces(s, i - 1);
    }
}

/// Exec counterpart of `rskip_spaces`.
pub fn rskip_spaces_x(s: &[char], i: usize) -> (r: usize)
    requires
        i <= s@.len(),
    ensures
        r == rskip_spaces(s@, i as int),
        r <= i,
{
    let mut k: usize = i;
    loop
        invariant
            k <= i <= s@.len(),
            rskip_spaces(s@, i as int) == rskip_spaces(s@, k as int),
        decreases k,
    {
        if k == 0 {
            return k;
        }
        let c = s[k - 1];
        if c == ' ' || c == '\t' || c == '\n' || c == '\r' {
            k -= 1;
        } else {
            return k;
        }
    }
}

/// Index of the first whitespace character at or after `i`, or `s.len()`.
pub open spec fn scan_to_space(s: Seq<char>, i: int) -> int
    decreases s.len() - i,
{
    if i < 0 || i >= s.len() {
        s.len() as int
    } else if is_space(s[i]) {
        i
    } else {
        scan_to_space(s, i + 1)
    }
}

pub proof fn lemma_scan_to_space(s: Seq<char>, i: int)
    requires
        0 <= i <= s.len(),
    ensures
        i <= scan_to_space(s, i) <= s.len(),
    decreases s.len() - i,
{
    if i < s.len() && !is_space(s[i]) {
        lemma_scan_to_space(s, i + 1);
    }
}

/// Exec counterpart of `scan_to_space`.
pub fn scan_to_space_x(s: &[char], i: usize) -> (r: usize)
    requires
        i <= s@.len(),
    ensures
        r == scan_to_space(s@, i as int),
        i <= r <= s@.len(),
{
    proof {
        lemma_scan_to_space(s@, i as int);
    }
    let mut k: usize = i;
    loop
        invariant
            i <= k <= s@.len(),
            scan_to_space(s@, i as int) == scan_to_space(s@, k as int),
            i <= scan_to_space(s@, i as int) <= s@.len(),
        decreases s@.len() - k,
    {
        if k >= s.len() {
            return k;
        }
        let c = s[k];
        if c == ' ' || c == '\t' || c == '\n' || c == '\r' {
            return k;
        }
        k += 1;
    }
}

/// The sequence with surrounding whitespace removed.
pub open spec fn trim_seq(s: Seq<char>) -> Seq<char> {
    let a = skip_spaces(s, 0);
    let b = rskip_spaces(s, s.len() as int);
    if a <= b {
        s.subrange(a, b)
    } else {
        Seq::empty()
    }
}

/// The sequence with leading whitespace removed.
pub open spec fn trim_start_seq(s: Seq<char>) -> Seq<char> {
    s.subrange(skip_spaces(s, 0), s.len() as int)
}

/// `s` with every maximal `<`..`>` region removed; an unterminated region
/// runs to the end.  `in_tag` says whether position `i` is inside a region.
pub open spec fn strip_tags_from(s: Seq<char>, i: int, in_tag: bool) -> Seq<char>
    decreases s.len() - i,
{
    if i < 0 || i >= s.len() {
        Seq::empty()
    } else if in_tag {
        strip_tags_from(s, i + 1, s[i] != '>')
    } else if s[i] == '<' {
        strip_tags_from(s, i + 1, true)
    } else {
        seq![s[i]] + strip_tags_from(s, i + 1, false)
    }
}

/// The visible text of a markup fragment: everything outside tags.
pub open spec fn strip_tags(s: Seq<char>) -> Seq<char> {
    strip_tags_from(s, 0, false)
}

/// Exec counterpart of `strip_tags`.
pub fn strip_tags_x(s: &[char]) -> (r: Vec<char>)
    ensures
        r@ == strip_tags(s@),
{
    let mut r: Vec<char> = Vec::new();
    let mut i: usize = 0;
    let mut in_tag: bool = false;
    loop
        invariant
            i <= s@.len(),
            r@ + strip_tags_from(s@, i as int, in_tag) == strip_tags(s@),
        decreases s@.len() - i,
    {
        if i >= s.len() {
            assert(strip_tags_from(s@, i as int, in_tag) =~= Seq::<char>::empty());
            assert(r@ =~= r@ + Seq::<char>::empty());
            return r;
        }
        let c = s[i];
        if in_tag {
            in_tag = c != '>';
        } else if c == '<' {
            in_tag = true;
        } else {
            r.push(c);
            assert(r@ + strip_tags_from(s@, i + 1, false) =~= strip_tags(s@));
        }
        i += 1;
    }
}

/// Copy of the subrange `[lo, hi)` of a slice.
pub fn subrange_vec(s: &[char], lo: usize, hi: usize) -> (r: Vec<char>)
    requires
        lo <= hi <= s@.len(),
    ensures
        r@ == s@.subrange(lo as int, hi as int),
{
    let mut r: Vec<char> = Vec::new();
    let mut i: usize = lo;
    while i < hi
        invariant
            lo <= i <= hi <= s@.len(),
            r@ == s@.subrange(lo as int, i as int),
        decreases hi - i,
    {
        r.push(s[i]);
        assert(r@ =~= s@.subrange(lo as int, i + 1));
        i += 1;
    }
    r
}

/// Copy of `s` with surrounding whitespace removed.
pub fn trim_vec(s: &[char]) -> (r: Vec<char>)
    ensures
        r@ == trim_seq(s@),
{
    let a = skip_spaces_x(s, 0);
    let b = rskip_spaces_x(s, s.len());
    proof {
        lemma_skip_spaces(s@, 0);
        lemma_rskip_spaces(s@, s@.len() as int);
    }
    if a <= b {
        subrange_vec(s, a, b)
    } else {
        Vec::new()
    }
}

/// The two sequences hold the same characters.
pub open spec fn seq_eq(a: Seq<char>, b: Seq<char>) -> bool {
    a.len() == b.len() && forall|i: int| 0 <= i < a.len() ==> a[i] == b[i]
}

pub proof fn lemma_seq_eq(a: Seq<char>, b: Seq<char>)
    ensures
        seq_eq(a, b) <==> a == b,
{
    if seq_eq(a, b) {
        assert(a =~= b);
    }
}

/// Exec equality of two character slices.
pub fn seq_eq_x(a: &[char], b: &[char]) -> (r: bool)
    ensures
        r == (a@ == b@),
{
    proof {
        lemma_seq_eq(a@, b@);
    }
    if a.len() != b.len() {
        return false;
    }
    let mut i: usize = 0;
    while i < a.len()
        invariant
            i <= a@.len(),
            a@.len() == b@.len(),
            forall|k: int| 0 <= k < i ==> a@[k] == b@[k],
        decreases a@.len() - i,
    {
        if a[i] != b[i] {
            return false;
        }
        i += 1;
    }
    assert(seq_eq(a@, b@));
    true
}

/// `p` is a prefix of `s`.
pub open spec fn has_prefix(s: Seq<char>, p: Seq<char>) -> bool {
    p.len() <= s.len() && forall|i: int| 0 <= i < p.len() ==> s[i] == #[trigger] p[i]
}

/// `p` is a suffix of `s`.
pub open spec fn has_suffix(s: Seq<char>, p: Seq<char>) -> bool {
    p.len() <= s.len() && forall|i: int|
        0 <= i < p.len() ==> s[s.len() - p.len() + i] == #[trigger] p[i]
}

/// Exec counterpart of `has_suffix`.
pub fn has_suffix_x(s: &[char], p: &[char]) -> (r: bool)
    ensures
        r == has_suffix(s@, p@),
{
    if p.len() > s.len() {
        return false;
    }
    let n = s.len();
    let off = n - p.len();
    let mut i: usize = 0;
    while i < p.len()
        invariant
            i <= p@.len() <= s@.len(),
            n == s@.len(),
            off == s@.len() - p@.len(),
            forall|k: int| 0 <= k < i ==> s@[s@.len() - p@.len() + k] == #[trigger] p@[k],
        decreases p@.len() - i,
    {
        if s[off + i] != p[i] {
            return false;
        }
        i += 1;
    }
    true
}

/// `p` is a prefix of `s` up to ASCII case.
pub open spec fn has_prefix_ci(s: Seq<char>, p: Seq<char>) -> bool {
    p.len() <= s.len() && forall|i: int| 0 <= i < p.len() ==> chars_eq_ci(s[i], #[trigger] p[i])
}

/// A case-insensitive prefix of the tail `s.subrange(a, ..)` is the same as
/// a case-insensitive match of the pattern at position `a` of `s`.
pub proof fn lemma_prefix_ci_shift(s: Seq<char>, a: int, p: Seq<char>)
    requires
        0 <= a <= s.len(),
    ensures
        has_prefix_ci(s.subrange(a, s.len() as int), p) <==> (a + p.len() <= s.len()
            && matches_ci_at(s, a, p)),
{
    let t = s.subrange(a, s.len() as int);
    if a + p.len() <= s.len() && matches_ci_at(s, a, p) {
        assert forall|i: int| 0 <= i < p.len() implies chars_eq_ci(t[i], #[trigger] p[i]) by {
            assert(t[i] == s[a + i]);
        }
        assert(has_prefix_ci(t, p));
    }
    if has_prefix_ci(t, p) {
        assert forall|j: int| 0 <= j < p.len() implies chars_eq_ci(s[a + j], #[trigger] p[j]) by {
            assert(t[j] == s[a + j]);
        }
        assert(matches_ci_at(s, a, p));
    }
}

/// Some character of `s` equals `c`.
pub open spec fn contains_char(s: Seq<char>, c: char) -> bool {
    exists|i: int| 0 <= i < s.len() && s[i] == c
}

/// Exec counterpart of `contains_char`.
pub fn contains_char_x(s: &[char], c: char) -> (r: bool)
    ensures
        r == contains_char(s@, c),
{
    let mut i: usize = 0;
    while i < s.len()
        invariant
            i <= s@.len(),
            forall|k: int| 0 <= k < i ==> s@[k] != c,
        decreases s@.len() - i,
    {
        if s[i] == c {
            return true;
        }
        i += 1;
    }
    false
}

/// Index one past the last character of `s` that is not `/`, so that
/// `s.subrange(0, r)` is `s` with trailing slashes removed.
pub open spec fn rskip_slashes(s: Seq<char>, i: int) -> int
    decreases i,
{
    if i <= 0 || i > s.len() {
        0
    } else if s[i - 1] == '/' {
        rskip_slashes(s, i - 1)
    } else {
        i
    }
}

/// `s` with every trailing `/` removed.
pub open spec fn strip_trailing_slashes(s: Seq<char>) -> Seq<char> {
    s.subrange(0, rskip_slashes(s, s.len() as int))
}

pub proof fn lemma_rskip_slashes(s: Seq<char>, i: int)
    requires
        0 <= i <= s.len(),
    ensures
        0 <= rskip_slashes(s, i) <= i,
        rskip_slashes(s, i) > 0 ==> s[rskip_slashes(s, i) - 1] != '/',
        forall|k: int| rskip_slashes(s, i) <= k < i ==> s[k] == '/',
    decreases i,
{
    if 0 < i <= s.len() && s[i - 1] == '/' {
        lemma_rskip_slashes(s, i - 1);
    }
}

/// Exec counterpart of `rskip_slashes` applied at the end of the slice.
pub fn rskip_slashes_x(s: &[char]) -> (r: usize)
    ensures
        r == rskip_slashes(s@, s@.len() as int),
        r <= s@.len(),
{
    let mut k: usize = s.len();
    loop
        invariant
            k <= s@.len(),
            rskip_slashes(s@, s@.len() as int) == rskip_slashes(s@, k as int),
        decreases k,
    {
        if k == 0 {
            return k;
        }
        if s[k - 1] == '/' {
            k -= 1;
        } else {
            return k;
        }
    }
}

/// The characters of `s` as a vector, in order.
pub fn str_to_chars(s: &str) -> (v: Vec<char>)
    ensures
        v@ == s@,
{
    let n = s.unicode_len();
    let mut v: Vec<char> = Vec::new();
    let mut i: usize = 0;
    while i < n
        invariant
            i <= n,
            n == s@.len(),
            v@ == s@.subrange(0, i as int),
        decreases n - i,
    {
        v.push(s.get_char(i));
        assert(v@ =~= s@.subrange(0, i + 1));
        i += 1;
    }
    assert(v@ =~= s@);
    v
}

/// Append every character of `s` to `v`.
pub fn append_chars(v: &mut Vec<char>, s: &[char])
    ensures
        final(v)@ == old(v)@ + s@,
{
    assert(v@ =~= old(v)@ + s@.subrange(0, 0));
    let mut i: usize = 0;
    while i < s.len()
        invariant
            i <= s@.len(),
            v@ == old(v)@ + s@.subrange(0, i as int),
        decreases s@.len() - i,
    {
        v.push(s[i]);
        assert(v@ =~= old(v)@ + s@.subrange(0, i + 1));
        i += 1;
    }
    assert(v@ =~= old(v)@ + s@);
}

/// The ASCII upper-case counterpart of `c`.
pub open spec fn upper_char(c: char) -> char {
    if 97 <= c as u32 && c as u32 <= 122 {
        (((c as u32) - 32) as u8) as char
    } else {
        c
    }
}

/// `s` with every ASCII small letter capitalised.
pub open spec fn upper_seq(s: Seq<char>) -> Seq<char> {
    s.map_values(|c: char| upper_char(c))
}

/// Exec counterpart of `upper_char`.
pub fn upper_char_x(c: char) -> (r: char)
    ensures
        r == upper_char(c),
{
    let u = c as u32;
    if 97 <= u && u <= 122 {
        ((u - 32) as u8) as char
    } else {
        c
    }
}

/// Exec counterpart of `upper_seq`.
pub fn upper_vec(s: &[char]) -> (r: Vec<char>)
    ensures
        r@ == upper_seq(s@),
{
    let mut r: Vec<char> = Vec::new();
    let mut i: usize = 0;
    while i < s.len()
        invariant
            i <= s@.len(),
            r@.len() == i,
            forall|k: int| 0 <= k < i ==> r@[k] == upper_char(s@[k]),
        decreases s@.len() - i,
    {
        r.push(upper_char_x(s[i]));
        i += 1;
    }
    assert(r@ =~= upper_seq(s@));
    r
}

/// Relies on `String::push` of std: it appends the given character to the
/// end of the string.
pub assume_specification [String::push] (s: &mut String, ch: char)
    ensures
        final(s)@ == old(s)@.push(ch),
;

/// A string holding exactly the characters of `v`.
pub fn chars_to_string(v: &[char]) -> (s: String)
    ensures
        s@ == v@,
{
    let mut s = String::new();
    let mut i: usize = 0;
    while i < v.len()
        invariant
            i <= v@.len(),
            s@ == v@.subrange(0, i as int),
        decreases v@.len() - i,
    {
        s.push(v[i]);
        assert(s@ =~= v@.subrange(0, i + 1));
        i += 1;
    }
    assert(s@ =~= v@);
    s
}

} // verus!
