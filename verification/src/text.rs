//! Characters and strings. Scanning is done on vectors of characters, building
//! on `String`; every contract speaks of sequences of characters.

use vstd::prelude::*;

verus! {

/// Trusted: `String::push` appends one character to the end of the string.
pub assume_specification[ String::push ](s: &mut String, c: char)
    ensures
        final(s)@ == old(s)@.push(c),
;

/// The characters with the Unicode property White_Space.
pub open spec fn is_white(c: char) -> bool {
    let u = c as u32;
    ||| 0x9 <= u <= 0xd
    ||| u == 0x20
    ||| u == 0x85
    ||| u == 0xa0
    ||| u == 0x1680
    ||| 0x2000 <= u <= 0x200a
    ||| u == 0x2028
    ||| u == 0x2029
    ||| u == 0x202f
    ||| u == 0x205f
    ||| u == 0x3000
}

/// Whether a character is white space.
pub fn is_whitespace(c: char) -> (r: bool)
    ensures
        r == is_white(c),
{
    let u: u32 = c as u32;
    (0x9 <= u && u <= 0xd) || u == 0x20 || u == 0x85 || u == 0xa0 || u == 0x1680 || (0x2000 <= u && u
        <= 0x200a) || u == 0x2028 || u == 0x2029 || u == 0x202f || u == 0x205f || u == 0x3000
}

/// The characters of a string.
pub fn chars_of(s: &str) -> (r: Vec<char>)
    ensures
        r@ == s@,
{
    let mut out: Vec<char> = Vec::new();
    for c in it: s.chars()
        invariant
            out@ == it.seq().take(it.index()),
            it.seq() == s@,
    {
        out.push(c);
    }
    out
}

/// The string of the characters `lo..hi`.
pub fn string_of(cs: &Vec<char>, lo: usize, hi: usize) -> (r: String)
    requires
        lo <= hi <= cs@.len(),
    ensures
        r@ == cs@.subrange(lo as int, hi as int),
{
    let mut out = String::new();
    for i in lo..hi
        invariant
            lo <= hi <= cs@.len(),
            out@ == cs@.subrange(lo as int, i as int),
    {
        out.push(cs[i]);
    }
    out
}

/// A string with the characters of another.
pub fn copy_of(s: &str) -> (r: String)
    ensures
        r@ == s@,
{
    let mut out = String::new();
    out.append(s);
    out
}

/// Whether two strings hold the same characters.
pub fn same(a: &str, b: &str) -> (r: bool)
    ensures
        r == (a@ == b@),
{
    let x = chars_of(a);
    let y = chars_of(b);
    if x.len() != y.len() {
        return false;
    }
    for i in 0..x.len()
        invariant
            x@ == a@,
            y@ == b@,
            x@.len() == y@.len(),
            forall|j: int| 0 <= j < i ==> x@[j] == y@[j],
    {
        if x[i] != y[i] {
            return false;
        }
    }
    assert(a@ =~= b@);
    true
}

/// A string without its leading white space.
pub open spec fn trim_start(s: Seq<char>) -> Seq<char>
    decreases s.len(),
{
    if s.len() > 0 && is_white(s[0]) {
        trim_start(s.drop_first())
    } else {
        s
    }
}

/// A string without its trailing white space.
pub open spec fn trim_end(s: Seq<char>) -> Seq<char>
    decreases s.len(),
{
    if s.len() > 0 && is_white(s.last()) {
        trim_end(s.drop_last())
    } else {
        s
    }
}

/// A string without the white space at its two ends.
pub open spec fn trimmed(s: Seq<char>) -> Seq<char> {
    trim_end(trim_start(s))
}

pub proof fn lemma_trim_start_at(s: Seq<char>, lo: int)
    requires
        0 <= lo <= s.len(),
        forall|j: int| 0 <= j < lo ==> is_white(s[j]),
        lo < s.len() ==> !is_white(s[lo]),
    ensures
        trim_start(s) == s.skip(lo),
    decreases s.len(),
{
    if lo > 0 {
        let t = s.drop_first();
        assert forall|j: int| 0 <= j < lo - 1 implies is_white(t[j]) by {
            assert(t[j] == s[j + 1]);
        }
        lemma_trim_start_at(t, lo - 1);
        assert(t.skip(lo - 1) =~= s.skip(lo));
    } else {
        assert(s.skip(0) =~= s);
    }
}

pub proof fn lemma_trim_end_at(s: Seq<char>, hi: int)
    requires
        0 <= hi <= s.len(),
        forall|j: int| hi <= j < s.len() ==> is_white(s[j]),
        0 < hi ==> !is_white(s[hi - 1]),
    ensures
        trim_end(s) == s.take(hi),
    decreases s.len(),
{
    if hi < s.len() {
        lemma_trim_end_at(s.drop_last(), hi);
        assert(s.drop_last().take(hi) =~= s.take(hi));
    } else {
        assert(s.take(hi) =~= s);
    }
}

/// A trimmed string neither begins nor ends with white space.
pub proof fn law_trimmed_has_clean_ends(s: Seq<char>)
    ensures
        trimmed(s).len() > 0 ==> !is_white(trimmed(s)[0]) && !is_white(trimmed(s).last()),
{
    lemma_trim_start_clean(s);
    lemma_trim_end_clean(trim_start(s));
}

proof fn lemma_trim_start_clean(s: Seq<char>)
    ensures
        trim_start(s).len() > 0 ==> !is_white(trim_start(s)[0]),
    decreases s.len(),
{
    if s.len() > 0 && is_white(s[0]) {
        lemma_trim_start_clean(s.drop_first());
    }
}

proof fn lemma_trim_end_clean(s: Seq<char>)
    ensures
        trim_end(s).len() > 0 ==> !is_white(trim_end(s).last()),
        trim_end(s).len() > 0 ==> trim_end(s)[0] == s[0],
    decreases s.len(),
{
    if s.len() > 0 && is_white(s.last()) {
        lemma_trim_end_clean(s.drop_last());
    }
}

/// Trimming twice is trimming once.
pub proof fn law_trim_is_idempotent(s: Seq<char>)
    ensures
        trimmed(trimmed(s)) == trimmed(s),
{
    law_trimmed_has_clean_ends(s);
    let t = trimmed(s);
    lemma_trim_start_at(t, 0);
    assert(t.skip(0) =~= t);
    lemma_trim_end_at(t, t.len() as int);
    assert(t.take(t.len() as int) =~= t);
}

/// The bounds of the trimmed part of `cs`.
pub fn trim_bounds(cs: &Vec<char>) -> (r: (usize, usize))
    ensures
        r.0 <= r.1 <= cs@.len(),
        trimmed(cs@) == cs@.subrange(r.0 as int, r.1 as int),
{
    let n: usize = cs.len();
    let mut lo: usize = 0;
    while lo < n && is_whitespace(cs[lo])
        invariant
            lo <= n,
            n == cs@.len(),
            forall|j: int| 0 <= j < lo ==> is_white(cs@[j]),
        decreases n - lo,
    {
        lo = lo + 1;
    }
    proof {
        lemma_trim_start_at(cs@, lo as int);
    }
    let ghost t = cs@.skip(lo as int);
    let mut hi: usize = n;
    while hi > lo && is_whitespace(cs[hi - 1])
        invariant
            lo <= hi <= n,
            n == cs@.len(),
            t == cs@.skip(lo as int),
            forall|j: int| hi - lo <= j < t.len() ==> is_white(t[j]),
        decreases hi,
    {
        hi = hi - 1;
        assert(t[hi - lo] == cs@[hi as int]);
    }
    proof {
        if hi > lo {
            assert(t[hi - lo - 1] == cs@[hi - 1]);
        }
        lemma_trim_end_at(t, hi - lo);
        assert(t.take(hi - lo) =~= cs@.subrange(lo as int, hi as int));
    }
    (lo, hi)
}

/// A string without the white space at its two ends.
pub fn trim(s: &str) -> (r: String)
    ensures
        r@ == trimmed(s@),
{
    let cs = chars_of(s);
    let (lo, hi) = trim_bounds(&cs);
    string_of(&cs, lo, hi)
}

/// Whether a string holds nothing but white space.
pub fn is_blank(s: &str) -> (r: bool)
    ensures
        r == (trimmed(s@).len() == 0),
{
    trim(s).as_str().is_empty()
}

/// A setting without the white space at its two ends; none where nothing is left.
pub fn non_blank(s: Option<&str>) -> (r: Option<String>)
    ensures
        match r {
            Some(t) => s is Some && t@ == trimmed(s->0@) && t@.len() > 0,
            None => s is Some ==> trimmed(s->0@).len() == 0,
        },
{
    match s {
        Some(s) => {
            let t = trim(s);
            if t.as_str().is_empty() {
                None
            } else {
                Some(t)
            }
        },
        None => None,
    }
}

/// Whether `p` stands in `s` at position `i`.
pub open spec fn stands_at(s: Seq<char>, p: Seq<char>, i: int) -> bool {
    0 <= i && i + p.len() <= s.len() && s.subrange(i, i + p.len()) == p
}

/// The first position, from `from` on, at which `p` stands in `s`.
pub open spec fn find_from(s: Seq<char>, p: Seq<char>, from: int) -> Option<int>
    decreases s.len() + 1 - from,
{
    if from + p.len() > s.len() {
        None
    } else if stands_at(s, p, from) {
        Some(from)
    } else {
        find_from(s, p, from + 1)
    }
}

/// Whether `p` stands somewhere in `s`.
pub open spec fn has(s: Seq<char>, p: Seq<char>) -> bool {
    exists|i: int| stands_at(s, p, i)
}

/// Whether `s` begins with `p`.
pub open spec fn begins(s: Seq<char>, p: Seq<char>) -> bool {
    stands_at(s, p, 0)
}

/// `find_from` gives the least position at which the pattern stands, and none
/// only where there is no such position.
pub proof fn law_find_is_first(s: Seq<char>, p: Seq<char>, from: int)
    requires
        0 <= from,
    ensures
        find_from(s, p, from) matches Some(i) ==> {
            &&& from <= i
            &&& stands_at(s, p, i)
            &&& forall|j: int| from <= j < i ==> !stands_at(s, p, j)
        },
        find_from(s, p, from) is None ==> forall|j: int| from <= j ==> !stands_at(s, p, j),
    decreases s.len() + 1 - from,
{
    if from + p.len() > s.len() {
    } else if stands_at(s, p, from) {
    } else {
        law_find_is_first(s, p, from + 1);
    }
}

pub proof fn lemma_find_is(s: Seq<char>, p: Seq<char>, from: int, k: int)
    requires
        0 <= from <= k,
        stands_at(s, p, k),
        forall|j: int| from <= j < k ==> !stands_at(s, p, j),
    ensures
        find_from(s, p, from) == Some(k),
{
    law_find_is_first(s, p, from);
}

pub proof fn lemma_stands_between(a: Seq<char>, p: Seq<char>, b: Seq<char>)
    ensures
        stands_at(a + p + b, p, a.len() as int),
{
    assert((a + p + b).subrange(a.len() as int, a.len() as int + p.len()) =~= p);
}

/// Whether `p` stands in `cs` at position `i`.
pub fn matches_at(cs: &Vec<char>, p: &Vec<char>, i: usize) -> (r: bool)
    ensures
        r == stands_at(cs@, p@, i as int),
{
    if i > cs.len() || p.len() > cs.len() - i {
        return false;
    }
    let n: usize = cs.len();
    for k in 0..p.len()
        invariant
            i + p@.len() <= cs@.len(),
            n == cs@.len(),
            forall|j: int| 0 <= j < k ==> p@[j] == cs@[i + j],
    {
        if p[k] != cs[i + k] {
            assert(cs@.subrange(i as int, i + p@.len())[k as int] == cs@[i + k]);
            return false;
        }
    }
    assert(cs@.subrange(i as int, i + p@.len()) =~= p@);
    true
}

/// The first position, from `from` on, at which `p` stands in `cs`.
pub fn find(cs: &Vec<char>, p: &Vec<char>, from: usize) -> (r: Option<usize>)
    ensures
        find_from(cs@, p@, from as int) == (match r {
            Some(i) => Some(i as int),
            None => None::<int>,
        }),
{
    let mut i: usize = from;
    while i <= cs.len() && p.len() <= cs.len() - i
        invariant
            from <= i,
            i <= cs@.len() + 1 || i == from,
            find_from(cs@, p@, from as int) == find_from(cs@, p@, i as int),
        decreases cs@.len() + 1 - i,
    {
        if matches_at(cs, p, i) {
            return Some(i);
        }
        if i == cs.len() {
            assert(find_from(cs@, p@, i + 1) is None);
            return None;
        }
        i = i + 1;
    }
    None
}

/// Whether `p` stands somewhere in `s`.
pub fn contains(s: &str, p: &str) -> (r: bool)
    ensures
        r == has(s@, p@),
{
    let cs = chars_of(s);
    let ps = chars_of(p);
    proof {
        law_find_is_first(s@, p@, 0);
    }
    match find(&cs, &ps, 0) {
        Some(_) => true,
        None => {
            assert forall|i: int| !stands_at(s@, p@, i) by {}
            false
        },
    }
}

/// Whether `s` begins with `p`.
pub fn starts_with(s: &str, p: &str) -> (r: bool)
    ensures
        r == begins(s@, p@),
{
    let cs = chars_of(s);
    let ps = chars_of(p);
    matches_at(&cs, &ps, 0)
}

/// The first position, from `from` on, of the character `c`; the length of `s`
/// where there is none.
pub open spec fn seek(s: Seq<char>, c: char, from: int) -> int
    decreases s.len() - from,
{
    if from >= s.len() {
        s.len() as int
    } else if s[from] == c {
        from
    } else {
        seek(s, c, from + 1)
    }
}

pub proof fn lemma_seek(s: Seq<char>, c: char, from: int)
    requires
        0 <= from <= s.len(),
    ensures
        from <= seek(s, c, from) <= s.len(),
        seek(s, c, from) < s.len() ==> s[seek(s, c, from)] == c,
        forall|j: int| from <= j < seek(s, c, from) ==> s[j] != c,
    decreases s.len() - from,
{
    if from < s.len() && s[from] != c {
        lemma_seek(s, c, from + 1);
    }
}

pub proof fn lemma_seek_is(s: Seq<char>, c: char, from: int, k: int)
    requires
        0 <= from <= k <= s.len(),
        k < s.len() ==> s[k] == c,
        forall|j: int| from <= j < k ==> s[j] != c,
    ensures
        seek(s, c, from) == k,
    decreases s.len() - from,
{
    if from < k {
        lemma_seek_is(s, c, from + 1, k);
    }
}

/// The first position, from `from` on, of the character `c`; the length of `cs`
/// where there is none.
pub fn seek_char(cs: &Vec<char>, c: char, from: usize) -> (r: usize)
    requires
        from <= cs@.len(),
    ensures
        r == seek(cs@, c, from as int),
        from <= r <= cs@.len(),
        r < cs@.len() ==> cs@[r as int] == c,
{
    let mut i: usize = from;
    while i < cs.len() && cs[i] != c
        invariant
            from <= i <= cs@.len(),
            forall|j: int| from <= j < i ==> cs@[j] != c,
        decreases cs@.len() - i,
    {
        i = i + 1;
    }
    proof {
        lemma_seek_is(cs@, c, from as int, i as int);
    }
    i
}

/// The pieces of `s`, from position `from` on, between the separators `c`.
pub open spec fn split_from(s: Seq<char>, c: char, from: int) -> Seq<Seq<char>>
    decreases s.len() - from,
    when 0 <= from <= s.len()
{
    let k = seek(s, c, from);
    if from <= k < s.len() {
        seq![s.subrange(from, k)] + split_from(s, c, k + 1)
    } else {
        seq![s.skip(from)]
    }
}

/// The pieces of `s` between the separators `c`.
pub open spec fn split(s: Seq<char>, c: char) -> Seq<Seq<char>> {
    split_from(s, c, 0)
}

/// The characters of each string.
pub open spec fn views(v: Seq<String>) -> Seq<Seq<char>> {
    v.map_values(|s: String| s@)
}

/// The pieces of a string between the separators `c`.
pub fn split_char(s: &str, c: char) -> (r: Vec<String>)
    ensures
        views(r@) == split(s@, c),
{
    let cs = chars_of(s);
    let mut out: Vec<String> = Vec::new();
    let mut start: usize = 0;
    assert(views(out@) + split_from(s@, c, 0) =~= split(s@, c));
    loop
        invariant
            cs@ == s@,
            start <= cs@.len(),
            views(out@) + split_from(s@, c, start as int) == split(s@, c),
        decreases cs@.len() - start,
    {
        let k: usize = seek_char(&cs, c, start);
        let piece = string_of(&cs, start, k);
        let ghost before = out@;
        out.push(piece);
        assert(views(out@) =~= views(before).push(piece@));
        if k == cs.len() {
            assert(s@.subrange(start as int, k as int) =~= s@.skip(start as int));
            assert(views(out@) =~= split(s@, c));
            return out;
        }
        assert(views(out@) + split_from(s@, c, k + 1) =~= split(s@, c));
        start = k + 1;
    }
}

/// Strings one after another, with `sep` between each two.
pub open spec fn joined(parts: Seq<Seq<char>>, sep: Seq<char>) -> Seq<char>
    decreases parts.len(),
{
    if parts.len() == 0 {
        Seq::empty()
    } else if parts.len() == 1 {
        parts[0]
    } else {
        joined(parts.drop_last(), sep) + sep + parts.last()
    }
}

/// Strings one after another, with `sep` between each two.
pub fn join(parts: &Vec<String>, sep: &str) -> (r: String)
    ensures
        r@ == joined(views(parts@), sep@),
{
    let mut out = String::new();
    for i in 0..parts.len()
        invariant
            out@ == joined(views(parts@).take(i as int), sep@),
    {
        if i > 0 {
            out.append(sep);
        }
        out.append(parts[i].as_str());
        proof {
            let now = views(parts@).take(i + 1);
            assert(now.drop_last() =~= views(parts@).take(i as int));
            assert(now.last() == parts@[i as int]@);
            if i == 0 {
                assert(out@ =~= parts@[0]@);
            }
        }
    }
    assert(views(parts@).take(parts@.len() as int) =~= views(parts@));
    out
}

/// Whether every character is an ASCII character.
pub open spec fn all_ascii(s: Seq<char>) -> bool {
    forall|i: int| 0 <= i < s.len() ==> (#[trigger] s[i] as u32) < 0x80
}

/// An ASCII capital as the small letter, any other character as it is.
pub open spec fn ascii_lower(c: char) -> char {
    if 'A' <= c <= 'Z' {
        (c as u32 + 32) as char
    } else {
        c
    }
}

/// A string with its ASCII capitals as small letters.
pub open spec fn ascii_lowered(s: Seq<char>) -> Seq<char> {
    s.map_values(|c: char| ascii_lower(c))
}

/// The lower-case equivalent of a string.
pub uninterp spec fn lowercase(s: Seq<char>) -> Seq<char>;

/// Trusted: `str::to_lowercase` gives the lower-case equivalent of a string, by
/// the Unicode tables. The result depends on the string alone, and it is named;
/// of an ASCII string it is the string with `A` to `Z` as `a` to `z`.
#[verifier::external_body]
pub(crate) fn to_lowercase(s: &str) -> (r: String)
    ensures
        r@ == lowercase(s@),
        all_ascii(s@) ==> r@ == ascii_lowered(s@),
{
    s.to_lowercase()
}

/// A pattern stands at a position exactly where its characters stand there one by
/// one.
pub proof fn law_stands_at_by_characters(s: Seq<char>, p: Seq<char>, i: int)
    ensures
        stands_at(s, p, i) <==> {
            &&& 0 <= i
            &&& i + p.len() <= s.len()
            &&& forall|k: int| 0 <= k < p.len() ==> s[i + k] == #[trigger] p[k]
        },
{
    if 0 <= i && i + p.len() <= s.len() {
        let t = s.subrange(i, i + p.len());
        if forall|k: int| 0 <= k < p.len() ==> s[i + k] == #[trigger] p[k] {
            assert(t =~= p);
        }
        if t == p {
            assert forall|k: int| 0 <= k < p.len() implies s[i + k] == #[trigger] p[k] by {
                assert(t[k] == s[i + k]);
            }
        }
    }
}

/// A text holds a pattern exactly where it is made of the pattern and what stands
/// before and after it; it begins with one exactly where nothing stands before.
pub proof fn law_has_is_being_made_of(s: Seq<char>, p: Seq<char>, a: Seq<char>, b: Seq<char>)
    ensures
        has(a + p + b, p),
        begins(p + b, p),
        has(s, p) ==> exists|i: int|
            0 <= i <= s.len() - p.len() && s == #[trigger] s.take(i) + p + s.skip(i + p.len()),
        begins(s, p) ==> p.len() <= s.len() && s == p + s.skip(p.len() as int),
{
    lemma_stands_between(a, p, b);
    assert((p + b).subrange(0, p.len() as int) =~= p);
    if has(s, p) {
        let i = choose|i: int| stands_at(s, p, i);
        assert(s =~= s.take(i) + p + s.skip(i + p.len()));
    }
    if begins(s, p) {
        assert(s =~= s.subrange(0, p.len() as int) + s.skip(p.len() as int));
    }
}

/// What a part of a text holds, the text holds.
pub proof fn lemma_has_part(a: Seq<char>, p: Seq<char>, b: Seq<char>, q: Seq<char>)
    requires
        has(p, q),
    ensures
        has(a + p + b, q),
{
    let i = choose|i: int| stands_at(p, q, i);
    let s = a + p + b;
    assert(s.subrange(a.len() + i, a.len() + i + q.len()) =~= p.subrange(i, i + q.len()));
    assert(stands_at(s, q, a.len() + i));
}

/// A trimmed string is the string without some white space at its two ends, and
/// without nothing else.
pub proof fn law_trimming_takes_white_space_off(s: Seq<char>)
    ensures
        exists|lo: int, hi: int|
            0 <= lo <= hi <= s.len() && trimmed(s) == #[trigger] s.subrange(lo, hi) && (forall|
                i: int,
            | 0 <= i < lo || hi <= i < s.len() ==> is_white(#[trigger] s[i])),
{
    let (lo, hi) = lemma_trim_window(s);
    assert(trimmed(s) == s.subrange(lo, hi));
}

proof fn lemma_trim_window(s: Seq<char>) -> (r: (int, int))
    ensures
        0 <= r.0 <= r.1 <= s.len(),
        trimmed(s) == s.subrange(r.0, r.1),
        forall|i: int| 0 <= i < r.0 || r.1 <= i < s.len() ==> is_white(#[trigger] s[i]),
{
    let lo = lemma_trim_start_window(s);
    let t = s.skip(lo);
    let n = lemma_trim_end_window(t);
    assert(t.take(n) =~= s.subrange(lo, lo + n));
    assert forall|i: int| 0 <= i < lo || lo + n <= i < s.len() implies is_white(#[trigger] s[i]) by {
        if i >= lo {
            assert(t[i - lo] == s[i]);
        }
    }
    (lo, lo + n)
}

proof fn lemma_trim_start_window(s: Seq<char>) -> (lo: int)
    ensures
        0 <= lo <= s.len(),
        trim_start(s) == s.skip(lo),
        forall|i: int| 0 <= i < lo ==> is_white(#[trigger] s[i]),
    decreases s.len(),
{
    if s.len() > 0 && is_white(s[0]) {
        let t = s.drop_first();
        let k = lemma_trim_start_window(t);
        assert(t.skip(k) =~= s.skip(k + 1));
        assert forall|i: int| 0 <= i < k + 1 implies is_white(#[trigger] s[i]) by {
            if i > 0 {
                assert(t[i - 1] == s[i]);
            }
        }
        k + 1
    } else {
        assert(s.skip(0) =~= s);
        0
    }
}

pub proof fn lemma_trim_end_window(s: Seq<char>) -> (hi: int)
    ensures
        0 <= hi <= s.len(),
        trim_end(s) == s.take(hi),
        forall|i: int| hi <= i < s.len() ==> is_white(#[trigger] s[i]),
    decreases s.len(),
{
    if s.len() > 0 && is_white(s.last()) {
        let t = s.drop_last();
        let k = lemma_trim_end_window(t);
        assert(t.take(k) =~= s.take(k));
        assert forall|i: int| k <= i < s.len() implies is_white(#[trigger] s[i]) by {
            if i < t.len() {
                assert(t[i] == s[i]);
            }
        }
        k
    } else {
        assert(s.take(s.len() as int) =~= s);
        s.len() as int
    }
}

/// Nothing is left of a string exactly where it holds nothing but white space.
pub proof fn law_blank_is_all_white(s: Seq<char>)
    ensures
        trimmed(s).len() == 0 <==> forall|i: int| 0 <= i < s.len() ==> is_white(#[trigger] s[i]),
{
    let (lo, hi) = lemma_trim_window(s);
    law_trimmed_has_clean_ends(s);
    if lo < hi {
        assert(s.subrange(lo, hi)[0] == s[lo]);
    }
}

/// The pieces between separators hold none, and put together again with the
/// separator between each two they are the string.
pub proof fn law_split_joins_back(s: Seq<char>, c: char)
    ensures
        split(s, c).len() > 0,
        joined(split(s, c), seq![c]) == s,
        forall|i: int, k: int|
            0 <= i < split(s, c).len() && 0 <= k < split(s, c)[i].len() ==> (
            #[trigger] split(s, c)[i][k]) != c,
{
    lemma_split_joins_back(s, c, 0);
    assert(s.skip(0) =~= s);
}

proof fn lemma_split_joins_back(s: Seq<char>, c: char, from: int)
    requires
        0 <= from <= s.len(),
    ensures
        split_from(s, c, from).len() > 0,
        joined(split_from(s, c, from), seq![c]) == s.skip(from),
        forall|i: int, k: int|
            0 <= i < split_from(s, c, from).len() && 0 <= k < split_from(s, c, from)[i].len() ==> (
            #[trigger] split_from(s, c, from)[i][k]) != c,
    decreases s.len() - from,
{
    lemma_seek(s, c, from);
    let k = seek(s, c, from);
    let all = split_from(s, c, from);
    if k < s.len() {
        lemma_split_joins_back(s, c, k + 1);
        let first = s.subrange(from, k);
        let rest = split_from(s, c, k + 1);
        assert(all == seq![first] + rest);
        lemma_joined_front(first, rest, seq![c]);
        assert(s.skip(from) =~= first + seq![c] + s.skip(k + 1));
        assert forall|i: int, j: int| 0 <= i < all.len() && 0 <= j < all[i].len() implies (
        #[trigger] all[i][j]) != c by {
            if i == 0 {
                assert(all[0][j] == s[from + j]);
            } else {
                assert(all[i] == rest[i - 1]);
                assert(rest[i - 1][j] != c);
            }
        }
    } else {
        assert(all == seq![s.skip(from)]);
        assert forall|i: int, j: int| 0 <= i < all.len() && 0 <= j < all[i].len() implies (
        #[trigger] all[i][j]) != c by {
            assert(all[0][j] == s[from + j]);
        }
    }
}

/// Strings put together are the first, the separator, and the others put together.
pub proof fn lemma_joined_front(first: Seq<char>, rest: Seq<Seq<char>>, sep: Seq<char>)
    requires
        rest.len() > 0,
    ensures
        joined(seq![first] + rest, sep) == first + sep + joined(rest, sep),
    decreases rest.len(),
{
    let all = seq![first] + rest;
    assert(all.drop_last() =~= seq![first] + rest.drop_last());
    assert(all.last() == rest.last());
    if rest.len() == 1 {
        assert(rest.drop_last() =~= Seq::<Seq<char>>::empty());
        assert(all.drop_last() =~= seq![first]);
        assert(rest[0] == rest.last());
        assert(joined(seq![first], sep) == first);
        assert(joined(all, sep) == joined(all.drop_last(), sep) + sep + all.last());
    } else {
        lemma_joined_front(first, rest.drop_last(), sep);
        assert(joined(all, sep) =~= first + sep + joined(rest, sep));
    }
}

/// Strings put together hold each of them.
pub proof fn law_joined_holds_each(parts: Seq<Seq<char>>, sep: Seq<char>, i: int)
    requires
        0 <= i < parts.len(),
    ensures
        has(joined(parts, sep), parts[i]),
    decreases parts.len(),
{
    let none = Seq::<char>::empty();
    if parts.len() == 1 {
        law_has_is_being_made_of(none, parts[0], none, none);
        assert(none + parts[0] + none =~= parts[0]);
    } else if i == parts.len() - 1 {
        let front = joined(parts.drop_last(), sep) + sep;
        law_has_is_being_made_of(none, parts[i], front, none);
        assert(front + parts[i] + none =~= joined(parts, sep));
    } else {
        law_joined_holds_each(parts.drop_last(), sep, i);
        let tail = sep + parts.last();
        lemma_has_part(none, joined(parts.drop_last(), sep), tail, parts[i]);
        assert(none + joined(parts.drop_last(), sep) + tail =~= joined(parts, sep));
    }
}

pub proof fn lemma_has_itself(p: Seq<char>)
    ensures
        has(p, p),
{
    let none = Seq::<char>::empty();
    law_has_is_being_made_of(none, p, none, none);
    assert(none + p + none =~= p);
}

pub proof fn lemma_has_left(a: Seq<char>, b: Seq<char>, q: Seq<char>)
    requires
        has(a, q),
    ensures
        has(a + b, q),
{
    let none = Seq::<char>::empty();
    lemma_has_part(none, a, b, q);
    assert(none + a + b =~= a + b);
}

pub proof fn lemma_has_right(a: Seq<char>, b: Seq<char>, q: Seq<char>)
    requires
        has(b, q),
    ensures
        has(a + b, q),
{
    let none = Seq::<char>::empty();
    lemma_has_part(a, b, none, q);
    assert(a + b + none =~= a + b);
}

pub proof fn lemma_has_either(a: Seq<char>, b: Seq<char>, q: Seq<char>)
    ensures
        has(a, q) || has(b, q) ==> has(a + b, q),
{
    if has(a, q) {
        lemma_has_left(a, b, q);
    }
    if has(b, q) {
        lemma_has_right(a, b, q);
    }
}

/// White space is the tab, the line and page feeds, the space, the no-break
/// spaces, the other spaces of Unicode and its separators of lines and paragraphs;
/// no letter, digit or sign of ASCII is.
pub proof fn law_white_space(c: char)
    ensures
        c == '\t' || c == '\n' || c == '\r' || c == ' ' || c == '\u{b}' || c == '\u{c}' ==> is_white(
            c,
        ),
        c == '\u{85}' || c == '\u{a0}' || c == '\u{1680}' || '\u{2000}' <= c <= '\u{200a}'
            ==> is_white(c),
        c == '\u{2028}' || c == '\u{2029}' || c == '\u{202f}' || c == '\u{205f}' || c == '\u{3000}'
            ==> is_white(c),
        '!' <= c <= '~' ==> !is_white(c),
        c > '\u{3000}' || '\u{a1}' <= c < '\u{1680}' || '\u{1680}' < c < '\u{2000}' || '\u{200a}' < c
            < '\u{2028}' ==> !is_white(c),
{
}

/// A capital of ASCII becomes the letter that stands 32 places after it, any
/// other character stays.
pub proof fn law_capitals_become_small(s: Seq<char>, i: int)
    requires
        0 <= i < s.len(),
    ensures
        ascii_lowered(s).len() == s.len(),
        'A' <= s[i] <= 'Z' ==> ascii_lowered(s)[i] as u32 == s[i] as u32 + 32,
        !('A' <= s[i] <= 'Z') ==> ascii_lowered(s)[i] == s[i],
        ascii_lowered(ascii_lowered(s)) == ascii_lowered(s),
{
    assert(ascii_lowered(ascii_lowered(s)) =~= ascii_lowered(s));
}

} // verus!
