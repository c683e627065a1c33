//! Character-level text handling shared by the parsers and formatters.
use vstd::prelude::*;

verus! {

/// Appends one character to a `String` (std's `String::push`).
#[verifier::external_body]
pub(crate) fn push_char(s: &mut String, c: char)
    ensures
        final(s)@ == old(s)@.push(c),
{
    s.push(c);
}

/// The characters of `s`, in order.
pub fn chars_of(s: &str) -> (v: Vec<char>)
    ensures
        v@ == s@,
{
    let n = s.unicode_len();
    let mut v: Vec<char> = Vec::new();
    let mut i: usize = 0;
    while i < n
        invariant
            n == s@.len(),
            i <= n,
            v@ == s@.subrange(0, i as int),
        decreases n - i,
    {
        v.push(s.get_char(i));
        i = i + 1;
    }
    v
}

/// A `String` holding exactly the characters of `v`.
pub fn string_of(v: &Vec<char>) -> (s: String)
    ensures
        s@ == v@,
{
    let mut s = String::new();
    let mut i: usize = 0;
    while i < v.len()
        invariant
            i <= v.len(),
            s@ == v@.subrange(0, i as int),
        decreases v.len() - i,
    {
        push_char(&mut s, v[i]);
        i = i + 1;
    }
    s
}


/// Unicode `White_Space`, the set that `char::is_whitespace` tests.
pub open spec fn is_ws(c: char) -> bool {
    let u = c as u32;
    ||| (9 <= u && u <= 13)
    ||| u == 32
    ||| u == 0x85
    ||| u == 0xA0
    ||| u == 0x1680
    ||| (0x2000 <= u && u <= 0x200A)
    ||| u == 0x2028
    ||| u == 0x2029
    ||| u == 0x202F
    ||| u == 0x205F
    ||| u == 0x3000
}

/// Whether `c` is white space in the sense of `char::is_whitespace`.
pub fn is_whitespace(c: char) -> (b: bool)
    ensures
        b == is_ws(c),
{
    let u = c as u32;
    (9 <= u && u <= 13) || u == 32 || u == 0x85 || u == 0xA0 || u == 0x1680 || (0x2000 <= u
        && u <= 0x200A) || u == 0x2028 || u == 0x2029 || u == 0x202F || u == 0x205F || u == 0x3000
}

/// Number of white-space characters at the front of `s`.
pub open spec fn lead_ws(s: Seq<char>) -> nat
    decreases s.len(),
{
    if s.len() > 0 && is_ws(s[0]) {
        1 + lead_ws(s.drop_first())
    } else {
        0
    }
}

/// Number of white-space characters at the back of `s`.
pub open spec fn trail_ws(s: Seq<char>) -> nat
    decreases s.len(),
{
    if s.len() > 0 && is_ws(s.last()) {
        1 + trail_ws(s.drop_last())
    } else {
        0
    }
}

pub proof fn lemma_lead_ws_bound(s: Seq<char>)
    ensures
        lead_ws(s) <= s.len(),
    decreases s.len(),
{
    if s.len() > 0 && is_ws(s[0]) {
        lemma_lead_ws_bound(s.drop_first());
    }
}

pub proof fn lemma_trail_ws_bound(s: Seq<char>)
    ensures
        trail_ws(s) <= s.len(),
    decreases s.len(),
{
    if s.len() > 0 && is_ws(s.last()) {
        lemma_trail_ws_bound(s.drop_last());
    }
}

/// `str::trim_start`.
pub open spec fn trim_start(s: Seq<char>) -> Seq<char> {
    s.subrange(lead_ws(s) as int, s.len() as int)
}

/// `str::trim_end`.
pub open spec fn trim_end(s: Seq<char>) -> Seq<char> {
    s.subrange(0, s.len() - trail_ws(s))
}

/// `str::trim`.
pub open spec fn trim(s: Seq<char>) -> Seq<char> {
    trim_end(trim_start(s))
}

/// A copy of `v[a..b]`.
pub fn slice_of(v: &[char], a: usize, b: usize) -> (r: Vec<char>)
    requires
        a <= b <= v@.len(),
    ensures
        r@ == v@.subrange(a as int, b as int),
{
    let mut r: Vec<char> = Vec::new();
    let mut i = a;
    while i < b
        invariant
            a <= i <= b <= v@.len(),
            r@ == v@.subrange(a as int, i as int),
        decreases b - i,
    {
        r.push(v[i]);
        i = i + 1;
    }
    r
}

/// Index of the first character of `v` that is not white space.
pub fn lead_ws_len(v: &[char]) -> (k: usize)
    ensures
        k == lead_ws(v@),
{
    let n = v.len();
    let mut i: usize = 0;
    proof {
        assert(v@.subrange(0, n as int) =~= v@);
    }
    while i < n && is_whitespace(v[i])
        invariant
            i <= n == v@.len(),
            lead_ws(v@) == i + lead_ws(v@.subrange(i as int, n as int)),
        decreases n - i,
    {
        proof {
            let t = v@.subrange(i as int, n as int);
            assert(t.drop_first() =~= v@.subrange(i + 1, n as int));
        }
        i = i + 1;
    }
    i
}

/// Number of white-space characters at the end of `v`.
pub fn trail_ws_len(v: &[char]) -> (k: usize)
    ensures
        k == trail_ws(v@),
{
    let n = v.len();
    let mut j: usize = n;
    proof {
        assert(v@.subrange(0, n as int) =~= v@);
    }
    while j > 0 && is_whitespace(v[j - 1])
        invariant
            j <= n == v@.len(),
            trail_ws(v@) == (n - j) + trail_ws(v@.subrange(0, j as int)),
        decreases j,
    {
        proof {
            let t = v@.subrange(0, j as int);
            assert(t.drop_last() =~= v@.subrange(0, j - 1));
        }
        j = j - 1;
    }
    n - j
}

/// `str::trim` on characters.
pub fn trimmed(v: &[char]) -> (r: Vec<char>)
    ensures
        r@ == trim(v@),
{
    let a = lead_ws_len(v);
    proof {
        lemma_lead_ws_bound(v@);
    }
    let t = slice_of(v, a, v.len());
    let b = trail_ws_len(t.as_slice());
    proof {
        lemma_trail_ws_bound(t@);
    }
    slice_of(t.as_slice(), 0, t.len() - b)
}


/// `str::split` on a single character: the pieces between occurrences of `c`.
pub open spec fn split_on(s: Seq<char>, c: char) -> Seq<Seq<char>>
    decreases s.len(),
{
    if s.len() == 0 {
        seq![Seq::empty()]
    } else {
        let init = split_on(s.drop_last(), c);
        if s.last() == c {
            init.push(Seq::empty())
        } else {
            init.update(init.len() - 1, init.last().push(s.last()))
        }
    }
}

pub proof fn lemma_split_on_nonempty(s: Seq<char>, c: char)
    ensures
        split_on(s, c).len() >= 1,
    decreases s.len(),
{
    if s.len() > 0 {
        lemma_split_on_nonempty(s.drop_last(), c);
    }
}

/// Splits `v` at every occurrence of `c`.
pub fn split_char(v: &[char], c: char) -> (r: Vec<Vec<char>>)
    ensures
        views(r@) == split_on(v@, c),
{
    let mut done: Vec<Vec<char>> = Vec::new();
    let mut cur: Vec<char> = Vec::new();
    let mut i: usize = 0;
    proof {
        assert(v@.subrange(0, 0) =~= Seq::<char>::empty());
        assert(views(done@).push(cur@) =~= split_on(v@.subrange(0, 0), c));
    }
    while i < v.len()
        invariant
            i <= v@.len(),
            views(done@).push(cur@) =~= split_on(v@.subrange(0, i as int), c),
        decreases v.len() - i,
    {
        proof {
            assert(v@.subrange(0, i + 1).drop_last() =~= v@.subrange(0, i as int));
            lemma_split_on_nonempty(v@.subrange(0, i as int), c);
        }
        let ghost before = done@;
        if v[i] == c {
            done.push(cur);
            cur = Vec::new();
            proof {
                assert(views(done@) =~= views(before).push(old_cur_view(v@, i as int, c)));
            }
        } else {
            cur.push(v[i]);
        }
        i = i + 1;
    }
    proof {
        assert(v@.subrange(0, v@.len() as int) =~= v@);
    }
    let ghost before = done@;
    done.push(cur);
    proof {
        assert(views(done@) =~= views(before).push(cur@));
    }
    done
}

/// The character sequences held by a sequence of vectors.
pub open spec fn views(r: Seq<Vec<char>>) -> Seq<Seq<char>> {
    r.map_values(|x: Vec<char>| x@)
}

/// The piece being built just before position `i` (used in proofs only).
pub open spec fn old_cur_view(s: Seq<char>, i: int, c: char) -> Seq<char> {
    split_on(s.subrange(0, i), c).last()
}


/// `p` without one trailing carriage return.
pub open spec fn strip_cr(p: Seq<char>) -> Seq<char> {
    if p.len() > 0 && p.last() == '\r' {
        p.drop_last()
    } else {
        p
    }
}

/// `str::lines`: pieces split at `\n`, each that ended in `\n` also loses a
/// trailing `\r`; a final empty piece is not a line.
pub open spec fn lines(s: Seq<char>) -> Seq<Seq<char>> {
    let parts = split_on(s, '\n');
    let n = parts.len();
    let m = if n > 0 && parts[n - 1].len() == 0 {
        n - 1
    } else {
        n as int
    };
    Seq::new(m as nat, |k: int| if k < n - 1 { strip_cr(parts[k]) } else { parts[k] })
}

/// `v` without one trailing carriage return.
fn without_cr(v: Vec<char>) -> (r: Vec<char>)
    ensures
        r@ == strip_cr(v@),
{
    let mut v = v;
    if v.len() > 0 && v[v.len() - 1] == '\r' {
        v.pop();
    }
    v
}

/// The lines of `v`, as `str::lines` gives them.
pub fn lines_of(v: &[char]) -> (r: Vec<Vec<char>>)
    ensures
        views(r@) == lines(v@),
{
    let parts = split_char(v, '\n');
    proof {
        lemma_split_on_nonempty(v@, '\n');
    }
    let n = parts.len();
    let m = if parts[n - 1].len() == 0 {
        n - 1
    } else {
        n
    };
    let mut r: Vec<Vec<char>> = Vec::new();
    let mut k: usize = 0;
    while k < m
        invariant
            m <= n == parts@.len(),
            views(parts@) == split_on(v@, '\n'),
            k <= m,
            m == lines(v@).len(),
            views(r@) =~= lines(v@).subrange(0, k as int),
        decreases m - k,
    {
        let piece = slice_of(parts[k].as_slice(), 0, parts[k].len());
        proof {
            assert(piece@ == views(parts@)[k as int]);
        }
        let ghost before = r@;
        let line = if k + 1 < n {
            without_cr(piece)
        } else {
            piece
        };
        r.push(line);
        proof {
            assert(views(r@) =~= views(before).push(line@));
            assert(lines(v@).subrange(0, k + 1) =~= lines(v@).subrange(0, k as int).push(
                lines(v@)[k as int],
            ));
        }
        k = k + 1;
    }
    proof {
        assert(views(r@) =~= lines(v@));
    }
    r
}

/// `str::split_whitespace`: the maximal runs of non-white-space characters.
pub open spec fn words(s: Seq<char>) -> Seq<Seq<char>>
    decreases s.len(),
{
    if s.len() == 0 {
        Seq::empty()
    } else {
        let init = words(s.drop_last());
        let c = s.last();
        if is_ws(c) {
            init
        } else if s.len() >= 2 && !is_ws(s[s.len() - 2]) {
            init.update(init.len() - 1, init.last().push(c))
        } else {
            init.push(seq![c])
        }
    }
}

pub proof fn lemma_words_nonempty(s: Seq<char>)
    requires
        s.len() > 0,
        !is_ws(s.last()),
    ensures
        words(s).len() >= 1,
    decreases s.len(),
{
    if s.len() >= 2 && !is_ws(s[s.len() - 2]) {
        lemma_words_nonempty(s.drop_last());
    }
}

/// The white-space separated words of `v`.
pub fn words_of(v: &[char]) -> (r: Vec<Vec<char>>)
    ensures
        views(r@) == words(v@),
{
    let mut done: Vec<Vec<char>> = Vec::new();
    let mut cur: Vec<char> = Vec::new();
    let mut in_word = false;
    let mut i: usize = 0;
    proof {
        assert(v@.subrange(0, 0) =~= Seq::<char>::empty());
    }
    while i < v.len()
        invariant
            i <= v@.len(),
            in_word == (i > 0 && !is_ws(v@[i - 1])),
            in_word ==> views(done@).push(cur@) =~= words(v@.subrange(0, i as int)),
            !in_word ==> views(done@) =~= words(v@.subrange(0, i as int)),
        decreases v.len() - i,
    {
        proof {
            assert(v@.subrange(0, i + 1).drop_last() =~= v@.subrange(0, i as int));
        }
        let ghost before = done@;
        let c = v[i];
        if is_whitespace(c) {
            if in_word {
                done.push(cur);
                cur = Vec::new();
                proof {
                    assert(views(done@) =~= views(before).push(
                        words(v@.subrange(0, i as int)).last(),
                    ));
                }
            }
            in_word = false;
        } else {
            if !in_word {
                cur = Vec::new();
            }
            cur.push(c);
            in_word = true;
        }
        i = i + 1;
    }
    proof {
        assert(v@.subrange(0, v@.len() as int) =~= v@);
    }
    if in_word {
        let ghost before = done@;
        done.push(cur);
        proof {
            assert(views(done@) =~= views(before).push(cur@));
        }
    }
    done
}

/// Index of the first `c` in `s`, or -1.
pub open spec fn first_index(s: Seq<char>, c: char) -> int
    decreases s.len(),
{
    if s.len() == 0 {
        -1
    } else {
        let k = first_index(s.drop_last(), c);
        if k >= 0 {
            k
        } else if s.last() == c {
            s.len() - 1
        } else {
            -1
        }
    }
}

pub proof fn lemma_first_index(s: Seq<char>, c: char)
    ensures
        -1 <= first_index(s, c) < s.len(),
        first_index(s, c) >= 0 ==> s[first_index(s, c)] == c,
        forall|j: int|
            0 <= j < s.len() && (first_index(s, c) < 0 || j < first_index(s, c)) ==> s[j] != c,
    decreases s.len(),
{
    if s.len() > 0 {
        let t = s.drop_last();
        lemma_first_index(t, c);
        assert forall|j: int| 0 <= j < t.len() implies t[j] == s[j] by {}
    }
}

/// `str::find` for a character: its first position.
pub fn find_char(v: &[char], c: char) -> (r: Option<usize>)
    ensures
        match r {
            Some(k) => k == first_index(v@, c),
            None => first_index(v@, c) == -1,
        },
{
    let mut i: usize = 0;
    proof {
        assert(v@.subrange(0, 0) =~= Seq::<char>::empty());
    }
    while i < v.len()
        invariant
            i <= v@.len(),
            first_index(v@.subrange(0, i as int), c) == -1,
        decreases v.len() - i,
    {
        proof {
            assert(v@.subrange(0, i + 1).drop_last() =~= v@.subrange(0, i as int));
        }
        if v[i] == c {
            proof {
                lemma_first_index_prefix(v@, i as int + 1, c);
            }
            return Some(i);
        }
        i = i + 1;
    }
    proof {
        assert(v@.subrange(0, v@.len() as int) =~= v@);
    }
    None
}

/// The first occurrence found in a prefix is the first occurrence overall.
pub proof fn lemma_first_index_prefix(s: Seq<char>, k: int, c: char)
    requires
        0 <= k <= s.len(),
        first_index(s.subrange(0, k), c) >= 0,
    ensures
        first_index(s, c) == first_index(s.subrange(0, k), c),
    decreases s.len() - k,
{
    if k < s.len() {
        assert(s.subrange(0, k + 1).drop_last() =~= s.subrange(0, k));
        lemma_first_index_prefix(s, k + 1, c);
    } else {
        assert(s.subrange(0, k) =~= s);
    }
}

/// Index of the last `c` in `s`, or -1.
pub open spec fn last_index(s: Seq<char>, c: char) -> int
    decreases s.len(),
{
    if s.len() == 0 {
        -1
    } else if s.last() == c {
        s.len() - 1
    } else {
        last_index(s.drop_last(), c)
    }
}

pub proof fn lemma_last_index(s: Seq<char>, c: char)
    ensures
        -1 <= last_index(s, c) < s.len(),
        last_index(s, c) >= 0 ==> s[last_index(s, c)] == c,
        forall|j: int| last_index(s, c) < j < s.len() ==> s[j] != c,
    decreases s.len(),
{
    if s.len() > 0 && s.last() != c {
        let t = s.drop_last();
        lemma_last_index(t, c);
        assert forall|j: int| 0 <= j < t.len() implies t[j] == s[j] by {}
    }
}

/// `str::rfind` for a character: its last position.
pub fn rfind_char(v: &[char], c: char) -> (r: Option<usize>)
    ensures
        match r {
            Some(k) => k == last_index(v@, c),
            None => last_index(v@, c) == -1,
        },
{
    let mut j: usize = v.len();
    proof {
        assert(v@.subrange(0, j as int) =~= v@);
    }
    while j > 0
        invariant
            j <= v@.len(),
            last_index(v@, c) == last_index(v@.subrange(0, j as int), c),
        decreases j,
    {
        proof {
            assert(v@.subrange(0, j as int).drop_last() =~= v@.subrange(0, j - 1));
        }
        if v[j - 1] == c {
            return Some(j - 1);
        }
        j = j - 1;
    }
    None
}

/// Whether `p` is a prefix of `s`.
pub open spec fn has_prefix(s: Seq<char>, p: Seq<char>) -> bool {
    p.len() <= s.len() && s.subrange(0, p.len() as int) == p
}

/// Whether `p` is a suffix of `s`.
pub open spec fn has_suffix(s: Seq<char>, p: Seq<char>) -> bool {
    p.len() <= s.len() && s.subrange(s.len() - p.len(), s.len() as int) == p
}

/// Whether `p` occurs in `s` starting at `i`.
pub open spec fn occurs_at(s: Seq<char>, p: Seq<char>, i: int) -> bool {
    0 <= i && i + p.len() <= s.len() && s.subrange(i, i + p.len()) == p
}

/// `str::contains` for a string pattern.
pub open spec fn contains(s: Seq<char>, p: Seq<char>) -> bool {
    exists|i: int| occurs_at(s, p, i)
}

/// Whether `p` occurs in `v` at position `i`.
pub fn matches_at(v: &[char], p: &[char], i: usize) -> (b: bool)
    ensures
        b == occurs_at(v@, p@, i as int),
{
    if i > v.len() || p.len() > v.len() - i {
        return false;
    }
    let mut k: usize = 0;
    let vlen = v.len();
    while k < p.len()
        invariant
            vlen == v@.len(),
            i + p@.len() <= v@.len(),
            k <= p@.len(),
            forall|j: int| 0 <= j < k ==> v@[i + j] == p@[j],
        decreases p.len() - k,
    {
        if v[i + k] != p[k] {
            proof {
                assert(v@.subrange(i as int, i + p@.len())[k as int] != p@[k as int]);
            }
            return false;
        }
        k = k + 1;
    }
    proof {
        assert(v@.subrange(i as int, i + p@.len()) =~= p@);
    }
    true
}

/// `str::starts_with`.
pub fn starts_with(v: &[char], p: &[char]) -> (b: bool)
    ensures
        b == has_prefix(v@, p@),
{
    matches_at(v, p, 0)
}

/// `str::ends_with`.
pub fn ends_with(v: &[char], p: &[char]) -> (b: bool)
    ensures
        b == has_suffix(v@, p@),
{
    if p.len() > v.len() {
        false
    } else {
        matches_at(v, p, v.len() - p.len())
    }
}

/// `str::contains` with a string pattern.
pub fn contains_seq(v: &[char], p: &[char]) -> (b: bool)
    ensures
        b == contains(v@, p@),
{
    if p.len() > v.len() {
        proof {
            assert forall|i: int| !occurs_at(v@, p@, i) by {}
        }
        return false;
    }
    if p.len() == 0 {
        proof {
            assert(v@.subrange(0, 0) =~= p@);
            assert(occurs_at(v@, p@, 0));
        }
        return true;
    }
    let last = v.len() - p.len();
    let mut i: usize = 0;
    while i <= last
        invariant
            last + p@.len() == v@.len(),
            p@.len() >= 1,
            v@.len() <= usize::MAX,
            i <= last + 1,
            forall|j: int| 0 <= j < i ==> !occurs_at(v@, p@, j),
        decreases last + 1 - i,
    {
        if matches_at(v, p, i) {
            return true;
        }
        i = i + 1;
    }
    proof {
        assert forall|j: int| !occurs_at(v@, p@, j) by {
            if 0 <= j && j < i {
            }
        }
    }
    false
}


/// Whether two character sequences are equal.
pub fn same(a: &[char], b: &[char]) -> (r: bool)
    ensures
        r == (a@ == b@),
{
    if a.len() != b.len() {
        return false;
    }
    let r = matches_at(a, b, 0);
    proof {
        if r {
            assert(a@.subrange(0, b@.len() as int) =~= a@);
        } else {
            assert(a@.subrange(0, b@.len() as int) =~= a@);
        }
    }
    r
}

/// `char::to_ascii_lowercase`.
pub open spec fn lower_char(c: char) -> char {
    if 'A' <= c && c <= 'Z' {
        ((c as u32) + 32) as char
    } else {
        c
    }
}

/// `char::to_ascii_uppercase`.
pub open spec fn upper_char(c: char) -> char {
    if 'a' <= c && c <= 'z' {
        ((c as u32) - 32) as char
    } else {
        c
    }
}

/// `str::to_ascii_lowercase`.
pub open spec fn ascii_lower(s: Seq<char>) -> Seq<char> {
    s.map_values(|c: char| lower_char(c))
}

/// `str::to_ascii_uppercase`.
pub open spec fn ascii_upper(s: Seq<char>) -> Seq<char> {
    s.map_values(|c: char| upper_char(c))
}

/// `char::to_ascii_lowercase`.
pub fn lower_ascii_char(c: char) -> (r: char)
    ensures
        r == lower_char(c),
{
    if 'A' <= c && c <= 'Z' {
        ((c as u8) + 32) as char
    } else {
        c
    }
}

/// `char::to_ascii_uppercase`.
pub fn upper_ascii_char(c: char) -> (r: char)
    ensures
        r == upper_char(c),
{
    if 'a' <= c && c <= 'z' {
        ((c as u8) - 32) as char
    } else {
        c
    }
}

/// `str::to_ascii_lowercase` on characters.
pub fn to_ascii_lower(v: &[char]) -> (r: Vec<char>)
    ensures
        r@ == ascii_lower(v@),
{
    let mut r: Vec<char> = Vec::new();
    let mut i: usize = 0;
    while i < v.len()
        invariant
            i <= v@.len(),
            r@ =~= ascii_lower(v@.subrange(0, i as int)),
        decreases v.len() - i,
    {
        r.push(lower_ascii_char(v[i]));
        i = i + 1;
        proof {
            assert(ascii_lower(v@.subrange(0, i as int)) =~= ascii_lower(
                v@.subrange(0, i - 1),
            ).push(lower_char(v@[i - 1])));
        }
    }
    proof {
        assert(v@.subrange(0, v@.len() as int) =~= v@);
    }
    r
}

/// `str::to_ascii_uppercase` on characters.
pub fn to_ascii_upper(v: &[char]) -> (r: Vec<char>)
    ensures
        r@ == ascii_upper(v@),
{
    let mut r: Vec<char> = Vec::new();
    let mut i: usize = 0;
    while i < v.len()
        invariant
            i <= v@.len(),
            r@ =~= ascii_upper(v@.subrange(0, i as int)),
        decreases v.len() - i,
    {
        r.push(upper_ascii_char(v[i]));
        i = i + 1;
        proof {
            assert(ascii_upper(v@.subrange(0, i as int)) =~= ascii_upper(
                v@.subrange(0, i - 1),
            ).push(upper_char(v@[i - 1])));
        }
    }
    proof {
        assert(v@.subrange(0, v@.len() as int) =~= v@);
    }
    r
}

/// The decimal digit character for `d < 10`.
pub open spec fn digit_char(d: int) -> char {
    ((d + 48) as u32) as char
}

/// The decimal representation of `n`, without leading zeros.
pub open spec fn dec(n: nat) -> Seq<char>
    decreases n,
{
    if n < 10 {
        seq![digit_char(n as int)]
    } else {
        dec(n / 10).push(digit_char((n % 10) as int))
    }
}

/// The decimal representation of `n`.
pub fn dec_chars(n: u64) -> (r: Vec<char>)
    ensures
        r@ == dec(n as nat),
    decreases n,
{
    let d = ((n % 10) as u8 + 48) as char;
    if n < 10 {
        let mut r: Vec<char> = Vec::new();
        r.push(d);
        proof {
            assert(r@ =~= dec(n as nat));
        }
        r
    } else {
        let mut r = dec_chars(n / 10);
        r.push(d);
        r
    }
}

/// Whether `c` is an ASCII decimal digit.
pub open spec fn is_digit(c: char) -> bool {
    '0' <= c && c <= '9'
}

/// The value of the digit character `c`.
pub open spec fn digit_value(c: char) -> int {
    (c as u32) - 48
}

/// The number written by the digits `s`.
pub open spec fn digits_value(s: Seq<char>) -> int
    decreases s.len(),
{
    if s.len() == 0 {
        0
    } else {
        digits_value(s.drop_last()) * 10 + digit_value(s.last())
    }
}

/// Whether every character of `s` is a decimal digit.
pub open spec fn all_digits(s: Seq<char>) -> bool {
    forall|i: int| 0 <= i < s.len() ==> is_digit(#[trigger] s[i])
}

/// `s` without one leading `+`.
pub open spec fn unsigned_body(s: Seq<char>) -> Seq<char> {
    if s.len() > 0 && s[0] == '+' {
        s.drop_first()
    } else {
        s
    }
}

/// `u64::from_str` limited to values at most `max`: one optional `+`, then at
/// least one digit, and a value that fits.
pub open spec fn parse_unsigned(s: Seq<char>, max: int) -> Option<int> {
    let b = unsigned_body(s);
    if b.len() > 0 && all_digits(b) && digits_value(b) <= max {
        Some(digits_value(b))
    } else {
        None
    }
}

pub proof fn lemma_digits_value_nonneg(s: Seq<char>)
    requires
        all_digits(s),
    ensures
        digits_value(s) >= 0,
    decreases s.len(),
{
    if s.len() > 0 {
        assert(all_digits(s.drop_last()));
        lemma_digits_value_nonneg(s.drop_last());
    }
}

/// The value of the digits `v`, or `None` when a character is not a digit or
/// the value exceeds `max`.
fn digits_upto(v: &[char], max: u64) -> (r: Option<u64>)
    ensures
        match r {
            Some(x) => all_digits(v@) && digits_value(v@) == x && x <= max,
            None => !all_digits(v@) || digits_value(v@) > max,
        },
{
    let mut acc: u64 = 0;
    let mut over = false;
    let mut i: usize = 0;
    proof {
        assert(v@.subrange(0, 0) =~= Seq::<char>::empty());
    }
    while i < v.len()
        invariant
            i <= v@.len(),
            all_digits(v@.subrange(0, i as int)),
            over == (digits_value(v@.subrange(0, i as int)) > max),
            !over ==> acc == digits_value(v@.subrange(0, i as int)),
            acc <= max,
        decreases v.len() - i,
    {
        let c = v[i];
        if !('0' <= c && c <= '9') {
            proof {
                assert(v@[i as int] == c);
            }
            return None;
        }
        proof {
            let t = v@.subrange(0, i + 1);
            assert(t.drop_last() =~= v@.subrange(0, i as int));
            assert(all_digits(t));
            lemma_digits_value_nonneg(v@.subrange(0, i as int));
        }
        let d = (c as u8 - 48) as u64;
        if !over {
            if d > max || acc > (max - d) / 10 {
                proof {
                    if d <= max {
                        assert(acc * 10 + d > max) by (nonlinear_arith)
                            requires
                                acc > (max - d) / 10,
                                d <= max,
                        ;
                    }
                }
                over = true;
            } else {
                proof {
                    assert(acc * 10 + d <= max) by (nonlinear_arith)
                        requires
                            acc <= (max - d) / 10,
                            d <= max,
                    ;
                }
                acc = acc * 10 + d;
            }
        }
        i = i + 1;
    }
    proof {
        assert(v@.subrange(0, v@.len() as int) =~= v@);
    }
    if over {
        None
    } else {
        Some(acc)
    }
}

/// `u64::from_str` restricted to values at most `max` (`u16`, `u32`, ...).
pub fn parse_unsigned_upto(v: &[char], max: u64) -> (r: Option<u64>)
    ensures
        match r {
            Some(x) => parse_unsigned(v@, max as int) == Some(x as int),
            None => parse_unsigned(v@, max as int) is None,
        },
{
    let body = if v.len() > 0 && v[0] == '+' {
        slice_of(v, 1, v.len())
    } else {
        slice_of(v, 0, v.len())
    };
    proof {
        assert(body@ =~= unsigned_body(v@));
    }
    if body.len() == 0 {
        return None;
    }
    digits_upto(body.as_slice(), max)
}

/// `i64::from_str`: one optional sign, at least one digit, a value in range.
pub open spec fn parse_signed(s: Seq<char>) -> Option<int> {
    if s.len() > 0 && s[0] == '-' {
        let b = s.drop_first();
        if b.len() > 0 && all_digits(b) && digits_value(b) <= 0x8000_0000_0000_0000 {
            Some(-digits_value(b))
        } else {
            None
        }
    } else {
        parse_unsigned(s, 0x7fff_ffff_ffff_ffff)
    }
}

/// `i64::from_str`.
pub fn parse_i64(v: &[char]) -> (r: Option<i64>)
    ensures
        match r {
            Some(x) => parse_signed(v@) == Some(x as int),
            None => parse_signed(v@) is None,
        },
{
    if v.len() > 0 && v[0] == '-' {
        let body = slice_of(v, 1, v.len());
        proof {
            assert(body@ =~= v@.drop_first());
        }
        if body.len() == 0 {
            return None;
        }
        match digits_upto(body.as_slice(), 0x8000_0000_0000_0000u64) {
            Some(x) => {
                assert(parse_signed(v@) == Some(-(x as int)));
                if x == 0x8000_0000_0000_0000u64 {
                    assert(i64::MIN as int == -(x as int));
                    Some(i64::MIN)
                } else {
                    let y = -(x as i64);
                    assert(y as int == -(x as int));
                    Some(y)
                }
            },
            None => {
                assert(parse_signed(v@) is None);
                None
            },
        }
    } else {
        assert(parse_signed(v@) == parse_unsigned(v@, 0x7fff_ffff_ffff_ffff));
        match parse_unsigned_upto(v, 0x7fff_ffff_ffff_ffffu64) {
            Some(x) => {
                Some(x as i64)
            },
            None => None,
        }
    }
}

/// `s` with every leading and trailing `c` removed (`str::trim_matches`).
pub open spec fn trim_char(s: Seq<char>, c: char) -> Seq<char> {
    let a = lead_count(s, c);
    let t = s.subrange(a as int, s.len() as int);
    t.subrange(0, t.len() - trail_count(t, c))
}

/// Number of leading `c` in `s`.
pub open spec fn lead_count(s: Seq<char>, c: char) -> nat
    decreases s.len(),
{
    if s.len() > 0 && s[0] == c {
        1 + lead_count(s.drop_first(), c)
    } else {
        0
    }
}

/// Number of trailing `c` in `s`.
pub open spec fn trail_count(s: Seq<char>, c: char) -> nat
    decreases s.len(),
{
    if s.len() > 0 && s.last() == c {
        1 + trail_count(s.drop_last(), c)
    } else {
        0
    }
}

pub proof fn lemma_lead_count_bound(s: Seq<char>, c: char)
    ensures
        lead_count(s, c) <= s.len(),
    decreases s.len(),
{
    if s.len() > 0 && s[0] == c {
        lemma_lead_count_bound(s.drop_first(), c);
    }
}

pub proof fn lemma_trail_count_bound(s: Seq<char>, c: char)
    ensures
        trail_count(s, c) <= s.len(),
    decreases s.len(),
{
    if s.len() > 0 && s.last() == c {
        lemma_trail_count_bound(s.drop_last(), c);
    }
}

/// `str::trim_start_matches` for a character: `v` without its leading `c`.
pub fn trim_start_char(v: &[char], c: char) -> (r: Vec<char>)
    ensures
        r@ == v@.subrange(lead_count(v@, c) as int, v@.len() as int),
        lead_count(v@, c) <= v@.len(),
{
    let n = v.len();
    let mut i: usize = 0;
    proof {
        assert(v@.subrange(0, n as int) =~= v@);
        lemma_lead_count_bound(v@, c);
    }
    while i < n && v[i] == c
        invariant
            i <= n == v@.len(),
            lead_count(v@, c) == i + lead_count(v@.subrange(i as int, n as int), c),
        decreases n - i,
    {
        proof {
            assert(v@.subrange(i as int, n as int).drop_first() =~= v@.subrange(i + 1, n as int));
        }
        i = i + 1;
    }
    slice_of(v, i, n)
}

/// `str::trim_matches` for a character.
pub fn trim_char_both(v: &[char], c: char) -> (r: Vec<char>)
    ensures
        r@ == trim_char(v@, c),
{
    let t = trim_start_char(v, c);
    let n = t.len();
    let mut j: usize = n;
    proof {
        assert(t@.subrange(0, n as int) =~= t@);
        lemma_trail_count_bound(t@, c);
    }
    while j > 0 && t[j - 1] == c
        invariant
            j <= n == t@.len(),
            trail_count(t@, c) == (n - j) + trail_count(t@.subrange(0, j as int), c),
        decreases j,
    {
        proof {
            assert(t@.subrange(0, j as int).drop_last() =~= t@.subrange(0, j - 1));
        }
        j = j - 1;
    }
    slice_of(t.as_slice(), 0, j)
}


/// Number of bytes UTF-8 uses for `c`.
pub open spec fn utf8_char_len(c: char) -> int {
    let u = c as u32;
    if u < 0x80 {
        1
    } else if u < 0x800 {
        2
    } else if u < 0x10000 {
        3
    } else {
        4
    }
}

/// Number of bytes of the UTF-8 encoding of `s` (what `str::len` returns).
pub open spec fn utf8_len(s: Seq<char>) -> int
    decreases s.len(),
{
    if s.len() == 0 {
        0
    } else {
        utf8_len(s.drop_last()) + utf8_char_len(s.last())
    }
}

/// Every character of `s` is ASCII.
pub open spec fn is_ascii_seq(s: Seq<char>) -> bool {
    forall|i: int| 0 <= i < s.len() ==> (#[trigger] s[i] as u32) < 128
}

pub proof fn lemma_utf8_len_ascii(s: Seq<char>)
    requires
        is_ascii_seq(s),
    ensures
        utf8_len(s) == s.len(),
    decreases s.len(),
{
    if s.len() > 0 {
        assert(is_ascii_seq(s.drop_last()));
        lemma_utf8_len_ascii(s.drop_last());
    }
}

pub proof fn lemma_utf8_len_prefix(s: Seq<char>, k: int)
    requires
        0 <= k <= s.len(),
    ensures
        utf8_len(s.subrange(0, k)) <= utf8_len(s),
        utf8_len(s.subrange(0, k)) >= 0,
    decreases s.len() - k,
{
    if k < s.len() {
        lemma_utf8_len_prefix(s, k + 1);
        assert(s.subrange(0, k + 1).drop_last() =~= s.subrange(0, k));
        lemma_utf8_len_nonneg(s.subrange(0, k));
    } else {
        assert(s.subrange(0, k) =~= s);
        lemma_utf8_len_nonneg(s);
    }
}

pub proof fn lemma_utf8_len_nonneg(s: Seq<char>)
    ensures
        utf8_len(s) >= 0,
    decreases s.len(),
{
    if s.len() > 0 {
        lemma_utf8_len_nonneg(s.drop_last());
    }
}

/// The UTF-8 length of `v` when it is at most `cap`, else `None`.
pub fn utf8_len_upto(v: &[char], cap: usize) -> (r: Option<usize>)
    ensures
        match r {
            Some(n) => n == utf8_len(v@) && n <= cap,
            None => utf8_len(v@) > cap,
        },
{
    let mut total: usize = 0;
    let mut i: usize = 0;
    proof {
        assert(v@.subrange(0, 0) =~= Seq::<char>::empty());
    }
    while i < v.len()
        invariant
            i <= v@.len(),
            total == utf8_len(v@.subrange(0, i as int)),
            total <= cap,
        decreases v.len() - i,
    {
        let u = v[i] as u32;
        let l: usize = if u < 0x80 {
            1
        } else if u < 0x800 {
            2
        } else if u < 0x10000 {
            3
        } else {
            4
        };
        proof {
            assert(v@.subrange(0, i + 1).drop_last() =~= v@.subrange(0, i as int));
        }
        if l > cap - total {
            proof {
                lemma_utf8_len_prefix(v@, i + 1);
            }
            return None;
        }
        total = total + l;
        i = i + 1;
    }
    proof {
        assert(v@.subrange(0, v@.len() as int) =~= v@);
    }
    Some(total)
}

/// Whether every character of `v` is ASCII.
pub fn all_ascii(v: &[char]) -> (b: bool)
    ensures
        b == is_ascii_seq(v@),
{
    let mut i: usize = 0;
    while i < v.len()
        invariant
            i <= v@.len(),
            forall|j: int| 0 <= j < i ==> (#[trigger] v@[j] as u32) < 128,
        decreases v.len() - i,
    {
        if (v[i] as u32) >= 128 {
            return false;
        }
        i = i + 1;
    }
    true
}


/// The pieces joined with `sep` between neighbours (`[String]::join`).
pub open spec fn joined(parts: Seq<Seq<char>>, sep: Seq<char>) -> Seq<char>
    decreases parts.len(),
{
    if parts.len() == 0 {
        Seq::empty()
    } else if parts.len() == 1 {
        parts[0]
    } else {
        joined(parts.drop_last(), sep) + sep + parts.last()
    }
}

/// The character sequences of a list of strings.
pub open spec fn string_views(v: Seq<String>) -> Seq<Seq<char>> {
    v.map_values(|s: String| s@)
}

/// `parts.join(sep)`.
pub fn join_strings(parts: &Vec<String>, sep: &str) -> (r: String)
    ensures
        r@ == joined(string_views(parts@), sep@),
{
    let mut r = String::new();
    let mut i: usize = 0;
    while i < parts.len()
        invariant
            i <= parts@.len(),
            r@ == joined(string_views(parts@.subrange(0, i as int)), sep@),
        decreases parts.len() - i,
    {
        proof {
            let a = string_views(parts@.subrange(0, i + 1));
            assert(a.drop_last() =~= string_views(parts@.subrange(0, i as int)));
            assert(a.last() == parts@[i as int]@);
        }
        if i > 0 {
            r.append(sep);
        }
        r.append(parts[i].as_str());
        proof {
            if i == 0 {
                assert(r@ =~= string_views(parts@.subrange(0, 1))[0]);
            }
        }
        i = i + 1;
    }
    proof {
        assert(parts@.subrange(0, parts@.len() as int) =~= parts@);
    }
    r
}

/// The decimal representation of `n` as a `String`.
pub fn dec_string(n: u64) -> (r: String)
    ensures
        r@ == dec(n as nat),
{
    let v = dec_chars(n);
    string_of(&v)
}


/// The UTF-8 length, peeling the first character instead of the last.
pub proof fn lemma_utf8_len_front(s: Seq<char>)
    requires
        s.len() > 0,
    ensures
        utf8_len(s) == utf8_char_len(s[0]) + utf8_len(s.drop_first()),
    decreases s.len(),
{
    if s.len() == 1 {
        assert(s.drop_first() =~= Seq::<char>::empty());
        assert(s.drop_last() =~= Seq::<char>::empty());
    } else {
        lemma_utf8_len_front(s.drop_last());
        assert(s.drop_last().drop_first() =~= s.drop_first().drop_last());
    }
}

/// The number of bytes UTF-8 uses for `s` is [`utf8_len`].
pub proof fn lemma_bytes_len(s: Seq<char>)
    ensures
        vstd::utf8::encode_utf8(s).len() == utf8_len(s),
    decreases s.len(),
{
    if s.len() > 0 {
        lemma_bytes_len(s.drop_first());
        lemma_utf8_len_front(s);
        vstd::utf8::char_is_scalar(s[0]);
    }
}


/// Appends the decimal representation of `n`.
pub fn append_dec(s: &mut String, n: u64)
    ensures
        final(s)@ == old(s)@ + dec(n as nat),
{
    let d = dec_string(n);
    s.append(d.as_str());
}

/// `n` copies of `c`.
pub open spec fn repeat_char(c: char, n: nat) -> Seq<char> {
    Seq::new(n, |i: int| c)
}

/// Appends `n` copies of `c`.
pub fn append_repeat(s: &mut String, c: char, n: usize)
    ensures
        final(s)@ == old(s)@ + repeat_char(c, n as nat),
{
    let ghost start = s@;
    let mut k: usize = 0;
    while k < n
        invariant
            k <= n,
            s@ =~= start + repeat_char(c, k as nat),
        decreases n - k,
    {
        push_char(s, c);
        k = k + 1;
        proof {
            assert(repeat_char(c, k as nat) =~= repeat_char(c, (k - 1) as nat).push(c));
        }
    }
}


/// Position of the first occurrence of `p` in `s`, or -1.
pub closed spec fn first_occurrence(s: Seq<char>, p: Seq<char>) -> int {
    if contains(s, p) {
        choose|i: int| occurs_at(s, p, i) && forall|j: int| 0 <= j < i ==> !occurs_at(s, p, j)
    } else {
        -1
    }
}

/// `str::find` with a string pattern.
pub fn find_seq(v: &[char], p: &[char]) -> (r: Option<usize>)
    ensures
        match r {
            Some(k) => k == first_occurrence(v@, p@) && occurs_at(v@, p@, k as int),
            None => !contains(v@, p@) && first_occurrence(v@, p@) == -1,
        },
{
    if p.len() > v.len() {
        proof {
            assert forall|i: int| !occurs_at(v@, p@, i) by {}
        }
        return None;
    }
    let last = v.len() - p.len();
    let mut i: usize = 0;
    while i <= last
        invariant
            last + p@.len() == v@.len(),
            v@.len() <= usize::MAX,
            i <= last + 1,
            forall|j: int| 0 <= j < i ==> !occurs_at(v@, p@, j),
        decreases last + 1 - i,
    {
        if matches_at(v, p, i) {
            proof {
                let w = choose|k: int|
                    occurs_at(v@, p@, k) && forall|j: int| 0 <= j < k ==> !occurs_at(v@, p@, j);
                assert(occurs_at(v@, p@, i as int) && forall|j: int|
                    0 <= j < i ==> !occurs_at(v@, p@, j));
                if w < i {
                } else if w > i {
                }
            }
            return Some(i);
        }
        if i == last {
            proof {
                assert forall|j: int| !occurs_at(v@, p@, j) by {
                    if 0 <= j && j <= i {
                    }
                }
            }
            return None;
        }
        i = i + 1;
    }
    proof {
        assert forall|j: int| !occurs_at(v@, p@, j) by {
            if 0 <= j && j < i {
            }
        }
    }
    None
}



/// The Unicode lowercase mapping of `s` (`str::to_lowercase`).
pub uninterp spec fn lowercase_of(s: Seq<char>) -> Seq<char>;

/// The Unicode uppercase mapping of `s` (`str::to_uppercase`).
pub uninterp spec fn uppercase_of(s: Seq<char>) -> Seq<char>;

/// `str::to_lowercase`: each character mapped to its Unicode lowercase form.
/// Claimed of it: the result is a function of `s` alone.
#[verifier::external_body]
pub(crate) fn to_lower(s: &str) -> (r: String)
    ensures
        r@ == lowercase_of(s@),
{
    s.to_lowercase()
}

/// `str::to_uppercase`: each character mapped to its Unicode uppercase form.
/// Claimed of it: the result is a function of `s` alone.
#[verifier::external_body]
pub(crate) fn to_upper(s: &str) -> (r: String)
    ensures
        r@ == uppercase_of(s@),
{
    s.to_uppercase()
}


/// `first_occurrence` is -1 or the first position where `p` occurs.
pub proof fn lemma_first_occurrence(s: Seq<char>, p: Seq<char>)
    ensures
        first_occurrence(s, p) == -1 || (occurs_at(s, p, first_occurrence(s, p)) && forall|j: int|
            0 <= j < first_occurrence(s, p) ==> !occurs_at(s, p, j)),
        first_occurrence(s, p) == -1 <==> !contains(s, p),
{
    if contains(s, p) {
        let w = choose|i: int| occurs_at(s, p, i);
        lemma_least_occurrence(s, p, w);
    }
}

proof fn lemma_least_occurrence(s: Seq<char>, p: Seq<char>, w: int)
    requires
        occurs_at(s, p, w),
    ensures
        exists|i: int| occurs_at(s, p, i) && forall|j: int| 0 <= j < i ==> !occurs_at(s, p, j),
    decreases w,
{
    if exists|j: int| 0 <= j < w && occurs_at(s, p, j) {
        let j = choose|j: int| 0 <= j < w && occurs_at(s, p, j);
        lemma_least_occurrence(s, p, j);
    } else {
        assert(occurs_at(s, p, w) && forall|j: int| 0 <= j < w ==> !occurs_at(s, p, j));
    }
}

/// `str::split` with a non-empty string pattern: the pieces between
/// non-overlapping occurrences, found left to right.
#[verifier::opaque]
pub open spec fn split_str(s: Seq<char>, p: Seq<char>) -> Seq<Seq<char>>
    decreases s.len(),
{
    let k = first_occurrence(s, p);
    if p.len() == 0 || k < 0 {
        seq![s]
    } else {
        proof {
            lemma_first_occurrence(s, p);
        }
        seq![s.subrange(0, k)] + split_str(s.subrange(k + p.len(), s.len() as int), p)
    }
}

/// `str::replace`: every occurrence of the non-empty `pat`, left to right,
/// replaced by `rep`.
pub open spec fn replace_all(s: Seq<char>, pat: Seq<char>, rep: Seq<char>) -> Seq<char> {
    joined(split_str(s, pat), rep)
}

/// One step of [`split_str`]: the piece before the first occurrence, then
/// the pieces of the rest.
pub proof fn lemma_split_str_step(s: Seq<char>, p: Seq<char>)
    requires
        p.len() > 0,
    ensures
        first_occurrence(s, p) >= 0 ==> split_str(s, p) == seq![s.subrange(0, first_occurrence(s, p))]
            + split_str(s.subrange(first_occurrence(s, p) + p.len(), s.len() as int), p),
        first_occurrence(s, p) < 0 ==> split_str(s, p) == seq![s],
{
    reveal(split_str);
}

/// Splits `v` at the non-overlapping occurrences of the non-empty `p`.
#[verifier::spinoff_prover]
#[verifier::rlimit(40)]
pub fn split_str_of(v: &[char], p: &[char]) -> (r: Vec<Vec<char>>)
    requires
        p@.len() > 0,
    ensures
        views(r@) == split_str(v@, p@),
{
    let mut out: Vec<Vec<char>> = Vec::new();
    let mut rest: Vec<char> = slice_of(v, 0, v.len());
    proof {
        assert(v@.subrange(0, v@.len() as int) =~= v@);
    }
    loop
        invariant
            p@.len() > 0,
            split_str(v@, p@) == views(out@) + split_str(rest@, p@),
        decreases rest@.len(),
    {
        proof {
            lemma_split_str_step(rest@, p@);
        }
        match find_seq(rest.as_slice(), p) {
            Some(k) => {
                let plen = p.len();
                let rlen = rest.len();
                proof {
                    assert(k + plen <= rlen);
                }
                let head = slice_of(rest.as_slice(), 0, k);
                let tail = slice_of(rest.as_slice(), k + plen, rlen);
                let ghost before = out@;
                let ghost old_rest = rest@;
                proof {
                    assert(head@ == old_rest.subrange(0, first_occurrence(old_rest, p@)));
                    assert(tail@ == old_rest.subrange(
                        first_occurrence(old_rest, p@) + p@.len(),
                        old_rest.len() as int,
                    ));
                    assert(split_str(old_rest, p@) == seq![head@] + split_str(tail@, p@));
                    let a = views(before);
                    let b = split_str(tail@, p@);
                    assert(a + (seq![head@] + b) =~= a.push(head@) + b);
                }
                out.push(head);
                rest = tail;
                proof {
                    assert(views(out@) =~= views(before).push(head@));
                }
            },
            None => {
                let ghost before = out@;
                out.push(rest);
                proof {
                    assert(views(out@) =~= views(before) + split_str(rest@, p@));
                }
                return out;
            },
        }
    }
}

/// Each character vector as a `String`.
pub fn strings_of(parts: &Vec<Vec<char>>) -> (r: Vec<String>)
    ensures
        string_views(r@) == views(parts@),
{
    let mut strs: Vec<String> = Vec::new();
    let mut i: usize = 0;
    while i < parts.len()
        invariant
            i <= parts@.len(),
            string_views(strs@) == views(parts@).subrange(0, i as int),
        decreases parts.len() - i,
    {
        let ghost before = strs@;
        let t = string_of(&parts[i]);
        strs.push(t);
        proof {
            assert(string_views(strs@) =~= string_views(before).push(t@));
            assert(views(parts@)[i as int] == parts@[i as int]@);
            assert(string_views(strs@) =~= views(parts@).subrange(0, i + 1));
        }
        i = i + 1;
    }
    proof {
        assert(views(parts@).subrange(0, parts@.len() as int) =~= views(parts@));
    }
    strs
}

/// `str::replace` with a non-empty pattern.
pub fn replace_str(s: &str, pat: &str, rep: &str) -> (r: String)
    requires
        pat@.len() > 0,
    ensures
        r@ == replace_all(s@, pat@, rep@),
{
    let v = chars_of(s);
    let pv = chars_of(pat);
    let parts = split_str_of(v.as_slice(), pv.as_slice());
    let strs = strings_of(&parts);
    join_strings(&strs, rep)
}


/// `s` without one leading `+` or `-`.
pub open spec fn unsigned_part(s: Seq<char>) -> Seq<char> {
    if s.len() > 0 && (s[0] == '+' || s[0] == '-') {
        s.drop_first()
    } else {
        s
    }
}

/// The digits of a decimal number with an optional point: `d+`, `d+.d*` or
/// `d*.d+`.
pub open spec fn mantissa_ok(m: Seq<char>) -> bool {
    let d = first_index(m, '.');
    if d >= 0 {
        all_digits(m.subrange(0, d)) && all_digits(m.subrange(d + 1, m.len() as int)) && (d > 0
            || m.len() > d + 1)
    } else {
        m.len() > 0 && all_digits(m)
    }
}

/// A decimal number with an optional exponent `e[+-]?d+` (lower case).
pub open spec fn number_ok(l: Seq<char>) -> bool {
    let e = first_index(l, 'e');
    if e >= 0 {
        let x = unsigned_part(l.subrange(e + 1, l.len() as int));
        mantissa_ok(l.subrange(0, e)) && x.len() > 0 && all_digits(x)
    } else {
        mantissa_ok(l)
    }
}

/// Text that `f32::from_str` accepts: an optional sign, then `inf`,
/// `infinity`, `nan` or a decimal number with an optional exponent, letters
/// in any case.
pub open spec fn float_literal(s: Seq<char>) -> bool {
    let l = ascii_lower(unsigned_part(s));
    l == "inf"@ || l == "infinity"@ || l == "nan"@ || number_ok(l)
}

/// Whether every character of `v[a..b]` is an ASCII digit.
fn digits_between(v: &[char], a: usize, b: usize) -> (r: bool)
    requires
        a <= b <= v@.len(),
    ensures
        r == all_digits(v@.subrange(a as int, b as int)),
{
    let mut i = a;
    while i < b
        invariant
            a <= i <= b <= v@.len(),
            all_digits(v@.subrange(a as int, i as int)),
        decreases b - i,
    {
        if !('0' <= v[i] && v[i] <= '9') {
            proof {
                assert(v@.subrange(a as int, b as int)[i - a] == v@[i as int]);
            }
            return false;
        }
        proof {
            assert forall|j: int| 0 <= j < i + 1 - a implies is_digit(
                #[trigger] v@.subrange(a as int, i + 1)[j],
            ) by {
                if j < i - a {
                    assert(v@.subrange(a as int, i + 1)[j] == v@.subrange(a as int, i as int)[j]);
                }
            }
        }
        i = i + 1;
    }
    true
}

/// [`mantissa_ok`] on `v[a..b]`.
fn mantissa_between(v: &[char], a: usize, b: usize) -> (r: bool)
    requires
        a <= b <= v@.len(),
    ensures
        r == mantissa_ok(v@.subrange(a as int, b as int)),
{
    let m = slice_of(v, a, b);
    match find_char(m.as_slice(), '.') {
        Some(d) => {
            proof {
                lemma_first_index(m@, '.');
            }
            digits_between(m.as_slice(), 0, d) && digits_between(m.as_slice(), d + 1, m.len()) && (d
                > 0 || m.len() > d + 1)
        },
        None => {
            proof {
                assert(m@.subrange(0, m@.len() as int) =~= m@);
            }
            m.len() > 0 && digits_between(m.as_slice(), 0, m.len())
        },
    }
}

/// Whether `f32::from_str` accepts `v` ([`float_literal`]).
pub fn is_float_literal(v: &[char]) -> (r: bool)
    ensures
        r == float_literal(v@),
{
    let start: usize = if v.len() > 0 && (v[0] == '+' || v[0] == '-') {
        1
    } else {
        0
    };
    let body = slice_of(v, start, v.len());
    proof {
        assert(body@ =~= unsigned_part(v@));
    }
    let l = to_ascii_lower(body.as_slice());
    let inf = chars_of("inf");
    let infinity = chars_of("infinity");
    let nan = chars_of("nan");
    if same(l.as_slice(), inf.as_slice()) || same(l.as_slice(), infinity.as_slice()) || same(
        l.as_slice(),
        nan.as_slice(),
    ) {
        return true;
    }
    match find_char(l.as_slice(), 'e') {
        Some(e) => {
            proof {
                lemma_first_index(l@, 'e');
            }
            if !mantissa_between(l.as_slice(), 0, e) {
                return false;
            }
            let x0 = e + 1;
            let xs: usize = if x0 < l.len() && (l[x0] == '+' || l[x0] == '-') {
                x0 + 1
            } else {
                x0
            };
            proof {
                assert(l@.subrange(xs as int, l@.len() as int) =~= unsigned_part(
                    l@.subrange(e + 1, l@.len() as int),
                ));
            }
            xs < l.len() && digits_between(l.as_slice(), xs, l.len())
        },
        None => {
            proof {
                assert(l@.subrange(0, l@.len() as int) =~= l@);
            }
            mantissa_between(l.as_slice(), 0, l.len())
        },
    }
}

} // verus!
