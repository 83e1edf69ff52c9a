//! Text as sequences of characters: the vocabulary in which the rest of the
//! library states what it reads and what it writes.
use vstd::prelude::*;

verus! {

// ── Standard library ────────────────────────────────────────────────────
/// `String::push` appends the given character to the end of the string.
pub assume_specification[ String::push ](s: &mut String, c: char)
    ensures
        final(s)@ == old(s)@.push(c),
;

/// `str`'s `==` holds exactly when both strings have the same characters.
pub assume_specification[ <str as PartialEq>::eq ](a: &str, b: &str) -> (r: bool)
    ensures
        r == (a@ == b@),
;

/// Whether a character is a letter or a number in any script.
pub uninterp spec fn any_alphanumeric(c: char) -> bool;

/// `char::is_alphanumeric` is decided by the character alone; on ASCII it holds
/// of letters and digits.
pub assume_specification[ char::is_alphanumeric ](c: char) -> (r: bool)
    ensures
        r == any_alphanumeric(c),
        (c as int) < 128 ==> r == alnum(c),
;

// ── Views of collections ────────────────────────────────────────────────
/// The views of the items of a sequence, in order.
pub open spec fn views<T: View>(s: Seq<T>) -> Seq<T::V> {
    Seq::new(s.len(), |i: int| s[i]@)
}

pub broadcast proof fn lemma_views_push<T: View>(s: Seq<T>, x: T)
    ensures
        #[trigger] views(s.push(x)) == views(s).push(x@),
{
}

pub broadcast proof fn lemma_views_add<T: View>(s: Seq<T>, t: Seq<T>)
    ensures
        #[trigger] views(s + t) == views(s) + views(t),
{
}

pub broadcast proof fn lemma_views_empty<T: View>(s: Seq<T>)
    requires
        s.len() == 0,
    ensures
        #[trigger] views(s) == Seq::<T::V>::empty(),
{
}

pub broadcast group group_views {
    lemma_views_push,
    lemma_views_add,
    lemma_views_empty,
}

/// The characters of an optional string.
pub open spec fn opt(o: Option<String>) -> Option<Seq<char>> {
    match o {
        Some(s) => Some(s@),
        None => None,
    }
}

/// The characters of an optional list of strings.
pub open spec fn opt_list(o: Option<Vec<String>>) -> Option<Seq<Seq<char>>> {
    match o {
        Some(v) => Some(views(v@)),
        None => None,
    }
}

// ── Characters ──────────────────────────────────────────────────────────
/// The characters with the Unicode property `White_Space`.
pub open spec fn white(c: char) -> bool {
    let n = c as int;
    ||| 9 <= n <= 13
    ||| n == 32
    ||| n == 0x85
    ||| n == 0xa0
    ||| n == 0x1680
    ||| 0x2000 <= n <= 0x200a
    ||| n == 0x2028
    ||| n == 0x2029
    ||| n == 0x202f
    ||| n == 0x205f
    ||| n == 0x3000
}

pub fn is_white(c: char) -> (r: bool)
    ensures
        r == white(c),
{
    let n: u32 = c as u32;
    (n >= 9 && n <= 13) || n == 32 || n == 0x85 || n == 0xa0 || n == 0x1680 || (n >= 0x2000 && n
        <= 0x200a) || n == 0x2028 || n == 0x2029 || n == 0x202f || n == 0x205f || n == 0x3000
}

pub open spec fn digit(c: char) -> bool {
    '0' <= c <= '9'
}

pub open spec fn lower_letter(c: char) -> bool {
    'a' <= c <= 'z'
}

pub open spec fn upper_letter(c: char) -> bool {
    'A' <= c <= 'Z'
}

pub open spec fn alnum(c: char) -> bool {
    digit(c) || lower_letter(c) || upper_letter(c)
}

pub fn is_digit(c: char) -> (r: bool)
    ensures
        r == digit(c),
{
    '0' <= c && c <= '9'
}

pub fn is_alnum(c: char) -> (r: bool)
    ensures
        r == alnum(c),
{
    ('0' <= c && c <= '9') || ('a' <= c && c <= 'z') || ('A' <= c && c <= 'Z')
}

/// ASCII letters in lower case, every other character as it is.
pub open spec fn lower_char(c: char) -> char {
    if upper_letter(c) {
        (c as int + 32) as char
    } else {
        c
    }
}

pub open spec fn lower(s: Seq<char>) -> Seq<char> {
    Seq::new(s.len(), |i: int| lower_char(s[i]))
}

pub fn to_lower_char(c: char) -> (r: char)
    ensures
        r == lower_char(c),
{
    if 'A' <= c && c <= 'Z' {
        let n: u8 = c as u8;
        (n + 32u8) as char
    } else {
        c
    }
}

pub fn to_lower(s: &str) -> (r: String)
    ensures
        r@ == lower(s@),
{
    let v = chars_of(s);
    let mut out = String::new();
    let mut i: usize = 0;
    while i < v.len()
        invariant
            v@ == s@,
            i <= v.len(),
            out@ == lower(s@).take(i as int),
        decreases v.len() - i,
    {
        out.push(to_lower_char(v[i]));
        assert(out@ =~= lower(s@).take(i + 1));
        i += 1;
    }
    assert(lower(s@).take(i as int) =~= lower(s@));
    out
}

// ── Building strings ────────────────────────────────────────────────────
/// The characters of a string, one by one.
pub fn chars_of(s: &str) -> (r: Vec<char>)
    ensures
        r@ == s@,
{
    let mut v: Vec<char> = Vec::new();
    for c in it: s.chars()
        invariant
            v@ == it.seq().take(it.index() as int),
            it.seq() == s@,
    {
        v.push(c);
    }
    v
}

/// The string of the characters from one index to another.
pub fn slice_of(v: &Vec<char>, from: usize, to: usize) -> (r: String)
    requires
        from <= to <= v.len(),
    ensures
        r@ == v@.subrange(from as int, to as int),
{
    let mut out = String::new();
    let mut i: usize = from;
    while i < to
        invariant
            from <= i <= to <= v.len(),
            out@ == v@.subrange(from as int, i as int),
        decreases to - i,
    {
        out.push(v[i]);
        assert(out@ =~= v@.subrange(from as int, i + 1));
        i += 1;
    }
    out
}

pub fn own(s: &str) -> (r: String)
    ensures
        r@ == s@,
{
    s.to_owned()
}

pub fn own_opt(o: &Option<String>) -> (r: Option<String>)
    ensures
        opt(r) == opt(*o),
{
    match o {
        Some(s) => Some(s.clone()),
        None => None,
    }
}

/// A copy of a list of strings.
pub fn own_list(v: &Vec<String>) -> (r: Vec<String>)
    ensures
        views(r@) == views(v@),
{
    let mut out: Vec<String> = Vec::new();
    let mut i: usize = 0;
    while i < v.len()
        invariant
            i <= v.len(),
            views(out@) == views(v@).take(i as int),
        decreases v.len() - i,
    {
        broadcast use group_views;

        out.push(v[i].clone());
        assert(views(out@) =~= views(v@).take(i + 1));
        i += 1;
    }
    assert(views(v@).take(i as int) =~= views(v@));
    out
}

pub fn own_opt_list(o: &Option<Vec<String>>) -> (r: Option<Vec<String>>)
    ensures
        opt_list(r) == opt_list(*o),
{
    match o {
        Some(v) => Some(own_list(v)),
        None => None,
    }
}

pub fn same(a: &str, b: &str) -> (r: bool)
    ensures
        r == (a@ == b@),
{
    *a == *b
}

pub fn cat2(a: &str, b: &str) -> (r: String)
    ensures
        r@ == a@ + b@,
{
    let mut out = a.to_owned();
    out.append(b);
    out
}

pub fn cat3(a: &str, b: &str, c: &str) -> (r: String)
    ensures
        r@ == a@ + b@ + c@,
{
    let mut out = cat2(a, b);
    out.append(c);
    out
}

pub fn cat4(a: &str, b: &str, c: &str, d: &str) -> (r: String)
    ensures
        r@ == a@ + b@ + c@ + d@,
{
    let mut out = cat3(a, b, c);
    out.append(d);
    out
}

pub fn cat5(a: &str, b: &str, c: &str, d: &str, e: &str) -> (r: String)
    ensures
        r@ == a@ + b@ + c@ + d@ + e@,
{
    let mut out = cat4(a, b, c, d);
    out.append(e);
    out
}

pub fn cat7(a: &str, b: &str, c: &str, d: &str, e: &str, f: &str, g: &str) -> (r: String)
    ensures
        r@ == a@ + b@ + c@ + d@ + e@ + f@ + g@,
{
    let mut out = cat5(a, b, c, d, e);
    out.append(f);
    out.append(g);
    out
}

/// The first `n` strings with the separator between any two of them.
pub open spec fn join_n(ss: Seq<Seq<char>>, sep: Seq<char>, n: nat) -> Seq<char>
    decreases n,
{
    if n == 0 {
        seq![]
    } else if n == 1 {
        ss[0]
    } else {
        join_n(ss, sep, (n - 1) as nat) + sep + ss[n - 1]
    }
}

pub open spec fn join(ss: Seq<Seq<char>>, sep: Seq<char>) -> Seq<char> {
    join_n(ss, sep, ss.len())
}

pub fn join_strings(v: &Vec<String>, sep: &str) -> (r: String)
    ensures
        r@ == join(views(v@), sep@),
{
    let mut out = String::new();
    let mut i: usize = 0;
    while i < v.len()
        invariant
            i <= v.len(),
            out@ == join_n(views(v@), sep@, i as nat),
        decreases v.len() - i,
    {
        if i > 0 {
            out.append(sep);
        }
        out.append(v[i].as_str());
        assert(out@ =~= join_n(views(v@), sep@, (i + 1) as nat));
        i += 1;
    }
    out
}

// ── Searching ───────────────────────────────────────────────────────────
/// The least index from `from` on at which `c` stands; the length, if there is none.
pub open spec fn index_of(s: Seq<char>, c: char, from: int) -> int
    decreases s.len() - from,
{
    if from < 0 || from >= s.len() {
        s.len() as int
    } else if s[from] == c {
        from
    } else {
        index_of(s, c, from + 1)
    }
}

pub proof fn lemma_index_of(s: Seq<char>, c: char, from: int)
    requires
        0 <= from <= s.len(),
    ensures
        from <= index_of(s, c, from) <= s.len(),
        index_of(s, c, from) < s.len() ==> s[index_of(s, c, from)] == c,
        forall|j: int| from <= j < index_of(s, c, from) ==> s[j] != c,
        index_of(s, c, from) < s.len() <==> exists|j: int| from <= j < s.len() && s[j] == c,
    decreases s.len() - from,
{
    if from < s.len() && s[from] != c {
        lemma_index_of(s, c, from + 1);
    }
}

/// The greatest index below `n` at which `c` stands; -1, if there is none.
pub open spec fn last_index_of(s: Seq<char>, c: char, n: int) -> int
    decreases n,
{
    if n <= 0 || n > s.len() {
        -1
    } else if s[n - 1] == c {
        n - 1
    } else {
        last_index_of(s, c, n - 1)
    }
}

pub proof fn lemma_last_index_of(s: Seq<char>, c: char, n: int)
    requires
        0 <= n <= s.len(),
    ensures
        -1 <= last_index_of(s, c, n) < n || n == 0,
        -1 <= last_index_of(s, c, n),
        0 <= last_index_of(s, c, n) ==> s[last_index_of(s, c, n)] == c,
        forall|j: int| last_index_of(s, c, n) < j < n ==> s[j] != c,
    decreases n,
{
    if n > 0 && s[n - 1] != c {
        lemma_last_index_of(s, c, n - 1);
    }
}

/// Where `c` first stands in `v`, from `from` on.
pub fn find_from(v: &Vec<char>, c: char, from: usize) -> (r: usize)
    requires
        from <= v.len(),
    ensures
        r == index_of(v@, c, from as int),
        from <= r <= v.len(),
{
    let mut i: usize = from;
    while i < v.len()
        invariant
            from <= i <= v.len(),
            index_of(v@, c, from as int) == index_of(v@, c, i as int),
        decreases v.len() - i,
    {
        if v[i] == c {
            return i;
        }
        i += 1;
    }
    i
}

pub fn has_char(s: &str, c: char) -> (r: bool)
    ensures
        r == s@.contains(c),
{
    let v = chars_of(s);
    let i: usize = find_from(&v, c, 0);
    proof {
        lemma_index_of(v@, c, 0);
    }
    i < v.len()
}

/// Splits around the first `c`.
pub open spec fn split_once_of(s: Seq<char>, c: char) -> Option<(Seq<char>, Seq<char>)> {
    let i = index_of(s, c, 0);
    if i < s.len() {
        Some((s.subrange(0, i), s.subrange(i + 1, s.len() as int)))
    } else {
        None
    }
}

pub open spec fn opt_pair(o: Option<(String, String)>) -> Option<(Seq<char>, Seq<char>)> {
    match o {
        Some(p) => Some((p.0@, p.1@)),
        None => None,
    }
}

pub fn split_once(s: &str, c: char) -> (r: Option<(String, String)>)
    ensures
        opt_pair(r) == split_once_of(s@, c),
{
    let v = chars_of(s);
    let i: usize = find_from(&v, c, 0);
    if i < v.len() {
        Some((slice_of(&v, 0, i), slice_of(&v, i + 1, v.len())))
    } else {
        None
    }
}

/// Splits around the last `c`.
pub open spec fn rsplit_once_of(s: Seq<char>, c: char) -> Option<(Seq<char>, Seq<char>)> {
    let i = last_index_of(s, c, s.len() as int);
    if i >= 0 {
        Some((s.subrange(0, i), s.subrange(i + 1, s.len() as int)))
    } else {
        None
    }
}

pub fn rsplit_once(s: &str, c: char) -> (r: Option<(String, String)>)
    ensures
        opt_pair(r) == rsplit_once_of(s@, c),
{
    let v = chars_of(s);
    let mut n: usize = v.len();
    while n > 0
        invariant
            v@ == s@,
            n <= v.len(),
            last_index_of(s@, c, s@.len() as int) == last_index_of(s@, c, n as int),
        decreases n,
    {
        if v[n - 1] == c {
            return Some((slice_of(&v, 0, n - 1), slice_of(&v, n, v.len())));
        }
        n -= 1;
    }
    None
}

/// The parts of the text from `from` on that stand between occurrences of `c`.
pub open spec fn split_from(s: Seq<char>, c: char, from: int) -> Seq<Seq<char>>
    decreases s.len() - from,
{
    let i = index_of(s, c, from);
    if 0 <= from <= i < s.len() {
        seq![s.subrange(from, i)] + split_from(s, c, i + 1)
    } else {
        seq![s.subrange(from, s.len() as int)]
    }
}

pub open spec fn split_of(s: Seq<char>, c: char) -> Seq<Seq<char>> {
    split_from(s, c, 0)
}

pub fn split(s: &str, c: char) -> (r: Vec<String>)
    ensures
        views(r@) == split_of(s@, c),
        r.len() >= 1,
{
    let v = chars_of(s);
    let mut out: Vec<String> = Vec::new();
    let mut from: usize = 0;
    loop
        invariant
            v@ == s@,
            from <= v.len(),
            views(out@) + split_from(s@, c, from as int) == split_of(s@, c),
        ensures
            from <= v.len(),
            views(out@) + seq![s@.subrange(from as int, s@.len() as int)] == split_of(s@, c),
        decreases v.len() - from,
    {
        broadcast use group_views;

        let i: usize = find_from(&v, c, from);
        if i >= v.len() {
            break;
        }
        let ghost before = views(out@);
        out.push(slice_of(&v, from, i));
        assert(before + (seq![s@.subrange(from as int, i as int)] + split_from(s@, c, i + 1))
            =~= views(out@) + split_from(s@, c, i + 1));
        from = i + 1;
    }
    broadcast use group_views;

    let ghost before = views(out@);
    out.push(slice_of(&v, from, v.len()));
    assert(before + seq![s@.subrange(from as int, s@.len() as int)] =~= views(out@));
    out
}

/// A line without the carriage return at its end.
pub open spec fn chomp(s: Seq<char>) -> Seq<char> {
    if s.len() > 0 && s[s.len() - 1] == '\r' {
        s.subrange(0, s.len() - 1)
    } else {
        s
    }
}

/// The lines of the text from `p` on. A line ends with `\n` or `\r\n`; the last
/// one may lack its end.
pub open spec fn lines_from(s: Seq<char>, p: int) -> Seq<Seq<char>>
    decreases s.len() - p,
{
    let i = index_of(s, '\n', p);
    if p < 0 || p >= s.len() {
        seq![]
    } else if p <= i < s.len() {
        seq![chomp(s.subrange(p, i))] + lines_from(s, i + 1)
    } else {
        seq![s.subrange(p, s.len() as int)]
    }
}

pub open spec fn lines_of(s: Seq<char>) -> Seq<Seq<char>> {
    lines_from(s, 0)
}

pub proof fn lemma_lines_len(s: Seq<char>, p: int)
    requires
        0 <= p <= s.len(),
    ensures
        lines_from(s, p).len() <= s.len() - p,
    decreases s.len() - p,
{
    if p < s.len() {
        lemma_index_of(s, '\n', p);
        let i = index_of(s, '\n', p);
        if i < s.len() {
            lemma_lines_len(s, i + 1);
        }
    }
}

pub fn chomp_line(s: &str) -> (r: String)
    ensures
        r@ == chomp(s@),
{
    let v = chars_of(s);
    if v.len() > 0 && v[v.len() - 1] == '\r' {
        slice_of(&v, 0, v.len() - 1)
    } else {
        s.to_owned()
    }
}

pub fn lines(s: &str) -> (r: Vec<String>)
    ensures
        views(r@) == lines_of(s@),
        r@.len() <= s@.len(),
{
    let v = chars_of(s);
    let mut out: Vec<String> = Vec::new();
    let mut p: usize = 0;
    proof {
        lemma_lines_len(s@, 0);
    }
    assert(views(out@) + lines_from(s@, 0) =~= lines_of(s@));
    while p < v.len()
        invariant
            v@ == s@,
            p <= v.len(),
            views(out@) + lines_from(s@, p as int) == lines_of(s@),
        decreases v.len() - p,
    {
        broadcast use group_views;

        let i: usize = find_from(&v, '\n', p);
        let ghost before = views(out@);
        let whole = slice_of(&v, p, i);
        if i < v.len() {
            let line = chomp_line(whole.as_str());
            out.push(line);
            assert(before + lines_from(s@, p as int) =~= views(out@) + lines_from(s@, i + 1));
            p = i + 1;
        } else {
            out.push(whole);
            assert(lines_from(s@, i as int) =~= seq![]);
            assert(before + lines_from(s@, p as int) =~= views(out@) + lines_from(s@, i as int));
            p = i;
        }
    }
    assert(lines_from(s@, p as int) =~= seq![]);
    assert(views(out@) + lines_from(s@, p as int) =~= views(out@));
    out
}

// ── Prefixes, suffixes, trimming ────────────────────────────────────────
pub open spec fn starts(s: Seq<char>, p: Seq<char>) -> bool {
    p.len() <= s.len() && s.subrange(0, p.len() as int) == p
}

pub open spec fn ends(s: Seq<char>, p: Seq<char>) -> bool {
    p.len() <= s.len() && s.subrange(s.len() - p.len(), s.len() as int) == p
}

pub open spec fn strip_prefix_of(s: Seq<char>, p: Seq<char>) -> Option<Seq<char>> {
    if starts(s, p) {
        Some(s.subrange(p.len() as int, s.len() as int))
    } else {
        None
    }
}

pub open spec fn strip_suffix_of(s: Seq<char>, p: Seq<char>) -> Option<Seq<char>> {
    if ends(s, p) {
        Some(s.subrange(0, s.len() - p.len()))
    } else {
        None
    }
}

fn equal_at(v: &Vec<char>, at: usize, p: &Vec<char>) -> (r: bool)
    requires
        at + p.len() <= v.len(),
    ensures
        r == (v@.subrange(at as int, at + p.len()) == p@),
{
    let mut i: usize = 0;
    while i < p.len()
        invariant
            i <= p.len(),
            at + p.len() <= v.len(),
            forall|j: int| 0 <= j < i ==> v[at + j] == p[j],
        decreases p.len() - i,
    {
        if v[at + i] != p[i] {
            assert(v@.subrange(at as int, at + p.len())[i as int] != p@[i as int]);
            return false;
        }
        i += 1;
    }
    assert(v@.subrange(at as int, at + p.len()) =~= p@);
    true
}

pub fn starts_with(s: &str, p: &str) -> (r: bool)
    ensures
        r == starts(s@, p@),
{
    let v = chars_of(s);
    let w = chars_of(p);
    w.len() <= v.len() && equal_at(&v, 0, &w)
}

pub fn ends_with(s: &str, p: &str) -> (r: bool)
    ensures
        r == ends(s@, p@),
{
    let v = chars_of(s);
    let w = chars_of(p);
    w.len() <= v.len() && equal_at(&v, v.len() - w.len(), &w)
}

pub fn strip_prefix(s: &str, p: &str) -> (r: Option<String>)
    ensures
        opt(r) == strip_prefix_of(s@, p@),
{
    let v = chars_of(s);
    let w = chars_of(p);
    if w.len() <= v.len() && equal_at(&v, 0, &w) {
        Some(slice_of(&v, w.len(), v.len()))
    } else {
        None
    }
}

pub fn strip_suffix(s: &str, p: &str) -> (r: Option<String>)
    ensures
        opt(r) == strip_suffix_of(s@, p@),
{
    let v = chars_of(s);
    let w = chars_of(p);
    if w.len() <= v.len() && equal_at(&v, v.len() - w.len(), &w) {
        Some(slice_of(&v, 0, v.len() - w.len()))
    } else {
        None
    }
}

/// Whether the text begins with the character.
pub open spec fn begins(s: Seq<char>, c: char) -> bool {
    s.len() > 0 && s[0] == c
}

pub fn begins_with(s: &str, c: char) -> (r: bool)
    ensures
        r == begins(s@, c),
{
    let v = chars_of(s);
    v.len() > 0 && v[0] == c
}

/// Whether the text ends with the character.
pub open spec fn closes(s: Seq<char>, c: char) -> bool {
    s.len() > 0 && s[s.len() - 1] == c
}

pub fn closes_with(s: &str, c: char) -> (r: bool)
    ensures
        r == closes(s@, c),
{
    let v = chars_of(s);
    v.len() > 0 && v[v.len() - 1] == c
}

/// The end of the text up to `n` without the white space before it.
pub open spec fn trimmed_end(s: Seq<char>, n: int) -> int
    decreases n,
{
    if 0 < n <= s.len() && white(s[n - 1]) {
        trimmed_end(s, n - 1)
    } else {
        n
    }
}

/// The first index from `from` on at which no white space stands.
pub open spec fn trimmed_start(s: Seq<char>, from: int) -> int
    decreases s.len() - from,
{
    if 0 <= from < s.len() && white(s[from]) {
        trimmed_start(s, from + 1)
    } else {
        from
    }
}

/// The text without white space at either end.
pub open spec fn trim_of(s: Seq<char>) -> Seq<char> {
    let a = trimmed_start(s, 0);
    let b = trimmed_end(s, s.len() as int);
    if a < b {
        s.subrange(a, b)
    } else {
        seq![]
    }
}

pub fn trim(s: &str) -> (r: String)
    ensures
        r@ == trim_of(s@),
{
    let v = chars_of(s);
    let mut a: usize = 0;
    while a < v.len() && is_white(v[a])
        invariant
            v@ == s@,
            a <= v.len(),
            trimmed_start(s@, 0) == trimmed_start(s@, a as int),
        decreases v.len() - a,
    {
        a += 1;
    }
    let mut b: usize = v.len();
    while b > 0 && is_white(v[b - 1])
        invariant
            v@ == s@,
            b <= v.len(),
            trimmed_end(s@, s@.len() as int) == trimmed_end(s@, b as int),
        decreases b,
    {
        b -= 1;
    }
    if a < b {
        slice_of(&v, a, b)
    } else {
        String::new()
    }
}

/// The text without the run of `c` at its end.
pub open spec fn trim_end_of(s: Seq<char>, c: char) -> Seq<char>
    decreases s.len(),
{
    if s.len() > 0 && s[s.len() - 1] == c {
        trim_end_of(s.subrange(0, s.len() - 1), c)
    } else {
        s
    }
}

/// The text without the run of `c` at its start.
pub open spec fn trim_start_of(s: Seq<char>, c: char) -> Seq<char>
    decreases s.len(),
{
    if s.len() > 0 && s[0] == c {
        trim_start_of(s.subrange(1, s.len() as int), c)
    } else {
        s
    }
}

pub fn trim_end_char(s: &str, c: char) -> (r: String)
    ensures
        r@ == trim_end_of(s@, c),
{
    let v = chars_of(s);
    let mut n: usize = v.len();
    assert(s@.subrange(0, n as int) =~= s@);
    while n > 0 && v[n - 1] == c
        invariant
            v@ == s@,
            n <= v.len(),
            trim_end_of(s@, c) == trim_end_of(s@.subrange(0, n as int), c),
        decreases n,
    {
        assert(s@.subrange(0, n as int).subrange(0, n - 1) =~= s@.subrange(0, n - 1));
        n -= 1;
    }
    slice_of(&v, 0, n)
}

pub fn trim_start_char(s: &str, c: char) -> (r: String)
    ensures
        r@ == trim_start_of(s@, c),
{
    let v = chars_of(s);
    let mut n: usize = 0;
    assert(s@.subrange(0, s@.len() as int) =~= s@);
    while n < v.len() && v[n] == c
        invariant
            v@ == s@,
            n <= v.len(),
            trim_start_of(s@, c) == trim_start_of(s@.subrange(n as int, s@.len() as int), c),
        decreases v.len() - n,
    {
        assert(s@.subrange(n as int, s@.len() as int).subrange(1, s@.len() - n)
            =~= s@.subrange(n + 1, s@.len() as int));
        n += 1;
    }
    slice_of(&v, n, v.len())
}

/// Whether `p` stands somewhere in the text.
pub open spec fn holds(s: Seq<char>, p: Seq<char>) -> bool {
    exists|i: int| 0 <= i && i + p.len() <= s.len() && #[trigger] s.subrange(i, i + p.len()) == p
}

pub fn holds_text(s: &str, p: &str) -> (r: bool)
    ensures
        r == holds(s@, p@),
{
    let v = chars_of(s);
    let w = chars_of(p);
    if w.len() > v.len() {
        return false;
    }
    let last: usize = v.len() - w.len();
    let mut i: usize = 0;
    loop
        invariant
            v@ == s@,
            w@ == p@,
            w.len() <= v.len(),
            last == v.len() - w.len(),
            i <= last,
            forall|j: int| 0 <= j < i ==> #[trigger] s@.subrange(j, j + p@.len()) != p@,
        decreases last - i,
    {
        if equal_at(&v, i, &w) {
            assert(s@.subrange(i as int, i + p@.len()) == p@);
            return true;
        }
        if i == last {
            return false;
        }
        i += 1;
    }
}

/// The text without `p` at its start, as often as it stands there.
pub open spec fn trim_prefixes(s: Seq<char>, p: Seq<char>) -> Seq<char>
    decreases s.len(),
{
    if p.len() > 0 && starts(s, p) {
        trim_prefixes(s.subrange(p.len() as int, s.len() as int), p)
    } else {
        s
    }
}

/// The text without `p` at its end, as often as it stands there.
pub open spec fn trim_suffixes(s: Seq<char>, p: Seq<char>) -> Seq<char>
    decreases s.len(),
{
    if p.len() > 0 && ends(s, p) {
        trim_suffixes(s.subrange(0, s.len() - p.len()), p)
    } else {
        s
    }
}

pub fn trim_start_text(s: &str, p: &str) -> (r: String)
    ensures
        r@ == trim_prefixes(s@, p@),
{
    let mut cur = s.to_owned();
    if p.is_empty() {
        return cur;
    }
    loop
        invariant
            p@.len() > 0,
            trim_prefixes(s@, p@) == trim_prefixes(cur@, p@),
        decreases cur@.len(),
    {
        match strip_prefix(cur.as_str(), p) {
            Some(rest) => {
                cur = rest;
            },
            None => {
                return cur;
            },
        }
    }
}

pub fn trim_end_text(s: &str, p: &str) -> (r: String)
    ensures
        r@ == trim_suffixes(s@, p@),
{
    let mut cur = s.to_owned();
    if p.is_empty() {
        return cur;
    }
    loop
        invariant
            p@.len() > 0,
            trim_suffixes(s@, p@) == trim_suffixes(cur@, p@),
        decreases cur@.len(),
    {
        match strip_suffix(cur.as_str(), p) {
            Some(rest) => {
                cur = rest;
            },
            None => {
                return cur;
            },
        }
    }
}

/// The text without the runs of `c` at either end.
pub open spec fn trim_both(s: Seq<char>, c: char) -> Seq<char> {
    trim_end_of(trim_start_of(s, c), c)
}

pub fn trim_both_char(s: &str, c: char) -> (r: String)
    ensures
        r@ == trim_both(s@, c),
{
    trim_end_char(trim_start_char(s, c).as_str(), c)
}

// ── Order ───────────────────────────────────────────────────────────────
/// Whether `a` comes before `b` in the order of their characters, from the
/// `i`-th on.
pub open spec fn precedes_from(a: Seq<char>, b: Seq<char>, i: int) -> bool
    decreases a.len() - i,
{
    if i < 0 || i >= b.len() {
        false
    } else if i >= a.len() {
        true
    } else if a[i] == b[i] {
        precedes_from(a, b, i + 1)
    } else {
        a[i] < b[i]
    }
}

/// The order of texts: by the first character in which they differ; a text
/// comes before its continuations.
pub open spec fn precedes(a: Seq<char>, b: Seq<char>) -> bool {
    precedes_from(a, b, 0)
}

/// Two texts are not each before the other.
pub proof fn lemma_order_asymmetric(a: Seq<char>, b: Seq<char>, i: int)
    requires
        0 <= i,
        precedes_from(a, b, i),
    ensures
        !precedes_from(b, a, i),
    decreases a.len() - i,
{
    if i < a.len() && i < b.len() && a[i] == b[i] {
        lemma_order_asymmetric(a, b, i + 1);
    }
}

/// What does not come before a text does not come before one that is not after
/// that text.
pub proof fn lemma_order_transitive(a: Seq<char>, b: Seq<char>, c: Seq<char>, i: int)
    requires
        0 <= i,
        !precedes_from(b, a, i),
        !precedes_from(c, b, i),
    ensures
        !precedes_from(c, a, i),
    decreases a.len() - i,
{
    if i < a.len() && i < b.len() && i < c.len() && a[i] == b[i] && b[i] == c[i] {
        lemma_order_transitive(a, b, c, i + 1);
    }
}

/// The order is transitive.
pub proof fn lemma_order_chain(a: Seq<char>, b: Seq<char>, c: Seq<char>, i: int)
    requires
        0 <= i,
        precedes_from(a, b, i),
        precedes_from(b, c, i),
    ensures
        precedes_from(a, c, i),
    decreases a.len() - i,
{
    if i < a.len() && a[i] == b[i] && b[i] == c[i] {
        lemma_order_chain(a, b, c, i + 1);
    }
}

/// Of two different texts, one is before the other.
pub proof fn lemma_order_total(a: Seq<char>, b: Seq<char>, i: int)
    requires
        0 <= i <= a.len(),
        i <= b.len(),
        a.subrange(0, i) == b.subrange(0, i),
        !precedes_from(a, b, i),
        !precedes_from(b, a, i),
    ensures
        a == b,
    decreases a.len() - i,
{
    if i < a.len() && i < b.len() {
        assert(a[i] == b[i]);
        assert(a.subrange(0, i + 1) =~= a.subrange(0, i).push(a[i]));
        assert(b.subrange(0, i + 1) =~= b.subrange(0, i).push(b[i]));
        lemma_order_total(a, b, i + 1);
    } else {
        assert(a =~= a.subrange(0, i));
        assert(b =~= b.subrange(0, i));
    }
}

pub fn is_before(a: &str, b: &str) -> (r: bool)
    ensures
        r == precedes(a@, b@),
{
    let v = chars_of(a);
    let w = chars_of(b);
    let mut i: usize = 0;
    while i < w.len()
        invariant
            v@ == a@,
            w@ == b@,
            i <= w.len(),
            i <= v.len(),
            precedes(a@, b@) == precedes_from(a@, b@, i as int),
        decreases w.len() - i,
    {
        if i >= v.len() {
            return true;
        }
        if v[i] != w[i] {
            return v[i] < w[i];
        }
        i += 1;
    }
    false
}

// ── Numbers ─────────────────────────────────────────────────────────────
pub open spec fn all_digits(s: Seq<char>) -> bool {
    forall|i: int| 0 <= i < s.len() ==> digit(#[trigger] s[i])
}

/// The number that a run of decimal digits writes.
pub open spec fn value_of(s: Seq<char>) -> nat
    decreases s.len(),
{
    if s.len() == 0 {
        0
    } else {
        10 * value_of(s.subrange(0, s.len() - 1)) + (s[s.len() - 1] as int - '0' as int) as nat
    }
}

/// The number that a text writes in decimal, with an optional `+` before its
/// digits, if it is at most `max`.
pub open spec fn parse_dec(s: Seq<char>, max: nat) -> Option<nat> {
    let d = if begins(s, '+') {
        s.subrange(1, s.len() as int)
    } else {
        s
    };
    if d.len() > 0 && all_digits(d) && value_of(d) <= max {
        Some(value_of(d))
    } else {
        None
    }
}

proof fn lemma_value_monotonic(s: Seq<char>, n: int)
    requires
        0 <= n <= s.len(),
        all_digits(s),
    ensures
        value_of(s.subrange(0, n)) <= value_of(s),
    decreases s.len(),
{
    if n < s.len() {
        let t = s.subrange(0, s.len() - 1);
        assert(t.subrange(0, n) =~= s.subrange(0, n));
        assert(digit(s[s.len() - 1]));
        lemma_value_monotonic(t, n);
    } else {
        assert(s.subrange(0, n) =~= s);
    }
}

proof fn lemma_value_step(s: Seq<char>, n: int)
    requires
        0 <= n < s.len(),
        all_digits(s.subrange(0, n)),
        digit(s[n]),
    ensures
        all_digits(s.subrange(0, n + 1)),
        value_of(s.subrange(0, n + 1)) == 10 * value_of(s.subrange(0, n)) + (s[n] as int
            - '0' as int),
{
    let t = s.subrange(0, n + 1);
    assert(t.subrange(0, n) =~= s.subrange(0, n));
    assert forall|j: int| 0 <= j < t.len() implies digit(#[trigger] t[j]) by {
        if j < n {
            assert(digit(s.subrange(0, n)[j]));
        }
    }
}

pub open spec fn opt_nat(o: Option<u64>) -> Option<nat> {
    match o {
        Some(n) => Some(n as nat),
        None => None,
    }
}

pub fn parse_u64(s: &str, max: u64) -> (r: Option<u64>)
    ensures
        opt_nat(r) == parse_dec(s@, max as nat),
{
    let v = chars_of(s);
    let start: usize = if v.len() > 0 && v[0] == '+' {
        1
    } else {
        0
    };
    let ghost d = s@.subrange(start as int, s@.len() as int);
    assert(start == 0 ==> d =~= s@);
    if start == v.len() {
        return None;
    }
    let mut n: u64 = 0;
    let mut i: usize = start;
    while i < v.len()
        invariant
            v@ == s@,
            start <= i <= v.len(),
            start < v.len(),
            d == s@.subrange(start as int, s@.len() as int),
            d == (if begins(s@, '+') {
                s@.subrange(1, s@.len() as int)
            } else {
                s@
            }),
            n <= max,
            n == value_of(d.subrange(0, i - start)),
            all_digits(d.subrange(0, i - start)),
        decreases v.len() - i,
    {
        let c: char = v[i];
        assert(d[i - start] == c);
        if !is_digit(c) {
            return None;
        }
        let k: u64 = (c as u32 - '0' as u32) as u64;
        proof {
            lemma_value_step(d, i - start);
            if all_digits(d) {
                lemma_value_monotonic(d, i - start + 1);
            }
        }
        if n > max / 10 {
            return None;
        }
        let m: u64 = 10 * n;
        if k > max - m {
            return None;
        }
        n = m + k;
        i += 1;
    }
    assert(d.subrange(0, i - start) =~= d);
    Some(n)
}

pub fn parse_u32(s: &str) -> (r: Option<u32>)
    ensures
        match r {
            Some(n) => parse_dec(s@, u32::MAX as nat) == Some(n as nat),
            None => parse_dec(s@, u32::MAX as nat) is None,
        },
{
    match parse_u64(s, 0xffff_ffff) {
        Some(n) => Some(n as u32),
        None => None,
    }
}

pub fn parse_u16(s: &str) -> (r: Option<u16>)
    ensures
        match r {
            Some(n) => parse_dec(s@, u16::MAX as nat) == Some(n as nat),
            None => parse_dec(s@, u16::MAX as nat) is None,
        },
{
    match parse_u64(s, 0xffff) {
        Some(n) => Some(n as u16),
        None => None,
    }
}

/// The decimal digit that stands for a number below ten.
pub open spec fn digit_char(n: nat) -> char {
    (48 + n) as char
}

/// A number in decimal, without leading zeros.
pub open spec fn dec(n: nat) -> Seq<char>
    decreases n,
{
    if n < 10 {
        seq![digit_char(n)]
    } else {
        dec(n / 10).push(digit_char(n % 10))
    }
}

fn push_dec(out: &mut String, n: u64)
    ensures
        final(out)@ == old(out)@ + dec(n as nat),
    decreases n,
{
    if n >= 10 {
        push_dec(out, n / 10);
    }
    let k: u8 = (n % 10) as u8;
    out.push((48u8 + k) as char);
    assert(out@ =~= old(out)@ + dec(n as nat));
}

pub fn dec_text(n: u64) -> (r: String)
    ensures
        r@ == dec(n as nat),
{
    let mut out = String::new();
    push_dec(&mut out, n);
    assert(out@ =~= dec(n as nat));
    out
}

/// Reading back what was written in decimal gives the number.
pub proof fn law_dec_round_trip(n: nat, max: nat)
    requires
        n <= max,
    ensures
        parse_dec(dec(n), max) == Some(n),
{
    lemma_dec(n);
}

pub proof fn lemma_dec(n: nat)
    ensures
        dec(n).len() > 0,
        all_digits(dec(n)),
        value_of(dec(n)) == n,
        !begins(dec(n), '+'),
    decreases n,
{
    if n >= 10 {
        lemma_dec(n / 10);
        assert(dec(n).subrange(0, dec(n).len() - 1) =~= dec(n / 10));
    } else {
        assert(dec(n)[0] as int == 48 + n);
        assert(value_of(dec(n).subrange(0, 0)) == 0);
    }
}

// ── Lists ───────────────────────────────────────────────────────────────
pub fn list_has(v: &Vec<String>, s: &str) -> (r: bool)
    ensures
        r == views(v@).contains(s@),
{
    let mut i: usize = 0;
    while i < v.len()
        invariant
            i <= v.len(),
            forall|j: int| 0 <= j < i ==> views(v@)[j] != s@,
        decreases v.len() - i,
    {
        if same(v[i].as_str(), s) {
            assert(views(v@)[i as int] == s@);
            return true;
        }
        i += 1;
    }
    false
}

/// The first argument, or the empty text.
pub open spec fn first_or_empty(v: Seq<Seq<char>>) -> Seq<char> {
    if v.len() > 0 {
        v[0]
    } else {
        ""@
    }
}

pub fn first_arg(v: &Vec<String>) -> (r: &str)
    ensures
        r@ == first_or_empty(views(v@)),
{
    if v.len() > 0 {
        v[0].as_str()
    } else {
        ""
    }
}

} // verus!
