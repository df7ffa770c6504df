//! Text as sequences of characters: the operations on strings that the
//! connectors are written with, each stated over `Seq<char>`.
use vstd::prelude::*;

verus! {

// ---------------------------------------------------------------------------
// Items of the standard library
// ---------------------------------------------------------------------------

/// `String::push` appends one character.
pub assume_specification[ String::push ](s: &mut String, c: char)
    ensures
        final(s)@ == old(s)@.push(c),
;

/// `String::push_str` appends a string slice.
pub assume_specification[ String::push_str ](s: &mut String, other: &str)
    ensures
        final(s)@ == old(s)@ + other@,
;

/// What `char::is_alphanumeric` says of a character: a Unicode property.
pub uninterp spec fn unicode_alphanumeric(c: char) -> bool;

/// `char::is_alphanumeric`, whose answer depends on the character alone.
#[verifier::external_body]
fn unicode_is_alphanumeric(c: char) -> (r: bool)
    ensures
        r == unicode_alphanumeric(c),
{
    c.is_alphanumeric()
}

/// What `char::is_whitespace` says of a character: a Unicode property.
pub uninterp spec fn unicode_whitespace(c: char) -> bool;

/// `char::is_whitespace`, whose answer depends on the character alone.
#[verifier::external_body]
fn unicode_is_whitespace(c: char) -> (r: bool)
    ensures
        r == unicode_whitespace(c),
{
    c.is_whitespace()
}

/// What `str::to_lowercase` makes of a text: the Unicode lowercase mapping.
pub uninterp spec fn unicode_lowercase(s: Seq<char>) -> Seq<char>;

/// `str::to_lowercase`, whose result depends on the text alone.
#[verifier::external_body]
fn unicode_to_lowercase(s: &str) -> (r: String)
    ensures
        r@ == unicode_lowercase(s@),
{
    s.to_lowercase()
}

// ---------------------------------------------------------------------------
// Characters
// ---------------------------------------------------------------------------

/// A character of the ASCII range.
pub open spec fn is_ascii_char(c: char) -> bool {
    (c as u32) < 128
}

pub open spec fn is_digit(c: char) -> bool {
    '0' <= c && c <= '9'
}

pub open spec fn is_upper(c: char) -> bool {
    'A' <= c && c <= 'Z'
}

pub open spec fn is_lower(c: char) -> bool {
    'a' <= c && c <= 'z'
}

/// An ASCII letter, an ASCII digit or `_`.
pub open spec fn is_ascii_ident(c: char) -> bool {
    is_digit(c) || is_upper(c) || is_lower(c) || c == '_'
}

/// A character of an identifier: a letter or digit of any script, or `_`.
pub open spec fn is_ident(c: char) -> bool {
    if is_ascii_char(c) {
        is_ascii_ident(c)
    } else {
        unicode_alphanumeric(c)
    }
}

/// The ASCII white space that byte scanners skip: space, tab, line feed, form
/// feed and carriage return.
pub open spec fn is_ascii_space(c: char) -> bool {
    c == ' ' || c == '\t' || c == '\n' || c == '\x0C' || c == '\r'
}

/// White space of any script. In ASCII: the byte scanners' white space and the
/// vertical tab.
pub open spec fn is_white(c: char) -> bool {
    if is_ascii_char(c) {
        is_ascii_space(c) || c == '\x0B'
    } else {
        unicode_whitespace(c)
    }
}

/// The lower-case form of an ASCII capital; any other character itself.
pub open spec fn lower_char(c: char) -> char {
    if is_upper(c) {
        (c as u32 + 32) as char
    } else {
        c
    }
}

/// The upper-case form of a small ASCII letter; any other character itself.
pub open spec fn upper_char(c: char) -> char {
    if is_lower(c) {
        (c as u32 - 32) as char
    } else {
        c
    }
}

/// Whether `c` is an ASCII letter, an ASCII digit or `_`.
pub fn ascii_ident(c: char) -> (r: bool)
    ensures
        r == is_ascii_ident(c),
{
    ('0' <= c && c <= '9') || ('A' <= c && c <= 'Z') || ('a' <= c && c <= 'z') || c == '_'
}

/// Whether `c` can stand in an identifier.
pub fn is_ident_char(c: char) -> (r: bool)
    ensures
        r == is_ident(c),
{
    if (c as u32) < 128 {
        ascii_ident(c)
    } else {
        unicode_is_alphanumeric(c)
    }
}

/// Whether `c` is white space to a byte scanner.
pub fn ascii_space(c: char) -> (r: bool)
    ensures
        r == is_ascii_space(c),
{
    c == ' ' || c == '\t' || c == '\n' || c == '\x0C' || c == '\r'
}

/// Whether `c` is white space.
pub fn white(c: char) -> (r: bool)
    ensures
        r == is_white(c),
{
    if (c as u32) < 128 {
        ascii_space(c) || c == '\x0B'
    } else {
        unicode_is_whitespace(c)
    }
}

/// `c` with an ASCII capital made small.
pub fn to_lower_char(c: char) -> (r: char)
    ensures
        r == lower_char(c),
{
    if 'A' <= c && c <= 'Z' {
        ((c as u8) + 32) as char
    } else {
        c
    }
}

/// `c` with a small ASCII letter made a capital.
pub fn to_upper_char(c: char) -> (r: char)
    ensures
        r == upper_char(c),
{
    if 'a' <= c && c <= 'z' {
        ((c as u8) - 32) as char
    } else {
        c
    }
}

// ---------------------------------------------------------------------------
// Strings and vectors of characters
// ---------------------------------------------------------------------------

/// The characters of `s`.
pub fn chars_of(s: &str) -> (r: Vec<char>)
    ensures
        r@ == s@,
{
    let mut r: Vec<char> = Vec::new();
    for c in it: s.chars()
        invariant
            it.seq() == s@,
            r@ == s@.take(it.index()),
    {
        r.push(c);
    }
    r
}

/// The string of the characters `cs[from..to]`.
pub fn substring(cs: &Vec<char>, from: usize, to: usize) -> (r: String)
    requires
        from <= to <= cs.len(),
    ensures
        r@ == cs@.subrange(from as int, to as int),
{
    let mut r = String::new();
    let mut i: usize = from;
    while i < to
        invariant
            from <= i <= to <= cs.len(),
            r@ == cs@.subrange(from as int, i as int),
        decreases to - i,
    {
        r.push(cs[i]);
        i += 1;
    }
    r
}

/// The string of the characters `cs`.
pub fn string_of(cs: &Vec<char>) -> (r: String)
    ensures
        r@ == cs@,
{
    substring(cs, 0, cs.len())
}

/// Whether two texts are the same.
pub fn same_text(a: &str, b: &str) -> (r: bool)
    ensures
        r == (a@ == b@),
{
    a.to_owned() == b.to_owned()
}

/// The texts of a sequence of strings.
pub open spec fn texts(v: Seq<String>) -> Seq<Seq<char>> {
    Seq::new(v.len(), |i: int| v[i]@)
}

/// The text of an optional string.
pub open spec fn text_of(o: Option<String>) -> Option<Seq<char>> {
    match o {
        Some(s) => Some(s@),
        None => None,
    }
}

/// A copy of an optional string.
pub fn copy_text(o: &Option<String>) -> (r: Option<String>)
    ensures
        text_of(r) == text_of(*o),
{
    match o {
        Some(s) => Some(s.clone()),
        None => None,
    }
}

/// A copy of a list of strings.
pub fn copy_texts(v: &Vec<String>) -> (r: Vec<String>)
    ensures
        texts(r@) == texts(v@),
{
    let mut r: Vec<String> = Vec::new();
    let mut i: usize = 0;
    while i < v.len()
        invariant
            i <= v.len(),
            texts(r@) == texts(v@).take(i as int),
        decreases v.len() - i,
    {
        let ghost before = texts(r@);
        r.push(v[i].clone());
        assert(texts(r@) == before.push(v[i as int]@));
        i += 1;
    }
    assert(texts(v@).take(i as int) == texts(v@));
    r
}

/// Whether `name` is one of the texts of `v`.
pub fn has_text(v: &Vec<String>, name: &str) -> (r: bool)
    ensures
        r == texts(v@).contains(name@),
{
    let mut i: usize = 0;
    while i < v.len()
        invariant
            i <= v.len(),
            forall|k: int| 0 <= k < i ==> v[k]@ != name@,
        decreases v.len() - i,
    {
        if same_text(v[i].as_str(), name) {
            assert(texts(v@)[i as int] == name@);
            return true;
        }
        i += 1;
    }
    assert(!texts(v@).contains(name@));
    false
}

// ---------------------------------------------------------------------------
// Case
// ---------------------------------------------------------------------------

/// `s` with its ASCII capitals made small.
pub open spec fn lower(s: Seq<char>) -> Seq<char> {
    Seq::new(s.len(), |i: int| lower_char(s[i]))
}

/// `s` with its small ASCII letters made capitals.
pub open spec fn upper(s: Seq<char>) -> Seq<char> {
    Seq::new(s.len(), |i: int| upper_char(s[i]))
}

/// Every character of `s` is ASCII.
pub open spec fn all_ascii(s: Seq<char>) -> bool {
    forall|i: int| 0 <= i < s.len() ==> is_ascii_char(#[trigger] s[i])
}

/// The lower-case form of `s` in any script.
pub open spec fn lowercase(s: Seq<char>) -> Seq<char> {
    if all_ascii(s) {
        lower(s)
    } else {
        unicode_lowercase(s)
    }
}

/// The characters of `cs` with ASCII capitals made small.
pub fn to_lower(cs: &Vec<char>) -> (r: Vec<char>)
    ensures
        r@ == lower(cs@),
{
    let mut r: Vec<char> = Vec::new();
    let mut i: usize = 0;
    while i < cs.len()
        invariant
            i <= cs.len(),
            r@ == lower(cs@).take(i as int),
        decreases cs.len() - i,
    {
        r.push(to_lower_char(cs[i]));
        i += 1;
    }
    assert(lower(cs@).take(i as int) == lower(cs@));
    r
}

/// The text `s` with small ASCII letters made capitals.
pub fn to_upper(s: &str) -> (r: String)
    ensures
        r@ == upper(s@),
{
    let cs = chars_of(s);
    let mut r = String::new();
    let mut i: usize = 0;
    while i < cs.len()
        invariant
            i <= cs.len(),
            cs@ == s@,
            r@ == upper(s@).take(i as int),
        decreases cs.len() - i,
    {
        r.push(to_upper_char(cs[i]));
        i += 1;
    }
    assert(upper(s@).take(i as int) == upper(s@));
    r
}

/// The lower-case form of `s`.
pub fn to_lowercase(s: &str) -> (r: String)
    ensures
        r@ == lowercase(s@),
{
    let cs = chars_of(s);
    let mut i: usize = 0;
    while i < cs.len()
        invariant
            i <= cs.len(),
            cs@ == s@,
            forall|k: int| 0 <= k < i ==> is_ascii_char(#[trigger] cs[k]),
        decreases cs.len() - i,
    {
        if (cs[i] as u32) >= 128 {
            assert(!is_ascii_char(s@[i as int]));
            return unicode_to_lowercase(s);
        }
        i += 1;
    }
    assert(all_ascii(s@));
    let low = to_lower(&cs);
    string_of(&low)
}

/// Whether two texts are the same but for the case of ASCII letters.
pub fn same_ignoring_ascii_case(a: &str, b: &str) -> (r: bool)
    ensures
        r == (lower(a@) == lower(b@)),
{
    let la = to_lower(&chars_of(a));
    let lb = to_lower(&chars_of(b));
    let sa = string_of(&la);
    let sb = string_of(&lb);
    same_text(sa.as_str(), sb.as_str())
}

// ---------------------------------------------------------------------------
// Trimming
// ---------------------------------------------------------------------------

/// A class of characters that can be stripped from the ends of a text.
#[derive(Clone, Copy)]
pub enum Class {
    /// White space.
    White,
    /// One character.
    Only(char),
    /// One character, or white space.
    OrWhite(char),
}

impl Class {
    pub open spec fn has(self, c: char) -> bool {
        match self {
            Class::White => is_white(c),
            Class::Only(d) => c == d,
            Class::OrWhite(d) => c == d || is_white(c),
        }
    }

    pub fn holds(self, c: char) -> (r: bool)
        ensures
            r == self.has(c),
    {
        match self {
            Class::White => white(c),
            Class::Only(d) => c == d,
            Class::OrWhite(d) => c == d || white(c),
        }
    }
}

/// `s` without its leading characters of class `k`.
pub open spec fn strip_start(s: Seq<char>, k: Class) -> Seq<char>
    decreases s.len(),
{
    if s.len() > 0 && k.has(s[0]) {
        strip_start(s.skip(1), k)
    } else {
        s
    }
}

/// `s` without its trailing characters of class `k`.
pub open spec fn strip_end(s: Seq<char>, k: Class) -> Seq<char>
    decreases s.len(),
{
    if s.len() > 0 && k.has(s.last()) {
        strip_end(s.drop_last(), k)
    } else {
        s
    }
}

/// `s` without leading and trailing white space.
pub open spec fn trim(s: Seq<char>) -> Seq<char> {
    strip_end(strip_start(s, Class::White), Class::White)
}

/// The first position of `cs[from..to]` whose character is not of class `k`.
pub fn skip_start(cs: &Vec<char>, from: usize, to: usize, k: Class) -> (r: usize)
    requires
        from <= to <= cs.len(),
    ensures
        from <= r <= to,
        cs@.subrange(r as int, to as int) == strip_start(
            cs@.subrange(from as int, to as int),
            k,
        ),
{
    let mut i: usize = from;
    while i < to && k.holds(cs[i])
        invariant
            from <= i <= to <= cs.len(),
            strip_start(cs@.subrange(i as int, to as int), k) == strip_start(
                cs@.subrange(from as int, to as int),
                k,
            ),
        decreases to - i,
    {
        assert(cs@.subrange(i as int, to as int).skip(1) == cs@.subrange(i + 1, to as int));
        i += 1;
    }
    i
}

/// The end of what is left of `cs[from..to]` when its trailing characters of
/// class `k` are gone.
pub fn skip_end(cs: &Vec<char>, from: usize, to: usize, k: Class) -> (r: usize)
    requires
        from <= to <= cs.len(),
    ensures
        from <= r <= to,
        cs@.subrange(from as int, r as int) == strip_end(cs@.subrange(from as int, to as int), k),
{
    let mut j: usize = to;
    while j > from && k.holds(cs[j - 1])
        invariant
            from <= j <= to <= cs.len(),
            strip_end(cs@.subrange(from as int, j as int), k) == strip_end(
                cs@.subrange(from as int, to as int),
                k,
            ),
        decreases j - from,
    {
        assert(cs@.subrange(from as int, j as int).drop_last() == cs@.subrange(
            from as int,
            j - 1,
        ));
        j -= 1;
    }
    j
}

/// The text `cs[from..to]` without leading and trailing white space.
pub fn trimmed_range(cs: &Vec<char>, from: usize, to: usize) -> (r: String)
    requires
        from <= to <= cs.len(),
    ensures
        r@ == trim(cs@.subrange(from as int, to as int)),
{
    let a = skip_start(cs, from, to, Class::White);
    let b = skip_end(cs, a, to, Class::White);
    substring(cs, a, b)
}

/// `s` without leading and trailing white space.
pub fn trimmed(s: &str) -> (r: String)
    ensures
        r@ == trim(s@),
{
    let cs = chars_of(s);
    assert(cs@.subrange(0, cs.len() as int) == s@);
    trimmed_range(&cs, 0, cs.len())
}

// ---------------------------------------------------------------------------
// Searching
// ---------------------------------------------------------------------------

/// `pat` stands in `s` at position `k`.
pub open spec fn stands_at(s: Seq<char>, pat: Seq<char>, k: int) -> bool {
    0 <= k && k + pat.len() <= s.len() && s.subrange(k, k + pat.len()) == pat
}

/// `pat` stands somewhere in `s`.
pub open spec fn contains(s: Seq<char>, pat: Seq<char>) -> bool {
    exists|k: int| stands_at(s, pat, k)
}

/// `s` begins with `pat`.
pub open spec fn starts_with(s: Seq<char>, pat: Seq<char>) -> bool {
    stands_at(s, pat, 0)
}

/// `s` ends with `pat`.
pub open spec fn ends_with(s: Seq<char>, pat: Seq<char>) -> bool {
    stands_at(s, pat, s.len() - pat.len())
}

/// Whether `pat` stands in `s` at position `at`.
pub fn found_at(s: &Vec<char>, pat: &Vec<char>, at: usize) -> (r: bool)
    requires
        at <= s.len(),
    ensures
        r == stands_at(s@, pat@, at as int),
{
    if pat.len() > s.len() - at {
        return false;
    }
    let mut i: usize = 0;
    while i < pat.len()
        invariant
            i <= pat.len(),
            at + pat.len() <= s.len(),
            forall|k: int| 0 <= k < i ==> s[at + k] == pat[k],
        decreases pat.len() - i,
    {
        if s[at + i] != pat[i] {
            assert(s@.subrange(at as int, at + pat.len())[i as int] != pat@[i as int]);
            return false;
        }
        i += 1;
    }
    assert(s@.subrange(at as int, at + pat.len()) == pat@);
    true
}

/// Whether `pat` stands somewhere in `s`.
pub fn contains_chars(s: &Vec<char>, pat: &Vec<char>) -> (r: bool)
    ensures
        r == contains(s@, pat@),
{
    let mut at: usize = 0;
    while at < s.len()
        invariant
            at <= s.len(),
            forall|k: int| 0 <= k < at ==> !stands_at(s@, pat@, k),
        decreases s.len() - at,
    {
        if found_at(s, pat, at) {
            return true;
        }
        at += 1;
    }
    let last = found_at(s, pat, at);
    assert(last == contains(s@, pat@)) by {
        assert forall|k: int| stands_at(s@, pat@, k) implies k == at as int by {}
    }
    last
}

/// Whether `pat` stands somewhere in `s`.
pub fn contains_text(s: &str, pat: &str) -> (r: bool)
    ensures
        r == contains(s@, pat@),
{
    contains_chars(&chars_of(s), &chars_of(pat))
}

/// Whether `s` begins with `pat`.
pub fn begins_with(s: &str, pat: &str) -> (r: bool)
    ensures
        r == starts_with(s@, pat@),
{
    found_at(&chars_of(s), &chars_of(pat), 0)
}

/// Whether the character `c` stands in `cs`.
pub fn has_char(cs: &Vec<char>, c: char) -> (r: bool)
    ensures
        r == cs@.contains(c),
{
    let mut i: usize = 0;
    while i < cs.len()
        invariant
            i <= cs.len(),
            forall|k: int| 0 <= k < i ==> cs[k] != c,
        decreases cs.len() - i,
    {
        if cs[i] == c {
            assert(cs@[i as int] == c);
            return true;
        }
        i += 1;
    }
    false
}

// ---------------------------------------------------------------------------
// Replacing and joining
// ---------------------------------------------------------------------------

/// `s` with each occurrence of the character `c` replaced by the text `by`.
pub open spec fn replaced(s: Seq<char>, c: char, by: Seq<char>) -> Seq<char>
    decreases s.len(),
{
    if s.len() == 0 {
        s
    } else {
        replaced(s.drop_last(), c, by) + (if s.last() == c {
            by
        } else {
            seq![s.last()]
        })
    }
}

/// `s` with each occurrence of the character `c` replaced by the text `by`.
pub fn replace_char(s: &str, c: char, by: &str) -> (r: String)
    ensures
        r@ == replaced(s@, c, by@),
{
    let cs = chars_of(s);
    let mut r = String::new();
    let mut i: usize = 0;
    while i < cs.len()
        invariant
            i <= cs.len(),
            cs@ == s@,
            r@ == replaced(s@.take(i as int), c, by@),
        decreases cs.len() - i,
    {
        assert(s@.take(i + 1).drop_last() == s@.take(i as int));
        if cs[i] == c {
            r.push_str(by);
        } else {
            r.push(cs[i]);
        }
        assert(r@ == replaced(s@.take(i + 1), c, by@));
        i += 1;
    }
    assert(s@.take(i as int) == s@);
    r
}

/// The texts of `parts`, one after the other, with `sep` between them.
pub open spec fn joined(parts: Seq<Seq<char>>, sep: Seq<char>) -> Seq<char>
    decreases parts.len(),
{
    if parts.len() == 0 {
        seq![]
    } else if parts.len() == 1 {
        parts[0]
    } else {
        joined(parts.drop_last(), sep) + sep + parts.last()
    }
}

/// The texts of `parts`, one after the other, with `sep` between them.
pub fn join(parts: &Vec<String>, sep: &str) -> (r: String)
    ensures
        r@ == joined(texts(parts@), sep@),
{
    let mut r = String::new();
    let mut i: usize = 0;
    while i < parts.len()
        invariant
            i <= parts.len(),
            r@ == joined(texts(parts@).take(i as int), sep@),
        decreases parts.len() - i,
    {
        assert(texts(parts@).take(i + 1).drop_last() == texts(parts@).take(i as int));
        if i > 0 {
            r.push_str(sep);
        }
        r.push_str(parts[i].as_str());
        assert(r@ == joined(texts(parts@).take(i + 1), sep@));
        i += 1;
    }
    assert(texts(parts@).take(i as int) == texts(parts@));
    r
}

/// The parts of `s` between the characters `c`.
pub open spec fn split(s: Seq<char>, c: char) -> Seq<Seq<char>>
    decreases s.len(),
{
    if s.len() == 0 {
        seq![seq![]]
    } else {
        let front = split(s.drop_last(), c);
        if s.last() == c {
            front.push(seq![])
        } else {
            front.drop_last().push(front.last().push(s.last()))
        }
    }
}

/// A text always has at least one part.
pub proof fn lemma_split_nonempty(s: Seq<char>, c: char)
    ensures
        split(s, c).len() >= 1,
    decreases s.len(),
{
    if s.len() > 0 {
        lemma_split_nonempty(s.drop_last(), c);
    }
}

/// The parts of `s` between the characters `c`.
pub fn split_at_char(s: &str, c: char) -> (r: Vec<String>)
    ensures
        texts(r@) == split(s@, c),
{
    let cs = chars_of(s);
    let mut r: Vec<String> = Vec::new();
    let mut cur = String::new();
    let mut i: usize = 0;
    while i < cs.len()
        invariant
            i <= cs.len(),
            cs@ == s@,
            texts(r@).push(cur@) == split(s@.take(i as int), c),
        decreases cs.len() - i,
    {
        assert(s@.take(i + 1).drop_last() == s@.take(i as int));
        proof {
            let front = split(s@.take(i as int), c);
            assert(front.drop_last() == texts(r@));
            assert(front.last() == cur@);
        }
        let ghost before = texts(r@);
        if cs[i] == c {
            let ghost was = cur@;
            r.push(cur);
            assert(texts(r@) == before.push(was));
            cur = String::new();
        } else {
            cur.push(cs[i]);
        }
        i += 1;
    }
    assert(s@.take(i as int) == s@);
    let ghost before = texts(r@);
    let ghost was = cur@;
    r.push(cur);
    assert(texts(r@) == before.push(was));
    r
}

/// Where `c` first stands splits a text in one way only.
pub proof fn lemma_split_once(a: Seq<char>, b: Seq<char>, x: Seq<char>, y: Seq<char>, c: char)
    requires
        !a.contains(c),
        !b.contains(c),
        a + seq![c] + x == b + seq![c] + y,
    ensures
        a == b,
        x == y,
{
    let l = a + seq![c] + x;
    let r = b + seq![c] + y;
    if a.len() < b.len() {
        assert(l[a.len() as int] == c);
        assert(r[a.len() as int] == b[a.len() as int]);
        assert(b.contains(b[a.len() as int]));
        assert(false);
    }
    if b.len() < a.len() {
        assert(r[b.len() as int] == c);
        assert(l[b.len() as int] == a[b.len() as int]);
        assert(a.contains(a[b.len() as int]));
        assert(false);
    }
    assert(a == l.take(a.len() as int));
    assert(b == r.take(b.len() as int));
    assert(x == l.skip(1int + a.len()));
    assert(y == r.skip(1int + b.len()));
}

// ---------------------------------------------------------------------------
// Words
// ---------------------------------------------------------------------------

/// The end of the run of identifier characters that begins at `i`.
pub open spec fn word_end(s: Seq<char>, i: int) -> int
    decreases s.len() - i,
{
    if 0 <= i < s.len() && is_ident(s[i]) {
        word_end(s, i + 1)
    } else {
        i
    }
}

/// The runs of identifier characters of `s`, from position `i` on.
pub open spec fn words_from(s: Seq<char>, i: int) -> Seq<Seq<char>>
    decreases s.len() - i,
{
    if i < 0 || i >= s.len() {
        seq![]
    } else if is_ident(s[i]) {
        proof {
            lemma_word_end(s, i);
        }
        seq![s.subrange(i, word_end(s, i))] + words_from(s, word_end(s, i))
    } else {
        words_from(s, i + 1)
    }
}

/// The words of `s`: its longest runs of identifier characters, in order.
pub open spec fn words(s: Seq<char>) -> Seq<Seq<char>> {
    words_from(s, 0)
}

/// A run ends where it begins or later, holds identifier characters only, and
/// cannot be made longer.
pub proof fn lemma_word_end(s: Seq<char>, i: int)
    requires
        0 <= i <= s.len(),
    ensures
        i <= word_end(s, i) <= s.len(),
        i < s.len() && is_ident(s[i]) ==> i < word_end(s, i),
        forall|k: int| i <= k < word_end(s, i) ==> is_ident(#[trigger] s[k]),
        word_end(s, i) < s.len() ==> !is_ident(s[word_end(s, i)]),
    decreases s.len() - i,
{
    if i < s.len() && is_ident(s[i]) {
        lemma_word_end(s, i + 1);
    }
}

/// The characters of `s` from `i` to `j` are a word: identifier characters, with
/// none before them and none after them.
pub open spec fn word_at(s: Seq<char>, i: int, j: int) -> bool {
    &&& 0 <= i < j <= s.len()
    &&& forall|k: int| i <= k < j ==> is_ident(#[trigger] s[k])
    &&& i > 0 ==> !is_ident(s[i - 1])
    &&& j < s.len() ==> !is_ident(s[j])
}

proof fn lemma_listed_word(s: Seq<char>, i: int, w: Seq<char>)
    requires
        0 <= i <= s.len(),
        0 < i < s.len() ==> !is_ident(s[i - 1]) || !is_ident(s[i]),
        words_from(s, i).contains(w),
    ensures
        exists|a: int, b: int| #[trigger] word_at(s, a, b) && w == s.subrange(a, b),
    decreases s.len() - i,
{
    if i < s.len() {
        if is_ident(s[i]) {
            let j = word_end(s, i);
            lemma_word_end(s, i);
            let rest = words_from(s, j);
            let all = words_from(s, i);
            let k = choose|k: int| 0 <= k < all.len() && all[k] == w;
            if k == 0 {
                assert(word_at(s, i, j));
            } else {
                assert(rest[k - 1] == w);
                lemma_listed_word(s, j, w);
            }
        } else {
            lemma_listed_word(s, i + 1, w);
        }
    }
}

proof fn lemma_word_listed(s: Seq<char>, i: int, a: int, b: int)
    requires
        0 <= i <= a,
        word_at(s, a, b),
        0 < i < s.len() ==> !is_ident(s[i - 1]) || !is_ident(s[i]),
    ensures
        words_from(s, i).contains(s.subrange(a, b)),
    decreases s.len() - i,
{
    if is_ident(s[i]) {
        let j = word_end(s, i);
        lemma_word_end(s, i);
        let all = words_from(s, i);
        if i == a {
            assert(j == b) by {
                if j < b {
                    assert(is_ident(s[j]));
                }
                if b < j {
                    assert(is_ident(s[b]));
                }
            }
            assert(all[0] == s.subrange(a, b));
        } else {
            assert(j <= a) by {
                if a < j {
                    assert(is_ident(s[a - 1]));
                }
            }
            lemma_word_listed(s, j, a, b);
            let rest = words_from(s, j);
            let k = choose|k: int| 0 <= k < rest.len() && rest[k] == s.subrange(a, b);
            assert(all[k + 1] == s.subrange(a, b));
        }
    } else {
        assert(i < a);
        lemma_word_listed(s, i + 1, a, b);
    }
}

/// The words of a text are its longest runs of identifier characters: every one
/// of them, and nothing else.
pub proof fn law_words_are_the_longest_runs(s: Seq<char>, w: Seq<char>)
    ensures
        words(s).contains(w) <==> exists|i: int, j: int| #[trigger]
            word_at(s, i, j) && w == s.subrange(i, j),
{
    if words(s).contains(w) {
        lemma_listed_word(s, 0, w);
    }
    if exists|i: int, j: int| #[trigger] word_at(s, i, j) && w == s.subrange(i, j) {
        let (i, j) = choose|i: int, j: int| #[trigger] word_at(s, i, j) && w == s.subrange(i, j);
        lemma_word_listed(s, 0, i, j);
    }
}

/// The end of the run of identifier characters that begins at `from`.
pub fn end_of_word(cs: &Vec<char>, from: usize) -> (r: usize)
    requires
        from <= cs.len(),
    ensures
        r as int == word_end(cs@, from as int),
        from <= r <= cs.len(),
{
    let mut i: usize = from;
    while i < cs.len() && is_ident_char(cs[i])
        invariant
            from <= i <= cs.len(),
            word_end(cs@, i as int) == word_end(cs@, from as int),
        decreases cs.len() - i,
    {
        i += 1;
    }
    i
}

/// The words of `cs`, in order.
pub fn words_of(cs: &Vec<char>) -> (r: Vec<String>)
    ensures
        texts(r@) == words(cs@),
{
    let mut r: Vec<String> = Vec::new();
    let mut i: usize = 0;
    while i < cs.len()
        invariant
            i <= cs.len(),
            texts(r@) + words_from(cs@, i as int) == words(cs@),
        decreases cs.len() - i,
    {
        if is_ident_char(cs[i]) {
            let j = end_of_word(cs, i);
            proof {
                lemma_word_end(cs@, i as int);
            }
            let ghost before = texts(r@);
            r.push(substring(cs, i, j));
            assert(texts(r@) == before + seq![cs@.subrange(i as int, j as int)]);
            assert(texts(r@) + words_from(cs@, j as int) == words(cs@));
            i = j;
        } else {
            i += 1;
        }
    }
    assert(texts(r@) + words_from(cs@, i as int) == texts(r@));
    r
}

// ---------------------------------------------------------------------------
// What these operations guarantee
// ---------------------------------------------------------------------------

/// Characters that are all white space.
pub open spec fn all_white(s: Seq<char>) -> bool {
    forall|i: int| 0 <= i < s.len() ==> is_white(#[trigger] s[i])
}

pub proof fn lemma_strip_start_at(s: Seq<char>, k: Class) -> (a: int)
    ensures
        0 <= a <= s.len(),
        strip_start(s, k) == s.skip(a),
        forall|i: int| 0 <= i < a ==> k.has(#[trigger] s[i]),
        a < s.len() ==> !k.has(s[a]),
    decreases s.len(),
{
    if s.len() > 0 && k.has(s[0]) {
        let b = lemma_strip_start_at(s.skip(1), k);
        assert(s.skip(1).skip(b) == s.skip(b + 1));
        assert forall|i: int| 0 <= i < b + 1 implies k.has(#[trigger] s[i]) by {
            if i > 0 {
                assert(s.skip(1)[i - 1] == s[i]);
            }
        }
        b + 1
    } else {
        assert(s.skip(0) == s);
        0
    }
}

pub proof fn lemma_strip_end_at(s: Seq<char>, k: Class) -> (b: int)
    ensures
        0 <= b <= s.len(),
        strip_end(s, k) == s.take(b),
        forall|i: int| b <= i < s.len() ==> k.has(#[trigger] s[i]),
        b > 0 ==> !k.has(s[b - 1]),
    decreases s.len(),
{
    if s.len() > 0 && k.has(s.last()) {
        let b = lemma_strip_end_at(s.drop_last(), k);
        assert(s.drop_last().take(b) == s.take(b));
        assert forall|i: int| b <= i < s.len() implies k.has(#[trigger] s[i]) by {
            if i < s.len() - 1 {
                assert(s.drop_last()[i] == s[i]);
            }
        }
        b
    } else {
        assert(s.take(s.len() as int) == s);
        s.len() as int
    }
}

/// Trimming takes away the white space at both ends, all of it and nothing else: what
/// is left is the part from `cut.0` to `cut.1`.
pub proof fn law_trim_takes_white_space_alone(s: Seq<char>) -> (cut: (int, int))
    ensures
        0 <= cut.0 <= cut.1 <= s.len(),
        trim(s) == s.subrange(cut.0, cut.1),
        forall|i: int| 0 <= i < cut.0 || cut.1 <= i < s.len() ==> is_white(#[trigger] s[i]),
        cut.0 < cut.1 ==> !is_white(s[cut.0]) && !is_white(s[cut.1 - 1]),
{
    let a = lemma_strip_start_at(s, Class::White);
    let t = s.skip(a);
    let b = lemma_strip_end_at(t, Class::White);
    assert(t.take(b) == s.subrange(a, a + b));
    assert forall|i: int| 0 <= i < a || a + b <= i < s.len() implies is_white(#[trigger] s[i]) by {
        if i >= a + b {
            assert(t[i - a] == s[i]);
            assert(Class::White.has(t[i - a]));
        } else {
            assert(Class::White.has(s[i]));
        }
    }
    if b > 0 {
        assert(t[b - 1] == s[a + b - 1]);
        assert(a < s.len());
    }
    (a, a + b)
}

/// Where the `i`-th of several parts stands, with separators of a length between them.
pub open spec fn offset(parts: Seq<Seq<char>>, sep: nat, i: int) -> int
    decreases i,
{
    if i <= 0 {
        0
    } else {
        offset(parts, sep, i - 1) + parts[i - 1].len() + sep
    }
}

proof fn lemma_offset_prefix(parts: Seq<Seq<char>>, sep: nat, i: int)
    requires
        0 <= i < parts.len(),
    ensures
        offset(parts.drop_last(), sep, i) == offset(parts, sep, i),
        offset(parts, sep, i) >= 0,
    decreases i,
{
    if i > 0 {
        lemma_offset_prefix(parts, sep, i - 1);
    }
}

/// Joined parts stand one after the other in their order, with the separator between
/// any two of them and with nothing else.
pub proof fn law_joined_parts_stand_in_order(parts: Seq<Seq<char>>, sep: Seq<char>)
    ensures
        parts.len() == 0 ==> joined(parts, sep).len() == 0,
        parts.len() > 0 ==> joined(parts, sep).len() == offset(
            parts,
            sep.len(),
            parts.len() as int,
        ) - sep.len(),
        forall|i: int|
            0 <= i < parts.len() ==> stands_at(
                joined(parts, sep),
                #[trigger] parts[i],
                offset(parts, sep.len(), i),
            ),
        forall|i: int|
            0 <= i < parts.len() - 1 ==> stands_at(
                joined(parts, sep),
                sep,
                offset(parts, sep.len(), i) + (#[trigger] parts[i]).len(),
            ),
    decreases parts.len(),
{
    let n = parts.len() as int;
    let all = joined(parts, sep);
    if n == 1 {
        assert(offset(parts, sep.len(), 1) == offset(parts, sep.len(), 0) + parts[0].len()
            + sep.len());
        assert(all.subrange(0, parts[0].len() as int) == parts[0]);
    } else if n > 1 {
        let front = parts.drop_last();
        let before = joined(front, sep);
        law_joined_parts_stand_in_order(front, sep);
        lemma_offset_prefix(parts, sep.len(), n - 1);
        assert(offset(front, sep.len(), n - 1) == offset(parts, sep.len(), n - 1));
        assert(offset(parts, sep.len(), n) == offset(parts, sep.len(), n - 1) + parts[n - 1].len()
            + sep.len());
        assert(all == before + sep + parts.last());
        assert forall|i: int| 0 <= i < n implies stands_at(
            all,
            #[trigger] parts[i],
            offset(parts, sep.len(), i),
        ) by {
            lemma_offset_prefix(parts, sep.len(), i);
            let k = offset(parts, sep.len(), i);
            if i < n - 1 {
                assert(stands_at(before, front[i], k));
                assert(before.subrange(k, k + parts[i].len()) == all.subrange(
                    k,
                    k + parts[i].len(),
                ));
            } else {
                assert(k == before.len() + sep.len());
                assert(all.subrange(k, k + parts[i].len()) == parts[i]);
            }
        }
        assert forall|i: int| 0 <= i < n - 1 implies stands_at(
            all,
            sep,
            offset(parts, sep.len(), i) + (#[trigger] parts[i]).len(),
        ) by {
            lemma_offset_prefix(parts, sep.len(), i);
            let k = offset(parts, sep.len(), i) + parts[i].len();
            if i < n - 2 {
                assert(front[i] == parts[i]);
                assert(stands_at(before, sep, k));
                assert(before.subrange(k, k + sep.len()) == all.subrange(k, k + sep.len()));
            } else {
                assert(offset(parts, sep.len(), n - 1) == offset(parts, sep.len(), n - 2)
                    + parts[n - 2].len() + sep.len());
                assert(k == before.len());
                assert(all.subrange(k, k + sep.len()) == sep);
            }
        }
    }
}

/// Splitting at a character takes away that character alone: the parts hold none, and
/// joined by it they are the text.
pub proof fn law_split_parts_join_to_the_text(s: Seq<char>, c: char)
    ensures
        split(s, c).len() > 0,
        forall|i: int| 0 <= i < split(s, c).len() ==> !(#[trigger] split(s, c)[i]).contains(c),
        joined(split(s, c), seq![c]) == s,
    decreases s.len(),
{
    let all = split(s, c);
    if s.len() == 0 {
        assert(all == seq![Seq::<char>::empty()]);
        assert(joined(all, seq![c]) == s);
    } else {
        let rest = s.drop_last();
        let front = split(rest, c);
        law_split_parts_join_to_the_text(rest, c);
        assert(s == rest.push(s.last()));
        if s.last() == c {
            assert(all.drop_last() == front);
            assert(joined(all, seq![c]) == joined(front, seq![c]) + seq![c]
                + Seq::<char>::empty());
            assert(joined(all, seq![c]) == s);
            assert forall|i: int| 0 <= i < all.len() implies !(#[trigger] all[i]).contains(c) by {
                if i < front.len() {
                    assert(all[i] == front[i]);
                }
            }
        } else {
            assert(all.drop_last() == front.drop_last());
            let last = front.last().push(s.last());
            assert(all.last() == last);
            assert forall|i: int| 0 <= i < all.len() implies !(#[trigger] all[i]).contains(c) by {
                if i < front.len() - 1 {
                    assert(all[i] == front[i]);
                } else if last.contains(c) {
                    let k = choose|k: int| 0 <= k < last.len() && last[k] == c;
                    assert(front.last()[k] == c);
                }
            }
            if front.len() == 1 {
                assert(joined(front, seq![c]) == front[0]);
                assert(joined(all, seq![c]) == last);
            } else {
                assert(joined(all, seq![c]) == joined(front.drop_last(), seq![c]) + seq![c]
                    + last);
            }
            assert(joined(all, seq![c]) == s);
        }
    }
}

/// A text with each pair of `c` read as one `c`.
pub open spec fn undoubled(s: Seq<char>, c: char) -> Seq<char>
    decreases s.len(),
{
    if s.len() == 0 {
        s
    } else if s.len() > 1 && s[0] == c && s[1] == c {
        seq![c] + undoubled(s.skip(2), c)
    } else {
        seq![s[0]] + undoubled(s.skip(1), c)
    }
}

pub proof fn lemma_replaced_first(s: Seq<char>, c: char, by: Seq<char>)
    requires
        s.len() > 0,
    ensures
        replaced(s, c, by) == (if s[0] == c {
            by
        } else {
            seq![s[0]]
        }) + replaced(s.skip(1), c, by),
    decreases s.len(),
{
    let front = s.drop_last();
    if s.len() > 1 {
        lemma_replaced_first(front, c, by);
        assert(s.skip(1).drop_last() == front.skip(1));
        assert(s.skip(1).last() == s.last());
        assert(front[0] == s[0]);
    } else {
        assert(s.skip(1).len() == 0);
        assert(front.len() == 0);
        assert(replaced(front, c, by) == front);
        assert(replaced(s.skip(1), c, by) == s.skip(1));
        assert(front + (if s[0] == c {
            by
        } else {
            seq![s[0]]
        }) == (if s[0] == c {
            by
        } else {
            seq![s[0]]
        }) + s.skip(1));
    }
}

/// Doubling a character loses nothing: with its pairs read as one, the text is back;
/// and a text that does not hold it stays as it is.
pub proof fn law_doubled_reads_back(s: Seq<char>, c: char)
    ensures
        undoubled(replaced(s, c, seq![c, c]), c) == s,
        !s.contains(c) ==> replaced(s, c, seq![c, c]) == s,
    decreases s.len(),
{
    let two = seq![c, c];
    if s.len() > 0 {
        let rest = s.skip(1);
        let t = replaced(s, c, two);
        lemma_replaced_first(s, c, two);
        law_doubled_reads_back(rest, c);
        assert(seq![s[0]] + rest == s);
        if s[0] == c {
            assert(t.skip(2) == replaced(rest, c, two));
            assert(t[0] == c && t[1] == c);
            assert(s.contains(c));
        } else {
            assert(t.skip(1) == replaced(rest, c, two));
            assert(t[0] == s[0]);
            if rest.contains(c) {
                let k = choose|k: int| 0 <= k < rest.len() && rest[k] == c;
                assert(s[k + 1] == c);
            }
        }
    }
}

/// Case folding changes ASCII letters alone, each into the letter of the other case.
pub proof fn law_case_folding_keeps_letters(s: Seq<char>, i: int)
    requires
        0 <= i < s.len(),
    ensures
        lower(s).len() == s.len() && upper(s).len() == s.len(),
        'A' <= s[i] && s[i] <= 'Z' ==> lower(s)[i] as u32 == s[i] as u32 + 32 && upper(s)[i] == s[i],
        'a' <= s[i] && s[i] <= 'z' ==> upper(s)[i] as u32 == s[i] as u32 - 32 && lower(s)[i] == s[i],
        !('A' <= s[i] && s[i] <= 'Z') && !('a' <= s[i] && s[i] <= 'z') ==> lower(s)[i] == s[i]
            && upper(s)[i] == s[i],
{
}

/// Among the ASCII characters, words are made of letters, digits and `_`, and white
/// space is the blank and the five control characters from the tab to the return.
pub proof fn law_ascii_classes(c: char)
    requires
        (c as u32) < 128,
    ensures
        is_ident(c) <==> ('0' <= c && c <= '9') || ('A' <= c && c <= 'Z') || ('a' <= c && c <= 'z')
            || c == '_',
        is_white(c) <==> c == ' ' || ('\t' <= c && c <= '\r'),
{
}

/// A text stands in another where that one is made of something before it, the text and
/// something after it; with nothing before it the other begins with it, with nothing
/// after it the other ends with it.
pub proof fn law_parts_stand_in_the_whole(a: Seq<char>, p: Seq<char>, b: Seq<char>)
    ensures
        stands_at(a + p + b, p, a.len() as int) && contains(a + p + b, p),
        starts_with(p + b, p),
        ends_with(a + p, p),
{
    let s = a + p + b;
    let k = a.len() as int;
    assert(s.subrange(k, k + p.len()) =~= p);
    assert(stands_at(s, p, k));
    assert((p + b).subrange(0, p.len() as int) =~= p);
    assert((a + p).subrange(k, k + p.len()) =~= p);
}

/// And only there.
pub proof fn law_whole_is_made_of_the_parts(s: Seq<char>, p: Seq<char>)
    ensures
        contains(s, p) ==> exists|a: Seq<char>, b: Seq<char>| s == #[trigger] (a + p + b),
        starts_with(s, p) ==> exists|b: Seq<char>| s == #[trigger] (p + b),
        ends_with(s, p) ==> exists|a: Seq<char>| s == #[trigger] (a + p),
{
    if contains(s, p) {
        let k = choose|k: int| stands_at(s, p, k);
        let a = s.subrange(0, k);
        let b = s.subrange(k + p.len(), s.len() as int);
        assert(s =~= a + p + b);
    }
    if starts_with(s, p) {
        let b = s.skip(p.len() as int);
        assert(s =~= p + b) by {
            assert(s =~= s.subrange(0, p.len() as int) + b);
        }
    }
    if ends_with(s, p) {
        let k = s.len() - p.len();
        let a = s.take(k);
        assert(s =~= a + p) by {
            assert(s =~= a + s.subrange(k, s.len() as int));
        }
    }
}

/// What stands in a text stands in it behind a head too.
pub proof fn lemma_stands_behind(head: Seq<char>, body: Seq<char>, p: Seq<char>, k: int)
    requires
        stands_at(body, p, k),
    ensures
        stands_at(head + body, p, head.len() + k),
{
    let n = head.len() as int;
    let m = p.len() as int;
    assert((head + body).subrange(n + k, n + k + m) =~= body.subrange(k, k + m));
}

} // verus!
