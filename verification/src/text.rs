//! Text as sequences of characters: the handful of string operations the rest
//! of the crate is built from, each with an exact contract.

use vstd::prelude::*;

verus! {

/// `String::push`: appends one character.
pub assume_specification[ String::push ](s: &mut String, c: char)
    ensures
        final(s)@ == old(s)@.push(c),
;

/// What `str::to_lowercase` answers for a text that is not all ASCII.
pub uninterp spec fn lowercased(s: Seq<char>) -> Seq<char>;

/// `str::to_lowercase`, the Unicode lowercase mapping. On a text that is all
/// ASCII it maps the letters `A` to `Z` to `a` to `z` and keeps the rest; of any
/// other text the contract says only that the answer depends on the text alone.
#[verifier::external_body]
pub(crate) fn lowercase(s: &str) -> (r: String)
    ensures
        r@ == (if all_ascii(s@) {
            ascii_lowercased(s@)
        } else {
            lowercased(s@)
        }),
{
    s.to_lowercase()
}

/// A text in lower case.
pub open spec fn lower(s: Seq<char>) -> Seq<char> {
    if all_ascii(s) {
        ascii_lowercased(s)
    } else {
        lowercased(s)
    }
}

/// How the `{:?}` formatting of a text reads.
pub uninterp spec fn quoted(s: Seq<char>) -> Seq<char>;

/// The `{:?}` formatting of a `str`: the text in double quotes, with whatever
/// needs an escape escaped. The contract says only that the answer depends on
/// the text alone.
#[verifier::external_body]
pub(crate) fn quote(s: &str) -> (r: String)
    ensures
        r@ == quoted(s@),
{
    format!("{s:?}")
}

/// The texts behind a list of strings.
pub open spec fn texts(v: Seq<String>) -> Seq<Seq<char>> {
    v.map_values(|s: String| s@)
}

/// The text behind an optional string.
pub open spec fn opt_text(o: Option<String>) -> Option<Seq<char>> {
    match o {
        Some(s) => Some(s@),
        None => None,
    }
}

/// The text behind an optional borrowed string.
pub open spec fn opt_str(o: Option<&str>) -> Option<Seq<char>> {
    match o {
        Some(s) => Some(s@),
        None => None,
    }
}

/// Whether a character is Unicode white space (the `White_Space` property).
pub open spec fn is_space(c: char) -> bool {
    let n = c as u32;
    ||| 0x9 <= n <= 0xd
    ||| n == 0x20
    ||| n == 0x85
    ||| n == 0xa0
    ||| n == 0x1680
    ||| 0x2000 <= n <= 0x200a
    ||| n == 0x2028
    ||| n == 0x2029
    ||| n == 0x202f
    ||| n == 0x205f
    ||| n == 0x3000
}

/// A text without the white space it starts with.
pub open spec fn trim_start(s: Seq<char>) -> Seq<char>
    decreases s.len(),
{
    if s.len() > 0 && is_space(s[0]) {
        trim_start(s.drop_first())
    } else {
        s
    }
}

/// A text without the white space it ends with.
pub open spec fn trim_end(s: Seq<char>) -> Seq<char>
    decreases s.len(),
{
    if s.len() > 0 && is_space(s.last()) {
        trim_end(s.drop_last())
    } else {
        s
    }
}

/// A text without the white space around it.
pub open spec fn trimmed(s: Seq<char>) -> Seq<char> {
    trim_end(trim_start(s))
}

/// A text without any trailing run of `c`.
pub open spec fn trim_end_of(s: Seq<char>, c: char) -> Seq<char>
    decreases s.len(),
{
    if s.len() > 0 && s.last() == c {
        trim_end_of(s.drop_last(), c)
    } else {
        s
    }
}

/// Where `c` first occurs, or the length of the text when it does not.
pub open spec fn find_char(s: Seq<char>, c: char) -> int
    decreases s.len(),
{
    if s.len() == 0 || s[0] == c {
        0
    } else {
        1 + find_char(s.drop_first(), c)
    }
}

/// The pieces of a text between separators: one more than there are
/// separators.
pub open spec fn pieces(s: Seq<char>, sep: char) -> Seq<Seq<char>>
    decreases s.len(),
{
    let i = find_char(s, sep);
    if 0 <= i < s.len() {
        seq![s.take(i)] + pieces(s.skip(i + 1), sep)
    } else {
        seq![s]
    }
}

/// What follows the last `sep`: the whole text when there is none.
pub open spec fn after_last(s: Seq<char>, sep: char) -> Seq<char>
    decreases s.len(),
{
    if s.len() == 0 || s.last() == sep {
        Seq::empty()
    } else {
        after_last(s.drop_last(), sep).push(s.last())
    }
}

/// A line without the carriage return of its line ending.
pub open spec fn without_cr(s: Seq<char>) -> Seq<char> {
    if s.len() > 0 && s.last() == '\r' {
        s.drop_last()
    } else {
        s
    }
}

/// The lines of a text. A line ends at `\n` or `\r\n`; nothing follows a final
/// line ending.
pub open spec fn lines_of(s: Seq<char>) -> Seq<Seq<char>>
    decreases s.len(),
{
    let i = find_char(s, '\n');
    if s.len() == 0 {
        Seq::empty()
    } else if 0 <= i < s.len() {
        seq![without_cr(s.take(i))] + lines_of(s.skip(i + 1))
    } else {
        seq![s]
    }
}

/// Where the first white space is, or the length of the text.
pub open spec fn find_space(s: Seq<char>) -> int
    decreases s.len(),
{
    if s.len() == 0 || is_space(s[0]) {
        0
    } else {
        1 + find_space(s.drop_first())
    }
}

/// The words of a text: its maximal runs without white space.
pub open spec fn words_of(s: Seq<char>) -> Seq<Seq<char>>
    decreases s.len(),
{
    if s.len() == 0 {
        Seq::empty()
    } else if is_space(s[0]) {
        words_of(s.drop_first())
    } else {
        let i = find_space(s);
        if 0 < i <= s.len() {
            seq![s.take(i)] + words_of(s.skip(i))
        } else {
            Seq::empty()
        }
    }
}

/// Whether `needle` stands in `hay` at position `i`.
pub open spec fn stands_at(hay: Seq<char>, needle: Seq<char>, i: int) -> bool {
    &&& 0 <= i
    &&& i + needle.len() <= hay.len()
    &&& hay.subrange(i, i + needle.len()) == needle
}

/// Whether `needle` occurs anywhere in `hay`.
pub open spec fn occurs(hay: Seq<char>, needle: Seq<char>) -> bool {
    exists|i: int| stands_at(hay, needle, i)
}

/// Whether a text starts with `prefix`.
pub open spec fn starts(s: Seq<char>, prefix: Seq<char>) -> bool {
    stands_at(s, prefix, 0)
}

/// Whether a text ends with `suffix`.
pub open spec fn ends(s: Seq<char>, suffix: Seq<char>) -> bool {
    stands_at(s, suffix, s.len() - suffix.len())
}

/// Texts put together, with `sep` between each two.
pub open spec fn joined(parts: Seq<Seq<char>>, sep: Seq<char>) -> Seq<char>
    decreases parts.len(),
{
    if parts.len() == 0 {
        Seq::empty()
    } else if parts.len() == 1 {
        parts[0]
    } else {
        joined(parts.drop_last(), sep) + sep + parts.last()
    }
}

/// The character for a decimal digit.
pub open spec fn digit(d: int) -> char {
    (48 + d) as u8 as char
}

/// A natural number in decimal.
pub open spec fn decimal_of(n: nat) -> Seq<char>
    decreases n,
{
    if n < 10 {
        seq![digit(n as int)]
    } else {
        decimal_of(n / 10).push(digit((n % 10) as int))
    }
}

/// An integer in decimal, with a leading `-` when it is negative.
pub open spec fn signed_decimal_of(n: int) -> Seq<char> {
    if n < 0 {
        seq!['-'] + decimal_of((-n) as nat)
    } else {
        decimal_of(n as nat)
    }
}

/// Whether `a` comes before `b`, character by character.
pub open spec fn text_lt(a: Seq<char>, b: Seq<char>) -> bool
    decreases a.len(),
{
    if b.len() == 0 {
        false
    } else if a.len() == 0 {
        true
    } else if a[0] != b[0] {
        (a[0] as int) < (b[0] as int)
    } else {
        text_lt(a.drop_first(), b.drop_first())
    }
}

/// An upper-case ASCII letter in lower case; any other character as it is.
pub open spec fn ascii_lower(c: char) -> char {
    if 65 <= c as u32 <= 90 {
        (c as u32 + 32) as u8 as char
    } else {
        c
    }
}

/// A text with its ASCII letters in lower case.
pub open spec fn ascii_lowercased(s: Seq<char>) -> Seq<char> {
    s.map_values(|c: char| ascii_lower(c))
}

/// Whether a character is an ASCII digit.
pub open spec fn is_digit(c: char) -> bool {
    48 <= c as u32 <= 57
}

/// Whether every character of a text is an ASCII one.
pub open spec fn all_ascii(s: Seq<char>) -> bool {
    forall|i: int| 0 <= i < s.len() ==> (#[trigger] s[i] as u32) < 128
}

/// Whether two texts are all ASCII and differ in the case of letters at most.
pub open spec fn same_but_case(a: Seq<char>, b: Seq<char>) -> bool {
    all_ascii(a) && all_ascii(b) && ascii_lowercased(a) == ascii_lowercased(b)
}

/// The characters of a text.
pub fn to_chars(s: &str) -> (r: Vec<char>)
    ensures
        r@ == s@,
{
    let mut v: Vec<char> = Vec::new();
    for c in it: s.chars()
        invariant
            v@ == s@.take(it.index() as int),
            it.seq() == s@,
    {
        proof {
            assert(s@.take(it.index() + 1) =~= s@.take(it.index() as int).push(c));
        }
        v.push(c);
    }
    assert(s@.take(s@.len() as int) =~= s@);
    v
}

/// The text made of the characters from `from` up to `to`.
pub fn from_chars(v: &Vec<char>, from: usize, to: usize) -> (r: String)
    requires
        from <= to <= v@.len(),
    ensures
        r@ == v@.subrange(from as int, to as int),
{
    let mut s = String::new();
    for i in from..to
        invariant
            from <= i <= to <= v@.len(),
            s@ == v@.subrange(from as int, i as int),
    {
        proof {
            assert(v@.subrange(from as int, i + 1) =~= v@.subrange(from as int, i as int).push(
                v@[i as int],
            ));
        }
        s.push(v[i]);
    }
    s
}

/// Whether two texts are the same.
pub fn same(a: &str, b: &str) -> (r: bool)
    ensures
        r == (a@ == b@),
{
    let x = to_chars(a);
    let y = to_chars(b);
    if x.len() != y.len() {
        return false;
    }
    for i in 0..x.len()
        invariant
            x@ == a@,
            y@ == b@,
            x.len() == y.len(),
            forall|j: int| 0 <= j < i ==> x@[j] == y@[j],
    {
        if x[i] != y[i] {
            return false;
        }
    }
    assert(a@ =~= b@);
    true
}

/// Whether an optional text is exactly `b`.
pub fn same_opt(a: &Option<String>, b: &str) -> (r: bool)
    ensures
        r == (opt_text(*a) == Some(b@)),
{
    match a {
        Some(s) => same(s.as_str(), b),
        None => false,
    }
}

/// A copy of an optional string.
pub fn clone_opt(a: &Option<String>) -> (r: Option<String>)
    ensures
        r == *a,
{
    match a {
        Some(s) => Some(s.clone()),
        None => None,
    }
}

/// A copy of a list of strings.
pub fn clone_texts(v: &Vec<String>) -> (r: Vec<String>)
    ensures
        r@ == v@,
{
    let mut out: Vec<String> = Vec::new();
    for i in 0..v.len()
        invariant
            out@ == v@.take(i as int),
    {
        proof {
            assert(v@.take(i + 1) =~= v@.take(i as int).push(v@[i as int]));
        }
        out.push(v[i].clone());
    }
    assert(v@.take(v@.len() as int) =~= v@);
    out
}

/// Whether a character is Unicode white space.
pub fn is_whitespace(c: char) -> (r: bool)
    ensures
        r == is_space(c),
{
    let n: u32 = c as u32;
    (0x9 <= n && n <= 0xd) || n == 0x20 || n == 0x85 || n == 0xa0 || n == 0x1680 || (0x2000 <= n
        && n <= 0x200a) || n == 0x2028 || n == 0x2029 || n == 0x202f || n == 0x205f || n == 0x3000
}

proof fn lemma_trim_start_step(s: Seq<char>, i: int)
    requires
        0 <= i < s.len(),
        is_space(s[i]),
    ensures
        trim_start(s.skip(i)) == trim_start(s.skip(i + 1)),
{
    assert(s.skip(i).drop_first() =~= s.skip(i + 1));
}

/// Where the first character that is no white space is.
fn first_ink(v: &Vec<char>) -> (r: usize)
    ensures
        r <= v@.len(),
        trim_start(v@) == v@.skip(r as int),
{
    let mut i: usize = 0;
    assert(v@.skip(0) =~= v@);
    while i < v.len() && is_whitespace(v[i])
        invariant
            i <= v.len(),
            trim_start(v@.skip(i as int)) == trim_start(v@),
        decreases v.len() - i,
    {
        proof {
            lemma_trim_start_step(v@, i as int);
        }
        i += 1;
    }
    i
}

/// A text without the white space it starts with.
pub fn skip_space(s: &str) -> (r: &str)
    ensures
        r@ == trim_start(s@),
{
    let v = to_chars(s);
    let i: usize = first_ink(&v);
    assert(s@.subrange(i as int, s@.len() as int) =~= s@.skip(i as int));
    s.substring_char(i, v.len())
}

/// A text without the white space around it.
pub fn trim(s: &str) -> (r: &str)
    ensures
        r@ == trimmed(s@),
{
    let v = to_chars(s);
    let i: usize = first_ink(&v);
    let mut j: usize = v.len();
    assert(s@.subrange(i as int, j as int) =~= s@.skip(i as int));
    while i < j && is_whitespace(v[j - 1])
        invariant
            v@ == s@,
            i <= j <= v.len(),
            trim_end(s@.subrange(i as int, j as int)) == trim_end(s@.skip(i as int)),
        decreases j,
    {
        assert(s@.subrange(i as int, j as int).drop_last() =~= s@.subrange(i as int, j - 1));
        j -= 1;
    }
    s.substring_char(i, j)
}

/// A text without any trailing run of `c`.
pub fn trim_end_matches(s: &str, c: char) -> (r: &str)
    ensures
        r@ == trim_end_of(s@, c),
{
    let v = to_chars(s);
    let mut j: usize = v.len();
    assert(s@.take(j as int) =~= s@);
    while j > 0 && v[j - 1] == c
        invariant
            v@ == s@,
            j <= v.len(),
            trim_end_of(s@.take(j as int), c) == trim_end_of(s@, c),
        decreases j,
    {
        assert(s@.take(j as int).drop_last() =~= s@.take(j - 1));
        j -= 1;
    }
    assert(s@.take(j as int) =~= s@.subrange(0, j as int));
    s.substring_char(0, j)
}

/// `find_char` is where `c` first occurs.
pub proof fn lemma_find_char(s: Seq<char>, c: char, i: int)
    requires
        0 <= i <= s.len(),
        forall|j: int| 0 <= j < i ==> s[j] != c,
        i < s.len() ==> s[i] == c,
    ensures
        find_char(s, c) == i,
    decreases s.len(),
{
    if i > 0 {
        lemma_find_char(s.drop_first(), c, i - 1);
    }
}

/// What `find_char` promises of the place it names.
pub proof fn lemma_found_char(s: Seq<char>, c: char)
    ensures
        0 <= find_char(s, c) <= s.len(),
        forall|j: int| 0 <= j < find_char(s, c) ==> s[j] != c,
        find_char(s, c) < s.len() ==> s[find_char(s, c)] == c,
    decreases s.len(),
{
    if s.len() > 0 && s[0] != c {
        let t = s.drop_first();
        lemma_found_char(t, c);
        assert forall|j: int| 0 <= j < find_char(s, c) implies s[j] != c by {
            if j > 0 {
                assert(t[j - 1] == s[j]);
            }
        }
        if find_char(s, c) < s.len() {
            assert(t[find_char(t, c)] == s[find_char(s, c)]);
        }
    }
}

/// Where `c` first occurs at or after `from`: the length when it does not.
fn index_of(v: &Vec<char>, c: char, from: usize) -> (r: usize)
    requires
        from <= v@.len(),
    ensures
        from <= r <= v@.len(),
        r == from + find_char(v@.skip(from as int), c),
{
    let mut i: usize = from;
    while i < v.len() && v[i] != c
        invariant
            from <= i <= v@.len(),
            forall|j: int| from <= j < i ==> v@[j] != c,
        decreases v.len() - i,
    {
        i += 1;
    }
    proof {
        lemma_find_char(v@.skip(from as int), c, i - from);
    }
    i
}

/// Splits a text at every `sep`.
pub fn split(s: &str, sep: char) -> (r: Vec<String>)
    ensures
        texts(r@) == pieces(s@, sep),
{
    let v = to_chars(s);
    let mut out: Vec<String> = Vec::new();
    let mut from: usize = 0;
    assert(s@.skip(0) =~= s@);
    assert(texts(out@) + pieces(s@, sep) =~= pieces(s@, sep));
    loop
        invariant
            v@ == s@,
            from <= v@.len(),
            texts(out@) + pieces(s@.skip(from as int), sep) == pieces(s@, sep),
        decreases v@.len() - from,
    {
        let i: usize = index_of(&v, sep, from);
        let ghost rest = s@.skip(from as int);
        let piece = from_chars(&v, from, i);
        let ghost before = texts(out@);
        out.push(piece);
        proof {
            assert(piece@ =~= rest.take(i - from));
            assert(texts(out@) =~= before.push(piece@));
        }
        if i >= v.len() {
            proof {
                assert(piece@ =~= rest);
                assert(before + seq![rest] =~= before.push(piece@));
            }
            return out;
        }
        proof {
            assert(rest.skip(i - from + 1) =~= s@.skip(i + 1));
            assert(before + (seq![piece@] + pieces(s@.skip(i + 1), sep)) =~= before.push(piece@)
                + pieces(s@.skip(i + 1), sep));
        }
        from = i + 1;
    }
}

/// What follows the last `sep` in a text.
pub fn last_piece(s: &str, sep: char) -> (r: &str)
    ensures
        r@ == after_last(s@, sep),
{
    let v = to_chars(s);
    let mut j: usize = v.len();
    let ghost whole = s@;
    while j > 0 && v[j - 1] != sep
        invariant
            v@ == whole,
            j <= v.len(),
            forall|k: int| j <= k < v.len() ==> v@[k] != sep,
        decreases j,
    {
        j -= 1;
    }
    proof {
        lemma_after_last(whole, sep, j as int);
    }
    s.substring_char(j, v.len())
}

/// `after_last` is the longest ending without `sep`.
pub proof fn lemma_after_last(s: Seq<char>, sep: char, j: int)
    requires
        0 <= j <= s.len(),
        forall|k: int| j <= k < s.len() ==> s[k] != sep,
        j > 0 ==> s[j - 1] == sep,
    ensures
        after_last(s, sep) == s.subrange(j, s.len() as int),
    decreases s.len(),
{
    if j < s.len() {
        assert(s[s.len() - 1] != sep);
        lemma_after_last(s.drop_last(), sep, j);
        assert(s.drop_last().subrange(j, s.len() - 1).push(s.last()) =~= s.subrange(
            j,
            s.len() as int,
        ));
    } else {
        assert(s.subrange(j, s.len() as int) =~= Seq::<char>::empty());
    }
}

/// The lines of a text.
pub fn lines(s: &str) -> (r: Vec<String>)
    ensures
        texts(r@) == lines_of(s@),
{
    let v = to_chars(s);
    let mut out: Vec<String> = Vec::new();
    let mut from: usize = 0;
    assert(s@.skip(0) =~= s@);
    assert(texts(out@) + lines_of(s@) =~= lines_of(s@));
    while from < v.len()
        invariant
            v@ == s@,
            from <= v@.len(),
            texts(out@) + lines_of(s@.skip(from as int)) == lines_of(s@),
        decreases v@.len() - from,
    {
        let i: usize = index_of(&v, '\n', from);
        let ghost rest = s@.skip(from as int);
        let ghost before = texts(out@);
        if i >= v.len() {
            let line = from_chars(&v, from, i);
            out.push(line);
            proof {
                assert(line@ =~= rest);
                assert(texts(out@) =~= before + seq![rest]);
            }
            return out;
        }
        let end: usize = if i > from && v[i - 1] == '\r' {
            i - 1
        } else {
            i
        };
        let line = from_chars(&v, from, end);
        out.push(line);
        proof {
            assert(rest.take(i - from) =~= v@.subrange(from as int, i as int));
            assert(line@ =~= without_cr(rest.take(i - from)));
            assert(rest.skip(i - from + 1) =~= s@.skip(i + 1));
            assert(texts(out@) =~= before.push(line@));
            assert(before + (seq![line@] + lines_of(s@.skip(i + 1))) =~= before.push(line@)
                + lines_of(s@.skip(i + 1)));
        }
        from = i + 1;
    }
    proof {
        assert(texts(out@) + lines_of(s@.skip(from as int)) =~= texts(out@));
    }
    out
}

proof fn lemma_find_space(s: Seq<char>, i: int)
    requires
        0 <= i <= s.len(),
        forall|j: int| 0 <= j < i ==> !is_space(s[j]),
        i < s.len() ==> is_space(s[i]),
    ensures
        find_space(s) == i,
    decreases s.len(),
{
    if i > 0 {
        lemma_find_space(s.drop_first(), i - 1);
    }
}

/// The words of a text.
pub fn words(s: &str) -> (r: Vec<String>)
    ensures
        texts(r@) == words_of(s@),
{
    let v = to_chars(s);
    let mut out: Vec<String> = Vec::new();
    let mut from: usize = 0;
    assert(s@.skip(0) =~= s@);
    assert(texts(out@) + words_of(s@) =~= words_of(s@));
    while from < v.len()
        invariant
            v@ == s@,
            from <= v@.len(),
            texts(out@) + words_of(s@.skip(from as int)) == words_of(s@),
        decreases v@.len() - from,
    {
        let ghost rest = s@.skip(from as int);
        if is_whitespace(v[from]) {
            assert(rest.drop_first() =~= s@.skip(from + 1));
            from += 1;
            continue;
        }
        let mut i: usize = from + 1;
        while i < v.len() && !is_whitespace(v[i])
            invariant
                from < i <= v@.len(),
                forall|j: int| from <= j < i ==> !is_space(v@[j]),
            decreases v.len() - i,
        {
            i += 1;
        }
        let word = from_chars(&v, from, i);
        let ghost before = texts(out@);
        out.push(word);
        proof {
            lemma_find_space(rest, i - from);
            assert(word@ =~= rest.take(i - from));
            assert(rest.skip(i - from) =~= s@.skip(i as int));
            assert(texts(out@) =~= before.push(word@));
            assert(before + (seq![word@] + words_of(s@.skip(i as int))) =~= before.push(word@)
                + words_of(s@.skip(i as int)));
        }
        from = i;
    }
    proof {
        assert(texts(out@) + words_of(s@.skip(from as int)) =~= texts(out@));
    }
    out
}

/// Whether `needle` stands in `hay` at position `i`.
fn stands(hay: &Vec<char>, needle: &Vec<char>, i: usize) -> (r: bool)
    ensures
        r == stands_at(hay@, needle@, i as int),
{
    if i > hay.len() || hay.len() - i < needle.len() {
        return false;
    }
    let mut k: usize = 0;
    while k < needle.len()
        invariant
            i + needle.len() <= hay.len(),
            k <= needle.len(),
            forall|j: int| 0 <= j < k ==> hay@[i + j] == needle@[j],
        decreases needle.len() - k,
    {
        if hay[i + k] != needle[k] {
            assert(hay@.subrange(i as int, i + needle@.len())[k as int] != needle@[k as int]);
            return false;
        }
        k += 1;
    }
    assert(hay@.subrange(i as int, i + needle@.len()) =~= needle@);
    true
}

/// Whether `needle` occurs anywhere in `hay`.
pub fn contains(hay: &str, needle: &str) -> (r: bool)
    ensures
        r == occurs(hay@, needle@),
{
    let h = to_chars(hay);
    let n = to_chars(needle);
    if n.len() > h.len() {
        return false;
    }
    let mut i: usize = 0;
    while i <= h.len() - n.len()
        invariant
            h@ == hay@,
            n@ == needle@,
            n.len() <= h.len(),
            i <= h.len() - n.len() + 1,
            forall|j: int| 0 <= j < i ==> !stands_at(hay@, needle@, j),
        decreases h.len() - i,
    {
        if stands(&h, &n, i) {
            return true;
        }
        if i == h.len() - n.len() {
            return false;
        }
        i += 1;
    }
    false
}

/// Whether a text starts with `prefix`.
pub fn starts_with(s: &str, prefix: &str) -> (r: bool)
    ensures
        r == starts(s@, prefix@),
{
    stands(&to_chars(s), &to_chars(prefix), 0)
}

/// Whether a text ends with `suffix`.
pub fn ends_with(s: &str, suffix: &str) -> (r: bool)
    ensures
        r == ends(s@, suffix@),
{
    let a = to_chars(s);
    let b = to_chars(suffix);
    if b.len() > a.len() {
        return false;
    }
    stands(&a, &b, a.len() - b.len())
}

/// Puts texts together, with `sep` between each two.
pub fn join(parts: &Vec<String>, sep: &str) -> (r: String)
    ensures
        r@ == joined(texts(parts@), sep@),
{
    let mut out = String::new();
    for i in 0..parts.len()
        invariant
            out@ == joined(texts(parts@).take(i as int), sep@),
    {
        let ghost t = texts(parts@);
        proof {
            assert(t.take(i + 1).drop_last() =~= t.take(i as int));
            assert(t.take(i + 1).last() == t[i as int]);
        }
        if i > 0 {
            out.append(sep);
        } else {
            assert(out@ + parts@[0]@ =~= parts@[0]@);
        }
        out.append(parts[i].as_str());
    }
    assert(texts(parts@).take(parts@.len() as int) =~= texts(parts@));
    out
}

/// Two texts, one after the other.
pub fn concat(a: &str, b: &str) -> (r: String)
    ensures
        r@ == a@ + b@,
{
    let mut out = a.to_owned();
    out.append(b);
    out
}

/// Three texts, one after the other.
pub fn concat3(a: &str, b: &str, c: &str) -> (r: String)
    ensures
        r@ == a@ + b@ + c@,
{
    let mut out = a.to_owned();
    out.append(b);
    out.append(c);
    out
}

/// A natural number in decimal.
pub fn decimal(n: u64) -> (r: String)
    ensures
        r@ == decimal_of(n as nat),
    decreases n,
{
    let mut out = if n < 10 {
        String::new()
    } else {
        decimal(n / 10)
    };
    out.push((48u8 + (n % 10) as u8) as char);
    assert(n < 10 ==> out@ =~= seq![digit(n as int)]);
    out
}

/// An integer in decimal.
pub fn signed_decimal(n: i64) -> (r: String)
    ensures
        r@ == signed_decimal_of(n as int),
{
    if n < 0 {
        let magnitude: u64 = if n == i64::MIN {
            0x8000_0000_0000_0000
        } else {
            (0 - n) as u64
        };
        let out = concat("-", decimal(magnitude).as_str());
        proof {
            reveal_strlit("-");
            assert("-"@ =~= seq!['-']);
        }
        out
    } else {
        decimal(n as u64)
    }
}

/// The number of a character.
pub fn code_point(c: char) -> (r: u32)
    ensures
        r as int == c as int,
{
    c as u32
}

/// Whether `a` comes before `b`.
pub fn less(a: &str, b: &str) -> (r: bool)
    ensures
        r == text_lt(a@, b@),
{
    let x = to_chars(a);
    let y = to_chars(b);
    let mut i: usize = 0;
    assert(a@.skip(0) =~= a@);
    assert(b@.skip(0) =~= b@);
    while i < x.len() && i < y.len() && x[i] == y[i]
        invariant
            x@ == a@,
            y@ == b@,
            i <= x.len(),
            i <= y.len(),
            text_lt(a@.skip(i as int), b@.skip(i as int)) == text_lt(a@, b@),
        decreases x.len() - i,
    {
        assert(a@.skip(i as int).drop_first() =~= a@.skip(i + 1));
        assert(b@.skip(i as int).drop_first() =~= b@.skip(i + 1));
        i += 1;
    }
    if i >= y.len() {
        return false;
    }
    if i >= x.len() {
        return true;
    }
    code_point(x[i]) < code_point(y[i])
}

/// A text with its ASCII letters in lower case.
pub fn to_ascii_lowercase(s: &str) -> (r: String)
    ensures
        r@ == ascii_lowercased(s@),
{
    let mut out = String::new();
    for c in it: s.chars()
        invariant
            it.seq() == s@,
            out@ == ascii_lowercased(s@).take(it.index() as int),
    {
        let n: u32 = c as u32;
        let lower: char = if 65 <= n && n <= 90 {
            (n as u8 + 32u8) as char
        } else {
            c
        };
        proof {
            let i = it.index() as int;
            assert(ascii_lowercased(s@).take(i + 1) =~= ascii_lowercased(s@).take(i).push(
                ascii_lower(s@[i]),
            ));
        }
        out.push(lower);
    }
    assert(ascii_lowercased(s@).take(s@.len() as int) =~= ascii_lowercased(s@));
    out
}

/// The order of texts is strict: nothing comes before itself, of two different
/// texts one comes before the other, and never both ways.
pub proof fn law_text_order_is_total(a: Seq<char>, b: Seq<char>)
    ensures
        !text_lt(a, a),
        !(text_lt(a, b) && text_lt(b, a)),
        a != b ==> text_lt(a, b) || text_lt(b, a),
    decreases a.len(),
{
    if a.len() > 0 {
        law_text_order_is_total(a.drop_first(), a.drop_first());
    }
    if a.len() > 0 && b.len() > 0 {
        law_text_order_is_total(a.drop_first(), b.drop_first());
        if a[0] != b[0] {
            assert(a[0] as int != b[0] as int);
        } else if a != b {
            assert(a =~= seq![a[0]] + a.drop_first());
            assert(b =~= seq![b[0]] + b.drop_first());
        }
    } else if a.len() == 0 && b.len() == 0 {
        assert(a =~= b);
    }
}

/// The order of texts is transitive.
pub proof fn law_text_order_is_transitive(a: Seq<char>, b: Seq<char>, c: Seq<char>)
    requires
        text_lt(a, b),
        text_lt(b, c),
    ensures
        text_lt(a, c),
    decreases a.len(),
{
    if a.len() > 0 && b.len() > 0 && c.len() > 0 && a[0] == b[0] && b[0] == c[0] {
        law_text_order_is_transitive(a.drop_first(), b.drop_first(), c.drop_first());
    }
}

/// Texts are ordered by the first character in which they differ, and one that
/// is the start of another comes before it.
pub proof fn law_text_order_goes_by_the_first_difference(a: Seq<char>, b: Seq<char>, k: int)
    requires
        0 <= k <= a.len(),
        k <= b.len(),
        forall|i: int| 0 <= i < k ==> a[i] == b[i],
    ensures
        k < a.len() && k < b.len() && a[k] != b[k] ==> text_lt(a, b) == ((a[k] as int) < (b[k] as int)),
        k == a.len() ==> text_lt(a, b) == (k < b.len()),
        k == b.len() ==> !text_lt(a, b),
    decreases k,
{
    if k > 0 {
        assert(a[0] == b[0]);
        let (x, y) = (a.drop_first(), b.drop_first());
        assert forall|i: int| 0 <= i < k - 1 implies x[i] == y[i] by {
            assert(a[i + 1] == b[i + 1]);
        }
        law_text_order_goes_by_the_first_difference(x, y, k - 1);
    }
}

/// Trimming takes white space off both ends and touches nothing else: what is
/// left is a part of the text with only white space around it, and neither
/// starts nor ends with any.
pub proof fn law_trimming_takes_space_off_the_ends(s: Seq<char>)
    ensures
        exists|a: int, b: int|
            #![trigger s.subrange(a, b)]
            {
                &&& 0 <= a <= b <= s.len()
                &&& trimmed(s) == s.subrange(a, b)
                &&& forall|i: int| 0 <= i < a || b <= i < s.len() ==> is_space(#[trigger] s[i])
            },
        trimmed(s).len() > 0 ==> !is_space(trimmed(s)[0]) && !is_space(trimmed(s).last()),
{
    let t = trim_start(s);
    lemma_trim_start_off(s);
    lemma_trim_end_off(t);
    let a = s.len() - t.len();
    let b = a + trim_end(t).len();
    assert(trim_end(t) =~= s.subrange(a, b));
    assert forall|i: int| 0 <= i < a || b <= i < s.len() implies is_space(#[trigger] s[i]) by {
        if i >= b {
            assert(t[i - a] == s[i]);
        }
    }
    if trimmed(s).len() > 0 {
        assert(trimmed(s)[0] == t[0]);
    }
}

proof fn lemma_trim_start_off(s: Seq<char>)
    ensures
        trim_start(s).len() <= s.len(),
        trim_start(s) == s.skip(s.len() - trim_start(s).len()),
        forall|i: int| 0 <= i < s.len() - trim_start(s).len() ==> is_space(#[trigger] s[i]),
        trim_start(s).len() > 0 ==> !is_space(trim_start(s)[0]),
    decreases s.len(),
{
    if s.len() > 0 && is_space(s[0]) {
        let t = s.drop_first();
        lemma_trim_start_off(t);
        let n = t.len() - trim_start(t).len();
        assert(t.skip(n) =~= s.skip(n + 1));
        assert forall|i: int| 0 <= i < n + 1 implies is_space(#[trigger] s[i]) by {
            if i > 0 {
                assert(t[i - 1] == s[i]);
            }
        }
    } else {
        assert(s.skip(0) =~= s);
    }
}

proof fn lemma_trim_end_off(s: Seq<char>)
    ensures
        trim_end(s).len() <= s.len(),
        trim_end(s) == s.take(trim_end(s).len() as int),
        forall|i: int| trim_end(s).len() <= i < s.len() ==> is_space(#[trigger] s[i]),
        trim_end(s).len() > 0 ==> !is_space(trim_end(s).last()),
    decreases s.len(),
{
    if s.len() > 0 && is_space(s.last()) {
        let t = s.drop_last();
        lemma_trim_end_off(t);
        let n = trim_end(t).len() as int;
        assert(t.take(n) =~= s.take(n));
        assert forall|i: int| n <= i < s.len() implies is_space(#[trigger] s[i]) by {
            if i < t.len() {
                assert(t[i] == s[i]);
            } else {
                assert(s[i] == s.last());
            }
        }
    } else {
        assert(s.take(s.len() as int) =~= s);
    }
}

/// Nothing is left of a text exactly when it is all white space.
pub proof fn law_nothing_is_left_of_blank_text(s: Seq<char>)
    ensures
        trimmed(s).len() == 0 <==> forall|i: int| 0 <= i < s.len() ==> is_space(#[trigger] s[i]),
{
    law_trimming_takes_space_off_the_ends(s);
    let (a, b) = choose|a: int, b: int|
        #![trigger s.subrange(a, b)]
        {
            &&& 0 <= a <= b <= s.len()
            &&& trimmed(s) == s.subrange(a, b)
            &&& forall|i: int| 0 <= i < a || b <= i < s.len() ==> is_space(#[trigger] s[i])
        };
    if trimmed(s).len() > 0 {
        assert(trimmed(s)[0] == s[a]);
    } else {
        assert(a == b);
    }
}

/// The text a number is written as.
pub open spec fn read_decimal(s: Seq<char>) -> int
    decreases s.len(),
{
    if s.len() == 0 {
        0
    } else {
        read_decimal(s.drop_last()) * 10 + (s.last() as int - 48)
    }
}

/// A number reads back as itself, is written in digits alone, and without
/// leading zeros.
pub proof fn law_numbers_read_back(n: nat)
    ensures
        read_decimal(decimal_of(n)) == n,
        decimal_of(n).len() > 0,
        forall|i: int| 0 <= i < decimal_of(n).len() ==> is_digit(#[trigger] decimal_of(n)[i]),
        n > 0 ==> decimal_of(n)[0] != '0',
    decreases n,
{
    let d = decimal_of(n);
    if n >= 10 {
        law_numbers_read_back(n / 10);
        let front = decimal_of(n / 10);
        assert(d.drop_last() =~= front);
        assert forall|i: int| 0 <= i < d.len() implies is_digit(#[trigger] d[i]) by {
            if i < front.len() {
                assert(d[i] == front[i]);
            }
        }
        assert(d[0] == front[0]);
    } else {
        assert(d.drop_last() =~= Seq::empty());
        assert(read_decimal(d.drop_last()) == 0);
    }
}

proof fn lemma_joined_off_the_front(x: Seq<char>, rest: Seq<Seq<char>>, sep: Seq<char>)
    ensures
        joined(seq![x] + rest, sep) == if rest.len() == 0 {
            x
        } else {
            x + sep + joined(rest, sep)
        },
    decreases rest.len(),
{
    let all = seq![x] + rest;
    if rest.len() > 0 {
        assert(all.drop_last() =~= seq![x] + rest.drop_last());
        assert(all.last() == rest.last());
        lemma_joined_off_the_front(x, rest.drop_last(), sep);
        if rest.len() == 1 {
            assert(rest.drop_last() =~= Seq::empty());
            assert(joined(rest, sep) == rest[0]);
        } else {
            assert(joined(all, sep) =~= x + sep + joined(rest, sep));
        }
    }
}

/// Splitting undoes joining: the pieces of a text, put together again with the
/// separator between, give the text back, and none of them holds the separator.
pub proof fn law_splitting_loses_nothing(s: Seq<char>, sep: char)
    ensures
        joined(pieces(s, sep), seq![sep]) == s,
        forall|i: int|
            0 <= i < pieces(s, sep).len() ==> !(#[trigger] pieces(s, sep)[i]).contains(sep),
    decreases s.len(),
{
    lemma_found_char(s, sep);
    let i = find_char(s, sep);
    if 0 <= i < s.len() {
        let rest = s.skip(i + 1);
        law_splitting_loses_nothing(rest, sep);
        lemma_joined_off_the_front(s.take(i), pieces(rest, sep), seq![sep]);
        assert(s =~= s.take(i) + seq![sep] + rest);
    } else {
        assert(joined(seq![s], seq![sep]) == s);
    }
}

/// A line ends at the first newline, without the carriage return before it; what
/// follows are the lines of the rest; and a text without a newline is one line.
pub proof fn law_lines_end_at_newlines(x: Seq<char>, rest: Seq<char>)
    requires
        !x.contains('\n'),
    ensures
        lines_of(x.push('\n') + rest) == seq![
            if x.len() > 0 && x.last() == '\r' {
                x.drop_last()
            } else {
                x
            },
        ] + lines_of(rest),
        x.len() > 0 ==> lines_of(x) == seq![x],
        lines_of(Seq::empty()) == Seq::<Seq<char>>::empty(),
{
    let s = x.push('\n') + rest;
    assert forall|j: int| 0 <= j < x.len() implies s[j] != '\n' by {
        assert(x.contains(x[j]));
    }
    lemma_find_char(s, '\n', x.len() as int);
    assert(s.take(x.len() as int) =~= x);
    assert(s.skip((x.len() + 1) as int) =~= rest);
    assert forall|j: int| 0 <= j < x.len() implies x[j] != '\n' by {
        assert(x.contains(x[j]));
    }
    lemma_find_char(x, '\n', x.len() as int);
}

/// Words are what stands between white space: space in front is passed over, and
/// a word ends where the next space is or the text does.
pub proof fn law_words_stand_between_spaces(w: Seq<char>, c: char, rest: Seq<char>)
    requires
        is_space(c),
        forall|i: int| 0 <= i < w.len() ==> !is_space(#[trigger] w[i]),
    ensures
        words_of(seq![c] + rest) == words_of(rest),
        w.len() > 0 ==> words_of(w.push(c) + rest) == seq![w] + words_of(rest),
        w.len() > 0 ==> words_of(w) == seq![w],
{
    assert((seq![c] + rest).drop_first() =~= rest);
    if w.len() > 0 {
        let n = w.len() as int;
        let s = w.push(c) + rest;
        assert forall|j: int| 0 <= j < n implies !is_space(#[trigger] s[j]) by {
            assert(s[j] == w[j]);
        }
        assert(s[n] == c);
        lemma_find_space(s, n);
        assert(s.take(n) =~= w);
        assert(s.skip(n) =~= seq![c] + rest);
        assert(s.skip(n).drop_first() =~= rest);
        lemma_find_space(w, n);
        assert(w.take(n) =~= w);
        assert(w.skip(n) =~= Seq::empty());
        assert(seq![w] + words_of(w.skip(n)) =~= seq![w]);
    }
}

/// What follows the last separator is all there is behind it, and the whole text
/// where there is none.
pub proof fn law_the_last_piece_is_behind_the_last_separator(
    front: Seq<char>,
    last: Seq<char>,
    sep: char,
)
    requires
        !last.contains(sep),
    ensures
        after_last(front.push(sep) + last, sep) == last,
        after_last(last, sep) == last,
    decreases last.len(),
{
    let s = front.push(sep) + last;
    if last.len() > 0 {
        let t = last.drop_last();
        assert(!t.contains(sep)) by {
            if t.contains(sep) {
                let k = choose|k: int| 0 <= k < t.len() && t[k] == sep;
                assert(last[k] == sep);
            }
        }
        law_the_last_piece_is_behind_the_last_separator(front, t, sep);
        assert(s.drop_last() =~= front.push(sep) + t);
        assert(s.last() == last.last());
        assert(last[last.len() - 1] == last.last());
        assert(last.last() != sep);
        assert(t.push(last.last()) =~= last);
    } else {
        assert(s =~= front.push(sep));
        assert(last =~= Seq::empty());
    }
}

/// A trailing run of a character is taken off whole, and nothing more.
pub proof fn law_a_trailing_run_is_taken_off_whole(s: Seq<char>, c: char)
    ensures
        trim_end_of(s, c).len() <= s.len(),
        trim_end_of(s, c) == s.take(trim_end_of(s, c).len() as int),
        forall|i: int| trim_end_of(s, c).len() <= i < s.len() ==> #[trigger] s[i] == c,
        trim_end_of(s, c).len() > 0 ==> trim_end_of(s, c).last() != c,
    decreases s.len(),
{
    if s.len() > 0 && s.last() == c {
        let t = s.drop_last();
        law_a_trailing_run_is_taken_off_whole(t, c);
        let n = trim_end_of(t, c).len() as int;
        assert(t.take(n) =~= s.take(n));
        assert forall|i: int| n <= i < s.len() implies #[trigger] s[i] == c by {
            if i < t.len() {
                assert(t[i] == s[i]);
            } else {
                assert(s[i] == s.last());
            }
        }
    } else {
        assert(s.take(s.len() as int) =~= s);
    }
}

/// A text starts and ends with what stands there character for character.
pub proof fn law_starts_and_ends_are_literal(s: Seq<char>, x: Seq<char>)
    ensures
        starts(s, x) <==> x.len() <= s.len() && forall|j: int|
            0 <= j < x.len() ==> s[j] == #[trigger] x[j],
        ends(s, x) <==> x.len() <= s.len() && forall|j: int|
            0 <= j < x.len() ==> s[s.len() - x.len() + j] == #[trigger] x[j],
{
    let n = x.len() as int;
    if x.len() <= s.len() {
        let a = s.subrange(0, n);
        let b = s.subrange(s.len() - n, s.len() as int);
        assert forall|j: int| 0 <= j < n implies a[j] == s[j] && b[j] == #[trigger] s[s.len() - n + j] by {}
        if starts(s, x) {
            assert forall|j: int| 0 <= j < x.len() implies s[j] == #[trigger] x[j] by {
                assert(a[j] == x[j]);
            }
        }
        if forall|j: int| 0 <= j < x.len() ==> s[j] == #[trigger] x[j] {
            assert(a =~= x);
        }
        if ends(s, x) {
            assert forall|j: int| 0 <= j < x.len() implies s[s.len() - x.len() + j] == #[trigger] x[j] by {
                assert(b[j] == x[j]);
            }
        }
        if forall|j: int| 0 <= j < x.len() ==> s[s.len() - x.len() + j] == #[trigger] x[j] {
            assert(b =~= x);
        }
    }
}

/// Of the ASCII characters the space, the tab and the line and form breaks are
/// white space, and no other is.
pub proof fn law_what_white_space_is(c: char)
    ensures
        (c as u32) < 128 ==> (is_space(c) <==> c == ' ' || c == '\t' || c == '\n' || c == '\r' || c
            as u32 == 11 || c as u32 == 12),
        is_digit(c) ==> !is_space(c),
{
}

} // verus!
