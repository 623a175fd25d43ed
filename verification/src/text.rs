//! Text, seen as a sequence of characters.
use vstd::prelude::*;
use vstd::string::*;

verus! {

/// The characters with the Unicode property White_Space.
pub open spec fn white_space(c: char) -> bool {
    let code = c as u32;
    ||| 0x09 <= code <= 0x0d
    ||| code == 0x20
    ||| code == 0x85
    ||| code == 0xa0
    ||| code == 0x1680
    ||| 0x2000 <= code <= 0x200a
    ||| code == 0x2028
    ||| code == 0x2029
    ||| code == 0x202f
    ||| code == 0x205f
    ||| code == 0x3000
}

/// `s` without its leading white space.
pub open spec fn trimmed_start(s: Seq<char>) -> Seq<char>
    decreases s.len(),
{
    if s.len() > 0 && white_space(s[0]) {
        trimmed_start(s.skip(1))
    } else {
        s
    }
}

/// `s` without its trailing white space.
pub open spec fn trimmed_end(s: Seq<char>) -> Seq<char>
    decreases s.len(),
{
    if s.len() > 0 && white_space(s.last()) {
        trimmed_end(s.drop_last())
    } else {
        s
    }
}

/// `s` without white space at either end.
pub open spec fn trimmed(s: Seq<char>) -> Seq<char> {
    trimmed_end(trimmed_start(s))
}

/// Nothing is left of `s` without white space at its ends.
pub open spec fn blank(s: Seq<char>) -> bool {
    trimmed(s).len() == 0
}

/// `s` without the leading run of `c`.
pub open spec fn without_leading(s: Seq<char>, c: char) -> Seq<char>
    decreases s.len(),
{
    if s.len() > 0 && s[0] == c {
        without_leading(s.skip(1), c)
    } else {
        s
    }
}

/// `s` without the trailing run of `c`.
pub open spec fn without_trailing(s: Seq<char>, c: char) -> Seq<char>
    decreases s.len(),
{
    if s.len() > 0 && s.last() == c {
        without_trailing(s.drop_last(), c)
    } else {
        s
    }
}

/// Is `c` in the White_Space class?
pub fn is_white_space(c: char) -> (r: bool)
    ensures
        r == white_space(c),
{
    let code: u32 = c as u32;
    (0x09 <= code && code <= 0x0d) || code == 0x20 || code == 0x85 || code == 0xa0 || code == 0x1680
        || (0x2000 <= code && code <= 0x200a) || code == 0x2028 || code == 0x2029 || code == 0x202f
        || code == 0x205f || code == 0x3000
}

/// The characters of `s`.
pub fn chars_of(s: &str) -> (r: Vec<char>)
    ensures
        r@ == s@,
{
    let mut out: Vec<char> = Vec::new();
    for c in it: s.chars()
        invariant
            it.seq() == s@,
            out@ == s@.take(it.index()),
    {
        out.push(c);
        assert(out@ =~= s@.take(it.index() + 1));
    }
    assert(s@.take(s@.len() as int) =~= s@);
    out
}

/// `s` without white space at either end.
pub fn trim(s: &str) -> (r: &str)
    ensures
        r@ == trimmed(s@),
{
    let chars: Vec<char> = chars_of(s);
    let mut from: usize = 0;
    assert(s@.skip(0) =~= s@);
    while from < chars.len() && is_white_space(chars[from])
        invariant
            from <= chars@.len(),
            chars@ == s@,
            trimmed_start(s@) == trimmed_start(s@.skip(from as int)),
        decreases chars@.len() - from,
    {
        assert(s@.skip(from as int).skip(1) =~= s@.skip(from + 1));
        from += 1;
    }
    let ghost rest = s@.skip(from as int);
    let mut to: usize = chars.len();
    assert(s@.subrange(from as int, to as int) =~= rest);
    while from < to && is_white_space(chars[to - 1])
        invariant
            from <= to <= chars@.len(),
            chars@ == s@,
            trimmed_end(rest) == trimmed_end(s@.subrange(from as int, to as int)),
        decreases to,
    {
        assert(s@.subrange(from as int, to as int).drop_last() =~= s@.subrange(
            from as int,
            to - 1,
        ));
        to -= 1;
    }
    s.substring_char(from, to)
}

/// The ASCII lower case of `c`.
pub open spec fn ascii_lower(c: char) -> char {
    if 'A' <= c <= 'Z' {
        (c as u32 + 32) as char
    } else {
        c
    }
}

/// `s` with each ASCII capital turned into its small letter.
pub open spec fn ascii_lowered(s: Seq<char>) -> Seq<char> {
    Seq::new(s.len(), |i: int| ascii_lower(s[i]))
}

/// Every character of `s` is ASCII.
pub open spec fn ascii_only(s: Seq<char>) -> bool {
    forall|i: int| 0 <= i < s.len() ==> (#[trigger] s[i]) as u32 <= 0x7f
}

/// What `str::to_lowercase` returns: the lower case of `s` by the Unicode rules.
pub uninterp spec fn unicode_lowercase(s: Seq<char>) -> Seq<char>;

/// The lower case of `s`: letter by letter where `s` is ASCII, by the Unicode
/// rules otherwise.
pub open spec fn lowercase(s: Seq<char>) -> Seq<char> {
    if ascii_only(s) {
        ascii_lowered(s)
    } else {
        unicode_lowercase(s)
    }
}

/// Calls `str::to_lowercase`. Its result is named `unicode_lowercase`; of ASCII
/// text it is claimed that only the ASCII capitals change, and of any text that
/// something is left of it, since each character gives one or more.
#[verifier::external_body]
fn std_lowercase(s: &str) -> (r: String)
    ensures
        r@ == unicode_lowercase(s@),
        ascii_only(s@) ==> r@ == ascii_lowered(s@),
        s@.len() > 0 ==> r@.len() > 0,
{
    s.to_lowercase()
}

/// The lower case of `s`.
pub fn to_lowercase(s: &str) -> (r: String)
    ensures
        r@ == lowercase(s@),
        s@.len() > 0 <==> r@.len() > 0,
{
    std_lowercase(s)
}

/// `String::push` appends one character.
pub assume_specification[ String::push ](s: &mut String, c: char)
    ensures
        final(s)@ == old(s)@.push(c),
;

fn lower_char(c: char) -> (r: char)
    ensures
        r == ascii_lower(c),
{
    if 'A' <= c && c <= 'Z' {
        ((c as u8) + 32) as char
    } else {
        c
    }
}

/// `s` with each ASCII capital turned into its small letter.
pub fn to_ascii_lowercase(s: &str) -> (r: String)
    ensures
        r@ == ascii_lowered(s@),
{
    let chars: Vec<char> = chars_of(s);
    let mut out: String = String::new();
    let mut i: usize = 0;
    while i < chars.len()
        invariant
            i <= chars@.len(),
            chars@ == s@,
            out@ == ascii_lowered(s@).take(i as int),
        decreases chars@.len() - i,
    {
        out.push(lower_char(chars[i]));
        assert(out@ =~= ascii_lowered(s@).take(i + 1));
        i += 1;
    }
    assert(ascii_lowered(s@).take(s@.len() as int) =~= ascii_lowered(s@));
    out
}

/// Do `a` and `b` hold the same characters?
pub fn same_text(a: &str, b: &str) -> (r: bool)
    ensures
        r == (a@ == b@),
{
    a.to_owned() == b.to_owned()
}

/// Are `a` and `b` equal but for the case of ASCII letters?
pub fn eq_ignore_ascii_case(a: &str, b: &str) -> (r: bool)
    ensures
        r == (ascii_lowered(a@) == ascii_lowered(b@)),
{
    let left: Vec<char> = chars_of(a);
    let right: Vec<char> = chars_of(b);
    if left.len() != right.len() {
        assert(ascii_lowered(a@).len() != ascii_lowered(b@).len());
        return false;
    }
    let mut i: usize = 0;
    while i < left.len()
        invariant
            i <= left@.len(),
            left@.len() == right@.len(),
            left@ == a@,
            right@ == b@,
            forall|j: int| 0 <= j < i ==> ascii_lower(#[trigger] a@[j]) == ascii_lower(b@[j]),
        decreases left@.len() - i,
    {
        if lower_char(left[i]) != lower_char(right[i]) {
            assert(ascii_lowered(a@)[i as int] != ascii_lowered(b@)[i as int]);
            return false;
        }
        i += 1;
    }
    assert(ascii_lowered(a@) =~= ascii_lowered(b@));
    true
}

/// `needle` stands in `hay` from position `i` on.
pub open spec fn occurs_at(hay: Seq<char>, needle: Seq<char>, i: int) -> bool {
    &&& 0 <= i
    &&& i + needle.len() <= hay.len()
    &&& hay.subrange(i, i + needle.len()) == needle
}

/// `needle` stands somewhere in `hay`.
pub open spec fn contains_text(hay: Seq<char>, needle: Seq<char>) -> bool {
    exists|i: int| occurs_at(hay, needle, i)
}

/// The first position at or after `from` where `needle` stands in `hay`.
pub open spec fn found_from(hay: Seq<char>, needle: Seq<char>, from: int) -> Option<int>
    decreases hay.len() - from + 1,
{
    if from < 0 || from + needle.len() > hay.len() {
        None
    } else if occurs_at(hay, needle, from) {
        Some(from)
    } else {
        found_from(hay, needle, from + 1)
    }
}

/// `prefix` stands at the start of `s`.
pub open spec fn begins_with(s: Seq<char>, prefix: Seq<char>) -> bool {
    occurs_at(s, prefix, 0)
}

/// `suffix` stands at the end of `s`.
pub open spec fn closes_with(s: Seq<char>, suffix: Seq<char>) -> bool {
    occurs_at(s, suffix, s.len() - suffix.len())
}

/// Does `needle` stand in `hay` from position `at` on?
fn stands_at(hay: &Vec<char>, needle: &Vec<char>, at: usize) -> (r: bool)
    ensures
        r == occurs_at(hay@, needle@, at as int),
{
    if needle.len() > hay.len() || at > hay.len() - needle.len() {
        return false;
    }
    let mut i: usize = 0;
    let size: usize = hay.len();
    while i < needle.len()
        invariant
            i <= needle@.len(),
            at + needle@.len() <= hay@.len(),
            size == hay@.len(),
            forall|j: int| 0 <= j < i ==> hay@[at + j] == #[trigger] needle@[j],
        decreases needle@.len() - i,
    {
        if hay[at + i] != needle[i] {
            assert(hay@.subrange(at as int, at + needle@.len())[i as int] != needle@[i as int]);
            return false;
        }
        i += 1;
    }
    assert(hay@.subrange(at as int, at + needle@.len()) =~= needle@);
    true
}

/// The first position at or after `from` where `needle` stands in `hay`.
pub fn find_from(hay: &Vec<char>, needle: &Vec<char>, from: usize) -> (r: Option<usize>)
    requires
        from <= hay@.len(),
    ensures
        r is Some == (found_from(hay@, needle@, from as int) is Some),
        r matches Some(i) ==> found_from(hay@, needle@, from as int) == Some(i as int) && occurs_at(
            hay@,
            needle@,
            i as int,
        ) && from <= i,
{
    if needle.len() > hay.len() || from > hay.len() - needle.len() {
        return None;
    }
    let last: usize = hay.len() - needle.len();
    let mut i: usize = from;
    while !stands_at(hay, needle, i)
        invariant
            from <= i <= last,
            last == hay@.len() - needle@.len(),
            found_from(hay@, needle@, from as int) == found_from(hay@, needle@, i as int),
        decreases last - i,
    {
        if i == last {
            assert(found_from(hay@, needle@, i + 1) is None);
            return None;
        }
        i += 1;
    }
    Some(i)
}

/// A position found from `from` on is the first one there; none is found only
/// where there is none.
pub proof fn lemma_found_from(hay: Seq<char>, needle: Seq<char>, from: int)
    requires
        0 <= from,
    ensures
        match found_from(hay, needle, from) {
            Some(i) => from <= i && occurs_at(hay, needle, i) && (forall|j: int|
                from <= j < i ==> !occurs_at(hay, needle, j)),
            None => forall|j: int| from <= j ==> !occurs_at(hay, needle, j),
        },
    decreases hay.len() - from + 1,
{
    if from + needle.len() <= hay.len() && !occurs_at(hay, needle, from) {
        lemma_found_from(hay, needle, from + 1);
    }
}

/// Does `needle` stand in `hay`?
pub fn contains(hay: &str, needle: &str) -> (r: bool)
    ensures
        r == contains_text(hay@, needle@),
{
    let found: Option<usize> = find_from(&chars_of(hay), &chars_of(needle), 0);
    proof {
        lemma_found_from(hay@, needle@, 0);
    }
    found.is_some()
}

/// Does `s` begin with `prefix`?
pub fn starts_with(s: &str, prefix: &str) -> (r: bool)
    ensures
        r == begins_with(s@, prefix@),
{
    stands_at(&chars_of(s), &chars_of(prefix), 0)
}

/// Does `s` end with `suffix`?
pub fn ends_with(s: &str, suffix: &str) -> (r: bool)
    ensures
        r == closes_with(s@, suffix@),
{
    let chars: Vec<char> = chars_of(s);
    let tail: Vec<char> = chars_of(suffix);
    if tail.len() > chars.len() {
        return false;
    }
    stands_at(&chars, &tail, chars.len() - tail.len())
}

/// `s` without the trailing run of `c`.
pub fn trim_end_char(s: &str, c: char) -> (r: &str)
    ensures
        r@ == without_trailing(s@, c),
{
    let chars: Vec<char> = chars_of(s);
    let mut to: usize = chars.len();
    assert(s@.take(to as int) =~= s@);
    while 0 < to && chars[to - 1] == c
        invariant
            to <= chars@.len(),
            chars@ == s@,
            without_trailing(s@, c) == without_trailing(s@.take(to as int), c),
        decreases to,
    {
        assert(s@.take(to as int).drop_last() =~= s@.take(to - 1));
        to -= 1;
    }
    assert(s@.take(to as int) =~= s@.subrange(0, to as int));
    s.substring_char(0, to)
}

/// `s` without the leading run of `c`.
pub fn trim_start_char(s: &str, c: char) -> (r: &str)
    ensures
        r@ == without_leading(s@, c),
{
    let chars: Vec<char> = chars_of(s);
    let mut from: usize = 0;
    assert(s@.skip(0) =~= s@);
    while from < chars.len() && chars[from] == c
        invariant
            from <= chars@.len(),
            chars@ == s@,
            without_leading(s@, c) == without_leading(s@.skip(from as int), c),
        decreases chars@.len() - from,
    {
        assert(s@.skip(from as int).skip(1) =~= s@.skip(from + 1));
        from += 1;
    }
    assert(s@.skip(from as int) =~= s@.subrange(from as int, s@.len() as int));
    s.substring_char(from, chars.len())
}

/// What is left without the leading run of `c` is a tail of `s` that does not
/// begin with `c`.
pub proof fn lemma_without_leading(s: Seq<char>, c: char)
    ensures
        without_leading(s, c).len() <= s.len(),
        without_leading(s, c) == s.skip(s.len() - without_leading(s, c).len()),
        without_leading(s, c).len() > 0 ==> without_leading(s, c)[0] != c,
    decreases s.len(),
{
    if s.len() > 0 && s[0] == c {
        lemma_without_leading(s.skip(1), c);
        let rest = without_leading(s, c);
        assert(s.skip(1).skip(s.len() - 1 - rest.len()) =~= s.skip(s.len() - rest.len()));
    } else {
        assert(s.skip(0) =~= s);
    }
}

/// What is left without the trailing run of `c` is a head of `s` that does not
/// end with `c`.
pub proof fn lemma_without_trailing(s: Seq<char>, c: char)
    ensures
        without_trailing(s, c).len() <= s.len(),
        without_trailing(s, c) == s.take(without_trailing(s, c).len() as int),
        without_trailing(s, c).len() > 0 ==> without_trailing(s, c).last() != c,
    decreases s.len(),
{
    if s.len() > 0 && s.last() == c {
        lemma_without_trailing(s.drop_last(), c);
        let rest = without_trailing(s, c);
        assert(s.drop_last().take(rest.len() as int) =~= s.take(rest.len() as int));
    } else {
        assert(s.take(s.len() as int) =~= s);
    }
}

proof fn lemma_trimmed_start(s: Seq<char>)
    ensures
        trimmed_start(s).len() > 0 ==> !white_space(trimmed_start(s)[0]),
    decreases s.len(),
{
    if s.len() > 0 && white_space(s[0]) {
        lemma_trimmed_start(s.skip(1));
    }
}

proof fn lemma_trimmed_end(s: Seq<char>)
    ensures
        trimmed_end(s).len() <= s.len(),
        trimmed_end(s).len() > 0 ==> trimmed_end(s)[0] == s[0] && !white_space(
            trimmed_end(s).last(),
        ),
    decreases s.len(),
{
    if s.len() > 0 && white_space(s.last()) {
        lemma_trimmed_end(s.drop_last());
    }
}

/// A text without white space at its ends has none to lose there.
pub proof fn lemma_trimmed_twice(s: Seq<char>)
    ensures
        trimmed(trimmed(s)) == trimmed(s),
{
    lemma_trimmed_start(s);
    lemma_trimmed_end(trimmed_start(s));
}

/// The content of a text that may be there.
pub open spec fn maybe_str(text: Option<&str>) -> Option<Seq<char>> {
    match text {
        Some(value) => Some(value@),
        None => None,
    }
}

/// The contents of a list of texts.
pub open spec fn strs(list: Seq<&str>) -> Seq<Seq<char>> {
    Seq::new(list.len(), |i: int| list[i]@)
}

/// The pieces of `s` between the places where `c` stands.
pub open spec fn pieces(s: Seq<char>, c: char) -> Seq<Seq<char>>
    decreases s.len(),
{
    if s.len() == 0 {
        seq![Seq::<char>::empty()]
    } else {
        let before = pieces(s.drop_last(), c);
        if s.last() == c {
            before.push(Seq::<char>::empty())
        } else {
            before.drop_last().push(before.last().push(s.last()))
        }
    }
}

/// The contents of a list of strings.
pub open spec fn texts(list: Seq<String>) -> Seq<Seq<char>> {
    Seq::new(list.len(), |i: int| list[i]@)
}

/// The pieces of `s` between the places where `c` stands.
pub fn split(s: &str, c: char) -> (r: Vec<String>)
    ensures
        texts(r@) == pieces(s@, c),
        r@.len() > 0,
{
    let chars: Vec<char> = chars_of(s);
    let mut done: Vec<String> = Vec::new();
    let mut open: String = String::new();
    let mut i: usize = 0;
    assert(s@.take(0) =~= Seq::<char>::empty());
    assert(texts(done@).push(open@) =~= seq![Seq::<char>::empty()]);
    while i < chars.len()
        invariant
            i <= chars@.len(),
            chars@ == s@,
            texts(done@).push(open@) == pieces(s@.take(i as int), c),
        decreases chars@.len() - i,
    {
        let ghost so_far = texts(done@).push(open@);
        assert(s@.take(i + 1).drop_last() =~= s@.take(i as int));
        assert(so_far.drop_last() =~= texts(done@));
        if chars[i] == c {
            let ghost before = done@;
            let ghost piece = open;
            done.push(open);
            open = String::new();
            assert(texts(done@) =~= texts(before).push(piece@));
            assert(texts(done@).push(open@) =~= pieces(s@.take(i + 1), c));
        } else {
            open.push(chars[i]);
            assert(texts(done@).push(open@) =~= pieces(s@.take(i + 1), c));
        }
        i += 1;
    }
    assert(s@.take(s@.len() as int) =~= s@);
    let ghost before = done@;
    let ghost piece = open;
    done.push(open);
    assert(texts(done@) =~= texts(before).push(piece@));
    done
}

/// The texts of `parts` one after the other, with `sep` between each two.
pub open spec fn joined(parts: Seq<Seq<char>>, sep: Seq<char>) -> Seq<char>
    decreases parts.len(),
{
    if parts.len() == 0 {
        Seq::<char>::empty()
    } else if parts.len() == 1 {
        parts[0]
    } else {
        joined(parts.drop_last(), sep) + sep + parts.last()
    }
}

/// The texts of `parts` one after the other, with `sep` between each two.
pub fn join(parts: &Vec<String>, sep: &str) -> (r: String)
    ensures
        r@ == joined(texts(parts@), sep@),
{
    let mut out: String = String::new();
    let mut i: usize = 0;
    assert(texts(parts@).take(0) =~= Seq::<Seq<char>>::empty());
    while i < parts.len()
        invariant
            i <= parts@.len(),
            out@ == joined(texts(parts@).take(i as int), sep@),
        decreases parts@.len() - i,
    {
        assert(texts(parts@).take(i + 1).drop_last() =~= texts(parts@).take(i as int));
        if i > 0 {
            out.append(sep);
        }
        out.append(parts[i].as_str());
        assert(out@ =~= joined(texts(parts@).take(i + 1), sep@));
        i += 1;
    }
    assert(texts(parts@).take(parts@.len() as int) =~= texts(parts@));
    out
}

/// `a` followed by `b`.
pub fn concat2(a: &str, b: &str) -> (r: String)
    ensures
        r@ == a@ + b@,
{
    let mut out: String = a.to_owned();
    out.append(b);
    out
}

/// `a`, `b` and `c` in a row.
pub fn concat3(a: &str, b: &str, c: &str) -> (r: String)
    ensures
        r@ == a@ + b@ + c@,
{
    let mut out: String = concat2(a, b);
    out.append(c);
    out
}

/// The first `limit` characters of `s`, or all of it where it is shorter.
pub open spec fn shortened(s: Seq<char>, limit: int) -> Seq<char> {
    if s.len() <= limit {
        s
    } else {
        s.take(limit)
    }
}

/// The first `limit` characters of `s`, or all of it where it is shorter.
pub fn take_chars(s: &str, limit: usize) -> (r: String)
    ensures
        r@ == shortened(s@, limit as int),
{
    if s.unicode_len() <= limit {
        s.to_owned()
    } else {
        assert(s@.subrange(0, limit as int) =~= s@.take(limit as int));
        s.substring_char(0, limit).to_owned()
    }
}

/// A copy of `list`.
pub fn copy_texts(list: &Vec<String>) -> (r: Vec<String>)
    ensures
        r@ == list@,
{
    let mut out: Vec<String> = Vec::new();
    let mut i: usize = 0;
    while i < list.len()
        invariant
            i <= list@.len(),
            out@ == list@.take(i as int),
        decreases list@.len() - i,
    {
        out.push(list[i].clone());
        assert(out@ =~= list@.take(i + 1));
        i += 1;
    }
    assert(list@.take(list@.len() as int) =~= list@);
    out
}

/// `a` comes before `b` in the order of their characters, the first ones first.
pub open spec fn text_before(a: Seq<char>, b: Seq<char>) -> bool
    decreases a.len(),
{
    if b.len() == 0 {
        false
    } else if a.len() == 0 {
        true
    } else if a[0] == b[0] {
        text_before(a.skip(1), b.skip(1))
    } else {
        a[0] < b[0]
    }
}

/// No text comes before itself.
pub proof fn lemma_order_irreflexive(a: Seq<char>)
    ensures
        !text_before(a, a),
    decreases a.len(),
{
    if a.len() > 0 {
        lemma_order_irreflexive(a.skip(1));
    }
}

/// What comes before a text that comes before a third comes before the third.
pub proof fn lemma_order_transitive(a: Seq<char>, b: Seq<char>, c: Seq<char>)
    requires
        text_before(a, b),
        text_before(b, c),
    ensures
        text_before(a, c),
    decreases a.len(),
{
    if a.len() > 0 && a[0] == b[0] && b[0] == c[0] {
        lemma_order_transitive(a.skip(1), b.skip(1), c.skip(1));
    }
}

/// Of two different texts one comes before the other.
pub proof fn lemma_order_total(a: Seq<char>, b: Seq<char>)
    ensures
        text_before(a, b) || text_before(b, a) || a == b,
    decreases a.len(),
{
    if a.len() == 0 || b.len() == 0 {
        assert(a.len() == 0 && b.len() == 0 ==> a =~= b);
    } else if a[0] == b[0] {
        lemma_order_total(a.skip(1), b.skip(1));
        if a.skip(1) == b.skip(1) {
            assert forall|i: int| 0 <= i < a.len() implies a[i] == b[i] by {
                if i > 0 {
                    assert(a.skip(1)[i - 1] == b.skip(1)[i - 1]);
                }
            }
            assert(a.len() == a.skip(1).len() + 1);
            assert(a =~= b);
        }
    }
}

/// Does `a` come before `b`?
pub fn precedes(a: &str, b: &str) -> (r: bool)
    ensures
        r == text_before(a@, b@),
{
    let left: Vec<char> = chars_of(a);
    let right: Vec<char> = chars_of(b);
    let mut i: usize = 0;
    assert(a@.skip(0) =~= a@);
    assert(b@.skip(0) =~= b@);
    while i < left.len() && i < right.len() && left[i] == right[i]
        invariant
            i <= left@.len(),
            i <= right@.len(),
            left@ == a@,
            right@ == b@,
            text_before(a@, b@) == text_before(a@.skip(i as int), b@.skip(i as int)),
        decreases left@.len() - i,
    {
        assert(a@.skip(i as int).skip(1) =~= a@.skip(i + 1));
        assert(b@.skip(i as int).skip(1) =~= b@.skip(i + 1));
        i += 1;
    }
    if i == right.len() {
        false
    } else if i == left.len() {
        true
    } else {
        left[i] < right[i]
    }
}

proof fn lemma_last_piece(s: Seq<char>, c: char)
    ensures
        pieces(s, c).len() > 0,
        !pieces(s, c).last().contains(c),
    decreases s.len(),
{
    if s.len() > 0 {
        lemma_last_piece(s.drop_last(), c);
        let before = pieces(s.drop_last(), c).last();
        if s.last() != c {
            let grown = before.push(s.last());
            assert forall|i: int| 0 <= i < grown.len() implies grown[i] != c by {
                if i < before.len() {
                    assert(grown[i] == before[i]);
                }
            }
        }
    }
}

proof fn lemma_one_piece(s: Seq<char>, c: char)
    requires
        !s.contains(c),
    ensures
        pieces(s, c) == seq![s],
    decreases s.len(),
{
    if s.len() == 0 {
        assert(s =~= Seq::<char>::empty());
    } else {
        let head = s.drop_last();
        assert forall|i: int| 0 <= i < head.len() implies head[i] != c by {
            assert(head[i] == s[i]);
        }
        lemma_one_piece(head, c);
        assert(s[s.len() - 1] == s.last());
        assert(head.push(s.last()) =~= s);
        assert(pieces(s, c) =~= seq![s]);
    }
}

/// Cutting a text into pieces can be done part by part: what follows a part goes
/// on with the last piece of that part.
pub proof fn law_pieces_of_parts(s: Seq<char>, t: Seq<char>, c: char)
    ensures
        pieces(s, c).len() > 0,
        pieces(s + t, c) == pieces(s, c).drop_last() + pieces(pieces(s, c).last() + t, c),
    decreases t.len(),
{
    let first = pieces(s, c);
    let open = first.last();
    lemma_last_piece(s, c);
    if t.len() == 0 {
        lemma_one_piece(open, c);
        assert(s + t =~= s);
        assert(open + t =~= open);
        assert(first =~= first.drop_last() + seq![open]);
    } else {
        let head = t.drop_last();
        law_pieces_of_parts(s, head, c);
        assert((s + t).drop_last() =~= s + head);
        assert((open + t).drop_last() =~= open + head);
        let before = pieces(open + head, c);
        lemma_last_piece(open + head, c);
        assert((s + t).last() == t.last() && (open + t).last() == t.last());
        assert((first.drop_last() + before).last() == before.last());
        assert((first.drop_last() + before).drop_last() =~= first.drop_last()
            + before.drop_last());
        assert(pieces(s + t, c) =~= first.drop_last() + pieces(open + t, c));
    }
}

/// Of the ASCII characters the blank, the tab and the line ends are white space, and
/// of the others those that Unicode counts as such.
pub proof fn law_white_space(c: char)
    ensures
        c as u32 <= 0x7f ==> (white_space(c) <==> c == ' ' || c == '\t' || c == '\n' || c == '\r'
            || c as u32 == 0x0b || c as u32 == 0x0c),
        c as u32 > 0x7f ==> (white_space(c) <==> c as u32 == 0x85 || c as u32 == 0xa0 || c as u32
            == 0x1680 || 0x2000 <= c as u32 <= 0x200a || c as u32 == 0x2028 || c as u32 == 0x2029
            || c as u32 == 0x202f || c as u32 == 0x205f || c as u32 == 0x3000),
{
}

/// Every character of `s` is white space.
pub open spec fn all_white(s: Seq<char>) -> bool {
    forall|i: int| 0 <= i < s.len() ==> white_space(#[trigger] s[i])
}

proof fn lemma_start_cut(s: Seq<char>) -> (k: int)
    ensures
        0 <= k <= s.len(),
        all_white(s.take(k)),
        trimmed_start(s) == s.skip(k),
        k < s.len() ==> !white_space(s[k]),
    decreases s.len(),
{
    if s.len() > 0 && white_space(s[0]) {
        let rest = s.skip(1);
        let k = lemma_start_cut(rest);
        assert(rest.skip(k) =~= s.skip(k + 1));
        assert forall|i: int| 0 <= i < s.take(k + 1).len() implies white_space(
            #[trigger] s.take(k + 1)[i],
        ) by {
            if i > 0 {
                assert(rest.take(k)[i - 1] == s[i]);
            }
        }
        if k + 1 < s.len() {
            assert(rest[k] == s[k + 1]);
        }
        k + 1
    } else {
        assert(s.skip(0) =~= s);
        0
    }
}

proof fn lemma_end_cut(s: Seq<char>) -> (k: int)
    ensures
        0 <= k <= s.len(),
        all_white(s.skip(k)),
        trimmed_end(s) == s.take(k),
        k > 0 ==> !white_space(s[k - 1]),
    decreases s.len(),
{
    if s.len() > 0 && white_space(s.last()) {
        let rest = s.drop_last();
        let k = lemma_end_cut(rest);
        assert(rest.take(k) =~= s.take(k));
        assert forall|i: int| 0 <= i < s.skip(k).len() implies white_space(
            #[trigger] s.skip(k)[i],
        ) by {
            if i < rest.len() - k {
                assert(rest.skip(k)[i] == s.skip(k)[i]);
            }
        }
        k
    } else {
        assert(s.take(s.len() as int) =~= s);
        s.len() as int
    }
}

/// Trimming takes white space from both ends of a text and nothing else, and leaves
/// none there.
pub proof fn law_trimmed(s: Seq<char>)
    ensures
        exists|a: Seq<char>, b: Seq<char>| #[trigger]
            all_white(a) && #[trigger] all_white(b) && s == a + trimmed(s) + b,
        trimmed(s).len() > 0 ==> !white_space(trimmed(s)[0]) && !white_space(trimmed(s).last()),
        trimmed(trimmed(s)) == trimmed(s),
        trimmed(s).len() == 0 <==> all_white(s),
{
    let k = lemma_start_cut(s);
    let m = s.skip(k);
    let n = lemma_end_cut(m);
    let a = s.take(k);
    let b = m.skip(n);
    assert(s =~= a + m.take(n) + b);
    assert(all_white(a) && all_white(b));
    lemma_trimmed_twice(s);
    if trimmed(s).len() > 0 {
        assert(trimmed(s)[0] == s[k]);
    }
    if trimmed(s).len() == 0 {
        assert forall|i: int| 0 <= i < s.len() implies white_space(#[trigger] s[i]) by {
            if i < k {
                assert(a[i] == s[i]);
            } else {
                assert(b[i - k] == s[i]);
            }
        }
    } else {
        assert(!white_space(s[k]));
    }
}

/// Each capital turns into the letter at the same place of the alphabet of small
/// letters; every other character stays.
pub proof fn law_ascii_lower(c: char)
    ensures
        'A' <= c <= 'Z' ==> ascii_lower(c) as int - 'a' as int == c as int - 'A' as int,
        !('A' <= c <= 'Z') ==> ascii_lower(c) == c,
        ascii_lower(ascii_lower(c)) == ascii_lower(c),
{
}

/// Lower case keeps the length of a text that is ASCII, and turns it letter by
/// letter; done twice it changes no more.
pub proof fn law_lowercase(s: Seq<char>)
    requires
        ascii_only(s),
    ensures
        lowercase(s).len() == s.len(),
        forall|i: int|
            0 <= i < s.len() ==> ('A' <= #[trigger] s[i] <= 'Z' ==> lowercase(s)[i] as int
                == s[i] as int + 32) && (!('A' <= s[i] <= 'Z') ==> lowercase(s)[i] == s[i]),
        lowercase(lowercase(s)) == lowercase(s),
{
    assert forall|i: int| 0 <= i < s.len() implies (#[trigger] lowercase(s)[i]) as u32 <= 0x7f by {
        assert(s[i] as u32 <= 0x7f);
    }
    assert(ascii_only(lowercase(s)));
    assert(lowercase(lowercase(s)) =~= lowercase(s));
}

proof fn lemma_joined_push(parts: Seq<Seq<char>>, last: Seq<char>, sep: Seq<char>)
    requires
        parts.len() > 0,
    ensures
        joined(parts.push(last), sep) == joined(parts, sep) + sep + last,
{
    assert(parts.push(last).drop_last() =~= parts);
}

proof fn lemma_pieces_there(s: Seq<char>, c: char)
    ensures
        pieces(s, c).len() > 0,
    decreases s.len(),
{
    if s.len() > 0 {
        lemma_pieces_there(s.drop_last(), c);
    }
}

/// The pieces of a text, with the mark between each two, are the text again, and the
/// mark stands in none of them.
pub proof fn law_pieces(s: Seq<char>, c: char)
    ensures
        joined(pieces(s, c), seq![c]) == s,
        pieces(s, c).len() > 0,
        forall|i: int| 0 <= i < pieces(s, c).len() ==> !(#[trigger] pieces(s, c)[i]).contains(c),
    decreases s.len(),
{
    lemma_pieces_there(s, c);
    if s.len() > 0 {
        let rest = s.drop_last();
        law_pieces(rest, c);
        let before = pieces(rest, c);
        let all = pieces(s, c);
        if s.last() == c {
            lemma_joined_push(before, Seq::<char>::empty(), seq![c]);
            assert(joined(all, seq![c]) =~= s);
        } else {
            let open = before.last().push(s.last());
            let start = before.drop_last();
            if start.len() > 0 {
                lemma_joined_push(start, before.last(), seq![c]);
                lemma_joined_push(start, open, seq![c]);
                assert(before =~= start.push(before.last()));
                assert(all == start.push(open));
                assert(rest == joined(start, seq![c]) + seq![c] + before.last());
                assert(s =~= rest.push(s.last()));
                assert(joined(start, seq![c]) + seq![c] + open =~= rest.push(s.last()));
            } else {
                assert(all == start.push(open));
                assert(rest == before[0]);
                assert(all[0] =~= s);
            }
            assert(joined(all, seq![c]) == s);
            assert forall|i: int| 0 <= i < all.len() implies !(#[trigger] all[i]).contains(c) by {
                if i < start.len() {
                    assert(all[i] == before[i]);
                } else {
                    let last = before[before.len() - 1];
                    assert(!last.contains(c));
                    if open.contains(c) {
                        let k = choose|k: int| 0 <= k < open.len() && open[k] == c;
                        assert(last[k] == c);
                    }
                }
            }
        }
    }
}

/// Joining puts the separator between the texts and nowhere else.
pub proof fn law_joined(a: Seq<char>, b: Seq<char>, parts: Seq<Seq<char>>, sep: Seq<char>)
    ensures
        joined(Seq::<Seq<char>>::empty(), sep).len() == 0,
        joined(seq![a], sep) == a,
        joined(seq![a, b], sep) == a + sep + b,
        parts.len() > 0 ==> joined(parts.push(a), sep) == joined(parts, sep) + sep + a,
{
    assert(seq![a, b] =~= seq![a].push(b));
    lemma_joined_push(seq![a], b, sep);
    if parts.len() > 0 {
        lemma_joined_push(parts, a, sep);
    }
}

/// Of two texts the one comes first whose first different character is less, or that
/// ends where the other goes on.
pub proof fn law_text_order(
    start: Seq<char>,
    x: char,
    y: char,
    a: Seq<char>,
    b: Seq<char>,
)
    ensures
        x < y ==> text_before(start + seq![x] + a, start + seq![y] + b),
        y < x ==> !text_before(start + seq![x] + a, start + seq![y] + b),
        text_before(start, start + seq![x] + a),
        !text_before(start + seq![x] + a, start),
    decreases start.len(),
{
    let left = start + seq![x] + a;
    let right = start + seq![y] + b;
    if start.len() > 0 {
        let rest = start.skip(1);
        law_text_order(rest, x, y, a, b);
        assert(left.skip(1) =~= rest + seq![x] + a);
        assert(right.skip(1) =~= rest + seq![y] + b);
    }
}

/// A shortened text is the start of the text, of the given length where there is
/// more.
pub proof fn law_shortened(s: Seq<char>, limit: int)
    requires
        limit >= 0,
    ensures
        shortened(s, limit).is_prefix_of(s),
        s.len() > limit ==> shortened(s, limit).len() == limit,
        s.len() <= limit ==> shortened(s, limit) == s,
{
}

/// A text stands in another exactly where the other is made of something, that text
/// and something more.
pub proof fn law_contains_text(hay: Seq<char>, needle: Seq<char>)
    ensures
        contains_text(hay, needle) <==> exists|a: Seq<char>, b: Seq<char>|
            hay == #[trigger] (a + needle + b),
        forall|a: Seq<char>, b: Seq<char>| contains_text(#[trigger] (a + needle + b), needle),
{
    assert forall|a: Seq<char>, b: Seq<char>| contains_text(
        #[trigger] (a + needle + b),
        needle,
    ) by {
        let all = a + needle + b;
        assert(all.subrange(a.len() as int, (a.len() + needle.len()) as int) =~= needle);
        assert(occurs_at(all, needle, a.len() as int));
    }
    if contains_text(hay, needle) {
        let i = choose|i: int| occurs_at(hay, needle, i);
        let a = hay.take(i);
        let b = hay.skip(i + needle.len());
        assert(hay =~= a + needle + b);
    }
}

/// A text begins with another where it is the other and something more, and ends with it where
/// it is something and the other.
pub proof fn law_ends(s: Seq<char>, part: Seq<char>)
    ensures
        begins_with(s, part) <==> exists|rest: Seq<char>| s == #[trigger] (part + rest),
        closes_with(s, part) <==> exists|start: Seq<char>| s == #[trigger] (start + part),
{
    if begins_with(s, part) {
        assert(s =~= part + s.skip(part.len() as int));
    }
    if exists|rest: Seq<char>| s == #[trigger] (part + rest) {
        let rest = choose|rest: Seq<char>| s == #[trigger] (part + rest);
        assert(s.subrange(0, part.len() as int) =~= part);
    }
    if closes_with(s, part) {
        assert(s =~= s.take(s.len() - part.len()) + part);
    }
    if exists|start: Seq<char>| s == #[trigger] (start + part) {
        let start = choose|start: Seq<char>| s == #[trigger] (start + part);
        assert(s.subrange(s.len() - part.len(), s.len() as int) =~= part);
    }
}

/// A character is taken off the start or the end of a text as often as it stands there, and
/// nothing else is.
pub proof fn law_taken_off_ends(s: Seq<char>, c: char)
    ensures
        without_leading(seq![c] + s, c) == without_leading(s, c),
        without_trailing(s.push(c), c) == without_trailing(s, c),
        s.len() == 0 || s[0] != c ==> without_leading(s, c) == s,
        s.len() == 0 || s.last() != c ==> without_trailing(s, c) == s,
{
    assert((seq![c] + s).skip(1) =~= s);
    assert(s.push(c).drop_last() =~= s);
}

} // verus!
