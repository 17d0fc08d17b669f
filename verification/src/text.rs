//! Character-level helpers shared by the extractor and the scanner.

use vstd::prelude::*;

verus! {

/// Unicode upper-case test of `char::is_uppercase`.
pub uninterp spec fn is_uppercase(c: char) -> bool;

/// Unicode white-space test of `char::is_whitespace`.
pub uninterp spec fn is_whitespace(c: char) -> bool;

/// `char::is_uppercase`: the result is the Unicode `Uppercase` property of `c`,
/// a fixed function of the character.
#[verifier::external_body]
pub(crate) fn char_is_uppercase(c: char) -> (r: bool)
    ensures
        r == is_uppercase(c),
{
    c.is_uppercase()
}

/// `char::is_whitespace`: the result is the Unicode `White_Space` property of
/// `c`, a fixed function of the character.
#[verifier::external_body]
pub(crate) fn char_is_whitespace(c: char) -> (r: bool)
    ensures
        r == is_whitespace(c),
{
    c.is_whitespace()
}

/// `String::push`: appends one character at the end.
#[verifier::external_body]
pub(crate) fn push_char(s: &mut String, c: char)
    ensures
        final(s)@ == old(s)@.push(c),
{
    s.push(c)
}

/// The characters of a string, in order.
pub fn chars_of(s: &str) -> (v: Vec<char>)
    ensures
        v@ == s@,
{
    let mut v: Vec<char> = Vec::new();
    for c in it: s.chars()
        invariant
            it.seq() == s@,
            v@ == it.seq().take(it.index()),
    {
        v.push(c);
        assert(it.seq().take(it.index() + 1) =~= it.seq().take(it.index()).push(c));
    }
    assert(s@.take(s@.len() as int) =~= s@);
    v
}

/// The string whose characters are those of `v`, in order.
pub fn string_of(v: &Vec<char>) -> (s: String)
    ensures
        s@ == v@,
{
    let mut s = String::new();
    let mut i: usize = 0;
    while i < v.len()
        invariant
            i <= v.len(),
            s@ == v@.take(i as int),
        decreases v.len() - i,
    {
        push_char(&mut s, v[i]);
        assert(v@.take(i + 1) =~= v@.take(i as int).push(v@[i as int]));
        i += 1;
    }
    assert(v@.take(v@.len() as int) =~= v@);
    s
}

/// `c` with an ASCII lower-case letter replaced by its upper-case form.
pub open spec fn ascii_upper_spec(c: char) -> char {
    if 'a' <= c && c <= 'z' {
        ((c as u8) - 32) as char
    } else {
        c
    }
}

/// `c` with an ASCII upper-case letter replaced by its lower-case form.
pub open spec fn ascii_lower_spec(c: char) -> char {
    if 'A' <= c && c <= 'Z' {
        ((c as u8) + 32) as char
    } else {
        c
    }
}

/// Upper-cases an ASCII letter and leaves every other character alone.
pub fn ascii_upper(c: char) -> (r: char)
    ensures
        r == ascii_upper_spec(c),
{
    if 'a' <= c && c <= 'z' {
        ((c as u8) - 32) as char
    } else {
        c
    }
}

/// Lower-cases an ASCII letter and leaves every other character alone.
pub fn ascii_lower(c: char) -> (r: char)
    ensures
        r == ascii_lower_spec(c),
{
    if 'A' <= c && c <= 'Z' {
        ((c as u8) + 32) as char
    } else {
        c
    }
}

/// Whether the character at `i` opens a word: it stands first, or right
/// after an underscore.
pub open spec fn opens_word(s: Seq<char>, i: int) -> bool {
    i == 0 || s[i - 1] == '_'
}

/// `s` without its underscores, each character that opens a word put in
/// ASCII upper case.
pub open spec fn camel_case(s: Seq<char>) -> Seq<char>
    decreases s.len(),
{
    if s.len() == 0 {
        Seq::empty()
    } else {
        let i = s.len() - 1;
        let head = camel_case(s.drop_last());
        if s[i] == '_' {
            head
        } else if opens_word(s, i) {
            head.push(ascii_upper_spec(s[i]))
        } else {
            head.push(s[i])
        }
    }
}

/// Turns a `snake_case` file stem into the `CamelCase` name of its device.
pub fn to_camel_case(file_name: &str) -> (name: String)
    ensures
        name@ == camel_case(file_name@),
{
    let chars = chars_of(file_name);
    let mut out: Vec<char> = Vec::new();
    let mut capitalize_next = true;
    let mut i: usize = 0;
    assert(chars@.take(0) =~= Seq::<char>::empty());
    while i < chars.len()
        invariant
            i <= chars.len(),
            chars@ == file_name@,
            out@ == camel_case(chars@.take(i as int)),
            capitalize_next == opens_word(chars@, i as int),
        decreases chars.len() - i,
    {
        let ch = chars[i];
        proof {
            let next = chars@.take(i + 1);
            assert(next.drop_last() =~= chars@.take(i as int));
            assert(next[i as int] == ch);
            assert(opens_word(next, i as int) == opens_word(chars@, i as int));
        }
        if ch == '_' {
            capitalize_next = true;
        } else if capitalize_next {
            out.push(ascii_upper(ch));
            capitalize_next = false;
        } else {
            out.push(ch);
        }
        i += 1;
    }
    assert(chars@.take(chars@.len() as int) =~= chars@);
    string_of(&out)
}

/// `s` with every upper-case character put in ASCII lower case and, unless it
/// stands first, preceded by an underscore.
pub open spec fn snake_case(s: Seq<char>) -> Seq<char>
    decreases s.len(),
{
    if s.len() == 0 {
        Seq::empty()
    } else {
        let i = s.len() - 1;
        let head = snake_case(s.drop_last());
        if !is_uppercase(s[i]) {
            head.push(s[i])
        } else if i == 0 {
            head.push(ascii_lower_spec(s[i]))
        } else {
            head.push('_').push(ascii_lower_spec(s[i]))
        }
    }
}

/// Turns a `CamelCase` enumeration member into the `snake_case` name of its
/// action.
pub fn to_snake_case(enum_variant: &str) -> (action: String)
    ensures
        action@ == snake_case(enum_variant@),
{
    let chars = chars_of(enum_variant);
    let mut out: Vec<char> = Vec::new();
    let mut i: usize = 0;
    assert(chars@.take(0) =~= Seq::<char>::empty());
    while i < chars.len()
        invariant
            i <= chars.len(),
            chars@ == enum_variant@,
            out@ == snake_case(chars@.take(i as int)),
        decreases chars.len() - i,
    {
        let ch = chars[i];
        proof {
            let next = chars@.take(i + 1);
            assert(next.drop_last() =~= chars@.take(i as int));
            assert(next[i as int] == ch);
        }
        if char_is_uppercase(ch) {
            if i != 0 {
                out.push('_');
            }
            out.push(ascii_lower(ch));
        } else {
            out.push(ch);
        }
        i += 1;
    }
    assert(chars@.take(chars@.len() as int) =~= chars@);
    string_of(&out)
}

/// `s` with every ASCII lower-case letter put in upper case.
pub open spec fn upper_case(s: Seq<char>) -> Seq<char> {
    Seq::new(s.len(), |i: int| ascii_upper_spec(s[i]))
}

/// Upper-cases the ASCII letters of `s`.
pub fn to_ascii_uppercase(s: &str) -> (upper: String)
    ensures
        upper@ == upper_case(s@),
{
    let chars = chars_of(s);
    let mut out: Vec<char> = Vec::new();
    let mut i: usize = 0;
    while i < chars.len()
        invariant
            i <= chars.len(),
            chars@ == s@,
            out@.len() == i,
            forall|j: int| 0 <= j < i ==> out@[j] == ascii_upper_spec(chars@[j]),
        decreases chars.len() - i,
    {
        out.push(ascii_upper(chars[i]));
        i += 1;
    }
    assert(out@ =~= upper_case(s@));
    string_of(&out)
}

/// Whether `needle` occurs in `haystack` at offset `at`.
pub open spec fn occurs_at(haystack: Seq<char>, needle: Seq<char>, at: int) -> bool {
    &&& 0 <= at
    &&& at + needle.len() <= haystack.len()
    &&& haystack.subrange(at, at + needle.len()) == needle
}

/// Whether `needle` occurs somewhere in `haystack`.
pub open spec fn contains_text(haystack: Seq<char>, needle: Seq<char>) -> bool {
    exists|at: int| occurs_at(haystack, needle, at)
}

/// Tests whether `needle` occurs in `haystack` at offset `at`.
pub fn matches_at(haystack: &Vec<char>, needle: &Vec<char>, at: usize) -> (r: bool)
    ensures
        r == occurs_at(haystack@, needle@, at as int),
{
    if needle.len() > haystack.len() || at > haystack.len() - needle.len() {
        return false;
    }
    let mut k: usize = 0;
    while k < needle.len()
        invariant
            k <= needle.len(),
            at + needle.len() <= haystack.len(),
            forall|j: int| 0 <= j < k ==> haystack@[at + j] == needle@[j],
        decreases needle.len() - k,
    {
        if haystack[at + k] != needle[k] {
            assert(haystack@.subrange(at as int, at + needle@.len())[k as int] != needle@[k as int]);
            return false;
        }
        k += 1;
    }
    assert(haystack@.subrange(at as int, at + needle@.len()) =~= needle@);
    true
}

/// Tests whether `needle` occurs somewhere in `haystack`.
pub fn contains(haystack: &Vec<char>, needle: &Vec<char>) -> (r: bool)
    ensures
        r == contains_text(haystack@, needle@),
{
    if needle.len() > haystack.len() {
        return false;
    }
    let last: usize = haystack.len() - needle.len();
    let mut at: usize = 0;
    while at < last
        invariant
            at <= last,
            last == haystack.len() - needle.len(),
            needle.len() <= haystack.len(),
            forall|j: int| 0 <= j < at ==> !occurs_at(haystack@, needle@, j),
        decreases last - at,
    {
        if matches_at(haystack, needle, at) {
            return true;
        }
        at += 1;
    }
    matches_at(haystack, needle, last)
}

/// The position of the first comma of `s`; its length where it has none.
pub open spec fn first_comma(s: Seq<char>) -> int
    decreases s.len(),
{
    if s.len() == 0 {
        0
    } else if s[0] == ',' {
        0
    } else {
        1 + first_comma(s.drop_first())
    }
}

/// `s` without the white space it starts with.
pub open spec fn trim_start(s: Seq<char>) -> Seq<char>
    decreases s.len(),
{
    if s.len() > 0 && is_whitespace(s[0]) {
        trim_start(s.drop_first())
    } else {
        s
    }
}

/// `s` without the white space it ends with.
pub open spec fn trim_end(s: Seq<char>) -> Seq<char>
    decreases s.len(),
{
    if s.len() > 0 && is_whitespace(s.last()) {
        trim_end(s.drop_last())
    } else {
        s
    }
}

/// `s` without the white space at either end.
pub open spec fn trimmed(s: Seq<char>) -> Seq<char> {
    trim_end(trim_start(s))
}

/// The second of the fields that commas part `s` into, trimmed; `None` where
/// `s` holds no comma.
pub open spec fn second_field(s: Seq<char>) -> Option<Seq<char>> {
    let cut = first_comma(s);
    if cut >= s.len() {
        None
    } else {
        let rest = s.skip(cut + 1);
        Some(trimmed(rest.take(first_comma(rest))))
    }
}

/// A position with no comma before it, which holds one or is the end, is the
/// first comma.
pub proof fn lemma_first_comma(s: Seq<char>, at: int)
    requires
        0 <= at <= s.len(),
        forall|j: int| 0 <= j < at ==> s[j] != ',',
        at < s.len() ==> s[at] == ',',
    ensures
        first_comma(s) == at,
    decreases s.len(),
{
    if s.len() > 0 && s[0] != ',' {
        lemma_first_comma(s.drop_first(), at - 1);
    }
}

/// Skipping a run of white space at the start leaves what `trim_start` leaves.
pub proof fn lemma_trim_start(s: Seq<char>, at: int)
    requires
        0 <= at <= s.len(),
        forall|j: int| 0 <= j < at ==> is_whitespace(s[j]),
        at < s.len() ==> !is_whitespace(s[at]),
    ensures
        trim_start(s) == s.skip(at),
    decreases s.len(),
{
    if at == 0 {
        assert(s.skip(0) =~= s);
    } else {
        lemma_trim_start(s.drop_first(), at - 1);
        assert(s.drop_first().skip(at - 1) =~= s.skip(at));
    }
}

/// Cutting a run of white space at the end leaves what `trim_end` leaves.
pub proof fn lemma_trim_end(s: Seq<char>, at: int)
    requires
        0 <= at <= s.len(),
        forall|j: int| at <= j < s.len() ==> is_whitespace(s[j]),
        at > 0 ==> !is_whitespace(s[at - 1]),
    ensures
        trim_end(s) == s.take(at),
    decreases s.len(),
{
    if at == s.len() {
        assert(s.take(at) =~= s);
    } else {
        lemma_trim_end(s.drop_last(), at);
        assert(s.drop_last().take(at) =~= s.take(at));
    }
}

/// The characters of `v` from `from` up to `to`.
pub fn slice_chars(v: &Vec<char>, from: usize, to: usize) -> (part: Vec<char>)
    requires
        from <= to <= v.len(),
    ensures
        part@ == v@.subrange(from as int, to as int),
{
    let mut part: Vec<char> = Vec::new();
    let mut i: usize = from;
    while i < to
        invariant
            from <= i <= to,
            to <= v.len(),
            part@ == v@.subrange(from as int, i as int),
        decreases to - i,
    {
        part.push(v[i]);
        assert(v@.subrange(from as int, i + 1) =~= v@.subrange(from as int, i as int).push(
            v@[i as int],
        ));
        i += 1;
    }
    part
}

/// Trims the white space at both ends of `v`.
pub fn trim(v: &Vec<char>) -> (part: Vec<char>)
    ensures
        part@ == trimmed(v@),
{
    let mut start: usize = 0;
    while start < v.len() && char_is_whitespace(v[start])
        invariant
            start <= v.len(),
            forall|j: int| 0 <= j < start ==> is_whitespace(v@[j]),
        decreases v.len() - start,
    {
        start += 1;
    }
    let mut end: usize = v.len();
    while end > start && char_is_whitespace(v[end - 1])
        invariant
            start <= end <= v.len(),
            forall|j: int| end <= j < v.len() ==> is_whitespace(v@[j]),
        decreases end,
    {
        end -= 1;
    }
    proof {
        lemma_trim_start(v@, start as int);
        let rest = v@.skip(start as int);
        lemma_trim_end(rest, end - start);
        assert(rest.take(end - start) =~= v@.subrange(start as int, end as int));
    }
    slice_chars(v, start, end)
}

/// The position of the first comma of `v` at or after `from`; the length of
/// `v` where there is none.
pub fn find_comma(v: &Vec<char>, from: usize) -> (at: usize)
    requires
        from <= v.len(),
    ensures
        from <= at <= v.len(),
        at == from + first_comma(v@.skip(from as int)),
{
    let mut at: usize = from;
    while at < v.len() && v[at] != ','
        invariant
            from <= at <= v.len(),
            forall|j: int| from <= j < at ==> v@[j] != ',',
        decreases v.len() - at,
    {
        at += 1;
    }
    proof {
        lemma_first_comma(v@.skip(from as int), at - from);
    }
    at
}

/// The second comma-separated field of `s`, trimmed.
pub fn second_argument(s: &str) -> (field: Option<String>)
    ensures
        match field {
            Some(name) => second_field(s@) == Some(name@),
            None => second_field(s@) is None,
        },
{
    let chars = chars_of(s);
    let cut = find_comma(&chars, 0);
    assert(chars@.skip(0) =~= chars@);
    if cut >= chars.len() {
        return None;
    }
    let end = find_comma(&chars, cut + 1);
    let raw = slice_chars(&chars, cut + 1, end);
    proof {
        let rest = chars@.skip(cut + 1);
        assert(rest.take(first_comma(rest)) =~= raw@);
    }
    let name = trim(&raw);
    Some(string_of(&name))
}

/// Whether `c` is an ASCII upper-case letter.
pub open spec fn is_ascii_upper(c: char) -> bool {
    'A' <= c && c <= 'Z'
}

/// Whether `c` is an ASCII letter or digit.
pub open spec fn is_ascii_word(c: char) -> bool {
    ('A' <= c && c <= 'Z') || ('a' <= c && c <= 'z') || ('0' <= c && c <= '9')
}

/// Whether `s` is a name in `CamelCase`: ASCII letters and digits, the first
/// an upper-case letter, of which the upper-case test holds what ASCII says.
pub open spec fn is_camel_name(s: Seq<char>) -> bool {
    &&& s.len() > 0
    &&& is_ascii_upper(s[0])
    &&& forall|i: int| 0 <= i < s.len() ==> is_ascii_word(#[trigger] s[i])
    &&& forall|i: int| 0 <= i < s.len() ==> is_uppercase(#[trigger] s[i]) == is_ascii_upper(s[i])
}

/// The first `k` characters of a `CamelCase` name come back from their
/// `snake_case` form, which ends with no underscore.
pub proof fn lemma_case_round_trip_of_prefix(s: Seq<char>, k: int)
    requires
        is_camel_name(s),
        1 <= k <= s.len(),
    ensures
        snake_case(s.take(k)).len() > 0,
        snake_case(s.take(k)).last() != '_',
        camel_case(snake_case(s.take(k))) == s.take(k),
    decreases k,
{
    let word = s.take(k);
    let c = s[k - 1];
    assert(word.last() == c);
    assert(is_ascii_word(c));
    assert(is_uppercase(c) == is_ascii_upper(c));
    if k == 1 {
        assert(word.drop_last() =~= Seq::<char>::empty());
        assert(is_ascii_upper(c));
        let low = ascii_lower_spec(c);
        let snake = snake_case(word);
        let none = Seq::<char>::empty();
        assert(snake_case(none) =~= none);
        assert(camel_case(none) =~= none);
        assert(snake == snake_case(word.drop_last()).push(low));
        assert(snake =~= seq![low]);
        assert(snake.drop_last() =~= none);
        assert(ascii_upper_spec(low) == c);
        assert(low != '_');
        assert(opens_word(snake, 0));
        assert(camel_case(snake) == camel_case(snake.drop_last()).push(c));
        assert(camel_case(snake) =~= seq![c]);
        assert(word =~= seq![c]);
    } else {
        lemma_case_round_trip_of_prefix(s, k - 1);
        let front = s.take(k - 1);
        assert(word.drop_last() =~= front);
        let head = snake_case(front);
        if is_ascii_upper(c) {
            let low = ascii_lower_spec(c);
            let snake = head.push('_').push(low);
            assert(snake_case(word) == snake);
            assert(snake.drop_last() =~= head.push('_'));
            assert(head.push('_').drop_last() =~= head);
            assert(camel_case(head.push('_')) == camel_case(head));
            assert(opens_word(snake, snake.len() - 1));
            assert(ascii_upper_spec(low) == c);
            assert(camel_case(snake) == camel_case(head).push(c));
            assert(front.push(c) =~= word);
        } else {
            let snake = head.push(c);
            assert(snake_case(word) == snake);
            assert(snake.drop_last() =~= head);
            assert(!opens_word(snake, snake.len() - 1));
            assert(camel_case(snake) == camel_case(head).push(c));
            assert(front.push(c) =~= word);
        }
    }
}

/// A name in `CamelCase` comes back from its `snake_case` form: the name of
/// an action leads back to the member that declares it.
pub proof fn lemma_case_round_trip(s: Seq<char>)
    requires
        is_camel_name(s),
    ensures
        camel_case(snake_case(s)) == s,
{
    lemma_case_round_trip_of_prefix(s, s.len() as int);
    assert(s.take(s.len() as int) =~= s);
}

} // verus!
